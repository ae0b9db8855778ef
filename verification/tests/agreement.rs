use semantics::{Environment, EvalError, Expr, Machine, Stmt, Value};

fn var(name: &str) -> Box<Expr> {
    Box::new(Expr::Variable(name.into()))
}

fn num(n: i64) -> Box<Expr> {
    Box::new(Expr::Number(n))
}

fn seq(first: Stmt, second: Stmt) -> Stmt {
    Stmt::Sequence { first: Box::new(first), second: Box::new(second) }
}

fn assign(name: &str, expr: Expr) -> Stmt {
    Stmt::Assign(name.into(), expr)
}

/// total = 0; i = 0; while (i < n) { i = i + 1; total = total + i * i }
fn sum_of_squares() -> Stmt {
    seq(
        assign("total", Expr::Number(0)),
        seq(
            assign("i", Expr::Number(0)),
            Stmt::While {
                condition: Expr::LessThan(var("i"), var("n")),
                body: Box::new(seq(
                    assign("i", Expr::Add(var("i"), num(1))),
                    assign("total", Expr::Add(var("total"), Box::new(Expr::Multiply(var("i"), var("i"))))),
                )),
            },
        ),
    )
}

fn programs() -> Vec<(Stmt, Environment)> {
    let mut n_is_5 = Environment::new();
    n_is_5.insert("n".into(), Value::Number(5));
    let mut x_is_1 = Environment::new();
    x_is_1.insert("x".into(), Value::Number(1));
    let mut x_is_2 = Environment::new();
    x_is_2.insert("x".into(), Value::Number(2));
    vec![
        (Stmt::DoNothing, x_is_1.clone()),
        (assign("x", Expr::Add(var("x"), num(1))), x_is_2.clone()),
        (
            Stmt::If {
                condition: Expr::LessThan(var("x"), num(3)),
                consequence: Box::new(assign("y", Expr::Multiply(var("x"), num(2)))),
                alternative: Box::new(Stmt::DoNothing),
            },
            x_is_2.clone(),
        ),
        (
            Stmt::While {
                condition: Expr::LessThan(var("x"), num(5)),
                body: Box::new(assign("x", Expr::Multiply(var("x"), num(3)))),
            },
            x_is_1.clone(),
        ),
        (sum_of_squares(), n_is_5),
        (sum_of_squares(), Environment::new()),
        (assign("x", Expr::LessThan(num(1), Box::new(Expr::Boolean(true)))), Environment::new()),
        (
            Stmt::If {
                condition: Expr::Add(num(1), num(1)),
                consequence: Box::new(Stmt::DoNothing),
                alternative: Box::new(Stmt::DoNothing),
            },
            Environment::new(),
        ),
        (
            seq(assign("x", Expr::Add(var("x"), num(i64::MAX))), assign("y", Expr::Variable("z".into()))),
            x_is_1,
        ),
    ]
}

#[test]
fn machine_and_evalute_agree() {
    for (stmt, env) in programs() {
        let in_one_go = stmt.evalute(env.clone());
        let mut machine = Machine::new(stmt, env);
        match machine.run() {
            Ok(_) => {
                assert_eq!(Stmt::DoNothing, machine.stmt);
                assert_eq!(in_one_go, Ok(machine.env));
            }
            Err(fault) => assert_eq!(in_one_go, Err(fault)),
        }
    }
}

#[test]
fn sum_of_squares_in_both_ways() {
    let mut env = Environment::new();
    env.insert("n".into(), Value::Number(5));
    let mut expected = Environment::new();
    expected.insert("n".into(), Value::Number(5));
    expected.insert("i".into(), Value::Number(5));
    expected.insert("total".into(), Value::Number(55));
    assert_eq!(Ok(expected.clone()), sum_of_squares().evalute(env.clone()));
    let mut machine = Machine::new(sum_of_squares(), env);
    assert!(machine.run().is_ok());
    assert_eq!(expected, machine.env);
}

#[test]
fn faults_agree_in_kind() {
    let unbound = sum_of_squares();
    assert_eq!(Err(EvalError::UnboundVariable), unbound.evalute(Environment::new()));
    assert_eq!(
        Err(EvalError::UnboundVariable),
        Machine::new(unbound, Environment::new()).run().map(|_| ())
    );
    let mismatch = assign("x", Expr::Add(Box::new(Expr::Boolean(true)), num(1)));
    assert_eq!(Err(EvalError::TypeMismatch), mismatch.evalute(Environment::new()));
    assert_eq!(
        Err(EvalError::TypeMismatch),
        Machine::new(mismatch, Environment::new()).run().map(|_| ())
    );
    let invalid = Stmt::While { condition: Expr::Number(1), body: Box::new(Stmt::DoNothing) };
    assert_eq!(Err(EvalError::InvalidCondition), invalid.evalute(Environment::new()));
    assert_eq!(
        Err(EvalError::InvalidCondition),
        Machine::new(invalid, Environment::new()).run().map(|_| ())
    );
}

#[test]
fn expression_reduction_ends_in_the_value() {
    let mut env = Environment::new();
    env.insert("x".into(), Value::Number(7));
    let exprs = vec![
        Expr::Number(4),
        Expr::Boolean(true),
        Expr::Variable("x".into()),
        Expr::Add(var("x"), num(1)),
        Expr::LessThan(Box::new(Expr::Multiply(var("x"), var("x"))), Box::new(Expr::Add(num(40), num(10)))),
        Expr::Add(Box::new(Expr::Boolean(true)), var("x")),
        Expr::Add(var("y"), Box::new(Expr::Boolean(true))),
    ];
    for expr in exprs {
        let in_one_go = expr.evalute(&env);
        let mut current = expr;
        let mut fault = None;
        while current.is_reducible() {
            match current.reduce(&env) {
                Ok(next) => current = next,
                Err(found) => {
                    fault = Some(found);
                    break;
                }
            }
        }
        match fault {
            Some(found) => assert_eq!(in_one_go, Err(found)),
            None => assert_eq!(in_one_go, Ok(current.as_value().unwrap())),
        }
    }
}

#[test]
fn reduction_takes_one_step_for_each_variable_and_operator() {
    let mut env = Environment::new();
    env.insert("x".into(), Value::Number(7));
    // (x * x) < (40 + 10): two variables and three operators.
    let expr =
        Expr::LessThan(Box::new(Expr::Multiply(var("x"), var("x"))), Box::new(Expr::Add(num(40), num(10))));
    let mut current = expr;
    let mut steps = 0;
    while current.is_reducible() {
        current = current.reduce(&env).unwrap();
        steps += 1;
    }
    assert_eq!(5, steps);
    assert_eq!(Expr::Boolean(true), current);
}

#[test]
fn reduce_is_deterministic() {
    for (stmt, env) in programs() {
        assert_eq!(stmt.reduce(&env), stmt.reduce(&env));
        assert_eq!(stmt.clone().reduce(&env.clone()), stmt.reduce(&env));
    }
}

#[test]
fn evalute_is_deterministic() {
    for (stmt, env) in programs() {
        assert_eq!(stmt.evalute(env.clone()), stmt.evalute(env.clone()));
    }
    let mut env = Environment::new();
    env.insert("x".into(), Value::Number(7));
    let expr = Expr::Add(var("x"), num(1));
    assert_eq!(expr.evalute(&env), expr.evalute(&env));
    assert_eq!(Ok(Value::Number(8)), expr.evalute(&env));
}

#[test]
fn results_do_not_depend_on_the_order_of_insertion() {
    let mut a = Environment::new();
    a.insert("x".into(), Value::Number(1));
    a.insert("n".into(), Value::Number(3));
    let mut b = Environment::new();
    b.insert("n".into(), Value::Number(3));
    b.insert("x".into(), Value::Number(1));
    assert_eq!(sum_of_squares().evalute(a.clone()), sum_of_squares().evalute(b.clone()));
    assert_eq!(sum_of_squares().reduce(&a), sum_of_squares().reduce(&b));
}

#[test]
fn a_loop_takes_one_step_more_than_its_unfolding() {
    let condition = Expr::LessThan(var("x"), num(5));
    let body = assign("x", Expr::Multiply(var("x"), num(3)));
    let repeat = Stmt::While { condition: condition.clone(), body: Box::new(body.clone()) };
    let unfolded = Stmt::If {
        condition,
        consequence: Box::new(seq(body, repeat.clone())),
        alternative: Box::new(Stmt::DoNothing),
    };
    for start in [1, 2, 4, 5, 100] {
        let mut env = Environment::new();
        env.insert("x".into(), Value::Number(start));
        let mut from_loop = Machine::new(repeat.clone(), env.clone());
        let mut from_unfolded = Machine::new(unfolded.clone(), env);
        let loop_steps = from_loop.run().unwrap().len() - 1;
        let unfolded_steps = from_unfolded.run().unwrap().len() - 1;
        assert_eq!(loop_steps, 1 + unfolded_steps);
        assert_eq!(from_loop.env, from_unfolded.env);
    }
}

#[test]
fn the_tripling_loop_takes_twenty_steps() {
    let repeat = Stmt::While {
        condition: Expr::LessThan(var("x"), num(5)),
        body: Box::new(assign("x", Expr::Multiply(var("x"), num(3)))),
    };
    let mut env = Environment::new();
    env.insert("x".into(), Value::Number(1));
    let mut machine = Machine::new(repeat, env);
    assert_eq!(21, machine.run().unwrap().len());
}

#[test]
fn a_terminal_state_stays_terminal() {
    let mut env = Environment::new();
    env.insert("x".into(), Value::Number(1));
    let mut machine = Machine::new(Stmt::DoNothing, env.clone());
    assert!(!machine.stmt.is_reducible());
    assert_eq!(Err(EvalError::NotReducible), machine.step());
    assert_eq!(Err(EvalError::NotReducible), machine.step());
    assert_eq!(Stmt::DoNothing, machine.stmt);
    assert_eq!(env, machine.env);
    assert_eq!(Err(EvalError::NotReducible), Stmt::DoNothing.reduce(&env));
}
