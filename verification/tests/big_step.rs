use semantics::{Environment, EvalError, Expr, Stmt, Value};

fn var(name: &str) -> Box<Expr> {
    Box::new(Expr::Variable(name.into()))
}

fn num(n: i64) -> Box<Expr> {
    Box::new(Expr::Number(n))
}

#[test]
fn evalute_number() {
    let n = Expr::Number(23);
    let env = Environment::new();
    assert_eq!(Ok(Value::Number(23)), n.evalute(&env));
}

#[test]
fn evalute_boolean() {
    let t = Expr::Boolean(true);
    let env = Environment::new();
    assert_eq!(Ok(Value::Boolean(true)), t.evalute(&env));

    let f = Expr::Boolean(false);
    let env = Environment::new();
    assert_eq!(Ok(Value::Boolean(false)), f.evalute(&env));
}

#[test]
fn evalute_add() {
    let expr = Expr::Add(Expr::Number(1).into(), Expr::Number(2).into());
    let env = Environment::new();
    assert_eq!(Ok(Value::Number(3)), expr.evalute(&env));
}

#[test]
fn evalute_multiply() {
    let expr = Expr::Multiply(Expr::Number(2).into(), Expr::Number(3).into());
    let env = Environment::new();
    assert_eq!(Ok(Value::Number(6)), expr.evalute(&env));
}

#[test]
fn evalute_less_than() {
    let expr = Expr::LessThan(
        Expr::Add(Expr::Variable("x".into()).into(), Expr::Number(2).into()).into(),
        Expr::Variable("y".into()).into(),
    );
    let mut env = Environment::new();
    env.insert("x".into(), Value::Number(2));
    env.insert("y".into(), Value::Number(5));
    assert_eq!(Ok(Value::Boolean(true)), expr.evalute(&env));
}

#[test]
fn evalute_donothing() {
    let stmt = Stmt::DoNothing;
    let mut env = Environment::new();
    env.insert("x".into(), Value::Number(2));
    assert_eq!(Ok(env.clone()), stmt.evalute(env));
}

#[test]
fn evalute_assign() {
    let stmt = Stmt::Assign("x".into(), Expr::Number(1));
    let mut env = Environment::new();
    env.insert("y".into(), Value::Number(2));
    let mut expected = env.clone();
    expected.insert("x".into(), Value::Number(1));
    assert_eq!(Ok(expected), stmt.evalute(env));
}

#[test]
fn evalute_if() {
    let stmt = Stmt::If {
        condition: Expr::LessThan(Expr::Variable("x".into()).into(), Expr::Number(3).into()),
        consequence: Stmt::Assign(
            "y".into(),
            Expr::Multiply(Expr::Variable("x".into()).into(), Expr::Number(2).into()).into(),
        )
        .into(),
        alternative: Stmt::DoNothing.into(),
    };
    let mut env = Environment::new();
    env.insert("x".into(), Value::Number(2));
    let mut expected = env.clone();
    expected.insert("y".into(), Value::Number(4));
    assert_eq!(Ok(expected), stmt.evalute(env));
}

#[test]
fn evalute_sequence() {
    let stmt = Stmt::Sequence {
        first: Stmt::Assign("x".into(), Expr::Number(2).into()).into(),
        second: Stmt::Assign(
            "y".into(),
            Expr::Multiply(Expr::Variable("x".into()).into(), Expr::Number(2).into()).into(),
        )
        .into(),
    };
    let env = Environment::new();
    let mut expected = env.clone();
    expected.insert("x".into(), Value::Number(2));
    expected.insert("y".into(), Value::Number(4));
    assert_eq!(Ok(expected), stmt.evalute(env));
}

#[test]
fn evalute_while() {
    let stmt = Stmt::While {
        condition: Expr::LessThan(Expr::Variable("x".into()).into(), Expr::Number(5).into())
            .into(),
        body: Stmt::Assign(
            "x".into(),
            Expr::Multiply(Expr::Variable("x".into()).into(), Expr::Number(3).into()).into(),
        )
        .into(),
    };
    let mut env = Environment::new();
    env.insert("x".into(), Value::Number(1));

    let mut expected = env.clone();
    expected.insert("x".into(), Value::Number(9));
    assert_eq!(Ok(expected), stmt.evalute(env));
}

#[test]
fn evalute_variable_gives_what_is_bound() {
    let mut env = Environment::new();
    env.insert("flag".into(), Value::Boolean(false));
    env.insert("n".into(), Value::Number(-7));
    assert_eq!(Ok(Value::Boolean(false)), Expr::Variable("flag".into()).evalute(&env));
    assert_eq!(Ok(Value::Number(-7)), Expr::Variable("n".into()).evalute(&env));
}

#[test]
fn evalute_unbound_variable() {
    let env = Environment::new();
    assert_eq!(Err(EvalError::UnboundVariable), Expr::Variable("x".into()).evalute(&env));

    let mut other = Environment::new();
    other.insert("y".into(), Value::Number(1));
    assert_eq!(Err(EvalError::UnboundVariable), Expr::Variable("x".into()).evalute(&other));
}

#[test]
fn evalute_type_mismatch() {
    let env = Environment::new();
    let expr = Expr::LessThan(num(1), Box::new(Expr::Boolean(true)));
    assert_eq!(Err(EvalError::TypeMismatch), expr.evalute(&env));
    let expr = Expr::Add(Box::new(Expr::Boolean(false)), num(1));
    assert_eq!(Err(EvalError::TypeMismatch), expr.evalute(&env));
    let expr = Expr::Multiply(Box::new(Expr::Boolean(false)), Box::new(Expr::Boolean(true)));
    assert_eq!(Err(EvalError::TypeMismatch), expr.evalute(&env));
}

#[test]
fn evalute_meets_the_left_fault_first() {
    let env = Environment::new();
    // The left operand is unbound, the right one would be a type mismatch.
    let expr = Expr::Add(var("x"), Box::new(Expr::Add(Box::new(Expr::Boolean(true)), num(1))));
    assert_eq!(Err(EvalError::UnboundVariable), expr.evalute(&env));
    // A boolean on the left does not hide that the right operand is unbound.
    let expr = Expr::Add(Box::new(Expr::Boolean(true)), var("x"));
    assert_eq!(Err(EvalError::UnboundVariable), expr.evalute(&env));
}

#[test]
fn evalute_add_wraps_around() {
    let env = Environment::new();
    let expr = Expr::Add(num(i64::MAX), num(1));
    assert_eq!(Ok(Value::Number(i64::MIN)), expr.evalute(&env));
    let expr = Expr::Add(num(i64::MIN), num(-1));
    assert_eq!(Ok(Value::Number(i64::MAX)), expr.evalute(&env));
}

#[test]
fn evalute_multiply_wraps_around() {
    let env = Environment::new();
    let expr = Expr::Multiply(num(i64::MAX), num(2));
    assert_eq!(Ok(Value::Number(-2)), expr.evalute(&env));
    let expr = Expr::Multiply(num(i64::MIN), num(-1));
    assert_eq!(Ok(Value::Number(i64::MIN)), expr.evalute(&env));
    let expr = Expr::Multiply(num(-4), num(5));
    assert_eq!(Ok(Value::Number(-20)), expr.evalute(&env));
}

#[test]
fn evalute_less_than_is_signed() {
    let env = Environment::new();
    assert_eq!(Ok(Value::Boolean(true)), Expr::LessThan(num(-1), num(0)).evalute(&env));
    assert_eq!(Ok(Value::Boolean(false)), Expr::LessThan(num(3), num(3)).evalute(&env));
    assert_eq!(Ok(Value::Boolean(false)), Expr::LessThan(num(i64::MAX), num(i64::MIN)).evalute(&env));
}

#[test]
fn evalute_assign_overwrites() {
    let stmt = Stmt::Assign("x".into(), Expr::Add(var("x"), num(1)));
    let mut env = Environment::new();
    env.insert("x".into(), Value::Number(2));
    let mut expected = Environment::new();
    expected.insert("x".into(), Value::Number(3));
    assert_eq!(Ok(expected), stmt.evalute(env));
}

#[test]
fn evalute_assign_passes_the_fault_on() {
    let stmt = Stmt::Assign("x".into(), Expr::Variable("y".into()));
    assert_eq!(Err(EvalError::UnboundVariable), stmt.evalute(Environment::new()));
    let stmt = Stmt::Assign("x".into(), Expr::Add(num(1), Box::new(Expr::Boolean(true))));
    assert_eq!(Err(EvalError::TypeMismatch), stmt.evalute(Environment::new()));
}

#[test]
fn evalute_if_takes_the_alternative() {
    let stmt = Stmt::If {
        condition: Expr::LessThan(var("x"), num(3)),
        consequence: Box::new(Stmt::Assign("y".into(), Expr::Number(1))),
        alternative: Box::new(Stmt::Assign("y".into(), Expr::Number(2))),
    };
    let mut env = Environment::new();
    env.insert("x".into(), Value::Number(3));
    let mut expected = env.clone();
    expected.insert("y".into(), Value::Number(2));
    assert_eq!(Ok(expected), stmt.evalute(env));
}

#[test]
fn evalute_invalid_condition() {
    let stmt = Stmt::If {
        condition: Expr::Number(1),
        consequence: Box::new(Stmt::DoNothing),
        alternative: Box::new(Stmt::DoNothing),
    };
    assert_eq!(Err(EvalError::InvalidCondition), stmt.evalute(Environment::new()));
    let stmt = Stmt::While {
        condition: Expr::Add(num(1), num(1)),
        body: Box::new(Stmt::DoNothing),
    };
    assert_eq!(Err(EvalError::InvalidCondition), stmt.evalute(Environment::new()));
}

#[test]
fn evalute_condition_fault_is_passed_on() {
    let stmt = Stmt::If {
        condition: Expr::Variable("missing".into()),
        consequence: Box::new(Stmt::DoNothing),
        alternative: Box::new(Stmt::DoNothing),
    };
    assert_eq!(Err(EvalError::UnboundVariable), stmt.evalute(Environment::new()));
    let stmt = Stmt::While {
        condition: Expr::LessThan(num(1), Box::new(Expr::Boolean(true))),
        body: Box::new(Stmt::DoNothing),
    };
    assert_eq!(Err(EvalError::TypeMismatch), stmt.evalute(Environment::new()));
}

#[test]
fn evalute_sequence_stops_at_the_first_fault() {
    let stmt = Stmt::Sequence {
        first: Box::new(Stmt::Assign("x".into(), Expr::Variable("missing".into()))),
        second: Box::new(Stmt::Assign("y".into(), Expr::Number(1))),
    };
    assert_eq!(Err(EvalError::UnboundVariable), stmt.evalute(Environment::new()));
}

#[test]
fn evalute_while_that_never_runs() {
    let stmt = Stmt::While {
        condition: Expr::Boolean(false),
        body: Box::new(Stmt::Assign("x".into(), Expr::Number(1))),
    };
    let mut env = Environment::new();
    env.insert("y".into(), Value::Number(2));
    assert_eq!(Ok(env.clone()), stmt.evalute(env));
}

#[test]
fn evalute_while_fault_in_the_body() {
    let stmt = Stmt::While {
        condition: Expr::LessThan(var("x"), num(5)),
        body: Box::new(Stmt::Sequence {
            first: Box::new(Stmt::Assign("x".into(), Expr::Add(var("x"), num(1)))),
            second: Box::new(Stmt::Assign("y".into(), Expr::Add(var("x"), var("z")))),
        }),
    };
    let mut env = Environment::new();
    env.insert("x".into(), Value::Number(0));
    assert_eq!(Err(EvalError::UnboundVariable), stmt.evalute(env));
}

#[test]
fn evalute_nested_loops() {
    // i = 0; total = 0; while (i < 3) { j = 0; while (j < 4) { total = total + 1; j = j + 1 }; i = i + 1 }
    let inner = Stmt::While {
        condition: Expr::LessThan(var("j"), num(4)),
        body: Box::new(Stmt::Sequence {
            first: Box::new(Stmt::Assign("total".into(), Expr::Add(var("total"), num(1)))),
            second: Box::new(Stmt::Assign("j".into(), Expr::Add(var("j"), num(1)))),
        }),
    };
    let outer = Stmt::While {
        condition: Expr::LessThan(var("i"), num(3)),
        body: Box::new(Stmt::Sequence {
            first: Box::new(Stmt::Assign("j".into(), Expr::Number(0))),
            second: Box::new(Stmt::Sequence {
                first: Box::new(inner),
                second: Box::new(Stmt::Assign("i".into(), Expr::Add(var("i"), num(1)))),
            }),
        }),
    };
    let mut env = Environment::new();
    env.insert("i".into(), Value::Number(0));
    env.insert("total".into(), Value::Number(0));
    let mut expected = Environment::new();
    expected.insert("i".into(), Value::Number(3));
    expected.insert("j".into(), Value::Number(4));
    expected.insert("total".into(), Value::Number(12));
    assert_eq!(Ok(expected), outer.evalute(env));
}

/// while (x < 5) { x = x * 3 }
fn tripling_loop() -> Stmt {
    Stmt::While {
        condition: Expr::LessThan(var("x"), num(5)),
        body: Box::new(Stmt::Assign("x".into(), Expr::Multiply(var("x"), num(3)))),
    }
}

#[test]
fn evalute_within_enough_fuel() {
    let mut env = Environment::new();
    env.insert("x".into(), Value::Number(1));
    let mut expected = Environment::new();
    expected.insert("x".into(), Value::Number(9));
    // The loop takes two iterations.
    assert_eq!(Ok(Some(expected.clone())), tripling_loop().evalute_within(env.clone(), 2));
    assert_eq!(Ok(Some(expected.clone())), tripling_loop().evalute_within(env.clone(), 3));
    assert_eq!(Ok(Some(expected.clone())), tripling_loop().evalute_within(env.clone(), usize::MAX));
    assert_eq!(Ok(expected), tripling_loop().evalute(env));
}

#[test]
fn evalute_within_too_little_fuel() {
    let mut env = Environment::new();
    env.insert("x".into(), Value::Number(1));
    assert_eq!(Ok(None), tripling_loop().evalute_within(env.clone(), 1));
    assert_eq!(Ok(None), tripling_loop().evalute_within(env, 0));
}

#[test]
fn evalute_within_needs_no_fuel_without_iterations() {
    let mut env = Environment::new();
    env.insert("x".into(), Value::Number(5));
    assert_eq!(Ok(Some(env.clone())), tripling_loop().evalute_within(env.clone(), 0));
    let stmt = Stmt::Sequence {
        first: Box::new(Stmt::Assign("y".into(), Expr::Number(1))),
        second: Box::new(Stmt::DoNothing),
    };
    let mut expected = env.clone();
    expected.insert("y".into(), Value::Number(1));
    assert_eq!(Ok(Some(expected)), stmt.evalute_within(env, 0));
}

#[test]
fn evalute_within_gives_up_on_a_loop_without_end() {
    let forever = Stmt::While { condition: Expr::Boolean(true), body: Box::new(Stmt::DoNothing) };
    assert_eq!(Ok(None), forever.evalute_within(Environment::new(), 1000));
}

#[test]
fn evalute_within_meets_a_fault_before_the_fuel_runs_out() {
    let stmt = Stmt::While {
        condition: Expr::LessThan(var("x"), num(5)),
        body: Box::new(Stmt::Assign("x".into(), Expr::Add(var("x"), var("step")))),
    };
    let mut env = Environment::new();
    env.insert("x".into(), Value::Number(1));
    assert_eq!(Err(EvalError::UnboundVariable), stmt.evalute_within(env.clone(), 10));
    // Without fuel the body is not entered, and the fault is not met.
    assert_eq!(Ok(None), stmt.evalute_within(env, 0));
}
