//! The canonical text of a term, for diagnostics.

use crate::expr::Expr;
use crate::stmt::Stmt;
use crate::syntax::{Expression, Operator, Statement};
use vstd::prelude::*;
use vstd::string::StringExecFns;

verus! {

/// The character of a decimal digit.
pub open spec fn digit(d: nat) -> char
    recommends
        d < 10,
{
    if d == 0 {
        '0'
    } else if d == 1 {
        '1'
    } else if d == 2 {
        '2'
    } else if d == 3 {
        '3'
    } else if d == 4 {
        '4'
    } else if d == 5 {
        '5'
    } else if d == 6 {
        '6'
    } else if d == 7 {
        '7'
    } else if d == 8 {
        '8'
    } else {
        '9'
    }
}

/// The decimal digits of a natural number, without leading zeros.
pub open spec fn digits(n: nat) -> Seq<char>
    decreases n,
{
    if n < 10 {
        seq![digit(n)]
    } else {
        digits(n / 10).push(digit(n % 10))
    }
}

/// A whole number in decimal, with a minus sign in front where it is
/// negative.
pub open spec fn decimal(i: int) -> Seq<char> {
    if i < 0 {
        seq!['-'] + digits((-i) as nat)
    } else {
        digits(i as nat)
    }
}

impl Operator {
    /// The operator as it stands between its operands.
    pub open spec fn symbol(self) -> Seq<char> {
        match self {
            Operator::Add => " + "@,
            Operator::Multiply => " * "@,
            Operator::LessThan => " < "@,
        }
    }
}

impl Expression {
    /// The text of the expression: a literal or a name as it is, an operator
    /// between its operands.
    pub open spec fn text(self) -> Seq<char>
        decreases self,
    {
        match self {
            Expression::Number(n) => decimal(n as int),
            Expression::Boolean(b) => if b {
                "true"@
            } else {
                "false"@
            },
            Expression::Variable(name) => name,
            Expression::Binary(op, left, right) => left.text() + op.symbol() + right.text(),
        }
    }
}

impl Statement {
    /// The text of the statement.
    pub open spec fn text(self) -> Seq<char>
        decreases self,
    {
        match self {
            Statement::DoNothing => "do-nothing"@,
            Statement::Assign(name, expr) => name + " = "@ + expr.text(),
            Statement::If { condition, consequence, alternative } => "if ("@ + condition.text()
                + ") { "@ + consequence.text() + " } else { "@ + alternative.text() + " }"@,
            Statement::Sequence { first, second } => first.text() + "; "@ + second.text(),
            Statement::While { condition, body } => "while ("@ + condition.text() + ") { "@
                + body.text() + " }"@,
        }
    }
}

fn digit_text(d: u64) -> (text: &'static str)
    requires
        d < 10,
    ensures
        text@ == seq![digit(d as nat)],
{
    proof {
        reveal_strlit("0");
        reveal_strlit("1");
        reveal_strlit("2");
        reveal_strlit("3");
        reveal_strlit("4");
        reveal_strlit("5");
        reveal_strlit("6");
        reveal_strlit("7");
        reveal_strlit("8");
        reveal_strlit("9");
    }
    let text = if d == 0 {
        "0"
    } else if d == 1 {
        "1"
    } else if d == 2 {
        "2"
    } else if d == 3 {
        "3"
    } else if d == 4 {
        "4"
    } else if d == 5 {
        "5"
    } else if d == 6 {
        "6"
    } else if d == 7 {
        "7"
    } else if d == 8 {
        "8"
    } else {
        "9"
    };
    assert(text@ =~= seq![digit(d as nat)]);
    text
}

fn digits_text(n: u64) -> (text: String)
    ensures
        text@ == digits(n as nat),
    decreases n,
{
    if n < 10 {
        String::from_str(digit_text(n))
    } else {
        let mut text = digits_text(n / 10);
        text.append(digit_text(n % 10));
        text
    }
}

/// The decimal text of `n`.
pub fn decimal_text(n: i64) -> (text: String)
    ensures
        text@ == decimal(n as int),
{
    if n < 0 {
        let magnitude: u64 = (-(n + 1)) as u64 + 1;
        let mut text = String::from_str("-");
        proof {
            reveal_strlit("-");
        }
        let shown = digits_text(magnitude);
        text.append(shown.as_str());
        assert(text@ =~= decimal(n as int));
        text
    } else {
        digits_text(n as u64)
    }
}

impl Expr {
    /// The text of the expression, as a diagnostic would print it.
    pub fn to_text(&self) -> (text: String)
        ensures
            text@ == self@.text(),
        decreases self,
    {
        match self {
            Expr::Number(n) => decimal_text(*n),
            Expr::Boolean(b) => if *b {
                String::from_str("true")
            } else {
                String::from_str("false")
            },
            Expr::Variable(name) => name.clone(),
            Expr::Add(left, right) => {
                let mut text = left.to_text();
                text.append(" + ");
                text.append(right.to_text().as_str());
                text
            },
            Expr::Multiply(left, right) => {
                let mut text = left.to_text();
                text.append(" * ");
                text.append(right.to_text().as_str());
                text
            },
            Expr::LessThan(left, right) => {
                let mut text = left.to_text();
                text.append(" < ");
                text.append(right.to_text().as_str());
                text
            },
        }
    }
}

impl Stmt {
    /// The text of the statement, as a diagnostic would print it.
    pub fn to_text(&self) -> (text: String)
        ensures
            text@ == self@.text(),
        decreases self,
    {
        match self {
            Stmt::DoNothing => String::from_str("do-nothing"),
            Stmt::Assign(name, expr) => {
                let mut text = name.clone();
                text.append(" = ");
                text.append(expr.to_text().as_str());
                text
            },
            Stmt::If { condition, consequence, alternative } => {
                let mut text = String::from_str("if (");
                text.append(condition.to_text().as_str());
                text.append(") { ");
                text.append(consequence.to_text().as_str());
                text.append(" } else { ");
                text.append(alternative.to_text().as_str());
                text.append(" }");
                text
            },
            Stmt::Sequence { first, second } => {
                let mut text = first.to_text();
                text.append("; ");
                text.append(second.to_text().as_str());
                text
            },
            Stmt::While { condition, body } => {
                let mut text = String::from_str("while (");
                text.append(condition.to_text().as_str());
                text.append(") { ");
                text.append(body.to_text().as_str());
                text.append(" }");
                text
            },
        }
    }
}

} // verus!
