//! A reference interpreter for a minimal imperative language of numbers,
//! booleans, variables, arithmetic, comparison, assignment, conditionals,
//! sequences and loops.
//!
//! A program can be run in two ways. [`Stmt::evalute`] and [`Expr::evalute`]
//! compute the result in one go (big-step). A [`Machine`] rewrites the
//! program one reduction step at a time (small-step), so that every
//! intermediate state can be looked at. The two agree: see [`agreement`].
//!
//! The contracts are stated over the mathematical trees of [`syntax`], whose
//! meaning is defined in [`big_step`] and [`small_step`].

pub mod agreement;
pub mod big_step;
pub mod determinism;
pub mod environment;
pub mod expr;
pub mod machine;
pub mod render;
pub mod small_step;
pub mod stmt;
pub mod syntax;
pub mod value;

pub use environment::Environment;
pub use expr::Expr;
pub use machine::Machine;
pub use stmt::Stmt;
pub use value::{EvalError, Value};
