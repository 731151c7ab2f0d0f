//! An operator-precedence (Pratt) expression engine.
//!
//! Atoms are decimal integer literals; prefix and infix operators are
//! described by tables of [`Operator`] values, each carrying its token, its
//! binding strength and the label that its tree node gets.

pub mod ast;
pub mod atom;
pub mod engine;
pub mod laws;
pub mod mode;
pub mod ops;
pub mod strength;

pub use ast::{Ast, Expr};
pub use atom::Failure;
pub use engine::{NoOps, Pratt, PrefixPratt};
pub use mode::{Check, Emit, Mode};
pub use ops::{left_infix, prefix, right_infix, Operator, PrattOpOutput};
pub use strength::{Precedence, Strength};
