//! Execution modes: build the tree, or only follow the parse.
use vstd::prelude::*;

use crate::ast::{Ast, Expr};
use crate::atom::Failure;

verus! {

/// How a parse materialises what it recognises. Both modes make the same
/// decisions and consume the same input; only the values differ.
pub trait Mode {
    type Out;

    /// Whether `out` stands for the tree `t` in this mode.
    spec fn holds(out: Self::Out, t: Ast) -> bool;

    /// The value of the literal `input[start..end]`.
    fn literal(input: &[char], start: usize, end: usize) -> (r: Self::Out)
        requires
            start <= end <= input@.len(),
        ensures
            Self::holds(r, Ast::Literal(input@.subrange(start as int, end as int))),
    ;

    /// Applies a prefix operator's builder.
    fn unary(label: char, operand: Self::Out, t: Ghost<Ast>) -> (r: Self::Out)
        requires
            Self::holds(operand, t@),
        ensures
            Self::holds(r, Ast::Prefix(label, Box::new(t@))),
    ;

    /// Applies an infix operator's builder.
    fn binary(label: char, lhs: Self::Out, rhs: Self::Out, lt: Ghost<Ast>, rt: Ghost<Ast>) -> (r:
        Self::Out)
        requires
            Self::holds(lhs, lt@),
            Self::holds(rhs, rt@),
        ensures
            Self::holds(r, Ast::Infix(label, Box::new(lt@), Box::new(rt@))),
    ;
}

/// Construct mode: every value is the owned tree.
pub struct Emit;

/// Validate mode: no value is made; only success and position count.
pub struct Check;

impl Mode for Emit {
    type Out = Expr;

    open spec fn holds(out: Expr, t: Ast) -> bool {
        out@ == t
    }

    fn literal(input: &[char], start: usize, end: usize) -> (r: Expr) {
        let mut digits: Vec<char> = Vec::new();
        let mut i: usize = start;
        while i < end
            invariant
                start <= i <= end <= input@.len(),
                digits@ == input@.subrange(start as int, i as int),
            decreases end - i,
        {
            digits.push(input[i]);
            i = i + 1;
            assert(digits@ =~= input@.subrange(start as int, i as int));
        }
        Expr::literal_node(digits)
    }

    fn unary(label: char, operand: Expr, t: Ghost<Ast>) -> (r: Expr) {
        Expr::prefix_node(label, operand)
    }

    fn binary(label: char, lhs: Expr, rhs: Expr, lt: Ghost<Ast>, rt: Ghost<Ast>) -> (r: Expr) {
        Expr::infix_node(label, lhs, rhs)
    }
}

impl Mode for Check {
    type Out = ();

    open spec fn holds(out: (), t: Ast) -> bool {
        true
    }

    fn literal(input: &[char], start: usize, end: usize) -> (r: ()) {
    }

    fn unary(label: char, operand: (), t: Ghost<Ast>) -> (r: ()) {
    }

    fn binary(label: char, lhs: (), rhs: (), lt: Ghost<Ast>, rt: Ghost<Ast>) -> (r: ()) {
    }
}

/// The outcome of a parse as a mathematical value: the tree and the position
/// after it, or the failure.
pub type Outcome = Result<(Ast, int), Failure>;

/// Whether the result `r` of a run in mode `M` is the outcome `o`: the same
/// failure, or success at the same position with a value for the same tree.
pub open spec fn models<M: Mode>(r: Result<(M::Out, usize), Failure>, o: Outcome) -> bool {
    match r {
        Ok((out, p)) => o is Ok && p as int == o->Ok_0.1 && M::holds(out, o->Ok_0.0),
        Err(e) => o == Outcome::Err(e),
    }
}

} // verus!
