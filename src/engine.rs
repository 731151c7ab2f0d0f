//! The precedence-climbing engine, with and without prefix operators.
use vstd::prelude::*;

use crate::ast::{Ast, Expr};
use crate::atom::{atom, atom_at, lemma_atom_bounds, unexpected_at, Failure};
use crate::mode::{models, Check, Emit, Mode, Outcome};
use crate::ops::{lemma_match_bounds, match_at, match_op, Operator};
use crate::strength::Strength;

verus! {

/// The parse of one expression at `pos` whose operators all bind at least as
/// tightly as `min`: a prefix operator of `pre` and its operand, or else an
/// atom; then as many infix operators of `inf` as `min` admits.
///
/// Every match and every parse ends after where it starts and within the
/// input (`lemma_match_bounds`, `lemma_atom_bounds`, and
/// `laws::lemma_outcome_bounds`), so the branches under failed position
/// checks are never taken; they only make the recursion well founded.
pub open spec fn expr_at(
    pre: Seq<Operator>,
    inf: Seq<Operator>,
    s: Seq<char>,
    pos: int,
    min: Option<Strength>,
) -> Outcome
    decreases s.len() - pos, 1int,
{
    match match_at(pre, s, pos) {
        Some((op, q)) => {
            if pos < q <= s.len() {
                match expr_at(pre, inf, s, q, Some(op.prec.strength_right)) {
                    Err(e) => Err(e),
                    Ok((t, p)) => {
                        if q < p <= s.len() {
                            infix_loop(pre, inf, s, Ast::Prefix(op.label, Box::new(t)), p, min)
                        } else {
                            Err(unexpected_at(s, pos))
                        }
                    },
                }
            } else {
                Err(unexpected_at(s, pos))
            }
        },
        None => match atom_at(s, pos) {
            Err(e) => Err(e),
            Ok((t, p)) => {
                if pos < p <= s.len() {
                    infix_loop(pre, inf, s, t, p, min)
                } else {
                    Err(unexpected_at(s, pos))
                }
            },
        },
    }
}

/// The rest of an expression after the tree `left`, which ends at `pos`.
/// Where no infix operator follows, or one follows that binds more loosely
/// than `min`, the parse stops at `pos` with `left`. Otherwise the operator's
/// right operand is parsed with its right strength as threshold, and a
/// failure there is the failure of the whole.
pub open spec fn infix_loop(
    pre: Seq<Operator>,
    inf: Seq<Operator>,
    s: Seq<char>,
    left: Ast,
    pos: int,
    min: Option<Strength>,
) -> Outcome
    decreases s.len() - pos, 0int,
{
    match match_at(inf, s, pos) {
        None => Ok((left, pos)),
        Some((op, q)) => {
            if op.prec.strength_left.below(min) {
                Ok((left, pos))
            } else if pos < q <= s.len() {
                match expr_at(pre, inf, s, q, Some(op.prec.strength_right)) {
                    Err(e) => Err(e),
                    Ok((t, p)) => {
                        if q < p <= s.len() {
                            infix_loop(
                                pre,
                                inf,
                                s,
                                Ast::Infix(op.label, Box::new(left), Box::new(t)),
                                p,
                                min,
                            )
                        } else {
                            Err(unexpected_at(s, pos))
                        }
                    },
                }
            } else {
                Err(unexpected_at(s, pos))
            }
        },
    }
}

/// The outcome with the tree dropped: where validate mode stops, or its
/// failure.
pub open spec fn end_of(o: Outcome) -> Result<int, Failure> {
    match o {
        Ok((_, p)) => Ok(p),
        Err(e) => Err(e),
    }
}

/// The outcome that a construct-mode result stands for.
pub open spec fn outcome_of(r: Result<(Expr, usize), Failure>) -> Outcome {
    match r {
        Ok((e, p)) => Ok((e@, p as int)),
        Err(f) => Err(f),
    }
}

/// The end position that a validate-mode result stands for.
pub open spec fn end_of_run(r: Result<usize, Failure>) -> Result<int, Failure> {
    match r {
        Ok(p) => Ok(p as int),
        Err(f) => Err(f),
    }
}

/// A parse that must consume the whole input: the tree, or the failure of
/// the parse, or a failure where unconsumed input starts.
pub open spec fn complete(o: Outcome, s: Seq<char>) -> Result<Ast, Failure> {
    match o {
        Ok((t, p)) => if p == s.len() {
            Ok(t)
        } else {
            Err(unexpected_at(s, p))
        },
        Err(f) => Err(f),
    }
}

/// Marks an engine that has no prefix operators.
pub struct NoOps;

/// An expression engine with infix operators only.
pub struct Pratt {
    pub infix_ops: Vec<Operator>,
    pub prefix_ops: NoOps,
}

/// An expression engine with prefix and infix operators.
pub struct PrefixPratt {
    pub prefix_ops: Vec<Operator>,
    pub infix_ops: Vec<Operator>,
}

impl Pratt {
    /// The outcome of this engine at `pos` under the threshold `min`.
    pub open spec fn outcome(&self, s: Seq<char>, pos: int, min: Option<Strength>) -> Outcome {
        expr_at(seq![], self.infix_ops@, s, pos, min)
    }

    /// An engine over the infix operator table `infix_ops`, tried in order.
    pub fn new(infix_ops: Vec<Operator>) -> (r: Pratt)
        ensures
            r.infix_ops@ == infix_ops@,
    {
        Pratt { infix_ops, prefix_ops: NoOps }
    }

    /// The same engine with the prefix operator table `prefix_ops`.
    pub fn with_prefix_ops(self, prefix_ops: Vec<Operator>) -> (r: PrefixPratt)
        ensures
            r.prefix_ops@ == prefix_ops@,
            r.infix_ops@ == self.infix_ops@,
    {
        PrefixPratt { prefix_ops, infix_ops: self.infix_ops }
    }

    /// Runs the engine at `pos` in mode `M`, with no threshold.
    pub fn go<M: Mode>(&self, input: &[char], pos: usize) -> (r: Result<(M::Out, usize), Failure>)
        requires
            pos <= input@.len(),
        ensures
            models::<M>(r, self.outcome(input@, pos as int, None)),
            r matches Ok((_, p)) ==> pos < p <= input@.len(),
    {
        self.pratt_parse::<M>(input, pos, None)
    }

    /// Parses an expression at `pos`, building its tree; on success also the
    /// position after it.
    pub fn parse_at(&self, input: &[char], pos: usize) -> (r: Result<(Expr, usize), Failure>)
        requires
            pos <= input@.len(),
        ensures
            outcome_of(r) == self.outcome(input@, pos as int, None),
            r matches Ok((_, p)) ==> pos < p <= input@.len(),
    {
        self.go::<Emit>(input, pos)
    }

    /// Parses an expression at the start of `input`; trailing input that no
    /// operator claims is left unconsumed.
    pub fn parse(&self, input: &[char]) -> (r: Result<(Expr, usize), Failure>)
        ensures
            outcome_of(r) == self.outcome(input@, 0, None),
            r matches Ok((_, p)) ==> 0 < p <= input@.len(),
    {
        self.parse_at(input, 0)
    }

    /// Follows the parse at `pos` without building anything: where it stops,
    /// or how it fails.
    pub fn check(&self, input: &[char], pos: usize) -> (r: Result<usize, Failure>)
        requires
            pos <= input@.len(),
        ensures
            end_of_run(r) == end_of(self.outcome(input@, pos as int, None)),
    {
        match self.go::<Check>(input, pos) {
            Ok((_, p)) => Ok(p),
            Err(f) => Err(f),
        }
    }

    /// Parses the whole of `input` as one expression.
    pub fn parse_complete(&self, input: &[char]) -> (r: Result<Expr, Failure>)
        ensures
            match r {
                Ok(e) => complete(self.outcome(input@, 0, None), input@) == Ok::<Ast, Failure>(e@),
                Err(f) => complete(self.outcome(input@, 0, None), input@) == Err::<Ast, Failure>(f),
            },
    {
        match self.parse(input) {
            Ok((e, p)) => {
                if p < input.len() {
                    Err(Failure { pos: p, found: Some(input[p]) })
                } else {
                    Ok(e)
                }
            },
            Err(f) => Err(f),
        }
    }

    fn pratt_parse<M: Mode>(&self, input: &[char], pos: usize, min: Option<Strength>) -> (r: Result<
        (M::Out, usize),
        Failure,
    >)
        requires
            pos <= input@.len(),
        ensures
            models::<M>(r, self.outcome(input@, pos as int, min)),
            r matches Ok((_, p)) ==> pos < p <= input@.len(),
        decreases input@.len() - pos,
    {
        let ghost s = input@;
        let ghost pre = Seq::<Operator>::empty();
        let ghost inf = self.infix_ops@;
        assert(match_at(pre, s, pos as int) is None);
        let (mut left, mut p) = match atom::<M>(input, pos) {
            Ok(v) => v,
            Err(e) => return Err(e),
        };
        proof {
            lemma_atom_bounds(s, pos as int);
        }
        let ghost mut lt: Ast = atom_at(s, pos as int)->Ok_0.0;
        loop
            invariant
                pos < p <= s.len(),
                s == input@,
                inf == self.infix_ops@,
                pre == Seq::<Operator>::empty(),
                M::holds(left, lt),
                self.outcome(s, pos as int, min) == infix_loop(pre, inf, s, lt, p as int, min),
            decreases s.len() - p,
        {
            proof {
                lemma_match_bounds(inf, s, p as int, 0);
            }
            let (op, q) = match match_op(&self.infix_ops, input, p) {
                Some(m) => m,
                None => return Ok((left, p)),
            };
            if op.prec.strength_left.is_lt(&min) {
                return Ok((left, p));
            }
            let ghost right = self.outcome(s, q as int, Some(op.prec.strength_right));
            let (rhs, p2) = match self.pratt_parse::<M>(input, q, Some(op.prec.strength_right)) {
                Ok(v) => v,
                Err(e) => return Err(e),
            };
            left = M::binary(op.label, left, rhs, Ghost(lt), Ghost(right->Ok_0.0));
            proof {
                lt = Ast::Infix(op.label, Box::new(lt), Box::new(right->Ok_0.0));
            }
            p = p2;
        }
    }
}

impl PrefixPratt {
    /// The outcome of this engine at `pos` under the threshold `min`.
    pub open spec fn outcome(&self, s: Seq<char>, pos: int, min: Option<Strength>) -> Outcome {
        expr_at(self.prefix_ops@, self.infix_ops@, s, pos, min)
    }

    /// Runs the engine at `pos` in mode `M`, with no threshold.
    pub fn go<M: Mode>(&self, input: &[char], pos: usize) -> (r: Result<(M::Out, usize), Failure>)
        requires
            pos <= input@.len(),
        ensures
            models::<M>(r, self.outcome(input@, pos as int, None)),
            r matches Ok((_, p)) ==> pos < p <= input@.len(),
    {
        self.pratt_parse::<M>(input, pos, None)
    }

    /// Parses an expression at `pos`, building its tree; on success also the
    /// position after it.
    pub fn parse_at(&self, input: &[char], pos: usize) -> (r: Result<(Expr, usize), Failure>)
        requires
            pos <= input@.len(),
        ensures
            outcome_of(r) == self.outcome(input@, pos as int, None),
            r matches Ok((_, p)) ==> pos < p <= input@.len(),
    {
        self.go::<Emit>(input, pos)
    }

    /// Parses an expression at the start of `input`; trailing input that no
    /// operator claims is left unconsumed.
    pub fn parse(&self, input: &[char]) -> (r: Result<(Expr, usize), Failure>)
        ensures
            outcome_of(r) == self.outcome(input@, 0, None),
            r matches Ok((_, p)) ==> 0 < p <= input@.len(),
    {
        self.parse_at(input, 0)
    }

    /// Follows the parse at `pos` without building anything: where it stops,
    /// or how it fails.
    pub fn check(&self, input: &[char], pos: usize) -> (r: Result<usize, Failure>)
        requires
            pos <= input@.len(),
        ensures
            end_of_run(r) == end_of(self.outcome(input@, pos as int, None)),
    {
        match self.go::<Check>(input, pos) {
            Ok((_, p)) => Ok(p),
            Err(f) => Err(f),
        }
    }

    /// Parses the whole of `input` as one expression.
    pub fn parse_complete(&self, input: &[char]) -> (r: Result<Expr, Failure>)
        ensures
            match r {
                Ok(e) => complete(self.outcome(input@, 0, None), input@) == Ok::<Ast, Failure>(e@),
                Err(f) => complete(self.outcome(input@, 0, None), input@) == Err::<Ast, Failure>(f),
            },
    {
        match self.parse(input) {
            Ok((e, p)) => {
                if p < input.len() {
                    Err(Failure { pos: p, found: Some(input[p]) })
                } else {
                    Ok(e)
                }
            },
            Err(f) => Err(f),
        }
    }

    fn pratt_parse<M: Mode>(&self, input: &[char], pos: usize, min: Option<Strength>) -> (r: Result<
        (M::Out, usize),
        Failure,
    >)
        requires
            pos <= input@.len(),
        ensures
            models::<M>(r, self.outcome(input@, pos as int, min)),
            r matches Ok((_, p)) ==> pos < p <= input@.len(),
        decreases input@.len() - pos,
    {
        let ghost s = input@;
        let ghost pre = self.prefix_ops@;
        let ghost inf = self.infix_ops@;
        let ghost mut lt: Ast;
        proof {
            lemma_match_bounds(pre, s, pos as int, 0);
            lemma_atom_bounds(s, pos as int);
        }
        let (mut left, mut p) = match match_op(&self.prefix_ops, input, pos) {
            Some((op, q)) => {
                let ghost operand = self.outcome(s, q as int, Some(op.prec.strength_right));
                let (rhs, p1) = match self.pratt_parse::<M>(input, q, Some(op.prec.strength_right)) {
                    Ok(v) => v,
                    Err(e) => return Err(e),
                };
                proof {
                    lt = Ast::Prefix(op.label, Box::new(operand->Ok_0.0));
                }
                (M::unary(op.label, rhs, Ghost(operand->Ok_0.0)), p1)
            },
            None => {
                let (a, p1) = match atom::<M>(input, pos) {
                    Ok(v) => v,
                    Err(e) => return Err(e),
                };
                proof {
                    lt = atom_at(s, pos as int)->Ok_0.0;
                }
                (a, p1)
            },
        };
        loop
            invariant
                pos < p <= s.len(),
                s == input@,
                pre == self.prefix_ops@,
                inf == self.infix_ops@,
                M::holds(left, lt),
                self.outcome(s, pos as int, min) == infix_loop(pre, inf, s, lt, p as int, min),
            decreases s.len() - p,
        {
            proof {
                lemma_match_bounds(inf, s, p as int, 0);
            }
            let (op, q) = match match_op(&self.infix_ops, input, p) {
                Some(m) => m,
                None => return Ok((left, p)),
            };
            if op.prec.strength_left.is_lt(&min) {
                return Ok((left, p));
            }
            let ghost right = self.outcome(s, q as int, Some(op.prec.strength_right));
            let (rhs, p2) = match self.pratt_parse::<M>(input, q, Some(op.prec.strength_right)) {
                Ok(v) => v,
                Err(e) => return Err(e),
            };
            left = M::binary(op.label, left, rhs, Ghost(lt), Ghost(right->Ok_0.0));
            proof {
                lt = Ast::Infix(op.label, Box::new(lt), Box::new(right->Ok_0.0));
            }
            p = p2;
        }
    }
}

} // verus!
