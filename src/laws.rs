//! Laws of the engine: grouping of operator chains, failure propagation and
//! agreement of the two execution modes.
use vstd::prelude::*;

use crate::ast::{Ast, Expr};
use crate::atom::{atom_at, lemma_atom_bounds, unexpected_at, Failure};
use crate::engine::{end_of, end_of_run, expr_at, infix_loop, outcome_of, Pratt, PrefixPratt};
use crate::mode::Outcome;
use crate::ops::{lemma_match_bounds, match_at, Operator, PrattOpOutput};
use crate::strength::{left_prec, right_prec, Strength};

verus! {

/// `s` holds a chain of the atoms `atoms` joined by the infix operators
/// `ops`, as the matchers see it: atom `i` spans `starts[i]..ends[i]` with no
/// prefix operator at its start, operator `i` spans `ends[i]..starts[i + 1]`,
/// and no infix operator follows the last atom.
pub open spec fn is_chain(
    pre: Seq<Operator>,
    inf: Seq<Operator>,
    s: Seq<char>,
    atoms: Seq<Ast>,
    ops: Seq<PrattOpOutput>,
    starts: Seq<int>,
    ends: Seq<int>,
) -> bool {
    &&& atoms.len() >= 1
    &&& ops.len() + 1 == atoms.len()
    &&& starts.len() == atoms.len()
    &&& ends.len() == atoms.len()
    &&& 0 <= starts[0] <= s.len()
    &&& forall|i: int|
        0 <= i < atoms.len() ==> match_at(pre, s, #[trigger] starts[i]) is None && atom_at(
            s,
            starts[i],
        ) == Outcome::Ok((atoms[i], ends[i]))
    &&& forall|i: int|
        0 <= i < ops.len() ==> match_at(inf, s, #[trigger] ends[i]) == Some((ops[i], starts[i + 1]))
    &&& match_at(inf, s, ends[atoms.len() - 1]) is None
}

/// The tree of the first `k` atoms of a chain grouped from the left.
pub open spec fn fold_left(atoms: Seq<Ast>, ops: Seq<PrattOpOutput>, k: int) -> Ast
    decreases k,
{
    if k <= 1 {
        atoms[0]
    } else {
        Ast::Infix(ops[k - 2].label, Box::new(fold_left(atoms, ops, k - 1)), Box::new(atoms[k - 1]))
    }
}

/// The tree of the atoms of a chain from index `i` on, grouped from the
/// right.
pub open spec fn fold_right(atoms: Seq<Ast>, ops: Seq<PrattOpOutput>, i: int) -> Ast
    decreases atoms.len() - i,
{
    if i < 0 || i >= atoms.len() - 1 {
        atoms[atoms.len() - 1]
    } else {
        Ast::Infix(ops[i].label, Box::new(atoms[i]), Box::new(fold_right(atoms, ops, i + 1)))
    }
}

proof fn lemma_chain_bounds(
    pre: Seq<Operator>,
    inf: Seq<Operator>,
    s: Seq<char>,
    atoms: Seq<Ast>,
    ops: Seq<PrattOpOutput>,
    starts: Seq<int>,
    ends: Seq<int>,
    i: int,
)
    requires
        is_chain(pre, inf, s, atoms, ops, starts, ends),
        0 <= i < atoms.len(),
    ensures
        0 <= starts[i] < ends[i] <= s.len(),
        i + 1 < atoms.len() ==> ends[i] < starts[i + 1] <= s.len(),
    decreases i,
{
    if i > 0 {
        lemma_chain_bounds(pre, inf, s, atoms, ops, starts, ends, i - 1);
    }
    assert(match_at(pre, s, starts[i]) is None);
    lemma_atom_bounds(s, starts[i]);
    if i + 1 < atoms.len() {
        assert(match_at(inf, s, ends[i]) == Some((ops[i], starts[i + 1])));
        lemma_match_bounds(inf, s, ends[i], 0);
    }
}

proof fn lemma_left_chain_from(
    pre: Seq<Operator>,
    inf: Seq<Operator>,
    s: Seq<char>,
    atoms: Seq<Ast>,
    ops: Seq<PrattOpOutput>,
    starts: Seq<int>,
    ends: Seq<int>,
    level: u8,
    k: int,
)
    requires
        is_chain(pre, inf, s, atoms, ops, starts, ends),
        forall|i: int| 0 <= i < ops.len() ==> #[trigger] ops[i].prec == left_prec(level),
        1 <= k <= atoms.len(),
    ensures
        infix_loop(pre, inf, s, fold_left(atoms, ops, k), ends[k - 1], None) == Outcome::Ok(
            (fold_left(atoms, ops, atoms.len() as int), ends[atoms.len() - 1]),
        ),
    decreases atoms.len() - k,
{
    let n = atoms.len() as int;
    if k < n {
        lemma_chain_bounds(pre, inf, s, atoms, ops, starts, ends, k - 1);
        lemma_chain_bounds(pre, inf, s, atoms, ops, starts, ends, k);
        assert(match_at(inf, s, ends[k - 1]) == Some((ops[k - 1], starts[k])));
        assert(ops[k - 1].prec == left_prec(level));
        assert(match_at(pre, s, starts[k]) is None);
        assert(atom_at(s, starts[k]) == Outcome::Ok((atoms[k], ends[k])));
        let inner = Some(Strength::Strong(level));
        if k + 1 < n {
            assert(match_at(inf, s, ends[k]) == Some((ops[k], starts[k + 1])));
            assert(ops[k].prec == left_prec(level));
        }
        assert(infix_loop(pre, inf, s, atoms[k], ends[k], inner) == Outcome::Ok((atoms[k], ends[k])));
        assert(expr_at(pre, inf, s, starts[k], inner) == Outcome::Ok((atoms[k], ends[k])));
        lemma_left_chain_from(pre, inf, s, atoms, ops, starts, ends, level, k + 1);
    }
}

/// A chain of left-associative operators of one level groups strictly from
/// the left: `((a1 op a2) op a3) ... op an`.
pub proof fn lemma_left_assoc_chain(
    pre: Seq<Operator>,
    inf: Seq<Operator>,
    s: Seq<char>,
    atoms: Seq<Ast>,
    ops: Seq<PrattOpOutput>,
    starts: Seq<int>,
    ends: Seq<int>,
    level: u8,
)
    requires
        is_chain(pre, inf, s, atoms, ops, starts, ends),
        forall|i: int| 0 <= i < ops.len() ==> #[trigger] ops[i].prec == left_prec(level),
    ensures
        expr_at(pre, inf, s, starts[0], None) == Outcome::Ok(
            (fold_left(atoms, ops, atoms.len() as int), ends[atoms.len() - 1]),
        ),
{
    lemma_chain_bounds(pre, inf, s, atoms, ops, starts, ends, 0);
    assert(match_at(pre, s, starts[0]) is None);
    assert(atom_at(s, starts[0]) == Outcome::Ok((atoms[0], ends[0])));
    lemma_left_chain_from(pre, inf, s, atoms, ops, starts, ends, level, 1);
}

proof fn lemma_right_chain_from(
    pre: Seq<Operator>,
    inf: Seq<Operator>,
    s: Seq<char>,
    atoms: Seq<Ast>,
    ops: Seq<PrattOpOutput>,
    starts: Seq<int>,
    ends: Seq<int>,
    level: u8,
    i: int,
    min: Option<Strength>,
)
    requires
        is_chain(pre, inf, s, atoms, ops, starts, ends),
        forall|j: int| 0 <= j < ops.len() ==> #[trigger] ops[j].prec == right_prec(level),
        0 <= i < atoms.len(),
        !Strength::Weak(level).below(min),
    ensures
        expr_at(pre, inf, s, starts[i], min) == Outcome::Ok(
            (fold_right(atoms, ops, i), ends[atoms.len() - 1]),
        ),
        starts[i] < ends[atoms.len() - 1] <= s.len(),
    decreases atoms.len() - i,
{
    let n = atoms.len() as int;
    lemma_chain_bounds(pre, inf, s, atoms, ops, starts, ends, i);
    assert(match_at(pre, s, starts[i]) is None);
    assert(atom_at(s, starts[i]) == Outcome::Ok((atoms[i], ends[i])));
    if i + 1 < n {
        assert(match_at(inf, s, ends[i]) == Some((ops[i], starts[i + 1])));
        assert(ops[i].prec == right_prec(level));
        lemma_right_chain_from(
            pre,
            inf,
            s,
            atoms,
            ops,
            starts,
            ends,
            level,
            i + 1,
            Some(Strength::Weak(level)),
        );
        let t = Ast::Infix(ops[i].label, Box::new(atoms[i]), Box::new(fold_right(atoms, ops, i + 1)));
        assert(infix_loop(pre, inf, s, t, ends[n - 1], min) == Outcome::Ok((t, ends[n - 1])));
        assert(infix_loop(pre, inf, s, atoms[i], ends[i], min) == Outcome::Ok((t, ends[n - 1])));
    }
}

/// A chain of right-associative operators of one level groups strictly from
/// the right: `a1 op (a2 op (... op an))`.
pub proof fn lemma_right_assoc_chain(
    pre: Seq<Operator>,
    inf: Seq<Operator>,
    s: Seq<char>,
    atoms: Seq<Ast>,
    ops: Seq<PrattOpOutput>,
    starts: Seq<int>,
    ends: Seq<int>,
    level: u8,
)
    requires
        is_chain(pre, inf, s, atoms, ops, starts, ends),
        forall|i: int| 0 <= i < ops.len() ==> #[trigger] ops[i].prec == right_prec(level),
    ensures
        expr_at(pre, inf, s, starts[0], None) == Outcome::Ok(
            (fold_right(atoms, ops, 0), ends[atoms.len() - 1]),
        ),
{
    lemma_right_chain_from(pre, inf, s, atoms, ops, starts, ends, level, 0, None);
}

/// Whether `p` is the precedence of an infix operator at `level`, of either
/// associativity.
pub open spec fn infix_at_level(p: crate::strength::Precedence, level: u8) -> bool {
    p == left_prec(level) || p == right_prec(level)
}

/// Between two operators of different levels, whatever their associativity,
/// the one of the higher level binds tighter: in `a op1 b op2 c` it takes
/// `b` as its operand.
pub proof fn lemma_higher_level_binds_tighter(
    pre: Seq<Operator>,
    inf: Seq<Operator>,
    s: Seq<char>,
    atoms: Seq<Ast>,
    ops: Seq<PrattOpOutput>,
    starts: Seq<int>,
    ends: Seq<int>,
    level1: u8,
    level2: u8,
)
    requires
        is_chain(pre, inf, s, atoms, ops, starts, ends),
        atoms.len() == 3,
        infix_at_level(ops[0].prec, level1),
        infix_at_level(ops[1].prec, level2),
        level1 != level2,
    ensures
        level1 < level2 ==> expr_at(pre, inf, s, starts[0], None) == Outcome::Ok(
            (
                Ast::Infix(
                    ops[0].label,
                    Box::new(atoms[0]),
                    Box::new(Ast::Infix(ops[1].label, Box::new(atoms[1]), Box::new(atoms[2]))),
                ),
                ends[2],
            ),
        ),
        level2 < level1 ==> expr_at(pre, inf, s, starts[0], None) == Outcome::Ok(
            (
                Ast::Infix(
                    ops[1].label,
                    Box::new(Ast::Infix(ops[0].label, Box::new(atoms[0]), Box::new(atoms[1]))),
                    Box::new(atoms[2]),
                ),
                ends[2],
            ),
        ),
{
    lemma_chain_bounds(pre, inf, s, atoms, ops, starts, ends, 0);
    lemma_chain_bounds(pre, inf, s, atoms, ops, starts, ends, 1);
    lemma_chain_bounds(pre, inf, s, atoms, ops, starts, ends, 2);
    assert(match_at(pre, s, starts[0]) is None);
    assert(match_at(pre, s, starts[1]) is None);
    assert(match_at(pre, s, starts[2]) is None);
    assert(atom_at(s, starts[0]) == Outcome::Ok((atoms[0], ends[0])));
    assert(atom_at(s, starts[1]) == Outcome::Ok((atoms[1], ends[1])));
    assert(atom_at(s, starts[2]) == Outcome::Ok((atoms[2], ends[2])));
    assert(match_at(inf, s, ends[0]) == Some((ops[0], starts[1])));
    assert(match_at(inf, s, ends[1]) == Some((ops[1], starts[2])));
    let r1 = Some(ops[0].prec.strength_right);
    let r2 = Some(ops[1].prec.strength_right);
    assert(match_at(inf, s, ends[2]) is None);
    assert(infix_loop(pre, inf, s, atoms[2], ends[2], r2) == Outcome::Ok((atoms[2], ends[2])));
    assert(expr_at(pre, inf, s, starts[2], r2) == Outcome::Ok((atoms[2], ends[2])));
    let a = atoms[0];
    let b = atoms[1];
    let c = atoms[2];
    if level1 < level2 {
        assert(!ops[1].prec.strength_left.below(r1));
        let bc = Ast::Infix(ops[1].label, Box::new(b), Box::new(c));
        assert(infix_loop(pre, inf, s, bc, ends[2], r1) == Outcome::Ok((bc, ends[2])));
        assert(expr_at(pre, inf, s, starts[1], r1) == Outcome::Ok((bc, ends[2])));
        let abc = Ast::Infix(ops[0].label, Box::new(a), Box::new(bc));
        assert(infix_loop(pre, inf, s, abc, ends[2], None) == Outcome::Ok((abc, ends[2])));
        assert(infix_loop(pre, inf, s, a, ends[0], None) == Outcome::Ok((abc, ends[2])));
        assert(expr_at(pre, inf, s, starts[0], None) == Outcome::Ok((abc, ends[2])));
    } else {
        assert(ops[1].prec.strength_left.below(r1));
        assert(infix_loop(pre, inf, s, b, ends[1], r1) == Outcome::Ok((b, ends[1])));
        assert(expr_at(pre, inf, s, starts[1], r1) == Outcome::Ok((b, ends[1])));
        let ab = Ast::Infix(ops[0].label, Box::new(a), Box::new(b));
        let abc = Ast::Infix(ops[1].label, Box::new(ab), Box::new(c));
        assert(infix_loop(pre, inf, s, abc, ends[2], None) == Outcome::Ok((abc, ends[2])));
        assert(infix_loop(pre, inf, s, ab, ends[1], None) == Outcome::Ok((abc, ends[2])));
        assert(infix_loop(pre, inf, s, a, ends[0], None) == Outcome::Ok((abc, ends[2])));
        assert(expr_at(pre, inf, s, starts[0], None) == Outcome::Ok((abc, ends[2])));
    }
}

/// A successful parse ends after its start and within the input; a failure
/// lies at or after the start and within the input.
pub proof fn lemma_outcome_bounds(
    pre: Seq<Operator>,
    inf: Seq<Operator>,
    s: Seq<char>,
    pos: int,
    min: Option<Strength>,
)
    requires
        0 <= pos <= s.len() <= usize::MAX,
    ensures
        expr_at(pre, inf, s, pos, min) matches Ok((_, p)) ==> pos < p <= s.len(),
        expr_at(pre, inf, s, pos, min) matches Err(f) ==> pos <= f.pos <= s.len(),
    decreases s.len() - pos, 1int,
{
    lemma_match_bounds(pre, s, pos, 0);
    lemma_atom_bounds(s, pos);
    match match_at(pre, s, pos) {
        Some((op, q)) => {
            let m = Some(op.prec.strength_right);
            lemma_outcome_bounds(pre, inf, s, q, m);
            if let Ok((t, p)) = expr_at(pre, inf, s, q, m) {
                lemma_loop_bounds(pre, inf, s, Ast::Prefix(op.label, Box::new(t)), p, min);
            }
        },
        None => {
            if let Ok((t, p)) = atom_at(s, pos) {
                lemma_loop_bounds(pre, inf, s, t, p, min);
            }
        },
    }
}

/// The infix loop stops at or after where it starts, and fails at or after
/// it.
pub proof fn lemma_loop_bounds(
    pre: Seq<Operator>,
    inf: Seq<Operator>,
    s: Seq<char>,
    left: Ast,
    pos: int,
    min: Option<Strength>,
)
    requires
        0 <= pos <= s.len() <= usize::MAX,
    ensures
        infix_loop(pre, inf, s, left, pos, min) matches Ok((_, p)) ==> pos <= p <= s.len(),
        infix_loop(pre, inf, s, left, pos, min) matches Err(f) ==> pos <= f.pos <= s.len(),
    decreases s.len() - pos, 0int,
{
    lemma_match_bounds(inf, s, pos, 0);
    if let Some((op, q)) = match_at(inf, s, pos) {
        if !op.prec.strength_left.below(min) {
            let m = Some(op.prec.strength_right);
            lemma_outcome_bounds(pre, inf, s, q, m);
            if let Ok((t, p)) = expr_at(pre, inf, s, q, m) {
                lemma_loop_bounds(
                    pre,
                    inf,
                    s,
                    Ast::Infix(op.label, Box::new(left), Box::new(t)),
                    p,
                    min,
                );
            }
        }
    }
}

/// Where no prefix operator and no atom stands at the start, the result is
/// the atom matcher's own failure, unaltered.
pub proof fn lemma_no_atom(
    pre: Seq<Operator>,
    inf: Seq<Operator>,
    s: Seq<char>,
    pos: int,
    min: Option<Strength>,
)
    requires
        match_at(pre, s, pos) is None,
        atom_at(s, pos) is Err,
    ensures
        expr_at(pre, inf, s, pos, min) == atom_at(s, pos),
{
}

/// Where an infix operator is taken but its right operand fails, the result
/// is that operand's failure, unaltered, and it lies at or after the end of
/// the operator.
pub proof fn lemma_infix_operand_failure(
    pre: Seq<Operator>,
    inf: Seq<Operator>,
    s: Seq<char>,
    left: Ast,
    pos: int,
    min: Option<Strength>,
    op: PrattOpOutput,
    q: int,
)
    requires
        0 <= pos <= s.len() <= usize::MAX,
        match_at(inf, s, pos) == Some((op, q)),
        !op.prec.strength_left.below(min),
        expr_at(pre, inf, s, q, Some(op.prec.strength_right)) is Err,
    ensures
        infix_loop(pre, inf, s, left, pos, min) == expr_at(
            pre,
            inf,
            s,
            q,
            Some(op.prec.strength_right),
        ),
        q <= infix_loop(pre, inf, s, left, pos, min)->Err_0.pos,
{
    lemma_match_bounds(inf, s, pos, 0);
    lemma_outcome_bounds(pre, inf, s, q, Some(op.prec.strength_right));
}

/// Where a prefix operator matches but its operand fails, the result is that
/// operand's failure, unaltered, and it lies at or after the end of the
/// operator.
pub proof fn lemma_prefix_operand_failure(
    pre: Seq<Operator>,
    inf: Seq<Operator>,
    s: Seq<char>,
    pos: int,
    min: Option<Strength>,
    op: PrattOpOutput,
    q: int,
)
    requires
        0 <= pos <= s.len() <= usize::MAX,
        match_at(pre, s, pos) == Some((op, q)),
        expr_at(pre, inf, s, q, Some(op.prec.strength_right)) is Err,
    ensures
        expr_at(pre, inf, s, pos, min) == expr_at(pre, inf, s, q, Some(op.prec.strength_right)),
        q <= expr_at(pre, inf, s, pos, min)->Err_0.pos,
{
    lemma_match_bounds(pre, s, pos, 0);
    lemma_outcome_bounds(pre, inf, s, q, Some(op.prec.strength_right));
}

/// Where a taken infix operator is followed by the end of the input or by
/// something that starts no operand, the failure is reported just after the
/// operator's token.
pub proof fn lemma_missing_operand(
    pre: Seq<Operator>,
    inf: Seq<Operator>,
    s: Seq<char>,
    left: Ast,
    pos: int,
    min: Option<Strength>,
    op: PrattOpOutput,
    q: int,
)
    requires
        match_at(inf, s, pos) == Some((op, q)),
        !op.prec.strength_left.below(min),
        match_at(pre, s, q) is None,
        atom_at(s, q) is Err,
    ensures
        infix_loop(pre, inf, s, left, pos, min) == Outcome::Err(unexpected_at(s, q)),
{
    lemma_match_bounds(inf, s, pos, 0);
    assert(expr_at(pre, inf, s, q, Some(op.prec.strength_right)) == Outcome::Err(
        unexpected_at(s, q),
    ));
}

/// Validate mode stops where construct mode stops, and fails as it fails:
/// `check` and `parse_at` of one engine on one input and position agree.
pub proof fn lemma_modes_agree(
    engine: &PrefixPratt,
    s: Seq<char>,
    pos: int,
    built: Result<(Expr, usize), Failure>,
    checked: Result<usize, Failure>,
)
    requires
        outcome_of(built) == engine.outcome(s, pos, None),
        end_of_run(checked) == end_of(engine.outcome(s, pos, None)),
    ensures
        end_of_run(checked) == end_of(outcome_of(built)),
        built is Ok <==> checked is Ok,
{
}

/// Validate mode stops where construct mode stops, and fails as it fails,
/// for an engine without prefix operators.
pub proof fn lemma_modes_agree_infix(
    engine: &Pratt,
    s: Seq<char>,
    pos: int,
    built: Result<(Expr, usize), Failure>,
    checked: Result<usize, Failure>,
)
    requires
        outcome_of(built) == engine.outcome(s, pos, None),
        end_of_run(checked) == end_of(engine.outcome(s, pos, None)),
    ensures
        end_of_run(checked) == end_of(outcome_of(built)),
        built is Ok <==> checked is Ok,
{
}

} // verus!
