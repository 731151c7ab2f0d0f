//! Operator descriptors and operator tables.
use vstd::prelude::*;

use crate::strength::{left_prec, right_prec, Precedence};

verus! {

/// An operator: the token that spells it, its precedence, and the label that
/// its builder puts on the tree node it makes.
pub struct Operator {
    pub token: Vec<char>,
    pub prec: Precedence,
    pub label: char,
}

/// What an operator table hands back when one of its operators matches: the
/// operator's precedence and its builder's label.
#[derive(Clone, Copy, Debug, PartialEq, Eq, Structural)]
pub struct PrattOpOutput {
    pub prec: Precedence,
    pub label: char,
}

/// A left-associative infix operator at level `strength`.
pub fn left_infix(token: Vec<char>, strength: u8, label: char) -> (r: Operator)
    ensures
        r.token@ == token@,
        r.prec == left_prec(strength),
        r.label == label,
{
    Operator { token, prec: Precedence::left(strength), label }
}

/// A right-associative infix operator at level `strength`.
pub fn right_infix(token: Vec<char>, strength: u8, label: char) -> (r: Operator)
    ensures
        r.token@ == token@,
        r.prec == right_prec(strength),
        r.label == label,
{
    Operator { token, prec: Precedence::right(strength), label }
}

/// A prefix operator at level `strength`: its operand is parsed with the
/// threshold `strength`.
pub fn prefix(token: Vec<char>, strength: u8, label: char) -> (r: Operator)
    ensures
        r.token@ == token@,
        r.prec == right_prec(strength),
        r.label == label,
{
    Operator { token, prec: Precedence::right(strength), label }
}

/// Whether the nonempty token `tok` occurs in `s` at `pos`. An empty token
/// never matches, so every match consumes input.
pub open spec fn token_at(tok: Seq<char>, s: Seq<char>, pos: int) -> bool {
    &&& tok.len() > 0
    &&& 0 <= pos
    &&& pos + tok.len() <= s.len()
    &&& s.subrange(pos, pos + tok.len()) == tok
}

/// The first operator of `ops`, from index `i` on, whose token occurs at
/// `pos`, with the position just after its token.
pub open spec fn first_match_from(ops: Seq<Operator>, s: Seq<char>, pos: int, i: int) -> Option<
    (PrattOpOutput, int),
>
    decreases ops.len() - i,
{
    if i < 0 || i >= ops.len() {
        None
    } else if token_at(ops[i].token@, s, pos) {
        Some((PrattOpOutput { prec: ops[i].prec, label: ops[i].label }, pos + ops[i].token@.len()))
    } else {
        first_match_from(ops, s, pos, i + 1)
    }
}

/// What the operator table `ops` matches at `pos`: alternation in table
/// order, the first operator whose token occurs there wins.
pub open spec fn match_at(ops: Seq<Operator>, s: Seq<char>, pos: int) -> Option<(PrattOpOutput, int)> {
    first_match_from(ops, s, pos, 0)
}

/// A match ends after its start and within the input.
pub proof fn lemma_match_bounds(ops: Seq<Operator>, s: Seq<char>, pos: int, i: int)
    ensures
        first_match_from(ops, s, pos, i) matches Some((_, q)) ==> pos < q <= s.len(),
    decreases ops.len() - i,
{
    if 0 <= i < ops.len() && !token_at(ops[i].token@, s, pos) {
        lemma_match_bounds(ops, s, pos, i + 1);
    }
}

/// Whether `tok` occurs in `input` at `pos`.
fn token_matches(tok: &Vec<char>, input: &[char], pos: usize) -> (r: bool)
    requires
        pos <= input@.len(),
    ensures
        r == token_at(tok@, input@, pos as int),
{
    let n = tok.len();
    if n == 0 || n > input.len() - pos {
        return false;
    }
    let mut k: usize = 0;
    while k < n
        invariant
            0 < n == tok@.len(),
            pos + n <= input@.len(),
            input@.len() == input.len(),
            k <= n,
            forall|j: int| 0 <= j < k ==> input@[pos + j] == tok@[j],
        decreases n - k,
    {
        if input[pos + k] != tok[k] {
            assert(input@.subrange(pos as int, pos + n)[k as int] != tok@[k as int]);
            return false;
        }
        k = k + 1;
    }
    assert(input@.subrange(pos as int, pos + n) =~= tok@);
    true
}

/// Runs the operator table `ops` at `pos`: the first operator whose token
/// occurs there, and the position after it; `None` where none does.
pub fn match_op(ops: &Vec<Operator>, input: &[char], pos: usize) -> (r: Option<(PrattOpOutput, usize)>)
    requires
        pos <= input@.len(),
    ensures
        match r {
            Some((o, q)) => match_at(ops@, input@, pos as int) == Some((o, q as int)),
            None => match_at(ops@, input@, pos as int) is None,
        },
{
    let mut i: usize = 0;
    while i < ops.len()
        invariant
            i <= ops@.len(),
            pos <= input@.len(),
            input@.len() == input.len(),
            match_at(ops@, input@, pos as int) == first_match_from(ops@, input@, pos as int, i as int),
        decreases ops@.len() - i,
    {
        let op = &ops[i];
        if token_matches(&op.token, input, pos) {
            return Some((PrattOpOutput { prec: op.prec, label: op.label }, pos + op.token.len()));
        }
        i = i + 1;
    }
    None
}

} // verus!
