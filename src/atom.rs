//! Decimal integer atoms and parse failures.
use vstd::prelude::*;

use crate::ast::Ast;
use crate::mode::{models, Mode, Outcome};

verus! {

/// A parse failure: something was expected at `pos`, where `found` stands
/// (`None` at the end of the input).
#[derive(Clone, Copy, Debug, PartialEq, Eq, Structural)]
pub struct Failure {
    pub pos: usize,
    pub found: Option<char>,
}

/// The failure of expecting something at `pos` in `s`.
pub open spec fn unexpected_at(s: Seq<char>, pos: int) -> Failure {
    Failure { pos: pos as usize, found: if 0 <= pos < s.len() { Some(s[pos]) } else { None } }
}

pub open spec fn is_digit(c: char) -> bool {
    '0' <= c <= '9'
}

/// The end of the run of decimal digits that starts at `pos`.
pub open spec fn digits_end(s: Seq<char>, pos: int) -> int
    decreases s.len() - pos,
{
    if 0 <= pos < s.len() && is_digit(s[pos]) {
        digits_end(s, pos + 1)
    } else {
        pos
    }
}

/// Where the integer literal at `pos` ends: a lone `0`, or a nonzero digit
/// and the digits after it; `None` where no literal starts at `pos`.
pub open spec fn literal_end(s: Seq<char>, pos: int) -> Option<int> {
    if 0 <= pos < s.len() && s[pos] == '0' {
        Some(pos + 1)
    } else if 0 <= pos < s.len() && is_digit(s[pos]) {
        Some(digits_end(s, pos + 1))
    } else {
        None
    }
}

/// What the atom matcher does at `pos`: the literal and the position after
/// it, or a failure at `pos`.
pub open spec fn atom_at(s: Seq<char>, pos: int) -> Outcome {
    match literal_end(s, pos) {
        Some(e) => Ok((Ast::Literal(s.subrange(pos, e)), e)),
        None => Err(unexpected_at(s, pos)),
    }
}

pub proof fn lemma_digits_end(s: Seq<char>, pos: int)
    requires
        0 <= pos <= s.len(),
    ensures
        pos <= digits_end(s, pos) <= s.len(),
    decreases s.len() - pos,
{
    if pos < s.len() && is_digit(s[pos]) {
        lemma_digits_end(s, pos + 1);
    }
}

/// A literal ends after its start and within the input.
pub proof fn lemma_atom_bounds(s: Seq<char>, pos: int)
    requires
        0 <= pos <= s.len(),
    ensures
        atom_at(s, pos) matches Ok((_, e)) ==> pos < e <= s.len(),
        atom_at(s, pos) matches Err(f) ==> f == unexpected_at(s, pos),
{
    if 0 <= pos < s.len() && is_digit(s[pos]) && s[pos] != '0' {
        lemma_digits_end(s, pos + 1);
    }
}

/// Matches an integer literal at `pos`, in mode `M`.
pub fn atom<M: Mode>(input: &[char], pos: usize) -> (r: Result<(M::Out, usize), Failure>)
    requires
        pos <= input@.len(),
    ensures
        models::<M>(r, atom_at(input@, pos as int)),
{
    let n = input.len();
    if pos < n && input[pos] == '0' {
        let v = M::literal(input, pos, pos + 1);
        return Ok((v, pos + 1));
    }
    if pos < n && '0' <= input[pos] && input[pos] <= '9' {
        let mut e: usize = pos + 1;
        while e < n && '0' <= input[e] && input[e] <= '9'
            invariant
                pos < e <= n == input@.len(),
                digits_end(input@, pos + 1) == digits_end(input@, e as int),
            decreases n - e,
        {
            e = e + 1;
        }
        let v = M::literal(input, pos, e);
        return Ok((v, e));
    }
    let found = if pos < n {
        Some(input[pos])
    } else {
        None
    };
    Err(Failure { pos, found })
}

} // verus!
