//! Binding strengths and operator precedences.
use vstd::prelude::*;

verus! {

/// How tightly an operator binds on one of its sides.
///
/// `Weak(l)` is the plain level `l`; `Strong(l)` is strictly tighter than
/// `Weak(l)` and strictly looser than `Weak(l + 1)`.
#[derive(Clone, Copy, Debug, PartialEq, Eq, Structural)]
pub enum Strength {
    Weak(u8),
    Strong(u8),
}

impl Strength {
    /// The position of this strength in the total order of all strengths.
    pub open spec fn rank(self) -> int {
        match self {
            Strength::Weak(l) => 2 * l,
            Strength::Strong(l) => 2 * l + 1,
        }
    }

    /// Whether this strength is below an inherited threshold; no threshold
    /// (`None`) is weaker than every strength.
    pub open spec fn below(self, min: Option<Strength>) -> bool {
        match min {
            Some(m) => self.rank() < m.rank(),
            None => false,
        }
    }

    /// Compares two strengths.
    pub fn is_less(&self, other: &Strength) -> (r: bool)
        ensures
            r == (self.rank() < other.rank()),
    {
        match (*self, *other) {
            (Strength::Weak(a), Strength::Weak(b)) => a < b,
            (Strength::Strong(a), Strength::Strong(b)) => a < b,
            (Strength::Weak(a), Strength::Strong(b)) => a <= b,
            (Strength::Strong(a), Strength::Weak(b)) => a < b,
        }
    }

    /// Whether this strength is below the threshold `min`; nothing is below
    /// the absent threshold.
    pub fn is_lt(&self, min: &Option<Strength>) -> (r: bool)
        ensures
            r == self.below(*min),
    {
        match min {
            Some(m) => self.is_less(m),
            None => false,
        }
    }
}

/// The binding strengths that an operator presents on its two sides.
///
/// `strength_left` decides whether an enclosing parse accepts the operator;
/// `strength_right` is the threshold for parsing its right operand.
#[derive(Clone, Copy, Debug, PartialEq, Eq, Structural)]
pub struct Precedence {
    pub strength_left: Strength,
    pub strength_right: Strength,
}

/// The precedence of a left-associative infix operator at `level`.
pub open spec fn left_prec(level: u8) -> Precedence {
    Precedence { strength_left: Strength::Weak(level), strength_right: Strength::Strong(level) }
}

/// The precedence of a right-associative infix operator, or of a prefix
/// operator, at `level`.
pub open spec fn right_prec(level: u8) -> Precedence {
    Precedence { strength_left: Strength::Weak(level), strength_right: Strength::Weak(level) }
}

impl Precedence {
    /// The precedence of a left-associative infix operator: an operator of the
    /// same level met in the right operand is refused there.
    pub fn left(level: u8) -> (r: Precedence)
        ensures
            r == left_prec(level),
    {
        Precedence { strength_left: Strength::Weak(level), strength_right: Strength::Strong(level) }
    }

    /// The precedence of a right-associative infix operator (or a prefix one):
    /// an operator of the same level met in the right operand is taken there.
    pub fn right(level: u8) -> (r: Precedence)
        ensures
            r == right_prec(level),
    {
        Precedence { strength_left: Strength::Weak(level), strength_right: Strength::Weak(level) }
    }

    pub fn strength_left(&self) -> (r: Strength)
        ensures
            r == self.strength_left,
    {
        self.strength_left
    }

    pub fn strength_right(&self) -> (r: Strength)
        ensures
            r == self.strength_right,
    {
        self.strength_right
    }
}

} // verus!
