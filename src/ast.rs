//! Expression trees: the mathematical [`Ast`] and the owned [`Expr`].
use vstd::prelude::*;

verus! {

/// An expression tree as a mathematical value.
pub enum Ast {
    Literal(Seq<char>),
    Prefix(char, Box<Ast>),
    Infix(char, Box<Ast>, Box<Ast>),
}

/// An expression tree built by a parse: integer literals (their digits),
/// prefix nodes and infix nodes, each operator node under its label.
#[derive(Debug)]
pub enum Expr {
    Literal(Vec<char>),
    Prefix(char, Box<Expr>),
    Infix(char, Box<Expr>, Box<Expr>),
}

/// The mathematical tree of an owned one.
pub open spec fn tree_of(e: &Expr) -> Ast
    decreases e,
{
    match e {
        Expr::Literal(d) => Ast::Literal(d@),
        Expr::Prefix(c, x) => Ast::Prefix(*c, Box::new(tree_of(x))),
        Expr::Infix(c, l, r) => Ast::Infix(*c, Box::new(tree_of(l)), Box::new(tree_of(r))),
    }
}

impl View for Expr {
    type V = Ast;

    open spec fn view(&self) -> Ast {
        tree_of(self)
    }
}

/// The fully parenthesised text of a tree: `(-x)` for a prefix node,
/// `(l + r)` for an infix node, the digits for a literal.
pub open spec fn rendering(t: Ast) -> Seq<char>
    decreases t,
{
    match t {
        Ast::Literal(d) => d,
        Ast::Prefix(c, e) => seq!['('].push(c) + rendering(*e) + seq![')'],
        Ast::Infix(c, l, r) => seq!['('] + rendering(*l) + seq![' ', c, ' '] + rendering(*r) + seq![
            ')',
        ],
    }
}

fn push_all(out: &mut Vec<char>, s: &Vec<char>)
    ensures
        final(out)@ == old(out)@ + s@,
{
    let mut i: usize = 0;
    while i < s.len()
        invariant
            i <= s@.len(),
            out@ == old(out)@ + s@.subrange(0, i as int),
        decreases s@.len() - i,
    {
        out.push(s[i]);
        i = i + 1;
        assert(s@.subrange(0, i as int) == s@.subrange(0, i - 1).push(s@[i - 1]));
    }
    assert(s@.subrange(0, s@.len() as int) == s@);
}

impl Expr {
    /// A prefix node over `operand`.
    pub fn prefix_node(label: char, operand: Expr) -> (r: Expr)
        ensures
            r@ == Ast::Prefix(label, Box::new(operand@)),
    {
        Expr::Prefix(label, Box::new(operand))
    }

    /// An infix node over `lhs` and `rhs`.
    pub fn infix_node(label: char, lhs: Expr, rhs: Expr) -> (r: Expr)
        ensures
            r@ == Ast::Infix(label, Box::new(lhs@), Box::new(rhs@)),
    {
        Expr::Infix(label, Box::new(lhs), Box::new(rhs))
    }

    /// A literal node with the digits `digits`.
    pub fn literal_node(digits: Vec<char>) -> (r: Expr)
        ensures
            r@ == Ast::Literal(digits@),
    {
        Expr::Literal(digits)
    }

    fn render_into(&self, out: &mut Vec<char>)
        ensures
            final(out)@ == old(out)@ + rendering(self@),
        decreases self,
    {
        match self {
            Expr::Literal(d) => push_all(out, d),
            Expr::Prefix(c, e) => {
                out.push('(');
                out.push(*c);
                e.render_into(out);
                out.push(')');
            },
            Expr::Infix(c, l, r) => {
                out.push('(');
                l.render_into(out);
                out.push(' ');
                out.push(*c);
                out.push(' ');
                r.render_into(out);
                out.push(')');
            },
        }
        proof {
            match self {
                Expr::Literal(d) => {},
                Expr::Prefix(c, e) => {
                    assert(final(out)@ =~= old(out)@ + rendering(self@));
                },
                Expr::Infix(c, l, r) => {
                    assert(final(out)@ =~= old(out)@ + rendering(self@));
                },
            }
        }
    }

    /// The fully parenthesised text of this tree.
    pub fn render(&self) -> (r: Vec<char>)
        ensures
            r@ == rendering(self@),
    {
        let mut out: Vec<char> = Vec::new();
        self.render_into(&mut out);
        assert(out@ =~= rendering(self@));
        out
    }
}

} // verus!
