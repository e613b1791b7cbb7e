//! The parse tree of an expression, and its two textual renderings.
use vstd::prelude::*;

verus! {

/// The binary operators of the language.
#[derive(Clone, Copy, Debug, PartialEq, Eq, Structural)]
pub enum Op {
    Add,
    Sub,
    And,
    Or,
    Xor,
    Concat,
}

/// A parsed expression: one character, or an operator over two sub-expressions.
#[derive(Debug, PartialEq, Eq)]
pub enum Node {
    Leaf(char),
    Binary(Op, Box<Node>, Box<Node>),
}

/// The leaf characters of a tree, left to right.
pub open spec fn leaves(t: Node) -> Seq<char>
    decreases t,
{
    match t {
        Node::Leaf(c) => seq![c],
        Node::Binary(_, l, r) => leaves(*l) + leaves(*r),
    }
}

/// How an operator is written in the source text.
pub open spec fn symbol(op: Op) -> Seq<char> {
    match op {
        Op::Add => seq!['+'],
        Op::Sub => seq!['-'],
        Op::And => seq!['&'],
        Op::Or => seq!['|'],
        Op::Xor => seq!['^'],
        Op::Concat => seq!['|', '|'],
    }
}

/// Infix rendering: `L op R`, with no parentheses.
pub open spec fn pretty_of(t: Node) -> Seq<char>
    decreases t,
{
    match t {
        Node::Leaf(c) => seq![c],
        Node::Binary(op, l, r) => pretty_of(*l) + seq![' '] + symbol(op) + seq![' '] + pretty_of(*r),
    }
}

/// Prefix rendering: `(op L R)`.
pub open spec fn polish_of(t: Node) -> Seq<char>
    decreases t,
{
    match t {
        Node::Leaf(c) => seq![c],
        Node::Binary(op, l, r) => seq!['('] + symbol(op) + seq![' '] + polish_of(*l) + seq![' ']
            + polish_of(*r) + seq![')'],
    }
}

/// Relies on String::push: appends one character at the end.
#[verifier::external_body]
fn push_char(s: &mut String, c: char)
    ensures
        final(s)@ == old(s)@.push(c),
{
    s.push(c)
}

fn push_symbol(out: &mut String, op: Op)
    ensures
        final(out)@ == old(out)@ + symbol(op),
{
    match op {
        Op::Add => push_char(out, '+'),
        Op::Sub => push_char(out, '-'),
        Op::And => push_char(out, '&'),
        Op::Or => push_char(out, '|'),
        Op::Xor => push_char(out, '^'),
        Op::Concat => {
            push_char(out, '|');
            push_char(out, '|');
        },
    }
    assert(final(out)@ =~= old(out)@ + symbol(op));
}

fn write_pretty(t: &Node, out: &mut String)
    ensures
        final(out)@ == old(out)@ + pretty_of(*t),
    decreases t,
{
    match t {
        Node::Leaf(c) => push_char(out, *c),
        Node::Binary(op, l, r) => {
            write_pretty(l, out);
            push_char(out, ' ');
            push_symbol(out, *op);
            push_char(out, ' ');
            write_pretty(r, out);
        },
    }
    assert(final(out)@ =~= old(out)@ + pretty_of(*t));
}

fn write_polish(t: &Node, out: &mut String)
    ensures
        final(out)@ == old(out)@ + polish_of(*t),
    decreases t,
{
    match t {
        Node::Leaf(c) => push_char(out, *c),
        Node::Binary(op, l, r) => {
            push_char(out, '(');
            push_symbol(out, *op);
            push_char(out, ' ');
            write_polish(l, out);
            push_char(out, ' ');
            write_polish(r, out);
            push_char(out, ')');
        },
    }
    assert(final(out)@ =~= old(out)@ + polish_of(*t));
}

fn collect_leaves(t: &Node, out: &mut Vec<char>)
    ensures
        final(out)@ == old(out)@ + leaves(*t),
    decreases t,
{
    match t {
        Node::Leaf(c) => out.push(*c),
        Node::Binary(_, l, r) => {
            collect_leaves(l, out);
            collect_leaves(r, out);
        },
    }
    assert(final(out)@ =~= old(out)@ + leaves(*t));
}

/// The leaf characters of a tree, left to right.
pub fn leaf_chars(t: &Node) -> (r: Vec<char>)
    ensures
        r@ == leaves(*t),
{
    let mut out = Vec::new();
    collect_leaves(t, &mut out);
    assert(out@ =~= leaves(*t));
    out
}

/// Renders a tree in infix notation.
pub fn transform_pretty(t: &Node) -> (r: String)
    ensures
        r@ == pretty_of(*t),
{
    let mut out = String::new();
    write_pretty(t, &mut out);
    assert(out@ =~= pretty_of(*t));
    out
}

/// Renders a tree in prefix (polish) notation.
pub fn transform_polish_notation(t: &Node) -> (r: String)
    ensures
        r@ == polish_of(*t),
{
    let mut out = String::new();
    write_polish(t, &mut out);
    assert(out@ =~= polish_of(*t));
    out
}

} // verus!
