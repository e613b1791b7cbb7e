//! The expression grammar, over the bytes of the input text.
//!
//! Two tiers of left-associative infix operators: `||` binds loosest; `+ - & | ^`
//! share the tighter tier. A primary is one ASCII letter or digit, or a
//! parenthesised expression. Whitespace between tokens is ignored.
use vstd::prelude::*;
use vstd::string::StringSliceAdditionalSpecFns;
use crate::tree::{leaves, Node, Op, polish_of, pretty_of, transform_polish_notation, transform_pretty};

verus! {

/// What the parser was looking for where it stopped.
#[derive(Clone, Copy, Debug, PartialEq, Eq, Structural)]
pub enum Expected {
    /// A letter, a digit or `(`.
    Primary,
    /// An operator or `)`.
    OperatorOrClose,
    /// An operator or the end of the input.
    OperatorOrEnd,
}

/// Malformed input: the byte offset where parsing stopped, and what would have fit there.
#[derive(Clone, Copy, Debug, PartialEq, Eq, Structural)]
pub struct SyntaxError {
    pub position: usize,
    pub expected: Expected,
}

/// One token as the scanner sees it at a position.
pub enum Lexeme {
    End,
    Char(u8),
    Open,
    Close,
    /// An infix operator and the number of bytes it spans.
    Infix(Op, int),
    Bad,
}

pub open spec fn is_space(b: u8) -> bool {
    b == 32 || b == 9 || b == 10 || b == 13
}

pub open spec fn is_alnum(b: u8) -> bool {
    (48 <= b <= 57) || (65 <= b <= 90) || (97 <= b <= 122)
}

/// Number of whitespace bytes starting at `i`.
pub open spec fn ws_run(b: Seq<u8>, i: int) -> nat
    decreases b.len() - i,
{
    if 0 <= i < b.len() && is_space(b[i]) {
        1 + ws_run(b, i + 1)
    } else {
        0
    }
}

/// First position at or after `i` that is not whitespace.
pub open spec fn skip_ws(b: Seq<u8>, i: int) -> int {
    i + ws_run(b, i)
}

/// The token that starts exactly at `i`.
pub open spec fn scan(b: Seq<u8>, i: int) -> Lexeme {
    if i < 0 || i >= b.len() {
        Lexeme::End
    } else if is_alnum(b[i]) {
        Lexeme::Char(b[i])
    } else if b[i] == 40 {
        Lexeme::Open
    } else if b[i] == 41 {
        Lexeme::Close
    } else if b[i] == 43 {
        Lexeme::Infix(Op::Add, 1)
    } else if b[i] == 45 {
        Lexeme::Infix(Op::Sub, 1)
    } else if b[i] == 38 {
        Lexeme::Infix(Op::And, 1)
    } else if b[i] == 94 {
        Lexeme::Infix(Op::Xor, 1)
    } else if b[i] == 124 {
        if i + 1 < b.len() && b[i + 1] == 124 {
            Lexeme::Infix(Op::Concat, 2)
        } else {
            Lexeme::Infix(Op::Or, 1)
        }
    } else {
        Lexeme::Bad
    }
}

pub open spec fn syntax_error<T>(pos: int, expected: Expected) -> Result<T, SyntaxError> {
    Err(SyntaxError { position: pos as usize, expected })
}

/// A primary starting at `i` (after optional whitespace): the tree and the position after it.
pub open spec fn primary_at(b: Seq<u8>, i: int) -> Result<(Node, int), SyntaxError>
    decreases b.len() - i, 0int,
{
    let j = skip_ws(b, i);
    match scan(b, j) {
        Lexeme::Char(c) => Ok((Node::Leaf(c as char), j + 1)),
        Lexeme::Open => if j + 1 <= b.len() {
            match expr_at(b, j + 1) {
                Ok((t, k)) => {
                    let k2 = skip_ws(b, k);
                    if scan(b, k2) is Close {
                        Ok((t, k2 + 1))
                    } else {
                        syntax_error(k2, Expected::OperatorOrClose)
                    }
                },
                Err(e) => Err(e),
            }
        } else {
            syntax_error(j, Expected::Primary)
        },
        _ => syntax_error(j, Expected::Primary),
    }
}

/// Continues a run of tighter-tier operators after the operand `acc`, which ends at `k`.
pub open spec fn term_tail(b: Seq<u8>, k: int, acc: Node) -> Result<(Node, int), SyntaxError>
    decreases b.len() - k, 0int,
{
    let j = skip_ws(b, k);
    match scan(b, j) {
        Lexeme::Infix(op, w) => if op != Op::Concat && j + w <= b.len() {
            match primary_at(b, j + w) {
                Ok((r, k2)) => if k < k2 <= b.len() {
                    term_tail(b, k2, Node::Binary(op, Box::new(acc), Box::new(r)))
                } else {
                    Ok((Node::Binary(op, Box::new(acc), Box::new(r)), k2))
                },
                Err(e) => Err(e),
            }
        } else {
            Ok((acc, k))
        },
        _ => Ok((acc, k)),
    }
}

/// A run of primaries joined by tighter-tier operators, starting at `i`.
pub open spec fn term_at(b: Seq<u8>, i: int) -> Result<(Node, int), SyntaxError>
    decreases b.len() - i, 1int,
{
    match primary_at(b, i) {
        Ok((t, k)) => if i < k <= b.len() {
            term_tail(b, k, t)
        } else {
            Ok((t, k))
        },
        Err(e) => Err(e),
    }
}

/// Continues a run of `||` after the operand `acc`, which ends at `k`.
pub open spec fn expr_tail(b: Seq<u8>, k: int, acc: Node) -> Result<(Node, int), SyntaxError>
    decreases b.len() - k, 1int,
{
    let j = skip_ws(b, k);
    match scan(b, j) {
        Lexeme::Infix(Op::Concat, w) => if j + w <= b.len() {
            match term_at(b, j + w) {
                Ok((r, k2)) => if k < k2 <= b.len() {
                    expr_tail(b, k2, Node::Binary(Op::Concat, Box::new(acc), Box::new(r)))
                } else {
                    Ok((Node::Binary(Op::Concat, Box::new(acc), Box::new(r)), k2))
                },
                Err(e) => Err(e),
            }
        } else {
            Ok((acc, k))
        },
        _ => Ok((acc, k)),
    }
}

/// A full expression starting at `i`.
pub open spec fn expr_at(b: Seq<u8>, i: int) -> Result<(Node, int), SyntaxError>
    decreases b.len() - i, 2int,
{
    match term_at(b, i) {
        Ok((t, k)) => if i < k <= b.len() {
            expr_tail(b, k, t)
        } else {
            Ok((t, k))
        },
        Err(e) => Err(e),
    }
}

/// The tree of a whole program: one expression, then only whitespace.
pub open spec fn program_of(b: Seq<u8>) -> Result<Node, SyntaxError> {
    match expr_at(b, 0) {
        Ok((t, k)) => {
            let j = skip_ws(b, k);
            if j >= b.len() {
                Ok(t)
            } else {
                syntax_error(j, Expected::OperatorOrEnd)
            }
        },
        Err(e) => Err(e),
    }
}

pub open spec fn lift(r: Result<(Node, usize), SyntaxError>) -> Result<(Node, int), SyntaxError> {
    match r {
        Ok((t, k)) => Ok((t, k as int)),
        Err(e) => Err(e),
    }
}

pub open spec fn advances(r: Result<(Node, usize), SyntaxError>, i: int, len: int) -> bool {
    r matches Ok((_, k)) ==> i < k <= len
}

fn skip_spaces(b: &[u8], i: usize) -> (j: usize)
    requires
        i <= b@.len(),
    ensures
        j == skip_ws(b@, i as int),
        i <= j <= b@.len(),
        b@.len() <= usize::MAX,
{
    let mut j = i;
    while j < b.len() && (b[j] == 32 || b[j] == 9 || b[j] == 10 || b[j] == 13)
        invariant
            i <= j <= b@.len(),
            skip_ws(b@, i as int) == skip_ws(b@, j as int),
        decreases b@.len() - j,
    {
        j = j + 1;
    }
    j
}

/// The infix operator at `j`, if there is one, with its width in bytes.
fn infix_at(b: &[u8], j: usize) -> (r: Option<(Op, usize)>)
    requires
        j <= b@.len(),
    ensures
        match scan(b@, j as int) {
            Lexeme::Infix(op, w) => r == Some((op, w as usize)) && 1 <= w && j + w <= b@.len(),
            _ => r is None,
        },
        r matches Some((_, w)) ==> 1 <= w && j + w <= b@.len(),
{
    if j >= b.len() {
        return None;
    }
    let c = b[j];
    if c == 43 {
        Some((Op::Add, 1))
    } else if c == 45 {
        Some((Op::Sub, 1))
    } else if c == 38 {
        Some((Op::And, 1))
    } else if c == 94 {
        Some((Op::Xor, 1))
    } else if c == 124 {
        if j + 1 < b.len() && b[j + 1] == 124 {
            Some((Op::Concat, 2))
        } else {
            Some((Op::Or, 1))
        }
    } else {
        None
    }
}

fn parse_primary(b: &[u8], i: usize) -> (r: Result<(Node, usize), SyntaxError>)
    requires
        i <= b@.len(),
    ensures
        lift(r) == primary_at(b@, i as int),
        advances(r, i as int, b@.len() as int),
    decreases b@.len() - i, 0int,
{
    let j = skip_spaces(b, i);
    if j < b.len() {
        let c = b[j];
        if (48 <= c && c <= 57) || (65 <= c && c <= 90) || (97 <= c && c <= 122) {
            return Ok((Node::Leaf(c as char), j + 1));
        } else if c == 40 {
            match parse_expr(b, j + 1) {
                Ok((t, k)) => {
                    let k2 = skip_spaces(b, k);
                    if k2 < b.len() && b[k2] == 41 {
                        return Ok((t, k2 + 1));
                    } else {
                        return Err(SyntaxError { position: k2, expected: Expected::OperatorOrClose });
                    }
                },
                Err(e) => return Err(e),
            }
        }
    }
    Err(SyntaxError { position: j, expected: Expected::Primary })
}

fn parse_term_tail(b: &[u8], k: usize, acc: Node) -> (r: Result<(Node, usize), SyntaxError>)
    requires
        k <= b@.len(),
    ensures
        lift(r) == term_tail(b@, k as int, acc),
        advances(r, k as int - 1, b@.len() as int),
    decreases b@.len() - k, 0int,
{
    let j = skip_spaces(b, k);
    match infix_at(b, j) {
        Some((op, w)) => {
            if op == Op::Concat {
                return Ok((acc, k));
            }
            match parse_primary(b, j + w) {
                Ok((r, k2)) => parse_term_tail(b, k2, Node::Binary(op, Box::new(acc), Box::new(r))),
                Err(e) => Err(e),
            }
        },
        None => Ok((acc, k)),
    }
}

fn parse_term(b: &[u8], i: usize) -> (r: Result<(Node, usize), SyntaxError>)
    requires
        i <= b@.len(),
    ensures
        lift(r) == term_at(b@, i as int),
        advances(r, i as int, b@.len() as int),
    decreases b@.len() - i, 1int,
{
    match parse_primary(b, i) {
        Ok((t, k)) => parse_term_tail(b, k, t),
        Err(e) => Err(e),
    }
}

fn parse_expr_tail(b: &[u8], k: usize, acc: Node) -> (r: Result<(Node, usize), SyntaxError>)
    requires
        k <= b@.len(),
    ensures
        lift(r) == expr_tail(b@, k as int, acc),
        advances(r, k as int - 1, b@.len() as int),
    decreases b@.len() - k, 1int,
{
    let j = skip_spaces(b, k);
    match infix_at(b, j) {
        Some((op, w)) => {
            if op != Op::Concat {
                return Ok((acc, k));
            }
            match parse_term(b, j + w) {
                Ok((r, k2)) => parse_expr_tail(b, k2, Node::Binary(Op::Concat, Box::new(acc), Box::new(r))),
                Err(e) => Err(e),
            }
        },
        None => Ok((acc, k)),
    }
}

fn parse_expr(b: &[u8], i: usize) -> (r: Result<(Node, usize), SyntaxError>)
    requires
        i <= b@.len(),
    ensures
        lift(r) == expr_at(b@, i as int),
        advances(r, i as int, b@.len() as int),
    decreases b@.len() - i, 2int,
{
    match parse_term(b, i) {
        Ok((t, k)) => parse_expr_tail(b, k, t),
        Err(e) => Err(e),
    }
}

/// Parses a whole program into its tree.
pub fn parse_program(program: &str) -> (r: Result<Node, SyntaxError>)
    ensures
        r == program_of(program.spec_bytes()),
{
    let b = program.as_bytes();
    match parse_expr(b, 0) {
        Ok((t, k)) => {
            let j = skip_spaces(b, k);
            if j >= b.len() {
                Ok(t)
            } else {
                Err(SyntaxError { position: j, expected: Expected::OperatorOrEnd })
            }
        },
        Err(e) => Err(e),
    }
}

/// Parses a program and renders it in infix notation.
pub fn pretty(program: &str) -> (r: Result<String, SyntaxError>)
    ensures
        match program_of(program.spec_bytes()) {
            Ok(t) => r matches Ok(s) && s@ == pretty_of(t),
            Err(e) => r matches Err(e2) && e2 == e,
        },
{
    let t = parse_program(program)?;
    Ok(transform_pretty(&t))
}

/// Parses a program and renders it in prefix (polish) notation.
pub fn polish(program: &str) -> (r: Result<String, SyntaxError>)
    ensures
        match program_of(program.spec_bytes()) {
            Ok(t) => r matches Ok(s) && s@ == polish_of(t),
            Err(e) => r matches Err(e2) && e2 == e,
        },
{
    let t = parse_program(program)?;
    Ok(transform_polish_notation(&t))
}

pub open spec fn is_alnum_char(c: char) -> bool {
    ('0' <= c <= '9') || ('A' <= c <= 'Z') || ('a' <= c <= 'z')
}

/// A program of one letter or digit is a single leaf, and both notations print it
/// unchanged.
pub proof fn lemma_single_character(s: &str, c: char)
    requires
        s@ == seq![c],
        is_alnum_char(c),
    ensures
        program_of(s.spec_bytes()) == Ok::<Node, SyntaxError>(Node::Leaf(c)),
        pretty_of(Node::Leaf(c)) == s@,
        polish_of(Node::Leaf(c)) == s@,
{
    broadcast use vstd::string::is_ascii_spec_bytes;
    assert(vstd::string::is_ascii(s));
    let b = s.spec_bytes();
    assert(b =~= seq![c as u8]);
    assert(ws_run(b, 0) == 0);
    assert(ws_run(b, 1) == 0);
}

/// The letters and digits of `b[i..k]`, in reading order.
pub open spec fn letters_in(b: Seq<u8>, i: int, k: int) -> Seq<char>
    decreases k - i,
{
    if i >= k {
        seq![]
    } else {
        (if is_alnum(b[i]) { seq![b[i] as char] } else { seq![] }) + letters_in(b, i + 1, k)
    }
}

proof fn lemma_letters_split(b: Seq<u8>, i: int, k: int, m: int)
    requires
        i <= k <= m,
    ensures
        letters_in(b, i, k) + letters_in(b, k, m) == letters_in(b, i, m),
    decreases k - i,
{
    if i < k {
        lemma_letters_split(b, i + 1, k, m);
        assert(letters_in(b, i, k) + letters_in(b, k, m) =~= letters_in(b, i, m));
    } else {
        assert(letters_in(b, i, k) + letters_in(b, k, m) =~= letters_in(b, k, m));
    }
}

proof fn lemma_ws_no_letters(b: Seq<u8>, i: int)
    requires
        0 <= i <= b.len(),
    ensures
        skip_ws(b, i) <= b.len(),
        letters_in(b, i, skip_ws(b, i)) == Seq::<char>::empty(),
    decreases b.len() - i,
{
    if i < b.len() && is_space(b[i]) {
        lemma_ws_no_letters(b, i + 1);
        assert(letters_in(b, i, skip_ws(b, i)) =~= letters_in(b, i + 1, skip_ws(b, i + 1)));
    }
}

proof fn lemma_token_no_letters(b: Seq<u8>, j: int, w: int)
    requires
        0 <= j,
        1 <= w <= 2,
        j + w <= b.len(),
        forall|x: int| j <= x < j + w ==> !is_alnum(#[trigger] b[x]),
    ensures
        letters_in(b, j, j + w) == Seq::<char>::empty(),
{
    assert(letters_in(b, j + w, j + w) == Seq::<char>::empty());
    if w == 2 {
        assert(letters_in(b, j + 1, j + 2) =~= Seq::<char>::empty());
    }
    assert(letters_in(b, j, j + w) =~= Seq::<char>::empty());
}

proof fn lemma_primary_letters(b: Seq<u8>, i: int)
    requires
        0 <= i <= b.len(),
    ensures
        primary_at(b, i) matches Ok((t, k)) ==> i < k <= b.len() && leaves(t) == letters_in(b, i, k),
    decreases b.len() - i, 0int,
{
    let j = skip_ws(b, i);
    lemma_ws_no_letters(b, i);
    match scan(b, j) {
        Lexeme::Char(c) => {
            assert(letters_in(b, j + 1, j + 1) == Seq::<char>::empty());
            assert(letters_in(b, j, j + 1) =~= seq![c as char]);
            lemma_letters_split(b, i, j, j + 1);
        },
        Lexeme::Open => {
            if j + 1 <= b.len() {
                lemma_expr_letters(b, j + 1);
                if let Ok((t, k)) = expr_at(b, j + 1) {
                    let k2 = skip_ws(b, k);
                    lemma_ws_no_letters(b, k);
                    if scan(b, k2) is Close {
                        lemma_token_no_letters(b, j, 1);
                        lemma_token_no_letters(b, k2, 1);
                        lemma_letters_split(b, i, j, j + 1);
                        lemma_letters_split(b, j + 1, k, k2);
                        lemma_letters_split(b, k, k2, k2 + 1);
                        lemma_letters_split(b, j + 1, k2, k2 + 1);
                        lemma_letters_split(b, i, j + 1, k2 + 1);
                        lemma_letters_split(b, j, j + 1, k2 + 1);
                    }
                }
            }
        },
        _ => {},
    }
}

proof fn lemma_term_tail_letters(b: Seq<u8>, k: int, acc: Node)
    requires
        0 <= k <= b.len(),
    ensures
        term_tail(b, k, acc) matches Ok((t, k2)) ==> k <= k2 <= b.len() && leaves(t) == leaves(acc)
            + letters_in(b, k, k2),
    decreases b.len() - k, 0int,
{
    let j = skip_ws(b, k);
    lemma_ws_no_letters(b, k);
    assert(letters_in(b, k, k) =~= Seq::<char>::empty());
    if let Lexeme::Infix(op, w) = scan(b, j) {
        if op != Op::Concat && j + w <= b.len() {
            lemma_primary_letters(b, j + w);
            if let Ok((r, k2)) = primary_at(b, j + w) {
                lemma_token_no_letters(b, j, w);
                lemma_letters_split(b, k, j, j + w);
                lemma_letters_split(b, k, j + w, k2);
                let next = Node::Binary(op, Box::new(acc), Box::new(r));
                lemma_term_tail_letters(b, k2, next);
                if let Ok((t, k3)) = term_tail(b, k2, next) {
                    lemma_letters_split(b, k, k2, k3);
                    assert(leaves(t) =~= leaves(acc) + letters_in(b, k, k3));
                }
            }
        }
    }
}

proof fn lemma_term_letters(b: Seq<u8>, i: int)
    requires
        0 <= i <= b.len(),
    ensures
        term_at(b, i) matches Ok((t, k)) ==> i < k <= b.len() && leaves(t) == letters_in(b, i, k),
    decreases b.len() - i, 1int,
{
    lemma_primary_letters(b, i);
    if let Ok((t, k)) = primary_at(b, i) {
        lemma_term_tail_letters(b, k, t);
        if let Ok((t2, k2)) = term_tail(b, k, t) {
            lemma_letters_split(b, i, k, k2);
        }
    }
}

proof fn lemma_expr_tail_letters(b: Seq<u8>, k: int, acc: Node)
    requires
        0 <= k <= b.len(),
    ensures
        expr_tail(b, k, acc) matches Ok((t, k2)) ==> k <= k2 <= b.len() && leaves(t) == leaves(acc)
            + letters_in(b, k, k2),
    decreases b.len() - k, 1int,
{
    let j = skip_ws(b, k);
    lemma_ws_no_letters(b, k);
    assert(letters_in(b, k, k) =~= Seq::<char>::empty());
    if let Lexeme::Infix(Op::Concat, w) = scan(b, j) {
        if j + w <= b.len() {
            lemma_term_letters(b, j + w);
            if let Ok((r, k2)) = term_at(b, j + w) {
                lemma_token_no_letters(b, j, w);
                lemma_letters_split(b, k, j, j + w);
                lemma_letters_split(b, k, j + w, k2);
                let next = Node::Binary(Op::Concat, Box::new(acc), Box::new(r));
                lemma_expr_tail_letters(b, k2, next);
                if let Ok((t, k3)) = expr_tail(b, k2, next) {
                    lemma_letters_split(b, k, k2, k3);
                    assert(leaves(t) =~= leaves(acc) + letters_in(b, k, k3));
                }
            }
        }
    }
}

proof fn lemma_expr_letters(b: Seq<u8>, i: int)
    requires
        0 <= i <= b.len(),
    ensures
        expr_at(b, i) matches Ok((t, k)) ==> i < k <= b.len() && leaves(t) == letters_in(b, i, k),
    decreases b.len() - i, 2int,
{
    lemma_term_letters(b, i);
    if let Ok((t, k)) = term_at(b, i) {
        lemma_expr_tail_letters(b, k, t);
        if let Ok((t2, k2)) = expr_tail(b, k, t) {
            lemma_letters_split(b, i, k, k2);
        }
    }
}

/// The leaves of a parsed program are its letters and digits, in the order in
/// which they are read, whatever the operators and parentheses around them.
pub proof fn lemma_leaves_in_reading_order(b: Seq<u8>)
    ensures
        program_of(b) matches Ok(t) ==> leaves(t) == letters_in(b, 0, b.len() as int),
{
    lemma_expr_letters(b, 0);
    if let Ok((t, k)) = expr_at(b, 0) {
        lemma_ws_no_letters(b, k);
        lemma_letters_split(b, 0, k, skip_ws(b, k));
    }
}

/// The byte of an operator of the tighter tier.
pub open spec fn tight_op_byte(op: Op) -> u8 {
    match op {
        Op::Add => 43,
        Op::Sub => 45,
        Op::And => 38,
        Op::Or => 124,
        Op::Xor => 94,
        Op::Concat => 0,
    }
}

pub open spec fn leaf_of(c: u8) -> Box<Node> {
    Box::new(Node::Leaf(c as char))
}

/// Two operators of the tighter tier group from the left: `x o1 y o2 z` is
/// `(x o1 y) o2 z`.
pub proof fn lemma_tight_tier_left_associative(x: u8, y: u8, z: u8, o1: Op, o2: Op)
    requires
        is_alnum(x),
        is_alnum(y),
        is_alnum(z),
        o1 != Op::Concat,
        o2 != Op::Concat,
    ensures
        program_of(seq![x, 32, tight_op_byte(o1), 32, y, 32, tight_op_byte(o2), 32, z])
            == Ok::<Node, SyntaxError>(
            Node::Binary(o2, Box::new(Node::Binary(o1, leaf_of(x), leaf_of(y))), leaf_of(z)),
        ),
{
    let b = seq![x, 32, tight_op_byte(o1), 32, y, 32, tight_op_byte(o2), 32, z];
    let b1 = Node::Binary(o1, leaf_of(x), leaf_of(y));
    let b2 = Node::Binary(o2, Box::new(b1), leaf_of(z));
    assert(ws_run(b, 9) == 0);
    assert(ws_run(b, 8) == 0);
    assert(ws_run(b, 6) == 0);
    assert(ws_run(b, 7) == 1);
    assert(ws_run(b, 4) == 0);
    assert(ws_run(b, 5) == 1);
    assert(ws_run(b, 2) == 0);
    assert(ws_run(b, 3) == 1);
    assert(ws_run(b, 0) == 0);
    assert(ws_run(b, 1) == 1);
    assert(scan(b, 2) == Lexeme::Infix(o1, 1));
    assert(scan(b, 6) == Lexeme::Infix(o2, 1));
    assert(primary_at(b, 0) == Ok::<(Node, int), SyntaxError>((Node::Leaf(x as char), 1)));
    assert(primary_at(b, 3) == Ok::<(Node, int), SyntaxError>((Node::Leaf(y as char), 5)));
    assert(primary_at(b, 7) == Ok::<(Node, int), SyntaxError>((Node::Leaf(z as char), 9)));
    assert(term_tail(b, 9, b2) == Ok::<(Node, int), SyntaxError>((b2, 9)));
    assert(term_tail(b, 5, b1) == Ok::<(Node, int), SyntaxError>((b2, 9)));
    assert(term_tail(b, 1, Node::Leaf(x as char)) == Ok::<(Node, int), SyntaxError>((b2, 9)));
    assert(term_at(b, 0) == Ok::<(Node, int), SyntaxError>((b2, 9)));
    assert(expr_tail(b, 9, b2) == Ok::<(Node, int), SyntaxError>((b2, 9)));
    assert(expr_at(b, 0) == Ok::<(Node, int), SyntaxError>((b2, 9)));
}

/// Two `||` group from the left: `x || y || z` is `(x || y) || z`.
pub proof fn lemma_concat_left_associative(x: u8, y: u8, z: u8)
    requires
        is_alnum(x),
        is_alnum(y),
        is_alnum(z),
    ensures
        program_of(seq![x, 32, 124, 124, 32, y, 32, 124, 124, 32, z]) == Ok::<Node, SyntaxError>(
            Node::Binary(
                Op::Concat,
                Box::new(Node::Binary(Op::Concat, leaf_of(x), leaf_of(y))),
                leaf_of(z),
            ),
        ),
{
    let b = seq![x, 32u8, 124u8, 124u8, 32u8, y, 32u8, 124u8, 124u8, 32u8, z];
    let lx = Node::Leaf(x as char);
    let ly = Node::Leaf(y as char);
    let lz = Node::Leaf(z as char);
    let b1 = Node::Binary(Op::Concat, leaf_of(x), leaf_of(y));
    let b2 = Node::Binary(Op::Concat, Box::new(b1), leaf_of(z));
    assert(ws_run(b, 11) == 0);
    assert(ws_run(b, 10) == 0);
    assert(ws_run(b, 7) == 0);
    assert(ws_run(b, 6) == 1);
    assert(ws_run(b, 5) == 0);
    assert(ws_run(b, 4) == 1);
    assert(ws_run(b, 2) == 0);
    assert(ws_run(b, 1) == 1);
    assert(ws_run(b, 0) == 0);
    assert(scan(b, 2) == Lexeme::Infix(Op::Concat, 2));
    assert(scan(b, 7) == Lexeme::Infix(Op::Concat, 2));
    assert(primary_at(b, 0) == Ok::<(Node, int), SyntaxError>((lx, 1)));
    assert(term_tail(b, 1, lx) == Ok::<(Node, int), SyntaxError>((lx, 1)));
    assert(term_at(b, 0) == Ok::<(Node, int), SyntaxError>((lx, 1)));
    assert(primary_at(b, 4) == Ok::<(Node, int), SyntaxError>((ly, 6)));
    assert(term_tail(b, 6, ly) == Ok::<(Node, int), SyntaxError>((ly, 6)));
    assert(term_at(b, 4) == Ok::<(Node, int), SyntaxError>((ly, 6)));
    assert(primary_at(b, 9) == Ok::<(Node, int), SyntaxError>((lz, 11)));
    assert(term_tail(b, 11, lz) == Ok::<(Node, int), SyntaxError>((lz, 11)));
    assert(term_at(b, 9) == Ok::<(Node, int), SyntaxError>((lz, 11)));
    assert(expr_tail(b, 11, b2) == Ok::<(Node, int), SyntaxError>((b2, 11)));
    assert(expr_tail(b, 6, b1) == Ok::<(Node, int), SyntaxError>((b2, 11)));
    assert(expr_tail(b, 1, lx) == Ok::<(Node, int), SyntaxError>((b2, 11)));
    assert(expr_at(b, 0) == Ok::<(Node, int), SyntaxError>((b2, 11)));
}

/// A program wrapped in one pair of parentheses.
pub open spec fn parenthesised(b: Seq<u8>) -> Seq<u8> {
    seq![40u8] + b + seq![41u8]
}

proof fn lemma_wrapped_ws(b: Seq<u8>, i: int)
    requires
        0 <= i <= b.len(),
    ensures
        skip_ws(parenthesised(b), i + 1) == skip_ws(b, i) + 1,
    decreases b.len() - i,
{
    let w = parenthesised(b);
    if i < b.len() {
        assert(w[i + 1] == b[i]);
        lemma_wrapped_ws(b, i + 1);
    } else {
        assert(w[i + 1] == 41u8);
    }
}

proof fn lemma_wrapped_scan(b: Seq<u8>, j: int)
    requires
        0 <= j <= b.len(),
    ensures
        j < b.len() ==> scan(parenthesised(b), j + 1) == scan(b, j),
        j == b.len() ==> scan(parenthesised(b), j + 1) is Close,
        scan(b, j) matches Lexeme::Infix(_, w) ==> 1 <= w && j + w <= b.len(),
{
    let w = parenthesised(b);
    if j < b.len() {
        assert(w[j + 1] == b[j]);
        if j + 1 < b.len() {
            assert(w[j + 2] == b[j + 1]);
        } else {
            assert(w[j + 2] == 41u8);
        }
    } else {
        assert(w[j + 1] == 41u8);
    }
}

proof fn lemma_wrapped_primary(b: Seq<u8>, i: int)
    requires
        0 <= i <= b.len(),
    ensures
        primary_at(b, i) matches Ok((t, k)) ==> primary_at(parenthesised(b), i + 1) == Ok::<(Node, int), SyntaxError>((t, k + 1)),
    decreases b.len() - i, 0int,
{
    let w = parenthesised(b);
    let j = skip_ws(b, i);
    lemma_ws_no_letters(b, i);
    lemma_wrapped_ws(b, i);
    lemma_wrapped_scan(b, j);
    if j < b.len() {
        if let Lexeme::Open = scan(b, j) {
            lemma_wrapped_expr(b, j + 1);
            lemma_expr_letters(b, j + 1);
            if let Ok((t, k)) = expr_at(b, j + 1) {
                lemma_ws_no_letters(b, k);
                lemma_wrapped_ws(b, k);
                lemma_wrapped_scan(b, skip_ws(b, k));
            }
        }
    }
}

proof fn lemma_wrapped_term_tail(b: Seq<u8>, k: int, acc: Node)
    requires
        0 <= k <= b.len(),
    ensures
        term_tail(b, k, acc) matches Ok((t, k2)) ==> term_tail(parenthesised(b), k + 1, acc) == Ok::<(Node, int), SyntaxError>((t, k2 + 1)),
    decreases b.len() - k, 0int,
{
    let j = skip_ws(b, k);
    lemma_ws_no_letters(b, k);
    lemma_wrapped_ws(b, k);
    lemma_wrapped_scan(b, j);
    if let Lexeme::Infix(op, w) = scan(b, j) {
        if op != Op::Concat {
            lemma_wrapped_primary(b, j + w);
            lemma_primary_letters(b, j + w);
            if let Ok((r, k2)) = primary_at(b, j + w) {
                lemma_wrapped_term_tail(b, k2, Node::Binary(op, Box::new(acc), Box::new(r)));
            }
        }
    }
}

proof fn lemma_wrapped_term(b: Seq<u8>, i: int)
    requires
        0 <= i <= b.len(),
    ensures
        term_at(b, i) matches Ok((t, k)) ==> term_at(parenthesised(b), i + 1) == Ok::<(Node, int), SyntaxError>((t, k + 1)),
    decreases b.len() - i, 1int,
{
    lemma_wrapped_primary(b, i);
    lemma_primary_letters(b, i);
    if let Ok((t, k)) = primary_at(b, i) {
        lemma_wrapped_term_tail(b, k, t);
    }
}

proof fn lemma_wrapped_expr_tail(b: Seq<u8>, k: int, acc: Node)
    requires
        0 <= k <= b.len(),
    ensures
        expr_tail(b, k, acc) matches Ok((t, k2)) ==> expr_tail(parenthesised(b), k + 1, acc) == Ok::<(Node, int), SyntaxError>((t, k2 + 1)),
    decreases b.len() - k, 1int,
{
    let j = skip_ws(b, k);
    lemma_ws_no_letters(b, k);
    lemma_wrapped_ws(b, k);
    lemma_wrapped_scan(b, j);
    if let Lexeme::Infix(Op::Concat, w) = scan(b, j) {
        lemma_wrapped_term(b, j + w);
        lemma_term_letters(b, j + w);
        if let Ok((r, k2)) = term_at(b, j + w) {
            lemma_wrapped_expr_tail(b, k2, Node::Binary(Op::Concat, Box::new(acc), Box::new(r)));
        }
    }
}

proof fn lemma_wrapped_expr(b: Seq<u8>, i: int)
    requires
        0 <= i <= b.len(),
    ensures
        expr_at(b, i) matches Ok((t, k)) ==> expr_at(parenthesised(b), i + 1) == Ok::<(Node, int), SyntaxError>((t, k + 1)),
    decreases b.len() - i, 2int,
{
    lemma_wrapped_term(b, i);
    lemma_term_letters(b, i);
    if let Ok((t, k)) = term_at(b, i) {
        lemma_wrapped_expr_tail(b, k, t);
    }
}

/// Wrapping a well-formed program in parentheses leaves its tree unchanged, so
/// both notations print it as before.
pub proof fn lemma_parentheses_transparent(b: Seq<u8>)
    requires
        program_of(b) is Ok,
    ensures
        program_of(parenthesised(b)) == program_of(b),
{
    let w = parenthesised(b);
    let n = b.len() as int;
    lemma_wrapped_expr(b, 0);
    lemma_expr_letters(b, 0);
    let (t, k) = expr_at(b, 0)->Ok_0;
    lemma_ws_no_letters(b, k);
    lemma_wrapped_ws(b, k);
    lemma_wrapped_scan(b, n);
    assert(w[0] == 40u8);
    assert(ws_run(w, 0) == 0);
    assert(skip_ws(b, k) == n);
    assert(primary_at(w, 0) == Ok::<(Node, int), SyntaxError>((t, n + 2)));
    assert(ws_run(w, n + 2) == 0);
    assert(term_tail(w, n + 2, t) == Ok::<(Node, int), SyntaxError>((t, n + 2)));
    assert(term_at(w, 0) == Ok::<(Node, int), SyntaxError>((t, n + 2)));
    assert(expr_tail(w, n + 2, t) == Ok::<(Node, int), SyntaxError>((t, n + 2)));
    assert(expr_at(w, 0) == Ok::<(Node, int), SyntaxError>((t, n + 2)));
}

} // verus!
