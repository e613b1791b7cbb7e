use arithmetic_of_letters::parser::{parse_program, polish, pretty, Expected, SyntaxError};
use arithmetic_of_letters::tree::{leaf_chars, Node, Op};

#[test]
fn single_characters_are_leaves() {
    for c in ['A', 'z', '0', '9', 'q'] {
        let s = c.to_string();
        assert_eq!(parse_program(&s), Ok(Node::Leaf(c)));
        assert_eq!(pretty(&s).unwrap(), s);
        assert_eq!(polish(&s).unwrap(), s);
    }
}

#[test]
fn concat_binds_loosest() {
    assert_eq!(pretty("A + B || C").unwrap(), "A + B || C");
    assert_eq!(polish("A + B || C").unwrap(), "(|| (+ A B) C)");
    let expected = Node::Binary(
        Op::Concat,
        Box::new(Node::Binary(Op::Add, Box::new(Node::Leaf('A')), Box::new(Node::Leaf('B')))),
        Box::new(Node::Leaf('C')),
    );
    assert_eq!(parse_program("A + B || C"), Ok(expected));
}

#[test]
fn tighter_tier_is_left_associative() {
    assert_eq!(polish("A + B - C").unwrap(), "(- (+ A B) C)");
    assert_eq!(polish("A & B ^ C | D").unwrap(), "(| (^ (& A B) C) D)");
    assert_eq!(polish("A || B || C").unwrap(), "(|| (|| A B) C)");
}

#[test]
fn parentheses_are_transparent() {
    assert_eq!(polish("(A)").unwrap(), polish("A").unwrap());
    assert_eq!(polish("((7))").unwrap(), "7");
    assert_eq!(polish("A - (B + C)").unwrap(), "(- A (+ B C))");
    assert_eq!(pretty("A - (B + C)").unwrap(), "A - B + C");
    assert_eq!(polish("(A || B) + C").unwrap(), "(+ (|| A B) C)");
}

#[test]
fn whitespace_is_ignored() {
    assert_eq!(polish("A+B").unwrap(), polish(" A \t+\n B ").unwrap());
    assert_eq!(polish("A||B").unwrap(), "(|| A B)");
}

#[test]
fn default_program_renders_in_both_notations() {
    let p = "A + B || 8 & 0 || G - K";
    assert_eq!(pretty(p).unwrap(), p);
    assert_eq!(polish(p).unwrap(), "(|| (|| (+ A B) (& 8 0)) (- G K))");
}

#[test]
fn trailing_operator_is_reported_after_it() {
    let e = parse_program("A +").unwrap_err();
    assert!(e.position >= 2);
    assert_eq!(e, SyntaxError { position: 3, expected: Expected::Primary });
}

#[test]
fn syntax_errors() {
    assert_eq!(parse_program(""), Err(SyntaxError { position: 0, expected: Expected::Primary }));
    assert_eq!(parse_program("   "), Err(SyntaxError { position: 3, expected: Expected::Primary }));
    assert_eq!(parse_program("(A"), Err(SyntaxError { position: 2, expected: Expected::OperatorOrClose }));
    assert_eq!(parse_program("(A B)"), Err(SyntaxError { position: 3, expected: Expected::OperatorOrClose }));
    assert_eq!(parse_program("A)"), Err(SyntaxError { position: 1, expected: Expected::OperatorOrEnd }));
    assert_eq!(parse_program("+ A"), Err(SyntaxError { position: 0, expected: Expected::Primary }));
    assert_eq!(parse_program("A $ B"), Err(SyntaxError { position: 2, expected: Expected::OperatorOrEnd }));
    assert_eq!(parse_program("A + $"), Err(SyntaxError { position: 4, expected: Expected::Primary }));
    assert_eq!(parse_program("A | | B"), Err(SyntaxError { position: 4, expected: Expected::Primary }));
    assert_eq!(pretty("A +"), Err(SyntaxError { position: 3, expected: Expected::Primary }));
    assert_eq!(polish("()"), Err(SyntaxError { position: 1, expected: Expected::Primary }));
}

#[test]
fn leaves_follow_reading_order() {
    let t = parse_program("(A || (B - C)) ^ D + (E)").unwrap();
    assert_eq!(leaf_chars(&t), vec!['A', 'B', 'C', 'D', 'E']);
}

#[test]
fn wrapping_a_program_in_parentheses_keeps_its_tree() {
    for p in ["A + B || C", "A - (B ^ C)", "x||y|z", " 1 & 2 "] {
        let wrapped = format!("({})", p);
        assert_eq!(parse_program(&wrapped), parse_program(p));
        assert_eq!(polish(&wrapped).unwrap(), polish(p).unwrap());
    }
}

#[test]
fn leaves_are_the_letters_and_digits_in_order() {
    let p = " q ||(Z ^ 7)- 1";
    let t = parse_program(p).unwrap();
    let letters: Vec<char> = p.chars().filter(|c| c.is_ascii_alphanumeric()).collect();
    assert_eq!(leaf_chars(&t), letters);
}
