use toy_lexer::Token;
use toy_lexer::lex;

#[test]
fn empty_input() {
    assert_eq!(lex(""), Vec::<Token>::new());
}

#[test]
fn lone_line_break() {
    assert_eq!(lex("\n"), Vec::<Token>::new());
}

#[test]
fn fallback_unrecognized_char() {
    assert_eq!(lex("#"), vec![Token::Empty]);
}

#[test]
fn whitespace_falls_back_to_empty() {
    assert_eq!(lex(" "), vec![Token::Empty]);
}

#[test]
fn keywords_alone() {
    assert_eq!(lex("if"), vec![Token::If]);
    assert_eq!(lex("then"), vec![Token::Then]);
    assert_eq!(lex("else"), vec![Token::Else]);
    assert_eq!(lex("endif"), vec![Token::EndIf]);
    assert_eq!(lex("print"), vec![Token::Print]);
    assert_eq!(lex("while"), vec![Token::While]);
    assert_eq!(lex("do"), vec![Token::Do]);
    assert_eq!(lex("enddo"), vec![Token::EndDo]);
    assert_eq!(lex("int"), vec![Token::Int]);
}

#[test]
fn keyword_boundary_iffy_is_not_if() {
    let tokens = lex("iffy");
    assert!(!tokens.contains(&Token::If));
    assert_eq!(
        tokens,
        vec![
            Token::Empty,
            Token::Letter('i'),
            Token::Letter('f'),
            Token::Letter('f'),
            Token::Letter('y'),
        ]
    );
}

#[test]
fn keyword_boundary_if_then_space() {
    assert_eq!(lex("if "), vec![Token::If, Token::Empty]);
}

#[test]
fn keyword_leaves_boundary_char_for_next_pass() {
    assert_eq!(lex("do)"), vec![Token::Do, Token::CloseParen]);
}

#[test]
fn keyword_prefix_lexes_as_run() {
    assert_eq!(
        lex("ifx"),
        vec![
            Token::Empty,
            Token::Letter('i'),
            Token::Letter('f'),
            Token::Letter('x'),
        ]
    );
}

#[test]
fn punctuation() {
    assert_eq!(
        lex("(){}"),
        vec![
            Token::OpenParen,
            Token::CloseParen,
            Token::OpenBrace,
            Token::CloseBrace,
        ]
    );
}

#[test]
fn relop_longest_match() {
    assert_eq!(lex("<="), vec![Token::RelOp(String::from("<="))]);
}

#[test]
fn relops_two_char() {
    assert_eq!(lex("=="), vec![Token::RelOp(String::from("=="))]);
    assert_eq!(lex(">="), vec![Token::RelOp(String::from(">="))]);
    assert_eq!(lex("!="), vec![Token::RelOp(String::from("!="))]);
}

#[test]
fn relops_one_char() {
    assert_eq!(lex("<"), vec![Token::RelOp(String::from("<"))]);
    assert_eq!(lex(">"), vec![Token::RelOp(String::from(">"))]);
}

#[test]
fn lone_equals_or_bang_is_unrecognized() {
    assert_eq!(lex("="), vec![Token::Empty]);
    assert_eq!(lex("!"), vec![Token::Empty]);
}

#[test]
fn relop_single_before_digit() {
    assert_eq!(
        lex("<5"),
        vec![
            Token::RelOp(String::from("<")),
            Token::Empty,
            Token::Digit('5'),
        ]
    );
}

#[test]
fn mult_and_adding_ops() {
    assert_eq!(lex("*/"), vec![Token::MultOp('*'), Token::MultOp('/')]);
    assert_eq!(lex("+-"), vec![Token::AddingOp('+'), Token::AddingOp('-')]);
}

#[test]
fn run_decomposes_character_by_character() {
    assert_eq!(
        lex("x1y"),
        vec![
            Token::Empty,
            Token::Letter('x'),
            Token::Digit('1'),
            Token::Letter('y'),
        ]
    );
}

#[test]
fn run_consumes_its_boundary_char() {
    // unlike a keyword, a run swallows the boundary character as Empty
    assert_eq!(
        lex("ab)"),
        vec![
            Token::Empty,
            Token::Letter('a'),
            Token::Letter('b'),
            Token::Empty,
        ]
    );
}

#[test]
fn int_declaration() {
    assert_eq!(
        lex("int x"),
        vec![Token::Int, Token::Empty, Token::Empty, Token::Letter('x')]
    );
}

#[test]
fn line_break_independence() {
    let mut joined = lex("if x");
    joined.extend(lex("int"));
    assert_eq!(lex("if x\nint"), joined);
    assert_eq!(
        lex("if x\nint"),
        vec![
            Token::If,
            Token::Empty,
            Token::Empty,
            Token::Letter('x'),
            Token::Int,
        ]
    );
}

#[test]
fn end_to_end_example() {
    // "x<" and "5)" lex as runs whose boundary characters become Empty
    assert_eq!(
        lex("if(x<5)then print"),
        vec![
            Token::If,
            Token::OpenParen,
            Token::Empty,
            Token::Letter('x'),
            Token::Empty,
            Token::Empty,
            Token::Digit('5'),
            Token::Empty,
            Token::Then,
            Token::Empty,
            Token::Print,
        ]
    );
}
