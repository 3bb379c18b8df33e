use fjord::lexer::Lexer;
use fjord::syntax_kind::SyntaxKind;

fn check(input: &str, expected_kind: SyntaxKind) {
    let mut lexer = Lexer::new(input);
    assert_eq!(lexer.next().map(|l| l.kind), Some(expected_kind));
    assert_eq!(lexer.slice(), input);
}

fn check_join_to_atom(input: &str, expected_kind: SyntaxKind) {
    check(input, expected_kind);

    let lexer_input = format!("a{}b", input);
    let mut lexer = Lexer::new(&lexer_input);

    assert_eq!(lexer.next().map(|l| l.kind), Some(SyntaxKind::Atom));
    assert_eq!(lexer.slice(), lexer_input);
}

fn check_separate_from_atom(input: &str, expected_kind: SyntaxKind) {
    check(input, expected_kind);

    let lexer_input = format!("a{}b", input);
    let mut lexer = Lexer::new(&lexer_input);

    assert_eq!(lexer.next().map(|l| l.kind), Some(SyntaxKind::Atom));
    assert_eq!(lexer.slice(), "a");
    assert_eq!(lexer.next().map(|l| l.kind), Some(expected_kind));
    assert_eq!(lexer.slice(), input);
    assert_eq!(lexer.next().map(|l| l.kind), Some(SyntaxKind::Atom));
    assert_eq!(lexer.slice(), "b");
}

#[test]
fn lex_nothing() {
    assert_eq!(Lexer::new("").next(), None);
}

#[test]
fn lex_let_keyword() {
    check_join_to_atom("let", SyntaxKind::Let);
}

#[test]
fn lex_if_keyword() {
    check_join_to_atom("if", SyntaxKind::If);
}

#[test]
fn lex_atom() {
    check_join_to_atom("/bin/åbç123défg456", SyntaxKind::Atom);
}

#[test]
fn lex_atom_that_contains_space_escaped_by_backslash() {
    check_join_to_atom("escaped\\ space", SyntaxKind::Atom);
}

#[test]
fn lex_digits() {
    check_join_to_atom("1234567890", SyntaxKind::Digits);
}

#[test]
fn lex_string_literal() {
    check_join_to_atom("\"hello\"", SyntaxKind::StringLiteral);
}

#[test]
fn lex_true() {
    check_join_to_atom("true", SyntaxKind::True);
}

#[test]
fn lex_false() {
    check_join_to_atom("false", SyntaxKind::False);
}

#[test]
fn lex_equals_sign() {
    check_separate_from_atom("=", SyntaxKind::Equals);
}

#[test]
fn lex_dollar_sign() {
    check_separate_from_atom("$", SyntaxKind::Dollar);
}

#[test]
fn lex_pipe() {
    check_separate_from_atom("|", SyntaxKind::Pipe);
}

#[test]
fn lex_plus() {
    check_join_to_atom("+", SyntaxKind::Plus);
}

#[test]
fn lex_minus() {
    check_join_to_atom("-", SyntaxKind::Minus);
}

#[test]
fn lex_star() {
    check_separate_from_atom("*", SyntaxKind::Star);
}

#[test]
fn lex_slash() {
    check_join_to_atom("/", SyntaxKind::Slash);
}

#[test]
fn lex_l_paren() {
    check_separate_from_atom("(", SyntaxKind::LParen);
}

#[test]
fn lex_r_paren() {
    check_separate_from_atom(")", SyntaxKind::RParen);
}

#[test]
fn lex_l_brace() {
    check_separate_from_atom("{", SyntaxKind::LBrace);
}

#[test]
fn lex_r_brace() {
    check_separate_from_atom("}", SyntaxKind::RBrace);
}

#[test]
fn lex_spaces() {
    check_separate_from_atom("  ", SyntaxKind::Whitespace);
}

#[test]
fn lex_line_feeds() {
    check_separate_from_atom("\n\n\n", SyntaxKind::Eol);
}

#[test]
fn lex_mixed_carriage_returns_and_line_feeds() {
    check_separate_from_atom("\r\r\n\r\n\n", SyntaxKind::Eol);
}

#[test]
fn lex_whole_text_into_lexemes_with_byte_ranges() {
    let lexemes = fjord::lexer::lex("let å = 5");
    let kinds: Vec<SyntaxKind> = lexemes.iter().map(|l| l.kind).collect();
    assert_eq!(
        kinds,
        vec![
            SyntaxKind::Let,
            SyntaxKind::Whitespace,
            SyntaxKind::Atom,
            SyntaxKind::Whitespace,
            SyntaxKind::Equals,
            SyntaxKind::Whitespace,
            SyntaxKind::Digits
        ]
    );
    assert_eq!((lexemes[2].range.start, lexemes[2].range.end), (4, 6));
    assert_eq!((lexemes[6].range.start, lexemes[6].range.end), (9, 10));
    let text: String = lexemes.iter().map(|l| l.text.as_str()).collect();
    assert_eq!(text, "let å = 5");
}

#[test]
fn can_start_expr_kinds() {
    assert!(SyntaxKind::Atom.can_start_expr());
    assert!(SyntaxKind::LBrace.can_start_expr());
    assert!(!SyntaxKind::Equals.can_start_expr());
    assert!(!SyntaxKind::Eol.can_start_expr());
}
