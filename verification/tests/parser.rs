use fjord::parser::{Fragment, Parser};

/// The text with its first line feed and the indentation that all its lines
/// share taken away.
fn trim_indent(s: &str) -> String {
    let s = s.strip_prefix('\n').unwrap_or(s);
    let lines: Vec<&str> = s.lines().collect();
    let indent = lines
        .iter()
        .filter(|l| !l.trim().is_empty())
        .map(|l| l.len() - l.trim_start().len())
        .min()
        .unwrap_or(0);
    lines
        .iter()
        .map(|l| if l.len() >= indent { &l[indent..] } else { l.trim_start() })
        .collect::<Vec<_>>()
        .join("\n")
}

fn check(fragment: Fragment, input: &str, expected: &str) {
    let output = Parser::new(input).parse_fragment(fragment);
    assert_eq!(output.debug_tree(), trim_indent(expected).trim());
}

fn check_program(input: &str, expected: &str) {
    let output = Parser::new(input).parse();
    assert_eq!(output.debug_tree(), trim_indent(expected).trim());
}

#[test]
fn parse_number_literal() {
    check(Fragment::Expr, "10", r#"
            Root@0..2
              Digits@0..2 "10""#);
}

#[test]
fn parse_string_literal() {
    check(Fragment::Expr, "\"Hello, world!\"", r#"
            Root@0..15
              StringLiteral@0..15 "\"Hello, world!\"""#);
}

#[test]
fn parse_function_call() {
    check(Fragment::Expr, "func a 1", r#"
            Root@0..8
              FunctionCall@0..8
                Atom@0..4 "func"
                Whitespace@4..5 " "
                FunctionCallParams@5..8
                  Atom@5..6 "a"
                  Whitespace@6..7 " "
                  Digits@7..8 "1""#);
}

#[test]
fn parse_function_call_with_no_params() {
    check(Fragment::Expr, "ls", r#"
            Root@0..2
              FunctionCall@0..2
                Atom@0..2 "ls"
                FunctionCallParams@2..2"#);
}

#[test]
fn stop_parsing_function_call_at_end_of_line() {
    check(Fragment::Expr, "ls $dir\n", r#"
            Root@0..7
              FunctionCall@0..7
                Atom@0..2 "ls"
                Whitespace@2..3 " "
                FunctionCallParams@3..7
                  BindingUsage@3..7
                    Dollar@3..4 "$"
                    Atom@4..7 "dir""#);
}

#[test]
fn parse_binding_usage() {
    check(Fragment::Expr, "$var", r#"
            Root@0..4
              BindingUsage@0..4
                Dollar@0..1 "$"
                Atom@1..4 "var""#);
}

#[test]
fn recover_from_junk_binding_usage() {
    check(Fragment::Expr, "$let", r#"
            Root@0..4
              BindingUsage@0..4
                Dollar@0..1 "$"
                Error@1..4 "let""#);
}

#[test]
fn parse_lambda() {
    check(Fragment::Expr, "|a b| a $b 5", r#"
            Root@0..12
              Lambda@0..12
                LambdaParams@0..5
                  Pipe@0..1 "|"
                  Atom@1..2 "a"
                  Whitespace@2..3 " "
                  Atom@3..4 "b"
                  Pipe@4..5 "|"
                Whitespace@5..6 " "
                FunctionCall@6..12
                  Atom@6..7 "a"
                  Whitespace@7..8 " "
                  FunctionCallParams@8..12
                    BindingUsage@8..10
                      Dollar@8..9 "$"
                      Atom@9..10 "b"
                    Whitespace@10..11 " "
                    Digits@11..12 "5""#);
}

#[test]
fn parse_simple_bin_op() {
    check(Fragment::Expr, "1 + 5", r#"
            Root@0..5
              BinOp@0..5
                Digits@0..1 "1"
                Whitespace@1..2 " "
                Plus@2..3 "+"
                Whitespace@3..4 " "
                Digits@4..5 "5""#);
}

#[test]
fn parse_bin_op_showing_precedence() {
    check(Fragment::Expr, "2 + 3 * 4", r#"
            Root@0..9
              BinOp@0..9
                Digits@0..1 "2"
                Whitespace@1..2 " "
                Plus@2..3 "+"
                Whitespace@3..4 " "
                BinOp@4..9
                  Digits@4..5 "3"
                  Whitespace@5..6 " "
                  Star@6..7 "*"
                  Whitespace@7..8 " "
                  Digits@8..9 "4""#);
}

#[test]
fn parse_bin_op_showing_associativity() {
    check(Fragment::Expr, "10 - 5 - 3 - 2", r#"
            Root@0..14
              BinOp@0..14
                BinOp@0..11
                  BinOp@0..7
                    Digits@0..2 "10"
                    Whitespace@2..3 " "
                    Minus@3..4 "-"
                    Whitespace@4..5 " "
                    Digits@5..6 "5"
                    Whitespace@6..7 " "
                  Minus@7..8 "-"
                  Whitespace@8..9 " "
                  Digits@9..10 "3"
                  Whitespace@10..11 " "
                Minus@11..12 "-"
                Whitespace@12..13 " "
                Digits@13..14 "2""#);
}

#[test]
fn function_call_has_higher_precedence_than_bin_op() {
    check(Fragment::Expr, "sin 90 * 2", r#"
            Root@0..10
              BinOp@0..10
                FunctionCall@0..7
                  Atom@0..3 "sin"
                  Whitespace@3..4 " "
                  FunctionCallParams@4..7
                    Digits@4..6 "90"
                    Whitespace@6..7 " "
                Star@7..8 "*"
                Whitespace@8..9 " "
                Digits@9..10 "2""#);
}

#[test]
fn parse_bin_op_containing_parens() {
    check(Fragment::Expr, "2 * (3 + 5)", r#"
            Root@0..11
              BinOp@0..11
                Digits@0..1 "2"
                Whitespace@1..2 " "
                Star@2..3 "*"
                Whitespace@3..4 " "
                LParen@4..5 "("
                BinOp@5..10
                  Digits@5..6 "3"
                  Whitespace@6..7 " "
                  Plus@7..8 "+"
                  Whitespace@8..9 " "
                  Digits@9..10 "5"
                RParen@10..11 ")""#);
}

#[test]
fn unneeded_parentheses_are_flattened() {
    check(Fragment::Expr, "(((((1 + (1))))))", r#"
            Root@0..17
              LParen@0..1 "("
              LParen@1..2 "("
              LParen@2..3 "("
              LParen@3..4 "("
              LParen@4..5 "("
              BinOp@5..12
                Digits@5..6 "1"
                Whitespace@6..7 " "
                Plus@7..8 "+"
                Whitespace@8..9 " "
                LParen@9..10 "("
                Digits@10..11 "1"
                RParen@11..12 ")"
              RParen@12..13 ")"
              RParen@13..14 ")"
              RParen@14..15 ")"
              RParen@15..16 ")"
              RParen@16..17 ")""#);
}

#[test]
fn parse_binding_definition() {
    check(Fragment::Statement, r#"let foo = bar "baz" $quux 5"#, r#"
Root@0..27
  BindingDef@0..27
    Let@0..3 "let"
    Whitespace@3..4 " "
    Atom@4..7 "foo"
    Whitespace@7..8 " "
    Equals@8..9 "="
    Whitespace@9..10 " "
    FunctionCall@10..27
      Atom@10..13 "bar"
      Whitespace@13..14 " "
      FunctionCallParams@14..27
        StringLiteral@14..19 "\"baz\""
        Whitespace@19..20 " "
        BindingUsage@20..25
          Dollar@20..21 "$"
          Atom@21..25 "quux"
        Whitespace@25..26 " "
        Digits@26..27 "5""#);
}

#[test]
fn recover_from_junk_binding_name_in_binding_definition() {
    check(Fragment::Statement, "let 5 = 10", r#"
Root@0..10
  BindingDef@0..10
    Let@0..3 "let"
    Whitespace@3..4 " "
    Error@4..5 "5"
    Whitespace@5..6 " "
    Equals@6..7 "="
    Whitespace@7..8 " "
    Digits@8..10 "10""#);
}

#[test]
fn recover_from_junk_equals_sign_in_binding_definition() {
    check(Fragment::Statement, "let x _ 10", r#"
Root@0..10
  BindingDef@0..10
    Let@0..3 "let"
    Whitespace@3..4 " "
    Atom@4..5 "x"
    Whitespace@5..6 " "
    Error@6..7 "_"
    Whitespace@7..8 " "
    Digits@8..10 "10""#);
}

#[test]
fn recover_from_junk_rhs_of_binding_definition() {
    check(Fragment::Statement, "let a = =", r#"
Root@0..9
  BindingDef@0..9
    Let@0..3 "let"
    Whitespace@3..4 " "
    Atom@4..5 "a"
    Whitespace@5..6 " "
    Equals@6..7 "="
    Whitespace@7..8 " "
    Error@8..9 "=""#);
}

#[test]
fn statement_parse_return_statement() {
    check(Fragment::Statement, "return ls ~/Documents", r#"
Root@0..21
  ReturnStatement@0..21
    Return@0..6 "return"
    Whitespace@6..7 " "
    FunctionCall@7..21
      Atom@7..9 "ls"
      Whitespace@9..10 " "
      FunctionCallParams@10..21
        Atom@10..21 "~/Documents""#);
}

#[test]
fn parse_return_statement_without_val() {
    check(Fragment::Statement, "return", r#"
Root@0..6
  ReturnStatement@0..6
    Return@0..6 "return""#);
}

#[test]
fn parse_return_statement_without_val_followed_by_eol() {
    check(Fragment::Statement, "return\nblah", r#"
Root@0..6
  ReturnStatement@0..6
    Return@0..6 "return""#);
}

#[test]
fn parse_return_statement_without_val_followed_by_whitespace_then_eol() {
    check(Fragment::Statement, "return   \nfoobar", r#"
Root@0..9
  ReturnStatement@0..9
    Return@0..6 "return"
    Whitespace@6..9 "   ""#);
}

#[test]
fn parse_expr() {
    check(Fragment::Item, "5", r#"
Root@0..1
  Digits@0..1 "5""#);
}

#[test]
fn parse_binding_def() {
    check(Fragment::Item, "let x = $y", r#"
Root@0..10
  BindingDef@0..10
    Let@0..3 "let"
    Whitespace@3..4 " "
    Atom@4..5 "x"
    Whitespace@5..6 " "
    Equals@6..7 "="
    Whitespace@7..8 " "
    BindingUsage@8..10
      Dollar@8..9 "$"
      Atom@9..10 "y""#);
}

#[test]
fn item_parse_return_statement() {
    check(Fragment::Item, "return $x", r#"
Root@0..9
  ReturnStatement@0..9
    Return@0..6 "return"
    Whitespace@6..7 " "
    BindingUsage@7..9
      Dollar@7..8 "$"
      Atom@8..9 "x""#);
}

#[test]
fn parse_nothing() {
    check_program("", "Root@0..0");
}

#[test]
fn parse_multiple_items() {
    check_program(r#"
let a = "dir"
let b = $a
ls $b"#, r#"
Root@0..31
  Eol@0..1 "\n"
  BindingDef@1..14
    Let@1..4 "let"
    Whitespace@4..5 " "
    Atom@5..6 "a"
    Whitespace@6..7 " "
    Equals@7..8 "="
    Whitespace@8..9 " "
    StringLiteral@9..14 "\"dir\""
  Eol@14..15 "\n"
  BindingDef@15..25
    Let@15..18 "let"
    Whitespace@18..19 " "
    Atom@19..20 "b"
    Whitespace@20..21 " "
    Equals@21..22 "="
    Whitespace@22..23 " "
    BindingUsage@23..25
      Dollar@23..24 "$"
      Atom@24..25 "a"
  Eol@25..26 "\n"
  FunctionCall@26..31
    Atom@26..28 "ls"
    Whitespace@28..29 " "
    FunctionCallParams@29..31
      BindingUsage@29..31
        Dollar@29..30 "$"
        Atom@30..31 "b""#);
}

#[test]
fn errors_report_message_and_range_of_last_lexeme() {
    let output = Parser::new("let = 5").parse();
    let errors: Vec<(&str, u32, u32)> =
        output.errors().iter().map(|e| (e.message, e.range.start, e.range.end)).collect();
    assert_eq!(
        errors,
        vec![
            ("expected binding name", 4, 5),
            ("expected equals sign", 6, 7),
            ("expected expression", 6, 7),
        ]
    );
    assert!(output.into_no_errors().is_none());
}

#[test]
fn error_before_any_lexeme_has_empty_range() {
    let output = Parser::new("\n").parse_fragment(Fragment::Expr);
    let errors: Vec<(&str, u32, u32)> =
        output.errors().iter().map(|e| (e.message, e.range.start, e.range.end)).collect();
    assert_eq!(errors, vec![("expected expression", 0, 0)]);
}

#[test]
fn junk_after_item_is_reported_once_per_lexeme() {
    let output = Parser::new("1 = 2").parse();
    let messages: Vec<&str> = output.errors().iter().map(|e| e.message).collect();
    assert_eq!(messages, vec!["expected operator", "expected operator"]);
}

#[test]
fn program_without_errors_converts() {
    let output = Parser::new("let a = 1\n$a").parse();
    assert!(output.errors().is_empty());
    assert!(output.into_no_errors().is_some());
}

#[test]
fn token_text_is_written_with_debug_escapes() {
    let output = Parser::new("x\u{1}").parse();
    assert_eq!(
        output.debug_tree(),
        "Root@0..2\n  FunctionCall@0..2\n    Atom@0..2 \"x\\u{1}\"\n    FunctionCallParams@2..2"
    );
}
