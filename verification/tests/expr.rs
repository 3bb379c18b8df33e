use fjord::expr::{Expr, Item};
use fjord::ident_name::IdentName;

fn ok(e: Expr) -> Result<(String, Expr), fjord::expr::ParseError> {
    Ok((String::new(), e))
}

fn name(s: &str) -> IdentName {
    IdentName::new_panicking(s)
}

fn item(s: &str) -> Item {
    Item::new(s).unwrap().1
}

fn var(s: &str) -> Expr {
    Expr::Var(name(s))
}

#[test]
fn expr_bool() {
    assert_eq!(Expr::new("true"), ok(Expr::Bool(true)));
    assert_eq!(Expr::new("false"), ok(Expr::Bool(false)));
}

#[test]
fn syntax_expr_number() {
    assert_eq!(Expr::new("123"), ok(Expr::Number(123)));
}

#[test]
fn syntax_expr_str() {
    assert_eq!(Expr::new("\"Hello, World!\""), ok(Expr::Str("Hello, World!".into())));
    assert_eq!(Expr::new("\"🦀\""), ok(Expr::Str("🦀".into())));
    assert_eq!(Expr::new("\"foobar\""), ok(Expr::Str("foobar".into())));
}

#[test]
fn no_interpolations() {
    assert_eq!(Expr::new("f\"some text\""), ok(Expr::FStr("some text".into(), vec![])));
    assert_eq!(Expr::new("f\"test\""), ok(Expr::FStr("test".into(), vec![])));
}

#[test]
fn interpolation_surrounded_by_literals() {
    assert_eq!(
        Expr::new("f\"Hello, {.person}!\""),
        ok(Expr::FStr("Hello, ".into(), vec![(var("person"), "!".into())]))
    );
    assert_eq!(
        Expr::new("f\"Your user, {.username}, has {.remainingDays} free days left.\""),
        ok(Expr::FStr(
            "Your user, ".into(),
            vec![
                (var("username"), ", has ".into()),
                (var("remainingDays"), " free days left.".into())
            ]
        ))
    );
}

#[test]
fn interpolation_followed_by_literal() {
    assert_eq!(
        Expr::new("f\"{.randWord} is the word of the day\""),
        ok(Expr::FStr("".into(), vec![(var("randWord"), " is the word of the day".into())]))
    );
    assert_eq!(
        Expr::new("f\"{.latestMovie}: in cinemas now\""),
        ok(Expr::FStr("".into(), vec![(var("latestMovie"), ": in cinemas now".into())]))
    );
}

#[test]
fn interpolation_preceded_by_literal() {
    assert_eq!(
        Expr::new("f\"Good day, {.user}\""),
        ok(Expr::FStr("Good day, ".into(), vec![(var("user"), "".into())]))
    );
    assert_eq!(
        Expr::new("f\"Error in module {.moduleName}: {.error}\""),
        ok(Expr::FStr(
            "Error in module ".into(),
            vec![(var("moduleName"), ": ".into()), (var("error"), "".into())]
        ))
    );
}

#[test]
fn syntax_expr_basic() {
    assert_eq!(Expr::new("{ 25 }"), ok(Expr::Block(vec![item("25")])));
}

#[test]
fn expr_variable_and_return() {
    assert_eq!(
        Expr::new("{\n    foobar = \"Hello, World!\"\n    .foobar\n}"),
        ok(Expr::Block(vec![item("foobar = \"Hello, World!\""), item(".foobar")]))
    );
}

#[test]
fn syntax_expr_only_variable() {
    assert_eq!(Expr::new("{myVar = 5}"), ok(Expr::Block(vec![item("myVar = 5")])));
}

#[test]
fn syntax_expr_var() {
    assert_eq!(Expr::new(".myVar"), ok(var("myVar")));
    assert_eq!(Expr::new(".foobar"), ok(var("foobar")));
}

#[test]
fn expr_if_expr() {
    assert_eq!(
        Expr::new("if true then 1 else 0"),
        ok(Expr::If {
            condition: Box::new(Expr::Bool(true)),
            true_case: Box::new(Expr::Number(1)),
            false_case: Box::new(Expr::Number(0))
        })
    );
    assert_eq!(
        Expr::new("if .b then false else true"),
        ok(Expr::If {
            condition: Box::new(var("b")),
            true_case: Box::new(Expr::Bool(false)),
            false_case: Box::new(Expr::Bool(true))
        })
    );
}

#[test]
fn syntax_expr_no_args() {
    assert_eq!(Expr::new("funcName"), ok(Expr::FuncCall { name: name("funcName"), params: vec![] }));
}

#[test]
fn syntax_expr_some_args() {
    assert_eq!(
        Expr::new("addThree 1 7 4"),
        ok(Expr::FuncCall {
            name: name("addThree"),
            params: vec![
                Expr::new("1").unwrap().1,
                Expr::new("7").unwrap().1,
                Expr::new("4").unwrap().1
            ]
        })
    );
}

#[test]
fn syntax_expr_func_call() {
    assert_eq!(
        Expr::new("sqrt 5"),
        ok(Expr::FuncCall { name: name("sqrt"), params: vec![Expr::new("5").unwrap().1] })
    );
}

#[test]
fn expr_parens() {
    assert_eq!(Expr::new("(1000)"), ok(Expr::Parens(Box::new(Expr::Number(1000)))));
    assert_eq!(
        Expr::new("(getUserInput .stdout)"),
        ok(Expr::Parens(Box::new(Expr::FuncCall {
            name: name("getUserInput"),
            params: vec![var("stdout")]
        })))
    );
}

#[test]
fn syntax_keywords_stop_function_calls() {
    assert_eq!(
        Expr::new("if f .x then 1 else 2"),
        ok(Expr::If {
            condition: Box::new(Expr::FuncCall { name: name("f"), params: vec![var("x")] }),
            true_case: Box::new(Expr::Number(1)),
            false_case: Box::new(Expr::Number(2))
        })
    );
    assert!(Expr::new("iffy").is_err());
    assert_eq!(Expr::new("trueish"), Ok(("ish".to_string(), Expr::Bool(true))));
}
