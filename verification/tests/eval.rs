use fjord::env::{Env, EvalErrorKind};
use fjord::eval::{BindingDef, BindingUsage, Digits, EvalError, FunctionCall, Root, StringLiteral};
use fjord::syntax_kind::SyntaxKind;
use fjord::tree::SyntaxToken;
use fjord::parser::{parse_binding_def, parse_binding_usage, parse_expr, parse_lambda, Parser};
use fjord::text_range::TextRange;
use fjord::val::{FuncOrCommand, Lambda, Ty, Val};

fn lambda(src: &str) -> Lambda {
    let mut p = Parser::new(src);
    parse_lambda(&mut p);
    Lambda::cast(p.finish_and_get_syntax()).unwrap()
}

fn function_call(src: &str) -> FunctionCall {
    let mut p = Parser::new(src);
    parse_expr(&mut p);
    FunctionCall::cast(p.finish_and_get_syntax()).unwrap()
}

fn root(src: &str) -> Root {
    Root::cast(Parser::new(src).parse().syntax()).unwrap()
}

#[test]
fn evaluate_non_existent_binding_usage() {
    let mut p = Parser::new("$test");
    parse_binding_usage(&mut p);

    let syntax_node = p.finish_and_get_syntax();
    let binding_usage = BindingUsage::cast(syntax_node).unwrap();

    let env = Env::new(Vec::new());

    assert_eq!(
        binding_usage.eval(&env),
        Err(EvalError::new(EvalErrorKind::BindingDoesNotExist, TextRange::new(0, 5)))
    );
}

#[test]
fn evaluate_binding_usage_that_does_exist() {
    let mut p = Parser::new("$foo-bar");
    parse_binding_usage(&mut p);

    let syntax_node = p.finish_and_get_syntax();
    let binding_usage = BindingUsage::cast(syntax_node).unwrap();

    let mut env = Env::new(Vec::new());
    env.store_binding("foo-bar".into(), Val::Number(5));

    assert_eq!(binding_usage.eval(&env), Ok(Val::Number(5)));
}

#[test]
fn evaluate_lambda() {
    let id_lambda = lambda("|x| $x");
    let apply_a_to_b_lambda = lambda("|a b| a $b");

    let env = Env::new(Vec::new());

    // Applying id lambda to "hello" gives "hello".
    assert_eq!(
        apply_a_to_b_lambda.eval(
            TextRange::default(),
            vec![Val::Lambda(id_lambda), Val::Str("hello".to_string())],
            &env,
        ),
        Ok(Val::Str("hello".to_string())),
    );
}

#[test]
fn evaluate_lambda_with_too_many_params() {
    let id_lambda = lambda("|a| $a");
    let env = Env::new(Vec::new());
    let call_range = TextRange::new(0, 10);

    assert_eq!(
        id_lambda.eval(call_range, vec![Val::Number(5), Val::Str("test".to_string())], &env),
        Err(EvalError::new(EvalErrorKind::TooManyParams, call_range)),
    );
}

#[test]
fn evaluate_lambda_with_too_few_params() {
    let ls_two_dirs_lambda = lambda("|dir1 dir2| ls $dir1 $dir2");
    let env = Env::new(Vec::new());
    let call_range = TextRange::new(0, 10);

    assert_eq!(
        ls_two_dirs_lambda.eval(call_range, vec![Val::Str("~/Documents".to_string())], &env),
        Err(EvalError::new(EvalErrorKind::TooFewParams, call_range)),
    );
}

#[test]
fn call_lambda_with_several_params() {
    let mut env = Env::new(Vec::new());
    env.store_binding("return-first".into(), Val::Lambda(lambda("|a b| $a")));

    let return_first_application = function_call("return-first 5 10");

    assert_eq!(return_first_application.eval(&env), Ok(Val::Number(5)));
}

#[test]
fn call_lambda_without_any_params() {
    let mut env = Env::new(Vec::new());
    env.store_binding("always-return-100".into(), Val::Lambda(lambda("|| 100")));

    let always_return_100_application = function_call("always-return-100");

    assert_eq!(always_return_100_application.eval(&env), Ok(Val::Number(100)));
}

#[test]
fn call_non_lambda() {
    let mut env = Env::new(Vec::new());
    env.store_binding("foo".into(), Val::Number(100));

    let call = function_call("foo 10");

    assert_eq!(
        call.eval(&env),
        Err(EvalError::new(EvalErrorKind::CallNonLambda, TextRange::new(0, 3))),
    );
}

#[test]
fn evaluate_binding_def() {
    let binding_def = {
        let mut p = Parser::new("let a = 5");
        parse_binding_def(&mut p);
        BindingDef::cast(p.finish_and_get_syntax()).unwrap()
    };

    assert_eq!(
        {
            let mut env = Env::new(Vec::new());
            binding_def.eval(&mut env).unwrap();
            env
        },
        {
            let mut env = Env::new(Vec::new());
            env.store_binding("a".into(), Val::Number(5));
            env
        },
    );
}

#[test]
fn evaluate_empty_root() {
    let mut env = Env::new(Vec::new());
    assert_eq!(root("").eval(&mut env), Ok(Val::Nil));
}

#[test]
fn evaluate_root_with_one_expr_returns_value_of_expr() {
    let mut env = Env::new(Vec::new());
    assert_eq!(root(r#""hello""#).eval(&mut env), Ok(Val::Str("hello".to_string())));
}

#[test]
fn evaluate_root_with_one_statement_returns_nil() {
    let mut env = Env::new(Vec::new());
    assert_eq!(root("let x = 1").eval(&mut env), Ok(Val::Nil));
}

#[test]
fn evaluate_root_with_multiple_expressions_returns_last() {
    let mut env = Env::new(Vec::new());
    assert_eq!(root("\n5\n10\n\"foobar\"\n2").eval(&mut env), Ok(Val::Number(2)));
}

#[test]
fn evaluate_bin_ops_with_precedence_and_truncating_division() {
    let mut env = Env::new(Vec::new());
    assert_eq!(root("1 + 2 * 3").eval(&mut env), Ok(Val::Number(7)));
    assert_eq!(root("(1 + 2) * 3").eval(&mut env), Ok(Val::Number(9)));
    assert_eq!(root("10 - 4 - 3").eval(&mut env), Ok(Val::Number(3)));
    assert_eq!(root("let a = 0 - 7\n$a / 2").eval(&mut env), Ok(Val::Number(-3)));
}

#[test]
fn evaluate_bin_op_on_non_numbers() {
    let mut env = Env::new(Vec::new());
    assert_eq!(
        root("\"a\" + 1").eval(&mut env),
        Err(EvalError::new(
            EvalErrorKind::BinOpOnNonNumbers { lhs_ty: Ty::Str, rhs_ty: Ty::Number },
            TextRange::new(0, 7)
        ))
    );
}

#[test]
fn root_bindings_stay_and_return_statements_are_passed_over() {
    let mut env = Env::new(Vec::new());
    assert_eq!(root("let a = 5\nreturn $a\n99").eval(&mut env), Ok(Val::Number(99)));
    assert_eq!(env.get_binding("a"), Some(Val::Number(5)));
    assert_eq!(root("return 5\n3").eval(&mut env), Ok(Val::Number(3)));
    assert_eq!(root("return").eval(&mut env), Ok(Val::Nil));
}

#[test]
fn lookup_after_store_and_in_child() {
    let mut env = Env::new(Vec::new());
    env.store_binding("x".into(), Val::Number(1));
    env.store_binding("y".into(), Val::Number(2));
    env.store_binding("x".into(), Val::Number(3));
    assert_eq!(env.get_binding("x"), Some(Val::Number(3)));
    assert_eq!(env.get_binding("y"), Some(Val::Number(2)));
    let mut child = env.create_child();
    assert_eq!(child.get_binding("x"), Some(Val::Number(3)));
    child.store_binding("x".into(), Val::Nil);
    assert_eq!(child.get_binding("x"), Some(Val::Nil));
    assert_eq!(env.get_binding("x"), Some(Val::Number(3)));
    assert_eq!(env.get_binding("z"), None);
}

#[test]
fn func_or_command_prefers_lambda_then_command() {
    let mut env = Env::new(vec![
        ("ls".to_string(), "/bin/ls".to_string()),
        ("ls".to_string(), "/usr/bin/ls".to_string()),
        ("cat".to_string(), "/bin/cat".to_string()),
    ]);
    assert_eq!(env.get_func_or_command("ls"), Ok(FuncOrCommand::Command("/usr/bin/ls".to_string())));
    assert_eq!(env.get_func_or_command("nope"), Err(EvalErrorKind::FuncOrCommandDoesNotExist));
    env.store_binding("n".into(), Val::Number(1));
    assert_eq!(env.get_func_or_command("n"), Err(EvalErrorKind::CallNonLambda));
    env.store_binding("cat".into(), Val::Number(1));
    assert_eq!(env.get_func_or_command("cat"), Ok(FuncOrCommand::Command("/bin/cat".to_string())));
    let id = lambda("|x| $x");
    env.store_binding("ls".into(), Val::Lambda(id.clone()));
    assert_eq!(env.get_func_or_command("ls"), Ok(FuncOrCommand::Func(id)));
}

#[test]
fn value_types_and_display() {
    assert_eq!(Val::Number(-42).display_repr(), Some("-42".to_string()));
    assert_eq!(Val::Str("s".to_string()).display_repr(), Some("s".to_string()));
    assert_eq!(Val::Nil.display_repr(), Some("nil".to_string()));
    assert_eq!(Val::Lambda(lambda("|| 1")).display_repr(), None);
    assert_eq!(Val::Nil.ty(), Ty::Nil);
    assert_eq!(Val::Number(i64::MIN).display_repr(), Some("-9223372036854775808".to_string()));
}

#[test]
fn literal_tokens_evaluate() {
    let s = SyntaxToken { kind: SyntaxKind::StringLiteral, text: "\"hi\"".to_string(), range: TextRange::new(0, 4) };
    assert_eq!(StringLiteral::cast(s).unwrap().eval(), Val::Str("hi".to_string()));
    let d = SyntaxToken { kind: SyntaxKind::Digits, text: "9223372036854775807".to_string(), range: TextRange::new(0, 19) };
    assert!(StringLiteral::cast(d.clone()).is_none());
    assert_eq!(Digits::cast(d).unwrap().eval(), Val::Number(i64::MAX));
}

#[test]
fn function_call_name_and_params() {
    let call = function_call("ls -la $dir");
    assert_eq!(call.name().unwrap().text, "ls");
    let params = call.params().unwrap();
    assert_eq!(params.kind, SyntaxKind::FunctionCallParams);
    assert_eq!((params.range.start, params.range.end), (3, 11));
}

#[test]
fn bounded_evaluation_gives_the_value_within_enough_steps() {
    let mut env = Env::new(Vec::new());
    assert_eq!(
        root("\n5\n10\n\"foobar\"\n2").eval_bounded(&mut env, 10),
        Some(Ok(Val::Number(2)))
    );
    assert_eq!(root("").eval_bounded(&mut env, 0), Some(Ok(Val::Nil)));
    assert_eq!(root("5").eval_bounded(&mut env, 0), None);
}

#[test]
fn bounded_evaluation_gives_none_where_the_program_would_stop() {
    let mut env = Env::new(Vec::new());
    assert_eq!(root("9223372036854775807 + 1").eval_bounded(&mut env, 10), None);
    assert_eq!(root("5 / 0").eval_bounded(&mut env, 10), None);
    assert_eq!(root("99999999999999999999").eval_bounded(&mut env, 10), None);
}

#[test]
fn bounded_evaluation_of_endless_recursion_runs_out() {
    let mut env = Env::new(Vec::new());
    assert_eq!(root("let f = |x| f $x\nf 1").eval_bounded(&mut env, 50), None);
}

#[test]
fn bounded_lambda_call() {
    let env = Env::new(Vec::new());
    let id = lambda("|x| $x");
    assert_eq!(
        id.eval_bounded(TextRange::new(0, 0), vec![Val::Number(7)], &env, 5),
        Some(Ok(Val::Number(7)))
    );
    assert_eq!(id.eval_bounded(TextRange::new(0, 0), vec![Val::Number(7)], &env, 0), None);
}
