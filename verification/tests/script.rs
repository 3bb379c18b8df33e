use fjord::ident_name::IdentName;
use fjord::script::{eval, eval_bounded, Error, State};
use fjord::script_ast::{BindingVal, CallParam, DefParam, Expr, Func, Item};
use fjord::script_eval::{Error as EvalError, OutputExpr};
use fjord::params::Error as ParamsError;
use fjord::ffi::{ForeignFjordFunc, Param};
use std::rc::Rc;

fn ident(s: &str) -> IdentName {
    IdentName::new_panicking(s)
}

fn expr(s: &str) -> Expr {
    Expr::new(s).unwrap().1
}

fn item(s: &str) -> Item {
    Item::new(s).unwrap().1
}

#[test]
fn func() {
    assert_eq!(
        BindingVal::new(":: 9876"),
        Ok((String::new(), BindingVal::Func(Rc::new(Func::new(":: 9876").unwrap().1))))
    );
    assert_eq!(
        BindingVal::new("param1 param2 :: \"some text\""),
        Ok((
            String::new(),
            BindingVal::Func(Rc::new(Func::new("param1 param2 :: \"some text\"").unwrap().1))
        ))
    );
}

#[test]
fn item_expr() {
    assert_eq!(Item::new("123"), Ok((String::new(), Item::Expr(expr("123")))));
    assert_eq!(BindingVal::new("123"), Ok((String::new(), BindingVal::Var(expr("123")))));
    assert_eq!(
        BindingVal::new("\"foobar\""),
        Ok((String::new(), BindingVal::Var(expr("\"foobar\""))))
    );
}

#[test]
fn expr_binding() {
    assert_eq!(
        Item::new("myVar = 25"),
        Ok((String::new(), Item::Binding { name: ident("myVar"), val: BindingVal::Var(expr("25")) }))
    );
}

#[test]
fn func_binding() {
    assert_eq!(
        Item::new("myFunc = param1 :: 4321"),
        Ok((
            String::new(),
            Item::Binding {
                name: ident("myFunc"),
                val: BindingVal::Func(Rc::new(Func::new("param1 :: 4321").unwrap().1)),
            }
        ))
    );
}

#[test]
fn expr_number() {
    assert_eq!(Expr::new("123"), Ok((String::new(), Expr::Number(123))));
}

#[test]
fn expr_str() {
    assert_eq!(
        Expr::new("\"Hello, World!\""),
        Ok((String::new(), Expr::Str("Hello, World!".to_string())))
    );
    assert_eq!(Expr::new("\"🦀\""), Ok((String::new(), Expr::Str("🦀".to_string()))));
    assert_eq!(Expr::new("\"foobar\""), Ok((String::new(), Expr::Str("foobar".to_string()))));
}

#[test]
fn expr_basic() {
    assert_eq!(Expr::new("{ 25 }"), Ok((String::new(), Expr::Block(vec![item("25")]))));
}

#[test]
fn expr_only_variable() {
    assert_eq!(
        Expr::new("{let myVar 5}"),
        Ok((String::new(), Expr::Block(vec![item("let myVar 5")])))
    );
}

#[test]
fn expr_var() {
    assert_eq!(Expr::new(".myVar"), Ok((String::new(), Expr::Var(ident("myVar")))));
    assert_eq!(Expr::new(".foobar"), Ok((String::new(), Expr::Var(ident("foobar")))));
}

#[test]
fn expr_no_args() {
    assert_eq!(
        Expr::new("funcName"),
        Ok((String::new(), Expr::FuncCall { name: ident("funcName"), params: vec![] }))
    );
}

#[test]
fn expr_some_args() {
    assert_eq!(
        Expr::new("addThree 1 7 4"),
        Ok((
            String::new(),
            Expr::FuncCall {
                name: ident("addThree"),
                params: vec![
                    CallParam::new("1").unwrap().1,
                    CallParam::new("7").unwrap().1,
                    CallParam::new("4").unwrap().1
                ],
            }
        ))
    );
}

#[test]
fn expr_func_call() {
    assert_eq!(
        Expr::new("sqrt 5"),
        Ok((
            String::new(),
            Expr::FuncCall { name: ident("sqrt"), params: vec![CallParam::new("5").unwrap().1] }
        ))
    );
}

#[test]
fn expr_named() {
    assert_eq!(
        CallParam::new("paramName=10"),
        Ok((String::new(), CallParam::Named { name: ident("paramName"), val: Expr::Number(10) }))
    );
    assert_eq!(
        CallParam::new("foobar=100"),
        Ok((String::new(), CallParam::Named { name: ident("foobar"), val: expr("100") }))
    );
}

#[test]
fn call_named() {
    assert_eq!(
        CallParam::new("paramName=10"),
        Ok((String::new(), CallParam::Named { name: ident("paramName"), val: expr("10") }))
    );
    assert_eq!(
        CallParam::new("foobar=100"),
        Ok((String::new(), CallParam::Named { name: ident("foobar"), val: expr("100") }))
    );
}

#[test]
fn call_positional() {
    assert_eq!(
        CallParam::new("123"),
        Ok((String::new(), CallParam::Positional { val: expr("123") }))
    );
    assert_eq!(
        CallParam::new("\"Test\""),
        Ok((String::new(), CallParam::Positional { val: expr("\"Test\"") }))
    );
}

#[test]
fn with_default() {
    assert_eq!(
        DefParam::new("paramName=5"),
        Ok((String::new(), DefParam { name: ident("paramName"), val: Some(Expr::Number(5)) }))
    );
    assert_eq!(
        DefParam::new("foobar=\"test\""),
        Ok((
            String::new(),
            DefParam { name: ident("foobar"), val: Some(Expr::Str("test".to_string())) }
        ))
    );
}

#[test]
fn without_default() {
    assert_eq!(
        DefParam::new("paramName"),
        Ok((String::new(), DefParam { name: ident("paramName"), val: None }))
    );
    assert_eq!(
        DefParam::new("foobar"),
        Ok((String::new(), DefParam { name: ident("foobar"), val: None }))
    );
}

#[test]
fn no_params() {
    assert_eq!(
        Func::new(":: 123"),
        Ok((String::new(), Func { params: vec![], body: expr("123") }))
    );
}

#[test]
fn some_params() {
    assert_eq!(
        Func::new("param1 param2 :: \"Hello, World!\""),
        Ok((
            String::new(),
            Func {
                params: vec![DefParam::new("param1").unwrap().1, DefParam::new("param2").unwrap().1],
                body: expr("\"Hello, World!\""),
            }
        ))
    );
}

#[test]
fn no_body() {
    assert_eq!(Func::new(":: {}"), Ok((String::new(), Func { params: vec![], body: expr("{}") })));
}

#[test]
fn multiple_body_lines() {
    assert_eq!(
        Func::new("x :: {\n    otherName = .x\n    .otherName\n}"),
        Ok((
            String::new(),
            Func {
                params: vec![DefParam::new("x").unwrap().1],
                body: expr("{\n    otherName = .x\n    .otherName\n}"),
            }
        ))
    );
}

#[test]
fn parse_leaves_rest_of_text() {
    assert_eq!(Expr::new("12 rest"), Ok((" rest".to_string(), Expr::Number(12))));
    assert!(Expr::new("!").is_err());
}

#[test]
fn eval_block_gives_first_non_unit_value() {
    let state = State::new_root(Vec::new());
    assert_eq!(eval("{\nx = 5\n.x\n}", &state), Ok(OutputExpr::Number(5)));
    assert_eq!(eval("{\nx = 5\n}", &state), Ok(OutputExpr::Unit));
    assert_eq!(eval("\"hi\"", &state), Ok(OutputExpr::Str("hi".to_string())));
}

#[test]
fn eval_missing_names() {
    let state = State::new_root(Vec::new());
    assert_eq!(eval(".nothing", &state), Err(Error::Eval(EvalError::VarNotFound)));
    assert_eq!(eval("nothing 1", &state), Err(Error::Eval(EvalError::FuncNotFound)));
    assert_eq!(eval("!", &state), Err(Error::Parse));
}

#[test]
fn eval_function_parameters() {
    let state = State::new_root(Vec::new());
    let prog = "{\nf = a b=7 :: .b\n.x\nf 1\n}";
    assert_eq!(eval(prog, &state), Err(Error::Eval(EvalError::VarNotFound)));
    let prog = "{\nf = a b=7 :: .b\nf 1\n}";
    assert_eq!(eval(prog, &state), Ok(OutputExpr::Number(7)));
    let prog = "{\nf = a b=7 :: .b\nf 1 2\n}";
    assert_eq!(eval(prog, &state), Ok(OutputExpr::Number(2)));
    let prog = "{\nf = a b=7 :: .a\nf b=3 9\n}";
    assert_eq!(eval(prog, &state), Ok(OutputExpr::Number(9)));
    let prog = "{\nf = a :: .a\nf 1 2\n}";
    assert_eq!(
        eval(prog, &state),
        Err(Error::Eval(EvalError::FuncParamError(ParamsError::TooManyFuncParams)))
    );
    let prog = "{\nf = a b :: .a\nf 1\n}";
    assert_eq!(
        eval(prog, &state),
        Err(Error::Eval(EvalError::FuncParamError(ParamsError::NotEnoughFuncParams)))
    );
    let prog = "{\nf = a :: .a\nf c=1\n}";
    assert_eq!(eval(prog, &state), Err(Error::Eval(EvalError::FuncParamNotFound)));
}

#[test]
fn func_eval_binds_parameters() {
    let state = State::new_root(Vec::new());
    let f = Func::new("a b=2 :: .b").unwrap().1;
    let params = vec![CallParam::new("5").unwrap().1];
    assert_eq!(f.eval(&params, &state), Ok(OutputExpr::Number(2)));
    let params = vec![CallParam::new("5").unwrap().1, CallParam::new("6").unwrap().1];
    assert_eq!(f.eval(&params, &state), Ok(OutputExpr::Number(6)));
}

#[test]
fn too_many_params() {
    assert_eq!(
        fjord::params::eval(vec![Expr::Number(1), Expr::Number(1)], vec![ident("foo")]),
        Err(ParamsError::TooManyFuncParams)
    );
}

#[test]
fn not_enough_params() {
    assert_eq!(
        fjord::params::eval(vec![Expr::Number(50)], vec![ident("param1"), ident("param2")]),
        Err(ParamsError::NotEnoughFuncParams)
    );
}

#[test]
fn eval_params() {
    let r = fjord::params::eval(
        vec![Expr::Number(100), Expr::Str("file.txt".into())],
        vec![ident("count"), ident("path")],
    )
    .unwrap();
    assert_eq!(r.len(), 2);
    assert_eq!(r[0].name, ident("count"));
    assert_eq!(r[0].val, Expr::Number(100));
    assert_eq!(r[1].name, ident("path"));
    assert_eq!(r[1].val, Expr::Str("file.txt".into()));
}

#[test]
fn bounded_script_evaluation_counts_nested_steps() {
    let state = State::new_root(Vec::new());
    assert_eq!(eval_bounded("5", &state, 0), None);
    assert_eq!(eval_bounded("5", &state, 1), Some(Ok(OutputExpr::Number(5))));
    assert_eq!(eval_bounded("{\n5\n}", &state, 1), None);
    assert_eq!(eval_bounded("{\n5\n}", &state, 2), Some(Ok(OutputExpr::Number(5))));
    assert_eq!(eval_bounded("!", &state, 10), Some(Err(Error::Parse)));
    assert_eq!(eval_bounded("99999999999", &state, 10), None);
    assert_eq!(
        eval_bounded(".nothing", &state, 10),
        Some(Err(Error::Eval(EvalError::VarNotFound)))
    );
}

#[test]
fn bounded_script_evaluation_stops_endless_recursion() {
    let state = State::new_root(Vec::new());
    assert_eq!(eval_bounded("{\nf = :: {\nf\n}\nf\n}", &state, 1000), None);
}

#[test]
fn bounded_function_call() {
    let state = State::new_root(Vec::new());
    let f = Func::new("a b=2 :: .b").unwrap().1;
    let params = vec![CallParam::new("5").unwrap().1, CallParam::new("6").unwrap().1];
    assert_eq!(f.eval_bounded(&params, &state, 0), None);
    assert_eq!(f.eval_bounded(&params, &state, 1), Some(Ok(OutputExpr::Number(6))));
    let params = vec![CallParam::new("5").unwrap().1];
    assert_eq!(f.eval_bounded(&params, &state, 1), Some(Ok(OutputExpr::Number(2))));
}

struct Constant {
    params: Vec<DefParam>,
    out: i32,
}

impl ForeignFjordFunc for Constant {
    fn params(&self) -> &[DefParam] {
        &self.params
    }

    fn run(&self, _params: Vec<Param>) -> OutputExpr {
        OutputExpr::Number(self.out)
    }
}

fn constant(out: i32) -> Box<dyn ForeignFjordFunc> {
    Box::new(Constant { params: vec![DefParam { name: ident("x"), val: None }], out })
}

#[test]
fn root_state_keeps_its_foreign_functions() {
    let state = State::new_root(vec![
        (ident("one"), constant(1)),
        (ident("two"), constant(2)),
        (ident("one"), constant(3)),
    ]);
    let one = state.get_foreign_func(&ident("one")).unwrap();
    assert_eq!(one.run(Vec::new()), OutputExpr::Number(3));
    assert_eq!(one.params().len(), 1);
    let two = state.get_foreign_func(&ident("two")).unwrap();
    assert_eq!(two.run(Vec::new()), OutputExpr::Number(2));
    assert!(state.get_foreign_func(&ident("three")).is_none());
    assert_eq!(eval("5", &state), Ok(OutputExpr::Number(5)));
}
