//! Running Fjord scripts: reading a script and evaluating it in a state, and
//! the entry points that read single parts of a script.

use vstd::prelude::*;
use crate::script_ast::{
    Expr, CallParam, DefParam, Func, Item, BindingVal, SExpr, SFunc, SCallParam, expr_view, item_view,
    func_view, call_params_view, binding_val_view, call_param_view, def_param_view,
};
use crate::script_grammar::{Parsed, read_expr, read_item, read_func, read_binding_val, read_call_param, read_def_param};
use crate::script_parser::{
    ParseError, parse_expr, parse_item, parse_func, parse_binding_val, parse_call_param,
    parse_def_param,
};
use crate::script_eval::{
    Frame, SFrame, SOut, OutputExpr, Error as EvalError, eval_expr, eval_call, result_is, out_view,
    ctx, eval_expr_exec, eval_call_exec, opt_result_is, lemma_expr_fuel, lemma_call_fuel,
};
use crate::text::{chars_of, string_of_range};
use crate::ident_name::IdentName;
use crate::ffi::ForeignFjordFunc;

verus! {

/// Why running a script failed.
#[derive(Debug, PartialEq, Eq, Clone, Copy)]
pub enum Error {
    /// evaluating the script failed
    Eval(EvalError),
    /// the script is not an expression
    Parse,
}

/// The variables and functions that a script starts out with, and the
/// functions written in Rust that it was given by name.
pub struct State {
    frame: Frame,
    foreign_funcs: Vec<(IdentName, Box<dyn ForeignFjordFunc>)>,
}

/// Whether no entry of `fs` from `i` on is named `name`.
pub open spec fn named_after(fs: Seq<(IdentName, Box<dyn ForeignFjordFunc>)>, name: Seq<char>, i: int) -> bool {
    forall|j: int| i < j < fs.len() ==> (#[trigger] fs[j]).0@ != name
}

impl State {
    /// The scope that the state stands for.
    pub closed spec fn view(&self) -> SFrame {
        self.frame.view()
    }

    /// The foreign functions that the state was given, with their names, in
    /// the order given.
    pub closed spec fn foreign_funcs(&self) -> Seq<(IdentName, Box<dyn ForeignFjordFunc>)> {
        self.foreign_funcs@
    }

    /// A state without variables or Fjord functions, which holds the foreign
    /// functions `foreign_funcs` under their names.
    pub fn new_root(foreign_funcs: Vec<(IdentName, Box<dyn ForeignFjordFunc>)>) -> (s: State)
        ensures
            s.view() == (SFrame { vars: Seq::empty(), funcs: Seq::empty() }),
            s.foreign_funcs() == foreign_funcs@,
    {
        State { frame: Frame::new(), foreign_funcs }
    }

    /// The foreign function named `name`: of two given under one name, the
    /// one given last.
    pub fn get_foreign_func(&self, name: &IdentName) -> (r: Option<&Box<dyn ForeignFjordFunc>>)
        ensures
            match r {
                None => forall|j: int| 0 <= j < self.foreign_funcs().len() ==> (#[trigger] self.foreign_funcs()[j]).0@ != name@,
                Some(f) => exists|i: int| 0 <= i < self.foreign_funcs().len()
                    && (#[trigger] self.foreign_funcs()[i]).0@ == name@
                    && *f == self.foreign_funcs()[i].1
                    && named_after(self.foreign_funcs(), name@, i),
            },
    {
        let mut k: usize = self.foreign_funcs.len();
        while k > 0
            invariant
                k <= self.foreign_funcs@.len(),
                forall|j: int| k <= j < self.foreign_funcs@.len() ==> (#[trigger] self.foreign_funcs@[j]).0@ != name@,
            decreases k,
        {
            k = k - 1;
            if self.foreign_funcs[k].0.same(name) {
                let f = &self.foreign_funcs[k].1;
                proof {
                    assert(named_after(self.foreign_funcs(), name@, k as int));
                    assert(self.foreign_funcs()[k as int].0@ == name@ && *f == self.foreign_funcs()[k as int].1);
                }
                return Some(f);
            }
        }
        None
    }
}

/// Whether evaluating `e` in the scopes `st` ends within `u64::MAX` nested
/// steps.
pub open spec fn expr_terminates(e: SExpr, st: Seq<SFrame>) -> bool {
    exists|fuel: nat| fuel <= u64::MAX && #[trigger] eval_expr(e, st, fuel) is Some
}

/// What evaluating `e` in the scopes `st` gives, where that ends.
pub open spec fn expr_value(e: SExpr, st: Seq<SFrame>) -> Result<SOut, EvalError> {
    eval_expr(e, st, choose|fuel: nat| fuel <= u64::MAX && #[trigger] eval_expr(e, st, fuel) is Some)->Some_0
}

/// Whether calling `f` with `params` from the scopes `st` ends within
/// `u64::MAX` nested steps.
pub open spec fn call_terminates(f: SFunc, params: Seq<SCallParam>, st: Seq<SFrame>) -> bool {
    exists|fuel: nat| fuel <= u64::MAX && #[trigger] eval_call(f, params, st, fuel) is Some
}

/// What calling `f` with `params` from the scopes `st` gives, where that ends.
pub open spec fn call_value(f: SFunc, params: Seq<SCallParam>, st: Seq<SFrame>) -> Result<SOut, EvalError> {
    eval_call(f, params, st, choose|fuel: nat| fuel <= u64::MAX && #[trigger] eval_call(f, params, st, fuel) is Some)->Some_0
}

/// Whether running the script `s` in a state with scope `root` ends (or the
/// script is not read at all).
pub open spec fn script_terminates(s: Seq<char>, root: SFrame) -> bool {
    match read_expr(s, 0) {
        Parsed::Done(e, _) => expr_terminates(e, seq![root]),
        _ => true,
    }
}

/// Whether reading an expression from the start of `s` meets a number literal
/// too large for an `i32` (where evaluation would stop the program).
pub fn expr_overflows(s: &str) -> (b: bool)
    ensures
        b == (read_expr(s@, 0) is Overflow),
{
    let cs = chars_of(s);
    match parse_expr(&cs, 0) {
        Err(ParseError::Overflow) => true,
        _ => false,
    }
}

/// Reads the expression at the start of `s` and evaluates it in `state` with
/// at most `fuel` nested steps; the text after the expression is not looked
/// at. `None` where the steps run out, or where the expression holds a number
/// too large for an `i32`.
pub fn eval_bounded(s: &str, state: &State, fuel: u64) -> (r: Option<Result<OutputExpr, Error>>)
    ensures
        match read_expr(s@, 0) {
            Parsed::Done(e, _) => match eval_expr(e, seq![state.view()], fuel as nat) {
                None => r is None,
                Some(Ok(v)) => r matches Some(Ok(o)) && out_view(o) == v,
                Some(Err(x)) => r == Some(Err::<OutputExpr, Error>(Error::Eval(x))),
            },
            Parsed::Overflow => r is None,
            _ => r == Some(Err::<OutputExpr, Error>(Error::Parse)),
        },
{
    let cs = chars_of(s);
    match parse_expr(&cs, 0) {
        Err(ParseError::Overflow) => None,
        Err(_) => Some(Err(Error::Parse)),
        Ok((e, _)) => {
            let mut stack: Vec<Frame> = Vec::new();
            proof {
                assert(ctx(state.frame.view(), stack@) =~= seq![state.view()]);
            }
            match eval_expr_exec(&e, &state.frame, &mut stack, fuel) {
                None => None,
                Some(Ok(v)) => Some(Ok(v)),
                Some(Err(x)) => Some(Err(Error::Eval(x))),
            }
        },
    }
}

/// Reads the expression at the start of `s` and evaluates it in `state`; the
/// text after the expression is not looked at.
pub fn eval(s: &str, state: &State) -> (r: Result<OutputExpr, Error>)
    requires
        !(read_expr(s@, 0) is Overflow),
        script_terminates(s@, state.view()),
    ensures
        match read_expr(s@, 0) {
            Parsed::Done(e, _) => match expr_value(e, seq![state.view()]) {
                Ok(v) => r matches Ok(o) && out_view(o) == v,
                Err(x) => r == Err::<OutputExpr, Error>(Error::Eval(x)),
            },
            _ => r == Err::<OutputExpr, Error>(Error::Parse),
        },
{
    proof {
        if let Parsed::Done(e, _) = read_expr(s@, 0) {
            let st = seq![state.view()];
            let fuel = choose|fuel: nat| fuel <= u64::MAX && #[trigger] eval_expr(e, st, fuel) is Some;
            lemma_expr_fuel(e, st, fuel, u64::MAX as nat);
        }
    }
    match eval_bounded(s, state, u64::MAX) {
        Some(r) => r,
        None => {
            proof {
                assert(false);
            }
            Err(Error::Parse)
        },
    }
}

impl Expr {
    /// Reads an expression at the start of `s`; gives the rest of the text
    /// beside it.
    pub fn new(s: &str) -> (r: Result<(String, Expr), ParseError>)
        requires
            !(read_expr(s@, 0) is Overflow),
        ensures
            match read_expr(s@, 0) {
                Parsed::Done(e, j) => r matches Ok((rest, x)) && expr_view(x) == e && rest@ == s@.skip(j),
                _ => r == Err::<(String, Expr), ParseError>(ParseError::NoMatch),
            },
    {
        let cs = chars_of(s);
        match parse_expr(&cs, 0) {
            Ok((e, j)) => {
                let rest = string_of_range(&cs, j, cs.len());
                proof {
                    assert(cs@.subrange(j as int, cs@.len() as int) =~= s@.skip(j as int));
                }
                Ok((rest, e))
            },
            Err(_) => Err(ParseError::NoMatch),
        }
    }
}

impl Item {
    /// Reads an item at the start of `s`; gives the rest of the text beside it.
    pub fn new(s: &str) -> (r: Result<(String, Item), ParseError>)
        requires
            !(read_item(s@, 0) is Overflow),
        ensures
            match read_item(s@, 0) {
                Parsed::Done(it, j) => r matches Ok((rest, x)) && item_view(x) == it && rest@ == s@.skip(j),
                _ => r == Err::<(String, Item), ParseError>(ParseError::NoMatch),
            },
    {
        let cs = chars_of(s);
        match parse_item(&cs, 0) {
            Ok((it, j)) => {
                let rest = string_of_range(&cs, j, cs.len());
                proof {
                    assert(cs@.subrange(j as int, cs@.len() as int) =~= s@.skip(j as int));
                }
                Ok((rest, it))
            },
            Err(_) => Err(ParseError::NoMatch),
        }
    }
}

impl Func {
    /// Reads a function at the start of `s`; gives the rest of the text
    /// beside it.
    pub fn new(s: &str) -> (r: Result<(String, Func), ParseError>)
        requires
            !(read_func(s@, 0) is Overflow),
        ensures
            match read_func(s@, 0) {
                Parsed::Done(f, j) => r matches Ok((rest, x)) && func_view(x) == f && rest@ == s@.skip(j),
                _ => r == Err::<(String, Func), ParseError>(ParseError::NoMatch),
            },
    {
        let cs = chars_of(s);
        match parse_func(&cs, 0) {
            Ok((f, j)) => {
                let rest = string_of_range(&cs, j, cs.len());
                proof {
                    assert(cs@.subrange(j as int, cs@.len() as int) =~= s@.skip(j as int));
                }
                Ok((rest, f))
            },
            Err(_) => Err(ParseError::NoMatch),
        }
    }

    /// Calls the function with `params` from `state` with at most `fuel`
    /// nested steps: see `eval_call` for how the parameters are bound. `None`
    /// where the steps run out.
    pub fn eval_bounded(&self, params: &Vec<CallParam>, state: &State, fuel: u64) -> (r: Option<Result<OutputExpr, EvalError>>)
        ensures
            opt_result_is(r, eval_call(func_view(*self), call_params_view(params@), seq![state.view()], fuel as nat)),
    {
        let mut stack: Vec<Frame> = Vec::new();
        proof {
            assert(ctx(state.frame.view(), stack@) =~= seq![state.view()]);
        }
        eval_call_exec(self, params, &state.frame, &mut stack, fuel)
    }

    /// Calls the function with `params` from `state`: see `eval_call` for how
    /// the parameters are bound.
    pub fn eval(&self, params: &Vec<CallParam>, state: &State) -> (r: Result<OutputExpr, EvalError>)
        requires
            call_terminates(func_view(*self), call_params_view(params@), seq![state.view()]),
        ensures
            result_is(r, call_value(func_view(*self), call_params_view(params@), seq![state.view()])),
    {
        proof {
            let fv = func_view(*self);
            let pv = call_params_view(params@);
            let st = seq![state.view()];
            let fuel = choose|fuel: nat| fuel <= u64::MAX && #[trigger] eval_call(fv, pv, st, fuel) is Some;
            lemma_call_fuel(fv, pv, st, fuel, u64::MAX as nat);
        }
        match self.eval_bounded(params, state, u64::MAX) {
            Some(r) => r,
            None => {
                proof {
                    assert(false);
                }
                Err(EvalError::VarNotFound)
            },
        }
    }
}

impl CallParam {
    /// Reads a call parameter at the start of `s`: `name=expression`, or else
    /// an expression. Gives the rest of the text beside it.
    pub fn new(s: &str) -> (r: Result<(String, CallParam), ParseError>)
        requires
            !(read_call_param(s@, 0) is Overflow),
        ensures
            match read_call_param(s@, 0) {
                Parsed::Done(p, j) => r matches Ok((rest, x)) && call_param_view(x) == p && rest@ == s@.skip(j),
                _ => r == Err::<(String, CallParam), ParseError>(ParseError::NoMatch),
            },
    {
        let cs = chars_of(s);
        match parse_call_param(&cs, 0) {
            Ok((p, j)) => {
                let rest = string_of_range(&cs, j, cs.len());
                proof {
                    assert(cs@.subrange(j as int, cs@.len() as int) =~= s@.skip(j as int));
                }
                Ok((rest, p))
            },
            Err(_) => Err(ParseError::NoMatch),
        }
    }
}

impl DefParam {
    /// Reads a parameter of a function definition at the start of `s`:
    /// `name=default`, or else `name`. Gives the rest of the text beside it.
    pub fn new(s: &str) -> (r: Result<(String, DefParam), ParseError>)
        requires
            !(read_def_param(s@, 0) is Overflow),
        ensures
            match read_def_param(s@, 0) {
                Parsed::Done(p, j) => r matches Ok((rest, x)) && def_param_view(x) == p && rest@ == s@.skip(j),
                _ => r == Err::<(String, DefParam), ParseError>(ParseError::NoMatch),
            },
    {
        let cs = chars_of(s);
        match parse_def_param(&cs, 0) {
            Ok((p, j)) => {
                let rest = string_of_range(&cs, j, cs.len());
                proof {
                    assert(cs@.subrange(j as int, cs@.len() as int) =~= s@.skip(j as int));
                }
                Ok((rest, p))
            },
            Err(_) => Err(ParseError::NoMatch),
        }
    }
}

impl BindingVal {
    /// Reads what a name is bound to at the start of `s`: a function, or else
    /// a value. Gives the rest of the text beside it.
    pub fn new(s: &str) -> (r: Result<(String, BindingVal), ParseError>)
        requires
            !(read_binding_val(s@, 0) is Overflow),
        ensures
            match read_binding_val(s@, 0) {
                Parsed::Done(b, j) => r matches Ok((rest, x)) && binding_val_view(x) == b && rest@ == s@.skip(j),
                _ => r == Err::<(String, BindingVal), ParseError>(ParseError::NoMatch),
            },
    {
        let cs = chars_of(s);
        match parse_binding_val(&cs, 0) {
            Ok((b, j)) => {
                let rest = string_of_range(&cs, j, cs.len());
                proof {
                    assert(cs@.subrange(j as int, cs@.len() as int) =~= s@.skip(j as int));
                }
                Ok((rest, b))
            },
            Err(_) => Err(ParseError::NoMatch),
        }
    }
}

} // verus!
