//! Evaluation of Fjord scripts.
//!
//! Names are looked up in a chain of scopes, innermost first. A block and a
//! function call each open a scope of their own, which goes away once they are
//! done. A function is called with the caller's scopes around its own.
//!
//! A script may call functions without end, so the contracts count steps: what
//! an evaluation gives is stated for the evaluations that end.

use vstd::prelude::*;
use std::rc::Rc;
use crate::ident_name::IdentName;
use crate::params::Error as ParamsError;
use crate::script_ast::{
    Expr, CallParam, DefParam, Func, Item, BindingVal, SExpr, SCallParam, SDefParam, SFunc, SItem,
    SBindingVal, expr_view, items_view, item_view, func_view, def_params_view, def_param_view,
    call_params_view, call_param_view, lemma_items_view, lemma_call_params_view,
    lemma_def_params_view,
};
use crate::tree::rc_clone;

verus! {

/// What evaluating something gives.
#[derive(Debug, PartialEq, Eq, Clone)]
pub enum OutputExpr {
    Number(i32),
    Str(String),
    /// the unit: nothing of interest
    Unit,
}

/// What evaluating something gives, as the contracts see it.
pub enum SOut {
    Number(i32),
    Str(Seq<char>),
    Unit,
}

pub open spec fn out_view(o: OutputExpr) -> SOut {
    match o {
        OutputExpr::Number(n) => SOut::Number(n),
        OutputExpr::Str(s) => SOut::Str(s@),
        OutputExpr::Unit => SOut::Unit,
    }
}

/// What can go wrong while evaluating.
#[derive(Debug, PartialEq, Eq, Clone, Copy)]
pub enum Error {
    /// a variable is used that does not exist
    VarNotFound,
    /// a function is called that does not exist
    FuncNotFound,
    /// a call names a parameter that the function does not have
    FuncParamNotFound,
    /// the call's parameters do not match the function's
    FuncParamError(ParamsError),
}

/// One scope: its variables and its functions, by name.
pub struct Frame {
    vars: Vec<(IdentName, OutputExpr)>,
    funcs: Vec<(IdentName, Rc<Func>)>,
}

/// A scope as the contracts see it.
pub struct SFrame {
    pub vars: Seq<(Seq<char>, SOut)>,
    pub funcs: Seq<(Seq<char>, SFunc)>,
}

pub open spec fn shared_func_view(f: &Rc<Func>) -> SFunc {
    func_view(**f)
}

pub open spec fn empty_frame() -> SFrame {
    SFrame { vars: Seq::empty(), funcs: Seq::empty() }
}

impl Frame {
    pub closed spec fn view(&self) -> SFrame {
        SFrame {
            vars: self.vars@.map_values(|p: (IdentName, OutputExpr)| (p.0@, out_view(p.1))),
            funcs: self.funcs@.map_values(|p: (IdentName, Rc<Func>)| (p.0@, func_view(*p.1))),
        }
    }

    pub(crate) fn new() -> (f: Frame)
        ensures
            f.view() == empty_frame(),
    {
        let f = Frame { vars: Vec::new(), funcs: Vec::new() };
        proof {
            assert(f.view().vars =~= Seq::<(Seq<char>, SOut)>::empty());
            assert(f.view().funcs =~= Seq::<(Seq<char>, SFunc)>::empty());
        }
        f
    }
}

/// First position at or after `i` whose entry has key `k` (or the length).
pub open spec fn find_key<V>(m: Seq<(Seq<char>, V)>, k: Seq<char>, i: int) -> int
    decreases m.len() - i,
{
    if i < 0 || i >= m.len() {
        m.len() as int
    } else if m[i].0 == k {
        i
    } else {
        find_key(m, k, i + 1)
    }
}

pub open spec fn map_get<V>(m: Seq<(Seq<char>, V)>, k: Seq<char>) -> Option<V> {
    let i = find_key(m, k, 0);
    if 0 <= i < m.len() {
        Some(m[i].1)
    } else {
        None
    }
}

/// The entries with `k` bound to `v`: in place of an entry with key `k`, or
/// else at the end.
pub open spec fn map_set<V>(m: Seq<(Seq<char>, V)>, k: Seq<char>, v: V) -> Seq<(Seq<char>, V)> {
    let i = find_key(m, k, 0);
    if 0 <= i < m.len() {
        m.update(i, (k, v))
    } else {
        m.push((k, v))
    }
}

/// The value of variable `k`, from the innermost scope that has it.
pub open spec fn lookup_var(st: Seq<SFrame>, k: Seq<char>) -> Option<SOut>
    decreases st.len(),
{
    if st.len() == 0 {
        None
    } else {
        match map_get(st.last().vars, k) {
            Some(v) => Some(v),
            None => lookup_var(st.drop_last(), k),
        }
    }
}

/// The function `k`, from the innermost scope that has it.
pub open spec fn lookup_func(st: Seq<SFrame>, k: Seq<char>) -> Option<SFunc>
    decreases st.len(),
{
    if st.len() == 0 {
        None
    } else {
        match map_get(st.last().funcs, k) {
            Some(f) => Some(f),
            None => lookup_func(st.drop_last(), k),
        }
    }
}

/// Binds variable `k` to `v` in the innermost scope.
pub open spec fn set_var(st: Seq<SFrame>, k: Seq<char>, v: SOut) -> Seq<SFrame> {
    st.update(st.len() - 1, SFrame { vars: map_set(st.last().vars, k, v), funcs: st.last().funcs })
}

/// Binds function `k` to `f` in the innermost scope.
pub open spec fn set_func(st: Seq<SFrame>, k: Seq<char>, f: SFunc) -> Seq<SFrame> {
    st.update(st.len() - 1, SFrame { vars: st.last().vars, funcs: map_set(st.last().funcs, k, f) })
}

/// The named parameters of a call, in order.
pub open spec fn named_params(ps: Seq<SCallParam>) -> Seq<(Seq<char>, SExpr)>
    decreases ps.len(),
{
    if ps.len() == 0 {
        Seq::empty()
    } else {
        let r = named_params(ps.drop_last());
        match ps.last() {
            SCallParam::Named(n, e) => r.push((n, e)),
            SCallParam::Positional(_) => r,
        }
    }
}

/// The positional parameters of a call, in order.
pub open spec fn positional_params(ps: Seq<SCallParam>) -> Seq<SExpr>
    decreases ps.len(),
{
    if ps.len() == 0 {
        Seq::empty()
    } else {
        let r = positional_params(ps.drop_last());
        match ps.last() {
            SCallParam::Named(_, _) => r,
            SCallParam::Positional(e) => r.push(e),
        }
    }
}

/// First position at or after `i` of a definition parameter named `n`.
pub open spec fn find_def(defs: Seq<SDefParam>, n: Seq<char>, i: int) -> int
    decreases defs.len() - i,
{
    if i < 0 || i >= defs.len() {
        defs.len() as int
    } else if defs[i].name == n {
        i
    } else {
        find_def(defs, n, i + 1)
    }
}

/// Whether some parameter from position `i` on has no default value.
pub open spec fn has_required(defs: Seq<SDefParam>, i: int) -> bool {
    exists|j: int| i <= j < defs.len() && (#[trigger] defs[j]).val is None
}

/// Evaluates `e` in the scopes `st`, with at most `fuel` nested steps; `None`
/// where that is not enough.
pub open spec fn eval_expr(e: SExpr, st: Seq<SFrame>, fuel: nat) -> Option<Result<SOut, Error>>
    decreases fuel, 0nat, 0nat,
{
    if fuel == 0 {
        None
    } else {
        match e {
            SExpr::Number(n) => Some(Ok(SOut::Number(n))),
            SExpr::Str(s) => Some(Ok(SOut::Str(s))),
            SExpr::Block(items) => eval_block(items, 0, st.push(empty_frame()), (fuel - 1) as nat),
            SExpr::Var(n) => Some(
                match lookup_var(st, n) {
                    Some(v) => Ok(v),
                    None => Err(Error::VarNotFound),
                },
            ),
            SExpr::FuncCall(name, params) => match lookup_func(st, name) {
                None => Some(Err(Error::FuncNotFound)),
                Some(f) => eval_call(f, params, st, (fuel - 1) as nat),
            },
        }
    }
}

/// Evaluates the items of a block from item `i` on: the first item that gives
/// something other than the unit gives the block's value; otherwise the unit.
pub open spec fn eval_block(items: Seq<SItem>, i: int, st: Seq<SFrame>, fuel: nat) -> Option<Result<SOut, Error>>
    decreases fuel, 2nat, items.len() - i,
{
    if i < 0 || i >= items.len() {
        Some(Ok(SOut::Unit))
    } else {
        match eval_item(items[i], st, fuel) {
            None => None,
            Some((Err(e), _)) => Some(Err(e)),
            Some((Ok(SOut::Unit), st2)) => eval_block(items, i + 1, st2, fuel),
            Some((Ok(v), _)) => Some(Ok(v)),
        }
    }
}

/// Evaluates an item: an expression gives its value; a binding gives the unit
/// and binds its name in the innermost scope.
pub open spec fn eval_item(it: SItem, st: Seq<SFrame>, fuel: nat) -> Option<(Result<SOut, Error>, Seq<SFrame>)>
    decreases fuel, 1nat, 0nat,
{
    match it {
        SItem::Expr(e) => match eval_expr(e, st, fuel) {
            None => None,
            Some(r) => Some((r, st)),
        },
        SItem::Binding(n, SBindingVal::Var(e)) => match eval_expr(e, st, fuel) {
            None => None,
            Some(Err(x)) => Some((Err(x), st)),
            Some(Ok(v)) => Some((Ok(SOut::Unit), set_var(st, n, v))),
        },
        SItem::Binding(n, SBindingVal::Func(f)) => Some((Ok(SOut::Unit), set_func(st, n, f))),
    }
}

/// Calls `f` with `params` from the scopes `st`. The named parameters are bound
/// first, each to the parameter of the function with that name; then the
/// positional ones in order to the parameters left; then the parameters left
/// after those take their default values. More positional parameters than
/// are left, or a parameter without a value at the end, is an error.
pub open spec fn eval_call(f: SFunc, params: Seq<SCallParam>, st: Seq<SFrame>, fuel: nat) -> Option<Result<SOut, Error>>
    decreases fuel, 3nat, 0nat,
{
    let named = named_params(params);
    let positional = positional_params(params);
    match bind_named(named, 0, f.params, st.push(empty_frame()), fuel) {
        None => None,
        Some(Err(e)) => Some(Err(e)),
        Some(Ok((defs, st1))) => if positional.len() > defs.len() {
            Some(Err(Error::FuncParamError(ParamsError::TooManyFuncParams)))
        } else {
            match bind_positional(positional, defs, 0, st1, fuel) {
                None => None,
                Some(Err(e)) => Some(Err(e)),
                Some(Ok(st2)) => if positional.len() < defs.len() {
                    match bind_defaults(defs, positional.len() as int, st2, fuel) {
                        None => None,
                        Some(Err(e)) => Some(Err(e)),
                        Some(Ok(st3)) => if has_required(defs, positional.len() as int) {
                            Some(Err(Error::FuncParamError(ParamsError::NotEnoughFuncParams)))
                        } else {
                            eval_expr(f.body, st3, fuel)
                        },
                    }
                } else {
                    eval_expr(f.body, st2, fuel)
                },
            }
        },
    }
}

/// Binds the named parameters from `i` on; gives the definition parameters
/// that are left.
pub open spec fn bind_named(
    named: Seq<(Seq<char>, SExpr)>,
    i: int,
    defs: Seq<SDefParam>,
    st: Seq<SFrame>,
    fuel: nat,
) -> Option<Result<(Seq<SDefParam>, Seq<SFrame>), Error>>
    decreases fuel, 1nat, named.len() - i,
{
    if i < 0 || i >= named.len() {
        Some(Ok((defs, st)))
    } else {
        let (n, e) = named[i];
        let idx = find_def(defs, n, 0);
        if idx < 0 || idx >= defs.len() {
            Some(Err(Error::FuncParamNotFound))
        } else {
            match eval_expr(e, st, fuel) {
                None => None,
                Some(Err(x)) => Some(Err(x)),
                Some(Ok(v)) => bind_named(named, i + 1, defs.remove(idx), set_var(st, n, v), fuel),
            }
        }
    }
}

/// Binds the positional parameters from `i` on to the definition parameters
/// at the same positions.
pub open spec fn bind_positional(
    positional: Seq<SExpr>,
    defs: Seq<SDefParam>,
    i: int,
    st: Seq<SFrame>,
    fuel: nat,
) -> Option<Result<Seq<SFrame>, Error>>
    decreases fuel, 1nat, positional.len() - i,
{
    if i < 0 || i >= positional.len() || i >= defs.len() {
        Some(Ok(st))
    } else {
        match eval_expr(positional[i], st, fuel) {
            None => None,
            Some(Err(x)) => Some(Err(x)),
            Some(Ok(v)) => bind_positional(positional, defs, i + 1, set_var(st, defs[i].name, v), fuel),
        }
    }
}

/// Binds the definition parameters from `i` on that have default values to
/// those values.
pub open spec fn bind_defaults(defs: Seq<SDefParam>, i: int, st: Seq<SFrame>, fuel: nat) -> Option<Result<Seq<SFrame>, Error>>
    decreases fuel, 1nat, defs.len() - i,
{
    if i < 0 || i >= defs.len() {
        Some(Ok(st))
    } else {
        match defs[i].val {
            None => bind_defaults(defs, i + 1, st, fuel),
            Some(e) => match eval_expr(e, st, fuel) {
                None => None,
                Some(Err(x)) => Some(Err(x)),
                Some(Ok(v)) => bind_defaults(defs, i + 1, set_var(st, defs[i].name, v), fuel),
            },
        }
    }
}

pub(crate) proof fn lemma_expr_fuel(e: SExpr, st: Seq<SFrame>, f1: nat, f2: nat)
    requires
        f1 <= f2,
        eval_expr(e, st, f1) is Some,
    ensures
        eval_expr(e, st, f2) == eval_expr(e, st, f1),
    decreases f1, 0nat, 0nat,
{
    match e {
        SExpr::Block(items) => {
            lemma_block_fuel(items, 0, st.push(empty_frame()), (f1 - 1) as nat, (f2 - 1) as nat);
        },
        SExpr::FuncCall(name, params) => match lookup_func(st, name) {
            Some(f) => {
                lemma_call_fuel(f, params, st, (f1 - 1) as nat, (f2 - 1) as nat);
            },
            None => {},
        },
        _ => {},
    }
}

proof fn lemma_block_fuel(items: Seq<SItem>, i: int, st: Seq<SFrame>, f1: nat, f2: nat)
    requires
        f1 <= f2,
        eval_block(items, i, st, f1) is Some,
    ensures
        eval_block(items, i, st, f2) == eval_block(items, i, st, f1),
    decreases f1, 2nat, items.len() - i,
{
    if !(i < 0 || i >= items.len()) {
        lemma_item_fuel(items[i], st, f1, f2);
        match eval_item(items[i], st, f1) {
            Some((Ok(SOut::Unit), st2)) => {
                lemma_block_fuel(items, i + 1, st2, f1, f2);
            },
            _ => {},
        }
    }
}

proof fn lemma_item_fuel(it: SItem, st: Seq<SFrame>, f1: nat, f2: nat)
    requires
        f1 <= f2,
        eval_item(it, st, f1) is Some,
    ensures
        eval_item(it, st, f2) == eval_item(it, st, f1),
    decreases f1, 1nat, 0nat,
{
    match it {
        SItem::Expr(e) => {
            lemma_expr_fuel(e, st, f1, f2);
        },
        SItem::Binding(_, SBindingVal::Var(e)) => {
            lemma_expr_fuel(e, st, f1, f2);
        },
        _ => {},
    }
}

pub(crate) proof fn lemma_call_fuel(f: SFunc, params: Seq<SCallParam>, st: Seq<SFrame>, f1: nat, f2: nat)
    requires
        f1 <= f2,
        eval_call(f, params, st, f1) is Some,
    ensures
        eval_call(f, params, st, f2) == eval_call(f, params, st, f1),
    decreases f1, 3nat, 0nat,
{
    let named = named_params(params);
    let positional = positional_params(params);
    lemma_named_fuel(named, 0, f.params, st.push(empty_frame()), f1, f2);
    match bind_named(named, 0, f.params, st.push(empty_frame()), f1) {
        Some(Ok((defs, st1))) => {
            if positional.len() <= defs.len() {
                lemma_positional_fuel(positional, defs, 0, st1, f1, f2);
                match bind_positional(positional, defs, 0, st1, f1) {
                    Some(Ok(st2)) => {
                        if positional.len() < defs.len() {
                            lemma_defaults_fuel(defs, positional.len() as int, st2, f1, f2);
                            match bind_defaults(defs, positional.len() as int, st2, f1) {
                                Some(Ok(st3)) => {
                                    if !has_required(defs, positional.len() as int) {
                                        lemma_expr_fuel(f.body, st3, f1, f2);
                                    }
                                },
                                _ => {},
                            }
                        } else {
                            lemma_expr_fuel(f.body, st2, f1, f2);
                        }
                    },
                    _ => {},
                }
            }
        },
        _ => {},
    }
}

proof fn lemma_named_fuel(
    named: Seq<(Seq<char>, SExpr)>,
    i: int,
    defs: Seq<SDefParam>,
    st: Seq<SFrame>,
    f1: nat,
    f2: nat,
)
    requires
        f1 <= f2,
        bind_named(named, i, defs, st, f1) is Some,
    ensures
        bind_named(named, i, defs, st, f2) == bind_named(named, i, defs, st, f1),
    decreases f1, 1nat, named.len() - i,
{
    if !(i < 0 || i >= named.len()) {
        let (n, e) = named[i];
        let idx = find_def(defs, n, 0);
        if !(idx < 0 || idx >= defs.len()) {
            lemma_expr_fuel(e, st, f1, f2);
            match eval_expr(e, st, f1) {
                Some(Ok(v)) => {
                    lemma_named_fuel(named, i + 1, defs.remove(idx), set_var(st, n, v), f1, f2);
                },
                _ => {},
            }
        }
    }
}

proof fn lemma_positional_fuel(positional: Seq<SExpr>, defs: Seq<SDefParam>, i: int, st: Seq<SFrame>, f1: nat, f2: nat)
    requires
        f1 <= f2,
        bind_positional(positional, defs, i, st, f1) is Some,
    ensures
        bind_positional(positional, defs, i, st, f2) == bind_positional(positional, defs, i, st, f1),
    decreases f1, 1nat, positional.len() - i,
{
    if !(i < 0 || i >= positional.len() || i >= defs.len()) {
        lemma_expr_fuel(positional[i], st, f1, f2);
        match eval_expr(positional[i], st, f1) {
            Some(Ok(v)) => {
                lemma_positional_fuel(positional, defs, i + 1, set_var(st, defs[i].name, v), f1, f2);
            },
            _ => {},
        }
    }
}

proof fn lemma_defaults_fuel(defs: Seq<SDefParam>, i: int, st: Seq<SFrame>, f1: nat, f2: nat)
    requires
        f1 <= f2,
        bind_defaults(defs, i, st, f1) is Some,
    ensures
        bind_defaults(defs, i, st, f2) == bind_defaults(defs, i, st, f1),
    decreases f1, 1nat, defs.len() - i,
{
    if !(i < 0 || i >= defs.len()) {
        match defs[i].val {
            None => {
                lemma_defaults_fuel(defs, i + 1, st, f1, f2);
            },
            Some(e) => {
                lemma_expr_fuel(e, st, f1, f2);
                match eval_expr(e, st, f1) {
                    Some(Ok(v)) => {
                        lemma_defaults_fuel(defs, i + 1, set_var(st, defs[i].name, v), f1, f2);
                    },
                    _ => {},
                }
            },
        }
    }
}

/// What an evaluation gives does not depend on the bound on its steps: any
/// two bounds that are enough give the same result.
pub proof fn law_result_independent_of_fuel(e: SExpr, st: Seq<SFrame>, f1: nat, f2: nat)
    requires
        eval_expr(e, st, f1) is Some,
        eval_expr(e, st, f2) is Some,
    ensures
        eval_expr(e, st, f1) == eval_expr(e, st, f2),
{
    if f1 <= f2 {
        lemma_expr_fuel(e, st, f1, f2);
    } else {
        lemma_expr_fuel(e, st, f2, f1);
    }
}

/// Whether `r` is what the evaluation `spec` gives.
pub open spec fn result_is(r: Result<OutputExpr, Error>, spec: Result<SOut, Error>) -> bool {
    match spec {
        Ok(v) => r matches Ok(o) && out_view(o) == v,
        Err(e) => r == Err::<OutputExpr, Error>(e),
    }
}


/// Whether `r` is what the bounded evaluation `spec` gives: `None` where it
/// runs out of steps.
pub open spec fn opt_result_is(r: Option<Result<OutputExpr, Error>>, spec: Option<Result<SOut, Error>>) -> bool {
    match spec {
        None => r is None,
        Some(x) => r matches Some(y) && result_is(y, x),
    }
}

/// The scopes as the contracts see them: the outermost scope `root`, then the
/// scopes on `stack`, innermost last.
pub open spec fn ctx(root: SFrame, stack: Seq<Frame>) -> Seq<SFrame> {
    seq![root] + stack.map_values(|f: Frame| f.view())
}

proof fn lemma_ctx_push(root: SFrame, stack: Seq<Frame>, f: Frame)
    ensures
        ctx(root, stack.push(f)) == ctx(root, stack).push(f.view()),
{
    assert(ctx(root, stack.push(f)) =~= ctx(root, stack).push(f.view()));
}

proof fn lemma_ctx_take(root: SFrame, stack: Seq<Frame>, j: int)
    requires
        0 < j <= stack.len(),
    ensures
        ctx(root, stack.take(j)).last() == stack[j - 1].view(),
        ctx(root, stack.take(j)).drop_last() == ctx(root, stack.take(j - 1)),
        ctx(root, stack.take(j)).len() == j + 1,
{
    assert(ctx(root, stack.take(j)).drop_last() =~= ctx(root, stack.take(j - 1)));
}

fn clone_out(o: &OutputExpr) -> (r: OutputExpr)
    ensures
        out_view(r) == out_view(*o),
{
    match o {
        OutputExpr::Number(n) => OutputExpr::Number(*n),
        OutputExpr::Str(s) => OutputExpr::Str(s.clone()),
        OutputExpr::Unit => OutputExpr::Unit,
    }
}

impl Frame {
    fn find_var(&self, k: &IdentName) -> (i: usize)
        ensures
            i == find_key(self.view().vars, k@, 0),
            i <= self.vars@.len(),
    {
        let ghost m = self.view().vars;
        let mut i: usize = 0;
        while i < self.vars.len()
            invariant
                i <= self.vars@.len(),
                m == self.view().vars,
                m.len() == self.vars@.len(),
                find_key(m, k@, 0) == find_key(m, k@, i as int),
            decreases self.vars@.len() - i,
        {
            if self.vars[i].0.same(k) {
                return i;
            }
            i = i + 1;
        }
        i
    }

    fn find_func(&self, k: &IdentName) -> (i: usize)
        ensures
            i == find_key(self.view().funcs, k@, 0),
            i <= self.funcs@.len(),
    {
        let ghost m = self.view().funcs;
        let mut i: usize = 0;
        while i < self.funcs.len()
            invariant
                i <= self.funcs@.len(),
                m == self.view().funcs,
                m.len() == self.funcs@.len(),
                find_key(m, k@, 0) == find_key(m, k@, i as int),
            decreases self.funcs@.len() - i,
        {
            if self.funcs[i].0.same(k) {
                return i;
            }
            i = i + 1;
        }
        i
    }

    fn get_var(&self, k: &IdentName) -> (r: Option<OutputExpr>)
        ensures
            match map_get(self.view().vars, k@) {
                Some(v) => r matches Some(o) && out_view(o) == v,
                None => r is None,
            },
    {
        let i = self.find_var(k);
        if i < self.vars.len() {
            Some(clone_out(&self.vars[i].1))
        } else {
            None
        }
    }

    fn get_func(&self, k: &IdentName) -> (r: Option<Rc<Func>>)
        ensures
            match map_get(self.view().funcs, k@) {
                Some(f) => r matches Some(g) && func_view(*g) == f,
                None => r is None,
            },
    {
        let i = self.find_func(k);
        if i < self.funcs.len() {
            Some(rc_clone(&self.funcs[i].1))
        } else {
            None
        }
    }

    fn set_var(&mut self, k: IdentName, v: OutputExpr)
        ensures
            final(self).view() == (SFrame { vars: map_set(old(self).view().vars, k@, out_view(v)), funcs: old(self).view().funcs }),
    {
        let ghost kv = k@;
        let ghost vv = out_view(v);
        let i = self.find_var(&k);
        if i < self.vars.len() {
            self.vars.set(i, (k, v));
        } else {
            self.vars.push((k, v));
        }
        proof {
            assert(self.view().vars =~= map_set(old(self).view().vars, kv, vv));
            assert(self.view().funcs =~= old(self).view().funcs);
        }
    }

    fn set_func(&mut self, k: IdentName, f: Rc<Func>)
        ensures
            final(self).view() == (SFrame { vars: old(self).view().vars, funcs: map_set(old(self).view().funcs, k@, func_view(*f)) }),
    {
        let ghost kv = k@;
        let ghost fv = shared_func_view(&f);
        let i = self.find_func(&k);
        if i < self.funcs.len() {
            self.funcs.set(i, (k, f));
        } else {
            self.funcs.push((k, f));
        }
        proof {
            assert(self.view().funcs =~= map_set(old(self).view().funcs, kv, fv));
            assert(self.view().vars =~= old(self).view().vars);
        }
    }
}

fn lookup_var_exec(root: &Frame, stack: &Vec<Frame>, k: &IdentName) -> (r: Option<OutputExpr>)
    ensures
        match lookup_var(ctx(root.view(), stack@), k@) {
            Some(v) => r matches Some(o) && out_view(o) == v,
            None => r is None,
        },
{
    let mut j = stack.len();
    proof {
        assert(stack@.take(j as int) =~= stack@);
    }
    while j > 0
        invariant
            j <= stack@.len(),
            lookup_var(ctx(root.view(), stack@), k@) == lookup_var(ctx(root.view(), stack@.take(j as int)), k@),
        decreases j,
    {
        proof {
            lemma_ctx_take(root.view(), stack@, j as int);
        }
        match stack[j - 1].get_var(k) {
            Some(o) => {
                return Some(o);
            },
            None => {},
        }
        j = j - 1;
    }
    proof {
        assert(ctx(root.view(), stack@.take(0)) =~= seq![root.view()]);
        assert(seq![root.view()].drop_last() =~= Seq::<SFrame>::empty());
        assert(seq![root.view()].last() == root.view());
        assert(lookup_var(Seq::<SFrame>::empty(), k@) is None);
        assert(lookup_var(ctx(root.view(), stack@), k@) == lookup_var(seq![root.view()], k@));
    }
    root.get_var(k)
}

fn lookup_func_exec(root: &Frame, stack: &Vec<Frame>, k: &IdentName) -> (r: Option<Rc<Func>>)
    ensures
        match lookup_func(ctx(root.view(), stack@), k@) {
            Some(f) => r matches Some(g) && func_view(*g) == f,
            None => r is None,
        },
{
    let mut j = stack.len();
    proof {
        assert(stack@.take(j as int) =~= stack@);
    }
    while j > 0
        invariant
            j <= stack@.len(),
            lookup_func(ctx(root.view(), stack@), k@) == lookup_func(ctx(root.view(), stack@.take(j as int)), k@),
        decreases j,
    {
        proof {
            lemma_ctx_take(root.view(), stack@, j as int);
        }
        match stack[j - 1].get_func(k) {
            Some(f) => {
                return Some(f);
            },
            None => {},
        }
        j = j - 1;
    }
    proof {
        assert(ctx(root.view(), stack@.take(0)) =~= seq![root.view()]);
        assert(seq![root.view()].drop_last() =~= Seq::<SFrame>::empty());
        assert(seq![root.view()].last() == root.view());
        assert(lookup_func(Seq::<SFrame>::empty(), k@) is None);
        assert(lookup_func(ctx(root.view(), stack@), k@) == lookup_func(seq![root.view()], k@));
    }
    root.get_func(k)
}

/// The stack has the same scopes below its top one.
pub open spec fn same_below_top(a: Seq<Frame>, b: Seq<Frame>) -> bool {
    &&& a.len() == b.len()
    &&& forall|j: int| 0 <= j < a.len() - 1 ==> a[j] == b[j]
}

fn set_var_exec(root: &Frame, stack: &mut Vec<Frame>, k: IdentName, v: OutputExpr)
    requires
        old(stack)@.len() > 0,
    ensures
        ctx(root.view(), final(stack)@) == set_var(ctx(root.view(), old(stack)@), k@, out_view(v)),
        same_below_top(final(stack)@, old(stack)@),
{
    let ghost st = ctx(root.view(), stack@);
    let mut top = stack.pop().unwrap();
    let ghost below = stack@;
    top.set_var(k, v);
    stack.push(top);
    proof {
        lemma_ctx_push(root.view(), below, top);
        lemma_ctx_push(root.view(), below, old(stack)@.last());
        assert(old(stack)@ =~= below.push(old(stack)@.last()));
        assert(ctx(root.view(), stack@) =~= set_var(st, k@, out_view(v)));
    }
}

fn set_func_exec(root: &Frame, stack: &mut Vec<Frame>, k: IdentName, f: Rc<Func>)
    requires
        old(stack)@.len() > 0,
    ensures
        ctx(root.view(), final(stack)@) == set_func(ctx(root.view(), old(stack)@), k@, func_view(*f)),
        same_below_top(final(stack)@, old(stack)@),
{
    let ghost st = ctx(root.view(), stack@);
    let ghost fv = shared_func_view(&f);
    let mut top = stack.pop().unwrap();
    let ghost below = stack@;
    top.set_func(k, f);
    stack.push(top);
    proof {
        lemma_ctx_push(root.view(), below, top);
        lemma_ctx_push(root.view(), below, old(stack)@.last());
        assert(old(stack)@ =~= below.push(old(stack)@.last()));
        assert(ctx(root.view(), stack@) =~= set_func(st, k@, fv));
    }
}

/// Evaluates `e` in the scopes `root` and `stack`, which it leaves as they
/// were, with at most `fuel` nested steps; `None` where that is not enough.
pub(crate) fn eval_expr_exec(e: &Expr, root: &Frame, stack: &mut Vec<Frame>, fuel: u64) -> (r: Option<Result<OutputExpr, Error>>)
    ensures
        final(stack)@ == old(stack)@,
        opt_result_is(r, eval_expr(expr_view(*e), ctx(root.view(), old(stack)@), fuel as nat)),
    decreases fuel, 0nat, 0nat,
{
    if fuel == 0 {
        return None;
    }
    match e {
        Expr::Number(n) => Some(Ok(OutputExpr::Number(*n))),
        Expr::Str(s) => Some(Ok(OutputExpr::Str(s.clone()))),
        Expr::Block(items) => {
            let ghost st0 = ctx(root.view(), stack@);
            let ghost s0 = stack@;
            let f = Frame::new();
            stack.push(f);
            proof {
                lemma_ctx_push(root.view(), s0, f);
            }
            let r = eval_block_exec(items, root, stack, fuel - 1);
            stack.pop();
            proof {
                assert(stack@ =~= s0);
            }
            r
        },
        Expr::Var(n) => match lookup_var_exec(root, stack, n) {
            Some(v) => Some(Ok(v)),
            None => Some(Err(Error::VarNotFound)),
        },
        Expr::FuncCall { name, params } => match lookup_func_exec(root, stack, name) {
            None => Some(Err(Error::FuncNotFound)),
            Some(f) => eval_call_exec(&*f, params, root, stack, fuel - 1),
        },
    }
}

fn eval_block_exec(items: &Vec<Item>, root: &Frame, stack: &mut Vec<Frame>, fuel: u64) -> (r: Option<Result<OutputExpr, Error>>)
    requires
        old(stack)@.len() > 0,
    ensures
        same_below_top(final(stack)@, old(stack)@),
        opt_result_is(r, eval_block(items_view(items@), 0, ctx(root.view(), old(stack)@), fuel as nat)),
    decreases fuel, 2nat, 0nat,
{
    let ghost iv = items_view(items@);
    let ghost whole = eval_block(iv, 0, ctx(root.view(), stack@), fuel as nat);
    proof {
        lemma_items_view(items@);
    }
    let mut i: usize = 0;
    while i < items.len()
        invariant
            i <= items@.len(),
            iv == items_view(items@),
            iv.len() == items@.len(),
            forall|k: int| 0 <= k < items@.len() ==> #[trigger] iv[k] == item_view(items@[k]),
            stack@.len() > 0,
            same_below_top(stack@, old(stack)@),
            whole == eval_block(iv, i as int, ctx(root.view(), stack@), fuel as nat),
            whole == eval_block(items_view(items@), 0, ctx(root.view(), old(stack)@), fuel as nat),
        decreases items@.len() - i,
    {
        let ghost st = ctx(root.view(), stack@);
        let ghost prev = stack@;
        let r = eval_item_exec(&items[i], root, stack, fuel);
        match r {
            None => {
                return None;
            },
            Some(Err(x)) => {
                return Some(Err(x));
            },
            Some(Ok(OutputExpr::Unit)) => {},
            Some(Ok(v)) => {
                return Some(Ok(v));
            },
        }
        proof {
            assert forall|j: int| 0 <= j < stack@.len() - 1 implies stack@[j] == old(stack)@[j] by {
                assert(stack@[j] == prev[j]);
            }
        }
        i = i + 1;
    }
    Some(Ok(OutputExpr::Unit))
}

fn eval_item_exec(it: &Item, root: &Frame, stack: &mut Vec<Frame>, fuel: u64) -> (r: Option<Result<OutputExpr, Error>>)
    requires
        old(stack)@.len() > 0,
    ensures
        same_below_top(final(stack)@, old(stack)@),
        match eval_item(item_view(*it), ctx(root.view(), old(stack)@), fuel as nat) {
            None => r is None,
            Some((res, st2)) => r is Some && result_is(r->Some_0, res) && ctx(root.view(), final(stack)@) == st2,
        },
    decreases fuel, 1nat, 0nat,
{
    match it {
        Item::Expr(e) => eval_expr_exec(e, root, stack, fuel),
        Item::Binding { name, val } => match val {
            BindingVal::Var(e) => match eval_expr_exec(e, root, stack, fuel) {
                None => None,
                Some(Err(x)) => Some(Err(x)),
                Some(Ok(v)) => {
                    set_var_exec(root, stack, name.duplicate(), v);
                    Some(Ok(OutputExpr::Unit))
                },
            },
            BindingVal::Func(f) => {
                set_func_exec(root, stack, name.duplicate(), rc_clone(f));
                Some(Ok(OutputExpr::Unit))
            },
        },
    }
}

/// The named and the positional parameters of a call, apart.
fn split_params(params: &Vec<CallParam>) -> (r: (Vec<(&IdentName, &Expr)>, Vec<&Expr>))
    ensures
        r.0@.map_values(|p: (&IdentName, &Expr)| (p.0@, expr_view(*p.1))) == named_params(call_params_view(params@)),
        r.1@.map_values(|e: &Expr| expr_view(*e)) == positional_params(call_params_view(params@)),
{
    let mut named: Vec<(&IdentName, &Expr)> = Vec::new();
    let mut positional: Vec<&Expr> = Vec::new();
    let ghost pv = call_params_view(params@);
    proof {
        lemma_call_params_view(params@);
    }
    let mut k: usize = 0;
    while k < params.len()
        invariant
            k <= params@.len(),
            pv == call_params_view(params@),
            pv.len() == params@.len(),
            forall|j: int| 0 <= j < params@.len() ==> #[trigger] pv[j] == call_param_view(params@[j]),
            named@.map_values(|p: (&IdentName, &Expr)| (p.0@, expr_view(*p.1))) == named_params(pv.take(k as int)),
            positional@.map_values(|e: &Expr| expr_view(*e)) == positional_params(pv.take(k as int)),
        decreases params@.len() - k,
    {
        proof {
            assert(pv.take(k + 1).drop_last() =~= pv.take(k as int));
            assert(pv.take(k + 1).last() == pv[k as int]);
        }
        match &params[k] {
            CallParam::Named { name, val } => {
                let ghost before = named@;
                named.push((name, val));
                proof {
                    assert(named@.map_values(|p: (&IdentName, &Expr)| (p.0@, expr_view(*p.1))) =~= before.map_values(|p: (&IdentName, &Expr)| (p.0@, expr_view(*p.1))).push((name@, expr_view(*val))));
                }
            },
            CallParam::Positional { val } => {
                let ghost before = positional@;
                positional.push(val);
                proof {
                    assert(positional@.map_values(|e: &Expr| expr_view(*e)) =~= before.map_values(|e: &Expr| expr_view(*e)).push(expr_view(*val)));
                }
            },
        }
        k = k + 1;
    }
    proof {
        assert(pv.take(params@.len() as int) =~= pv);
    }
    (named, positional)
}

pub open spec fn defs_view(v: Seq<&DefParam>) -> Seq<SDefParam> {
    v.map_values(|d: &DefParam| def_param_view(*d))
}

fn find_def_exec(defs: &Vec<&DefParam>, n: &IdentName) -> (i: usize)
    ensures
        i == find_def(defs_view(defs@), n@, 0),
        i <= defs@.len(),
{
    let mut i: usize = 0;
    while i < defs.len()
        invariant
            i <= defs@.len(),
            find_def(defs_view(defs@), n@, 0) == find_def(defs_view(defs@), n@, i as int),
        decreases defs@.len() - i,
    {
        if defs[i].name.same(n) {
            return i;
        }
        i = i + 1;
    }
    i
}

pub(crate) fn eval_call_exec(f: &Func, params: &Vec<CallParam>, root: &Frame, stack: &mut Vec<Frame>, fuel: u64) -> (r: Option<Result<OutputExpr, Error>>)
    ensures
        final(stack)@ == old(stack)@,
        opt_result_is(r, eval_call(func_view(*f), call_params_view(params@), ctx(root.view(), old(stack)@), fuel as nat)),
    decreases fuel, 3nat, 0nat,
{
    let ghost fv = func_view(*f);
    let ghost pv = call_params_view(params@);
    let ghost st0 = ctx(root.view(), stack@);
    let ghost s0 = stack@;
    let ghost whole = eval_call(fv, pv, st0, fuel as nat);
    let (named, positional) = split_params(params);
    let ghost nv = named_params(pv);
    let ghost posv = positional_params(pv);
    let mut defs: Vec<&DefParam> = Vec::new();
    proof {
        lemma_def_params_view(f.params@);
    }
    let mut k: usize = 0;
    while k < f.params.len()
        invariant
            k <= f.params@.len(),
            defs@.len() == k,
            forall|j: int| 0 <= j < k ==> *(#[trigger] defs@[j]) == f.params@[j],
        decreases f.params@.len() - k,
    {
        defs.push(&f.params[k]);
        k = k + 1;
    }
    proof {
        assert(defs_view(defs@) =~= fv.params);
    }
    let fr = Frame::new();
    stack.push(fr);
    proof {
        lemma_ctx_push(root.view(), s0, fr);
    }
    let ghost st1 = ctx(root.view(), stack@);
    let ghost bound = bind_named(nv, 0, fv.params, st1, fuel as nat);
    proof {
        assert(st1 == st0.push(empty_frame()));
    }
    // Named parameters.
    let mut i: usize = 0;
    while i < named.len()
        invariant
            i <= named@.len(),
            named@.map_values(|p: (&IdentName, &Expr)| (p.0@, expr_view(*p.1))) == nv,
            stack@.len() == s0.len() + 1,
            forall|j: int| 0 <= j < s0.len() ==> stack@[j] == s0[j],
            bound == bind_named(nv, i as int, defs_view(defs@), ctx(root.view(), stack@), fuel as nat),
            s0 == old(stack)@,
            st0 == ctx(root.view(), s0),
            whole == eval_call(fv, pv, st0, fuel as nat),
            fv == func_view(*f),
            pv == call_params_view(params@),
            nv == named_params(pv),
            posv == positional_params(pv),
            bound == bind_named(nv, 0, fv.params, st0.push(empty_frame()), fuel as nat),
        decreases named@.len() - i,
    {
        let (name, e) = named[i];
        proof {
            assert(nv[i as int] == (name@, expr_view(*e)));
        }
        let idx = find_def_exec(&defs, name);
        if idx >= defs.len() {
            stack.pop();
            proof {
                assert(stack@ =~= s0);
                assert(bound == Some(Err::<(Seq<SDefParam>, Seq<SFrame>), Error>(Error::FuncParamNotFound)));
                assert(whole == Some(Err::<SOut, Error>(Error::FuncParamNotFound)));
            }
            return Some(Err(Error::FuncParamNotFound));
        }
        let ghost prev = stack@;
        match eval_expr_exec(e, root, stack, fuel) {
            None => {
                stack.pop();
                proof {
                    assert(stack@ =~= s0);
                }
                return None;
            },
            Some(Err(x)) => {
                stack.pop();
                proof {
                    assert(stack@ =~= s0);
                }
                return Some(Err(x));
            },
            Some(Ok(v)) => {
                set_var_exec(root, stack, name.duplicate(), v);
            },
        }
        let ghost dv = defs_view(defs@);
        defs.remove(idx);
        proof {
            assert(defs_view(defs@) =~= dv.remove(idx as int));
        }
        i = i + 1;
    }
    let plen = positional.len();
    if plen > defs.len() {
        stack.pop();
        proof {
            assert(stack@ =~= s0);
        }
        return Some(Err(Error::FuncParamError(ParamsError::TooManyFuncParams)));
    }
    let ghost defs_left = defs_view(defs@);
    let ghost st_named = ctx(root.view(), stack@);
    let ghost bound_pos = bind_positional(posv, defs_left, 0, st_named, fuel as nat);
    proof {
        assert(bound == Some(Ok::<(Seq<SDefParam>, Seq<SFrame>), Error>((defs_left, st_named))));
    }
    // Positional parameters.
    let mut i: usize = 0;
    while i < plen
        invariant
            i <= plen,
            plen == positional@.len(),
            plen <= defs@.len(),
            positional@.map_values(|e: &Expr| expr_view(*e)) == posv,
            defs_view(defs@) == defs_left,
            stack@.len() == s0.len() + 1,
            forall|j: int| 0 <= j < s0.len() ==> stack@[j] == s0[j],
            bound_pos == bind_positional(posv, defs_left, i as int, ctx(root.view(), stack@), fuel as nat),
            s0 == old(stack)@,
            st0 == ctx(root.view(), s0),
            whole == eval_call(fv, pv, st0, fuel as nat),
            fv == func_view(*f),
            pv == call_params_view(params@),
            nv == named_params(pv),
            posv == positional_params(pv),
            bound == bind_named(nv, 0, fv.params, st0.push(empty_frame()), fuel as nat),
            bound == Some(Ok::<(Seq<SDefParam>, Seq<SFrame>), Error>((defs_left, st_named))),
            bound_pos == bind_positional(posv, defs_left, 0, st_named, fuel as nat),
        decreases plen - i,
    {
        let e = positional[i];
        proof {
            assert(posv[i as int] == expr_view(*e));
            assert(defs_left[i as int] == def_param_view(*defs@[i as int]));
        }
        match eval_expr_exec(e, root, stack, fuel) {
            None => {
                stack.pop();
                proof {
                    assert(stack@ =~= s0);
                }
                return None;
            },
            Some(Err(x)) => {
                stack.pop();
                proof {
                    assert(stack@ =~= s0);
                }
                return Some(Err(x));
            },
            Some(Ok(v)) => {
                set_var_exec(root, stack, defs[i].name.duplicate(), v);
            },
        }
        i = i + 1;
    }
    let ghost st_pos = ctx(root.view(), stack@);
    proof {
        assert(bound_pos == Some(Ok::<Seq<SFrame>, Error>(st_pos)));
    }
    if plen < defs.len() {
        let ghost bound_def = bind_defaults(defs_left, plen as int, st_pos, fuel as nat);
        // Default values.
        let mut j: usize = plen;
        while j < defs.len()
            invariant
                plen <= j <= defs@.len(),
                defs_view(defs@) == defs_left,
                stack@.len() == s0.len() + 1,
                forall|m: int| 0 <= m < s0.len() ==> stack@[m] == s0[m],
                bound_def == bind_defaults(defs_left, j as int, ctx(root.view(), stack@), fuel as nat),
                plen == positional@.len(),
                positional@.map_values(|e: &Expr| expr_view(*e)) == posv,
                s0 == old(stack)@,
                st0 == ctx(root.view(), s0),
                whole == eval_call(fv, pv, st0, fuel as nat),
                fv == func_view(*f),
                pv == call_params_view(params@),
            fv == func_view(*f),
            pv == call_params_view(params@),
                nv == named_params(pv),
                posv == positional_params(pv),
                bound == bind_named(nv, 0, fv.params, st0.push(empty_frame()), fuel as nat),
                bound == Some(Ok::<(Seq<SDefParam>, Seq<SFrame>), Error>((defs_left, st_named))),
                bound_pos == bind_positional(posv, defs_left, 0, st_named, fuel as nat),
                bound_pos == Some(Ok::<Seq<SFrame>, Error>(st_pos)),
                bound_def == bind_defaults(defs_left, plen as int, st_pos, fuel as nat),
            decreases defs@.len() - j,
        {
            let d = defs[j];
            proof {
                assert(defs_left[j as int] == def_param_view(*d));
            }
            match &d.val {
                None => {},
                Some(e) => {
                    match eval_expr_exec(e, root, stack, fuel) {
                        None => {
                            stack.pop();
                            proof {
                                assert(stack@ =~= s0);
                            }
                            return None;
                        },
                        Some(Err(x)) => {
                            stack.pop();
                            proof {
                                assert(stack@ =~= s0);
                            }
                            return Some(Err(x));
                        },
                        Some(Ok(v)) => {
                            set_var_exec(root, stack, d.name.duplicate(), v);
                        },
                    }
                },
            }
            j = j + 1;
        }
        proof {
            assert(bound_def == Some(Ok::<Seq<SFrame>, Error>(ctx(root.view(), stack@))));
        }
        // A parameter left without a value.
        let mut m: usize = plen;
        while m < defs.len()
            invariant
                plen <= m <= defs@.len(),
                defs_view(defs@) == defs_left,
                forall|q: int| plen <= q < m ==> (#[trigger] defs_left[q]).val is Some,
                stack@.len() == s0.len() + 1,
                forall|q: int| 0 <= q < s0.len() ==> stack@[q] == s0[q],
                plen == positional@.len(),
                positional@.map_values(|e: &Expr| expr_view(*e)) == posv,
                s0 == old(stack)@,
                st0 == ctx(root.view(), s0),
                whole == eval_call(fv, pv, st0, fuel as nat),
                fv == func_view(*f),
                pv == call_params_view(params@),
            fv == func_view(*f),
            pv == call_params_view(params@),
                nv == named_params(pv),
                posv == positional_params(pv),
                bound == bind_named(nv, 0, fv.params, st0.push(empty_frame()), fuel as nat),
                bound == Some(Ok::<(Seq<SDefParam>, Seq<SFrame>), Error>((defs_left, st_named))),
                bound_pos == bind_positional(posv, defs_left, 0, st_named, fuel as nat),
                bound_pos == Some(Ok::<Seq<SFrame>, Error>(st_pos)),
                bind_defaults(defs_left, plen as int, st_pos, fuel as nat) == Some(Ok::<Seq<SFrame>, Error>(ctx(root.view(), stack@))),
            decreases defs@.len() - m,
        {
            proof {
                assert(defs_left[m as int] == def_param_view(*defs@[m as int]));
            }
            if defs[m].val.is_none() {
                stack.pop();
                proof {
                    assert(stack@ =~= s0);
                    assert(has_required(defs_left, plen as int));
                }
                return Some(Err(Error::FuncParamError(ParamsError::NotEnoughFuncParams)));
            }
            m = m + 1;
        }
    }
    let r = eval_expr_exec(&f.body, root, stack, fuel);
    stack.pop();
    proof {
        assert(stack@ =~= s0);
    }
    r
}

} // verus!
