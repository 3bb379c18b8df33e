//! The syntax tree of Fjord scripts: expressions, items (bindings and bare
//! expressions), functions and their parameters; beside each type, the value
//! that the contracts see it as.

use vstd::prelude::*;
use crate::ident_name::IdentName;
use std::rc::Rc;

verus! {

/// An expression.
#[derive(Debug, PartialEq)]
pub enum Expr {
    Number(i32),
    Str(String),
    Block(Vec<Item>),
    Var(IdentName),
    FuncCall { name: IdentName, params: Vec<CallParam> },
}

/// A parameter of a function call: named (`name=value`) or positional.
#[derive(Debug, PartialEq)]
pub enum CallParam {
    Named { name: IdentName, val: Expr },
    Positional { val: Expr },
}

/// A parameter of a function definition, with its default value if it has one.
#[derive(Debug, PartialEq)]
pub struct DefParam {
    pub name: IdentName,
    pub val: Option<Expr>,
}

/// A function: its parameters and the expression that is its body.
#[derive(Debug, PartialEq)]
pub struct Func {
    pub params: Vec<DefParam>,
    pub body: Expr,
}

/// An item of a block: a binding of a name, or an expression.
#[derive(Debug, PartialEq)]
pub enum Item {
    Expr(Expr),
    Binding { name: IdentName, val: BindingVal },
}

/// What a binding binds a name to: a value or a function.
#[derive(Debug, PartialEq)]
pub enum BindingVal {
    Var(Expr),
    Func(Rc<Func>),
}

/// An expression as the contracts see it.
pub enum SExpr {
    Number(i32),
    Str(Seq<char>),
    Block(Seq<SItem>),
    Var(Seq<char>),
    FuncCall(Seq<char>, Seq<SCallParam>),
}

pub enum SCallParam {
    Named(Seq<char>, SExpr),
    Positional(SExpr),
}

pub struct SDefParam {
    pub name: Seq<char>,
    pub val: Option<SExpr>,
}

pub struct SFunc {
    pub params: Seq<SDefParam>,
    pub body: SExpr,
}

pub enum SItem {
    Expr(SExpr),
    Binding(Seq<char>, SBindingVal),
}

pub enum SBindingVal {
    Var(SExpr),
    Func(SFunc),
}

pub open spec fn expr_view(e: Expr) -> SExpr
    decreases e, 0nat,
{
    match e {
        Expr::Number(n) => SExpr::Number(n),
        Expr::Str(s) => SExpr::Str(s@),
        Expr::Block(items) => SExpr::Block(items_view(items@)),
        Expr::Var(n) => SExpr::Var(n@),
        Expr::FuncCall { name, params } => SExpr::FuncCall(name@, call_params_view(params@)),
    }
}

pub open spec fn items_view(items: Seq<Item>) -> Seq<SItem>
    decreases items, 0nat,
{
    if items.len() == 0 {
        Seq::empty()
    } else {
        items_view(items.drop_last()).push(item_view(items.last()))
    }
}

pub open spec fn item_view(it: Item) -> SItem
    decreases it, 0nat,
{
    match it {
        Item::Expr(e) => SItem::Expr(expr_view(e)),
        Item::Binding { name, val } => SItem::Binding(name@, match val {
            BindingVal::Var(e) => SBindingVal::Var(expr_view(e)),
            BindingVal::Func(f) => SBindingVal::Func(func_view(*f)),
        }),
    }
}

pub open spec fn binding_val_view(b: BindingVal) -> SBindingVal {
    match b {
        BindingVal::Var(e) => SBindingVal::Var(expr_view(e)),
        BindingVal::Func(f) => SBindingVal::Func(func_view(*f)),
    }
}

pub open spec fn func_view(f: Func) -> SFunc
    decreases f, 0nat,
{
    SFunc { params: def_params_view(f.params@), body: expr_view(f.body) }
}

pub open spec fn def_params_view(ps: Seq<DefParam>) -> Seq<SDefParam>
    decreases ps, 0nat,
{
    if ps.len() == 0 {
        Seq::empty()
    } else {
        def_params_view(ps.drop_last()).push(def_param_view(ps.last()))
    }
}

pub open spec fn def_param_view(p: DefParam) -> SDefParam
    decreases p, 0nat,
{
    SDefParam {
        name: p.name@,
        val: match p.val {
            Some(e) => Some(expr_view(e)),
            None => None,
        },
    }
}

pub open spec fn call_params_view(ps: Seq<CallParam>) -> Seq<SCallParam>
    decreases ps, 0nat,
{
    if ps.len() == 0 {
        Seq::empty()
    } else {
        call_params_view(ps.drop_last()).push(call_param_view(ps.last()))
    }
}

pub open spec fn call_param_view(p: CallParam) -> SCallParam
    decreases p, 0nat,
{
    match p {
        CallParam::Named { name, val } => SCallParam::Named(name@, expr_view(val)),
        CallParam::Positional { val } => SCallParam::Positional(expr_view(val)),
    }
}

pub proof fn lemma_items_view(v: Seq<Item>)
    ensures
        items_view(v).len() == v.len(),
        forall|k: int| 0 <= k < v.len() ==> #[trigger] items_view(v)[k] == item_view(v[k]),
    decreases v.len(),
{
    if v.len() > 0 {
        lemma_items_view(v.drop_last());
    }
}

pub proof fn lemma_call_params_view(v: Seq<CallParam>)
    ensures
        call_params_view(v).len() == v.len(),
        forall|k: int| 0 <= k < v.len() ==> #[trigger] call_params_view(v)[k] == call_param_view(v[k]),
    decreases v.len(),
{
    if v.len() > 0 {
        lemma_call_params_view(v.drop_last());
    }
}

pub proof fn lemma_def_params_view(v: Seq<DefParam>)
    ensures
        def_params_view(v).len() == v.len(),
        forall|k: int| 0 <= k < v.len() ==> #[trigger] def_params_view(v)[k] == def_param_view(v[k]),
    decreases v.len(),
{
    if v.len() > 0 {
        lemma_def_params_view(v.drop_last());
    }
}

} // verus!
