//! Reads Fjord scripts into syntax trees, rule by rule as the grammar says.

use vstd::prelude::*;
use crate::ident_name::{IdentName, alnum_run, lemma_alnum_run};
use crate::script_ast::{
    Expr, CallParam, DefParam, Func, Item, BindingVal, SExpr, SCallParam, SDefParam, SFunc, SItem,
    SBindingVal, expr_view, items_view, item_view, func_view, def_params_view, def_param_view,
    call_params_view, call_param_view, binding_val_view, lemma_items_view, lemma_call_params_view, lemma_def_params_view,
};
use crate::script_grammar::{
    Parsed, is_ascii_ws, is_ascii_digit, ws_run, digit_run, quote_at_or_after, digits_value,
    read_ident, read_number, read_str, read_expr, read_var_or_call, read_call_params,
    read_call_param, read_item_list, read_more_items, read_item, read_binding, read_binding_val,
    read_func, read_def_params, read_def_param, lemma_ws_run, lemma_digit_run, lemma_quote,
};
use crate::text::string_of_range;
use std::rc::Rc;

verus! {

/// Why reading failed: nothing of the kind was there, or a number literal was
/// too large for an `i32`.
#[derive(Debug, Clone, Copy, PartialEq, Eq)]
pub enum ParseError {
    NoMatch,
    Overflow,
}

pub open spec fn expr_res(r: Result<(Expr, usize), ParseError>, p: Parsed<SExpr>) -> bool {
    match p {
        Parsed::Done(e, j) => r matches Ok((x, k)) && expr_view(x) == e && k == j,
        Parsed::NoMatch => r matches Err(ParseError::NoMatch),
        Parsed::Overflow => r matches Err(ParseError::Overflow),
    }
}

pub open spec fn items_res(r: Result<(Vec<Item>, usize), ParseError>, p: Parsed<Seq<SItem>>) -> bool {
    match p {
        Parsed::Done(e, j) => r matches Ok((x, k)) && items_view(x@) == e && k == j,
        Parsed::NoMatch => r matches Err(ParseError::NoMatch),
        Parsed::Overflow => r matches Err(ParseError::Overflow),
    }
}

pub open spec fn item_res(r: Result<(Item, usize), ParseError>, p: Parsed<SItem>) -> bool {
    match p {
        Parsed::Done(e, j) => r matches Ok((x, k)) && item_view(x) == e && k == j,
        Parsed::NoMatch => r matches Err(ParseError::NoMatch),
        Parsed::Overflow => r matches Err(ParseError::Overflow),
    }
}

pub open spec fn call_params_res(r: Result<(Vec<CallParam>, usize), ParseError>, p: Parsed<Seq<SCallParam>>) -> bool {
    match p {
        Parsed::Done(e, j) => r matches Ok((x, k)) && call_params_view(x@) == e && k == j,
        Parsed::NoMatch => r matches Err(ParseError::NoMatch),
        Parsed::Overflow => r matches Err(ParseError::Overflow),
    }
}

pub open spec fn call_param_res(r: Result<(CallParam, usize), ParseError>, p: Parsed<SCallParam>) -> bool {
    match p {
        Parsed::Done(e, j) => r matches Ok((x, k)) && call_param_view(x) == e && k == j,
        Parsed::NoMatch => r matches Err(ParseError::NoMatch),
        Parsed::Overflow => r matches Err(ParseError::Overflow),
    }
}

pub open spec fn def_params_res(r: Result<(Vec<DefParam>, usize), ParseError>, p: Parsed<Seq<SDefParam>>) -> bool {
    match p {
        Parsed::Done(e, j) => r matches Ok((x, k)) && def_params_view(x@) == e && k == j,
        Parsed::NoMatch => r matches Err(ParseError::NoMatch),
        Parsed::Overflow => r matches Err(ParseError::Overflow),
    }
}

pub open spec fn def_param_res(r: Result<(DefParam, usize), ParseError>, p: Parsed<SDefParam>) -> bool {
    match p {
        Parsed::Done(e, j) => r matches Ok((x, k)) && def_param_view(x) == e && k == j,
        Parsed::NoMatch => r matches Err(ParseError::NoMatch),
        Parsed::Overflow => r matches Err(ParseError::Overflow),
    }
}

pub open spec fn func_res(r: Result<(Func, usize), ParseError>, p: Parsed<SFunc>) -> bool {
    match p {
        Parsed::Done(e, j) => r matches Ok((x, k)) && func_view(x) == e && k == j,
        Parsed::NoMatch => r matches Err(ParseError::NoMatch),
        Parsed::Overflow => r matches Err(ParseError::Overflow),
    }
}

pub open spec fn binding_val_res(r: Result<(BindingVal, usize), ParseError>, p: Parsed<SBindingVal>) -> bool {
    match p {
        Parsed::Done(e, j) => r matches Ok((x, k)) && binding_val_view(x) == e && k == j,
        Parsed::NoMatch => r matches Err(ParseError::NoMatch),
        Parsed::Overflow => r matches Err(ParseError::Overflow),
    }
}

/// Puts `x` in front of `v`.
pub(crate) fn prepend<T>(x: T, v: Vec<T>) -> (r: Vec<T>)
    ensures
        r@ == seq![x] + v@,
{
    let ghost rest = v@;
    let mut v = v;
    v.insert(0, x);
    proof {
        assert(v@ =~= seq![x] + rest);
    }
    v
}

pub(crate) fn ws_count(s: &Vec<char>, i: usize) -> (n: usize)
    requires
        i <= s@.len(),
    ensures
        n == ws_run(s@, i as int),
        i + n <= s.len(),
{
    proof {
        lemma_ws_run(s@, i as int);
    }
    let mut j = i;
    while j < s.len() && (s[j] == ' ' || s[j] == '\t' || s[j] == '\n' || s[j] == '\x0C' || s[j] == '\r')
        invariant
            i <= j <= s@.len(),
            ws_run(s@, i as int) == (j - i) + ws_run(s@, j as int),
        decreases s@.len() - j,
    {
        j = j + 1;
    }
    j - i
}

pub(crate) fn parse_ident(s: &Vec<char>, i: usize) -> (r: Option<(IdentName, usize)>)
    requires
        i <= s@.len(),
    ensures
        match read_ident(s@, i as int) {
            Parsed::Done(n, j) => r matches Some((x, k)) && x@ == n && k == j && i < k <= s@.len(),
            _ => r is None,
        },
{
    if i < s.len() && 'a' <= s[i] && s[i] <= 'z' {
        proof {
            lemma_alnum_run(s@, i as int);
        }
        let mut j = i;
        while j < s.len() && (('a' <= s[j] && s[j] <= 'z') || ('A' <= s[j] && s[j] <= 'Z') || ('0' <= s[j] && s[j] <= '9'))
            invariant
                i <= j <= s@.len(),
                alnum_run(s@, i as int) == (j - i) + alnum_run(s@, j as int),
            decreases s@.len() - j,
        {
            j = j + 1;
        }
        Some((IdentName::from_range(s, i, j), j))
    } else {
        None
    }
}

proof fn lemma_digits_value_step(s: Seq<char>, i: int, k: int)
    requires
        0 <= i <= i + k < s.len(),
    ensures
        digits_value(s.subrange(i, i + k + 1)) == digits_value(s.subrange(i, i + k)) * 10 + (s[i + k] as int - '0' as int),
{
    assert(s.subrange(i, i + k + 1).drop_last() =~= s.subrange(i, i + k));
}

proof fn lemma_digits_value_grows(s: Seq<char>, i: int, k: int, n: int)
    requires
        0 <= i,
        0 <= k <= n,
        i + n <= s.len(),
        forall|m: int| i <= m < i + n ==> is_ascii_digit(#[trigger] s[m]),
    ensures
        0 <= digits_value(s.subrange(i, i + k)) <= digits_value(s.subrange(i, i + n)),
    decreases n,
{
    if n == 0 {
        assert(s.subrange(i, i) =~= Seq::<char>::empty());
    } else if k == n {
        lemma_digits_value_grows(s, i, k - 1, n - 1);
        lemma_digits_value_step(s, i, n - 1);
    } else {
        lemma_digits_value_grows(s, i, k, n - 1);
        lemma_digits_value_grows(s, i, n - 1, n - 1);
        lemma_digits_value_step(s, i, n - 1);
        assert(is_ascii_digit(s[i + n - 1]));
    }
}

pub(crate) fn parse_number(s: &Vec<char>, i: usize) -> (r: Result<(Expr, usize), ParseError>)
    requires
        i <= s@.len(),
    ensures
        expr_res(r, read_number(s@, i as int)),
        r matches Ok((_, j)) ==> j <= s.len(),
{
    proof {
        lemma_digit_run(s@, i as int);
    }
    let mut n = i;
    while n < s.len() && '0' <= s[n] && s[n] <= '9'
        invariant
            i <= n <= s@.len(),
            digit_run(s@, i as int) == (n - i) + digit_run(s@, n as int),
        decreases s@.len() - n,
    {
        n = n + 1;
    }
    let n = n - i;
    if n == 0 {
        return Err(ParseError::NoMatch);
    }
    let mut v: i64 = 0;
    let mut k: usize = 0;
    proof {
        assert(s@.subrange(i as int, i as int) =~= Seq::<char>::empty());
    }
    while k < n
        invariant
            k <= n,
            n == digit_run(s@, i as int),
            i + n <= s.len(),
            forall|m: int| i <= m < i + n ==> is_ascii_digit(#[trigger] s@[m]),
            v == digits_value(s@.subrange(i as int, i + k)),
            0 <= v <= i32::MAX,
        decreases n - k,
    {
        let c = s[i + k];
        proof {
            assert(is_ascii_digit(s@[i + k]));
            lemma_digits_value_step(s@, i as int, k as int);
        }
        let d = (c as u32 - '0' as u32) as i64;
        v = v * 10 + d;
        if v > 2147483647 {
            proof {
                lemma_digits_value_grows(s@, i as int, k + 1, n as int);
            }
            return Err(ParseError::Overflow);
        }
        k = k + 1;
    }
    Ok((Expr::Number(v as i32), i + n))
}

fn parse_str(s: &Vec<char>, i: usize) -> (r: Result<(Expr, usize), ParseError>)
    requires
        i <= s@.len(),
    ensures
        expr_res(r, read_str(s@, i as int)),
        r matches Ok((_, j)) ==> j <= s.len(),
{
    if i < s.len() && s[i] == '"' {
        proof {
            lemma_quote(s@, i + 1);
        }
        let mut q = i + 1;
        while q < s.len() && s[q] != '"'
            invariant
                i + 1 <= q <= s@.len(),
                quote_at_or_after(s@, i + 1) == quote_at_or_after(s@, q as int),
            decreases s@.len() - q,
        {
            q = q + 1;
        }
        if q < s.len() {
            let text = string_of_range(s, i + 1, q);
            Ok((Expr::Str(text), q + 1))
        } else {
            Err(ParseError::NoMatch)
        }
    } else {
        Err(ParseError::NoMatch)
    }
}

/// Reads an expression at position `i`.
pub fn parse_expr(s: &Vec<char>, i: usize) -> (r: Result<(Expr, usize), ParseError>)
    requires
        i <= s@.len(),
    ensures
        expr_res(r, read_expr(s@, i as int)),
        r matches Ok((_, j)) ==> j <= s.len(),
    decreases s@.len() - i, 1nat,
{
    match parse_number(s, i) {
        Err(ParseError::Overflow) => {
            return Err(ParseError::Overflow);
        },
        Ok(x) => {
            return Ok(x);
        },
        Err(ParseError::NoMatch) => {},
    }
    match parse_str(s, i) {
        Err(ParseError::Overflow) => {
            return Err(ParseError::Overflow);
        },
        Ok(x) => {
            return Ok(x);
        },
        Err(ParseError::NoMatch) => {},
    }
    if i < s.len() && s[i] == '{' {
        let j = i + 1 + ws_count(s, i + 1);
        match parse_item_list(s, j) {
            Err(ParseError::Overflow) => {
                return Err(ParseError::Overflow);
            },
            Err(ParseError::NoMatch) => {
                return parse_var_or_call(s, i);
            },
            Ok((items, k)) => {
                let k2 = k + ws_count(s, k);
                if k2 < s.len() && s[k2] == '}' {
                    return Ok((Expr::Block(items), k2 + 1));
                } else {
                    return parse_var_or_call(s, i);
                }
            },
        }
    }
    parse_var_or_call(s, i)
}

fn parse_var_or_call(s: &Vec<char>, i: usize) -> (r: Result<(Expr, usize), ParseError>)
    requires
        i <= s@.len(),
    ensures
        expr_res(r, read_var_or_call(s@, i as int)),
        r matches Ok((_, j)) ==> j <= s.len(),
    decreases s@.len() - i, 0nat,
{
    if i < s.len() && s[i] == '.' {
        match parse_ident(s, i + 1) {
            Some((n, j)) => {
                return Ok((Expr::Var(n), j));
            },
            None => {},
        }
    }
    match parse_ident(s, i) {
        Some((name, j)) => {
            match parse_call_params(s, j) {
                Ok((params, k)) => Ok((Expr::FuncCall { name, params }, k)),
                Err(ParseError::Overflow) => Err(ParseError::Overflow),
                Err(ParseError::NoMatch) => {
                    let params: Vec<CallParam> = Vec::new();
                    proof {
                        assert(call_params_view(params@) =~= Seq::<SCallParam>::empty());
                    }
                    Ok((Expr::FuncCall { name, params }, j))
                },
            }
        },
        None => Err(ParseError::NoMatch),
    }
}

fn parse_call_params(s: &Vec<char>, i: usize) -> (r: Result<(Vec<CallParam>, usize), ParseError>)
    requires
        i <= s@.len(),
    ensures
        call_params_res(r, read_call_params(s@, i as int)),
        r matches Ok((_, j)) ==> j <= s.len(),
    decreases s@.len() - i, 3nat,
{
    let w = ws_count(s, i);
    if w == 0 {
        let v: Vec<CallParam> = Vec::new();
        proof {
            assert(call_params_view(v@) =~= Seq::<SCallParam>::empty());
        }
        return Ok((v, i));
    }
    match parse_call_param(s, i + w) {
        Err(ParseError::Overflow) => Err(ParseError::Overflow),
        Err(ParseError::NoMatch) => {
            let v: Vec<CallParam> = Vec::new();
            proof {
                assert(call_params_view(v@) =~= Seq::<SCallParam>::empty());
            }
            Ok((v, i))
        },
        Ok((p, j)) => {
            if i < j && j <= s.len() {
                match parse_call_params(s, j) {
                    Ok((ps, k)) => {
                        let ghost old_ps = ps@;
                        let ghost pv = call_param_view(p);
                        let v = prepend(p, ps);
                        proof {
                            lemma_call_params_view(v@);
                            lemma_call_params_view(old_ps);
                            assert(call_params_view(v@) =~= seq![pv] + call_params_view(old_ps));
                        }
                        Ok((v, k))
                    },
                    Err(ParseError::Overflow) => Err(ParseError::Overflow),
                    Err(ParseError::NoMatch) => {
                        let ghost pv = call_param_view(p);
                        let v = prepend(p, Vec::new());
                        proof {
                            lemma_call_params_view(v@);
                            assert(call_params_view(v@) =~= seq![pv]);
                        }
                        Ok((v, j))
                    },
                }
            } else {
                Err(ParseError::NoMatch)
            }
        },
    }
}

/// Reads a call parameter at position `i`.
pub fn parse_call_param(s: &Vec<char>, i: usize) -> (r: Result<(CallParam, usize), ParseError>)
    requires
        i <= s@.len(),
    ensures
        call_param_res(r, read_call_param(s@, i as int)),
        r matches Ok((_, j)) ==> j <= s.len(),
    decreases s@.len() - i, 2nat,
{
    match parse_ident(s, i) {
        Some((name, j)) => {
            if j < s.len() && s[j] == '=' {
                match parse_expr(s, j + 1) {
                    Ok((val, k)) => {
                        return Ok((CallParam::Named { name, val }, k));
                    },
                    Err(ParseError::Overflow) => {
                        return Err(ParseError::Overflow);
                    },
                    Err(ParseError::NoMatch) => {},
                }
            }
        },
        None => {},
    }
    match parse_expr(s, i) {
        Ok((val, k)) => Ok((CallParam::Positional { val }, k)),
        Err(e) => Err(e),
    }
}

/// Reads the items of a block, starting at position `i`.
pub fn parse_item_list(s: &Vec<char>, i: usize) -> (r: Result<(Vec<Item>, usize), ParseError>)
    requires
        i <= s@.len(),
    ensures
        items_res(r, read_item_list(s@, i as int)),
        r matches Ok((_, j)) ==> j <= s.len(),
    decreases s@.len() - i, 8nat,
{
    match parse_item(s, i) {
        Err(ParseError::Overflow) => Err(ParseError::Overflow),
        Err(ParseError::NoMatch) => {
            let v: Vec<Item> = Vec::new();
            proof {
                assert(items_view(v@) =~= Seq::<SItem>::empty());
            }
            Ok((v, i))
        },
        Ok((it, j)) => {
            if i < j && j <= s.len() {
                let ghost iv = item_view(it);
                match parse_more_items(s, j) {
                    Ok((its, k)) => {
                        let ghost old_its = its@;
                        let v = prepend(it, its);
                        proof {
                            lemma_items_view(v@);
                            lemma_items_view(old_its);
                            assert(items_view(v@) =~= seq![iv] + items_view(old_its));
                        }
                        Ok((v, k))
                    },
                    Err(ParseError::Overflow) => Err(ParseError::Overflow),
                    Err(ParseError::NoMatch) => {
                        let v = prepend(it, Vec::new());
                        proof {
                            lemma_items_view(v@);
                            assert(items_view(v@) =~= seq![iv]);
                        }
                        Ok((v, j))
                    },
                }
            } else {
                Err(ParseError::NoMatch)
            }
        },
    }
}

fn parse_more_items(s: &Vec<char>, i: usize) -> (r: Result<(Vec<Item>, usize), ParseError>)
    requires
        i <= s@.len(),
    ensures
        items_res(r, read_more_items(s@, i as int)),
        r matches Ok((_, j)) ==> j <= s.len(),
    decreases s@.len() - i, 8nat,
{
    if i >= s.len() || s[i] != '\n' {
        let v: Vec<Item> = Vec::new();
        proof {
            assert(items_view(v@) =~= Seq::<SItem>::empty());
        }
        return Ok((v, i));
    }
    let j = i + 1 + ws_count(s, i + 1);
    match parse_item(s, j) {
        Err(ParseError::Overflow) => Err(ParseError::Overflow),
        Err(ParseError::NoMatch) => {
            let v: Vec<Item> = Vec::new();
            proof {
                assert(items_view(v@) =~= Seq::<SItem>::empty());
            }
            Ok((v, i))
        },
        Ok((it, k)) => {
            if j < k && k <= s.len() {
                let ghost iv = item_view(it);
                match parse_more_items(s, k) {
                    Ok((its, m)) => {
                        let ghost old_its = its@;
                        let v = prepend(it, its);
                        proof {
                            lemma_items_view(v@);
                            lemma_items_view(old_its);
                            assert(items_view(v@) =~= seq![iv] + items_view(old_its));
                        }
                        Ok((v, m))
                    },
                    Err(ParseError::Overflow) => Err(ParseError::Overflow),
                    Err(ParseError::NoMatch) => {
                        let v = prepend(it, Vec::new());
                        proof {
                            lemma_items_view(v@);
                            assert(items_view(v@) =~= seq![iv]);
                        }
                        Ok((v, k))
                    },
                }
            } else {
                Err(ParseError::NoMatch)
            }
        },
    }
}

/// Reads an item at position `i`.
pub fn parse_item(s: &Vec<char>, i: usize) -> (r: Result<(Item, usize), ParseError>)
    requires
        i <= s@.len(),
    ensures
        item_res(r, read_item(s@, i as int)),
        r matches Ok((_, j)) ==> j <= s.len(),
    decreases s@.len() - i, 7nat,
{
    match parse_binding(s, i) {
        Ok(x) => {
            return Ok(x);
        },
        Err(ParseError::Overflow) => {
            return Err(ParseError::Overflow);
        },
        Err(ParseError::NoMatch) => {},
    }
    match parse_expr(s, i) {
        Ok((e, j)) => Ok((Item::Expr(e), j)),
        Err(e) => Err(e),
    }
}

fn parse_binding(s: &Vec<char>, i: usize) -> (r: Result<(Item, usize), ParseError>)
    requires
        i <= s@.len(),
    ensures
        item_res(r, read_binding(s@, i as int)),
        r matches Ok((_, j)) ==> j <= s.len(),
    decreases s@.len() - i, 6nat,
{
    match parse_ident(s, i) {
        Some((name, j)) => {
            let e = j + ws_count(s, j);
            if e < s.len() && s[e] == '=' {
                let v = e + 1 + ws_count(s, e + 1);
                match parse_binding_val(s, v) {
                    Ok((val, k)) => Ok((Item::Binding { name, val }, k)),
                    Err(err) => Err(err),
                }
            } else {
                Err(ParseError::NoMatch)
            }
        },
        None => Err(ParseError::NoMatch),
    }
}

/// Reads what a name is bound to, at position `i`: a function, or else a value.
pub fn parse_binding_val(s: &Vec<char>, i: usize) -> (r: Result<(BindingVal, usize), ParseError>)
    requires
        i <= s@.len(),
    ensures
        binding_val_res(r, read_binding_val(s@, i as int)),
        r matches Ok((_, j)) ==> j <= s.len(),
    decreases s@.len() - i, 5nat,
{
    match parse_func(s, i) {
        Ok((f, j)) => {
            return Ok((BindingVal::Func(Rc::new(f)), j));
        },
        Err(ParseError::Overflow) => {
            return Err(ParseError::Overflow);
        },
        Err(ParseError::NoMatch) => {},
    }
    match parse_expr(s, i) {
        Ok((e, j)) => Ok((BindingVal::Var(e), j)),
        Err(e) => Err(e),
    }
}

/// Reads a function at position `i`.
pub fn parse_func(s: &Vec<char>, i: usize) -> (r: Result<(Func, usize), ParseError>)
    requires
        i <= s@.len(),
    ensures
        func_res(r, read_func(s@, i as int)),
        r matches Ok((_, j)) ==> j <= s.len(),
    decreases s@.len() - i, 4nat,
{
    match parse_def_params(s, i) {
        Err(e) => Err(e),
        Ok((params, j)) => {
            if i <= j && j < s.len() && j + 1 < s.len() && s[j] == ':' && s[j + 1] == ':' {
                let b = j + 2 + ws_count(s, j + 2);
                match parse_expr(s, b) {
                    Ok((body, k)) => Ok((Func { params, body }, k)),
                    Err(e) => Err(e),
                }
            } else {
                Err(ParseError::NoMatch)
            }
        },
    }
}

fn parse_def_params(s: &Vec<char>, i: usize) -> (r: Result<(Vec<DefParam>, usize), ParseError>)
    requires
        i <= s@.len(),
    ensures
        def_params_res(r, read_def_params(s@, i as int)),
        r matches Ok((_, j)) ==> j <= s.len(),
    decreases s@.len() - i, 3nat,
{
    match parse_def_param(s, i) {
        Err(ParseError::Overflow) => Err(ParseError::Overflow),
        Err(ParseError::NoMatch) => {
            let v: Vec<DefParam> = Vec::new();
            proof {
                assert(def_params_view(v@) =~= Seq::<SDefParam>::empty());
            }
            Ok((v, i))
        },
        Ok((p, j)) => {
            let w = ws_count(s, j);
            if w == 0 {
                let v: Vec<DefParam> = Vec::new();
                proof {
                    assert(def_params_view(v@) =~= Seq::<SDefParam>::empty());
                }
                Ok((v, i))
            } else if i < j + w && j + w <= s.len() {
                let ghost pv = def_param_view(p);
                match parse_def_params(s, j + w) {
                    Ok((ps, k)) => {
                        let ghost old_ps = ps@;
                        let v = prepend(p, ps);
                        proof {
                            lemma_def_params_view(v@);
                            lemma_def_params_view(old_ps);
                            assert(def_params_view(v@) =~= seq![pv] + def_params_view(old_ps));
                        }
                        Ok((v, k))
                    },
                    Err(ParseError::Overflow) => Err(ParseError::Overflow),
                    Err(ParseError::NoMatch) => {
                        let v = prepend(p, Vec::new());
                        proof {
                            lemma_def_params_view(v@);
                            assert(def_params_view(v@) =~= seq![pv]);
                        }
                        Ok((v, j + w))
                    },
                }
            } else {
                Err(ParseError::NoMatch)
            }
        },
    }
}

/// Reads a parameter of a function definition at position `i`.
pub fn parse_def_param(s: &Vec<char>, i: usize) -> (r: Result<(DefParam, usize), ParseError>)
    requires
        i <= s@.len(),
    ensures
        def_param_res(r, read_def_param(s@, i as int)),
        r matches Ok((_, j)) ==> j <= s.len(),
    decreases s@.len() - i, 2nat,
{
    match parse_ident(s, i) {
        Some((name, j)) => {
            if j < s.len() && s[j] == '=' {
                match parse_expr(s, j + 1) {
                    Ok((e, k)) => Ok((DefParam { name, val: Some(e) }, k)),
                    Err(ParseError::Overflow) => Err(ParseError::Overflow),
                    Err(ParseError::NoMatch) => Ok((DefParam { name, val: None }, j)),
                }
            } else {
                Ok((DefParam { name, val: None }, j))
            }
        },
        None => Err(ParseError::NoMatch),
    }
}

} // verus!
