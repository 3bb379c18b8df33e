//! The grammar of Fjord scripts, as functions from a text and a position in it
//! to what is read there.
//!
//! Each rule either reads something and says where it stopped, finds nothing of
//! its kind (and the caller tries its next choice), or meets a number literal
//! too large for an `i32`, which ends the whole reading.

use vstd::prelude::*;
use crate::ident_name::{is_lower, alnum_run, lemma_alnum_run};
use crate::script_ast::{SExpr, SCallParam, SDefParam, SFunc, SItem, SBindingVal};

verus! {

/// What reading with one rule gives.
pub enum Parsed<T> {
    /// the thing read, and the position after it
    Done(T, int),
    /// nothing of this kind here
    NoMatch,
    /// a number literal that does not fit in an `i32`
    Overflow,
}

/// `char::is_ascii_whitespace`: space, tab, line feed, form feed, carriage return.
pub open spec fn is_ascii_ws(c: char) -> bool {
    c == ' ' || c == '\t' || c == '\n' || c == '\x0C' || c == '\r'
}

pub open spec fn is_ascii_digit(c: char) -> bool {
    '0' <= c && c <= '9'
}

/// Number of ASCII whitespace characters from position `i` on.
pub open spec fn ws_run(s: Seq<char>, i: int) -> int
    decreases s.len() - i,
{
    if i < 0 || i >= s.len() || !is_ascii_ws(s[i]) {
        0
    } else {
        1 + ws_run(s, i + 1)
    }
}

/// Number of ASCII digits from position `i` on.
pub open spec fn digit_run(s: Seq<char>, i: int) -> int
    decreases s.len() - i,
{
    if i < 0 || i >= s.len() || !is_ascii_digit(s[i]) {
        0
    } else {
        1 + digit_run(s, i + 1)
    }
}

/// Position of the first double quote at or after `i` (or the end).
pub open spec fn quote_at_or_after(s: Seq<char>, i: int) -> int
    decreases s.len() - i,
{
    if i < 0 || i >= s.len() {
        s.len() as int
    } else if s[i] == '"' {
        i
    } else {
        quote_at_or_after(s, i + 1)
    }
}

pub proof fn lemma_ws_run(s: Seq<char>, i: int)
    requires
        0 <= i <= s.len(),
    ensures
        0 <= ws_run(s, i) <= s.len() - i,
        forall|k: int| i <= k < i + ws_run(s, i) ==> is_ascii_ws(#[trigger] s[k]),
        i + ws_run(s, i) < s.len() ==> !is_ascii_ws(s[i + ws_run(s, i)]),
    decreases s.len() - i,
{
    if i < s.len() && is_ascii_ws(s[i]) {
        lemma_ws_run(s, i + 1);
    }
}

pub proof fn lemma_digit_run(s: Seq<char>, i: int)
    requires
        0 <= i <= s.len(),
    ensures
        0 <= digit_run(s, i) <= s.len() - i,
        forall|k: int| i <= k < i + digit_run(s, i) ==> is_ascii_digit(#[trigger] s[k]),
        i + digit_run(s, i) < s.len() ==> !is_ascii_digit(s[i + digit_run(s, i)]),
    decreases s.len() - i,
{
    if i < s.len() && is_ascii_digit(s[i]) {
        lemma_digit_run(s, i + 1);
    }
}

pub proof fn lemma_quote(s: Seq<char>, i: int)
    requires
        0 <= i <= s.len(),
    ensures
        i <= quote_at_or_after(s, i) <= s.len(),
        forall|k: int| i <= k < quote_at_or_after(s, i) ==> #[trigger] s[k] != '"',
        quote_at_or_after(s, i) < s.len() ==> s[quote_at_or_after(s, i)] == '"',
    decreases s.len() - i,
{
    if i < s.len() && s[i] != '"' {
        lemma_quote(s, i + 1);
    }
}

/// The number that a string of decimal digits stands for.
pub open spec fn digits_value(d: Seq<char>) -> int
    decreases d.len(),
{
    if d.len() == 0 {
        0
    } else {
        digits_value(d.drop_last()) * 10 + (d.last() as int - '0' as int)
    }
}

/// An identifier: a lowercase ASCII letter, then ASCII letters and digits.
pub open spec fn read_ident(s: Seq<char>, i: int) -> Parsed<Seq<char>> {
    if 0 <= i < s.len() && is_lower(s[i]) {
        let n = alnum_run(s, i);
        Parsed::Done(s.subrange(i, i + n), i + n)
    } else {
        Parsed::NoMatch
    }
}

/// A run of digits, read as an `i32`.
pub open spec fn read_number(s: Seq<char>, i: int) -> Parsed<SExpr> {
    let n = digit_run(s, i);
    if n == 0 {
        Parsed::NoMatch
    } else if digits_value(s.subrange(i, i + n)) > i32::MAX {
        Parsed::Overflow
    } else {
        Parsed::Done(SExpr::Number(digits_value(s.subrange(i, i + n)) as i32), i + n)
    }
}

/// A string literal: text between two double quotes.
pub open spec fn read_str(s: Seq<char>, i: int) -> Parsed<SExpr> {
    if 0 <= i < s.len() && s[i] == '"' {
        let q = quote_at_or_after(s, i + 1);
        if q < s.len() {
            Parsed::Done(SExpr::Str(s.subrange(i + 1, q)), q + 1)
        } else {
            Parsed::NoMatch
        }
    } else {
        Parsed::NoMatch
    }
}

/// An expression: a number, a string, a block, a variable (`.name`) or a
/// function call, tried in that order.
pub open spec fn read_expr(s: Seq<char>, i: int) -> Parsed<SExpr>
    decreases s.len() - i, 1nat,
{
    if i < 0 || i > s.len() {
        Parsed::NoMatch
    } else {
        match read_number(s, i) {
            Parsed::Overflow => Parsed::Overflow,
            Parsed::Done(e, j) => Parsed::Done(e, j),
            Parsed::NoMatch => match read_str(s, i) {
                Parsed::Overflow => Parsed::Overflow,
                Parsed::Done(e, j) => Parsed::Done(e, j),
                Parsed::NoMatch => if i < s.len() && s[i] == '{' {
                    proof {
                        lemma_ws_run(s, i + 1);
                    }
                    let j = i + 1 + ws_run(s, i + 1);
                    match read_item_list(s, j) {
                        Parsed::Overflow => Parsed::Overflow,
                        Parsed::NoMatch => read_var_or_call(s, i),
                        Parsed::Done(items, k) => {
                            let k2 = k + ws_run(s, k);
                            if 0 <= k2 < s.len() && s[k2] == '}' {
                                Parsed::Done(SExpr::Block(items), k2 + 1)
                            } else {
                                read_var_or_call(s, i)
                            }
                        },
                    }
                } else {
                    read_var_or_call(s, i)
                },
            },
        }
    }
}

/// A variable (`.name`), or else a function call.
pub open spec fn read_var_or_call(s: Seq<char>, i: int) -> Parsed<SExpr>
    decreases s.len() - i, 0nat,
{
    if i < 0 || i > s.len() {
        Parsed::NoMatch
    } else if i < s.len() && s[i] == '.' && (read_ident(s, i + 1) is Done) {
        match read_ident(s, i + 1) {
            Parsed::Done(n, j) => Parsed::Done(SExpr::Var(n), j),
            _ => Parsed::NoMatch,
        }
    } else {
        match read_ident(s, i) {
            Parsed::Done(name, j) => if i < j <= s.len() {
                match read_call_params(s, j) {
                    Parsed::Done(ps, k) => Parsed::Done(SExpr::FuncCall(name, ps), k),
                    Parsed::Overflow => Parsed::Overflow,
                    Parsed::NoMatch => Parsed::Done(SExpr::FuncCall(name, Seq::empty()), j),
                }
            } else {
                Parsed::NoMatch
            },
            _ => Parsed::NoMatch,
        }
    }
}

/// The parameters of a function call: as many as follow, each after at least
/// one whitespace character.
pub open spec fn read_call_params(s: Seq<char>, i: int) -> Parsed<Seq<SCallParam>>
    decreases s.len() - i, 3nat,
{
    if i < 0 || i > s.len() {
        Parsed::NoMatch
    } else {
        proof {
            lemma_ws_run(s, i);
        }
        let w = ws_run(s, i);
        if w == 0 {
            Parsed::Done(Seq::empty(), i)
        } else {
            match read_call_param(s, i + w) {
                Parsed::Overflow => Parsed::Overflow,
                Parsed::NoMatch => Parsed::Done(Seq::empty(), i),
                Parsed::Done(p, j) => if i < j <= s.len() {
                    match read_call_params(s, j) {
                        Parsed::Done(ps, k) => Parsed::Done(seq![p] + ps, k),
                        Parsed::Overflow => Parsed::Overflow,
                        Parsed::NoMatch => Parsed::Done(seq![p], j),
                    }
                } else {
                    Parsed::NoMatch
                },
            }
        }
    }
}

/// A call parameter: `name=expression`, or else an expression.
pub open spec fn read_call_param(s: Seq<char>, i: int) -> Parsed<SCallParam>
    decreases s.len() - i, 2nat,
{
    if i < 0 || i > s.len() {
        Parsed::NoMatch
    } else {
        match read_ident(s, i) {
            Parsed::Done(name, j) if 0 <= j < s.len() && s[j] == '=' && i < j => match read_expr(s, j + 1) {
                Parsed::Done(e, k) => Parsed::Done(SCallParam::Named(name, e), k),
                Parsed::Overflow => Parsed::Overflow,
                Parsed::NoMatch => match read_expr(s, i) {
                    Parsed::Done(e, k) => Parsed::Done(SCallParam::Positional(e), k),
                    Parsed::Overflow => Parsed::Overflow,
                    Parsed::NoMatch => Parsed::NoMatch,
                },
            },
            _ => match read_expr(s, i) {
                Parsed::Done(e, k) => Parsed::Done(SCallParam::Positional(e), k),
                Parsed::Overflow => Parsed::Overflow,
                Parsed::NoMatch => Parsed::NoMatch,
            },
        }
    }
}

/// The items of a block: one item, then more, each after a line feed and
/// optional whitespace. Where no first item is found, no items.
pub open spec fn read_item_list(s: Seq<char>, i: int) -> Parsed<Seq<SItem>>
    decreases s.len() - i, 8nat,
{
    if i < 0 || i > s.len() {
        Parsed::NoMatch
    } else {
        match read_item(s, i) {
            Parsed::Overflow => Parsed::Overflow,
            Parsed::NoMatch => Parsed::Done(Seq::empty(), i),
            Parsed::Done(it, j) => if i < j <= s.len() {
                match read_more_items(s, j) {
                    Parsed::Done(its, k) => Parsed::Done(seq![it] + its, k),
                    Parsed::Overflow => Parsed::Overflow,
                    Parsed::NoMatch => Parsed::Done(seq![it], j),
                }
            } else {
                Parsed::NoMatch
            },
        }
    }
}

/// The items after the first one of a block.
pub open spec fn read_more_items(s: Seq<char>, i: int) -> Parsed<Seq<SItem>>
    decreases s.len() - i, 8nat,
{
    if i < 0 || i >= s.len() || s[i] != '\n' {
        Parsed::Done(Seq::empty(), i)
    } else {
        proof {
            lemma_ws_run(s, i + 1);
        }
        let j = i + 1 + ws_run(s, i + 1);
        match read_item(s, j) {
            Parsed::Overflow => Parsed::Overflow,
            Parsed::NoMatch => Parsed::Done(Seq::empty(), i),
            Parsed::Done(it, k) => if j < k <= s.len() {
                match read_more_items(s, k) {
                    Parsed::Done(its, m) => Parsed::Done(seq![it] + its, m),
                    Parsed::Overflow => Parsed::Overflow,
                    Parsed::NoMatch => Parsed::Done(seq![it], k),
                }
            } else {
                Parsed::NoMatch
            },
        }
    }
}

/// An item: a binding (`name = value`), or else an expression.
pub open spec fn read_item(s: Seq<char>, i: int) -> Parsed<SItem>
    decreases s.len() - i, 7nat,
{
    if i < 0 || i > s.len() {
        Parsed::NoMatch
    } else {
        match read_binding(s, i) {
            Parsed::Done(it, j) => Parsed::Done(it, j),
            Parsed::Overflow => Parsed::Overflow,
            Parsed::NoMatch => match read_expr(s, i) {
                Parsed::Done(e, j) => Parsed::Done(SItem::Expr(e), j),
                Parsed::Overflow => Parsed::Overflow,
                Parsed::NoMatch => Parsed::NoMatch,
            },
        }
    }
}

/// A binding: a name, `=` with optional whitespace around it, and a value.
pub open spec fn read_binding(s: Seq<char>, i: int) -> Parsed<SItem>
    decreases s.len() - i, 6nat,
{
    if i < 0 || i > s.len() {
        Parsed::NoMatch
    } else {
        match read_ident(s, i) {
            Parsed::Done(name, j) => {
                proof {
                    lemma_alnum_run(s, i);
                    lemma_ws_run(s, j);
                }
                let e = j + ws_run(s, j);
                if i < j && 0 <= e < s.len() && s[e] == '=' {
                    proof {
                        lemma_ws_run(s, e + 1);
                    }
                    let v = e + 1 + ws_run(s, e + 1);
                    match read_binding_val(s, v) {
                        Parsed::Done(bv, k) => Parsed::Done(SItem::Binding(name, bv), k),
                        Parsed::Overflow => Parsed::Overflow,
                        Parsed::NoMatch => Parsed::NoMatch,
                    }
                } else {
                    Parsed::NoMatch
                }
            },
            _ => Parsed::NoMatch,
        }
    }
}

/// What a name is bound to: a function, or else a value.
pub open spec fn read_binding_val(s: Seq<char>, i: int) -> Parsed<SBindingVal>
    decreases s.len() - i, 5nat,
{
    if i < 0 || i > s.len() {
        Parsed::NoMatch
    } else {
        match read_func(s, i) {
            Parsed::Done(f, j) => Parsed::Done(SBindingVal::Func(f), j),
            Parsed::Overflow => Parsed::Overflow,
            Parsed::NoMatch => match read_expr(s, i) {
                Parsed::Done(e, j) => Parsed::Done(SBindingVal::Var(e), j),
                Parsed::Overflow => Parsed::Overflow,
                Parsed::NoMatch => Parsed::NoMatch,
            },
        }
    }
}

/// A function: parameters, each followed by whitespace, then `::`, optional
/// whitespace and the body.
pub open spec fn read_func(s: Seq<char>, i: int) -> Parsed<SFunc>
    decreases s.len() - i, 4nat,
{
    if i < 0 || i > s.len() {
        Parsed::NoMatch
    } else {
        match read_def_params(s, i) {
            Parsed::Overflow => Parsed::Overflow,
            Parsed::NoMatch => Parsed::NoMatch,
            Parsed::Done(ps, j) => if i <= j && j + 1 < s.len() && s[j] == ':' && s[j + 1] == ':' {
                proof {
                    lemma_ws_run(s, j + 2);
                }
                let b = j + 2 + ws_run(s, j + 2);
                match read_expr(s, b) {
                    Parsed::Done(body, k) => Parsed::Done(SFunc { params: ps, body }, k),
                    Parsed::Overflow => Parsed::Overflow,
                    Parsed::NoMatch => Parsed::NoMatch,
                }
            } else {
                Parsed::NoMatch
            },
        }
    }
}

/// The parameters of a function definition, each followed by whitespace.
pub open spec fn read_def_params(s: Seq<char>, i: int) -> Parsed<Seq<SDefParam>>
    decreases s.len() - i, 3nat,
{
    if i < 0 || i > s.len() {
        Parsed::NoMatch
    } else {
        match read_def_param(s, i) {
            Parsed::Overflow => Parsed::Overflow,
            Parsed::NoMatch => Parsed::Done(Seq::empty(), i),
            Parsed::Done(p, j) => {
                let w = ws_run(s, j);
                if w == 0 {
                    Parsed::Done(Seq::empty(), i)
                } else if i < j + w <= s.len() {
                    match read_def_params(s, j + w) {
                        Parsed::Done(ps, k) => Parsed::Done(seq![p] + ps, k),
                        Parsed::Overflow => Parsed::Overflow,
                        Parsed::NoMatch => Parsed::Done(seq![p], j + w),
                    }
                } else {
                    Parsed::NoMatch
                }
            },
        }
    }
}

/// A parameter of a function definition: `name=default`, or else `name`.
pub open spec fn read_def_param(s: Seq<char>, i: int) -> Parsed<SDefParam>
    decreases s.len() - i, 2nat,
{
    if i < 0 || i > s.len() {
        Parsed::NoMatch
    } else {
        match read_ident(s, i) {
            Parsed::Done(name, j) => if i < j && 0 <= j < s.len() && s[j] == '=' {
                match read_expr(s, j + 1) {
                    Parsed::Done(e, k) => Parsed::Done(SDefParam { name, val: Some(e) }, k),
                    Parsed::Overflow => Parsed::Overflow,
                    Parsed::NoMatch => Parsed::Done(SDefParam { name, val: None }, j),
                }
            } else {
                Parsed::Done(SDefParam { name, val: None }, j)
            },
            _ => Parsed::NoMatch,
        }
    }
}

} // verus!
