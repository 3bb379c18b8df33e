//! Expressions of the earlier form of Fjord's syntax: booleans, numbers,
//! strings, format strings, blocks, variables, `if` expressions, function calls
//! and parenthesised expressions; and the items of a block.
//!
//! The grammar is a set of functions from a text and a position to what is
//! read there, as in `script_grammar`; names are identifiers as `ident_name`
//! reads them, keywords excluded.

use vstd::prelude::*;
use crate::ident_name::{IdentName, is_lower, alnum_run, holds_keyword, lemma_alnum_run};
use crate::script_grammar::{Parsed, ws_run, digit_run, digits_value, quote_at_or_after, lemma_ws_run};

verus! {

/// ASCII whitespace: what separates the parts of an expression.
pub fn is_whitespace(c: char) -> (b: bool)
    ensures
        b == crate::script_grammar::is_ascii_ws(c),
{
    c == ' ' || c == '\t' || c == '\n' || c == '\x0C' || c == '\r'
}

/// An expression.
#[derive(Debug, PartialEq)]
pub enum Expr {
    /// a boolean literal
    Bool(bool),
    /// a number literal
    Number(i32),
    /// a string literal
    Str(String),
    /// a format string: its text up to the first interpolation, then each
    /// interpolated expression with the text that follows it
    FStr(String, Vec<(Expr, String)>),
    /// a block
    Block(Vec<Item>),
    /// a variable usage
    Var(IdentName),
    /// an `if` expression
    If { condition: Box<Expr>, true_case: Box<Expr>, false_case: Box<Expr> },
    /// a function call
    FuncCall { name: IdentName, params: Vec<Expr> },
    /// an expression in parentheses
    Parens(Box<Expr>),
}

/// An item of a block: a binding (`name = value`) or an expression.
#[derive(Debug, PartialEq)]
pub enum Item {
    Expr(Expr),
    Binding { name: IdentName, val: Expr },
}

/// An expression as the contracts see it.
pub enum ExprView {
    Bool(bool),
    Number(i32),
    Str(Seq<char>),
    FStr(Seq<char>, Seq<(ExprView, Seq<char>)>),
    Block(Seq<ItemView>),
    Var(Seq<char>),
    If(Box<ExprView>, Box<ExprView>, Box<ExprView>),
    FuncCall(Seq<char>, Seq<ExprView>),
    Parens(Box<ExprView>),
}

pub enum ItemView {
    Expr(ExprView),
    Binding(Seq<char>, ExprView),
}

pub open spec fn expr_v(e: Expr) -> ExprView
    decreases e, 0nat,
{
    match e {
        Expr::Bool(b) => ExprView::Bool(b),
        Expr::Number(n) => ExprView::Number(n),
        Expr::Str(s) => ExprView::Str(s@),
        Expr::FStr(s, parts) => ExprView::FStr(s@, parts_v(parts@)),
        Expr::Block(items) => ExprView::Block(items_v(items@)),
        Expr::Var(n) => ExprView::Var(n@),
        Expr::If { condition, true_case, false_case } => ExprView::If(
            Box::new(expr_v(*condition)),
            Box::new(expr_v(*true_case)),
            Box::new(expr_v(*false_case)),
        ),
        Expr::FuncCall { name, params } => ExprView::FuncCall(name@, exprs_v(params@)),
        Expr::Parens(e) => ExprView::Parens(Box::new(expr_v(*e))),
    }
}

pub open spec fn parts_v(ps: Seq<(Expr, String)>) -> Seq<(ExprView, Seq<char>)>
    decreases ps, 0nat,
{
    if ps.len() == 0 {
        Seq::empty()
    } else {
        parts_v(ps.drop_last()).push((expr_v(ps.last().0), ps.last().1@))
    }
}

pub open spec fn items_v(items: Seq<Item>) -> Seq<ItemView>
    decreases items, 0nat,
{
    if items.len() == 0 {
        Seq::empty()
    } else {
        items_v(items.drop_last()).push(item_v(items.last()))
    }
}

pub open spec fn item_v(it: Item) -> ItemView
    decreases it, 0nat,
{
    match it {
        Item::Expr(e) => ItemView::Expr(expr_v(e)),
        Item::Binding { name, val } => ItemView::Binding(name@, expr_v(val)),
    }
}

pub open spec fn exprs_v(es: Seq<Expr>) -> Seq<ExprView>
    decreases es, 0nat,
{
    if es.len() == 0 {
        Seq::empty()
    } else {
        exprs_v(es.drop_last()).push(expr_v(es.last()))
    }
}

/// A name: a lowercase ASCII letter and then ASCII letters and digits, with
/// no keyword in it.
pub open spec fn read_name(s: Seq<char>, i: int) -> Parsed<Seq<char>> {
    if 0 <= i < s.len() && is_lower(s[i]) {
        let n = alnum_run(s, i);
        if holds_keyword(s.subrange(i, i + n)) {
            Parsed::NoMatch
        } else {
            Parsed::Done(s.subrange(i, i + n), i + n)
        }
    } else {
        Parsed::NoMatch
    }
}

/// Whether `w` occurs in `s` at position `i`.
pub open spec fn word_at(s: Seq<char>, i: int, w: Seq<char>) -> bool {
    0 <= i && i + w.len() <= s.len() && s.subrange(i, i + w.len()) == w
}

/// Position of the first `{` or `"` at or after `i` (or the end).
pub open spec fn literal_end(s: Seq<char>, i: int) -> int
    decreases s.len() - i,
{
    if i < 0 || i >= s.len() {
        s.len() as int
    } else if s[i] == '{' || s[i] == '"' {
        i
    } else {
        literal_end(s, i + 1)
    }
}

pub proof fn lemma_literal_end(s: Seq<char>, i: int)
    requires
        0 <= i <= s.len(),
    ensures
        i <= literal_end(s, i) <= s.len(),
    decreases s.len() - i,
{
    if i < s.len() && !(s[i] == '{' || s[i] == '"') {
        lemma_literal_end(s, i + 1);
    }
}

/// A number literal, read as an `i32`.
pub open spec fn read_num(s: Seq<char>, i: int) -> Parsed<ExprView> {
    let n = digit_run(s, i);
    if n == 0 {
        Parsed::NoMatch
    } else if digits_value(s.subrange(i, i + n)) > i32::MAX {
        Parsed::Overflow
    } else {
        Parsed::Done(ExprView::Number(digits_value(s.subrange(i, i + n)) as i32), i + n)
    }
}

/// An expression: a boolean, a number, a string, a format string, a block, a
/// variable, an `if` expression, a function call or an expression in
/// parentheses, tried in that order.
pub open spec fn expr_at(s: Seq<char>, i: int) -> Parsed<ExprView>
    decreases s.len() - i, 2nat,
{
    if i < 0 || i > s.len() {
        Parsed::NoMatch
    } else if word_at(s, i, seq!['t', 'r', 'u', 'e']) {
        Parsed::Done(ExprView::Bool(true), i + 4)
    } else if word_at(s, i, seq!['f', 'a', 'l', 's', 'e']) {
        Parsed::Done(ExprView::Bool(false), i + 5)
    } else {
        match read_num(s, i) {
            Parsed::Overflow => Parsed::Overflow,
            Parsed::Done(e, j) => Parsed::Done(e, j),
            Parsed::NoMatch => if i < s.len() && s[i] == '"' && quote_at_or_after(s, i + 1) < s.len() {
                Parsed::Done(ExprView::Str(s.subrange(i + 1, quote_at_or_after(s, i + 1))), quote_at_or_after(s, i + 1) + 1)
            } else {
                match fstr_at(s, i) {
                    Parsed::Overflow => Parsed::Overflow,
                    Parsed::Done(e, j) => Parsed::Done(e, j),
                    Parsed::NoMatch => match block_at(s, i) {
                        Parsed::Overflow => Parsed::Overflow,
                        Parsed::Done(e, j) => Parsed::Done(e, j),
                        Parsed::NoMatch => if i < s.len() && s[i] == '.' && (read_name(s, i + 1) is Done) {
                            match read_name(s, i + 1) {
                                Parsed::Done(n, j) => Parsed::Done(ExprView::Var(n), j),
                                _ => Parsed::NoMatch,
                            }
                        } else {
                            match if_at(s, i) {
                                Parsed::Overflow => Parsed::Overflow,
                                Parsed::Done(e, j) => Parsed::Done(e, j),
                                Parsed::NoMatch => match call_at(s, i) {
                                    Parsed::Overflow => Parsed::Overflow,
                                    Parsed::Done(e, j) => Parsed::Done(e, j),
                                    Parsed::NoMatch => parens_at(s, i),
                                },
                            }
                        },
                    },
                }
            },
        }
    }
}

/// A format string: `f"`, text, interpolations (`{expression}` and text) and `"`.
pub open spec fn fstr_at(s: Seq<char>, i: int) -> Parsed<ExprView>
    decreases s.len() - i, 1nat,
{
    if 0 <= i && i + 1 < s.len() && s[i] == 'f' && s[i + 1] == '"' {
        proof {
            lemma_literal_end(s, i + 2);
        }
        let l = literal_end(s, i + 2);
        match interps_at(s, l) {
            Parsed::Overflow => Parsed::Overflow,
            Parsed::NoMatch => Parsed::NoMatch,
            Parsed::Done(parts, k) => if 0 <= k < s.len() && s[k] == '"' {
                Parsed::Done(ExprView::FStr(s.subrange(i + 2, l), parts), k + 1)
            } else {
                Parsed::NoMatch
            },
        }
    } else {
        Parsed::NoMatch
    }
}

/// The interpolations of a format string, each followed by its text.
pub open spec fn interps_at(s: Seq<char>, i: int) -> Parsed<Seq<(ExprView, Seq<char>)>>
    decreases s.len() - i, 1nat,
{
    if 0 <= i < s.len() && s[i] == '{' {
        match expr_at(s, i + 1) {
            Parsed::Overflow => Parsed::Overflow,
            Parsed::NoMatch => Parsed::Done(Seq::empty(), i),
            Parsed::Done(e, j) => if i < j < s.len() && s[j] == '}' {
                proof {
                    lemma_literal_end(s, j + 1);
                }
                let l = literal_end(s, j + 1);
                match interps_at(s, l) {
                    Parsed::Overflow => Parsed::Overflow,
                    Parsed::Done(rest, k) => Parsed::Done(seq![(e, s.subrange(j + 1, l))] + rest, k),
                    Parsed::NoMatch => Parsed::NoMatch,
                }
            } else {
                Parsed::Done(Seq::empty(), i)
            },
        }
    } else if 0 <= i <= s.len() {
        Parsed::Done(Seq::empty(), i)
    } else {
        Parsed::NoMatch
    }
}

/// A block: `{`, optional whitespace, items separated by a line feed and
/// optional whitespace, optional whitespace and `}`.
pub open spec fn block_at(s: Seq<char>, i: int) -> Parsed<ExprView>
    decreases s.len() - i, 1nat,
{
    if 0 <= i < s.len() && s[i] == '{' {
        proof {
            lemma_ws_run(s, i + 1);
        }
        let j = i + 1 + ws_run(s, i + 1);
        match items_at(s, j) {
            Parsed::Overflow => Parsed::Overflow,
            Parsed::NoMatch => Parsed::NoMatch,
            Parsed::Done(items, k) => if 0 <= k <= s.len() {
                proof {
                    lemma_ws_run(s, k);
                }
                let k2 = k + ws_run(s, k);
                if k2 < s.len() && s[k2] == '}' {
                    Parsed::Done(ExprView::Block(items), k2 + 1)
                } else {
                    Parsed::NoMatch
                }
            } else {
                Parsed::NoMatch
            },
        }
    } else {
        Parsed::NoMatch
    }
}

/// `if`, whitespace, the condition, whitespace, `then`, whitespace, the
/// expression for true, whitespace, `else`, whitespace, the expression for false.
pub open spec fn if_at(s: Seq<char>, i: int) -> Parsed<ExprView>
    decreases s.len() - i, 1nat,
{
    if word_at(s, i, seq!['i', 'f']) && ws_run(s, i + 2) > 0 {
        proof {
            lemma_ws_run(s, i + 2);
        }
        match expr_at(s, i + 2 + ws_run(s, i + 2)) {
            Parsed::Overflow => Parsed::Overflow,
            Parsed::NoMatch => Parsed::NoMatch,
            Parsed::Done(c, j) => if i < j <= s.len() && ws_run(s, j) > 0 && word_at(s, j + ws_run(s, j), seq!['t', 'h', 'e', 'n'])
                && ws_run(s, j + ws_run(s, j) + 4) > 0 {
                proof {
                    lemma_ws_run(s, j);
                    lemma_ws_run(s, j + ws_run(s, j) + 4);
                }
                let t0 = j + ws_run(s, j) + 4;
                match expr_at(s, t0 + ws_run(s, t0)) {
                    Parsed::Overflow => Parsed::Overflow,
                    Parsed::NoMatch => Parsed::NoMatch,
                    Parsed::Done(t, k) => if i < k <= s.len() && ws_run(s, k) > 0 && word_at(s, k + ws_run(s, k), seq!['e', 'l', 's', 'e'])
                        && ws_run(s, k + ws_run(s, k) + 4) > 0 {
                        proof {
                            lemma_ws_run(s, k);
                            lemma_ws_run(s, k + ws_run(s, k) + 4);
                        }
                        let f0 = k + ws_run(s, k) + 4;
                        match expr_at(s, f0 + ws_run(s, f0)) {
                            Parsed::Overflow => Parsed::Overflow,
                            Parsed::NoMatch => Parsed::NoMatch,
                            Parsed::Done(f, m) => Parsed::Done(ExprView::If(Box::new(c), Box::new(t), Box::new(f)), m),
                        }
                    } else {
                        Parsed::NoMatch
                    },
                }
            } else {
                Parsed::NoMatch
            },
        }
    } else {
        Parsed::NoMatch
    }
}

/// A function call: a name, then as many expressions as follow, each after
/// whitespace.
pub open spec fn call_at(s: Seq<char>, i: int) -> Parsed<ExprView>
    decreases s.len() - i, 1nat,
{
    match read_name(s, i) {
        Parsed::Done(name, j) => if i < j <= s.len() {
            match args_at(s, j) {
                Parsed::Done(ps, k) => Parsed::Done(ExprView::FuncCall(name, ps), k),
                Parsed::Overflow => Parsed::Overflow,
                Parsed::NoMatch => Parsed::Done(ExprView::FuncCall(name, Seq::empty()), j),
            }
        } else {
            Parsed::NoMatch
        },
        _ => Parsed::NoMatch,
    }
}

/// The arguments of a function call, each after whitespace.
pub open spec fn args_at(s: Seq<char>, i: int) -> Parsed<Seq<ExprView>>
    decreases s.len() - i, 1nat,
{
    if i < 0 || i > s.len() {
        Parsed::NoMatch
    } else {
        proof {
            lemma_ws_run(s, i);
        }
        let w = ws_run(s, i);
        if w == 0 {
            Parsed::Done(Seq::empty(), i)
        } else {
            match expr_at(s, i + w) {
                Parsed::Overflow => Parsed::Overflow,
                Parsed::NoMatch => Parsed::Done(Seq::empty(), i),
                Parsed::Done(e, j) => if i < j <= s.len() {
                    match args_at(s, j) {
                        Parsed::Done(es, k) => Parsed::Done(seq![e] + es, k),
                        Parsed::Overflow => Parsed::Overflow,
                        Parsed::NoMatch => Parsed::Done(seq![e], j),
                    }
                } else {
                    Parsed::NoMatch
                },
            }
        }
    }
}

/// `(`, an expression and `)`.
pub open spec fn parens_at(s: Seq<char>, i: int) -> Parsed<ExprView>
    decreases s.len() - i, 1nat,
{
    if 0 <= i < s.len() && s[i] == '(' {
        match expr_at(s, i + 1) {
            Parsed::Overflow => Parsed::Overflow,
            Parsed::NoMatch => Parsed::NoMatch,
            Parsed::Done(e, j) => if 0 <= j < s.len() && s[j] == ')' {
                Parsed::Done(ExprView::Parens(Box::new(e)), j + 1)
            } else {
                Parsed::NoMatch
            },
        }
    } else {
        Parsed::NoMatch
    }
}

/// The items of a block: an item, then more, each after a line feed and
/// optional whitespace; no items where no first item is found.
pub open spec fn items_at(s: Seq<char>, i: int) -> Parsed<Seq<ItemView>>
    decreases s.len() - i, 4nat,
{
    if i < 0 || i > s.len() {
        Parsed::NoMatch
    } else {
        match item_at(s, i) {
            Parsed::Overflow => Parsed::Overflow,
            Parsed::NoMatch => Parsed::Done(Seq::empty(), i),
            Parsed::Done(it, j) => if i < j <= s.len() {
                match more_items_at(s, j) {
                    Parsed::Done(its, k) => Parsed::Done(seq![it] + its, k),
                    Parsed::Overflow => Parsed::Overflow,
                    Parsed::NoMatch => Parsed::Done(seq![it], j),
                }
            } else {
                Parsed::NoMatch
            },
        }
    }
}

/// The items after the first one of a block.
pub open spec fn more_items_at(s: Seq<char>, i: int) -> Parsed<Seq<ItemView>>
    decreases s.len() - i, 4nat,
{
    if i < 0 || i >= s.len() || s[i] != '\n' {
        Parsed::Done(Seq::empty(), i)
    } else {
        proof {
            lemma_ws_run(s, i + 1);
        }
        let j = i + 1 + ws_run(s, i + 1);
        match item_at(s, j) {
            Parsed::Overflow => Parsed::Overflow,
            Parsed::NoMatch => Parsed::Done(Seq::empty(), i),
            Parsed::Done(it, k) => if j < k <= s.len() {
                match more_items_at(s, k) {
                    Parsed::Done(its, m) => Parsed::Done(seq![it] + its, m),
                    Parsed::Overflow => Parsed::Overflow,
                    Parsed::NoMatch => Parsed::Done(seq![it], k),
                }
            } else {
                Parsed::NoMatch
            },
        }
    }
}

/// An item: a binding (`name = expression`, with optional whitespace around
/// `=`), or else an expression.
pub open spec fn item_at(s: Seq<char>, i: int) -> Parsed<ItemView>
    decreases s.len() - i, 3nat,
{
    if i < 0 || i > s.len() {
        Parsed::NoMatch
    } else {
        match binding_at(s, i) {
            Parsed::Done(it, j) => Parsed::Done(it, j),
            Parsed::Overflow => Parsed::Overflow,
            Parsed::NoMatch => match expr_at(s, i) {
                Parsed::Done(e, j) => Parsed::Done(ItemView::Expr(e), j),
                Parsed::Overflow => Parsed::Overflow,
                Parsed::NoMatch => Parsed::NoMatch,
            },
        }
    }
}

pub open spec fn binding_at(s: Seq<char>, i: int) -> Parsed<ItemView>
    decreases s.len() - i, 2nat,
{
    match read_name(s, i) {
        Parsed::Done(name, j) => if i < j <= s.len() {
            proof {
                lemma_ws_run(s, j);
            }
            let e = j + ws_run(s, j);
            if e < s.len() && s[e] == '=' {
                proof {
                    lemma_ws_run(s, e + 1);
                }
                match expr_at(s, e + 1 + ws_run(s, e + 1)) {
                    Parsed::Done(v, k) => Parsed::Done(ItemView::Binding(name, v), k),
                    Parsed::Overflow => Parsed::Overflow,
                    Parsed::NoMatch => Parsed::NoMatch,
                }
            } else {
                Parsed::NoMatch
            }
        } else {
            Parsed::NoMatch
        },
        _ => Parsed::NoMatch,
    }
}


/// Why reading failed: nothing of the kind was there, or a number literal was
/// too large for an `i32`.
pub use crate::script_parser::ParseError;

pub open spec fn expr_r(r: Result<(Expr, usize), ParseError>, p: Parsed<ExprView>) -> bool {
    match p {
        Parsed::Done(e, j) => r matches Ok((x, k)) && expr_v(x) == e && k == j,
        Parsed::NoMatch => r matches Err(ParseError::NoMatch),
        Parsed::Overflow => r matches Err(ParseError::Overflow),
    }
}

pub open spec fn item_r(r: Result<(Item, usize), ParseError>, p: Parsed<ItemView>) -> bool {
    match p {
        Parsed::Done(e, j) => r matches Ok((x, k)) && item_v(x) == e && k == j,
        Parsed::NoMatch => r matches Err(ParseError::NoMatch),
        Parsed::Overflow => r matches Err(ParseError::Overflow),
    }
}

pub open spec fn items_r(r: Result<(Vec<Item>, usize), ParseError>, p: Parsed<Seq<ItemView>>) -> bool {
    match p {
        Parsed::Done(e, j) => r matches Ok((x, k)) && items_v(x@) == e && k == j,
        Parsed::NoMatch => r matches Err(ParseError::NoMatch),
        Parsed::Overflow => r matches Err(ParseError::Overflow),
    }
}

pub open spec fn args_r(r: Result<(Vec<Expr>, usize), ParseError>, p: Parsed<Seq<ExprView>>) -> bool {
    match p {
        Parsed::Done(e, j) => r matches Ok((x, k)) && exprs_v(x@) == e && k == j,
        Parsed::NoMatch => r matches Err(ParseError::NoMatch),
        Parsed::Overflow => r matches Err(ParseError::Overflow),
    }
}

pub open spec fn parts_r(r: Result<(Vec<(Expr, String)>, usize), ParseError>, p: Parsed<Seq<(ExprView, Seq<char>)>>) -> bool {
    match p {
        Parsed::Done(e, j) => r matches Ok((x, k)) && parts_v(x@) == e && k == j,
        Parsed::NoMatch => r matches Err(ParseError::NoMatch),
        Parsed::Overflow => r matches Err(ParseError::Overflow),
    }
}

proof fn lemma_items_v(v: Seq<Item>)
    ensures
        items_v(v).len() == v.len(),
        forall|k: int| 0 <= k < v.len() ==> #[trigger] items_v(v)[k] == item_v(v[k]),
    decreases v.len(),
{
    if v.len() > 0 {
        lemma_items_v(v.drop_last());
    }
}

proof fn lemma_exprs_v(v: Seq<Expr>)
    ensures
        exprs_v(v).len() == v.len(),
        forall|k: int| 0 <= k < v.len() ==> #[trigger] exprs_v(v)[k] == expr_v(v[k]),
    decreases v.len(),
{
    if v.len() > 0 {
        lemma_exprs_v(v.drop_last());
    }
}

proof fn lemma_parts_v(v: Seq<(Expr, String)>)
    ensures
        parts_v(v).len() == v.len(),
        forall|k: int| 0 <= k < v.len() ==> #[trigger] parts_v(v)[k] == (expr_v(v[k].0), v[k].1@),
    decreases v.len(),
{
    if v.len() > 0 {
        lemma_parts_v(v.drop_last());
    }
}

fn name_at(s: &Vec<char>, i: usize) -> (r: Option<(IdentName, usize)>)
    requires
        i <= s@.len(),
    ensures
        match read_name(s@, i as int) {
            Parsed::Done(n, j) => r matches Some((x, k)) && x@ == n && k == j && i < k <= s@.len(),
            _ => r is None,
        },
{
    match crate::script_parser::parse_ident(s, i) {
        None => None,
        Some((n, j)) => {
            let cs = crate::text::chars_of(n.as_str());
            if crate::ident_name::holds_keyword_exec(&cs) {
                None
            } else {
                Some((n, j))
            }
        },
    }
}

fn word_at_exec(s: &Vec<char>, i: usize, w: &Vec<char>) -> (b: bool)
    requires
        i <= s@.len(),
    ensures
        b == word_at(s@, i as int, w@),
{
    crate::ident_name::occurs_at(s, i, w)
}

fn literal_end_exec(s: &Vec<char>, i: usize) -> (r: usize)
    requires
        i <= s@.len(),
    ensures
        r == literal_end(s@, i as int),
        i <= r <= s.len(),
{
    proof {
        lemma_literal_end(s@, i as int);
    }
    let mut j = i;
    while j < s.len() && s[j] != '{' && s[j] != '"'
        invariant
            i <= j <= s@.len(),
            literal_end(s@, i as int) == literal_end(s@, j as int),
        decreases s@.len() - j,
    {
        j = j + 1;
    }
    j
}

/// Reads an expression at position `i` of `s`.
pub fn parse_expr_at(s: &Vec<char>, i: usize) -> (r: Result<(Expr, usize), ParseError>)
    requires
        i <= s@.len(),
    ensures
        expr_r(r, expr_at(s@, i as int)),
        r matches Ok((_, j)) ==> j <= s.len(),
    decreases s@.len() - i, 2nat,
{
    proof {
        assert(s@.len() == s.len());
    }
    let true_w = vec!['t', 'r', 'u', 'e'];
    let false_w = vec!['f', 'a', 'l', 's', 'e'];
    proof {
        assert(true_w@ =~= seq!['t', 'r', 'u', 'e']);
        assert(false_w@ =~= seq!['f', 'a', 'l', 's', 'e']);
    }
    if word_at_exec(s, i, &true_w) {
        return Ok((Expr::Bool(true), i + 4));
    }
    if word_at_exec(s, i, &false_w) {
        return Ok((Expr::Bool(false), i + 5));
    }
    match crate::script_parser::parse_number(s, i) {
        Err(ParseError::Overflow) => {
            return Err(ParseError::Overflow);
        },
        Ok((crate::script_ast::Expr::Number(n), j)) => {
            return Ok((Expr::Number(n), j));
        },
        Ok(_) => {
            proof {
                assert(false);
            }
            return Err(ParseError::NoMatch);
        },
        Err(ParseError::NoMatch) => {},
    }
    if i < s.len() && s[i] == '"' {
        proof {
            crate::script_grammar::lemma_quote(s@, i + 1);
        }
        let mut q = i + 1;
        while q < s.len() && s[q] != '"'
            invariant
                i + 1 <= q <= s@.len(),
                quote_at_or_after(s@, i + 1) == quote_at_or_after(s@, q as int),
            decreases s@.len() - q,
        {
            q = q + 1;
        }
        if q < s.len() {
            return Ok((Expr::Str(crate::text::string_of_range(s, i + 1, q)), q + 1));
        }
    }
    match parse_fstr_at(s, i) {
        Err(ParseError::Overflow) => {
            return Err(ParseError::Overflow);
        },
        Ok(x) => {
            return Ok(x);
        },
        Err(ParseError::NoMatch) => {},
    }
    match parse_block_at(s, i) {
        Err(ParseError::Overflow) => {
            return Err(ParseError::Overflow);
        },
        Ok(x) => {
            return Ok(x);
        },
        Err(ParseError::NoMatch) => {},
    }
    if i < s.len() && s[i] == '.' {
        match name_at(s, i + 1) {
            Some((n, j)) => {
                return Ok((Expr::Var(n), j));
            },
            None => {},
        }
    }
    match parse_if_at(s, i) {
        Err(ParseError::Overflow) => {
            return Err(ParseError::Overflow);
        },
        Ok(x) => {
            return Ok(x);
        },
        Err(ParseError::NoMatch) => {},
    }
    match parse_call_at(s, i) {
        Err(ParseError::Overflow) => {
            return Err(ParseError::Overflow);
        },
        Ok(x) => {
            return Ok(x);
        },
        Err(ParseError::NoMatch) => {},
    }
    parse_parens_at(s, i)
}

fn parse_fstr_at(s: &Vec<char>, i: usize) -> (r: Result<(Expr, usize), ParseError>)
    requires
        i <= s@.len(),
    ensures
        expr_r(r, fstr_at(s@, i as int)),
        r matches Ok((_, j)) ==> j <= s.len(),
    decreases s@.len() - i, 1nat,
{
    proof {
        assert(s@.len() == s.len());
    }
    if i < s.len() && s.len() - i > 1 && s[i] == 'f' && s[i + 1] == '"' {
        let l = literal_end_exec(s, i + 2);
        match parse_interps_at(s, l) {
            Err(e) => Err(e),
            Ok((parts, k)) => {
                if k < s.len() && s[k] == '"' {
                    let text = crate::text::string_of_range(s, i + 2, l);
                    Ok((Expr::FStr(text, parts), k + 1))
                } else {
                    Err(ParseError::NoMatch)
                }
            },
        }
    } else {
        Err(ParseError::NoMatch)
    }
}

fn parse_interps_at(s: &Vec<char>, i: usize) -> (r: Result<(Vec<(Expr, String)>, usize), ParseError>)
    requires
        i <= s@.len(),
    ensures
        parts_r(r, interps_at(s@, i as int)),
        r matches Ok((_, j)) ==> j <= s.len(),
    decreases s@.len() - i, 1nat,
{
    if i < s.len() && s[i] == '{' {
        match parse_expr_at(s, i + 1) {
            Err(ParseError::Overflow) => Err(ParseError::Overflow),
            Err(ParseError::NoMatch) => {
                let v: Vec<(Expr, String)> = Vec::new();
                proof {
                    assert(parts_v(v@) =~= Seq::<(ExprView, Seq<char>)>::empty());
                }
                Ok((v, i))
            },
            Ok((e, j)) => {
                if i < j && j < s.len() && s[j] == '}' {
                    let l = literal_end_exec(s, j + 1);
                    let text = crate::text::string_of_range(s, j + 1, l);
                    let ghost pv = (expr_v(e), text@);
                    match parse_interps_at(s, l) {
                        Ok((rest, k)) => {
                            let ghost old_rest = rest@;
                            let v = crate::script_parser::prepend((e, text), rest);
                            proof {
                                lemma_parts_v(v@);
                                lemma_parts_v(old_rest);
                                assert(parts_v(v@) =~= seq![pv] + parts_v(old_rest));
                            }
                            Ok((v, k))
                        },
                        Err(x) => Err(x),
                    }
                } else {
                    let v: Vec<(Expr, String)> = Vec::new();
                    proof {
                        assert(parts_v(v@) =~= Seq::<(ExprView, Seq<char>)>::empty());
                    }
                    Ok((v, i))
                }
            },
        }
    } else {
        let v: Vec<(Expr, String)> = Vec::new();
        proof {
            assert(parts_v(v@) =~= Seq::<(ExprView, Seq<char>)>::empty());
        }
        Ok((v, i))
    }
}

fn parse_block_at(s: &Vec<char>, i: usize) -> (r: Result<(Expr, usize), ParseError>)
    requires
        i <= s@.len(),
    ensures
        expr_r(r, block_at(s@, i as int)),
        r matches Ok((_, j)) ==> j <= s.len(),
    decreases s@.len() - i, 1nat,
{
    if i < s.len() && s[i] == '{' {
        let j = i + 1 + crate::script_parser::ws_count(s, i + 1);
        match parse_items_at(s, j) {
            Err(e) => Err(e),
            Ok((items, k)) => {
                let k2 = k + crate::script_parser::ws_count(s, k);
                if k2 < s.len() && s[k2] == '}' {
                    Ok((Expr::Block(items), k2 + 1))
                } else {
                    Err(ParseError::NoMatch)
                }
            },
        }
    } else {
        Err(ParseError::NoMatch)
    }
}

fn parse_if_at(s: &Vec<char>, i: usize) -> (r: Result<(Expr, usize), ParseError>)
    requires
        i <= s@.len(),
    ensures
        expr_r(r, if_at(s@, i as int)),
        r matches Ok((_, j)) ==> j <= s.len(),
    decreases s@.len() - i, 1nat,
{
    proof {
        assert(s@.len() == s.len());
    }
    let if_w = vec!['i', 'f'];
    let then_w = vec!['t', 'h', 'e', 'n'];
    let else_w = vec!['e', 'l', 's', 'e'];
    proof {
        assert(if_w@ =~= seq!['i', 'f']);
        assert(then_w@ =~= seq!['t', 'h', 'e', 'n']);
        assert(else_w@ =~= seq!['e', 'l', 's', 'e']);
    }
    if !word_at_exec(s, i, &if_w) {
        return Err(ParseError::NoMatch);
    }
    let w1 = crate::script_parser::ws_count(s, i + 2);
    if w1 == 0 {
        return Err(ParseError::NoMatch);
    }
    let (c, j) = match parse_expr_at(s, i + 2 + w1) {
        Ok(x) => x,
        Err(e) => {
            return Err(e);
        },
    };
    let w2 = crate::script_parser::ws_count(s, j);
    if !(i < j && w2 > 0 && word_at_exec(s, j + w2, &then_w)) {
        return Err(ParseError::NoMatch);
    }
    let w3 = crate::script_parser::ws_count(s, j + w2 + 4);
    if w3 == 0 {
        return Err(ParseError::NoMatch);
    }
    let (t, k) = match parse_expr_at(s, j + w2 + 4 + w3) {
        Ok(x) => x,
        Err(e) => {
            return Err(e);
        },
    };
    let w4 = crate::script_parser::ws_count(s, k);
    if !(i < k && w4 > 0 && word_at_exec(s, k + w4, &else_w)) {
        return Err(ParseError::NoMatch);
    }
    let w5 = crate::script_parser::ws_count(s, k + w4 + 4);
    if w5 == 0 {
        return Err(ParseError::NoMatch);
    }
    let (f, m) = match parse_expr_at(s, k + w4 + 4 + w5) {
        Ok(x) => x,
        Err(e) => {
            return Err(e);
        },
    };
    Ok((Expr::If { condition: Box::new(c), true_case: Box::new(t), false_case: Box::new(f) }, m))
}

fn parse_call_at(s: &Vec<char>, i: usize) -> (r: Result<(Expr, usize), ParseError>)
    requires
        i <= s@.len(),
    ensures
        expr_r(r, call_at(s@, i as int)),
        r matches Ok((_, j)) ==> j <= s.len(),
    decreases s@.len() - i, 1nat,
{
    match name_at(s, i) {
        None => Err(ParseError::NoMatch),
        Some((name, j)) => match parse_args_at(s, j) {
            Ok((params, k)) => Ok((Expr::FuncCall { name, params }, k)),
            Err(ParseError::Overflow) => Err(ParseError::Overflow),
            Err(ParseError::NoMatch) => {
                let params: Vec<Expr> = Vec::new();
                proof {
                    assert(exprs_v(params@) =~= Seq::<ExprView>::empty());
                }
                Ok((Expr::FuncCall { name, params }, j))
            },
        },
    }
}

fn parse_args_at(s: &Vec<char>, i: usize) -> (r: Result<(Vec<Expr>, usize), ParseError>)
    requires
        i <= s@.len(),
    ensures
        args_r(r, args_at(s@, i as int)),
        r matches Ok((_, j)) ==> j <= s.len(),
    decreases s@.len() - i, 1nat,
{
    let w = crate::script_parser::ws_count(s, i);
    if w == 0 {
        let v: Vec<Expr> = Vec::new();
        proof {
            assert(exprs_v(v@) =~= Seq::<ExprView>::empty());
        }
        return Ok((v, i));
    }
    match parse_expr_at(s, i + w) {
        Err(ParseError::Overflow) => Err(ParseError::Overflow),
        Err(ParseError::NoMatch) => {
            let v: Vec<Expr> = Vec::new();
            proof {
                assert(exprs_v(v@) =~= Seq::<ExprView>::empty());
            }
            Ok((v, i))
        },
        Ok((e, j)) => {
            if i < j && j <= s.len() {
                let ghost ev = expr_v(e);
                match parse_args_at(s, j) {
                    Ok((es, k)) => {
                        let ghost old_es = es@;
                        let v = crate::script_parser::prepend(e, es);
                        proof {
                            lemma_exprs_v(v@);
                            lemma_exprs_v(old_es);
                            assert(exprs_v(v@) =~= seq![ev] + exprs_v(old_es));
                        }
                        Ok((v, k))
                    },
                    Err(ParseError::Overflow) => Err(ParseError::Overflow),
                    Err(ParseError::NoMatch) => {
                        let v = crate::script_parser::prepend(e, Vec::new());
                        proof {
                            lemma_exprs_v(v@);
                            assert(exprs_v(v@) =~= seq![ev]);
                        }
                        Ok((v, j))
                    },
                }
            } else {
                Err(ParseError::NoMatch)
            }
        },
    }
}

fn parse_parens_at(s: &Vec<char>, i: usize) -> (r: Result<(Expr, usize), ParseError>)
    requires
        i <= s@.len(),
    ensures
        expr_r(r, parens_at(s@, i as int)),
        r matches Ok((_, j)) ==> j <= s.len(),
    decreases s@.len() - i, 1nat,
{
    if i < s.len() && s[i] == '(' {
        match parse_expr_at(s, i + 1) {
            Err(e) => Err(e),
            Ok((e, j)) => {
                if j < s.len() && s[j] == ')' {
                    Ok((Expr::Parens(Box::new(e)), j + 1))
                } else {
                    Err(ParseError::NoMatch)
                }
            },
        }
    } else {
        Err(ParseError::NoMatch)
    }
}

fn parse_items_at(s: &Vec<char>, i: usize) -> (r: Result<(Vec<Item>, usize), ParseError>)
    requires
        i <= s@.len(),
    ensures
        items_r(r, items_at(s@, i as int)),
        r matches Ok((_, j)) ==> j <= s.len(),
    decreases s@.len() - i, 4nat,
{
    match parse_item_at(s, i) {
        Err(ParseError::Overflow) => Err(ParseError::Overflow),
        Err(ParseError::NoMatch) => {
            let v: Vec<Item> = Vec::new();
            proof {
                assert(items_v(v@) =~= Seq::<ItemView>::empty());
            }
            Ok((v, i))
        },
        Ok((it, j)) => {
            if i < j && j <= s.len() {
                let ghost iv = item_v(it);
                match parse_more_items_at(s, j) {
                    Ok((its, k)) => {
                        let ghost old_its = its@;
                        let v = crate::script_parser::prepend(it, its);
                        proof {
                            lemma_items_v(v@);
                            lemma_items_v(old_its);
                            assert(items_v(v@) =~= seq![iv] + items_v(old_its));
                        }
                        Ok((v, k))
                    },
                    Err(ParseError::Overflow) => Err(ParseError::Overflow),
                    Err(ParseError::NoMatch) => {
                        let v = crate::script_parser::prepend(it, Vec::new());
                        proof {
                            lemma_items_v(v@);
                            assert(items_v(v@) =~= seq![iv]);
                        }
                        Ok((v, j))
                    },
                }
            } else {
                Err(ParseError::NoMatch)
            }
        },
    }
}

fn parse_more_items_at(s: &Vec<char>, i: usize) -> (r: Result<(Vec<Item>, usize), ParseError>)
    requires
        i <= s@.len(),
    ensures
        items_r(r, more_items_at(s@, i as int)),
        r matches Ok((_, j)) ==> j <= s.len(),
    decreases s@.len() - i, 4nat,
{
    if i >= s.len() || s[i] != '\n' {
        let v: Vec<Item> = Vec::new();
        proof {
            assert(items_v(v@) =~= Seq::<ItemView>::empty());
        }
        return Ok((v, i));
    }
    let j = i + 1 + crate::script_parser::ws_count(s, i + 1);
    match parse_item_at(s, j) {
        Err(ParseError::Overflow) => Err(ParseError::Overflow),
        Err(ParseError::NoMatch) => {
            let v: Vec<Item> = Vec::new();
            proof {
                assert(items_v(v@) =~= Seq::<ItemView>::empty());
            }
            Ok((v, i))
        },
        Ok((it, k)) => {
            if j < k && k <= s.len() {
                let ghost iv = item_v(it);
                match parse_more_items_at(s, k) {
                    Ok((its, m)) => {
                        let ghost old_its = its@;
                        let v = crate::script_parser::prepend(it, its);
                        proof {
                            lemma_items_v(v@);
                            lemma_items_v(old_its);
                            assert(items_v(v@) =~= seq![iv] + items_v(old_its));
                        }
                        Ok((v, m))
                    },
                    Err(ParseError::Overflow) => Err(ParseError::Overflow),
                    Err(ParseError::NoMatch) => {
                        let v = crate::script_parser::prepend(it, Vec::new());
                        proof {
                            lemma_items_v(v@);
                            assert(items_v(v@) =~= seq![iv]);
                        }
                        Ok((v, k))
                    },
                }
            } else {
                Err(ParseError::NoMatch)
            }
        },
    }
}

/// Reads an item at position `i` of `s`.
pub fn parse_item_at(s: &Vec<char>, i: usize) -> (r: Result<(Item, usize), ParseError>)
    requires
        i <= s@.len(),
    ensures
        item_r(r, item_at(s@, i as int)),
        r matches Ok((_, j)) ==> j <= s.len(),
    decreases s@.len() - i, 3nat,
{
    match parse_binding_at(s, i) {
        Ok(x) => {
            return Ok(x);
        },
        Err(ParseError::Overflow) => {
            return Err(ParseError::Overflow);
        },
        Err(ParseError::NoMatch) => {},
    }
    match parse_expr_at(s, i) {
        Ok((e, j)) => Ok((Item::Expr(e), j)),
        Err(e) => Err(e),
    }
}

fn parse_binding_at(s: &Vec<char>, i: usize) -> (r: Result<(Item, usize), ParseError>)
    requires
        i <= s@.len(),
    ensures
        item_r(r, binding_at(s@, i as int)),
        r matches Ok((_, j)) ==> j <= s.len(),
    decreases s@.len() - i, 2nat,
{
    match name_at(s, i) {
        None => Err(ParseError::NoMatch),
        Some((name, j)) => {
            let e = j + crate::script_parser::ws_count(s, j);
            if e < s.len() && s[e] == '=' {
                let v = e + 1 + crate::script_parser::ws_count(s, e + 1);
                match parse_expr_at(s, v) {
                    Ok((val, k)) => Ok((Item::Binding { name, val }, k)),
                    Err(err) => Err(err),
                }
            } else {
                Err(ParseError::NoMatch)
            }
        },
    }
}

impl Expr {
    /// Reads an expression at the start of `s`; gives the rest of the text
    /// beside it.
    pub fn new(s: &str) -> (r: Result<(String, Expr), ParseError>)
        requires
            !(expr_at(s@, 0) is Overflow),
        ensures
            match expr_at(s@, 0) {
                Parsed::Done(e, j) => r matches Ok((rest, x)) && expr_v(x) == e && rest@ == s@.skip(j),
                _ => r == Err::<(String, Expr), ParseError>(ParseError::NoMatch),
            },
    {
        let cs = crate::text::chars_of(s);
        match parse_expr_at(&cs, 0) {
            Ok((e, j)) => {
                let rest = crate::text::string_of_range(&cs, j, cs.len());
                proof {
                    assert(cs@.subrange(j as int, cs@.len() as int) =~= s@.skip(j as int));
                }
                Ok((rest, e))
            },
            Err(_) => Err(ParseError::NoMatch),
        }
    }
}

impl Item {
    /// Reads an item at the start of `s`; gives the rest of the text beside it.
    pub fn new(s: &str) -> (r: Result<(String, Item), ParseError>)
        requires
            !(item_at(s@, 0) is Overflow),
        ensures
            match item_at(s@, 0) {
                Parsed::Done(it, j) => r matches Ok((rest, x)) && item_v(x) == it && rest@ == s@.skip(j),
                _ => r == Err::<(String, Item), ParseError>(ParseError::NoMatch),
            },
    {
        let cs = crate::text::chars_of(s);
        match parse_item_at(&cs, 0) {
            Ok((it, j)) => {
                let rest = crate::text::string_of_range(&cs, j, cs.len());
                proof {
                    assert(cs@.subrange(j as int, cs@.len() as int) =~= s@.skip(j as int));
                }
                Ok((rest, it))
            },
            Err(_) => Err(ParseError::NoMatch),
        }
    }
}

} // verus!
