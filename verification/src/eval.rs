//! Evaluation of Fjord syntax trees.
//!
//! A binding usage reads the innermost binding of its name; a function call
//! evaluates its parameters in order and runs the lambda bound to its name in
//! a new scope inside the caller's, with the lambda's parameter names bound to
//! them; a binary operation works on two numbers.
//!
//! Evaluation stops the program (it panics) on trees that the parser does
//! not build, on number literals that do not fit, and where arithmetic
//! overflows or divides by zero; the contracts call that outcome `Panic` and
//! the public functions require that it does not come. Lambdas may call each
//! other without end, so the contracts count steps, and speak of evaluations
//! that end.

use vstd::prelude::*;
use std::rc::Rc;
use crate::syntax_kind::SyntaxKind;
use crate::text_range::TextRange;
use crate::tree::{SyntaxNode, SyntaxElement, SyntaxToken, rc_clone};
use crate::val::{Val, Lambda, Ty};
use crate::env::{
    Env, Frame, SVal, EvalErrorKind, val_view, sval_ty, lookup, bind, frames_view, lookup_in,
};
use crate::script_eval::map_set;
use crate::parser::{ParseOutput, NoErrors};
use crate::debug_tree::{decimal, digit_char};
use crate::val::signed_decimal;
use crate::script_grammar::{is_ascii_digit, digits_value};
use crate::ast::{
    is_expr, first_expr_from, first_item_from, first_op_from, first_node_from, first_token,
    atom_texts, binding_name, binding_def_expr, find_expr, find_item, find_op, find_node,
    first_token_of, binding_name_of, atom_texts_of, lemma_first_expr_from,
};

verus! {

/// An evaluation error: what went wrong, and where in the text.
#[derive(Debug, Clone, Copy, PartialEq, Eq, Hash, Structural)]
pub struct EvalError {
    pub kind: EvalErrorKind,
    pub range: TextRange,
}

impl EvalError {
    pub fn new(kind: EvalErrorKind, range: TextRange) -> (e: EvalError)
        ensures
            e.kind == kind,
            e.range == range,
    {
        EvalError { kind, range }
    }
}

/// How an evaluation that ends comes out.
pub enum Outcome {
    Value(SVal),
    Failed(EvalError),
    /// the program stops here (a panic)
    Panic,
}

pub open spec fn all_digits(d: Seq<char>) -> bool {
    forall|i: int| 0 <= i < d.len() ==> is_ascii_digit(#[trigger] d[i])
}

/// `str::parse::<i64>`: an optional sign and decimal digits, in range.
pub open spec fn parse_i64(s: Seq<char>) -> Option<i64> {
    if s.len() == 0 {
        None
    } else if s[0] == '+' || s[0] == '-' {
        let d = s.skip(1);
        if d.len() == 0 || !all_digits(d) {
            None
        } else if s[0] == '+' {
            if digits_value(d) <= i64::MAX {
                Some(digits_value(d) as i64)
            } else {
                None
            }
        } else if -digits_value(d) >= i64::MIN {
            Some((-digits_value(d)) as i64)
        } else {
            None
        }
    } else if all_digits(s) && digits_value(s) <= i64::MAX {
        Some(digits_value(s) as i64)
    } else {
        None
    }
}

/// What a literal token evaluates to: a number literal is parsed, a string
/// literal loses its first and last character (its quotes).
pub open spec fn literal_outcome(t: SyntaxToken) -> Outcome {
    let s = t.text@;
    if t.kind == SyntaxKind::Digits {
        match parse_i64(s) {
            Some(v) => Outcome::Value(SVal::Number(v)),
            None => Outcome::Panic,
        }
    } else if t.kind == SyntaxKind::StringLiteral {
        if s.len() >= 2 && (s[0] as u32) < 128 && (s.last() as u32) < 128 {
            Outcome::Value(SVal::Str(s.subrange(1, s.len() - 1)))
        } else {
            Outcome::Panic
        }
    } else {
        Outcome::Panic
    }
}

pub open spec fn abs(a: int) -> int {
    if a < 0 {
        -a
    } else {
        a
    }
}

/// Division that rounds toward zero, as Rust's `/` on integers does.
pub open spec fn trunc_div(a: int, b: int) -> int {
    if (a >= 0) == (b > 0) {
        abs(a) / abs(b)
    } else {
        -(abs(a) / abs(b))
    }
}

pub open spec fn in_i64(x: int) -> bool {
    i64::MIN <= x <= i64::MAX
}

/// The result of an arithmetic operator on two numbers; `None` where the
/// program stops (overflow, division by zero).
pub open spec fn arith(op: SyntaxKind, a: i64, b: i64) -> Option<i64> {
    let r = if op == SyntaxKind::Plus {
        a + b
    } else if op == SyntaxKind::Minus {
        a - b
    } else if op == SyntaxKind::Star {
        a * b
    } else if b != 0 {
        trunc_div(a as int, b as int)
    } else {
        0
    };
    if op == SyntaxKind::Slash && b == 0 {
        None
    } else if in_i64(r) {
        Some(r as i64)
    } else {
        None
    }
}

/// The scope of a lambda call: its parameter names bound to the values, one
/// after the other.
pub open spec fn lambda_scope(names: Seq<Seq<char>>, vals: Seq<SVal>, i: int, m: Seq<(Seq<char>, SVal)>) -> Seq<(Seq<char>, SVal)>
    decreases names.len() - i,
{
    if i < 0 || i >= names.len() || i >= vals.len() {
        m
    } else {
        lambda_scope(names, vals, i + 1, map_set(m, names[i], vals[i]))
    }
}

/// Evaluates `e` in the scopes `st` with at most `fuel` nested steps; `None`
/// where that is not enough.
pub open spec fn eval_expr(e: SyntaxElement, st: Seq<Seq<(Seq<char>, SVal)>>, fuel: nat) -> Option<Outcome>
    decreases fuel, 0nat, 0nat,
{
    if fuel == 0 {
        None
    } else {
        match e {
            SyntaxElement::Token(t) => Some(literal_outcome(t)),
            SyntaxElement::Node(rc) => {
                let n = *rc;
                if n.kind == SyntaxKind::BinOp {
                    eval_bin_op(n, st, (fuel - 1) as nat)
                } else if n.kind == SyntaxKind::FunctionCall {
                    eval_call(n, st, (fuel - 1) as nat)
                } else if n.kind == SyntaxKind::Lambda {
                    Some(Outcome::Value(SVal::Lambda(Lambda(rc))))
                } else if n.kind == SyntaxKind::BindingUsage {
                    Some(
                        match binding_name(n) {
                            None => Outcome::Panic,
                            Some(k) => match lookup(st, k) {
                                Some(v) => Outcome::Value(v),
                                None => Outcome::Failed(EvalError { kind: EvalErrorKind::BindingDoesNotExist, range: n.range }),
                            },
                        },
                    )
                } else {
                    Some(Outcome::Panic)
                }
            },
        }
    }
}

/// A binary operation: the operator, then the left operand, then the right.
pub open spec fn eval_bin_op(n: SyntaxNode, st: Seq<Seq<(Seq<char>, SVal)>>, fuel: nat) -> Option<Outcome>
    decreases fuel, 1nat, 0nat,
{
    let cs = n.children@;
    let o = first_op_from(cs, 0);
    let l = first_expr_from(cs, 0);
    if o < 0 || o >= cs.len() || l < 0 || l >= cs.len() {
        Some(Outcome::Panic)
    } else {
        match eval_expr(cs[l], st, fuel) {
            None => None,
            Some(Outcome::Value(lv)) => {
                let r = first_expr_from(cs, l + 1);
                if r < 0 || r >= cs.len() {
                    Some(Outcome::Panic)
                } else {
                    match eval_expr(cs[r], st, fuel) {
                        None => None,
                        Some(Outcome::Value(rv)) => Some(
                            match (lv, rv) {
                                (SVal::Number(a), SVal::Number(b)) => match arith(
                                    cs[o]->Token_0.kind,
                                    a,
                                    b,
                                ) {
                                    Some(x) => Outcome::Value(SVal::Number(x)),
                                    None => Outcome::Panic,
                                },
                                _ => Outcome::Failed(EvalError {
                                    kind: EvalErrorKind::BinOpOnNonNumbers { lhs_ty: sval_ty(lv), rhs_ty: sval_ty(rv) },
                                    range: n.range,
                                }),
                            },
                        ),
                        other => other,
                    }
                }
            },
            other => other,
        }
    }
}

/// Position of the first node of kind `k` among `cs` at or after `i` (or the
/// length).
pub open spec fn first_node_of_kind(cs: Seq<SyntaxElement>, k: SyntaxKind, i: int) -> int
    decreases cs.len() - i,
{
    if i < 0 || i >= cs.len() {
        cs.len() as int
    } else if cs[i] matches SyntaxElement::Node(m) && m.kind == k {
        i
    } else {
        first_node_of_kind(cs, k, i + 1)
    }
}

/// A function call: the name is its first token, which must be an atom; the
/// value bound to it must be a lambda.
pub open spec fn eval_call(n: SyntaxNode, st: Seq<Seq<(Seq<char>, SVal)>>, fuel: nat) -> Option<Outcome>
    decreases fuel, 3nat, 0nat,
{
    match first_token(n) {
        Some(name) if name.kind == SyntaxKind::Atom => match lookup(st, name.text@) {
            None => Some(Outcome::Failed(EvalError { kind: EvalErrorKind::BindingDoesNotExist, range: name.range })),
            Some(SVal::Lambda(l)) => {
                let cs = n.children@;
                let p = first_node_of_kind(cs, SyntaxKind::FunctionCallParams, 0);
                if p < 0 || p >= cs.len() {
                    Some(Outcome::Panic)
                } else {
                    let params = *(cs[p]->Node_0);
                    match eval_args(params.children@, 0, st, fuel) {
                        None => None,
                        Some(Err(o)) => Some(o),
                        Some(Ok(vals)) => call_lambda(l, params.range, vals, st, fuel),
                    }
                }
            },
            Some(_) => Some(Outcome::Failed(EvalError { kind: EvalErrorKind::CallNonLambda, range: name.range })),
        },
        _ => Some(Outcome::Panic),
    }
}

/// The values of the expressions among `cs` from position `i` on, in order;
/// the first failure or panic instead, where one comes.
pub open spec fn eval_args(cs: Seq<SyntaxElement>, i: int, st: Seq<Seq<(Seq<char>, SVal)>>, fuel: nat) -> Option<Result<Seq<SVal>, Outcome>>
    decreases fuel, 1nat, cs.len() - i,
{
    let j = first_expr_from(cs, i);
    if i < 0 || j < i || j >= cs.len() {
        Some(Ok(Seq::empty()))
    } else {
        match eval_expr(cs[j], st, fuel) {
            None => None,
            Some(Outcome::Value(v)) => match eval_args(cs, j + 1, st, fuel) {
                None => None,
                Some(Ok(vs)) => Some(Ok(seq![v] + vs)),
                Some(Err(o)) => Some(Err(o)),
            },
            Some(o) => Some(Err(o)),
        }
    }
}

/// Calls lambda `l` with the values `vals`, from the scopes `st`: its first
/// child node must be its parameter list, and the number of values must match.
pub open spec fn call_lambda(l: Lambda, range: TextRange, vals: Seq<SVal>, st: Seq<Seq<(Seq<char>, SVal)>>, fuel: nat) -> Option<Outcome>
    decreases fuel, 2nat, 0nat,
{
    let n = *l.0;
    let cs = n.children@;
    let p = first_node_from(cs, 0);
    if p < 0 || p >= cs.len() || (cs[p]->Node_0).kind != SyntaxKind::LambdaParams {
        Some(Outcome::Panic)
    } else {
        let names = atom_texts((cs[p]->Node_0).children@);
        if vals.len() < names.len() {
            Some(Outcome::Failed(EvalError { kind: EvalErrorKind::TooFewParams, range }))
        } else if vals.len() > names.len() {
            Some(Outcome::Failed(EvalError { kind: EvalErrorKind::TooManyParams, range }))
        } else {
            let b = first_expr_from(cs, 0);
            if b < 0 || b >= cs.len() {
                Some(Outcome::Panic)
            } else {
                eval_expr(cs[b], st.push(lambda_scope(names, vals, 0, Seq::empty())), fuel)
            }
        }
    }
}

/// Evaluates the items of a program from position `i` on, in the scopes `st`:
/// a binding definition binds its name in the innermost scope and gives nil,
/// and the program gives the value of its last item (`last` so far). Other
/// elements, return statements among them, are passed over. Gives the
/// scopes at the end beside the outcome.
pub open spec fn eval_items(
    cs: Seq<SyntaxElement>,
    i: int,
    st: Seq<Seq<(Seq<char>, SVal)>>,
    last: SVal,
    fuel: nat,
) -> Option<(Outcome, Seq<Seq<(Seq<char>, SVal)>>)>
    decreases cs.len() - i,
{
    let j = first_item_from(cs, i);
    if i < 0 || j < i || j >= cs.len() {
        Some((Outcome::Value(last), st))
    } else {
        match cs[j] {
            SyntaxElement::Node(rc) if rc.kind == SyntaxKind::BindingDef => {
                let k = binding_def_expr(*rc);
                if k < 0 || k >= rc.children@.len() {
                    Some((Outcome::Panic, st))
                } else {
                    match eval_expr(rc.children@[k], st, fuel) {
                        None => None,
                        Some(Outcome::Value(v)) => match binding_name(*rc) {
                            None => Some((Outcome::Panic, st)),
                            Some(name) => eval_items(cs, j + 1, bind(st, name, v), SVal::Nil, fuel),
                        },
                        Some(o) => Some((o, st)),
                    }
                }
            },
            e => match eval_expr(e, st, fuel) {
                None => None,
                Some(Outcome::Value(v)) => eval_items(cs, j + 1, st, v, fuel),
                Some(o) => Some((o, st)),
            },
        }
    }
}

/// Whether `r` is what the outcome `o` says.
pub open spec fn result_is(r: Result<Val, EvalError>, o: Outcome) -> bool {
    match o {
        Outcome::Value(v) => r matches Ok(x) && val_view(x) == v,
        Outcome::Failed(e) => r == Err::<Val, EvalError>(e),
        Outcome::Panic => false,
    }
}

pub open spec fn ctx(env: Seq<Frame>, stack: Seq<Frame>) -> Seq<Seq<(Seq<char>, SVal)>> {
    frames_view(env + stack)
}


proof fn lemma_first_op_from(cs: Seq<SyntaxElement>, i: int)
    requires
        0 <= i <= cs.len(),
    ensures
        i <= first_op_from(cs, i) <= cs.len(),
        first_op_from(cs, i) < cs.len() ==> (cs[first_op_from(cs, i)] matches SyntaxElement::Token(t) && crate::ast::is_op_kind(t.kind)),
    decreases cs.len() - i,
{
    if i < cs.len() && !(cs[i] matches SyntaxElement::Token(t) && crate::ast::is_op_kind(t.kind)) {
        lemma_first_op_from(cs, i + 1);
    }
}

proof fn lemma_first_node_from(cs: Seq<SyntaxElement>, i: int)
    requires
        0 <= i <= cs.len(),
    ensures
        i <= first_node_from(cs, i) <= cs.len(),
        first_node_from(cs, i) < cs.len() ==> cs[first_node_from(cs, i)] is Node,
    decreases cs.len() - i,
{
    if i < cs.len() && !(cs[i] is Node) {
        lemma_first_node_from(cs, i + 1);
    }
}

proof fn lemma_first_node_of_kind(cs: Seq<SyntaxElement>, k: SyntaxKind, i: int)
    requires
        0 <= i <= cs.len(),
    ensures
        i <= first_node_of_kind(cs, k, i) <= cs.len(),
        first_node_of_kind(cs, k, i) < cs.len() ==> (cs[first_node_of_kind(cs, k, i)] matches SyntaxElement::Node(m) && m.kind == k),
    decreases cs.len() - i,
{
    if i < cs.len() && !(cs[i] matches SyntaxElement::Node(m) && m.kind == k) {
        lemma_first_node_of_kind(cs, k, i + 1);
    }
}

proof fn lemma_digits_prefix(d: Seq<char>, k: int)
    requires
        0 <= k <= d.len(),
        all_digits(d),
    ensures
        0 <= digits_value(d.take(k)) <= digits_value(d),
    decreases d.len() - k,
{
    if k < d.len() {
        lemma_digits_prefix(d, k + 1);
        assert(d.take(k + 1).drop_last() =~= d.take(k));
        assert(is_ascii_digit(d[k]));
    } else {
        assert(d.take(k) =~= d);
    }
    lemma_digits_nonneg(d.take(k));
}

proof fn lemma_digits_nonneg(d: Seq<char>)
    requires
        all_digits(d),
    ensures
        digits_value(d) >= 0,
    decreases d.len(),
{
    if d.len() > 0 {
        assert(all_digits(d.drop_last())) by {
            assert forall|i: int| 0 <= i < d.drop_last().len() implies is_ascii_digit(#[trigger] d.drop_last()[i]) by {
                assert(d.drop_last()[i] == d[i]);
            }
        }
        lemma_digits_nonneg(d.drop_last());
        assert(is_ascii_digit(d.last()));
    }
}

/// `str::parse::<i64>` on the characters `cs`.
fn parse_i64_exec(cs: &Vec<char>) -> (r: Option<i64>)
    ensures
        r == parse_i64(cs@),
{
    let n = cs.len();
    if n == 0 {
        return None;
    }
    let signed = cs[0] == '+' || cs[0] == '-';
    let neg = cs[0] == '-';
    let from: usize = if signed { 1 } else { 0 };
    let ghost d = cs@.skip(from as int);
    proof {
        if !signed {
            assert(d =~= cs@);
        }
    }
    if from == n {
        proof {
            assert(d.len() == 0);
        }
        return None;
    }
    let mut k = from;
    while k < n
        invariant
            from <= k <= n,
            n == cs@.len(),
            d == cs@.skip(from as int),
            n > 0,
            signed == (cs@[0] == '+' || cs@[0] == '-'),
            neg == (cs@[0] == '-'),
            from == (if signed { 1usize } else { 0usize }),
            !signed ==> d == cs@,
            forall|m: int| 0 <= m < k - from ==> is_ascii_digit(#[trigger] d[m]),
        decreases n - k,
    {
        if !('0' <= cs[k] && cs[k] <= '9') {
            proof {
                assert(d[k - from] == cs@[k as int]);
                assert(!all_digits(d));
                if signed {
                    assert(d == cs@.skip(1));
                } else {
                    assert(!all_digits(cs@));
                }
                assert(parse_i64(cs@) is None);
            }
            return None;
        }
        proof {
            assert(d[k - from] == cs@[k as int]);
        }
        k = k + 1;
    }
    proof {
        assert(all_digits(d));
    }
    let limit: u64 = if neg { 9223372036854775808u64 } else { 9223372036854775807u64 };
    let mut v: u64 = 0;
    let mut k = from;
    proof {
        assert(d.take(0) =~= Seq::<char>::empty());
    }
    while k < n
        invariant
            from <= k <= n,
            n == cs@.len(),
            d == cs@.skip(from as int),
            n > 0,
            signed == (cs@[0] == '+' || cs@[0] == '-'),
            neg == (cs@[0] == '-'),
            from == (if signed { 1usize } else { 0usize }),
            !signed ==> d == cs@,
            all_digits(d),
            v == digits_value(d.take(k - from)),
            v <= limit,
            limit <= 9223372036854775808u64,
            limit == (if neg { 9223372036854775808u64 } else { 9223372036854775807u64 }),
            limit >= 9,
        decreases n - k,
    {
        proof {
            lemma_digits_prefix(d, k - from + 1);
            assert(d.take(k - from + 1).drop_last() =~= d.take(k - from));
            assert(d[k - from] == cs@[k as int]);
            assert(is_ascii_digit(d[k - from]));
        }
        let dig = (cs[k] as u32 - '0' as u32) as u64;
        if v > (limit - dig) / 10 {
            proof {
                assert(v * 10 + dig > limit) by (nonlinear_arith)
                    requires
                        v > (limit - dig) / 10,
                        dig <= 9,
                        limit >= 9,
                ;
                assert(digits_value(d.take(k - from + 1)) == digits_value(d.take(k - from)) * 10 + (d[k - from] as int - '0' as int));
                assert(digits_value(d) > limit);
                if signed {
                    assert(d == cs@.skip(1));
                } else {
                    assert(d == cs@);
                }
                assert(parse_i64(cs@) is None);
            }
            return None;
        }
        proof {
            assert(v * 10 + dig <= limit) by (nonlinear_arith)
                requires
                    v <= (limit - dig) / 10,
                    dig <= 9,
                    limit >= 9,
            ;
        }
        v = v * 10 + dig;
        k = k + 1;
    }
    proof {
        assert(d.take(k - from) =~= d);
    }
    if neg {
        if v == 9223372036854775808u64 {
            Some(i64::MIN)
        } else {
            Some(-(v as i64))
        }
    } else {
        Some(v as i64)
    }
}

/// What a literal token evaluates to; `None` where that stops the program.
fn literal_exec(t: &SyntaxToken) -> (r: Option<Result<Val, EvalError>>)
    ensures
        outcome_is(r, Some(literal_outcome(*t))),
{
    let cs = crate::text::chars_of(t.text.as_str());
    if t.kind == SyntaxKind::StringLiteral {
        let n = cs.len();
        if n >= 2 && (cs[0] as u32) < 128 && (cs[n - 1] as u32) < 128 {
            let s = crate::text::string_of_range(&cs, 1, n - 1);
            return Some(Ok(Val::Str(s)));
        }
        return None;
    }
    if t.kind == SyntaxKind::Digits {
        match parse_i64_exec(&cs) {
            Some(v) => Some(Ok(Val::Number(v))),
            None => None,
        }
    } else {
        None
    }
}

/// Applies an arithmetic operator to two numbers; `None` where that stops the
/// program (overflow, division by zero).
fn arith_checked(op: SyntaxKind, a: i64, b: i64) -> (r: Option<i64>)
    requires
        crate::ast::is_op_kind(op),
    ensures
        r == arith(op, a, b),
{
    if op == SyntaxKind::Plus {
        a.checked_add(b)
    } else if op == SyntaxKind::Minus {
        a.checked_sub(b)
    } else if op == SyntaxKind::Star {
        a.checked_mul(b)
    } else {
        if b == 0 {
            return None;
        }
        if a == i64::MIN && b == -1 {
            proof {
                assert(trunc_div(a as int, b as int) == 9223372036854775808);
            }
            return None;
        }
        let ma: u128 = if a < 0 { (-(a as i128)) as u128 } else { a as u128 };
        let mb: u128 = if b < 0 { (-(b as i128)) as u128 } else { b as u128 };
        let q = ma / mb;
        proof {
            assert(ma == abs(a as int));
            assert(mb == abs(b as int));
            assert(q <= ma);
            if mb == 1 {
                assert(q == ma / 1);
                assert(ma / 1 == ma);
            } else {
                assert(q <= ma / 2) by (nonlinear_arith)
                    requires
                        mb >= 2,
                        q == ma / mb,
                ;
            }
        }
        if (a >= 0) == (b > 0) {
            Some(q as i64)
        } else {
            Some((-(q as i128)) as i64)
        }
    }
}

fn find_node_kind(cs: &Vec<SyntaxElement>, k: SyntaxKind, i: usize) -> (r: usize)
    requires
        i <= cs@.len(),
    ensures
        r == first_node_of_kind(cs@, k, i as int),
        i <= r <= cs@.len(),
{
    let mut j = i;
    while j < cs.len()
        invariant
            i <= j <= cs@.len(),
            first_node_of_kind(cs@, k, i as int) == first_node_of_kind(cs@, k, j as int),
        decreases cs@.len() - j,
    {
        match &cs[j] {
            SyntaxElement::Node(m) => {
                if m.kind == k {
                    return j;
                }
            },
            SyntaxElement::Token(_) => {},
        }
        j = j + 1;
    }
    j
}

pub open spec fn vals_view(v: Seq<Val>) -> Seq<SVal> {
    v.map_values(|x: Val| val_view(x))
}

pub open spec fn with_prefix(p: Seq<SVal>, r: Option<Result<Seq<SVal>, Outcome>>) -> Option<Result<Seq<SVal>, Outcome>> {
    match r {
        Some(Ok(vs)) => Some(Ok(p + vs)),
        other => other,
    }
}

/// What a run of the evaluator that may stop early gives for an outcome: the
/// value or the error, and `None` where the steps ran out or where the program
/// would stop.
pub open spec fn outcome_is(r: Option<Result<Val, EvalError>>, x: Option<Outcome>) -> bool {
    match x {
        Some(Outcome::Value(v)) => r matches Some(Ok(y)) && val_view(y) == v,
        Some(Outcome::Failed(e)) => r == Some(Err::<Val, EvalError>(e)),
        _ => r is None,
    }
}

fn eval_expr_exec(e: &SyntaxElement, env: &Env, stack: &mut Vec<Frame>, fuel: u64) -> (r: Option<Result<Val, EvalError>>)
    ensures
        final(stack)@ == old(stack)@,
        outcome_is(r, eval_expr(*e, ctx(env.frame_seq(), old(stack)@), fuel as nat)),
    decreases fuel, 0nat, 0nat,
{
    if fuel == 0 {
        return None;
    }
    match e {
        SyntaxElement::Token(t) => literal_exec(t),
        SyntaxElement::Node(rc) => {
            let n: &SyntaxNode = &**rc;
            if n.kind == SyntaxKind::BinOp {
                eval_bin_op_exec(n, env, stack, fuel - 1)
            } else if n.kind == SyntaxKind::FunctionCall {
                eval_call_exec(n, env, stack, fuel - 1)
            } else if n.kind == SyntaxKind::Lambda {
                Some(Ok(Val::Lambda(Lambda(rc_clone(rc)))))
            } else if n.kind == SyntaxKind::BindingUsage {
                match binding_name_of(n) {
                    None => None,
                    Some(k) => match env.lookup_with(stack, k.as_str()) {
                        Some(v) => Some(Ok(v)),
                        None => Some(Err(EvalError::new(EvalErrorKind::BindingDoesNotExist, n.range))),
                    },
                }
            } else {
                None
            }
        },
    }
}

fn eval_bin_op_exec(n: &SyntaxNode, env: &Env, stack: &mut Vec<Frame>, fuel: u64) -> (r: Option<Result<Val, EvalError>>)
    ensures
        final(stack)@ == old(stack)@,
        outcome_is(r, eval_bin_op(*n, ctx(env.frame_seq(), old(stack)@), fuel as nat)),
    decreases fuel, 1nat, 0nat,
{
    let cs = &n.children;
    let o = find_op(cs, 0);
    let l = find_expr(cs, 0);
    proof {
        lemma_first_op_from(cs@, 0);
    }
    if l >= cs.len() || o >= cs.len() {
        return None;
    }
    let lv = match eval_expr_exec(&cs[l], env, stack, fuel) {
        None => {
            return None;
        },
        Some(Err(x)) => {
            return Some(Err(x));
        },
        Some(Ok(v)) => v,
    };
    let r = find_expr(cs, l + 1);
    if r >= cs.len() {
        return None;
    }
    let rv = match eval_expr_exec(&cs[r], env, stack, fuel) {
        None => {
            return None;
        },
        Some(Err(x)) => {
            return Some(Err(x));
        },
        Some(Ok(v)) => v,
    };
    let op = match &cs[o] {
        SyntaxElement::Token(t) => t.kind,
        SyntaxElement::Node(_) => SyntaxKind::Error,
    };
    match (&lv, &rv) {
        (Val::Number(a), Val::Number(b)) => match arith_checked(op, *a, *b) {
            Some(x) => Some(Ok(Val::Number(x))),
            None => None,
        },
        _ => Some(Err(EvalError::new(EvalErrorKind::BinOpOnNonNumbers { lhs_ty: lv.ty(), rhs_ty: rv.ty() }, n.range))),
    }
}

/// A failed run of arguments fails with a failure or a stop, never a value.
proof fn lemma_args_err(cs: Seq<SyntaxElement>, i: int, st: Seq<Seq<(Seq<char>, SVal)>>, fuel: nat)
    ensures
        eval_args(cs, i, st, fuel) matches Some(Err(o)) ==> !(o is Value),
    decreases cs.len() - i,
{
    let j = first_expr_from(cs, i);
    if !(i < 0 || j < i || j >= cs.len()) {
        lemma_args_err(cs, j + 1, st, fuel);
    }
}

fn eval_call_exec(n: &SyntaxNode, env: &Env, stack: &mut Vec<Frame>, fuel: u64) -> (r: Option<Result<Val, EvalError>>)
    ensures
        final(stack)@ == old(stack)@,
        outcome_is(r, eval_call(*n, ctx(env.frame_seq(), old(stack)@), fuel as nat)),
    decreases fuel, 3nat, 0nat,
{
    let name = match first_token_of(n) {
        Some(t) => t,
        None => {
            return None;
        },
    };
    if name.kind != SyntaxKind::Atom {
        return None;
    }
    match env.lookup_with(stack, name.text.as_str()) {
        None => Some(Err(EvalError::new(EvalErrorKind::BindingDoesNotExist, name.range))),
        Some(Val::Lambda(l)) => {
            let cs = &n.children;
            let p = find_node_kind(cs, SyntaxKind::FunctionCallParams, 0);
            proof {
                lemma_first_node_of_kind(cs@, SyntaxKind::FunctionCallParams, 0);
            }
            if p >= cs.len() {
                return None;
            }
            match &cs[p] {
                SyntaxElement::Node(m) => {
                    let params: &SyntaxNode = &**m;
                    proof {
                        lemma_args_err(params.children@, 0, ctx(env.frame_seq(), stack@), fuel as nat);
                    }
                    match eval_args_exec(&params.children, env, stack, fuel) {
                        None => None,
                        Some(Err(x)) => Some(Err(x)),
                        Some(Ok(vals)) => call_lambda_exec(&l, params.range, vals, env, stack, fuel),
                    }
                },
                SyntaxElement::Token(_) => None,
            }
        },
        Some(_) => Some(Err(EvalError::new(EvalErrorKind::CallNonLambda, name.range))),
    }
}

fn eval_args_exec(cs: &Vec<SyntaxElement>, env: &Env, stack: &mut Vec<Frame>, fuel: u64) -> (r: Option<Result<Vec<Val>, EvalError>>)
    ensures
        final(stack)@ == old(stack)@,
        match eval_args(cs@, 0, ctx(env.frame_seq(), old(stack)@), fuel as nat) {
            Some(Ok(vs)) => r matches Some(Ok(v)) && vals_view(v@) == vs,
            Some(Err(Outcome::Failed(e))) => r == Some(Err::<Vec<Val>, EvalError>(e)),
            _ => r is None,
        },
    decreases fuel, 1nat, 0nat,
{
    let ghost st = ctx(env.frame_seq(), stack@);
    let ghost whole = eval_args(cs@, 0, st, fuel as nat);
    let mut vals: Vec<Val> = Vec::new();
    let mut i: usize = 0;
    proof {
        assert(vals_view(vals@) =~= Seq::<SVal>::empty());
        assert(with_prefix(Seq::<SVal>::empty(), whole) == whole);
    }
    loop
        invariant
            i <= cs@.len(),
            st == ctx(env.frame_seq(), stack@),
            stack@ == old(stack)@,
            whole == eval_args(cs@, 0, ctx(env.frame_seq(), old(stack)@), fuel as nat),
            whole == with_prefix(vals_view(vals@), eval_args(cs@, i as int, st, fuel as nat)),
        decreases cs@.len() - i,
    {
        let j = find_expr(cs, i);
        if j >= cs.len() {
            proof {
                assert(vals_view(vals@) + Seq::<SVal>::empty() =~= vals_view(vals@));
            }
            return Some(Ok(vals));
        }
        proof {
            lemma_first_expr_from(cs@, i as int);
        }
        match eval_expr_exec(&cs[j], env, stack, fuel) {
            None => {
                return None;
            },
            Some(Err(x)) => {
                return Some(Err(x));
            },
            Some(Ok(v)) => {
                let ghost before = vals_view(vals@);
                let ghost vv = val_view(v);
                vals.push(v);
                proof {
                    assert(vals_view(vals@) =~= before.push(vv));
                    match eval_args(cs@, j + 1, st, fuel as nat) {
                        Some(Ok(vs)) => {
                            assert(before + (seq![vv] + vs) =~= before.push(vv) + vs);
                        },
                        _ => {},
                    }
                }
            },
        }
        i = j + 1;
    }
}

fn call_lambda_exec(
    l: &Lambda,
    range: TextRange,
    vals: Vec<Val>,
    env: &Env,
    stack: &mut Vec<Frame>,
    fuel: u64,
) -> (r: Option<Result<Val, EvalError>>)
    ensures
        final(stack)@ == old(stack)@,
        outcome_is(r, call_lambda(*l, range, vals_view(vals@), ctx(env.frame_seq(), old(stack)@), fuel as nat)),
    decreases fuel, 2nat, 0nat,
{
    let n: &SyntaxNode = &*l.0;
    let cs = &n.children;
    let p = find_node(cs, 0);
    proof {
        lemma_first_node_from(cs@, 0);
    }
    if p >= cs.len() {
        return None;
    }
    let params: &SyntaxNode = match &cs[p] {
        SyntaxElement::Node(m) => &**m,
        SyntaxElement::Token(_) => {
            return None;
        },
    };
    if params.kind != SyntaxKind::LambdaParams {
        return None;
    }
    let names = atom_texts_of(&params.children);
    if vals.len() < names.len() {
        return Some(Err(EvalError::new(EvalErrorKind::TooFewParams, range)));
    }
    if vals.len() > names.len() {
        return Some(Err(EvalError::new(EvalErrorKind::TooManyParams, range)));
    }
    let ghost nv = names@.map_values(|s: String| s@);
    let ghost vv = vals_view(vals@);
    let mut frame = Frame::new();
    let mut i: usize = 0;
    while i < names.len()
        invariant
            i <= names@.len(),
            names@.len() == vals@.len(),
            nv == names@.map_values(|s: String| s@),
            vv == vals_view(vals@),
            lambda_scope(nv, vv, 0, Seq::empty()) == lambda_scope(nv, vv, i as int, frame.view()),
        decreases names@.len() - i,
    {
        frame.set(names[i].clone(), crate::val::clone_val(&vals[i]));
        i = i + 1;
    }
    let b = find_expr(cs, 0);
    if b >= cs.len() {
        return None;
    }
    let ghost s0 = stack@;
    let ghost fr = frame;
    stack.push(frame);
    proof {
        assert(ctx(env.frame_seq(), stack@) =~= ctx(env.frame_seq(), s0).push(fr.view()));
    }
    let r = eval_expr_exec(&cs[b], env, stack, fuel);
    stack.pop();
    proof {
        assert(stack@ =~= s0);
    }
    r
}

/// Whether evaluating `e` in the scopes `st` ends, without stopping the
/// program, within a number of nested steps that a `u64` counts.
pub open spec fn expr_ends(e: SyntaxElement, st: Seq<Seq<(Seq<char>, SVal)>>) -> bool {
    exists|fuel: nat| fuel <= u64::MAX && (#[trigger] eval_expr(e, st, fuel) matches Some(o) && !(o is Panic))
}

/// How evaluating `e` in the scopes `st` comes out, where it ends.
pub open spec fn expr_outcome(e: SyntaxElement, st: Seq<Seq<(Seq<char>, SVal)>>) -> Outcome {
    eval_expr(
        e,
        st,
        choose|fuel: nat| fuel <= u64::MAX && (#[trigger] eval_expr(e, st, fuel) matches Some(o) && !(o is Panic)),
    )->Some_0
}

/// Whether calling `l` with `vals` from the scopes `st` ends, without
/// stopping the program, within a number of nested steps that a `u64` counts.
pub open spec fn call_ends(l: Lambda, range: TextRange, vals: Seq<SVal>, st: Seq<Seq<(Seq<char>, SVal)>>) -> bool {
    exists|fuel: nat| fuel <= u64::MAX && (#[trigger] call_lambda(l, range, vals, st, fuel) matches Some(o) && !(o is Panic))
}

/// How calling `l` with `vals` from the scopes `st` comes out, where it ends.
pub open spec fn call_outcome(l: Lambda, range: TextRange, vals: Seq<SVal>, st: Seq<Seq<(Seq<char>, SVal)>>) -> Outcome {
    call_lambda(
        l,
        range,
        vals,
        st,
        choose|fuel: nat| fuel <= u64::MAX && (#[trigger] call_lambda(l, range, vals, st, fuel) matches Some(o) && !(o is Panic)),
    )->Some_0
}

/// Whether running the items `cs` in the scopes `st` ends, without stopping
/// the program, within a number of nested steps that a `u64` counts.
pub open spec fn items_end(cs: Seq<SyntaxElement>, st: Seq<Seq<(Seq<char>, SVal)>>) -> bool {
    exists|fuel: nat| fuel <= u64::MAX && (#[trigger] eval_items(cs, 0, st, SVal::Nil, fuel) matches Some((o, _)) && !(o is Panic))
}

/// How running the items `cs` in the scopes `st` comes out, and the scopes
/// after it, where it ends.
pub open spec fn items_outcome(cs: Seq<SyntaxElement>, st: Seq<Seq<(Seq<char>, SVal)>>) -> (Outcome, Seq<Seq<(Seq<char>, SVal)>>) {
    eval_items(
        cs,
        0,
        st,
        SVal::Nil,
        choose|fuel: nat| fuel <= u64::MAX && (#[trigger] eval_items(cs, 0, st, SVal::Nil, fuel) matches Some((o, _)) && !(o is Panic)),
    )->Some_0
}

/// What a run of a program that may stop early gives: the outcome of
/// `eval_items` and, where the program did not stop, the scopes after it as
/// `after`; `None` where the steps ran out or where the program would stop.
pub open spec fn run_is(
    r: Option<Result<Val, EvalError>>,
    x: Option<(Outcome, Seq<Seq<(Seq<char>, SVal)>>)>,
    after: Seq<Seq<(Seq<char>, SVal)>>,
) -> bool {
    match x {
        Some((o, st)) => outcome_is(r, Some(o)) && (!(o is Panic) ==> after == st),
        None => r is None,
    }
}

proof fn lemma_ctx_empty(env: &Env)
    ensures
        ctx(env.frame_seq(), Seq::<Frame>::empty()) == env.scopes(),
{
    env.lemma_scopes();
    assert(env.frame_seq() + Seq::<Frame>::empty() =~= env.frame_seq());
}

/// Evaluates the expression `e` in `env` with at most `fuel` nested steps:
/// `None` where they are not enough, or where evaluation would stop the
/// program.
pub fn eval_element_bounded(e: &SyntaxElement, env: &Env, fuel: u64) -> (r: Option<Result<Val, EvalError>>)
    ensures
        outcome_is(r, eval_expr(*e, env.scopes(), fuel as nat)),
{
    let mut stack: Vec<Frame> = Vec::new();
    proof {
        lemma_ctx_empty(env);
    }
    eval_expr_exec(e, env, &mut stack, fuel)
}

/// Evaluates the expression `e` in `env`.
pub fn eval_element(e: &SyntaxElement, env: &Env) -> (r: Result<Val, EvalError>)
    requires
        expr_ends(*e, env.scopes()),
    ensures
        result_is(r, expr_outcome(*e, env.scopes())),
{
    let ghost st = env.scopes();
    let ghost fuel = choose|fuel: nat| fuel <= u64::MAX && (#[trigger] eval_expr(*e, st, fuel) matches Some(o) && !(o is Panic));
    proof {
        lemma_expr_fuel(*e, st, fuel, u64::MAX as nat);
    }
    match eval_element_bounded(e, env, u64::MAX) {
        Some(x) => x,
        None => Ok(Val::Nil),
    }
}

/// A program: the root of a syntax tree.
pub struct Root(pub Rc<SyntaxNode>);

impl Root {
    /// The node as a program, if it is the root of a tree.
    pub fn cast(node: Rc<SyntaxNode>) -> (r: Option<Root>)
        ensures
            r matches Some(x) ==> x.0 == node,
            r is Some <==> node.kind == SyntaxKind::Root,
    {
        if node.kind == SyntaxKind::Root {
            Some(Root(node))
        } else {
            None
        }
    }

    /// Runs the program's items in `env` with at most `fuel` nested steps per
    /// item (see `eval_items`): `None` where they are not enough, or where the
    /// program would stop. Bindings that the program makes stay in `env`.
    pub fn eval_bounded(&self, env: &mut Env, fuel: u64) -> (r: Option<Result<Val, EvalError>>)
        requires
            old(env).wf(),
        ensures
            final(env).wf(),
            run_is(r, eval_items(self.0.children@, 0, old(env).scopes(), SVal::Nil, fuel as nat), final(env).scopes()),
            final(env).commands() == old(env).commands(),
    {
        let cs = &self.0.children;
        let ghost st0 = env.scopes();
        let ghost whole = eval_items(cs@, 0, st0, SVal::Nil, fuel as nat);
        let mut last = Val::Nil;
        let mut i: usize = 0;
        loop
            invariant
                i <= cs@.len(),
                env.wf(),
                env.commands() == old(env).commands(),
                whole == eval_items(cs@, 0, st0, SVal::Nil, fuel as nat),
                whole == eval_items(cs@, i as int, env.scopes(), val_view(last), fuel as nat),
                st0 == old(env).scopes(),
                cs@ == self.0.children@,
            decreases cs@.len() - i,
        {
            let j = find_item(cs, i);
            proof {
                crate::ast::lemma_first_item_from(cs@, i as int);
                lemma_ctx_empty(env);
            }
            if j >= cs.len() {
                return Some(Ok(last));
            }
            let mut stack: Vec<Frame> = Vec::new();
            match &cs[j] {
                SyntaxElement::Node(rc) if rc.kind == SyntaxKind::BindingDef => {
                    let eq = crate::ast::find_token(&rc.children, SyntaxKind::Equals, 0);
                    let k = if eq < rc.children.len() {
                        find_expr(&rc.children, eq + 1)
                    } else {
                        rc.children.len()
                    };
                    if k >= rc.children.len() {
                        return None;
                    }
                    match eval_expr_exec(&rc.children[k], env, &mut stack, fuel) {
                        None => {
                            return None;
                        },
                        Some(Err(x)) => {
                            return Some(Err(x));
                        },
                        Some(Ok(v)) => {
                            match binding_name_of(&**rc) {
                                None => {
                                    return None;
                                },
                                Some(name) => {
                                    env.store_binding(name, v);
                                    last = Val::Nil;
                                },
                            }
                        },
                    }
                },
                e => {
                    match eval_expr_exec(e, env, &mut stack, fuel) {
                        None => {
                            return None;
                        },
                        Some(Err(x)) => {
                            return Some(Err(x));
                        },
                        Some(Ok(v)) => {
                            last = v;
                        },
                    }
                },
            }
            i = j + 1;
        }
    }

    /// Runs the program's items in `env`: see `eval_items`. Bindings that the
    /// program makes stay in `env`.
    pub fn eval(&self, env: &mut Env) -> (r: Result<Val, EvalError>)
        requires
            old(env).wf(),
            items_end(self.0.children@, old(env).scopes()),
        ensures
            final(env).wf(),
            result_is(r, items_outcome(self.0.children@, old(env).scopes()).0),
            final(env).scopes() == items_outcome(self.0.children@, old(env).scopes()).1,
            final(env).commands() == old(env).commands(),
    {
        let ghost cs = self.0.children@;
        let ghost st0 = env.scopes();
        let ghost fuel = choose|fuel: nat| fuel <= u64::MAX && (#[trigger] eval_items(cs, 0, st0, SVal::Nil, fuel) matches Some((o, _)) && !(o is Panic));
        proof {
            lemma_items_fuel(cs, 0, st0, SVal::Nil, fuel, u64::MAX as nat);
        }
        match self.eval_bounded(env, u64::MAX) {
            Some(x) => x,
            None => Ok(Val::Nil),
        }
    }
}

spec fn node_of(rc: Rc<SyntaxNode>) -> SyntaxNode {
    *rc
}

/// Enough steps for a run of items are enough for any larger number of them.
proof fn lemma_items_fuel(
    cs: Seq<SyntaxElement>,
    i: int,
    st: Seq<Seq<(Seq<char>, SVal)>>,
    last: SVal,
    f1: nat,
    f2: nat,
)
    requires
        f1 <= f2,
        eval_items(cs, i, st, last, f1) is Some,
    ensures
        eval_items(cs, i, st, last, f2) == eval_items(cs, i, st, last, f1),
    decreases cs.len() - i,
{
    let j = first_item_from(cs, i);
    if i < 0 || j < i || j >= cs.len() {
    } else {
        match cs[j] {
            SyntaxElement::Node(rc) if rc.kind == SyntaxKind::BindingDef => {
                let n = node_of(rc);
                let k = binding_def_expr(n);
                if 0 <= k < n.children@.len() {
                    lemma_expr_fuel(n.children@[k], st, f1, f2);
                    match eval_expr(n.children@[k], st, f1) {
                        Some(Outcome::Value(v)) => match binding_name(n) {
                            Some(name) => {
                                lemma_items_fuel(cs, j + 1, bind(st, name, v), SVal::Nil, f1, f2);
                            },
                            None => {},
                        },
                        _ => {},
                    }
                }
            },
            e => {
                lemma_expr_fuel(e, st, f1, f2);
                match eval_expr(e, st, f1) {
                    Some(Outcome::Value(v)) => {
                        lemma_items_fuel(cs, j + 1, st, v, f1, f2);
                    },
                    _ => {},
                }
            },
        }
    }
}

/// A binding usage: `$name`.
pub struct BindingUsage(pub Rc<SyntaxNode>);

impl BindingUsage {
    pub fn cast(node: Rc<SyntaxNode>) -> (r: Option<BindingUsage>)
        ensures
            r matches Some(x) ==> x.0 == node,
            r is Some <==> node.kind == SyntaxKind::BindingUsage,
    {
        if node.kind == SyntaxKind::BindingUsage {
            Some(BindingUsage(node))
        } else {
            None
        }
    }

    /// The value bound to the name, or an error over the usage's range.
    pub fn eval(&self, env: &Env) -> (r: Result<Val, EvalError>)
        requires
            expr_ends(SyntaxElement::Node(self.0), env.scopes()),
        ensures
            result_is(r, expr_outcome(SyntaxElement::Node(self.0), env.scopes())),
    {
        eval_element(&SyntaxElement::Node(rc_clone(&self.0)), env)
    }
}

/// A function call: a name and its parameters.
pub struct FunctionCall(pub Rc<SyntaxNode>);

impl FunctionCall {
    pub fn cast(node: Rc<SyntaxNode>) -> (r: Option<FunctionCall>)
        ensures
            r matches Some(x) ==> x.0 == node,
            r is Some <==> node.kind == SyntaxKind::FunctionCall,
    {
        if node.kind == SyntaxKind::FunctionCall {
            Some(FunctionCall(node))
        } else {
            None
        }
    }

    /// Calls the lambda bound to the name with the parameters' values.
    pub fn eval(&self, env: &Env) -> (r: Result<Val, EvalError>)
        requires
            expr_ends(SyntaxElement::Node(self.0), env.scopes()),
        ensures
            result_is(r, expr_outcome(SyntaxElement::Node(self.0), env.scopes())),
    {
        eval_element(&SyntaxElement::Node(rc_clone(&self.0)), env)
    }
}

impl FunctionCall {
    /// The name of the called function: the first token, where it is an atom.
    pub fn name(&self) -> (r: Option<SyntaxToken>)
        ensures
            match first_token(*self.0) {
                Some(t) => if t.kind == SyntaxKind::Atom {
                    r == Some(t)
                } else {
                    r is None
                },
                None => r is None,
            },
    {
        match first_token_of(&*self.0) {
            Some(t) => {
                if t.kind == SyntaxKind::Atom {
                    Some(SyntaxToken { kind: t.kind, text: t.text.clone(), range: t.range })
                } else {
                    None
                }
            },
            None => None,
        }
    }

    /// The node that holds the call's parameters.
    pub fn params(&self) -> (r: Option<Rc<SyntaxNode>>)
        ensures
            ({
                let cs = self.0.children@;
                let p = first_node_of_kind(cs, SyntaxKind::FunctionCallParams, 0);
                if 0 <= p < cs.len() {
                    r matches Some(m) && SyntaxElement::Node(m) == cs[p]
                } else {
                    r is None
                }
            }),
    {
        let cs = &self.0.children;
        let p = find_node_kind(cs, SyntaxKind::FunctionCallParams, 0);
        proof {
            lemma_first_node_of_kind(cs@, SyntaxKind::FunctionCallParams, 0);
        }
        if p < cs.len() {
            match &cs[p] {
                SyntaxElement::Node(m) => Some(rc_clone(m)),
                SyntaxElement::Token(_) => None,
            }
        } else {
            None
        }
    }
}

/// A string literal token.
pub struct StringLiteral(pub SyntaxToken);

impl StringLiteral {
    pub fn cast(token: SyntaxToken) -> (r: Option<StringLiteral>)
        ensures
            r matches Some(x) ==> x.0 == token,
            r is Some <==> token.kind == SyntaxKind::StringLiteral,
    {
        if token.kind == SyntaxKind::StringLiteral {
            Some(StringLiteral(token))
        } else {
            None
        }
    }

    /// The literal's text without its quotes.
    pub fn eval(&self) -> (r: Val)
        requires
            !(literal_outcome(self.0) is Panic),
        ensures
            result_is(Ok(r), literal_outcome(self.0)),
    {
        match literal_exec(&self.0) {
            Some(Ok(v)) => v,
            _ => Val::Nil,
        }
    }
}

/// A number literal token.
pub struct Digits(pub SyntaxToken);

impl Digits {
    pub fn cast(token: SyntaxToken) -> (r: Option<Digits>)
        ensures
            r matches Some(x) ==> x.0 == token,
            r is Some <==> token.kind == SyntaxKind::Digits,
    {
        if token.kind == SyntaxKind::Digits {
            Some(Digits(token))
        } else {
            None
        }
    }

    /// The number that the literal stands for.
    pub fn eval(&self) -> (r: Val)
        requires
            !(literal_outcome(self.0) is Panic),
        ensures
            result_is(Ok(r), literal_outcome(self.0)),
    {
        match literal_exec(&self.0) {
            Some(Ok(v)) => v,
            _ => Val::Nil,
        }
    }
}

/// A binding definition: `let name = expression`.
pub struct BindingDef(pub Rc<SyntaxNode>);

impl BindingDef {
    pub fn cast(node: Rc<SyntaxNode>) -> (r: Option<BindingDef>)
        ensures
            r matches Some(x) ==> x.0 == node,
            r is Some <==> node.kind == SyntaxKind::BindingDef,
    {
        if node.kind == SyntaxKind::BindingDef {
            Some(BindingDef(node))
        } else {
            None
        }
    }

    /// Evaluates the expression and binds the name to its value in the
    /// innermost scope of `env`.
    pub fn eval(&self, env: &mut Env) -> (r: Result<(), EvalError>)
        requires
            old(env).wf(),
            0 <= binding_def_expr(*self.0) < self.0.children@.len(),
            binding_name(*self.0) is Some,
            expr_ends(self.0.children@[binding_def_expr(*self.0)], old(env).scopes()),
        ensures
            final(env).wf(),
            final(env).commands() == old(env).commands(),
            match expr_outcome(self.0.children@[binding_def_expr(*self.0)], old(env).scopes()) {
                Outcome::Value(v) => r is Ok && final(env).scopes() == bind(old(env).scopes(), binding_name(*self.0)->Some_0, v),
                Outcome::Failed(e) => r == Err::<(), EvalError>(e) && final(env).scopes() == old(env).scopes(),
                Outcome::Panic => false,
            },
    {
        let cs = &self.0.children;
        let eq = crate::ast::find_token(cs, SyntaxKind::Equals, 0);
        let k = if eq < cs.len() {
            find_expr(cs, eq + 1)
        } else {
            cs.len()
        };
        match eval_element(&cs[k], env) {
            Err(x) => Err(x),
            Ok(v) => match binding_name_of(&*self.0) {
                Some(name) => {
                    env.store_binding(name, v);
                    Ok(())
                },
                None => Ok(()),
            },
        }
    }
}

impl Lambda {
    pub fn cast(node: Rc<SyntaxNode>) -> (r: Option<Lambda>)
        ensures
            r matches Some(x) ==> x.0 == node,
            r is Some <==> node.kind == SyntaxKind::Lambda,
    {
        if node.kind == SyntaxKind::Lambda {
            Some(Lambda(node))
        } else {
            None
        }
    }

    /// Calls the lambda with `params`, from `env`; a count of parameters that
    /// does not match is an error over `call_params_range`.
    pub fn eval(&self, call_params_range: TextRange, params: Vec<Val>, env: &Env) -> (r: Result<Val, EvalError>)
        requires
            call_ends(*self, call_params_range, vals_view(params@), env.scopes()),
        ensures
            result_is(r, call_outcome(*self, call_params_range, vals_view(params@), env.scopes())),
    {
        let ghost st = env.scopes();
        let ghost vv = vals_view(params@);
        let ghost fuel = choose|fuel: nat| fuel <= u64::MAX && (#[trigger] call_lambda(*self, call_params_range, vv, st, fuel) matches Some(o) && !(o is Panic));
        proof {
            lemma_call_lambda_fuel(*self, call_params_range, vv, st, fuel, u64::MAX as nat);
        }
        match self.eval_bounded(call_params_range, params, env, u64::MAX) {
            Some(x) => x,
            None => Ok(Val::Nil),
        }
    }

    /// Calls the lambda as `eval` does, with at most `fuel` nested steps:
    /// `None` where they are not enough, or where the call would stop the
    /// program.
    pub fn eval_bounded(&self, call_params_range: TextRange, params: Vec<Val>, env: &Env, fuel: u64) -> (r: Option<Result<Val, EvalError>>)
        ensures
            outcome_is(r, call_lambda(*self, call_params_range, vals_view(params@), env.scopes(), fuel as nat)),
    {
        let mut stack: Vec<Frame> = Vec::new();
        proof {
            lemma_ctx_empty(env);
        }
        call_lambda_exec(self, call_params_range, params, env, &mut stack, fuel)
    }
}


proof fn lemma_expr_fuel(e: SyntaxElement, st: Seq<Seq<(Seq<char>, SVal)>>, f1: nat, f2: nat)
    requires
        f1 <= f2,
        eval_expr(e, st, f1) is Some,
    ensures
        eval_expr(e, st, f2) == eval_expr(e, st, f1),
    decreases f1, 0nat, 0nat,
{
    match e {
        SyntaxElement::Token(_) => {},
        SyntaxElement::Node(rc) => {
            let n = *rc;
            if n.kind == SyntaxKind::BinOp {
                lemma_bin_op_fuel(n, st, (f1 - 1) as nat, (f2 - 1) as nat);
            } else if n.kind == SyntaxKind::FunctionCall {
                lemma_call_fuel(n, st, (f1 - 1) as nat, (f2 - 1) as nat);
            }
        },
    }
}

proof fn lemma_bin_op_fuel(n: SyntaxNode, st: Seq<Seq<(Seq<char>, SVal)>>, f1: nat, f2: nat)
    requires
        f1 <= f2,
        eval_bin_op(n, st, f1) is Some,
    ensures
        eval_bin_op(n, st, f2) == eval_bin_op(n, st, f1),
    decreases f1, 1nat, 0nat,
{
    let cs = n.children@;
    let o = first_op_from(cs, 0);
    let l = first_expr_from(cs, 0);
    if !(o < 0 || o >= cs.len() || l < 0 || l >= cs.len()) {
        lemma_expr_fuel(cs[l], st, f1, f2);
        if eval_expr(cs[l], st, f1) matches Some(Outcome::Value(_)) {
            let r = first_expr_from(cs, l + 1);
            if !(r < 0 || r >= cs.len()) {
                lemma_expr_fuel(cs[r], st, f1, f2);
            }
        }
    }
}

proof fn lemma_call_fuel(n: SyntaxNode, st: Seq<Seq<(Seq<char>, SVal)>>, f1: nat, f2: nat)
    requires
        f1 <= f2,
        eval_call(n, st, f1) is Some,
    ensures
        eval_call(n, st, f2) == eval_call(n, st, f1),
    decreases f1, 3nat, 0nat,
{
    match first_token(n) {
        Some(name) => {
            if name.kind == SyntaxKind::Atom {
                match lookup(st, name.text@) {
                    Some(SVal::Lambda(l)) => {
                        let cs = n.children@;
                        let p = first_node_of_kind(cs, SyntaxKind::FunctionCallParams, 0);
                        if !(p < 0 || p >= cs.len()) {
                            let params = *(cs[p]->Node_0);
                            lemma_args_fuel(params.children@, 0, st, f1, f2);
                            match eval_args(params.children@, 0, st, f1) {
                                Some(Ok(vals)) => {
                                    lemma_call_lambda_fuel(l, params.range, vals, st, f1, f2);
                                },
                                _ => {},
                            }
                        }
                    },
                    _ => {},
                }
            }
        },
        None => {},
    }
}

proof fn lemma_args_fuel(cs: Seq<SyntaxElement>, i: int, st: Seq<Seq<(Seq<char>, SVal)>>, f1: nat, f2: nat)
    requires
        f1 <= f2,
        eval_args(cs, i, st, f1) is Some,
    ensures
        eval_args(cs, i, st, f2) == eval_args(cs, i, st, f1),
    decreases f1, 1nat, cs.len() - i,
{
    let j = first_expr_from(cs, i);
    if !(i < 0 || j < i || j >= cs.len()) {
        lemma_expr_fuel(cs[j], st, f1, f2);
        if eval_expr(cs[j], st, f1) matches Some(Outcome::Value(_)) {
            lemma_args_fuel(cs, j + 1, st, f1, f2);
        }
    }
}

proof fn lemma_call_lambda_fuel(l: Lambda, range: TextRange, vals: Seq<SVal>, st: Seq<Seq<(Seq<char>, SVal)>>, f1: nat, f2: nat)
    requires
        f1 <= f2,
        call_lambda(l, range, vals, st, f1) is Some,
    ensures
        call_lambda(l, range, vals, st, f2) == call_lambda(l, range, vals, st, f1),
    decreases f1, 2nat, 0nat,
{
    let n = *l.0;
    let cs = n.children@;
    let p = first_node_from(cs, 0);
    if !(p < 0 || p >= cs.len() || (cs[p]->Node_0).kind != SyntaxKind::LambdaParams) {
        let names = atom_texts((cs[p]->Node_0).children@);
        let b = first_expr_from(cs, 0);
        if vals.len() == names.len() && !(b < 0 || b >= cs.len()) {
            lemma_expr_fuel(cs[b], st.push(lambda_scope(names, vals, 0, Seq::empty())), f1, f2);
        }
    }
}

/// How an evaluation comes out does not depend on the bound on its steps: any
/// two bounds that are enough give the same outcome.
pub proof fn law_outcome_independent_of_fuel(e: SyntaxElement, st: Seq<Seq<(Seq<char>, SVal)>>, f1: nat, f2: nat)
    requires
        eval_expr(e, st, f1) is Some,
        eval_expr(e, st, f2) is Some,
    ensures
        eval_expr(e, st, f1) == eval_expr(e, st, f2),
{
    if f1 <= f2 {
        lemma_expr_fuel(e, st, f1, f2);
    } else {
        lemma_expr_fuel(e, st, f2, f1);
    }
}

impl ParseOutput<NoErrors> {
    /// Runs the program in `env`: see `Root::eval`.
    pub fn eval(&self, env: &mut Env) -> (r: Result<Val, EvalError>)
        requires
            old(env).wf(),
            self.tree().kind == SyntaxKind::Root,
            items_end(self.tree().children@, old(env).scopes()),
        ensures
            final(env).wf(),
            result_is(r, items_outcome(self.tree().children@, old(env).scopes()).0),
            final(env).scopes() == items_outcome(self.tree().children@, old(env).scopes()).1,
            final(env).commands() == old(env).commands(),
    {
        let root = Root(self.syntax());
        root.eval(env)
    }

    /// Runs the program in `env` with at most `fuel` nested steps per item:
    /// see `Root::eval_bounded`.
    pub fn eval_bounded(&self, env: &mut Env, fuel: u64) -> (r: Option<Result<Val, EvalError>>)
        requires
            old(env).wf(),
        ensures
            final(env).wf(),
            run_is(r, eval_items(self.tree().children@, 0, old(env).scopes(), SVal::Nil, fuel as nat), final(env).scopes()),
            final(env).commands() == old(env).commands(),
    {
        let root = Root(self.syntax());
        root.eval_bounded(env, fuel)
    }
}

/// Addition, subtraction and multiplication of two numbers give the exact
/// sum, difference and product, and stop the program exactly where that
/// does not fit in an `i64`.
pub proof fn law_arith_is_exact(a: i64, b: i64)
    ensures
        arith(SyntaxKind::Plus, a, b) is Some <==> in_i64(a + b),
        arith(SyntaxKind::Plus, a, b) matches Some(x) ==> x == a + b,
        arith(SyntaxKind::Minus, a, b) is Some <==> in_i64(a - b),
        arith(SyntaxKind::Minus, a, b) matches Some(x) ==> x == a - b,
        arith(SyntaxKind::Star, a, b) is Some <==> in_i64(a * b),
        arith(SyntaxKind::Star, a, b) matches Some(x) ==> x == a * b,
{
}

/// Division rounds toward zero: the quotient `q` leaves a remainder
/// `a - q * b` smaller than `b` in size and never of the other sign than `a`
/// (so `10 / -2` is `-5` and `-7 / 2` is `-3`). It stops the program exactly
/// on a zero divisor and on the one quotient too large for an `i64`.
pub proof fn law_division_truncates(a: i64, b: i64)
    ensures
        arith(SyntaxKind::Slash, a, b) is None <==> (b == 0 || (a == i64::MIN && b == -1)),
        arith(SyntaxKind::Slash, a, b) matches Some(q) ==> {
            let r = a - q * b;
            &&& abs(r) < abs(b as int)
            &&& (r == 0 || ((r > 0) == (a > 0)))
        },
{
    if b != 0 {
        let aa = abs(a as int);
        let bb = abs(b as int);
        let q = aa / bb;
        let m = aa % bb;
        vstd::arithmetic::div_mod::lemma_fundamental_div_mod(aa, bb);
        vstd::arithmetic::div_mod::lemma_mod_pos_bound(aa, bb);
        assert(aa == bb * q + m);
        assert(0 <= q <= aa) by (nonlinear_arith)
            requires
                aa >= 0,
                bb >= 1,
                aa == bb * q + m,
                0 <= m < bb,
        ;
        let t = trunc_div(a as int, b as int);
        if a >= 0 && b > 0 {
            assert(t == q);
            assert(a - t * b == m) by (nonlinear_arith)
                requires
                    t == q,
                    aa == a,
                    bb == b,
                    aa == bb * q + m,
            ;
        } else if a >= 0 && b < 0 {
            assert(t == -q);
            assert(a - t * b == m) by (nonlinear_arith)
                requires
                    t == -q,
                    aa == a,
                    bb == -b,
                    aa == bb * q + m,
            ;
        } else if a < 0 && b > 0 {
            assert(t == -q);
            assert(a - t * b == -m) by (nonlinear_arith)
                requires
                    t == -q,
                    aa == -a,
                    bb == b,
                    aa == bb * q + m,
            ;
        } else {
            assert(t == q);
            assert(a - t * b == -m) by (nonlinear_arith)
                requires
                    t == q,
                    aa == -a,
                    bb == -b,
                    aa == bb * q + m,
            ;
        }
        if a == i64::MIN && b == -1 {
            assert(q == aa) by (nonlinear_arith)
                requires
                    aa == bb * q + m,
                    bb == 1,
                    0 <= m < bb,
            ;
            assert(t == 9223372036854775808);
        } else {
            assert(in_i64(t)) by {
                if bb == 1 {
                    assert(q == aa) by (nonlinear_arith)
                        requires
                            aa == bb * q + m,
                            bb == 1,
                            0 <= m < bb,
                    ;
                } else {
                    assert(q <= aa / 2 + 1) by (nonlinear_arith)
                        requires
                            aa == bb * q + m,
                            bb >= 2,
                            0 <= m < bb,
                            q >= 0,
                    ;
                }
            }
        }
    }
}

proof fn lemma_decimal_reads_back(m: nat)
    ensures
        decimal(m).len() >= 1,
        all_digits(decimal(m)),
        digits_value(decimal(m)) == m,
    decreases m,
{
    let k = (m % 10) as nat;
    assert(digit_char(k) as int - '0' as int == k);
    if m < 10 {
        let d = decimal(m);
        assert(d.drop_last() =~= Seq::<char>::empty());
        assert(d.last() == digit_char(m));
        assert(digits_value(Seq::<char>::empty()) == 0);
        assert(digit_char(m) as int - '0' as int == m);
        assert(digits_value(d) == digits_value(d.drop_last()) * 10 + (d.last() as int - '0' as int));
    } else {
        lemma_decimal_reads_back(m / 10);
        let d = decimal(m);
        assert(d.drop_last() =~= decimal(m / 10));
        assert(d.last() == digit_char(k));
        vstd::arithmetic::div_mod::lemma_fundamental_div_mod(m as int, 10);
        assert(digits_value(d) == digits_value(d.drop_last()) * 10 + (d.last() as int - '0' as int));
        assert(digits_value(d) == (m / 10) * 10 + k);
        assert forall|i: int| 0 <= i < d.len() implies is_ascii_digit(#[trigger] d[i]) by {
            if i < d.len() - 1 {
                assert(d[i] == decimal(m / 10)[i]);
            }
        }
    }
}

/// A number written out as it is displayed reads back as the same number.
pub proof fn law_number_display_reads_back(n: i64)
    ensures
        parse_i64(signed_decimal(n as int)) == Some(n),
{
    if n < 0 {
        let m = (-(n as int)) as nat;
        lemma_decimal_reads_back(m);
        let s = signed_decimal(n as int);
        assert(s.skip(1) =~= decimal(m));
        assert(s[0] == '-');
    } else {
        lemma_decimal_reads_back(n as nat);
        let s = signed_decimal(n as int);
        assert(s[0] != '+' && s[0] != '-');
    }
}

} // verus!
