//! The grammar of Fjord code: the shape of the tree that parsing builds from
//! the kinds of the lexemes, and the syntax errors it reports on the way.
//!
//! Each function reads the lexeme kinds from an index on and gives a `Piece`:
//! the shapes of the elements it adds at the current level of the tree, the
//! index just past what it consumed, and the messages of the errors it found.

use vstd::prelude::*;
use crate::syntax_kind::SyntaxKind;
use crate::tree::Shape;
use crate::parser::{VirtualOp, Op, spec_infix_bp};

verus! {

/// What one part of the grammar adds: element shapes, where it stops, and
/// the syntax errors found, each as its message and the index of the lexeme
/// whose range it reports (the last one consumed when it was found; -1 when
/// none had been).
pub struct Piece {
    pub shapes: Seq<Shape>,
    pub end: int,
    pub errors: Seq<(Seq<char>, int)>,
}

/// The kind of the lexeme at index `i`, if there is one.
pub open spec fn kind_at(ks: Seq<SyntaxKind>, i: int) -> Option<SyntaxKind> {
    if 0 <= i < ks.len() {
        Some(ks[i])
    } else {
        None
    }
}

/// Whether there is no lexeme at `i`, or it ends a line.
pub open spec fn at_end_or_eol(ks: Seq<SyntaxKind>, i: int) -> bool {
    kind_at(ks, i) is None || kind_at(ks, i) == Some(SyntaxKind::Eol)
}

/// Nothing, at index `i`.
pub open spec fn empty_at(i: int) -> Piece {
    Piece { shapes: Seq::empty(), end: i, errors: Seq::empty() }
}

/// `a`, then `b`.
pub open spec fn then(a: Piece, b: Piece) -> Piece {
    Piece { shapes: a.shapes + b.shapes, end: b.end, errors: a.errors + b.errors }
}

/// `a` wrapped in a node of kind `kind`.
pub open spec fn wrap(kind: SyntaxKind, a: Piece) -> Piece {
    Piece { shapes: seq![Shape::Node(kind, a.shapes)], end: a.end, errors: a.errors }
}

/// The lexeme at `i`, as a token of its own kind.
pub open spec fn token_piece(ks: Seq<SyntaxKind>, i: int) -> Piece {
    Piece { shapes: seq![Shape::Token(ks[i])], end: i + 1, errors: Seq::empty() }
}

/// A syntax error with message `msg` at `i`: the lexeme there becomes an
/// `Error` token, unless there is none or it ends a line.
pub open spec fn error_piece(ks: Seq<SyntaxKind>, i: int, msg: Seq<char>) -> Piece {
    if at_end_or_eol(ks, i) {
        Piece { shapes: Seq::empty(), end: i, errors: seq![(msg, i - 1)] }
    } else {
        Piece { shapes: seq![Shape::Token(SyntaxKind::Error)], end: i + 1, errors: seq![(msg, i)] }
    }
}

/// The whitespace lexemes from `i` on.
pub open spec fn ws_piece(ks: Seq<SyntaxKind>, i: int) -> Piece
    decreases ks.len() - i,
{
    if kind_at(ks, i) == Some(SyntaxKind::Whitespace) {
        then(token_piece(ks, i), ws_piece(ks, i + 1))
    } else {
        empty_at(i)
    }
}

/// The whitespace and end-of-line lexemes from `i` on.
pub open spec fn blank_piece(ks: Seq<SyntaxKind>, i: int) -> Piece
    decreases ks.len() - i,
{
    if kind_at(ks, i) == Some(SyntaxKind::Whitespace) || kind_at(ks, i) == Some(SyntaxKind::Eol) {
        then(token_piece(ks, i), blank_piece(ks, i + 1))
    } else {
        empty_at(i)
    }
}

pub proof fn lemma_ws_piece(ks: Seq<SyntaxKind>, i: int)
    requires
        0 <= i <= ks.len(),
    ensures
        i <= ws_piece(ks, i).end <= ks.len(),
        ws_piece(ks, i).errors.len() == 0,
        kind_at(ks, ws_piece(ks, i).end) != Some(SyntaxKind::Whitespace),
        at_end_or_eol(ks, i) ==> ws_piece(ks, i) == empty_at(i),
    decreases ks.len() - i,
{
    if kind_at(ks, i) == Some(SyntaxKind::Whitespace) {
        lemma_ws_piece(ks, i + 1);
    }
}

pub proof fn lemma_then_assoc(a: Piece, b: Piece, c: Piece)
    ensures
        then(a, then(b, c)) == then(then(a, b), c),
{
    assert(then(a, then(b, c)).shapes =~= then(then(a, b), c).shapes);
    assert(then(a, then(b, c)).errors =~= then(then(a, b), c).errors);
}

pub proof fn lemma_then_empty(a: Piece, i: int)
    ensures
        then(a, empty_at(a.end)) == a,
        then(empty_at(i), a) == a,
{
    assert(then(a, empty_at(a.end)).shapes =~= a.shapes);
    assert(then(a, empty_at(a.end)).errors =~= a.errors);
    assert(then(empty_at(i), a).shapes =~= a.shapes);
    assert(then(empty_at(i), a).errors =~= a.errors);
}

/// Whether a lexeme of this kind starts an expression that can be passed to a function.
pub open spec fn starts_param(k: Option<SyntaxKind>) -> bool {
    ||| k == Some(SyntaxKind::Atom)
    ||| k == Some(SyntaxKind::Digits)
    ||| k == Some(SyntaxKind::StringLiteral)
    ||| k == Some(SyntaxKind::Dollar)
    ||| k == Some(SyntaxKind::Pipe)
}

/// The operator that a lexeme of this kind stands for, after an expression.
pub open spec fn op_at(k: Option<SyntaxKind>) -> Option<VirtualOp> {
    if k == Some(SyntaxKind::Plus) {
        Some(VirtualOp::Op(Op::Add))
    } else if k == Some(SyntaxKind::Minus) {
        Some(VirtualOp::Op(Op::Sub))
    } else if k == Some(SyntaxKind::Star) {
        Some(VirtualOp::Op(Op::Mul))
    } else if k == Some(SyntaxKind::Slash) {
        Some(VirtualOp::Op(Op::Div))
    } else if starts_param(k) {
        Some(VirtualOp::Application)
    } else {
        None
    }
}

/// An atom at `i`. Inside the parameters of a call it is a bare word;
/// otherwise it names a called function, and when no parameter follows it
/// the call gets an empty parameter list of its own.
pub open spec fn atom(ks: Seq<SyntaxKind>, i: int, in_params: bool) -> Piece {
    if in_params || starts_param(kind_at(ks, ws_piece(ks, i + 1).end)) {
        token_piece(ks, i)
    } else {
        wrap(SyntaxKind::FunctionCall, then(token_piece(ks, i), wrap(SyntaxKind::FunctionCallParams, empty_at(i + 1))))
    }
}

/// A binding usage `$name` at `i`.
pub open spec fn binding_usage(ks: Seq<SyntaxKind>, i: int) -> Piece {
    let name = if kind_at(ks, i + 1) == Some(SyntaxKind::Atom) {
        token_piece(ks, i + 1)
    } else {
        error_piece(ks, i + 1, "expected atom"@)
    };
    wrap(SyntaxKind::BindingUsage, then(token_piece(ks, i), name))
}

/// The parameters of a lambda from `i` on, up to and with the closing pipe.
pub open spec fn lambda_params(ks: Seq<SyntaxKind>, i: int) -> Piece
    decreases ks.len() - i,
{
    match kind_at(ks, i) {
        None => empty_at(i),
        Some(SyntaxKind::Pipe) => token_piece(ks, i),
        Some(SyntaxKind::Eol) => error_piece(ks, i, "expected atom or pipe"@),
        Some(k) => {
            let first = if k == SyntaxKind::Atom {
                token_piece(ks, i)
            } else {
                error_piece(ks, i, "expected atom or pipe"@)
            };
            let w = ws_piece(ks, i + 1);
            proof {
                lemma_ws_piece(ks, i + 1);
            }
            then(then(first, w), lambda_params(ks, w.end))
        },
    }
}

pub proof fn lemma_lambda_params(ks: Seq<SyntaxKind>, i: int)
    requires
        0 <= i <= ks.len(),
    ensures
        i <= lambda_params(ks, i).end <= ks.len(),
    decreases ks.len() - i,
{
    match kind_at(ks, i) {
        None => {},
        Some(SyntaxKind::Pipe) => {},
        Some(SyntaxKind::Eol) => {},
        Some(k) => {
            lemma_ws_piece(ks, i + 1);
            lemma_lambda_params(ks, ws_piece(ks, i + 1).end);
        },
    }
}

/// An expression at `i` whose operators bind at least as tightly as `min_bp`.
pub open spec fn expr_bp(ks: Seq<SyntaxKind>, i: int, min_bp: u8, in_params: bool) -> Piece
    decreases ks.len() - i, 3int,
{
    if at_end_or_eol(ks, i) {
        error_piece(ks, i, "expected expression"@)
    } else {
        let first = one_expr(ks, i, in_params);
        if i < first.end <= ks.len() {
            let w = ws_piece(ks, first.end);
            proof {
                lemma_ws_piece(ks, first.end);
            }
            expr_loop(ks, min_bp, in_params, then(first, w))
        } else {
            first
        }
    }
}

/// The operators and parameters that follow the expression `acc`, each
/// joined to it as long as it binds at least as tightly as `min_bp`.
pub open spec fn expr_loop(ks: Seq<SyntaxKind>, min_bp: u8, in_params: bool, acc: Piece) -> Piece
    decreases ks.len() - acc.end, 4int,
{
    let i = acc.end;
    let k = kind_at(ks, i);
    if k is None || k == Some(SyntaxKind::RParen) || k == Some(SyntaxKind::Eol) {
        acc
    } else {
        match op_at(k) {
            None => expr_loop(ks, min_bp, in_params, then(acc, error_piece(ks, i, "expected operator"@))),
            Some(op) => {
                if spec_infix_bp(op).0 < min_bp {
                    acc
                } else if op is Application {
                    let arg = expr_bp(ks, i, spec_infix_bp(op).1, true);
                    if i < arg.end <= ks.len() {
                        let w = ws_piece(ks, arg.end);
                        proof {
                            lemma_ws_piece(ks, arg.end);
                        }
                        let next = if in_params {
                            then(then(acc, arg), w)
                        } else {
                            wrap(
                                SyntaxKind::FunctionCall,
                                then(acc, wrap(SyntaxKind::FunctionCallParams, then(arg, w))),
                            )
                        };
                        expr_loop(ks, min_bp, in_params, next)
                    } else {
                        acc
                    }
                } else {
                    let w = ws_piece(ks, i + 1);
                    proof {
                        lemma_ws_piece(ks, i + 1);
                    }
                    let rhs = expr_bp(ks, w.end, spec_infix_bp(op).1, in_params);
                    if w.end <= rhs.end <= ks.len() {
                        let next = wrap(SyntaxKind::BinOp, then(acc, then(then(token_piece(ks, i), w), rhs)));
                        expr_loop(ks, min_bp, in_params, next)
                    } else {
                        acc
                    }
                }
            },
        }
    }
}

/// A single expression at `i`, without the operators that follow it.
pub open spec fn one_expr(ks: Seq<SyntaxKind>, i: int, in_params: bool) -> Piece
    decreases ks.len() - i, 2int,
{
    match kind_at(ks, i) {
        Some(SyntaxKind::Atom) => atom(ks, i, in_params),
        Some(SyntaxKind::Digits) | Some(SyntaxKind::StringLiteral) => token_piece(ks, i),
        Some(SyntaxKind::Dollar) => binding_usage(ks, i),
        Some(SyntaxKind::Pipe) => lambda(ks, i),
        Some(SyntaxKind::LParen) => {
            let inner = expr_bp(ks, i + 1, 0, false);
            let close = if kind_at(ks, inner.end) == Some(SyntaxKind::RParen) {
                token_piece(ks, inner.end)
            } else {
                error_piece(ks, inner.end, "expected right parenthesis"@)
            };
            then(then(token_piece(ks, i), inner), close)
        },
        _ => error_piece(ks, i, "expected expression"@),
    }
}

/// A lambda `|params| body` at `i`.
pub open spec fn lambda(ks: Seq<SyntaxKind>, i: int) -> Piece
    decreases ks.len() - i, 1int,
{
    if 0 <= i < ks.len() {
        let w1 = ws_piece(ks, i + 1);
        proof {
            lemma_ws_piece(ks, i + 1);
        }
        let params = lambda_params(ks, w1.end);
        proof {
            lemma_lambda_params(ks, w1.end);
        }
        let w2 = ws_piece(ks, params.end);
        proof {
            lemma_ws_piece(ks, params.end);
        }
        let body = expr_bp(ks, w2.end, 0, false);
        wrap(
            SyntaxKind::Lambda,
            then(then(wrap(SyntaxKind::LambdaParams, then(then(token_piece(ks, i), w1), params)), w2), body),
        )
    } else {
        empty_at(i)
    }
}

/// An expression at `i`.
pub open spec fn expr(ks: Seq<SyntaxKind>, i: int) -> Piece {
    expr_bp(ks, i, 0, false)
}

/// A binding definition `let name = value` at `i`.
pub open spec fn binding_def(ks: Seq<SyntaxKind>, i: int) -> Piece {
    let w1 = ws_piece(ks, i + 1);
    let name = if kind_at(ks, w1.end) == Some(SyntaxKind::Atom) {
        token_piece(ks, w1.end)
    } else {
        error_piece(ks, w1.end, "expected binding name"@)
    };
    let w2 = ws_piece(ks, name.end);
    let eq = if kind_at(ks, w2.end) == Some(SyntaxKind::Equals) {
        token_piece(ks, w2.end)
    } else {
        error_piece(ks, w2.end, "expected equals sign"@)
    };
    let w3 = ws_piece(ks, eq.end);
    let value = expr(ks, w3.end);
    wrap(
        SyntaxKind::BindingDef,
        then(then(then(then(then(then(token_piece(ks, i), w1), name), w2), eq), w3), value),
    )
}

/// A return statement `return value` at `i`.
pub open spec fn return_statement(ks: Seq<SyntaxKind>, i: int) -> Piece {
    let w = ws_piece(ks, i + 1);
    wrap(SyntaxKind::ReturnStatement, then(then(token_piece(ks, i), w), expr(ks, w.end)))
}

/// A statement at `i`.
pub open spec fn statement(ks: Seq<SyntaxKind>, i: int) -> Piece {
    match kind_at(ks, i) {
        Some(SyntaxKind::Let) => binding_def(ks, i),
        Some(SyntaxKind::Return) => return_statement(ks, i),
        _ => error_piece(ks, i, "expected let or return"@),
    }
}

/// An item at `i`: a statement, or an expression.
pub open spec fn item(ks: Seq<SyntaxKind>, i: int) -> Piece {
    if kind_at(ks, i) == Some(SyntaxKind::Let) || kind_at(ks, i) == Some(SyntaxKind::Return) {
        statement(ks, i)
    } else {
        expr(ks, i)
    }
}

/// The items that follow `acc`, each on a line of its own.
pub open spec fn items(ks: Seq<SyntaxKind>, acc: Piece) -> Piece
    decreases ks.len() - acc.end,
{
    let i = acc.end;
    if 0 <= i < ks.len() {
        let it = item(ks, i);
        if i <= it.end <= ks.len() {
            let w = ws_piece(ks, it.end);
            proof {
                lemma_ws_piece(ks, it.end);
            }
            let j = w.end;
            match kind_at(ks, j) {
                None => then(then(acc, it), w),
                Some(SyntaxKind::Eol) => items(ks, then(then(then(acc, it), w), token_piece(ks, j))),
                Some(_) => items(ks, then(then(then(acc, it), w), error_piece(ks, j, "expected end of line"@))),
            }
        } else {
            acc
        }
    } else {
        acc
    }
}

/// What the children of the root node of a whole program are: the blank
/// lines it starts with, then its items.
pub open spec fn program(ks: Seq<SyntaxKind>) -> Piece {
    items(ks, blank_piece(ks, 0))
}

/// The lexeme kinds of the four arithmetic operators.
pub open spec fn is_arith_kind(k: SyntaxKind) -> bool {
    k == SyntaxKind::Plus || k == SyntaxKind::Minus || k == SyntaxKind::Star || k == SyntaxKind::Slash
}

/// Multiplication and division, which bind more tightly than addition and
/// subtraction.
pub open spec fn is_multiplicative(k: SyntaxKind) -> bool {
    k == SyntaxKind::Star || k == SyntaxKind::Slash
}

/// In `a o1 b o2 c`, the second operator takes `b` when it binds more
/// tightly than the first (`10 - 4 / 2` is `10 - (4 / 2)`); otherwise the
/// first operation is done first (`10 - 4 - 2` is `(10 - 4) - 2`, and
/// `10 / 4 - 2` is `(10 / 4) - 2`). Either way all five lexemes are read
/// without errors.
pub proof fn law_operators_nest_by_precedence(o1: SyntaxKind, o2: SyntaxKind)
    requires
        is_arith_kind(o1),
        is_arith_kind(o2),
    ensures
        ({
            let ks = seq![SyntaxKind::Digits, o1, SyntaxKind::Digits, o2, SyntaxKind::Digits];
            let d = Shape::Token(SyntaxKind::Digits);
            let e = expr_bp(ks, 0, 0, false);
            &&& e.end == 5
            &&& e.errors.len() == 0
            &&& e.shapes == if is_multiplicative(o2) && !is_multiplicative(o1) {
                seq![Shape::Node(SyntaxKind::BinOp, seq![d, Shape::Token(o1), Shape::Node(SyntaxKind::BinOp, seq![d, Shape::Token(o2), d])])]
            } else {
                seq![Shape::Node(SyntaxKind::BinOp, seq![Shape::Node(SyntaxKind::BinOp, seq![d, Shape::Token(o1), d]), Shape::Token(o2), d])]
            }
        }),
{
    let ks = seq![SyntaxKind::Digits, o1, SyntaxKind::Digits, o2, SyntaxKind::Digits];
    let d = Shape::Token(SyntaxKind::Digits);
    let op1 = op_at(Some(o1))->Some_0;
    let op2 = op_at(Some(o2))->Some_0;
    assert(op_at(kind_at(ks, 1)) == Some(op1));
    assert(op_at(kind_at(ks, 3)) == Some(op2));
    assert(op1 is Op && op2 is Op);
    let r1 = spec_infix_bp(op1).1;
    let r2 = spec_infix_bp(op2).1;
    // The numbers, each followed by no whitespace.
    assert(ws_piece(ks, 1) == empty_at(1));
    assert(ws_piece(ks, 2) == empty_at(2));
    assert(ws_piece(ks, 3) == empty_at(3));
    assert(ws_piece(ks, 4) == empty_at(4));
    assert(ws_piece(ks, 5) == empty_at(5));
    let t0 = then(token_piece(ks, 0), empty_at(1));
    let t2 = then(token_piece(ks, 2), empty_at(3));
    let t4 = then(token_piece(ks, 4), empty_at(5));
    assert(one_expr(ks, 0, false) == token_piece(ks, 0));
    assert(one_expr(ks, 2, false) == token_piece(ks, 2));
    assert(one_expr(ks, 4, false) == token_piece(ks, 4));
    // The last number stands alone.
    assert(expr_loop(ks, r2, false, t4) == t4);
    assert(expr_bp(ks, 4, r2, false) == t4);
    let b2 = wrap(SyntaxKind::BinOp, then(t2, then(then(token_piece(ks, 3), empty_at(4)), t4)));
    assert(expr_loop(ks, r1, false, b2) == b2);
    let b1 = wrap(SyntaxKind::BinOp, then(t0, then(then(token_piece(ks, 1), empty_at(2)), t2)));
    assert(expr_loop(ks, 0, false, b1) == expr_loop(ks, 0, false, wrap(SyntaxKind::BinOp, then(b1, then(then(token_piece(ks, 3), empty_at(4)), t4)))));
    if is_multiplicative(o2) && !is_multiplicative(o1) {
        assert(spec_infix_bp(op2).0 >= r1);
        assert(expr_loop(ks, r1, false, t2) == b2);
        assert(expr_bp(ks, 2, r1, false) == b2);
        let top = wrap(SyntaxKind::BinOp, then(t0, then(then(token_piece(ks, 1), empty_at(2)), b2)));
        assert(expr_loop(ks, 0, false, top) == top);
        assert(expr_loop(ks, 0, false, t0) == top);
        let inner = then(t2, then(then(token_piece(ks, 3), empty_at(4)), t4));
        assert(inner.shapes =~= seq![d, Shape::Token(o2), d]);
        let outer = then(t0, then(then(token_piece(ks, 1), empty_at(2)), b2));
        assert(outer.shapes =~= seq![d, Shape::Token(o1), Shape::Node(SyntaxKind::BinOp, inner.shapes)]);
        assert(top.shapes =~= seq![Shape::Node(SyntaxKind::BinOp, seq![d, Shape::Token(o1), Shape::Node(SyntaxKind::BinOp, seq![d, Shape::Token(o2), d])])]);
        assert(top.errors =~= Seq::<(Seq<char>, int)>::empty());
    } else {
        assert(spec_infix_bp(op2).0 < r1);
        assert(expr_loop(ks, r1, false, t2) == t2);
        assert(expr_bp(ks, 2, r1, false) == t2);
        let top = wrap(SyntaxKind::BinOp, then(b1, then(then(token_piece(ks, 3), empty_at(4)), t4)));
        assert(expr_loop(ks, 0, false, top) == top);
        assert(expr_loop(ks, 0, false, t0) == expr_loop(ks, 0, false, b1));
        let inner = then(t0, then(then(token_piece(ks, 1), empty_at(2)), t2));
        assert(inner.shapes =~= seq![d, Shape::Token(o1), d]);
        let outer = then(b1, then(then(token_piece(ks, 3), empty_at(4)), t4));
        assert(outer.shapes =~= seq![Shape::Node(SyntaxKind::BinOp, inner.shapes), Shape::Token(o2), d]);
        assert(top.shapes =~= seq![Shape::Node(SyntaxKind::BinOp, seq![Shape::Node(SyntaxKind::BinOp, seq![d, Shape::Token(o1), d]), Shape::Token(o2), d])]);
        assert(top.errors =~= Seq::<(Seq<char>, int)>::empty());
    }
}

} // verus!
