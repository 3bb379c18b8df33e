//! A typed reading of syntax trees: which elements are expressions, and where
//! a node keeps its operator, its operands, its name, its parameters or its
//! body.

use vstd::prelude::*;
use crate::syntax_kind::SyntaxKind;
use crate::tree::{SyntaxNode, SyntaxElement, SyntaxToken};

verus! {

/// Whether an element is an expression: a binary operation, a function call,
/// a lambda, a binding usage, a number or a string literal.
pub open spec fn is_expr(e: SyntaxElement) -> bool {
    match e {
        SyntaxElement::Node(n) => n.kind == SyntaxKind::BinOp || n.kind == SyntaxKind::FunctionCall
            || n.kind == SyntaxKind::Lambda || n.kind == SyntaxKind::BindingUsage,
        SyntaxElement::Token(t) => t.kind == SyntaxKind::Digits || t.kind == SyntaxKind::StringLiteral,
    }
}

/// Whether an element is an item of a program: a binding definition or an
/// expression (a return statement is neither, and a program passes over it).
pub open spec fn is_item(e: SyntaxElement) -> bool {
    ||| (e matches SyntaxElement::Node(n) && n.kind == SyntaxKind::BindingDef)
    ||| is_expr(e)
}

/// Position of the first expression among `cs` at or after `i` (or the length).
pub open spec fn first_expr_from(cs: Seq<SyntaxElement>, i: int) -> int
    decreases cs.len() - i,
{
    if i < 0 || i >= cs.len() {
        cs.len() as int
    } else if is_expr(cs[i]) {
        i
    } else {
        first_expr_from(cs, i + 1)
    }
}

/// Position of the first item among `cs` at or after `i` (or the length).
pub open spec fn first_item_from(cs: Seq<SyntaxElement>, i: int) -> int
    decreases cs.len() - i,
{
    if i < 0 || i >= cs.len() {
        cs.len() as int
    } else if is_item(cs[i]) {
        i
    } else {
        first_item_from(cs, i + 1)
    }
}

/// Position of the first token of kind `k` among `cs` at or after `i` (or the
/// length).
pub open spec fn first_token_of_kind(cs: Seq<SyntaxElement>, k: SyntaxKind, i: int) -> int
    decreases cs.len() - i,
{
    if i < 0 || i >= cs.len() {
        cs.len() as int
    } else if cs[i] matches SyntaxElement::Token(t) && t.kind == k {
        i
    } else {
        first_token_of_kind(cs, k, i + 1)
    }
}

pub open spec fn is_op_kind(k: SyntaxKind) -> bool {
    k == SyntaxKind::Plus || k == SyntaxKind::Minus || k == SyntaxKind::Star || k == SyntaxKind::Slash
}

/// Position of the first operator token among `cs` at or after `i` (or the
/// length).
pub open spec fn first_op_from(cs: Seq<SyntaxElement>, i: int) -> int
    decreases cs.len() - i,
{
    if i < 0 || i >= cs.len() {
        cs.len() as int
    } else if cs[i] matches SyntaxElement::Token(t) && is_op_kind(t.kind) {
        i
    } else {
        first_op_from(cs, i + 1)
    }
}

/// Position of the first node among `cs` at or after `i` (or the length).
pub open spec fn first_node_from(cs: Seq<SyntaxElement>, i: int) -> int
    decreases cs.len() - i,
{
    if i < 0 || i >= cs.len() {
        cs.len() as int
    } else if cs[i] is Node {
        i
    } else {
        first_node_from(cs, i + 1)
    }
}

/// The first token of a node, looking into its first child where that is a node.
pub open spec fn first_token(n: SyntaxNode) -> Option<SyntaxToken>
    decreases n,
{
    if n.children@.len() == 0 {
        None
    } else {
        match n.children@[0] {
            SyntaxElement::Token(t) => Some(t),
            SyntaxElement::Node(m) => first_token(*m),
        }
    }
}

/// The texts of the atom tokens among `cs`, in order.
pub open spec fn atom_texts(cs: Seq<SyntaxElement>) -> Seq<Seq<char>>
    decreases cs.len(),
{
    if cs.len() == 0 {
        Seq::empty()
    } else {
        let r = atom_texts(cs.drop_last());
        match cs.last() {
            SyntaxElement::Token(t) => if t.kind == SyntaxKind::Atom {
                r.push(t.text@)
            } else {
                r
            },
            SyntaxElement::Node(_) => r,
        }
    }
}

/// The name that a binding usage or a binding definition holds: its first atom.
pub open spec fn binding_name(n: SyntaxNode) -> Option<Seq<char>> {
    let i = first_token_of_kind(n.children@, SyntaxKind::Atom, 0);
    if 0 <= i < n.children@.len() {
        match n.children@[i] {
            SyntaxElement::Token(t) => Some(t.text@),
            _ => None,
        }
    } else {
        None
    }
}

/// Position of a binding definition's expression: the first expression after
/// its `=`.
pub open spec fn binding_def_expr(n: SyntaxNode) -> int {
    let eq = first_token_of_kind(n.children@, SyntaxKind::Equals, 0);
    if 0 <= eq < n.children@.len() {
        first_expr_from(n.children@, eq + 1)
    } else {
        n.children@.len() as int
    }
}

pub proof fn lemma_first_expr_from(cs: Seq<SyntaxElement>, i: int)
    requires
        0 <= i <= cs.len(),
    ensures
        i <= first_expr_from(cs, i) <= cs.len(),
        first_expr_from(cs, i) < cs.len() ==> is_expr(cs[first_expr_from(cs, i)]),
    decreases cs.len() - i,
{
    if i < cs.len() && !is_expr(cs[i]) {
        lemma_first_expr_from(cs, i + 1);
    }
}

pub proof fn lemma_first_item_from(cs: Seq<SyntaxElement>, i: int)
    requires
        0 <= i <= cs.len(),
    ensures
        i <= first_item_from(cs, i) <= cs.len(),
        first_item_from(cs, i) < cs.len() ==> is_item(cs[first_item_from(cs, i)]),
    decreases cs.len() - i,
{
    if i < cs.len() && !is_item(cs[i]) {
        lemma_first_item_from(cs, i + 1);
    }
}

/// Position of the first expression among `cs` at or after `i`.
pub fn find_expr(cs: &Vec<SyntaxElement>, i: usize) -> (r: usize)
    requires
        i <= cs@.len(),
    ensures
        r == first_expr_from(cs@, i as int),
        i <= r <= cs@.len(),
{
    proof {
        lemma_first_expr_from(cs@, i as int);
    }
    let mut j = i;
    while j < cs.len() && !elem_is_expr(&cs[j])
        invariant
            i <= j <= cs@.len(),
            first_expr_from(cs@, i as int) == first_expr_from(cs@, j as int),
        decreases cs@.len() - j,
    {
        j = j + 1;
    }
    j
}

/// Position of the first item among `cs` at or after `i`.
pub fn find_item(cs: &Vec<SyntaxElement>, i: usize) -> (r: usize)
    requires
        i <= cs@.len(),
    ensures
        r == first_item_from(cs@, i as int),
        i <= r <= cs@.len(),
{
    proof {
        lemma_first_item_from(cs@, i as int);
    }
    let mut j = i;
    while j < cs.len() && !elem_is_item(&cs[j])
        invariant
            i <= j <= cs@.len(),
            first_item_from(cs@, i as int) == first_item_from(cs@, j as int),
        decreases cs@.len() - j,
    {
        j = j + 1;
    }
    j
}

/// Position of the first token of kind `k` among `cs` at or after `i`.
pub fn find_token(cs: &Vec<SyntaxElement>, k: SyntaxKind, i: usize) -> (r: usize)
    requires
        i <= cs@.len(),
    ensures
        r == first_token_of_kind(cs@, k, i as int),
        i <= r <= cs@.len(),
{
    let mut j = i;
    while j < cs.len()
        invariant
            i <= j <= cs@.len(),
            first_token_of_kind(cs@, k, i as int) == first_token_of_kind(cs@, k, j as int),
        decreases cs@.len() - j,
    {
        match &cs[j] {
            SyntaxElement::Token(t) => {
                if t.kind == k {
                    return j;
                }
            },
            SyntaxElement::Node(_) => {},
        }
        j = j + 1;
    }
    j
}

/// Position of the first operator token among `cs` at or after `i`.
pub fn find_op(cs: &Vec<SyntaxElement>, i: usize) -> (r: usize)
    requires
        i <= cs@.len(),
    ensures
        r == first_op_from(cs@, i as int),
        i <= r <= cs@.len(),
{
    let mut j = i;
    while j < cs.len()
        invariant
            i <= j <= cs@.len(),
            first_op_from(cs@, i as int) == first_op_from(cs@, j as int),
        decreases cs@.len() - j,
    {
        match &cs[j] {
            SyntaxElement::Token(t) => {
                if t.kind == SyntaxKind::Plus || t.kind == SyntaxKind::Minus || t.kind == SyntaxKind::Star
                    || t.kind == SyntaxKind::Slash {
                    return j;
                }
            },
            SyntaxElement::Node(_) => {},
        }
        j = j + 1;
    }
    j
}

/// Position of the first node among `cs` at or after `i`.
pub fn find_node(cs: &Vec<SyntaxElement>, i: usize) -> (r: usize)
    requires
        i <= cs@.len(),
    ensures
        r == first_node_from(cs@, i as int),
        i <= r <= cs@.len(),
{
    let mut j = i;
    while j < cs.len()
        invariant
            i <= j <= cs@.len(),
            first_node_from(cs@, i as int) == first_node_from(cs@, j as int),
        decreases cs@.len() - j,
    {
        match &cs[j] {
            SyntaxElement::Node(_) => {
                return j;
            },
            SyntaxElement::Token(_) => {},
        }
        j = j + 1;
    }
    j
}

/// Whether `e` is an expression.
pub fn elem_is_expr(e: &SyntaxElement) -> (b: bool)
    ensures
        b == is_expr(*e),
{
    match e {
        SyntaxElement::Node(n) => n.kind == SyntaxKind::BinOp || n.kind == SyntaxKind::FunctionCall
            || n.kind == SyntaxKind::Lambda || n.kind == SyntaxKind::BindingUsage,
        SyntaxElement::Token(t) => t.kind == SyntaxKind::Digits || t.kind == SyntaxKind::StringLiteral,
    }
}

/// Whether `e` is an item.
pub fn elem_is_item(e: &SyntaxElement) -> (b: bool)
    ensures
        b == is_item(*e),
{
    match e {
        SyntaxElement::Node(n) => n.kind == SyntaxKind::BindingDef || n.kind == SyntaxKind::BinOp || n.kind == SyntaxKind::FunctionCall || n.kind
            == SyntaxKind::Lambda || n.kind == SyntaxKind::BindingUsage,
        SyntaxElement::Token(t) => t.kind == SyntaxKind::Digits || t.kind == SyntaxKind::StringLiteral,
    }
}

/// The first token of `n`, looking into its first child where that is a node.
pub fn first_token_of(n: &SyntaxNode) -> (r: Option<&SyntaxToken>)
    ensures
        match first_token(*n) {
            Some(t) => r matches Some(u) && *u == t,
            None => r is None,
        },
    decreases n,
{
    if n.children.len() == 0 {
        None
    } else {
        match &n.children[0] {
            SyntaxElement::Token(t) => Some(t),
            SyntaxElement::Node(m) => first_token_of(&**m),
        }
    }
}

/// The text of the first atom among `n`'s children.
pub fn binding_name_of(n: &SyntaxNode) -> (r: Option<String>)
    ensures
        match binding_name(*n) {
            Some(s) => r matches Some(t) && t@ == s,
            None => r is None,
        },
{
    let i = find_token(&n.children, SyntaxKind::Atom, 0);
    if i < n.children.len() {
        match &n.children[i] {
            SyntaxElement::Token(t) => Some(t.text.clone()),
            SyntaxElement::Node(_) => None,
        }
    } else {
        None
    }
}

/// The texts of the atoms among `cs`.
pub fn atom_texts_of(cs: &Vec<SyntaxElement>) -> (r: Vec<String>)
    ensures
        r@.map_values(|s: String| s@) == atom_texts(cs@),
{
    let mut r: Vec<String> = Vec::new();
    let mut k: usize = 0;
    while k < cs.len()
        invariant
            k <= cs@.len(),
            r@.map_values(|s: String| s@) == atom_texts(cs@.take(k as int)),
        decreases cs@.len() - k,
    {
        proof {
            assert(cs@.take(k + 1).drop_last() =~= cs@.take(k as int));
        }
        match &cs[k] {
            SyntaxElement::Token(t) => {
                if t.kind == SyntaxKind::Atom {
                    let ghost before = r@;
                    r.push(t.text.clone());
                    proof {
                        assert(r@.map_values(|s: String| s@) =~= before.map_values(|s: String| s@).push(t.text@));
                    }
                }
            },
            SyntaxElement::Node(_) => {},
        }
        k = k + 1;
    }
    proof {
        assert(cs@.take(cs@.len() as int) =~= cs@);
    }
    r
}

} // verus!
