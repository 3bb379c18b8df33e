//! Parsing Fjord code into a lossless concrete syntax tree.
//!
//! The parser never gives up: where the input does not fit the grammar it
//! records a syntax error, wraps the offending lexeme in an `Error` token and
//! carries on, so that every piece of the input ends up in the tree.

use vstd::prelude::*;
use std::rc::Rc;
use crate::lexer::{Lexeme, lex, lex_spec, lex_from, lemma_lex_from_covers};
use crate::syntax_kind::SyntaxKind;
use crate::text::utf8_len;
use crate::text_range::TextRange;
use crate::tree::{TreeBuilder, SyntaxNode, SyntaxElement, SyntaxToken, Shape, node_text, node_shape, elem_shape, elems_shape,
    lemma_elems_shape_concat, lemma_elems_shape_len, lemma_elems_shape_single, elem_range};
use crate::grammar::{
    Piece, kind_at, at_end_or_eol, empty_at, then, wrap, token_piece, error_piece, ws_piece, blank_piece, op_at,
    atom, binding_usage, lambda_params, expr_bp, expr_loop, one_expr, lambda, expr, binding_def, return_statement,
    statement, item, items, program, lemma_ws_piece, lemma_then_assoc, lemma_then_empty,
};
use crate::debug_tree::{debug_tree, spec_debug_tree};
use crate::sealed::Sealed;

verus! {

/// A syntax error encountered during parsing.
#[derive(Debug, Clone, PartialEq, Eq, Hash)]
pub struct SyntaxError {
    pub message: &'static str,
    pub range: TextRange,
}

/// A type representing the state of a `ParseOutput` containing no errors.
#[derive(Debug, Clone, PartialEq, Eq, Hash)]
pub struct NoErrors;

/// A type representing the state of a `ParseOutput` containing some number of errors.
#[derive(Debug, Clone, PartialEq, Eq, Hash)]
pub struct ContainsErrors(pub Vec<SyntaxError>);

/// The state of a `ParseOutput`. This trait is sealed, so its implementors are a fixed set.
pub trait ParseOutputState: Sealed {}

impl Sealed for NoErrors {}

impl ParseOutputState for NoErrors {}

impl Sealed for ContainsErrors {}

impl ParseOutputState for ContainsErrors {}

/// The output of parsing Fjord code. The `State` parameter records whether the
/// output may still hold syntax errors.
#[derive(Debug)]
pub struct ParseOutput<State: ParseOutputState> {
    pub(crate) root: Rc<SyntaxNode>,
    pub(crate) state: State,
}

impl<State: ParseOutputState> ParseOutput<State> {
    /// The syntax tree.
    pub closed spec fn tree(&self) -> SyntaxNode {
        *self.root
    }

    /// The root of the syntax tree.
    pub fn syntax(&self) -> (r: Rc<SyntaxNode>)
        ensures
            *r == self.tree(),
    {
        crate::tree::rc_clone(&self.root)
    }

    /// Returns a representation of the underlying syntax tree suitable for debugging purposes.
    pub fn debug_tree(&self) -> (s: String)
        ensures
            s@ == spec_debug_tree(self.tree()),
    {
        debug_tree(&self.root)
    }
}

impl ParseOutput<ContainsErrors> {
    /// All the syntax errors found throughout the parsing process.
    pub closed spec fn spec_errors(&self) -> Seq<SyntaxError> {
        self.state.0@
    }

    /// Converts a `ParseOutput` that contains errors into one that does not;
    /// `None` if errors are present.
    pub fn into_no_errors(self) -> (r: Option<ParseOutput<NoErrors>>)
        ensures
            self.spec_errors().len() == 0 <==> r is Some,
            r matches Some(o) ==> o.tree() == self.tree(),
    {
        if self.state.0.len() == 0 {
            Some(ParseOutput { root: self.root, state: NoErrors })
        } else {
            None
        }
    }

    /// Returns all the syntax errors found throughout the parsing process.
    pub fn errors(&self) -> (r: &[SyntaxError])
        ensures
            r@ == self.spec_errors(),
    {
        self.state.0.as_slice()
    }
}

/// The part of the grammar with which `Parser::parse_fragment` parses.
#[derive(Debug, Copy, Clone, PartialEq, Eq)]
pub enum Fragment {
    Item,
    Statement,
    Expr,
}

/// The concatenated texts of the first `n` lexemes.
pub open spec fn texts_prefix(ls: Seq<Lexeme>, n: int) -> Seq<char>
    decreases n,
{
    if n <= 0 {
        Seq::empty()
    } else {
        texts_prefix(ls, n - 1) + ls[n - 1].text@
    }
}

/// The concatenated texts of the lexemes of `s`, starting from character `i`.
pub open spec fn lexeme_texts(s: Seq<char>, ls: Seq<(SyntaxKind, int, int)>) -> Seq<char>
    decreases ls.len(),
{
    if ls.len() == 0 {
        Seq::empty()
    } else {
        s.subrange(ls[0].1, ls[0].2) + lexeme_texts(s, ls.drop_first())
    }
}

/// The lexemes from character `i` on spell out the rest of the text.
pub proof fn lemma_lex_from_lossless(s: Seq<char>, i: int)
    requires
        0 <= i <= s.len(),
    ensures
        lexeme_texts(s, lex_from(s, i)) == s.subrange(i, s.len() as int),
    decreases s.len() - i,
{
    if i < s.len() {
        crate::lexer::lemma_token_at_bounds(s, i);
        let ls = lex_from(s, i);
        let n = crate::lexer::token_at(s, i).1;
        let e = i + n;
        assert(ls == seq![(crate::lexer::token_at(s, i).0, i, i + n)] + lex_from(s, e));
        assert(ls[0].2 == e);
        assert(ls.drop_first() =~= lex_from(s, e));
        lemma_lex_from_lossless(s, e);
        assert(s.subrange(i, e) + s.subrange(e, s.len() as int) =~= s.subrange(i, s.len() as int));
    } else {
        assert(s.subrange(i, s.len() as int) =~= Seq::<char>::empty());
    }
}

/// Lexing loses nothing: the texts of the lexemes, in order, spell out the input.
pub proof fn lemma_lex_lossless(s: Seq<char>)
    ensures
        lexeme_texts(s, lex_spec(s)) == s,
{
    lemma_lex_from_lossless(s, 0);
    assert(s.subrange(0, s.len() as int) =~= s);
}

proof fn lemma_texts_prefix_matches(s: Seq<char>, ls: Seq<Lexeme>, spec_ls: Seq<(SyntaxKind, int, int)>, n: int)
    requires
        ls.len() == spec_ls.len(),
        0 <= n <= ls.len(),
        forall|k: int| 0 <= k < ls.len() ==> (#[trigger] ls[k]).text@ == s.subrange(spec_ls[k].1, spec_ls[k].2),
    ensures
        texts_prefix(ls, n) + lexeme_texts(s, spec_ls.skip(n)) == lexeme_texts(s, spec_ls),
    decreases n,
{
    if n == 0 {
        assert(spec_ls.skip(0) =~= spec_ls);
        assert(texts_prefix(ls, 0) =~= Seq::<char>::empty());
        assert(texts_prefix(ls, n) + lexeme_texts(s, spec_ls.skip(n)) =~= lexeme_texts(s, spec_ls));
    } else {
        lemma_texts_prefix_matches(s, ls, spec_ls, n - 1);
        assert(spec_ls.skip(n - 1).drop_first() =~= spec_ls.skip(n));
        assert(spec_ls.skip(n - 1)[0] == spec_ls[n - 1]);
        assert(texts_prefix(ls, n) + lexeme_texts(s, spec_ls.skip(n)) =~= texts_prefix(ls, n - 1)
            + lexeme_texts(s, spec_ls.skip(n - 1)));
    }
}

/// Operators of binary operations.
#[derive(Debug, Copy, Clone, PartialEq, Eq, Hash, Structural)]
pub enum Op {
    Add,
    Sub,
    Mul,
    Div,
}

/// What joins two expressions: a binary operator, or the application of a
/// function to a parameter.
#[derive(Copy, Clone, PartialEq, Eq, Structural)]
pub enum VirtualOp {
    Op(Op),
    Application,
}

/// Binding powers, left and right, of each operator: applications bind
/// tightest, then multiplication and division, then addition and subtraction.
pub open spec fn spec_infix_bp(op: VirtualOp) -> (u8, u8) {
    match op {
        VirtualOp::Op(Op::Add) | VirtualOp::Op(Op::Sub) => (1, 2),
        VirtualOp::Op(Op::Mul) | VirtualOp::Op(Op::Div) => (3, 4),
        VirtualOp::Application => (5, 5),
    }
}

/// The binding powers follow the order of arithmetic: multiplication and
/// division bind more tightly than addition and subtraction on both sides (so
/// `a - b / c` is `a - (b / c)`), addition and subtraction have equal powers,
/// as do multiplication and division; every operator is left-associative
/// (`a - b - c` is `(a - b) - c`), and applying a function binds more tightly
/// than any operator.
pub proof fn law_binding_powers_follow_arithmetic(o1: Op, o2: Op)
    ensures
        (o1 is Mul || o1 is Div) && (o2 is Add || o2 is Sub) ==> spec_infix_bp(VirtualOp::Op(o1)).0 > spec_infix_bp(VirtualOp::Op(o2)).1,
        (o1 is Add || o1 is Sub) && (o2 is Add || o2 is Sub) ==> spec_infix_bp(VirtualOp::Op(o1)) == spec_infix_bp(VirtualOp::Op(o2)),
        (o1 is Mul || o1 is Div) && (o2 is Mul || o2 is Div) ==> spec_infix_bp(VirtualOp::Op(o1)) == spec_infix_bp(VirtualOp::Op(o2)),
        spec_infix_bp(VirtualOp::Op(o1)).0 < spec_infix_bp(VirtualOp::Op(o1)).1,
        spec_infix_bp(VirtualOp::Application).0 > spec_infix_bp(VirtualOp::Op(o1)).1,
{
}

/// Binding powers, left and right, of an operator.
pub fn infix_bp(op: VirtualOp) -> (r: (u8, u8))
    ensures
        r == spec_infix_bp(op),
{
    match op {
        VirtualOp::Op(op) => match op {
            Op::Add | Op::Sub => (1, 2),
            Op::Mul | Op::Div => (3, 4),
        },
        VirtualOp::Application => (5, 5),
    }
}

/// Number of tokens in an element.
pub open spec fn elem_count(e: SyntaxElement) -> nat
    decreases e,
{
    match e {
        SyntaxElement::Token(_) => 1,
        SyntaxElement::Node(n) => elems_count(n.children@),
    }
}

/// Number of tokens in a sequence of elements.
pub open spec fn elems_count(es: Seq<SyntaxElement>) -> nat
    decreases es,
{
    if es.len() == 0 {
        0
    } else {
        elems_count(es.drop_last()) + elem_count(es.last())
    }
}

/// Where lexeme `k` starts: where the lexeme before it ends (0 for the first).
pub open spec fn lex_off(ls: Seq<Lexeme>, k: int) -> u32 {
    if k <= 0 {
        0
    } else {
        ls[k - 1].range.end
    }
}

/// The lexemes follow each other without gaps, from offset 0 on.
pub open spec fn contiguous(ls: Seq<Lexeme>) -> bool {
    forall|k: int| 0 <= k < ls.len() ==> #[trigger] ls[k].range.start == lex_off(ls, k)
}

/// The element `e`, whose first token stands for lexeme `i`, is made of the
/// lexemes from `i` on: each token has its lexeme's text and range, and its
/// kind unless it is an `Error` token; each node covers from where its first
/// lexeme starts to where its last one ends (an empty node sits where the next
/// lexeme starts).
pub open spec fn elem_spanned(e: SyntaxElement, i: int, ls: Seq<Lexeme>) -> bool
    decreases e,
{
    match e {
        SyntaxElement::Token(t) => {
            &&& 0 <= i < ls.len()
            &&& t.text@ == ls[i].text@
            &&& t.range == ls[i].range
            &&& (t.kind == ls[i].kind || t.kind == SyntaxKind::Error)
        },
        SyntaxElement::Node(n) => {
            &&& n.range == (TextRange { start: lex_off(ls, i), end: lex_off(ls, i + elems_count(n.children@)) })
            &&& elems_spanned(n.children@, i, ls)
        },
    }
}

/// The elements `es`, one after the other, are made of the lexemes from `i` on.
pub open spec fn elems_spanned(es: Seq<SyntaxElement>, i: int, ls: Seq<Lexeme>) -> bool
    decreases es,
{
    if es.len() == 0 {
        true
    } else {
        elems_spanned(es.drop_last(), i, ls) && elem_spanned(es.last(), i + elems_count(es.drop_last()), ls)
    }
}

/// The node is made of the lexemes from `i` on (see `elem_spanned`).
pub open spec fn node_spanned(n: SyntaxNode, i: int, ls: Seq<Lexeme>) -> bool {
    &&& n.range == (TextRange { start: lex_off(ls, i), end: lex_off(ls, i + elems_count(n.children@)) })
    &&& elems_spanned(n.children@, i, ls)
}

proof fn lemma_spanned_concat(a: Seq<SyntaxElement>, b: Seq<SyntaxElement>, i: int, ls: Seq<Lexeme>)
    ensures
        elems_count(a + b) == elems_count(a) + elems_count(b),
        elems_spanned(a + b, i, ls) == (elems_spanned(a, i, ls) && elems_spanned(b, i + elems_count(a), ls)),
    decreases b.len(),
{
    if b.len() == 0 {
        assert(a + b =~= a);
    } else {
        lemma_spanned_concat(a, b.drop_last(), i, ls);
        assert((a + b).drop_last() =~= a + b.drop_last());
        assert((a + b).last() == b.last());
    }
}

proof fn lemma_spanned_split(es: Seq<SyntaxElement>, n: int, i: int, ls: Seq<Lexeme>)
    requires
        0 <= n <= es.len(),
    ensures
        elems_count(es) == elems_count(es.take(n)) + elems_count(es.skip(n)),
        elems_spanned(es, i, ls) == (elems_spanned(es.take(n), i, ls) && elems_spanned(
            es.skip(n),
            i + elems_count(es.take(n)),
            ls,
        )),
{
    lemma_spanned_concat(es.take(n), es.skip(n), i, ls);
    assert(es.take(n) + es.skip(n) =~= es);
}

proof fn lemma_spanned_start(e: SyntaxElement, i: int, ls: Seq<Lexeme>)
    requires
        elem_spanned(e, i, ls),
        contiguous(ls),
    ensures
        elem_range(e).start == lex_off(ls, i),
{
    if let SyntaxElement::Token(t) = e {
        assert(ls[i].range.start == lex_off(ls, i));
    }
}

/// Parses Fjord code.
pub struct Parser {
    input: Ghost<Seq<char>>,
    lexemes: Vec<Lexeme>,
    pos: usize,
    builder: TreeBuilder,
    errors: Vec<SyntaxError>,
    last_lexeme_range: TextRange,
}

/// The range of the lexeme at index `at`; the empty range at the start when there is none.
pub open spec fn range_of(ls: Seq<Lexeme>, at: int) -> TextRange {
    if 0 <= at < ls.len() {
        ls[at].range
    } else {
        TextRange { start: 0, end: 0 }
    }
}

/// The syntax errors `es` are those of `want`, in order: the same messages,
/// and the ranges of the lexemes that `want` gives.
pub open spec fn errors_match(es: Seq<SyntaxError>, want: Seq<(Seq<char>, int)>, ls: Seq<Lexeme>) -> bool {
    &&& es.len() == want.len()
    &&& forall|k: int| 0 <= k < es.len() ==> {
        &&& (#[trigger] es[k]).message@ == want[k].0
        &&& es[k].range == range_of(ls, want[k].1)
    }
}

/// The kinds of the lexemes of `s`, in order.
pub open spec fn lex_kinds(s: Seq<char>) -> Seq<SyntaxKind> {
    lex_spec(s).map_values(|t: (SyntaxKind, int, int)| t.0)
}

impl Parser {
    pub closed spec fn lexemes(&self) -> Seq<Lexeme> {
        self.lexemes@
    }

    /// The kinds of the lexemes, in order.
    pub open spec fn kinds(&self) -> Seq<SyntaxKind> {
        self.lexemes().map_values(|l: Lexeme| l.kind)
    }

    /// The text the parser was created for.
    pub closed spec fn input(&self) -> Seq<char> {
        self.input@
    }

    /// Index of the next lexeme to be consumed.
    pub closed spec fn pos(&self) -> int {
        self.pos as int
    }

    pub closed spec fn tree_builder(&self) -> TreeBuilder {
        self.builder
    }

    pub closed spec fn syntax_errors(&self) -> Seq<SyntaxError> {
        self.errors@
    }

    /// The range of the lexeme consumed last.
    pub closed spec fn last_range(&self) -> TextRange {
        self.last_lexeme_range
    }

    /// The elements built so far, at all levels.
    pub open spec fn elements(&self) -> Seq<SyntaxElement> {
        self.tree_builder().elements()
    }

    /// The nodes started and not yet finished.
    pub open spec fn open_nodes(&self) -> Seq<(SyntaxKind, usize, u32)> {
        self.tree_builder().open_nodes()
    }

    pub open spec fn remaining(&self) -> int {
        self.lexemes().len() - self.pos()
    }

    /// The kind of the next lexeme, if any.
    pub open spec fn spec_peek(&self) -> Option<SyntaxKind> {
        kind_at(self.kinds(), self.pos())
    }

    /// Whether the next lexeme is absent or ends a line.
    pub open spec fn at_end_or_eol_spec(&self) -> bool {
        at_end_or_eol(self.kinds(), self.pos())
    }

    pub open spec fn wf(&self) -> bool {
        &&& 0 <= self.pos() <= self.lexemes().len()
        &&& self.lexemes().len() <= usize::MAX
        &&& self.tree_builder().wf()
        &&& self.tree_builder().text() == texts_prefix(self.lexemes(), self.pos())
        &&& texts_prefix(self.lexemes(), self.lexemes().len() as int) == self.input()
        &&& self.last_range() == range_of(self.lexemes(), self.pos() - 1)
        &&& contiguous(self.lexemes())
        &&& lex_off(self.lexemes(), self.lexemes().len() as int) as int == utf8_len(self.input()) as int
        &&& elems_spanned(self.elements(), 0, self.lexemes())
        &&& elems_count(self.elements()) == self.pos()
        &&& self.tree_builder().offset() == lex_off(self.lexemes(), self.pos())
        &&& forall|j: int| 0 <= j < self.open_nodes().len() ==> #[trigger] self.open_nodes()[j].2 == lex_off(
            self.lexemes(),
            elems_count(self.elements().take(self.open_nodes()[j].1 as int)) as int,
        )
    }

    /// Going from `self` to `next` consumed the lexemes that `piece` says,
    /// appended elements of its shapes after those of `self`, and found its
    /// errors.
    pub open spec fn grows(&self, next: &Parser, piece: Piece) -> bool {
        &&& next.wf()
        &&& next.lexemes() == self.lexemes()
        &&& next.input() == self.input()
        &&& self.pos() <= next.pos()
        &&& next.pos() == piece.end
        &&& self.elements().len() <= next.elements().len()
        &&& next.elements().take(self.elements().len() as int) == self.elements()
        &&& elems_shape(next.elements().skip(self.elements().len() as int)) == piece.shapes
        &&& next.syntax_errors().len() == self.syntax_errors().len() + piece.errors.len()
        &&& next.syntax_errors().take(self.syntax_errors().len() as int) == self.syntax_errors()
        &&& errors_match(next.syntax_errors().skip(self.syntax_errors().len() as int), piece.errors, self.lexemes())
    }

    /// `grows`, with the same nodes still open.
    pub open spec fn extends(&self, next: &Parser, piece: Piece) -> bool {
        &&& self.grows(next, piece)
        &&& next.open_nodes() == self.open_nodes()
    }

    /// `next` is `self` with a node of kind `kind` opened at element `start`.
    pub open spec fn started_at(&self, next: &Parser, kind: SyntaxKind, start: int) -> bool {
        &&& next.wf()
        &&& next.lexemes() == self.lexemes()
        &&& next.input() == self.input()
        &&& next.pos() == self.pos()
        &&& next.syntax_errors() == self.syntax_errors()
        &&& next.elements() == self.elements()
        &&& next.open_nodes().len() == self.open_nodes().len() + 1
        &&& next.open_nodes().drop_last() == self.open_nodes()
        &&& next.open_nodes().last().0 == kind
        &&& next.open_nodes().last().1 == start
    }

    /// `next` is `self` with its innermost open node finished.
    pub open spec fn finished(&self, next: &Parser) -> bool {
        &&& next.wf()
        &&& next.lexemes() == self.lexemes()
        &&& next.input() == self.input()
        &&& next.pos() == self.pos()
        &&& next.syntax_errors() == self.syntax_errors()
        &&& self.open_nodes().len() > 0
        &&& next.open_nodes() == self.open_nodes().drop_last()
        &&& next.elements().len() == self.open_nodes().last().1 + 1
        &&& next.elements().drop_last() == self.elements().take(self.open_nodes().last().1 as int)
        &&& next.elements().last() is Node
        &&& next.elements().last()->Node_0.kind == self.open_nodes().last().0
        &&& next.elements().last()->Node_0.children@ == self.elements().skip(self.open_nodes().last().1 as int)
    }

    /// A parser for `input`, whose UTF-8 length must fit in 32 bits.
    pub fn new(input: &str) -> (p: Parser)
        requires
            utf8_len(input@) <= u32::MAX,
        ensures
            p.wf(),
            p.pos() == 0,
            p.input() == input@,
            p.kinds() == lex_kinds(input@),
            p.lexemes().len() == lex_spec(input@).len(),
            forall|k: int| 0 <= k < p.lexemes().len() ==> {
                let (kind, start, end) = #[trigger] lex_spec(input@)[k];
                &&& p.lexemes()[k].kind == kind
                &&& p.lexemes()[k].text@ == input@.subrange(start, end)
                &&& p.lexemes()[k].range.start == utf8_len(input@.take(start))
                &&& p.lexemes()[k].range.end == utf8_len(input@.take(end))
            },
            p.open_nodes().len() == 0,
            p.elements().len() == 0,
            p.syntax_errors().len() == 0,
    {
        let lexemes = lex(input);
        let builder = TreeBuilder::new();
        proof {
            assert(lexemes@.len() == lexemes.len());
            let s = input@;
            lemma_lex_lossless(s);
            lemma_texts_prefix_matches(s, lexemes@, lex_spec(s), lexemes@.len() as int);
            assert(lex_spec(s).skip(lexemes@.len() as int) =~= Seq::<(SyntaxKind, int, int)>::empty());
            assert(lexeme_texts(s, Seq::<(SyntaxKind, int, int)>::empty()) =~= Seq::<char>::empty());
            assert(texts_prefix(lexemes@, lexemes@.len() as int) =~= s);
            assert(builder.text() =~= Seq::<char>::empty());
            assert(texts_prefix(lexemes@, 0) =~= Seq::<char>::empty());
            assert(lexemes@.map_values(|l: Lexeme| l.kind) =~= lex_kinds(s));
            lemma_lex_from_covers(s, 0);
            assert(s.take(0) =~= Seq::<char>::empty());
            assert forall|k: int| 0 <= k < lexemes@.len() implies #[trigger] lexemes@[k].range.start == lex_off(lexemes@, k) by {
                if k > 0 {
                    assert(lex_spec(s)[k - 1].2 == lex_spec(s)[k].1);
                    assert(lexemes@[k - 1].range.end == utf8_len(s.take(lex_spec(s)[k - 1].2)));
                } else {
                    assert(lex_spec(s)[0].1 == 0);
                }
            }
            assert(elems_count(Seq::<SyntaxElement>::empty()) == 0);
            let n = lexemes@.len() as int;
            if n > 0 {
                assert(lex_spec(s)[n - 1].2 == s.len());
                assert(s.take(s.len() as int) =~= s);
                assert(lexemes@[n - 1].range.end == utf8_len(s.take(lex_spec(s)[n - 1].2)));
            } else {
                assert(s =~= Seq::<char>::empty());
            }
        }
        Parser {
            input: Ghost(input@),
            lexemes,
            pos: 0,
            builder,
            errors: Vec::new(),
            last_lexeme_range: TextRange::empty(),
        }
    }

    /// The kind of the next lexeme.
    fn peek(&self) -> (k: Option<SyntaxKind>)
        requires
            self.wf(),
        ensures
            k == self.spec_peek(),
    {
        if self.pos < self.lexemes.len() {
            Some(self.lexemes[self.pos].kind)
        } else {
            None
        }
    }

    /// The kind of the lexeme `n` places ahead of the next one.
    fn lookahead(&self, n: usize) -> (k: Option<SyntaxKind>)
        requires
            self.wf(),
        ensures
            k == kind_at(self.kinds(), self.pos() + n),
    {
        if n < self.lexemes.len() - self.pos {
            Some(self.lexemes[self.pos + n].kind)
        } else {
            None
        }
    }

    /// Whether the next lexeme is of kind `kind`.
    fn at(&self, kind: SyntaxKind) -> (b: bool)
        requires
            self.wf(),
        ensures
            b == (self.spec_peek() == Some(kind)),
    {
        self.pos < self.lexemes.len() && self.lexemes[self.pos].kind == kind
    }

    /// Whether the lexeme `n` places ahead of the next one is of kind `kind`.
    fn nth_at(&self, n: usize, kind: SyntaxKind) -> (b: bool)
        requires
            self.wf(),
        ensures
            b == (kind_at(self.kinds(), self.pos() + n) == Some(kind)),
    {
        n < self.lexemes.len() - self.pos && self.lexemes[self.pos + n].kind == kind
    }

    fn at_end(&self) -> (b: bool)
        requires
            self.wf(),
        ensures
            b == (self.spec_peek() is None),
    {
        self.pos >= self.lexemes.len()
    }

    /// Adds the next lexeme to the tree as a token of `kind`.
    fn consume_as(&mut self, kind: SyntaxKind)
        requires
            old(self).wf(),
            old(self).pos() < old(self).lexemes().len(),
            kind == old(self).lexemes()[old(self).pos()].kind || kind == SyntaxKind::Error,
        ensures
            old(self).extends(
                final(self),
                Piece { shapes: seq![Shape::Token(kind)], end: old(self).pos() + 1, errors: Seq::empty() },
            ),
            final(self).syntax_errors() == old(self).syntax_errors(),
    {
        let lexeme = &self.lexemes[self.pos];
        let text = lexeme.text.clone();
        let range = lexeme.range;
        self.builder.token(kind, text, range);
        self.last_lexeme_range = range;
        self.pos = self.pos + 1;
        proof {
            let olde = old(self).elements();
            let e = self.elements();
            assert(texts_prefix(self.lexemes@, self.pos as int) == texts_prefix(self.lexemes@, self.pos - 1) + self.lexemes@[self.pos - 1].text@);
            assert(e.take(olde.len() as int) =~= olde);
            assert(e.skip(olde.len() as int) =~= seq![e.last()]);
            lemma_elems_shape_single(e.last());
            assert(e.drop_last() =~= olde);
            assert(e.last() == SyntaxElement::Token(SyntaxToken { kind, text, range }));
            assert(text@ == self.lexemes@[self.pos - 1].text@);
            assert(elem_spanned(e.last(), old(self).pos(), self.lexemes()));
            assert(e.len() > 0);
            assert(elem_count(e.last()) == 1);
            assert(elems_count(e) == elems_count(e.drop_last()) + elem_count(e.last()));
            assert(elems_count(e) == elems_count(olde) + 1);
            assert(elems_spanned(e, 0, self.lexemes()));
            assert(self.builder.offset() == lex_off(self.lexemes(), self.pos()));
            assert forall|j: int| 0 <= j < self.open_nodes().len() implies #[trigger] self.open_nodes()[j].2 == lex_off(
                self.lexemes(),
                elems_count(self.elements().take(self.open_nodes()[j].1 as int)) as int,
            ) by {
                assert(old(self).open_nodes()[j] == self.open_nodes()[j]);
                assert(e.take(self.open_nodes()[j].1 as int) =~= olde.take(self.open_nodes()[j].1 as int));
            }
            assert(self.syntax_errors().take(self.syntax_errors().len() as int) =~= self.syntax_errors());
            assert(self.syntax_errors().skip(self.syntax_errors().len() as int) =~= Seq::<SyntaxError>::empty());
        }
    }

    /// Adds the next lexeme to the tree as it is.
    fn bump(&mut self)
        requires
            old(self).wf(),
            old(self).pos() < old(self).lexemes().len(),
        ensures
            old(self).extends(final(self), token_piece(old(self).kinds(), old(self).pos())),
            final(self).pos() == old(self).pos() + 1,
    {
        let kind = self.lexemes[self.pos].kind;
        self.consume_as(kind);
    }

    /// Adds the whitespace lexemes that follow.
    fn skip_ws(&mut self)
        requires
            old(self).wf(),
        ensures
            old(self).extends(final(self), ws_piece(old(self).kinds(), old(self).pos())),
            old(self).at_end_or_eol_spec() ==> final(self).pos() == old(self).pos(),
            final(self).spec_peek() != Some(SyntaxKind::Whitespace),
    {
        let ghost ks = self.kinds();
        let ghost mut acc = empty_at(self.pos());
        proof {
            lemma_extends_refl(*self);
        }
        loop
            invariant
                ks == old(self).kinds(),
                old(self).wf(),
                old(self).extends(&*self, acc),
                ws_piece(ks, old(self).pos()) == then(acc, ws_piece(ks, self.pos())),
            ensures
                old(self).extends(&*self, acc),
                ws_piece(ks, old(self).pos()) == acc,
                self.spec_peek() != Some(SyntaxKind::Whitespace),
            decreases self.remaining(),
        {
            match self.peek() {
                Some(SyntaxKind::Whitespace) => {
                    let ghost before = *self;
                    self.bump();
                    proof {
                        let t = token_piece(ks, before.pos());
                        lemma_extends_trans(*old(self), before, *self, acc, t);
                        lemma_then_assoc(acc, t, ws_piece(ks, self.pos()));
                        acc = then(acc, t);
                    }
                },
                _ => {
                    proof {
                        lemma_then_empty(acc, 0);
                    }
                    break;
                },
            }
        }
        proof {
            lemma_ws_piece(ks, old(self).pos());
        }
    }

    /// Adds the whitespace and end-of-line lexemes that follow.
    fn skip_ws_and_eol(&mut self)
        requires
            old(self).wf(),
        ensures
            old(self).extends(final(self), blank_piece(old(self).kinds(), old(self).pos())),
    {
        let ghost ks = self.kinds();
        let ghost mut acc = empty_at(self.pos());
        proof {
            lemma_extends_refl(*self);
        }
        loop
            invariant
                ks == old(self).kinds(),
                old(self).wf(),
                old(self).extends(&*self, acc),
                blank_piece(ks, old(self).pos()) == then(acc, blank_piece(ks, self.pos())),
            ensures
                old(self).extends(&*self, acc),
                blank_piece(ks, old(self).pos()) == acc,
            decreases self.remaining(),
        {
            match self.peek() {
                Some(SyntaxKind::Whitespace) | Some(SyntaxKind::Eol) => {
                    let ghost before = *self;
                    self.bump();
                    proof {
                        let t = token_piece(ks, before.pos());
                        lemma_extends_trans(*old(self), before, *self, acc, t);
                        lemma_then_assoc(acc, t, blank_piece(ks, self.pos()));
                        acc = then(acc, t);
                    }
                },
                _ => {
                    proof {
                        lemma_then_empty(acc, 0);
                    }
                    break;
                },
            }
        }
    }

    /// Records a syntax error. Unless the parser is at the end of the input or
    /// of a line, the next lexeme is consumed as an `Error` token.
    fn error(&mut self, message: &'static str)
        requires
            old(self).wf(),
        ensures
            old(self).extends(final(self), error_piece(old(self).kinds(), old(self).pos(), message@)),
            old(self).at_end_or_eol_spec() ==> final(self).pos() == old(self).pos(),
            !old(self).at_end_or_eol_spec() ==> final(self).pos() == old(self).pos() + 1,
    {
        let ghost start = *self;
        match self.peek() {
            Some(SyntaxKind::Eol) | None => {
                proof {
                    lemma_extends_refl(*self);
                }
            },
            Some(_) => {
                self.consume_as(SyntaxKind::Error);
            },
        }
        let ghost mid = *self;
        let e = SyntaxError { message, range: self.last_lexeme_range };
        self.errors.push(e);
        proof {
            let n = start.syntax_errors().len() as int;
            assert(self.elements() == mid.elements());
            assert(self.open_nodes() == mid.open_nodes());
            assert(self.wf());
            assert(self.syntax_errors().take(n) =~= start.syntax_errors());
            assert(self.syntax_errors().skip(n) =~= seq![self.syntax_errors().last()]);
        }
    }

    fn start_node(&mut self, kind: SyntaxKind)
        requires
            old(self).wf(),
        ensures
            old(self).started_at(final(self), kind, old(self).elements().len() as int),
    {
        self.builder.start_node(kind);
        proof {
            assert(self.open_nodes().drop_last() =~= old(self).open_nodes());
            let e = self.elements();
            assert(e.take(e.len() as int) =~= e);
            assert forall|j: int| 0 <= j < self.open_nodes().len() implies #[trigger] self.open_nodes()[j].2 == lex_off(
                self.lexemes(),
                elems_count(self.elements().take(self.open_nodes()[j].1 as int)) as int,
            ) by {
                if j < old(self).open_nodes().len() {
                    assert(old(self).open_nodes()[j] == self.open_nodes()[j]);
                }
            }
        }
    }

    fn start_node_at(&mut self, checkpoint: usize, kind: SyntaxKind)
        requires
            old(self).wf(),
            checkpoint <= old(self).elements().len(),
            old(self).open_nodes().len() > 0 ==> old(self).open_nodes().last().1 <= checkpoint,
        ensures
            old(self).started_at(final(self), kind, checkpoint as int),
    {
        self.builder.start_node_at(checkpoint, kind);
        proof {
            let e = self.elements();
            let ls = self.lexemes();
            if checkpoint < e.len() {
                lemma_spanned_split(e, checkpoint as int, 0, ls);
                lemma_spanned_split(e.skip(checkpoint as int), 1, elems_count(e.take(checkpoint as int)) as int, ls);
                let rest = e.skip(checkpoint as int).take(1);
                assert(rest.drop_last() =~= Seq::<SyntaxElement>::empty());
                assert(rest.last() == e[checkpoint as int]);
                lemma_spanned_start(e[checkpoint as int], elems_count(e.take(checkpoint as int)) as int, ls);
            } else {
                assert(e.take(checkpoint as int) =~= e);
            }
            assert forall|j: int| 0 <= j < self.open_nodes().len() implies #[trigger] self.open_nodes()[j].2 == lex_off(
                self.lexemes(),
                elems_count(self.elements().take(self.open_nodes()[j].1 as int)) as int,
            ) by {
                if j < old(self).open_nodes().len() {
                    assert(self.open_nodes().drop_last()[j] == self.open_nodes()[j]);
                }
            }
        }
    }

    fn finish_node(&mut self)
        requires
            old(self).wf(),
            old(self).open_nodes().len() > 0,
        ensures
            old(self).finished(final(self)),
    {
        let ghost o = self.open_nodes().last();
        let ghost e0 = self.elements();
        self.builder.finish_node();
        proof {
            let ls = self.lexemes();
            let e = self.elements();
            let first = o.1 as int;
            lemma_spanned_split(e0, first, 0, ls);
            let c = elems_count(e0.take(first));
            let old_open = old(self).open_nodes();
            assert(old_open[old_open.len() - 1] == o);
            assert(e.drop_last() =~= e0.take(first));
            assert(elem_count(e.last()) == elems_count(e0.skip(first)));
            assert(elem_spanned(e.last(), c as int, ls));
            assert forall|j: int| 0 <= j < self.open_nodes().len() implies #[trigger] self.open_nodes()[j].2 == lex_off(
                self.lexemes(),
                elems_count(self.elements().take(self.open_nodes()[j].1 as int)) as int,
            ) by {
                let oj = old_open[j];
                assert(self.open_nodes()[j] == oj);
                assert(oj.1 <= o.1);
                assert(e.take(oj.1 as int) =~= e0.take(oj.1 as int));
            }
        }
    }

    fn checkpoint(&self) -> (c: usize)
        ensures
            c == self.elements().len(),
    {
        self.builder.checkpoint()
    }

    /// Parses the input the `Parser` was constructed with.
    pub fn parse(self) -> (out: ParseOutput<ContainsErrors>)
        requires
            self.wf(),
            self.pos() == 0,
            self.open_nodes().len() == 0,
            self.elements().len() == 0,
            self.syntax_errors().len() == 0,
        ensures
            out.tree().kind == SyntaxKind::Root,
            // Parsing is lossless: the tree holds every piece of the input, in order.
            node_text(out.tree()) == self.input(),
            node_shape(out.tree()) == Shape::Node(SyntaxKind::Root, program(self.kinds()).shapes),
            // The syntax errors are those the grammar finds, in order.
            errors_match(out.spec_errors(), program(self.kinds()).errors, self.lexemes()),
            // The tokens, read in order, are the lexemes, all of them; each node
            // covers the lexemes below it.
            node_spanned(out.tree(), 0, self.lexemes()),
            elems_count(out.tree().children@) == self.lexemes().len(),
            // The root covers the whole input.
            out.tree().range.start == 0,
            out.tree().range.end as int == utf8_len(self.input()) as int,
    {
        let ghost ks = self.kinds();
        let mut p = self;
        p.start_node(SyntaxKind::Root);
        let ghost a1 = p;
        p.skip_ws_and_eol();
        let ghost mut acc = blank_piece(ks, 0);
        loop
            invariant
                ks == self.kinds(),
                a1.wf(),
                self.started_at(&a1, SyntaxKind::Root, 0),
                a1.extends(&p, acc),
                program(ks) == items(ks, acc),
            ensures
                a1.extends(&p, acc),
                program(ks) == acc,
                p.pos() == p.lexemes().len(),
            decreases p.remaining(),
        {
            if p.at_end() {
                break;
            }
            let ghost b = p;
            parse_item(&mut p);
            let ghost c = p;
            p.skip_ws();
            let ghost d = p;
            let ghost it = item(ks, b.pos());
            let ghost w = ws_piece(ks, c.pos());
            proof {
                lemma_extends_trans(a1, b, c, acc, it);
                lemma_extends_trans(a1, c, d, then(acc, it), w);
            }
            match p.peek() {
                Some(SyntaxKind::Eol) => {
                    p.bump();
                    proof {
                        let t = token_piece(ks, d.pos());
                        lemma_extends_trans(a1, d, p, then(then(acc, it), w), t);
                        acc = then(then(then(acc, it), w), t);
                    }
                },
                None => {
                    proof {
                        acc = then(then(acc, it), w);
                    }
                    break;
                },
                _ => {
                    p.error("expected end of line");
                    proof {
                        let e = error_piece(ks, d.pos(), "expected end of line"@);
                        lemma_extends_trans(a1, d, p, then(then(acc, it), w), e);
                        acc = then(then(then(acc, it), w), e);
                    }
                },
            }
            assert(p.pos() > b.pos());
        }
        let ghost e = p;
        p.finish_node();
        proof {
            lemma_wrap(self, a1, e, p, SyntaxKind::Root, acc);
            lemma_root(self, p, SyntaxKind::Root, acc);
            lemma_single_node(p);
        }
        let root = p.builder.finish();
        ParseOutput { root, state: ContainsErrors(p.errors) }
    }
}

/// No step at all: nothing consumed, added or found.
proof fn lemma_extends_refl(a: Parser)
    requires
        a.wf(),
    ensures
        a.extends(&a, empty_at(a.pos())),
{
    assert(a.elements().take(a.elements().len() as int) =~= a.elements());
    assert(a.elements().skip(a.elements().len() as int) =~= Seq::<SyntaxElement>::empty());
    assert(a.syntax_errors().take(a.syntax_errors().len() as int) =~= a.syntax_errors());
    assert(a.syntax_errors().skip(a.syntax_errors().len() as int) =~= Seq::<SyntaxError>::empty());
}

/// Two steps in a row add what their pieces add, one after the other.
proof fn lemma_grows_trans(a: Parser, b: Parser, c: Parser, x: Piece, y: Piece)
    requires
        a.grows(&b, x),
        b.grows(&c, y),
    ensures
        a.grows(&c, then(x, y)),
{
    let ae = a.elements();
    let be = b.elements();
    let ce = c.elements();
    let al = ae.len() as int;
    let bl = be.len() as int;
    assert(ce.take(al) =~= ce.take(bl).take(al));
    assert(ce.skip(al) =~= be.skip(al) + ce.skip(bl)) by {
        assert(ce =~= ce.take(bl) + ce.skip(bl));
    }
    lemma_elems_shape_concat(be.skip(al), ce.skip(bl));
    let ar = a.syntax_errors();
    let br = b.syntax_errors();
    let cr = c.syntax_errors();
    let an = ar.len() as int;
    let bn = br.len() as int;
    assert(cr.take(an) =~= cr.take(bn).take(an));
    assert(cr.skip(an) =~= br.skip(an) + cr.skip(bn)) by {
        assert(cr =~= cr.take(bn) + cr.skip(bn));
    }
    let want = then(x, y).errors;
    assert forall|k: int| 0 <= k < cr.skip(an).len() implies {
        &&& (#[trigger] cr.skip(an)[k]).message@ == want[k].0
        &&& cr.skip(an)[k].range == range_of(a.lexemes(), want[k].1)
    } by {
        if k < x.errors.len() {
            assert(cr.skip(an)[k] == br.skip(an)[k]);
        } else {
            assert(cr.skip(an)[k] == cr.skip(bn)[k - x.errors.len()]);
        }
    }
}

proof fn lemma_extends_trans(a: Parser, b: Parser, c: Parser, x: Piece, y: Piece)
    requires
        a.extends(&b, x),
        b.extends(&c, y),
    ensures
        a.extends(&c, then(x, y)),
{
    lemma_grows_trans(a, b, c, x, y);
}

/// Opening a node of kind `kind` after the step `x`, taking in the elements
/// of `x` (and of nothing before it), then the step `y` and finishing the
/// node: one node of kind `kind` around the elements of both.
proof fn lemma_close(a: Parser, b: Parser, b2: Parser, c: Parser, d: Parser, kind: SyntaxKind, x: Piece, y: Piece)
    requires
        a.extends(&b, x),
        b.started_at(&b2, kind, a.elements().len() as int),
        b2.extends(&c, y),
        c.finished(&d),
    ensures
        a.extends(&d, wrap(kind, then(x, y))),
{
    assert(a.grows(&b2, x));
    lemma_grows_trans(a, b2, c, x, y);
    let al = a.elements().len() as int;
    let de = d.elements();
    assert(de.take(al) =~= de.drop_last());
    assert(de.skip(al) =~= seq![de.last()]);
    lemma_elems_shape_single(de.last());
    assert(wrap(kind, then(x, y)).shapes =~= seq![Shape::Node(kind, then(x, y).shapes)]);
}

/// A node of kind `kind` opened, filled by the step `y` and finished.
proof fn lemma_wrap(a: Parser, b: Parser, c: Parser, d: Parser, kind: SyntaxKind, y: Piece)
    requires
        a.wf(),
        a.started_at(&b, kind, a.elements().len() as int),
        b.extends(&c, y),
        c.finished(&d),
    ensures
        a.extends(&d, wrap(kind, y)),
{
    lemma_extends_refl(a);
    lemma_close(a, a, b, c, d, kind, empty_at(a.pos()), y);
    lemma_then_empty(y, a.pos());
}

/// A parser with no elements that grows by one node: that node is all there is.
proof fn lemma_root(a: Parser, d: Parser, kind: SyntaxKind, y: Piece)
    requires
        a.elements().len() == 0,
        a.syntax_errors().len() == 0,
        a.extends(&d, wrap(kind, y)),
    ensures
        d.elements().len() == 1,
        elem_shape(d.elements()[0]) == Shape::Node(kind, y.shapes),
        errors_match(d.syntax_errors(), y.errors, a.lexemes()),
{
    let de = d.elements();
    assert(de.skip(0) =~= de);
    lemma_elems_shape_len(de);
    assert(elems_shape(de) == seq![Shape::Node(kind, y.shapes)]);
    assert(de.len() == 1);
    assert(de =~= seq![de[0]]);
    lemma_elems_shape_single(de[0]);
    assert(elems_shape(de)[0] == elem_shape(de[0]));
    assert(d.syntax_errors().skip(0) =~= d.syntax_errors());
}

/// A parser holding one node and nothing else: the node is made of the
/// lexemes consumed, all of them.
proof fn lemma_single_node(p: Parser)
    requires
        p.wf(),
        p.elements().len() == 1,
        p.elements()[0] is Node,
    ensures
        node_spanned(*(p.elements()[0]->Node_0), 0, p.lexemes()),
        elems_count((p.elements()[0]->Node_0).children@) == p.pos(),
{
    let es = p.elements();
    let ls = p.lexemes();
    assert(es.drop_last() =~= Seq::<SyntaxElement>::empty());
    assert(es.last() == es[0]);
    assert(elems_count(Seq::<SyntaxElement>::empty()) == 0);
    assert(elems_count(es) == elems_count(es.drop_last()) + elem_count(es.last()));
    assert(elems_spanned(es, 0, ls) == (elems_spanned(es.drop_last(), 0, ls) && elem_spanned(es.last(), 0int + elems_count(es.drop_last()), ls)));
    assert(elem_spanned(es[0], 0, ls));
    let n = es[0]->Node_0;
    assert(elem_count(es[0]) == elems_count(n.children@));
}

/// The part of the grammar that a fragment is parsed with, from `i`.
pub open spec fn fragment_piece(ks: Seq<SyntaxKind>, i: int, fragment: Fragment) -> Piece {
    match fragment {
        Fragment::Item => item(ks, i),
        Fragment::Statement => statement(ks, i),
        Fragment::Expr => expr(ks, i),
    }
}

impl Parser {
    /// Parses a single fragment of the input (an item, a statement or an
    /// expression) inside a root node, leaving whatever follows it unparsed.
    pub fn parse_fragment(self, fragment: Fragment) -> (out: ParseOutput<ContainsErrors>)
        requires
            self.wf(),
            self.open_nodes().len() == 0,
            self.elements().len() == 0,
            self.syntax_errors().len() == 0,
        ensures
            out.tree().kind == SyntaxKind::Root,
            node_text(out.tree()).len() <= self.input().len(),
            node_shape(out.tree()) == Shape::Node(
                SyntaxKind::Root,
                fragment_piece(self.kinds(), self.pos(), fragment).shapes,
            ),
            errors_match(out.spec_errors(), fragment_piece(self.kinds(), self.pos(), fragment).errors, self.lexemes()),
            node_spanned(out.tree(), 0, self.lexemes()),
            elems_count(out.tree().children@) == fragment_piece(self.kinds(), self.pos(), fragment).end,
    {
        let mut p = self;
        p.start_node(SyntaxKind::Root);
        let ghost a1 = p;
        match fragment {
            Fragment::Item => parse_item(&mut p),
            Fragment::Statement => parse_statement(&mut p),
            Fragment::Expr => parse_expr(&mut p),
        }
        let ghost e = p;
        p.finish_node();
        proof {
            let piece = fragment_piece(self.kinds(), self.pos(), fragment);
            lemma_wrap(self, a1, e, p, SyntaxKind::Root, piece);
            lemma_root(self, p, SyntaxKind::Root, piece);
            lemma_texts_prefix_len(p.lexemes(), p.pos());
            lemma_single_node(p);
        }
        let root = p.builder.finish();
        ParseOutput { root, state: ContainsErrors(p.errors) }
    }

    /// The single node built so far, for a parser that has parsed one node
    /// with one of the parsing functions, outside any root node.
    pub fn finish_and_get_syntax(self) -> (n: Rc<SyntaxNode>)
        requires
            self.wf(),
            self.open_nodes().len() == 0,
            self.elements().len() == 1,
            self.elements()[0] is Node,
        ensures
            SyntaxElement::Node(n) == self.elements()[0],
            node_spanned(*n, 0, self.lexemes()),
            elems_count(n.children@) == self.pos(),
    {
        proof {
            lemma_single_node(self);
        }
        self.builder.finish()
    }
}

/// The text of a prefix of the lexemes is at most as long as the text of all of them.
proof fn lemma_texts_prefix_len(ls: Seq<Lexeme>, n: int)
    requires
        0 <= n <= ls.len(),
    ensures
        texts_prefix(ls, n).len() <= texts_prefix(ls, ls.len() as int).len(),
    decreases ls.len() - n,
{
    if n < ls.len() {
        lemma_texts_prefix_len(ls, n + 1);
    }
}

/// Parses an item: a statement, or an expression.
pub fn parse_item(p: &mut Parser)
    requires
        old(p).wf(),
    ensures
        old(p).extends(final(p), item(old(p).kinds(), old(p).pos())),
        !old(p).at_end_or_eol_spec() ==> final(p).pos() > old(p).pos(),
{
    match p.peek() {
        Some(SyntaxKind::Let) | Some(SyntaxKind::Return) => parse_statement(p),
        _ => parse_expr(p),
    }
}

/// Parses a statement: a binding definition or a return statement.
pub fn parse_statement(p: &mut Parser)
    requires
        old(p).wf(),
    ensures
        old(p).extends(final(p), statement(old(p).kinds(), old(p).pos())),
        !old(p).at_end_or_eol_spec() ==> final(p).pos() > old(p).pos(),
{
    match p.peek() {
        Some(SyntaxKind::Let) => parse_binding_def(p),
        Some(SyntaxKind::Return) => parse_return_statement(p),
        _ => p.error("expected let or return"),
    }
}

/// Parses `let name = expr`.
pub fn parse_binding_def(p: &mut Parser)
    requires
        old(p).wf(),
        old(p).spec_peek() == Some(SyntaxKind::Let),
    ensures
        old(p).extends(final(p), binding_def(old(p).kinds(), old(p).pos())),
        final(p).pos() > old(p).pos(),
{
    let ghost a = *p;
    let ghost ks = p.kinds();
    p.start_node(SyntaxKind::BindingDef);
    let ghost a1 = *p;
    p.bump();
    let ghost a2 = *p;
    p.skip_ws();
    let ghost a3 = *p;
    if let Some(SyntaxKind::Atom) = p.peek() {
        p.bump();
    } else {
        p.error("expected binding name");
    }
    let ghost a4 = *p;
    p.skip_ws();
    let ghost a5 = *p;
    if let Some(SyntaxKind::Equals) = p.peek() {
        p.bump();
    } else {
        p.error("expected equals sign");
    }
    let ghost a6 = *p;
    p.skip_ws();
    let ghost a7 = *p;
    parse_expr(p);
    let ghost a8 = *p;
    p.finish_node();
    proof {
        let t = token_piece(ks, a.pos());
        let w1 = ws_piece(ks, a2.pos());
        let name = if kind_at(ks, a3.pos()) == Some(SyntaxKind::Atom) {
            token_piece(ks, a3.pos())
        } else {
            error_piece(ks, a3.pos(), "expected binding name"@)
        };
        let w2 = ws_piece(ks, a4.pos());
        let eq = if kind_at(ks, a5.pos()) == Some(SyntaxKind::Equals) {
            token_piece(ks, a5.pos())
        } else {
            error_piece(ks, a5.pos(), "expected equals sign"@)
        };
        let w3 = ws_piece(ks, a6.pos());
        let value = expr(ks, a7.pos());
        lemma_extends_trans(a1, a2, a3, t, w1);
        lemma_extends_trans(a1, a3, a4, then(t, w1), name);
        lemma_extends_trans(a1, a4, a5, then(then(t, w1), name), w2);
        lemma_extends_trans(a1, a5, a6, then(then(then(t, w1), name), w2), eq);
        lemma_extends_trans(a1, a6, a7, then(then(then(then(t, w1), name), w2), eq), w3);
        lemma_extends_trans(a1, a7, a8, then(then(then(then(then(t, w1), name), w2), eq), w3), value);
        lemma_wrap(a, a1, a8, *p, SyntaxKind::BindingDef,
            then(then(then(then(then(then(t, w1), name), w2), eq), w3), value));
    }
}

/// Parses `return expr`, where the expression may be left out.
pub fn parse_return_statement(p: &mut Parser)
    requires
        old(p).wf(),
        old(p).spec_peek() == Some(SyntaxKind::Return),
    ensures
        old(p).extends(final(p), return_statement(old(p).kinds(), old(p).pos())),
        final(p).pos() > old(p).pos(),
{
    let ghost a = *p;
    let ghost ks = p.kinds();
    p.start_node(SyntaxKind::ReturnStatement);
    let ghost a1 = *p;
    p.bump();
    let ghost a2 = *p;
    p.skip_ws();
    let ghost a3 = *p;
    parse_expr(p);
    let ghost a4 = *p;
    p.finish_node();
    proof {
        let t = token_piece(ks, a.pos());
        let w = ws_piece(ks, a2.pos());
        let value = expr(ks, a3.pos());
        lemma_extends_trans(a1, a2, a3, t, w);
        lemma_extends_trans(a1, a3, a4, then(t, w), value);
        lemma_wrap(a, a1, a4, *p, SyntaxKind::ReturnStatement, then(then(t, w), value));
    }
}

/// Parses an expression.
pub fn parse_expr(p: &mut Parser)
    requires
        old(p).wf(),
    ensures
        old(p).extends(final(p), expr(old(p).kinds(), old(p).pos())),
        !old(p).at_end_or_eol_spec() ==> final(p).pos() > old(p).pos(),
    decreases old(p).remaining(), 4nat,
{
    parse_expr_bp(p, 0, false);
}

/// Parses an expression whose operators bind at least as tightly as `min_bp`.
fn parse_expr_bp(p: &mut Parser, min_bp: u8, in_func_call_params: bool)
    requires
        old(p).wf(),
    ensures
        old(p).extends(final(p), expr_bp(old(p).kinds(), old(p).pos(), min_bp, in_func_call_params)),
        !old(p).at_end_or_eol_spec() ==> final(p).pos() > old(p).pos(),
    decreases old(p).remaining(), 3nat,
{
    let ghost entry = *p;
    let ghost ks = p.kinds();
    let ghost goal = expr_bp(ks, entry.pos(), min_bp, in_func_call_params);
    let checkpoint = p.checkpoint();
    parse_one_expr(p, in_func_call_params);
    let ghost p1 = *p;
    p.skip_ws();
    let ghost first = one_expr(ks, entry.pos(), in_func_call_params);
    let ghost mut acc = then(first, ws_piece(ks, p1.pos()));
    proof {
        lemma_extends_trans(entry, p1, *p, first, ws_piece(ks, p1.pos()));
        lemma_ws_piece(ks, p1.pos());
        if at_end_or_eol(ks, entry.pos()) {
            lemma_then_empty(first, 0);
        }
    }
    loop
        invariant
            entry == *old(p),
            entry.wf(),
            ks == entry.kinds(),
            goal == expr_bp(ks, entry.pos(), min_bp, in_func_call_params),
            checkpoint == entry.elements().len(),
            entry.extends(&*p, acc),
            goal == expr_loop(ks, min_bp, in_func_call_params, acc),
            p.pos() > entry.pos() || p.at_end_or_eol_spec(),
            !entry.at_end_or_eol_spec() ==> p.pos() > entry.pos(),
        ensures
            entry.extends(&*p, goal),
            !entry.at_end_or_eol_spec() ==> p.pos() > entry.pos(),
        decreases p.remaining(),
    {
        let mut op = VirtualOp::Application;
        let ghost head = p.pos();
        loop
            invariant
                head <= p.pos(),
                entry == *old(p),
                entry.wf(),
                ks == entry.kinds(),
                goal == expr_bp(ks, entry.pos(), min_bp, in_func_call_params),
                checkpoint == entry.elements().len(),
                entry.extends(&*p, acc),
                goal == expr_loop(ks, min_bp, in_func_call_params, acc),
                p.pos() > entry.pos() || p.at_end_or_eol_spec(),
                !entry.at_end_or_eol_spec() ==> p.pos() > entry.pos(),
            ensures
                head <= p.pos(),
                entry.extends(&*p, acc),
                goal == expr_loop(ks, min_bp, in_func_call_params, acc),
                !entry.at_end_or_eol_spec() ==> p.pos() > entry.pos(),
                p.pos() > entry.pos(),
                p.spec_peek() is Some,
                p.spec_peek() != Some(SyntaxKind::RParen),
                p.spec_peek() != Some(SyntaxKind::Eol),
                op_at(p.spec_peek()) == Some(op),
            decreases p.remaining(),
        {
            match p.peek() {
                Some(SyntaxKind::Plus) => {
                    op = VirtualOp::Op(Op::Add);
                    break;
                },
                Some(SyntaxKind::Minus) => {
                    op = VirtualOp::Op(Op::Sub);
                    break;
                },
                Some(SyntaxKind::Star) => {
                    op = VirtualOp::Op(Op::Mul);
                    break;
                },
                Some(SyntaxKind::Slash) => {
                    op = VirtualOp::Op(Op::Div);
                    break;
                },
                Some(SyntaxKind::Atom)
                | Some(SyntaxKind::Digits)
                | Some(SyntaxKind::StringLiteral)
                | Some(SyntaxKind::Dollar)
                | Some(SyntaxKind::Pipe) => {
                    op = VirtualOp::Application;
                    break;
                },
                Some(SyntaxKind::RParen) | Some(SyntaxKind::Eol) | None => return,
                Some(_) => {
                    let ghost before = *p;
                    p.error("expected operator");
                    proof {
                        let e = error_piece(ks, before.pos(), "expected operator"@);
                        lemma_extends_trans(entry, before, *p, acc, e);
                        acc = then(acc, e);
                    }
                },
            }
        }
        let (left_bp, right_bp) = infix_bp(op);
        if left_bp < min_bp {
            break;
        }
        let ghost b0 = *p;
        if op == VirtualOp::Application {
            let ghost arg = expr_bp(ks, b0.pos(), right_bp, true);
            if in_func_call_params {
                parse_expr_bp(p, right_bp, true);
                let ghost b2 = *p;
                p.skip_ws();
                proof {
                    let w = ws_piece(ks, b2.pos());
                    lemma_extends_trans(entry, b0, b2, acc, arg);
                    lemma_extends_trans(entry, b2, *p, then(acc, arg), w);
                    acc = then(then(acc, arg), w);
                }
            } else {
                p.start_node_at(checkpoint, SyntaxKind::FunctionCall);
                let ghost b0s = *p;
                p.start_node(SyntaxKind::FunctionCallParams);
                let ghost b1 = *p;
                parse_expr_bp(p, right_bp, true);
                let ghost b2 = *p;
                p.skip_ws();
                let ghost b3 = *p;
                p.finish_node();
                let ghost b4 = *p;
                p.finish_node();
                proof {
                    let w = ws_piece(ks, b2.pos());
                    lemma_extends_trans(b1, b2, b3, arg, w);
                    lemma_wrap(b0s, b1, b3, b4, SyntaxKind::FunctionCallParams, then(arg, w));
                    lemma_close(entry, b0, b0s, b4, *p, SyntaxKind::FunctionCall, acc,
                        wrap(SyntaxKind::FunctionCallParams, then(arg, w)));
                    acc = wrap(SyntaxKind::FunctionCall, then(acc, wrap(SyntaxKind::FunctionCallParams, then(arg, w))));
                }
            }
        } else {
            p.start_node_at(checkpoint, SyntaxKind::BinOp);
            let ghost b0s = *p;
            // Eat the operator's token.
            p.bump();
            let ghost b1 = *p;
            p.skip_ws();
            let ghost b2 = *p;
            parse_expr_bp(p, right_bp, in_func_call_params);
            let ghost b3 = *p;
            p.finish_node();
            proof {
                let t = token_piece(ks, b0.pos());
                let w = ws_piece(ks, b1.pos());
                let rhs = expr_bp(ks, b2.pos(), right_bp, in_func_call_params);
                lemma_extends_trans(b0s, b1, b2, t, w);
                lemma_extends_trans(b0s, b2, b3, then(t, w), rhs);
                lemma_close(entry, b0, b0s, b3, *p, SyntaxKind::BinOp, acc, then(then(t, w), rhs));
                acc = wrap(SyntaxKind::BinOp, then(acc, then(then(t, w), rhs)));
            }
        }
        assert(p.pos() > b0.pos());
    }
}

/// Parses a single expression, without any operators that follow it.
fn parse_one_expr(p: &mut Parser, in_func_call_params: bool)
    requires
        old(p).wf(),
    ensures
        old(p).extends(final(p), one_expr(old(p).kinds(), old(p).pos(), in_func_call_params)),
        old(p).at_end_or_eol_spec() ==> final(p).pos() == old(p).pos(),
        !old(p).at_end_or_eol_spec() ==> final(p).pos() > old(p).pos(),
    decreases old(p).remaining(), 2nat,
{
    match p.peek() {
        Some(SyntaxKind::Atom) => parse_atom(p, in_func_call_params),
        Some(SyntaxKind::Digits) | Some(SyntaxKind::StringLiteral) => p.bump(),
        Some(SyntaxKind::Dollar) => parse_binding_usage(p),
        Some(SyntaxKind::Pipe) => parse_lambda(p),
        Some(SyntaxKind::LParen) => {
            let ghost a = *p;
            let ghost ks = p.kinds();
            p.bump();
            let ghost b = *p;
            parse_expr_bp(p, 0, false);
            let ghost c = *p;
            if p.at(SyntaxKind::RParen) {
                p.bump();
            } else {
                p.error("expected right parenthesis");
            }
            proof {
                let t = token_piece(ks, a.pos());
                let inner = expr_bp(ks, b.pos(), 0, false);
                let close = if kind_at(ks, c.pos()) == Some(SyntaxKind::RParen) {
                    token_piece(ks, c.pos())
                } else {
                    error_piece(ks, c.pos(), "expected right parenthesis"@)
                };
                lemma_extends_trans(a, b, c, t, inner);
                lemma_extends_trans(a, c, *p, then(t, inner), close);
            }
        },
        _ => p.error("expected expression"),
    }
}

/// Parses an atom: a bare word inside the parameters of a function call, and
/// otherwise the name of a called function (with or without parameters).
fn parse_atom(p: &mut Parser, in_func_call_params: bool)
    requires
        old(p).wf(),
        old(p).spec_peek() == Some(SyntaxKind::Atom),
    ensures
        old(p).extends(final(p), atom(old(p).kinds(), old(p).pos(), in_func_call_params)),
        final(p).pos() == old(p).pos() + 1,
{
    // Inside the parameters of a function call, atoms are bare words.
    if in_func_call_params {
        p.bump();
        return;
    }
    let ghost ks = p.kinds();
    let mut idx: usize = 1;
    while p.nth_at(idx, SyntaxKind::Whitespace)
        invariant
            p.wf(),
            *p == *old(p),
            ks == p.kinds(),
            1 <= idx,
            p.pos() + idx <= p.lexemes().len(),
            ws_piece(ks, p.pos() + 1).end == ws_piece(ks, p.pos() + idx).end,
        decreases p.lexemes().len() - p.pos() - idx,
    {
        idx = idx + 1;
    }
    let at_expr = match p.lookahead(idx) {
        Some(SyntaxKind::Atom)
        | Some(SyntaxKind::Digits)
        | Some(SyntaxKind::StringLiteral)
        | Some(SyntaxKind::Dollar)
        | Some(SyntaxKind::Pipe) => true,
        _ => false,
    };
    if at_expr {
        // The name of a function called with one or more parameters.
        p.bump();
    } else {
        // A function call with no parameters.
        let ghost a = *p;
        p.start_node(SyntaxKind::FunctionCall);
        let ghost a1 = *p;
        p.bump();
        let ghost a2 = *p;
        p.start_node(SyntaxKind::FunctionCallParams);
        let ghost a3 = *p;
        p.finish_node();
        let ghost a4 = *p;
        p.finish_node();
        proof {
            let t = token_piece(ks, a.pos());
            let params = wrap(SyntaxKind::FunctionCallParams, empty_at(a3.pos()));
            lemma_extends_refl(a3);
            lemma_wrap(a2, a3, a3, a4, SyntaxKind::FunctionCallParams, empty_at(a3.pos()));
            lemma_extends_trans(a1, a2, a4, t, params);
            lemma_wrap(a, a1, a4, *p, SyntaxKind::FunctionCall, then(t, params));
        }
    }
}

/// Parses a lambda: `|params| body`.
///
/// A parameter list cut off by the end of a line is reported once, and the
/// list ends there.
pub fn parse_lambda(p: &mut Parser)
    requires
        old(p).wf(),
        old(p).spec_peek() == Some(SyntaxKind::Pipe),
    ensures
        old(p).extends(final(p), lambda(old(p).kinds(), old(p).pos())),
        final(p).pos() > old(p).pos(),
    decreases old(p).remaining(), 1nat,
{
    let ghost a = *p;
    let ghost ks = p.kinds();
    p.start_node(SyntaxKind::Lambda);
    let ghost a1 = *p;
    p.start_node(SyntaxKind::LambdaParams);
    let ghost a2 = *p;
    p.bump();
    let ghost a3 = *p;
    p.skip_ws();
    let ghost a4 = *p;
    let ghost mut params = empty_at(a4.pos());
    proof {
        lemma_extends_refl(a4);
        lemma_then_empty(lambda_params(ks, a4.pos()), a4.pos());
    }
    loop
        invariant_except_break
            lambda_params(ks, a4.pos()) == then(params, lambda_params(ks, p.pos())),
        invariant
            ks == a.kinds(),
            p.kinds() == ks,
            a4.wf(),
            a4.pos() > a.pos(),
            a4.extends(&*p, params),
        ensures
            a4.extends(&*p, params),
            lambda_params(ks, a4.pos()) == params,
        decreases p.remaining(),
    {
        if p.at_end() {
            proof {
                lemma_then_empty(params, 0);
            }
            break;
        }
        let ghost b = *p;
        match p.peek() {
            Some(SyntaxKind::Atom) => {
                p.bump();
                let ghost c = *p;
                p.skip_ws();
                proof {
                    let t = token_piece(ks, b.pos());
                    let w = ws_piece(ks, c.pos());
                    lemma_extends_trans(a4, b, c, params, t);
                    lemma_extends_trans(a4, c, *p, then(params, t), w);
                    lemma_then_assoc(t, w, lambda_params(ks, p.pos()));
                    lemma_then_assoc(params, then(t, w), lambda_params(ks, p.pos()));
                    lemma_then_assoc(params, t, w);
                    params = then(then(params, t), w);
                }
            },
            Some(SyntaxKind::Pipe) => {
                p.bump();
                proof {
                    let t = token_piece(ks, b.pos());
                    lemma_extends_trans(a4, b, *p, params, t);
                    params = then(params, t);
                }
                break;
            },
            None => break,
            Some(SyntaxKind::Eol) => {
                p.error("expected atom or pipe");
                proof {
                    let e = error_piece(ks, b.pos(), "expected atom or pipe"@);
                    lemma_extends_trans(a4, b, *p, params, e);
                    params = then(params, e);
                }
                break;
            },
            _ => {
                p.error("expected atom or pipe");
                let ghost c = *p;
                p.skip_ws();
                proof {
                    let e = error_piece(ks, b.pos(), "expected atom or pipe"@);
                    let w = ws_piece(ks, c.pos());
                    lemma_extends_trans(a4, b, c, params, e);
                    lemma_extends_trans(a4, c, *p, then(params, e), w);
                    lemma_then_assoc(e, w, lambda_params(ks, p.pos()));
                    lemma_then_assoc(params, then(e, w), lambda_params(ks, p.pos()));
                    lemma_then_assoc(params, e, w);
                    params = then(then(params, e), w);
                }
            },
        }
    }
    let ghost a5 = *p;
    p.finish_node();
    let ghost a6 = *p;
    p.skip_ws();
    let ghost a7 = *p;
    parse_expr(p);
    let ghost a8 = *p;
    p.finish_node();
    proof {
        let t = token_piece(ks, a.pos());
        let w1 = ws_piece(ks, a3.pos());
        let lp = lambda_params(ks, a4.pos());
        lemma_extends_trans(a2, a3, a4, t, w1);
        lemma_extends_trans(a2, a4, a5, then(t, w1), lp);
        lemma_wrap(a1, a2, a5, a6, SyntaxKind::LambdaParams, then(then(t, w1), lp));
        let lps = wrap(SyntaxKind::LambdaParams, then(then(t, w1), lp));
        let w2 = ws_piece(ks, a6.pos());
        let body = expr(ks, a7.pos());
        lemma_extends_trans(a1, a6, a7, lps, w2);
        lemma_extends_trans(a1, a7, a8, then(lps, w2), body);
        lemma_wrap(a, a1, a8, *p, SyntaxKind::Lambda, then(then(lps, w2), body));
    }
}

/// Parses a binding usage: `$name`.
pub fn parse_binding_usage(p: &mut Parser)
    requires
        old(p).wf(),
        old(p).spec_peek() == Some(SyntaxKind::Dollar),
    ensures
        old(p).extends(final(p), binding_usage(old(p).kinds(), old(p).pos())),
        final(p).pos() > old(p).pos(),
{
    let ghost a = *p;
    let ghost ks = p.kinds();
    p.start_node(SyntaxKind::BindingUsage);
    let ghost a1 = *p;
    p.bump();
    let ghost a2 = *p;
    match p.peek() {
        Some(SyntaxKind::Atom) => p.bump(),
        _ => p.error("expected atom"),
    }
    let ghost a3 = *p;
    p.finish_node();
    proof {
        let t = token_piece(ks, a.pos());
        let name = if kind_at(ks, a2.pos()) == Some(SyntaxKind::Atom) {
            token_piece(ks, a2.pos())
        } else {
            error_piece(ks, a2.pos(), "expected atom"@)
        };
        lemma_extends_trans(a1, a2, a3, t, name);
        lemma_wrap(a, a1, a3, *p, SyntaxKind::BindingUsage, then(t, name));
    }
}

} // verus!
