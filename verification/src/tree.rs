//! Concrete syntax trees: nodes and tokens that keep every piece of the
//! source text, and a builder that assembles them from a flat series of
//! start, token and finish steps.

use vstd::prelude::*;
use std::rc::Rc;
use crate::syntax_kind::{SyntaxKind, spec_kind_name};
use crate::text_range::TextRange;

verus! {

/// A leaf of a syntax tree: one lexeme.
#[derive(Debug, Clone, PartialEq, Eq, Hash)]
pub struct SyntaxToken {
    pub kind: SyntaxKind,
    pub text: String,
    pub range: TextRange,
}

/// An inner node of a syntax tree.
#[derive(Debug, PartialEq, Eq, Hash)]
pub struct SyntaxNode {
    pub kind: SyntaxKind,
    pub range: TextRange,
    pub children: Vec<SyntaxElement>,
}

/// Either a node or a token.
#[derive(Debug, Clone, PartialEq, Eq, Hash)]
pub enum SyntaxElement {
    Node(Rc<SyntaxNode>),
    Token(SyntaxToken),
}

/// `Rc::clone`: another pointer to the same value.
#[verifier::external_body]
pub(crate) fn rc_clone<T>(n: &Rc<T>) -> (r: Rc<T>)
    ensures
        r == *n,
{
    Rc::clone(n)
}

/// A copy of an element.
pub fn clone_elem(e: &SyntaxElement) -> (r: SyntaxElement)
    ensures
        r == *e,
{
    match e {
        SyntaxElement::Node(n) => SyntaxElement::Node(rc_clone(n)),
        SyntaxElement::Token(t) => SyntaxElement::Token(
            SyntaxToken { kind: t.kind, text: t.text.clone(), range: t.range },
        ),
    }
}

/// The source text that an element covers.
pub open spec fn elem_text(e: SyntaxElement) -> Seq<char>
    decreases e,
{
    match e {
        SyntaxElement::Token(t) => t.text@,
        SyntaxElement::Node(n) => elems_text(n.children@),
    }
}

/// The source text that a sequence of elements covers, in order.
pub open spec fn elems_text(es: Seq<SyntaxElement>) -> Seq<char>
    decreases es,
{
    if es.len() == 0 {
        Seq::empty()
    } else {
        elems_text(es.drop_last()) + elem_text(es.last())
    }
}

/// The source text that a node covers.
pub open spec fn node_text(n: SyntaxNode) -> Seq<char> {
    elems_text(n.children@)
}

pub open spec fn elem_kind(e: SyntaxElement) -> SyntaxKind {
    match e {
        SyntaxElement::Token(t) => t.kind,
        SyntaxElement::Node(n) => n.kind,
    }
}

pub open spec fn elem_range(e: SyntaxElement) -> TextRange {
    match e {
        SyntaxElement::Token(t) => t.range,
        SyntaxElement::Node(n) => n.range,
    }
}

pub proof fn lemma_elems_text_concat(a: Seq<SyntaxElement>, b: Seq<SyntaxElement>)
    ensures
        elems_text(a + b) == elems_text(a) + elems_text(b),
    decreases b.len(),
{
    if b.len() == 0 {
        assert(a + b =~= a);
        assert(elems_text(b) =~= Seq::<char>::empty());
        assert(elems_text(a) + elems_text(b) =~= elems_text(a));
    } else {
        lemma_elems_text_concat(a, b.drop_last());
        assert((a + b).drop_last() =~= a + b.drop_last());
        assert((a + b).last() == b.last());
        assert(elems_text(a + b) =~= elems_text(a) + elems_text(b));
    }
}

pub proof fn lemma_elems_text_push(a: Seq<SyntaxElement>, e: SyntaxElement)
    ensures
        elems_text(a.push(e)) == elems_text(a) + elem_text(e),
{
    assert(a.push(e).drop_last() =~= a);
}

impl SyntaxElement {
    /// The kind of this element.
    pub fn kind(&self) -> (k: SyntaxKind)
        ensures
            k == elem_kind(*self),
    {
        match self {
            SyntaxElement::Token(t) => t.kind,
            SyntaxElement::Node(n) => n.kind,
        }
    }

    /// The range of text that this element covers.
    pub fn text_range(&self) -> (r: TextRange)
        ensures
            r == elem_range(*self),
    {
        match self {
            SyntaxElement::Token(t) => t.range,
            SyntaxElement::Node(n) => n.range,
        }
    }
}

/// Assembles a syntax tree from start, token and finish steps. Every open node
/// owns the elements pushed since it was started (or since its checkpoint).
pub struct TreeBuilder {
    parents: Vec<(SyntaxKind, usize, u32)>,
    children: Vec<SyntaxElement>,
    pos: u32,
}

impl TreeBuilder {
    /// The open nodes, innermost last: kind, index of their first element in
    /// `elements()`, and start offset.
    pub closed spec fn open_nodes(&self) -> Seq<(SyntaxKind, usize, u32)> {
        self.parents@
    }

    /// The elements built so far, at all levels, in order.
    pub closed spec fn elements(&self) -> Seq<SyntaxElement> {
        self.children@
    }

    /// The offset at which the next token starts.
    pub closed spec fn offset(&self) -> u32 {
        self.pos
    }

    /// The text of everything built so far.
    pub open spec fn text(&self) -> Seq<char> {
        elems_text(self.elements())
    }

    pub open spec fn wf(&self) -> bool {
        &&& forall|i: int| 0 <= i < self.open_nodes().len()
            ==> #[trigger] self.open_nodes()[i].1 <= self.elements().len()
        &&& forall|i: int, j: int| 0 <= i < j < self.open_nodes().len()
            ==> #[trigger] self.open_nodes()[i].1 <= #[trigger] self.open_nodes()[j].1
    }

    /// An empty builder.
    pub fn new() -> (b: TreeBuilder)
        ensures
            b.wf(),
            b.open_nodes().len() == 0,
            b.elements().len() == 0,
            b.offset() == 0,
    {
        TreeBuilder { parents: Vec::new(), children: Vec::new(), pos: 0 }
    }

    /// Opens a node of kind `kind`.
    pub fn start_node(&mut self, kind: SyntaxKind)
        requires
            old(self).wf(),
        ensures
            final(self).wf(),
            final(self).open_nodes() == old(self).open_nodes().push(
                (kind, old(self).elements().len() as usize, old(self).offset()),
            ),
            final(self).open_nodes().last().1 == old(self).elements().len(),
            final(self).elements() == old(self).elements(),
            final(self).offset() == old(self).offset(),
    {
        let n = self.children.len();
        self.parents.push((kind, n, self.pos));
        proof {
            assert forall|i: int| 0 <= i < self.open_nodes().len()
                implies #[trigger] self.open_nodes()[i].1 <= self.elements().len() by {
                if i < old(self).open_nodes().len() {
                    assert(old(self).open_nodes()[i] == self.open_nodes()[i]);
                }
            }
            assert forall|i: int, j: int| 0 <= i < j < self.open_nodes().len()
                implies #[trigger] self.open_nodes()[i].1 <= #[trigger] self.open_nodes()[j].1 by {
                assert(old(self).open_nodes()[i] == self.open_nodes()[i]);
                if j < old(self).open_nodes().len() {
                    assert(old(self).open_nodes()[j] == self.open_nodes()[j]);
                }
            }
        }
    }

    /// The position where a node could later be opened around the elements
    /// pushed from now on.
    pub fn checkpoint(&self) -> (c: usize)
        ensures
            c == self.elements().len(),
    {
        self.children.len()
    }

    /// Opens a node of kind `kind` that owns the elements from `checkpoint` on.
    pub fn start_node_at(&mut self, checkpoint: usize, kind: SyntaxKind)
        requires
            old(self).wf(),
            checkpoint <= old(self).elements().len(),
            old(self).open_nodes().len() > 0 ==> old(self).open_nodes().last().1 <= checkpoint,
        ensures
            final(self).wf(),
            final(self).open_nodes().len() == old(self).open_nodes().len() + 1,
            final(self).open_nodes().drop_last() == old(self).open_nodes(),
            final(self).open_nodes().last().0 == kind,
            final(self).open_nodes().last().1 == checkpoint,
            final(self).open_nodes().last().2 == (if checkpoint < old(self).elements().len() {
                elem_range(old(self).elements()[checkpoint as int]).start
            } else {
                old(self).offset()
            }),
            final(self).elements() == old(self).elements(),
            final(self).offset() == old(self).offset(),
    {
        let start = if checkpoint < self.children.len() {
            self.children[checkpoint].text_range().start
        } else {
            self.pos
        };
        self.parents.push((kind, checkpoint, start));
        proof {
            assert(self.open_nodes().drop_last() =~= old(self).open_nodes());
            assert forall|i: int| 0 <= i < self.open_nodes().len()
                implies #[trigger] self.open_nodes()[i].1 <= self.elements().len() by {
                if i < old(self).open_nodes().len() {
                    assert(old(self).open_nodes()[i] == self.open_nodes()[i]);
                }
            }
            assert forall|i: int, j: int| 0 <= i < j < self.open_nodes().len()
                implies #[trigger] self.open_nodes()[i].1 <= #[trigger] self.open_nodes()[j].1 by {
                assert(old(self).open_nodes()[i] == self.open_nodes()[i]);
                if j < old(self).open_nodes().len() {
                    assert(old(self).open_nodes()[j] == self.open_nodes()[j]);
                }
            }
        }
    }

    /// Adds a token.
    pub fn token(&mut self, kind: SyntaxKind, text: String, range: TextRange)
        requires
            old(self).wf(),
        ensures
            final(self).wf(),
            final(self).open_nodes() == old(self).open_nodes(),
            final(self).elements() == old(self).elements().push(
                SyntaxElement::Token(SyntaxToken { kind, text, range }),
            ),
            final(self).offset() == range.end,
            final(self).text() == old(self).text() + text@,
    {
        let ghost t = SyntaxElement::Token(SyntaxToken { kind, text, range });
        self.children.push(SyntaxElement::Token(SyntaxToken { kind, text, range }));
        self.pos = range.end;
        proof {
            lemma_elems_text_push(old(self).elements(), t);
            assert forall|i: int| 0 <= i < self.open_nodes().len()
                implies #[trigger] self.open_nodes()[i].1 <= self.elements().len() by {
                if i < old(self).open_nodes().len() {
                    assert(old(self).open_nodes()[i] == self.open_nodes()[i]);
                }
            }
            assert forall|i: int, j: int| 0 <= i < j < self.open_nodes().len()
                implies #[trigger] self.open_nodes()[i].1 <= #[trigger] self.open_nodes()[j].1 by {
                assert(old(self).open_nodes()[i] == self.open_nodes()[i]);
                if j < old(self).open_nodes().len() {
                    assert(old(self).open_nodes()[j] == self.open_nodes()[j]);
                }
            }
        }
    }

    /// Closes the innermost open node.
    pub fn finish_node(&mut self)
        requires
            old(self).wf(),
            old(self).open_nodes().len() > 0,
        ensures
            final(self).wf(),
            final(self).open_nodes() == old(self).open_nodes().drop_last(),
            final(self).elements().len() == old(self).open_nodes().last().1 + 1,
            final(self).elements().drop_last() == old(self).elements().take(old(self).open_nodes().last().1 as int),
            final(self).elements().last() is Node,
            final(self).elements().last()->Node_0.kind == old(self).open_nodes().last().0,
            final(self).elements().last()->Node_0.range == (TextRange { start: old(self).open_nodes().last().2, end: old(self).offset() }),
            final(self).elements().last()->Node_0.children@ == old(self).elements().skip(old(self).open_nodes().last().1 as int),
            final(self).offset() == old(self).offset(),
            final(self).text() == old(self).text(),
    {
        let (kind, first, start) = self.parents.pop().unwrap();
        let ghost old_children = self.children@;
        let own = self.children.split_off(first);
        let node = SyntaxNode {
            kind,
            range: TextRange { start, end: self.pos },
            children: own,
        };
        self.children.push(SyntaxElement::Node(Rc::new(node)));
        proof {
            assert(self.children@.drop_last() =~= old_children.take(first as int));
            assert(own@ =~= old_children.skip(first as int));
            lemma_elems_text_push(old_children.take(first as int), SyntaxElement::Node(Rc::new(node)));
            lemma_elems_text_concat(old_children.take(first as int), old_children.skip(first as int));
            assert(old_children.take(first as int) + old_children.skip(first as int) =~= old_children);
            assert(self.children@.drop_last().push(self.children@.last()) =~= self.children@);
            assert forall|i: int| 0 <= i < self.open_nodes().len()
                implies #[trigger] self.open_nodes()[i].1 <= self.elements().len() by {
                if i < old(self).open_nodes().len() {
                    assert(old(self).open_nodes()[i] == self.open_nodes()[i]);
                }
            }
            assert forall|i: int, j: int| 0 <= i < j < self.open_nodes().len()
                implies #[trigger] self.open_nodes()[i].1 <= #[trigger] self.open_nodes()[j].1 by {
                assert(old(self).open_nodes()[i] == self.open_nodes()[i]);
                if j < old(self).open_nodes().len() {
                    assert(old(self).open_nodes()[j] == self.open_nodes()[j]);
                }
            }
        }
    }

    /// The finished tree: the builder must hold exactly one node and no open ones.
    pub fn finish(self) -> (n: Rc<SyntaxNode>)
        requires
            self.wf(),
            self.open_nodes().len() == 0,
            self.elements().len() == 1,
            self.elements()[0] is Node,
        ensures
            SyntaxElement::Node(n) == self.elements()[0],
            node_text(*n) == self.text(),
    {
        let mut children = self.children;
        let e = children.pop().unwrap();
        proof {
            assert(self.elements() =~= Seq::<SyntaxElement>::empty().push(e));
            lemma_elems_text_push(Seq::<SyntaxElement>::empty(), e);
            assert(elems_text(Seq::<SyntaxElement>::empty()) =~= Seq::<char>::empty());
        }
        match e {
            SyntaxElement::Node(n) => n,
            SyntaxElement::Token(_) => {
                proof {
                    assert(false);
                }
                Rc::new(SyntaxNode { kind: SyntaxKind::Error, range: TextRange::empty(), children: Vec::new() })
            },
        }
    }
}


/// The shape of a syntax tree: the kinds of its nodes and tokens and how they
/// nest, without the text.
pub enum Shape {
    Token(SyntaxKind),
    Node(SyntaxKind, Seq<Shape>),
}

/// The shape of an element.
pub open spec fn elem_shape(e: SyntaxElement) -> Shape
    decreases e,
{
    match e {
        SyntaxElement::Token(t) => Shape::Token(t.kind),
        SyntaxElement::Node(n) => Shape::Node(n.kind, elems_shape(n.children@)),
    }
}

/// The shapes of a sequence of elements, in order.
pub open spec fn elems_shape(es: Seq<SyntaxElement>) -> Seq<Shape>
    decreases es,
{
    if es.len() == 0 {
        Seq::empty()
    } else {
        elems_shape(es.drop_last()).push(elem_shape(es.last()))
    }
}

/// The shape of a node.
pub open spec fn node_shape(n: SyntaxNode) -> Shape {
    Shape::Node(n.kind, elems_shape(n.children@))
}

pub proof fn lemma_elems_shape_len(a: Seq<SyntaxElement>)
    ensures
        elems_shape(a).len() == a.len(),
    decreases a.len(),
{
    if a.len() > 0 {
        lemma_elems_shape_len(a.drop_last());
    }
}

pub proof fn lemma_elems_shape_single(e: SyntaxElement)
    ensures
        elems_shape(seq![e]) == seq![elem_shape(e)],
{
    let s = seq![e];
    assert(s.drop_last() =~= Seq::<SyntaxElement>::empty());
    assert(s.last() == e);
    assert(elems_shape(s.drop_last()) =~= Seq::<Shape>::empty());
    assert(elems_shape(s) =~= seq![elem_shape(e)]);
}

pub proof fn lemma_elems_shape_concat(a: Seq<SyntaxElement>, b: Seq<SyntaxElement>)
    ensures
        elems_shape(a + b) == elems_shape(a) + elems_shape(b),
    decreases b.len(),
{
    if b.len() == 0 {
        assert(a + b =~= a);
        assert(elems_shape(a) + elems_shape(b) =~= elems_shape(a));
    } else {
        lemma_elems_shape_concat(a, b.drop_last());
        assert((a + b).drop_last() =~= a + b.drop_last());
        assert((a + b).last() == b.last());
        assert(elems_shape(a + b) =~= elems_shape(a) + elems_shape(b));
    }
}

} // verus!
