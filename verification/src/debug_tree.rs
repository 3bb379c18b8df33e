//! The text form of syntax trees used for debugging: one line per node or
//! token, indented by depth, giving the kind, the range and (for tokens) the
//! quoted text.

use vstd::prelude::*;
use std::rc::Rc;
use crate::syntax_kind::{SyntaxKind, spec_kind_name};
use crate::text::{utf8_len, utf8_width, char_utf8_width, push_chars, push_char, chars_of};
use crate::text_range::TextRange;
use crate::tree::{SyntaxElement, SyntaxNode, SyntaxToken};

verus! {

/// The decimal digit for `d` (below 10).
pub open spec fn digit_char(d: nat) -> char {
    if d == 0 { '0' } else if d == 1 { '1' } else if d == 2 { '2' } else if d == 3 { '3' }
    else if d == 4 { '4' } else if d == 5 { '5' } else if d == 6 { '6' } else if d == 7 { '7' }
    else if d == 8 { '8' } else { '9' }
}

/// The decimal representation of `n`.
pub open spec fn decimal(n: nat) -> Seq<char>
    decreases n,
{
    if n < 10 {
        seq![digit_char(n)]
    } else {
        decimal(n / 10).push(digit_char(n % 10))
    }
}

/// `start..end`.
pub open spec fn range_text(r: TextRange) -> Seq<char> {
    decimal(r.start as nat) + seq!['.', '.'] + decimal(r.end as nat)
}

/// What `format!("{:?}", s)` writes for the string `s`: its text in double
/// quotes, with the escapes of `str`'s `Debug` (which follow std's tables of
/// printable and combining characters).
pub uninterp spec fn str_debug(s: Seq<char>) -> Seq<char>;

/// `<str as Debug>::fmt`, through `format!("{:?}", ..)`; the result is the
/// one named by `str_debug`, and nothing more of it is stated here.
#[verifier::external_body]
fn str_debug_of(s: &str) -> (r: String)
    ensures
        r@ == str_debug(s@),
{
    format!("{:?}", s)
}

/// Number of leading characters of `s` kept when a long token text is
/// shortened: the shortest prefix that reaches 21 bytes.
pub open spec fn shortened_len(s: Seq<char>, n: int) -> int
    decreases s.len() - n,
{
    if n >= s.len() || utf8_len(s.take(n)) >= 21 {
        n
    } else {
        shortened_len(s, n + 1)
    }
}

/// The text shown for a token: in full when shorter than 25 bytes, otherwise
/// its first 21 bytes (rounded up to a whole character) followed by ` ...`.
pub open spec fn shown_text(s: Seq<char>) -> Seq<char> {
    if utf8_len(s) < 25 {
        s
    } else {
        s.take(shortened_len(s, 0)) + seq![' ', '.', '.', '.']
    }
}

/// The line (without indentation or line end) for one element.
pub open spec fn header(e: SyntaxElement) -> Seq<char> {
    match e {
        SyntaxElement::Node(n) => spec_kind_name(n.kind) + seq!['@'] + range_text(n.range),
        SyntaxElement::Token(t) => spec_kind_name(t.kind) + seq!['@'] + range_text(t.range) + seq![' ']
            + str_debug(shown_text(t.text@)),
    }
}

pub open spec fn indent(level: nat) -> Seq<char>
    decreases level,
{
    if level == 0 {
        Seq::empty()
    } else {
        indent((level - 1) as nat) + seq![' ', ' ']
    }
}

/// The indentation level of the children of an element at `level` (which
/// stops growing at the largest level that a machine word can count).
pub open spec fn next_level(level: nat) -> nat {
    if level + 2 < usize::MAX {
        level + 1
    } else {
        level
    }
}

/// The lines for an element and everything below it, each ended by a line feed.
pub open spec fn elem_lines(e: SyntaxElement, level: nat) -> Seq<char>
    decreases e,
{
    indent(level) + header(e) + seq!['\n'] + match e {
        SyntaxElement::Node(n) => elems_lines(n.children@, next_level(level)),
        SyntaxElement::Token(_) => Seq::empty(),
    }
}

pub open spec fn elems_lines(es: Seq<SyntaxElement>, level: nat) -> Seq<char>
    decreases es,
{
    if es.len() == 0 {
        Seq::empty()
    } else {
        elems_lines(es.drop_last(), level) + elem_lines(es.last(), level)
    }
}

/// The debug form of a tree: its lines, without the final line feed.
pub open spec fn spec_debug_tree(n: SyntaxNode) -> Seq<char> {
    let all = elem_lines(SyntaxElement::Node(Rc::new(n)), 0);
    all.drop_last()
}

fn digit_of(d: u32) -> (c: char)
    requires
        d < 10,
    ensures
        c == digit_char(d as nat),
{
    if d == 0 { '0' } else if d == 1 { '1' } else if d == 2 { '2' } else if d == 3 { '3' }
    else if d == 4 { '4' } else if d == 5 { '5' } else if d == 6 { '6' } else if d == 7 { '7' }
    else if d == 8 { '8' } else { '9' }
}

/// Appends the decimal representation of `n`.
pub fn push_decimal(out: &mut String, n: u32)
    ensures
        final(out)@ == old(out)@ + decimal(n as nat),
    decreases n,
{
    if n < 10 {
        push_char(out, digit_of(n));
        proof {
            assert(decimal(n as nat) =~= seq![digit_char(n as nat)]);
        }
    } else {
        push_decimal(out, n / 10);
        push_char(out, digit_of(n % 10));
        proof {
            assert(old(out)@ + decimal(n as nat) =~= old(out)@ + decimal((n / 10) as nat) + seq![digit_char((n % 10) as nat)]);
        }
    }
}

/// Appends the text of a token (shortened when long) as `{:?}` writes it.
fn push_token_text(out: &mut String, text: &String)
    ensures
        final(out)@ == old(out)@ + str_debug(shown_text(text@)),
{
    let cs = chars_of(text.as_str());
    let ghost s = cs@;
    // Total length in bytes, and the number of characters making up 21 bytes.
    let mut bytes: u32 = 0;
    let mut short: usize = 0;
    let mut found = false;
    let mut i: usize = 0;
    proof {
        assert(s.take(0) =~= Seq::<char>::empty());
    }
    while i < cs.len()
        invariant
            s == cs@,
            s == text@,
            i <= cs@.len(),
            bytes <= 28,
            bytes < 25 ==> bytes == utf8_len(s.take(i as int)),
            bytes >= 25 ==> utf8_len(s.take(i as int)) >= 25,
            !found ==> (bytes < 25 && short == i && shortened_len(s, 0) == shortened_len(s, i as int)),
            found ==> (short <= i && shortened_len(s, 0) == short),
        decreases cs.len() - i,
    {
        if !found && bytes >= 21 {
            found = true;
            short = i;
        }
        proof {
            assert(s.take(i + 1).drop_last() =~= s.take(i as int));
        }
        if bytes < 25 {
            bytes = bytes + char_utf8_width(cs[i]);
        }
        i = i + 1;
        if !found {
            short = i;
        }
    }
    proof {
        assert(s.take(i as int) =~= s);
    }
    if !found && bytes >= 21 {
        short = i;
    }
    let count = if bytes < 25 { cs.len() } else { short };
    proof {
        if bytes >= 25 {
            assert(shortened_len(s, i as int) == i as int);
        }
    }
    let mut shown = crate::text::string_of_range(&cs, 0, count);
    if bytes >= 25 {
        push_char(&mut shown, ' ');
        push_char(&mut shown, '.');
        push_char(&mut shown, '.');
        push_char(&mut shown, '.');
    }
    proof {
        if bytes < 25 {
            assert(cs@.subrange(0, count as int) =~= s);
        } else {
            assert(shown@ =~= s.take(count as int) + seq![' ', '.', '.', '.']);
        }
        assert(shown@ == shown_text(s));
    }
    let quoted = str_debug_of(shown.as_str());
    push_str(out, quoted.as_str());
}

fn push_str(out: &mut String, s: &str)
    ensures
        final(out)@ == old(out)@ + s@,
{
    let cs = chars_of(s);
    push_chars(out, &cs);
}

fn push_indent(out: &mut String, level: usize)
    ensures
        final(out)@ == old(out)@ + indent(level as nat),
    decreases level,
{
    if level > 0 {
        push_indent(out, level - 1);
        push_char(out, ' ');
        push_char(out, ' ');
        proof {
            assert(old(out)@ + indent(level as nat) =~= old(out)@ + indent((level - 1) as nat) + seq![' ', ' ']);
        }
    }
}

fn push_header(out: &mut String, e: &SyntaxElement)
    ensures
        final(out)@ == old(out)@ + header(*e),
{
    match e {
        SyntaxElement::Node(n) => {
            push_str(out, n.kind.name());
            push_char(out, '@');
            push_decimal(out, n.range.start);
            push_char(out, '.');
            push_char(out, '.');
            push_decimal(out, n.range.end);
        },
        SyntaxElement::Token(t) => {
            push_str(out, t.kind.name());
            push_char(out, '@');
            push_decimal(out, t.range.start);
            push_char(out, '.');
            push_char(out, '.');
            push_decimal(out, t.range.end);
            push_char(out, ' ');
            push_token_text(out, &t.text);
        },
    }
    proof {
        assert(final(out)@ =~= old(out)@ + header(*e));
    }
}

fn push_elem_lines(out: &mut String, e: &SyntaxElement, level: usize)
    requires
        level < usize::MAX,
    ensures
        final(out)@ == old(out)@ + elem_lines(*e, level as nat),
    decreases *e, 0nat,
{
    push_indent(out, level);
    push_header(out, e);
    push_char(out, '\n');
    let ghost mid = out@;
    match e {
        SyntaxElement::Node(n) => {
            let next = if level < usize::MAX - 2 { level + 1 } else { level };
            push_elems_lines(out, &n.children, next);
        },
        SyntaxElement::Token(_) => {},
    }
    proof {
        assert(final(out)@ =~= old(out)@ + elem_lines(*e, level as nat));
    }
}

fn push_elems_lines(out: &mut String, es: &Vec<SyntaxElement>, level: usize)
    requires
        level < usize::MAX,
    ensures
        final(out)@ == old(out)@ + elems_lines(es@, level as nat),
    decreases es@, 1nat,
{
    let mut i: usize = 0;
    proof {
        assert(elems_lines(es@.take(0), level as nat) =~= Seq::<char>::empty());
    }
    while i < es.len()
        invariant
            i <= es@.len(),
            level < usize::MAX,
            out@ == old(out)@ + elems_lines(es@.take(i as int), level as nat),
        decreases es@.len() - i,
    {
        proof {
            assert(es@.take(i + 1).drop_last() =~= es@.take(i as int));
        }
        push_elem_lines(out, &es[i], level);
        i = i + 1;
    }
    proof {
        assert(es@.take(i as int) =~= es@);
    }
}

/// The debug form of a tree: one line per node and token, indented by depth.
pub fn debug_tree(root: &Rc<SyntaxNode>) -> (s: String)
    ensures
        s@ == spec_debug_tree(**root),
{
    let mut out = String::new();
    let e = SyntaxElement::Node(crate::tree::rc_clone(root));
    push_elem_lines(&mut out, &e, 0);
    // Drop the final line feed.
    let cs = chars_of(out.as_str());
    let n = cs.len();
    proof {
        assert(cs@.len() > 0);
    }
    crate::text::string_of_range(&cs, 0, n - 1)
}

} // verus!
