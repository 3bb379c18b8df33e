//! Splits a shell command line into a command name and its arguments.
//!
//! Items are separated by whitespace; an item that starts with a double quote
//! runs up to the next double quote and may hold whitespace.

use vstd::prelude::*;
use crate::text::{chars_of, string_of_range};

verus! {

/// Whether `c` is whitespace in the sense of Unicode's `White_Space` property
/// (the same set that `char::is_whitespace` accepts).
pub open spec fn is_unicode_ws(c: char) -> bool {
    let v = c as u32;
    ||| (0x9 <= v && v <= 0xD)
    ||| v == 0x20
    ||| v == 0x85
    ||| v == 0xA0
    ||| v == 0x1680
    ||| (0x2000 <= v && v <= 0x200A)
    ||| v == 0x2028
    ||| v == 0x2029
    ||| v == 0x202F
    ||| v == 0x205F
    ||| v == 0x3000
}

/// First position at or after `i` whose character is not whitespace (or the end).
pub open spec fn first_non_ws(s: Seq<char>, i: int) -> int
    decreases s.len() - i,
{
    if i < 0 || i >= s.len() {
        s.len() as int
    } else if !is_unicode_ws(s[i]) {
        i
    } else {
        first_non_ws(s, i + 1)
    }
}

/// First position at or after `i` whose character is whitespace (or the end).
pub open spec fn first_ws(s: Seq<char>, i: int) -> int
    decreases s.len() - i,
{
    if i < 0 || i >= s.len() {
        s.len() as int
    } else if is_unicode_ws(s[i]) {
        i
    } else {
        first_ws(s, i + 1)
    }
}

/// First position at or after `i` that holds a double quote (or the end).
pub open spec fn first_quote(s: Seq<char>, i: int) -> int
    decreases s.len() - i,
{
    if i < 0 || i >= s.len() {
        s.len() as int
    } else if s[i] == '"' {
        i
    } else {
        first_quote(s, i + 1)
    }
}

/// The next item of `s` from position `i`: `None` when only whitespace is left,
/// `Some(Err(()))` for an opening quote that is never closed, and otherwise the
/// item's text together with the position just after it.
pub open spec fn next_item(s: Seq<char>, i: int) -> Option<Result<(Seq<char>, int), ()>> {
    let b = first_non_ws(s, i);
    if b >= s.len() {
        None
    } else if s[b] == '"' {
        let q = first_quote(s, b + 1);
        if q >= s.len() {
            Some(Err(()))
        } else {
            Some(Ok((s.subrange(b + 1, q), q + 1)))
        }
    } else {
        let w = first_ws(s, b);
        Some(Ok((s.subrange(b, w), w)))
    }
}

proof fn lemma_first_non_ws(s: Seq<char>, i: int)
    requires
        0 <= i <= s.len(),
    ensures
        i <= first_non_ws(s, i) <= s.len(),
        first_non_ws(s, i) < s.len() ==> !is_unicode_ws(s[first_non_ws(s, i)]),
        forall|k: int| i <= k < first_non_ws(s, i) ==> is_unicode_ws(#[trigger] s[k]),
    decreases s.len() - i,
{
    if i < s.len() && is_unicode_ws(s[i]) {
        lemma_first_non_ws(s, i + 1);
    }
}

proof fn lemma_first_ws(s: Seq<char>, i: int)
    requires
        0 <= i <= s.len(),
    ensures
        i <= first_ws(s, i) <= s.len(),
        first_ws(s, i) < s.len() ==> is_unicode_ws(s[first_ws(s, i)]),
        forall|k: int| i <= k < first_ws(s, i) ==> !is_unicode_ws(#[trigger] s[k]),
    decreases s.len() - i,
{
    if i < s.len() && !is_unicode_ws(s[i]) {
        lemma_first_ws(s, i + 1);
    }
}

proof fn lemma_first_quote(s: Seq<char>, i: int)
    requires
        0 <= i <= s.len(),
    ensures
        i <= first_quote(s, i) <= s.len(),
    decreases s.len() - i,
{
    if i < s.len() && s[i] != '"' {
        lemma_first_quote(s, i + 1);
    }
}

/// Each item that is found ends past the position it was looked for from.
pub proof fn lemma_next_item_advances(s: Seq<char>, i: int)
    requires
        0 <= i <= s.len(),
    ensures
        next_item(s, i) matches Some(Ok((t, j))) ==> i < j <= s.len() && t.len() < j - i + 1,
{
    lemma_first_non_ws(s, i);
    let b = first_non_ws(s, i);
    if b < s.len() {
        if s[b] == '"' {
            lemma_first_quote(s, b + 1);
        } else {
            lemma_first_ws(s, b + 1);
        }
    }
}

proof fn lemma_first_non_ws_at(s: Seq<char>, i: int, j: int)
    requires
        0 <= i <= j <= s.len(),
        forall|k: int| i <= k < j ==> is_unicode_ws(#[trigger] s[k]),
        j == s.len() || !is_unicode_ws(s[j]),
    ensures
        first_non_ws(s, i) == j,
    decreases j - i,
{
    if i < j {
        lemma_first_non_ws_at(s, i + 1, j);
    }
}

proof fn lemma_first_ws_at(s: Seq<char>, i: int, j: int)
    requires
        0 <= i <= j <= s.len(),
        forall|k: int| i <= k < j ==> !is_unicode_ws(#[trigger] s[k]),
        j == s.len() || is_unicode_ws(s[j]),
    ensures
        first_ws(s, i) == j,
    decreases j - i,
{
    if i < j {
        lemma_first_ws_at(s, i + 1, j);
    }
}

proof fn lemma_first_quote_at(s: Seq<char>, i: int, j: int)
    requires
        0 <= i <= j < s.len(),
        forall|k: int| i <= k < j ==> #[trigger] s[k] != '"',
        s[j] == '"',
    ensures
        first_quote(s, i) == j,
    decreases j - i,
{
    if i < j {
        lemma_first_quote_at(s, i + 1, j);
    }
}

/// A command name and a free argument without whitespace or quotes, and
/// between them an argument in quotes that holds a space, come out as three
/// items: the quoted one whole, without its quotes.
pub proof fn law_quoted_argument_is_one_item(cn: Seq<char>, q1: Seq<char>, q2: Seq<char>, fa: Seq<char>)
    requires
        cn.len() > 0,
        fa.len() > 0,
        forall|i: int| 0 <= i < cn.len() ==> !is_unicode_ws(#[trigger] cn[i]) && cn[i] != '"',
        forall|i: int| 0 <= i < fa.len() ==> !is_unicode_ws(#[trigger] fa[i]) && fa[i] != '"',
        forall|i: int| 0 <= i < q1.len() ==> #[trigger] q1[i] != '"',
        forall|i: int| 0 <= i < q2.len() ==> #[trigger] q2[i] != '"',
    ensures
        items_from(cn + seq![' ', '"'] + q1 + seq![' '] + q2 + seq!['"', ' '] + fa + seq![' '], 0)
            == Ok::<Seq<Seq<char>>, ()>(seq![cn, q1 + seq![' '] + q2, fa]),
{
    let s = cn + seq![' ', '"'] + q1 + seq![' '] + q2 + seq!['"', ' '] + fa + seq![' '];
    let a = cn.len() as int;
    let b = a + 2 + q1.len() + 1 + q2.len();
    let c = b + 2;
    let d = c + fa.len();
    assert(s.len() == d + 1);
    assert(forall|k: int| 0 <= k < a ==> s[k] == cn[k]);
    assert(s[a] == ' ');
    assert(s[a + 1] == '"');
    assert(forall|k: int| a + 2 <= k < a + 2 + q1.len() ==> s[k] == q1[k - a - 2]);
    assert(s[a + 2 + q1.len()] == ' ');
    assert(forall|k: int| a + 3 + q1.len() <= k < b ==> s[k] == q2[k - a - 3 - q1.len()]);
    assert(s[b] == '"');
    assert(s[b + 1] == ' ');
    assert(forall|k: int| c <= k < d ==> s[k] == fa[k - c]);
    assert(s[d] == ' ');
    // The command name.
    lemma_first_non_ws_at(s, 0, 0);
    lemma_first_ws_at(s, 0, a);
    assert(s.subrange(0, a) =~= cn);
    assert(next_item(s, 0) == Some(Ok::<(Seq<char>, int), ()>((cn, a))));
    // The quoted argument.
    lemma_first_non_ws_at(s, a, a + 1);
    assert forall|k: int| a + 2 <= k < b implies #[trigger] s[k] != '"' by {
        if k < a + 2 + q1.len() {
            assert(s[k] == q1[k - a - 2]);
        } else if k > a + 2 + q1.len() {
            assert(s[k] == q2[k - a - 3 - q1.len()]);
        }
    }
    lemma_first_quote_at(s, a + 2, b);
    assert(s.subrange(a + 2, b) =~= q1 + seq![' '] + q2);
    assert(next_item(s, a) == Some(Ok::<(Seq<char>, int), ()>((q1 + seq![' '] + q2, b + 1))));
    // The free argument.
    lemma_first_non_ws_at(s, b + 1, c);
    lemma_first_ws_at(s, c, d);
    assert(s.subrange(c, d) =~= fa);
    assert(next_item(s, b + 1) == Some(Ok::<(Seq<char>, int), ()>((fa, d))));
    // Nothing after it.
    lemma_first_non_ws_at(s, d, d + 1);
    assert(next_item(s, d) == None::<Result<(Seq<char>, int), ()>>);
    assert(items_from(s, d) == Ok::<Seq<Seq<char>>, ()>(Seq::empty()));
    assert(items_from(s, b + 1) == Ok::<Seq<Seq<char>>, ()>(seq![fa]));
    assert(seq![q1 + seq![' '] + q2] + seq![fa] =~= seq![q1 + seq![' '] + q2, fa]);
    assert(items_from(s, a) == Ok::<Seq<Seq<char>>, ()>(seq![q1 + seq![' '] + q2, fa]));
    assert(seq![cn] + seq![q1 + seq![' '] + q2, fa] =~= seq![cn, q1 + seq![' '] + q2, fa]);
}

/// The texts of all the items of `s` from position `i` on, or `Err(())` if an
/// unclosed quote comes first.
pub open spec fn items_from(s: Seq<char>, i: int) -> Result<Seq<Seq<char>>, ()>
    decreases s.len() - i,
{
    match next_item(s, i) {
        None => Ok(Seq::empty()),
        Some(Err(())) => Err(()),
        Some(Ok((t, j))) => if i < j <= s.len() {
            match items_from(s, j) {
                Ok(rest) => Ok(seq![t] + rest),
                Err(()) => Err(()),
            }
        } else {
            Ok(Seq::empty())
        },
    }
}

/// Every character of `s` is whitespace.
pub open spec fn all_ws(s: Seq<char>) -> bool {
    forall|k: int| 0 <= k < s.len() ==> is_unicode_ws(#[trigger] s[k])
}

/// `t` is a word: not empty, and without whitespace or quotes.
pub open spec fn is_word(t: Seq<char>) -> bool {
    &&& t.len() > 0
    &&& forall|k: int| 0 <= k < t.len() ==> !is_unicode_ws(#[trigger] t[k]) && t[k] != '"'
}

/// `gaps[0] + words[0] + gaps[1] + ... + words[n - 1] + gaps[n]`.
pub open spec fn interleave(words: Seq<Seq<char>>, gaps: Seq<Seq<char>>) -> Seq<char>
    decreases words.len(),
{
    if words.len() == 0 {
        if gaps.len() > 0 {
            gaps[0]
        } else {
            Seq::empty()
        }
    } else {
        gaps[0] + words[0] + interleave(words.drop_first(), gaps.drop_first())
    }
}

/// A blank line (nothing but whitespace) has no items, and any other line has
/// a first item, or an unmatched quote. (The first item that `LexItemsIter`
/// gives is numbered 0, which makes it a `CommandName`.)
pub proof fn law_blank_line_has_no_items(s: Seq<char>)
    ensures
        all_ws(s) <==> items_from(s, 0) == Ok::<Seq<Seq<char>>, ()>(Seq::empty()),
        !all_ws(s) ==> next_item(s, 0) is Some,
{
    lemma_first_non_ws(s, 0);
    lemma_next_item_advances(s, 0);
    let b = first_non_ws(s, 0);
    if all_ws(s) {
        if b < s.len() {
            assert(is_unicode_ws(s[b]));
        }
    } else {
        let k = choose|k: int| 0 <= k < s.len() && !is_unicode_ws(#[trigger] s[k]);
        assert(b <= k);
        if let Some(Ok((t, j))) = next_item(s, 0) {
            match items_from(s, j) {
                Ok(rest) => {
                    assert((seq![t] + rest).len() > 0);
                },
                Err(()) => {},
            }
        }
    }
}

/// A line without quotes comes out as its whitespace-separated words, in
/// order: the line is the words with runs of whitespace around and between
/// them (returned as `gaps`), a non-empty run between any two words.
pub proof fn law_unquoted_line_is_its_words(s: Seq<char>) -> (gaps: Seq<Seq<char>>)
    requires
        forall|k: int| 0 <= k < s.len() ==> #[trigger] s[k] != '"',
    ensures
        items_from(s, 0) is Ok,
        gaps.len() == items_from(s, 0)->Ok_0.len() + 1,
        forall|k: int| 0 <= k < items_from(s, 0)->Ok_0.len() ==> is_word(#[trigger] items_from(s, 0)->Ok_0[k]),
        forall|k: int| 0 <= k < gaps.len() ==> all_ws(#[trigger] gaps[k]),
        forall|k: int| 0 < k < items_from(s, 0)->Ok_0.len() ==> (#[trigger] gaps[k]).len() > 0,
        interleave(items_from(s, 0)->Ok_0, gaps) == s,
{
    let gaps = lemma_words_from(s, 0);
    assert(s.subrange(0, s.len() as int) =~= s);
    gaps
}

proof fn lemma_words_from(s: Seq<char>, i: int) -> (gaps: Seq<Seq<char>>)
    requires
        0 <= i <= s.len(),
        forall|k: int| 0 <= k < s.len() ==> #[trigger] s[k] != '"',
    ensures
        items_from(s, i) is Ok,
        gaps.len() == items_from(s, i)->Ok_0.len() + 1,
        forall|k: int| 0 <= k < items_from(s, i)->Ok_0.len() ==> is_word(#[trigger] items_from(s, i)->Ok_0[k]),
        forall|k: int| 0 <= k < gaps.len() ==> all_ws(#[trigger] gaps[k]),
        forall|k: int| 0 < k < items_from(s, i)->Ok_0.len() ==> (#[trigger] gaps[k]).len() > 0,
        gaps[0] == s.subrange(i, first_non_ws(s, i)),
        interleave(items_from(s, i)->Ok_0, gaps) == s.subrange(i, s.len() as int),
    decreases s.len() - i,
{
    lemma_first_non_ws(s, i);
    let b = first_non_ws(s, i);
    if b >= s.len() {
        let gaps = seq![s.subrange(i, s.len() as int)];
        assert(items_from(s, i) == Ok::<Seq<Seq<char>>, ()>(Seq::empty()));
        assert forall|k: int| 0 <= k < gaps.len() implies all_ws(#[trigger] gaps[k]) by {
            assert forall|m: int| 0 <= m < gaps[k].len() implies is_unicode_ws(#[trigger] gaps[k][m]) by {
                assert(gaps[k][m] == s[i + m]);
            }
        }
        gaps
    } else {
        lemma_first_ws(s, b);
        let w = first_ws(s, b);
        assert(w > b) by {
            if w == b {
                assert(is_unicode_ws(s[w]));
            }
        }
        let word = s.subrange(b, w);
        let rest_gaps = lemma_words_from(s, w);
        let rest = items_from(s, w)->Ok_0;
        assert(next_item(s, i) == Some(Ok::<(Seq<char>, int), ()>((word, w))));
        let words = seq![word] + rest;
        assert(items_from(s, i) == Ok::<Seq<Seq<char>>, ()>(words));
        let gaps = seq![s.subrange(i, b)] + rest_gaps;
        assert(words.drop_first() =~= rest);
        assert(gaps.drop_first() =~= rest_gaps);
        assert(words[0] == word);
        assert(is_word(word)) by {
            assert forall|m: int| 0 <= m < word.len() implies !is_unicode_ws(#[trigger] word[m]) && word[m] != '"' by {
                assert(word[m] == s[b + m]);
            }
        }
        assert forall|k: int| 0 <= k < words.len() implies is_word(#[trigger] words[k]) by {
            if k > 0 {
                assert(words[k] == rest[k - 1]);
            }
        }
        assert forall|k: int| 0 <= k < gaps.len() implies all_ws(#[trigger] gaps[k]) by {
            if k == 0 {
                assert forall|m: int| 0 <= m < gaps[0].len() implies is_unicode_ws(#[trigger] gaps[0][m]) by {
                    assert(gaps[0][m] == s[i + m]);
                }
            } else {
                assert(gaps[k] == rest_gaps[k - 1]);
            }
        }
        assert forall|k: int| 0 < k < words.len() implies (#[trigger] gaps[k]).len() > 0 by {
            assert(gaps[k] == rest_gaps[k - 1]);
            if k == 1 {
                assert(rest.len() > 0);
                assert(w < s.len()) by {
                    if w >= s.len() {
                        lemma_first_non_ws(s, w);
                    }
                }
                lemma_first_non_ws(s, w);
                assert(is_unicode_ws(s[w]));
                assert(first_non_ws(s, w) > w);
            }
        }
        assert(interleave(words, gaps) == gaps[0] + words[0] + interleave(rest, rest_gaps));
        assert(s.subrange(i, s.len() as int) =~= s.subrange(i, b) + word + s.subrange(w, s.len() as int));
        gaps
    }
}

/// An item of a command line: the command's name (the first item) or one of
/// its arguments.
#[derive(Debug, PartialEq, Eq, Clone)]
pub enum LexItem {
    CommandName(String),
    CommandArg(String),
}

/// Why a command line could not be split.
#[derive(Debug, PartialEq, Eq, Clone, Copy)]
pub enum LexItemParseError {
    /// an opening double quote without a closing one
    UnmatchedQuote,
}

/// Whether `it` is the item with number `idx` and text `t`.
pub open spec fn item_is(it: LexItem, idx: int, t: Seq<char>) -> bool {
    if idx == 0 {
        it matches LexItem::CommandName(n) && n@ == t
    } else {
        it matches LexItem::CommandArg(a) && a@ == t
    }
}

impl LexItem {
    /// The item's text.
    pub fn as_str(&self) -> (s: &str)
        ensures
            s@ == (match self {
                LexItem::CommandName(n) => n@,
                LexItem::CommandArg(a) => a@,
            }),
    {
        match self {
            LexItem::CommandName(n) => n.as_str(),
            LexItem::CommandArg(a) => a.as_str(),
        }
    }
}

/// Yields the items of a command line one after the other.
pub struct LexItemsIter {
    idx: usize,
    chars: Vec<char>,
    pos: usize,
}

impl LexItemsIter {
    /// The whole command line.
    pub closed spec fn source(&self) -> Seq<char> {
        self.chars@
    }

    /// Where the rest of the line starts.
    pub closed spec fn position(&self) -> int {
        self.pos as int
    }

    /// How many items have been yielded so far.
    pub closed spec fn count(&self) -> int {
        self.idx as int
    }

    pub closed spec fn wf(&self) -> bool {
        self.idx <= self.pos <= self.chars@.len()
    }

    /// An iterator over the items of `s`.
    pub fn new(s: &str) -> (it: LexItemsIter)
        ensures
            it.wf(),
            it.source() == s@,
            it.position() == 0,
            it.count() == 0,
    {
        LexItemsIter { idx: 0, chars: chars_of(s), pos: 0 }
    }

    fn skip_ws(&self, i: usize) -> (r: usize)
        requires
            i <= self.chars@.len(),
        ensures
            r == first_non_ws(self.chars@, i as int),
    {
        let mut j = i;
        while j < self.chars.len() && is_whitespace(self.chars[j])
            invariant
                i <= j <= self.chars@.len(),
                first_non_ws(self.chars@, i as int) == first_non_ws(self.chars@, j as int),
            decreases self.chars@.len() - j,
        {
            j = j + 1;
        }
        j
    }

    fn find_ws(&self, i: usize) -> (r: usize)
        requires
            i <= self.chars@.len(),
        ensures
            r == first_ws(self.chars@, i as int),
    {
        let mut j = i;
        while j < self.chars.len() && !is_whitespace(self.chars[j])
            invariant
                i <= j <= self.chars@.len(),
                first_ws(self.chars@, i as int) == first_ws(self.chars@, j as int),
            decreases self.chars@.len() - j,
        {
            j = j + 1;
        }
        j
    }

    fn find_quote(&self, i: usize) -> (r: usize)
        requires
            i <= self.chars@.len(),
        ensures
            r == first_quote(self.chars@, i as int),
    {
        let mut j = i;
        while j < self.chars.len() && self.chars[j] != '"'
            invariant
                i <= j <= self.chars@.len(),
                first_quote(self.chars@, i as int) == first_quote(self.chars@, j as int),
            decreases self.chars@.len() - j,
        {
            j = j + 1;
        }
        j
    }

    /// The next item: `None` once only whitespace is left, an error for an
    /// opening quote that is never closed (the position then stays where it
    /// was), and otherwise the command name first and arguments after it.
    pub fn next(&mut self) -> (r: Option<Result<LexItem, LexItemParseError>>)
        requires
            old(self).wf(),
        ensures
            final(self).wf(),
            final(self).source() == old(self).source(),
            match next_item(old(self).source(), old(self).position()) {
                None => r is None && final(self).position() == old(self).position()
                    && final(self).count() == old(self).count(),
                Some(Err(())) => r == Some(Err::<LexItem, LexItemParseError>(LexItemParseError::UnmatchedQuote))
                    && final(self).position() == old(self).position()
                    && final(self).count() == old(self).count(),
                Some(Ok((t, j))) => (r matches Some(Ok(it)) && item_is(it, old(self).count(), t))
                    && final(self).position() == j
                    && final(self).count() == old(self).count() + 1,
            },
    {
        proof {
            lemma_next_item_advances(self.chars@, self.pos as int);
            lemma_first_non_ws(self.chars@, self.pos as int);
        }
        let b = self.skip_ws(self.pos);
        if b >= self.chars.len() {
            return None;
        }
        let (start, end, next_pos) = if self.chars[b] == '"' {
            proof {
                lemma_first_quote(self.chars@, b + 1);
            }
            let q = self.find_quote(b + 1);
            if q >= self.chars.len() {
                return Some(Err(LexItemParseError::UnmatchedQuote));
            }
            (b + 1, q, q + 1)
        } else {
            proof {
                lemma_first_ws(self.chars@, b as int);
            }
            let w = self.find_ws(b);
            (b, w, w)
        };
        let text = string_of_range(&self.chars, start, end);
        let item = if self.idx == 0 {
            LexItem::CommandName(text)
        } else {
            LexItem::CommandArg(text)
        };
        self.pos = next_pos;
        self.idx = self.idx + 1;
        Some(Ok(item))
    }

    /// All the remaining items, or the error of the first item that fails.
    pub fn collect_items(&mut self) -> (r: Result<Vec<LexItem>, LexItemParseError>)
        requires
            old(self).wf(),
        ensures
            final(self).wf(),
            match items_from(old(self).source(), old(self).position()) {
                Err(()) => r == Err::<Vec<LexItem>, LexItemParseError>(LexItemParseError::UnmatchedQuote),
                Ok(ts) => r matches Ok(v) && v@.len() == ts.len() && forall|k: int|
                    0 <= k < ts.len() ==> item_is(#[trigger] v@[k], old(self).count() + k, ts[k]),
            },
    {
        let mut v: Vec<LexItem> = Vec::new();
        let ghost s = self.chars@;
        let ghost i0 = self.pos as int;
        let ghost c0 = self.idx as int;
        loop
            invariant
                self.wf(),
                self.source() == s,
                s == old(self).source(),
                i0 == old(self).position(),
                c0 == old(self).count(),
                i0 <= self.position() <= s.len(),
                self.count() == c0 + v@.len(),
                items_from(s, i0) == (match items_from(s, self.position()) {
                    Ok(rest) => Ok(seq_of_items(v@) + rest),
                    Err(()) => Err(()),
                }),
                forall|k: int| 0 <= k < v@.len() ==> item_is(#[trigger] v@[k], c0 + k, seq_of_items(v@)[k]),
            decreases s.len() - self.position(),
        {
            let ghost i = self.position();
            proof {
                lemma_next_item_advances(s, i);
            }
            match self.next() {
                None => {
                    proof {
                        assert(items_from(s, i) == Ok::<Seq<Seq<char>>, ()>(Seq::empty()));
                        assert(seq_of_items(v@) + Seq::<Seq<char>>::empty() =~= seq_of_items(v@));
                        assert(items_from(s, i0) == Ok::<Seq<Seq<char>>, ()>(seq_of_items(v@)));
                        assert(i0 == old(self).position());
                        assert(c0 == old(self).count());
                    }
                    return Ok(v);
                },
                Some(Err(e)) => {
                    proof {
                        assert(items_from(s, i) == Err::<Seq<Seq<char>>, ()>(()));
                        assert(items_from(s, i0) == Err::<Seq<Seq<char>>, ()>(()));
                        assert(i0 == old(self).position());
                    }
                    return Err(e);
                },
                Some(Ok(it)) => {
                    let ghost t = next_item(s, i)->Some_0->Ok_0.0;
                    let ghost old_v = v@;
                    v.push(it);
                    proof {
                        assert(item_text(it) == t);
                        assert(seq_of_items(v@) =~= seq_of_items(old_v).push(t)) by {
                            assert(v@.drop_last() =~= old_v);
                        }
                        match items_from(s, self.position()) {
                            Ok(rest) => {
                                assert(seq_of_items(old_v) + (seq![t] + rest) =~= seq_of_items(v@) + rest);
                            },
                            Err(()) => {},
                        }
                        assert forall|k: int| 0 <= k < v@.len() implies item_is(#[trigger] v@[k], c0 + k, seq_of_items(v@)[k]) by {
                            if k < old_v.len() {
                                assert(v@[k] == old_v[k]);
                                assert(seq_of_items(old_v)[k] == seq_of_items(v@)[k]);
                            }
                        }
                    }
                },
            }
        }
    }
}

/// The text of an item.
pub open spec fn item_text(it: LexItem) -> Seq<char> {
    match it {
        LexItem::CommandName(n) => n@,
        LexItem::CommandArg(a) => a@,
    }
}

/// The texts of a sequence of items.
pub open spec fn seq_of_items(v: Seq<LexItem>) -> Seq<Seq<char>> {
    v.map_values(|it: LexItem| item_text(it))
}

/// `char::is_whitespace`, written out over Unicode's `White_Space` property.
pub fn is_whitespace(c: char) -> (b: bool)
    ensures
        b == is_unicode_ws(c),
{
    let v = c as u32;
    (0x9 <= v && v <= 0xD) || v == 0x20 || v == 0x85 || v == 0xA0 || v == 0x1680 || (0x2000 <= v
        && v <= 0x200A) || v == 0x2028 || v == 0x2029 || v == 0x202F || v == 0x205F || v == 0x3000
}

} // verus!
