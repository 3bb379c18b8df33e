//! Identifiers (names of variables and functions), which follow camelCase:
//! `[a-z][a-zA-Z0-9]*`, and hold none of the language's keywords.

use vstd::prelude::*;
use crate::text::{chars_of, string_of_range};

verus! {

pub open spec fn is_lower(c: char) -> bool {
    'a' <= c && c <= 'z'
}

pub open spec fn is_alnum(c: char) -> bool {
    ('a' <= c && c <= 'z') || ('A' <= c && c <= 'Z') || ('0' <= c && c <= '9')
}

/// Whether `n` occurs in `h` as a contiguous piece.
pub open spec fn contains_seq(h: Seq<char>, n: Seq<char>) -> bool {
    exists|i: int| 0 <= i && i + n.len() <= h.len() && #[trigger] h.subrange(i, i + n.len()) == n
}

/// Whether `name` holds one of the keywords `if`, `then`, `else`, `true`, `false`.
pub open spec fn holds_keyword(name: Seq<char>) -> bool {
    ||| contains_seq(name, seq!['i', 'f'])
    ||| contains_seq(name, seq!['t', 'h', 'e', 'n'])
    ||| contains_seq(name, seq!['e', 'l', 's', 'e'])
    ||| contains_seq(name, seq!['t', 'r', 'u', 'e'])
    ||| contains_seq(name, seq!['f', 'a', 'l', 's', 'e'])
}

/// Length of the run of ASCII letters and digits at the start of `s[i..]`.
pub open spec fn alnum_run(s: Seq<char>, i: int) -> int
    decreases s.len() - i,
{
    if i < 0 || i >= s.len() || !is_alnum(s[i]) {
        0
    } else {
        1 + alnum_run(s, i + 1)
    }
}

/// Why the start of a text is not an identifier.
#[derive(Debug, PartialEq, Eq, Clone, Copy)]
pub enum IdentNameError {
    /// the text does not start with a lowercase ASCII letter
    NoLowercaseStart,
    /// the run of letters and digits holds a keyword
    HoldsKeyword,
}

/// What reading an identifier from the start of `s` gives: the name and the
/// rest of the text, or the error.
pub open spec fn spec_ident_name(s: Seq<char>) -> Result<(Seq<char>, Seq<char>), IdentNameError> {
    if s.len() == 0 || !is_lower(s[0]) {
        Err(IdentNameError::NoLowercaseStart)
    } else {
        let n = alnum_run(s, 0);
        if holds_keyword(s.take(n)) {
            Err(IdentNameError::HoldsKeyword)
        } else {
            Ok((s.take(n), s.skip(n)))
        }
    }
}

/// Whether the whole of `s` is one identifier.
pub open spec fn is_ident_name(s: Seq<char>) -> bool {
    spec_ident_name(s) matches Ok((_, rest)) && rest.len() == 0
}

pub proof fn lemma_alnum_run(s: Seq<char>, i: int)
    requires
        0 <= i <= s.len(),
    ensures
        0 <= alnum_run(s, i) <= s.len() - i,
        forall|k: int| i <= k < i + alnum_run(s, i) ==> is_alnum(#[trigger] s[k]),
        i + alnum_run(s, i) < s.len() ==> !is_alnum(s[i + alnum_run(s, i)]),
    decreases s.len() - i,
{
    if i < s.len() && is_alnum(s[i]) {
        lemma_alnum_run(s, i + 1);
    }
}

/// Reading an identifier takes the longest name at the start of the text: a
/// lowercase letter then letters and digits, holding no keyword; the name and
/// the rest spell out the text again. A text that does not start with a
/// lowercase letter gives no name.
pub proof fn law_ident_name_is_longest_name(s: Seq<char>)
    ensures
        spec_ident_name(s) == Err::<(Seq<char>, Seq<char>), IdentNameError>(IdentNameError::NoLowercaseStart)
            <==> (s.len() == 0 || !is_lower(s[0])),
        spec_ident_name(s) matches Ok((name, rest)) ==> {
            &&& name + rest == s
            &&& name.len() >= 1
            &&& is_lower(name[0])
            &&& forall|k: int| 0 <= k < name.len() ==> is_alnum(#[trigger] name[k])
            &&& rest.len() > 0 ==> !is_alnum(rest[0])
            &&& !holds_keyword(name)
        },
        spec_ident_name(s) is Err && s.len() > 0 && is_lower(s[0]) ==> holds_keyword(s.take(alnum_run(s, 0))),
{
    lemma_alnum_run(s, 0);
    if let Ok((name, rest)) = spec_ident_name(s) {
        assert(name + rest =~= s);
        assert(is_alnum(s[0]));
        assert forall|k: int| 0 <= k < name.len() implies is_alnum(#[trigger] name[k]) by {
            assert(name[k] == s[k]);
        }
        if rest.len() > 0 {
            assert(rest[0] == s[alnum_run(s, 0)]);
        }
    }
}

/// An identifier.
#[derive(Clone, Debug, PartialEq, Eq, Hash)]
pub struct IdentName(String);

impl View for IdentName {
    type V = Seq<char>;

    closed spec fn view(&self) -> Seq<char> {
        self.0@
    }
}

/// Whether `n` occurs in `h` at position `i`.
pub(crate) fn occurs_at(h: &Vec<char>, i: usize, n: &Vec<char>) -> (b: bool)
    requires
        i <= h@.len(),
    ensures
        b == (i + n@.len() <= h@.len() && h@.subrange(i as int, i + n@.len()) == n@),
{
    if n.len() > h.len() - i {
        return false;
    }
    let mut k: usize = 0;
    while k < n.len()
        invariant
            i + n@.len() <= h@.len(),
            h@.len() <= usize::MAX,
            k <= n@.len(),
            forall|j: int| 0 <= j < k ==> h@[i + j] == n@[j],
        decreases n@.len() - k,
    {
        if h[i + k] != n[k] {
            proof {
                assert(h@.subrange(i as int, i + n@.len())[k as int] != n@[k as int]);
            }
            return false;
        }
        k = k + 1;
    }
    proof {
        assert(h@.subrange(i as int, i + n@.len()) =~= n@);
    }
    true
}

/// Whether `n` occurs anywhere in `h`.
fn contains(h: &Vec<char>, n: &Vec<char>) -> (b: bool)
    ensures
        b == contains_seq(h@, n@),
{
    let mut i: usize = 0;
    while i < h.len()
        invariant
            i <= h@.len(),
            forall|j: int| 0 <= j < i ==> !(j + n@.len() <= h@.len() && #[trigger] h@.subrange(j, j + n@.len()) == n@),
        decreases h@.len() - i,
    {
        if occurs_at(h, i, n) {
            return true;
        }
        i = i + 1;
    }
    if occurs_at(h, i, n) {
        return true;
    }
    proof {
        assert forall|j: int| 0 <= j && j + n@.len() <= h@.len() implies #[trigger] h@.subrange(j, j + n@.len()) != n@ by {
            assert(j <= i);
        }
    }
    false
}

pub(crate) fn holds_keyword_exec(name: &Vec<char>) -> (b: bool)
    ensures
        b == holds_keyword(name@),
{
    let if_kw = vec!['i', 'f'];
    let then_kw = vec!['t', 'h', 'e', 'n'];
    let else_kw = vec!['e', 'l', 's', 'e'];
    let true_kw = vec!['t', 'r', 'u', 'e'];
    let false_kw = vec!['f', 'a', 'l', 's', 'e'];
    proof {
        assert(if_kw@ =~= seq!['i', 'f']);
        assert(then_kw@ =~= seq!['t', 'h', 'e', 'n']);
        assert(else_kw@ =~= seq!['e', 'l', 's', 'e']);
        assert(true_kw@ =~= seq!['t', 'r', 'u', 'e']);
        assert(false_kw@ =~= seq!['f', 'a', 'l', 's', 'e']);
    }
    contains(name, &if_kw) || contains(name, &then_kw) || contains(name, &else_kw) || contains(
        name,
        &true_kw,
    ) || contains(name, &false_kw)
}

impl IdentName {
    /// Reads an identifier from the start of `s`: a lowercase ASCII letter
    /// followed by ASCII letters and digits, as many as there are. Gives the
    /// rest of the text beside it.
    pub fn new(s: &str) -> (r: Result<(String, IdentName), IdentNameError>)
        ensures
            match spec_ident_name(s@) {
                Ok((name, rest)) => r matches Ok((rr, n)) && rr@ == rest && n@ == name,
                Err(e) => r == Err::<(String, IdentName), IdentNameError>(e),
            },
    {
        let cs = chars_of(s);
        if cs.len() == 0 || !('a' <= cs[0] && cs[0] <= 'z') {
            return Err(IdentNameError::NoLowercaseStart);
        }
        let mut n: usize = 0;
        while n < cs.len() && (('a' <= cs[n] && cs[n] <= 'z') || ('A' <= cs[n] && cs[n] <= 'Z') || (
        '0' <= cs[n] && cs[n] <= '9'))
            invariant
                n <= cs@.len(),
                alnum_run(cs@, 0) == n + alnum_run(cs@, n as int),
            decreases cs@.len() - n,
        {
            n = n + 1;
        }
        let name = string_of_range(&cs, 0, n);
        let name_chars = chars_of(name.as_str());
        proof {
            assert(cs@.subrange(0, n as int) =~= cs@.take(n as int));
        }
        if holds_keyword_exec(&name_chars) {
            return Err(IdentNameError::HoldsKeyword);
        }
        let rest = string_of_range(&cs, n, cs.len());
        proof {
            assert(cs@.subrange(n as int, cs@.len() as int) =~= cs@.skip(n as int));
        }
        Ok((rest, IdentName(name)))
    }

    /// The identifier that the whole of `s` is; `s` must be one.
    pub fn new_panicking(s: &str) -> (n: IdentName)
        requires
            is_ident_name(s@),
        ensures
            n@ == s@,
    {
        match IdentName::new(s) {
            Ok((_, n)) => {
                proof {
                    lemma_alnum_run(s@, 0);
                    let k = alnum_run(s@, 0);
                    assert(s@.take(k) =~= s@);
                }
                n
            },
            Err(_) => {
                proof {
                    assert(false);
                }
                IdentName(String::new())
            },
        }
    }

    /// The identifier made of `cs[from..to]`, which the caller has checked.
    pub(crate) fn from_range(cs: &Vec<char>, from: usize, to: usize) -> (n: IdentName)
        requires
            from <= to <= cs@.len(),
        ensures
            n@ == cs@.subrange(from as int, to as int),
    {
        IdentName(string_of_range(cs, from, to))
    }

    /// A copy of the identifier.
    pub fn duplicate(&self) -> (n: IdentName)
        ensures
            n@ == self@,
    {
        IdentName(self.0.clone())
    }

    /// Whether two identifiers are the same name.
    pub fn same(&self, other: &IdentName) -> (b: bool)
        ensures
            b == (self@ == other@),
    {
        self.0 == other.0
    }

    /// The identifier's text.
    pub fn as_str(&self) -> (s: &str)
        ensures
            s@ == self@,
    {
        self.0.as_str()
    }
}

} // verus!
