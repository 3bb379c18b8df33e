//! Splitting Fjord source text into lexemes.
//!
//! At every position the lexer takes the longest piece of text that forms a
//! token; where several kinds of token match the same longest piece, keywords
//! and single-character tokens win over digits, string literals and digits
//! win over atoms.

use vstd::prelude::*;
use crate::syntax_kind::SyntaxKind;
use crate::text::{utf8_len, utf8_width, lemma_utf8_len_take_step, lemma_utf8_len_prefix,
    char_utf8_width, string_of_range, chars_of};
use crate::text_range::TextRange;

verus! {

/// Characters that can appear unescaped in an atom.
pub open spec fn is_atom_char(c: char) -> bool {
    !(c == '\n' || c == '\r' || c == ' ' || c == '=' || c == '$' || c == '|' || c == '*'
        || c == '(' || c == ')' || c == '{' || c == '}')
}

/// Length of the longest atom starting at `i`: a run of atom characters and of
/// backslash-escaped spaces.
pub open spec fn atom_len(s: Seq<char>, i: int) -> int
    decreases s.len() - i,
{
    if i < 0 || i >= s.len() {
        0
    } else if s[i] == '\\' && i + 1 < s.len() && s[i + 1] == ' ' {
        2 + atom_len(s, i + 2)
    } else if is_atom_char(s[i]) {
        1 + atom_len(s, i + 1)
    } else {
        0
    }
}

/// Whether `c` belongs to the character class `class`: 0 for digits, 1 for
/// spaces, otherwise line ends.
pub open spec fn in_class(class: u8, c: char) -> bool {
    if class == 0 {
        is_digit(c)
    } else if class == 1 {
        is_space(c)
    } else {
        is_eol_char(c)
    }
}

/// Length of the run of characters of class `class` starting at `i`.
pub open spec fn run_len(s: Seq<char>, i: int, class: u8) -> int
    decreases s.len() - i,
{
    if i < 0 || i >= s.len() {
        0
    } else if in_class(class, s[i]) {
        1 + run_len(s, i + 1, class)
    } else {
        0
    }
}

pub open spec fn is_digit(c: char) -> bool {
    '0' <= c <= '9'
}

pub open spec fn is_space(c: char) -> bool {
    c == ' '
}

pub open spec fn is_eol_char(c: char) -> bool {
    c == '\n' || c == '\r'
}

/// Index of the first double quote at or after `j`, or -1 if there is none.
pub open spec fn next_quote(s: Seq<char>, j: int) -> int
    decreases s.len() - j,
{
    if j < 0 || j >= s.len() {
        -1
    } else if s[j] == '"' {
        j
    } else {
        next_quote(s, j + 1)
    }
}

/// Length of the string literal (quotes included) starting at `i`, or 0.
pub open spec fn string_len(s: Seq<char>, i: int) -> int {
    if 0 <= i < s.len() && s[i] == '"' && next_quote(s, i + 1) >= 0 {
        next_quote(s, i + 1) - i + 1
    } else {
        0
    }
}

/// The kind of a keyword or of a one-character operator that also reads as an atom.
pub open spec fn keyword_kind(t: Seq<char>) -> Option<SyntaxKind> {
    if t == seq!['l', 'e', 't'] {
        Some(SyntaxKind::Let)
    } else if t == seq!['i', 'f'] {
        Some(SyntaxKind::If)
    } else if t == seq!['r', 'e', 't', 'u', 'r', 'n'] {
        Some(SyntaxKind::Return)
    } else if t == seq!['t', 'r', 'u', 'e'] {
        Some(SyntaxKind::True)
    } else if t == seq!['f', 'a', 'l', 's', 'e'] {
        Some(SyntaxKind::False)
    } else if t == seq!['+'] {
        Some(SyntaxKind::Plus)
    } else if t == seq!['-'] {
        Some(SyntaxKind::Minus)
    } else if t == seq!['/'] {
        Some(SyntaxKind::Slash)
    } else {
        None
    }
}

/// The kind of a single character that cannot start an atom.
pub open spec fn punct_kind(c: char) -> SyntaxKind {
    if c == '=' {
        SyntaxKind::Equals
    } else if c == '$' {
        SyntaxKind::Dollar
    } else if c == '|' {
        SyntaxKind::Pipe
    } else if c == '*' {
        SyntaxKind::Star
    } else if c == '(' {
        SyntaxKind::LParen
    } else if c == ')' {
        SyntaxKind::RParen
    } else if c == '{' {
        SyntaxKind::LBrace
    } else if c == '}' {
        SyntaxKind::RBrace
    } else {
        SyntaxKind::Error
    }
}

/// The kind and the length (in characters) of the lexeme starting at `i`.
pub open spec fn token_at(s: Seq<char>, i: int) -> (SyntaxKind, int) {
    let a = atom_len(s, i);
    let q = string_len(s, i);
    if q > 0 && q >= a {
        (SyntaxKind::StringLiteral, q)
    } else if a > 0 {
        match keyword_kind(s.subrange(i, i + a)) {
            Some(k) => (k, a),
            None => if run_len(s, i, 0) == a {
                (SyntaxKind::Digits, a)
            } else {
                (SyntaxKind::Atom, a)
            },
        }
    } else if s[i] == ' ' {
        (SyntaxKind::Whitespace, run_len(s, i, 1))
    } else if is_eol_char(s[i]) {
        (SyntaxKind::Eol, run_len(s, i, 2))
    } else {
        (punct_kind(s[i]), 1)
    }
}

/// All lexemes of `s` from character `i` on, as (kind, start, end) in characters.
pub open spec fn lex_from(s: Seq<char>, i: int) -> Seq<(SyntaxKind, int, int)>
    decreases s.len() - i,
{
    if i < 0 || i >= s.len() {
        Seq::empty()
    } else {
        let n = token_at(s, i).1;
        if 1 <= n && i + n <= s.len() {
            seq![(token_at(s, i).0, i, i + n)] + lex_from(s, i + n)
        } else {
            Seq::empty()
        }
    }
}

/// All lexemes of `s`, as (kind, start, end) in characters.
pub open spec fn lex_spec(s: Seq<char>) -> Seq<(SyntaxKind, int, int)> {
    lex_from(s, 0)
}

pub proof fn lemma_atom_len_bounds(s: Seq<char>, i: int)
    requires
        0 <= i <= s.len(),
    ensures
        0 <= atom_len(s, i) <= s.len() - i,
    decreases s.len() - i,
{
    if i < s.len() {
        if s[i] == '\\' && i + 1 < s.len() && s[i + 1] == ' ' {
            lemma_atom_len_bounds(s, i + 2);
        } else if is_atom_char(s[i]) {
            lemma_atom_len_bounds(s, i + 1);
        }
    }
}

pub proof fn lemma_run_len_bounds(s: Seq<char>, i: int, class: u8)
    requires
        0 <= i <= s.len(),
    ensures
        0 <= run_len(s, i, class) <= s.len() - i,
        i < s.len() && in_class(class, s[i]) ==> run_len(s, i, class) >= 1,
    decreases s.len() - i,
{
    if i < s.len() && in_class(class, s[i]) {
        lemma_run_len_bounds(s, i + 1, class);
    }
}

pub proof fn lemma_next_quote(s: Seq<char>, j: int)
    requires
        0 <= j <= s.len(),
    ensures
        next_quote(s, j) == -1 || (j <= next_quote(s, j) < s.len() && s[next_quote(s, j)] == '"'),
    decreases s.len() - j,
{
    if j < s.len() && s[j] != '"' {
        lemma_next_quote(s, j + 1);
    }
}

/// A run of class `class` is made of characters of that class, and stops at
/// the end of the text or at a character of another class.
pub proof fn lemma_run_len_chars(s: Seq<char>, i: int, class: u8)
    requires
        0 <= i <= s.len(),
    ensures
        forall|k: int| i <= k < i + run_len(s, i, class) ==> in_class(class, #[trigger] s[k]),
        i + run_len(s, i, class) < s.len() ==> !in_class(class, s[i + run_len(s, i, class)]),
    decreases s.len() - i,
{
    lemma_run_len_bounds(s, i, class);
    if i < s.len() && in_class(class, s[i]) {
        lemma_run_len_chars(s, i + 1, class);
    }
}

/// Digits are atom characters, so a run of digits lies within the atom that
/// starts where it does.
proof fn lemma_digits_within_atom(s: Seq<char>, i: int)
    requires
        0 <= i <= s.len(),
    ensures
        run_len(s, i, 0) <= atom_len(s, i),
    decreases s.len() - i,
{
    lemma_atom_len_bounds(s, i);
    if i < s.len() && is_digit(s[i]) {
        lemma_digits_within_atom(s, i + 1);
    }
}

/// A `Digits` lexeme holds nothing but ASCII digits, and an `Atom` lexeme
/// holds at least one character that is not one (so `1.txt` is an atom).
pub proof fn law_digits_lexemes_are_all_digits(s: Seq<char>, i: int)
    requires
        0 <= i < s.len(),
    ensures
        token_at(s, i).0 == SyntaxKind::Digits
            ==> forall|k: int| i <= k < i + token_at(s, i).1 ==> is_digit(#[trigger] s[k]),
        token_at(s, i).0 == SyntaxKind::Atom
            ==> exists|k: int| i <= k < i + token_at(s, i).1 && !is_digit(#[trigger] s[k]),
{
    lemma_run_len_bounds(s, i, 0);
    lemma_run_len_chars(s, i, 0);
    lemma_digits_within_atom(s, i);
    lemma_atom_len_bounds(s, i);
    let a = atom_len(s, i);
    let r = run_len(s, i, 0);
    if token_at(s, i).0 == SyntaxKind::Atom {
        assert(token_at(s, i).1 == a);
        assert(r < a);
        assert(i + r < s.len());
        assert(!is_digit(s[i + r]));
        assert(i <= i + r < i + token_at(s, i).1);
    }
}

/// The quote that `next_quote` finds is the first one from `j` on.
proof fn lemma_next_quote_first(s: Seq<char>, j: int)
    requires
        0 <= j <= s.len(),
    ensures
        next_quote(s, j) >= 0 ==> forall|k: int| j <= k < next_quote(s, j) ==> #[trigger] s[k] != '"',
        next_quote(s, j) < 0 ==> forall|k: int| j <= k < s.len() ==> #[trigger] s[k] != '"',
    decreases s.len() - j,
{
    if j < s.len() && s[j] != '"' {
        lemma_next_quote_first(s, j + 1);
    }
}

/// What the lexeme at `i` is made of, by its kind: whitespace is a longest
/// run of spaces, a line end a longest run of `\n` and `\r`, and a string
/// literal runs from a double quote to the next one, with none between.
pub proof fn law_lexeme_contents(s: Seq<char>, i: int)
    requires
        0 <= i < s.len(),
    ensures
        ({
            let (k, n) = token_at(s, i);
            &&& k == SyntaxKind::Whitespace ==> {
                &&& forall|j: int| i <= j < i + n ==> #[trigger] s[j] == ' '
                &&& i + n < s.len() ==> s[i + n] != ' '
            }
            &&& k == SyntaxKind::Eol ==> {
                &&& forall|j: int| i <= j < i + n ==> is_eol_char(#[trigger] s[j])
                &&& i + n < s.len() ==> !is_eol_char(s[i + n])
            }
            &&& k == SyntaxKind::StringLiteral ==> {
                &&& n >= 2
                &&& s[i] == '"'
                &&& s[i + n - 1] == '"'
                &&& forall|j: int| i < j < i + n - 1 ==> #[trigger] s[j] != '"'
            }
        }),
{
    lemma_run_len_bounds(s, i, 1);
    lemma_run_len_bounds(s, i, 2);
    lemma_run_len_chars(s, i, 1);
    lemma_run_len_chars(s, i, 2);
    lemma_next_quote(s, i + 1);
    lemma_next_quote_first(s, i + 1);
    lemma_token_at_bounds(s, i);
}

/// Every lexeme is nonempty and lies within the text.
pub proof fn lemma_token_at_bounds(s: Seq<char>, i: int)
    requires
        0 <= i < s.len(),
    ensures
        1 <= token_at(s, i).1 <= s.len() - i,
{
    lemma_atom_len_bounds(s, i);
    lemma_next_quote(s, i + 1);
    lemma_run_len_bounds(s, i, 1);
    lemma_run_len_bounds(s, i, 2);
}

/// The lexemes from `i` on are contiguous and cover the text from `i` to its end.
pub proof fn lemma_lex_from_covers(s: Seq<char>, i: int)
    requires
        0 <= i <= s.len(),
    ensures
        forall|k: int| 0 <= k < lex_from(s, i).len() ==> {
            let l = #[trigger] lex_from(s, i)[k];
            &&& l.1 < l.2
            &&& (k == 0 ==> l.1 == i)
            &&& (k + 1 < lex_from(s, i).len() ==> l.2 == lex_from(s, i)[k + 1].1)
            &&& (k + 1 == lex_from(s, i).len() ==> l.2 == s.len())
            &&& l.0 == token_at(s, l.1).0
            &&& l.2 - l.1 == token_at(s, l.1).1
        },
        lex_from(s, i).len() == 0 <==> i == s.len(),
    decreases s.len() - i,
{
    if i < s.len() {
        lemma_token_at_bounds(s, i);
        let n = token_at(s, i).1;
        lemma_lex_from_covers(s, i + n);
        let rest = lex_from(s, i + n);
        assert forall|k: int| 0 <= k < lex_from(s, i).len() implies {
            let l = #[trigger] lex_from(s, i)[k];
            &&& l.1 < l.2
            &&& (k == 0 ==> l.1 == i)
            &&& (k + 1 < lex_from(s, i).len() ==> l.2 == lex_from(s, i)[k + 1].1)
            &&& (k + 1 == lex_from(s, i).len() ==> l.2 == s.len())
            &&& l.0 == token_at(s, l.1).0
            &&& l.2 - l.1 == token_at(s, l.1).1
        } by {
            if k > 0 {
                assert(lex_from(s, i)[k] == rest[k - 1]);
            }
            if k + 1 < lex_from(s, i).len() {
                assert(lex_from(s, i)[k + 1] == rest[k]);
            }
        }
    }
}

/// A lexeme: a piece of source text together with its kind and its range in bytes.
#[derive(Debug, Clone, PartialEq, Eq)]
pub struct Lexeme {
    pub kind: SyntaxKind,
    pub text: String,
    pub range: TextRange,
}

/// Splits source text into lexemes, one at a time.
pub struct Lexer {
    chars: Vec<char>,
    pos: usize,
    byte_pos: u32,
    last_start: usize,
}

impl Lexer {
    /// The characters of the source text.
    pub closed spec fn source(&self) -> Seq<char> {
        self.chars@
    }

    /// The character position up to which the text has been lexed.
    pub closed spec fn position(&self) -> int {
        self.pos as int
    }

    /// Start of the lexeme last returned by `next` (its end is `position()`).
    pub closed spec fn last_start(&self) -> int {
        self.last_start as int
    }

    pub closed spec fn wf(&self) -> bool {
        &&& self.last_start <= self.pos <= self.chars@.len()
        &&& utf8_len(self.chars@) <= u32::MAX
        &&& self.byte_pos == utf8_len(self.chars@.take(self.pos as int))
    }

    /// A lexer at the start of `input`, whose UTF-8 length must fit in 32 bits.
    pub fn new(input: &str) -> (l: Lexer)
        requires
            utf8_len(input@) <= u32::MAX,
        ensures
            l.wf(),
            l.source() == input@,
            l.position() == 0,
            l.last_start() == 0,
    {
        let chars = chars_of(input);
        proof {
            assert(chars@.take(0) =~= Seq::<char>::empty());
        }
        Lexer { chars, pos: 0, byte_pos: 0, last_start: 0 }
    }

    fn atom_len_at(&self, i: usize) -> (n: usize)
        requires
            i <= self.chars@.len(),
        ensures
            n == atom_len(self.chars@, i as int),
    {
        let s = &self.chars;
        let len = s.len();
        let mut j = i;
        proof {
            lemma_atom_len_bounds(s@, i as int);
        }
        while j < len
            invariant
                len == s@.len(),
                i <= j <= len,
                atom_len(s@, i as int) == (j - i) + atom_len(s@, j as int),
            ensures
                i <= j <= len,
                atom_len(s@, i as int) == (j - i),
            decreases len - j,
        {
            let c = s[j];
            if c == '\\' && j + 1 < len && s[j + 1] == ' ' {
                j = j + 2;
            } else if !(c == '\n' || c == '\r' || c == ' ' || c == '=' || c == '$' || c == '|'
                || c == '*' || c == '(' || c == ')' || c == '{' || c == '}') {
                j = j + 1;
            } else {
                break;
            }
        }
        j - i
    }

    fn run_len_at(&self, i: usize, which: u8) -> (n: usize)
        requires
            i <= self.chars@.len(),
        ensures
            n == run_len(self.chars@, i as int, which),
    {
        let s = &self.chars;
        let len = s.len();
        let mut j = i;
        while j < len
            invariant
                len == s@.len(),
                i <= j <= len,
                run_len(s@, i as int, which) == (j - i) + run_len(s@, j as int, which),
            ensures
                i <= j <= len,
                run_len(s@, i as int, which) == (j - i),
            decreases len - j,
        {
            let c = s[j];
            let ok = if which == 0 {
                '0' <= c && c <= '9'
            } else if which == 1 {
                c == ' '
            } else {
                c == '\n' || c == '\r'
            };
            if ok {
                j = j + 1;
            } else {
                break;
            }
        }
        j - i
    }

    fn string_len_at(&self, i: usize) -> (n: usize)
        requires
            i < self.chars@.len(),
        ensures
            n == string_len(self.chars@, i as int),
    {
        let s = &self.chars;
        let len = s.len();
        if s[i] != '"' {
            return 0;
        }
        let mut j = i + 1;
        while j < len
            invariant
                len == s@.len(),
                i + 1 <= j <= len,
                i < len,
                s@ == self.chars@,
                s@[i as int] == '"',
                next_quote(s@, i + 1) == next_quote(s@, j as int),
            decreases len - j,
        {
            if s[j] == '"' {
                proof {
                    assert(next_quote(s@, j as int) == j);
                    assert(string_len(self.chars@, i as int) == j - i + 1);
                }
                return j - i + 1;
            }
            j = j + 1;
        }
        0
    }

    fn matches_at(&self, i: usize, n: usize, word: &str) -> (b: bool)
        requires
            i + n <= self.chars@.len(),
        ensures
            b == (self.chars@.subrange(i as int, i + n) == word@),
    {
        let w = chars_of(word);
        if w.len() != n {
            proof {
                assert(self.chars@.subrange(i as int, i + n).len() != word@.len());
            }
            return false;
        }
        let len = self.chars.len();
        let mut k: usize = 0;
        while k < n
            invariant
                len == self.chars@.len(),
                i + n <= self.chars@.len(),
                w@ == word@,
                w@.len() == n,
                k <= n,
                forall|m: int| 0 <= m < k ==> self.chars@[i + m] == w@[m],
            decreases n - k,
        {
            if self.chars[i + k] != w[k] {
                proof {
                    assert(self.chars@.subrange(i as int, i + n)[k as int] != word@[k as int]);
                }
                return false;
            }
            k = k + 1;
        }
        proof {
            assert(self.chars@.subrange(i as int, i + n) =~= word@);
        }
        true
    }

    fn keyword_at(&self, i: usize, n: usize) -> (k: Option<SyntaxKind>)
        requires
            i + n <= self.chars@.len(),
        ensures
            k == keyword_kind(self.chars@.subrange(i as int, i + n)),
    {
        proof {
            reveal_strlit("let");
            reveal_strlit("if");
            reveal_strlit("return");
            reveal_strlit("true");
            reveal_strlit("false");
            reveal_strlit("+");
            reveal_strlit("-");
            reveal_strlit("/");
        }
        let ghost t = self.chars@.subrange(i as int, i + n);
        proof {
            assert("let"@ =~= seq!['l', 'e', 't']);
            assert("if"@ =~= seq!['i', 'f']);
            assert("return"@ =~= seq!['r', 'e', 't', 'u', 'r', 'n']);
            assert("true"@ =~= seq!['t', 'r', 'u', 'e']);
            assert("false"@ =~= seq!['f', 'a', 'l', 's', 'e']);
            assert("+"@ =~= seq!['+']);
            assert("-"@ =~= seq!['-']);
            assert("/"@ =~= seq!['/']);
        }
        if self.matches_at(i, n, "let") {
            proof { assert(t =~= seq!['l', 'e', 't']); }
            Some(SyntaxKind::Let)
        } else if self.matches_at(i, n, "if") {
            proof {
                assert(t != seq!['l', 'e', 't']);
                assert(t =~= seq!['i', 'f']);
            }
            Some(SyntaxKind::If)
        } else if self.matches_at(i, n, "return") {
            proof { assert(t =~= seq!['r', 'e', 't', 'u', 'r', 'n']); }
            Some(SyntaxKind::Return)
        } else if self.matches_at(i, n, "true") {
            proof { assert(t =~= seq!['t', 'r', 'u', 'e']); }
            Some(SyntaxKind::True)
        } else if self.matches_at(i, n, "false") {
            proof { assert(t =~= seq!['f', 'a', 'l', 's', 'e']); }
            Some(SyntaxKind::False)
        } else if self.matches_at(i, n, "+") {
            proof { assert(t =~= seq!['+']); }
            Some(SyntaxKind::Plus)
        } else if self.matches_at(i, n, "-") {
            proof { assert(t =~= seq!['-']); }
            Some(SyntaxKind::Minus)
        } else if self.matches_at(i, n, "/") {
            proof { assert(t =~= seq!['/']); }
            Some(SyntaxKind::Slash)
        } else {
            proof {
                assert(t != seq!['l', 'e', 't']);
                assert(t != seq!['i', 'f']);
                assert(t != seq!['r', 'e', 't', 'u', 'r', 'n']);
                assert(t != seq!['t', 'r', 'u', 'e']);
                assert(t != seq!['f', 'a', 'l', 's', 'e']);
                assert(t != seq!['+']);
                assert(t != seq!['-']);
                assert(t != seq!['/']);
            }
            None
        }
    }

    /// The kind and length of the lexeme at character `i`.
    fn token_at_exec(&self, i: usize) -> (r: (SyntaxKind, usize))
        requires
            i < self.chars@.len(),
        ensures
            r.0 == token_at(self.chars@, i as int).0,
            r.1 == token_at(self.chars@, i as int).1,
    {
        let a = self.atom_len_at(i);
        let q = self.string_len_at(i);
        proof {
            lemma_atom_len_bounds(self.chars@, i as int);
        }
        if q > 0 && q >= a {
            (SyntaxKind::StringLiteral, q)
        } else if a > 0 {
            match self.keyword_at(i, a) {
                Some(k) => (k, a),
                None => {
                    if self.run_len_at(i, 0) == a {
                        (SyntaxKind::Digits, a)
                    } else {
                        (SyntaxKind::Atom, a)
                    }
                },
            }
        } else {
            let c = self.chars[i];
            if c == ' ' {
                (SyntaxKind::Whitespace, self.run_len_at(i, 1))
            } else if c == '\n' || c == '\r' {
                (SyntaxKind::Eol, self.run_len_at(i, 2))
            } else {
                let k = if c == '=' {
                    SyntaxKind::Equals
                } else if c == '$' {
                    SyntaxKind::Dollar
                } else if c == '|' {
                    SyntaxKind::Pipe
                } else if c == '*' {
                    SyntaxKind::Star
                } else if c == '(' {
                    SyntaxKind::LParen
                } else if c == ')' {
                    SyntaxKind::RParen
                } else if c == '{' {
                    SyntaxKind::LBrace
                } else if c == '}' {
                    SyntaxKind::RBrace
                } else {
                    SyntaxKind::Error
                };
                (k, 1)
            }
        }
    }

    /// The next lexeme, or `None` once all the text has been lexed.
    pub fn next(&mut self) -> (r: Option<Lexeme>)
        requires
            old(self).wf(),
        ensures
            final(self).wf(),
            final(self).source() == old(self).source(),
            old(self).position() == old(self).source().len() ==> {
                &&& r is None
                &&& final(self).position() == old(self).position()
                &&& final(self).last_start() == old(self).last_start()
            },
            old(self).position() < old(self).source().len() ==> {
                let s = old(self).source();
                let i = old(self).position();
                let (kind, n) = token_at(s, i);
                &&& r matches Some(l)
                &&& l.kind == kind
                &&& l.text@ == s.subrange(i, i + n)
                &&& l.range.start == utf8_len(s.take(i))
                &&& l.range.end == utf8_len(s.take(i + n))
                &&& final(self).position() == i + n
                &&& final(self).last_start() == i
            },
    {
        if self.pos >= self.chars.len() {
            return None;
        }
        let i = self.pos;
        let (kind, n) = self.token_at_exec(i);
        proof {
            lemma_token_at_bounds(self.chars@, i as int);
        }
        let text = string_of_range(&self.chars, i, i + n);
        let start = self.byte_pos;
        let mut end = self.byte_pos;
        let mut j = i;
        let stop = i + n;
        while j < stop
            invariant
                stop == i + n,
                i <= j <= i + n <= self.chars@.len(),
                utf8_len(self.chars@) <= u32::MAX,
                end == utf8_len(self.chars@.take(j as int)),
                start <= end,
            decreases stop - j,
        {
            proof {
                lemma_utf8_len_take_step(self.chars@, j as int);
                lemma_utf8_len_prefix(self.chars@, j + 1);
            }
            end = end + char_utf8_width(self.chars[j]);
            j = j + 1;
        }
        self.pos = i + n;
        self.byte_pos = end;
        self.last_start = i;
        Some(Lexeme { kind, text, range: TextRange::new(start, end) })
    }

    /// The text of the lexeme last returned by `next`.
    pub fn slice(&self) -> (s: String)
        requires
            self.wf(),
        ensures
            s@ == self.source().subrange(self.last_start(), self.position()),
    {
        string_of_range(&self.chars, self.last_start, self.pos)
    }
}

/// All the lexemes of `input`, in order.
pub fn lex(input: &str) -> (r: Vec<Lexeme>)
    requires
        utf8_len(input@) <= u32::MAX,
    ensures
        r@.len() == lex_spec(input@).len(),
        forall|k: int| 0 <= k < r@.len() ==> {
            let (kind, start, end) = #[trigger] lex_spec(input@)[k];
            &&& r@[k].kind == kind
            &&& r@[k].text@ == input@.subrange(start, end)
            &&& r@[k].range.start == utf8_len(input@.take(start))
            &&& r@[k].range.end == utf8_len(input@.take(end))
        },
{
    let mut lexer = Lexer::new(input);
    let mut r: Vec<Lexeme> = Vec::new();
    let ghost s = input@;
    proof {
        lemma_lex_from_covers(s, 0);
    }
    loop
        invariant
            lexer.wf(),
            lexer.source() == s,
            0 <= lexer.position() <= s.len(),
            r@.len() <= lex_spec(s).len(),
            lex_spec(s) =~= lex_spec(s).take(r@.len() as int) + lex_from(s, lexer.position()),
            forall|k: int| 0 <= k < r@.len() ==> {
                let (kind, start, end) = #[trigger] lex_spec(s)[k];
                &&& r@[k].kind == kind
                &&& r@[k].text@ == s.subrange(start, end)
                &&& r@[k].range.start == utf8_len(s.take(start))
                &&& r@[k].range.end == utf8_len(s.take(end))
            },
        ensures
            r@.len() == lex_spec(s).len(),
            forall|k: int| 0 <= k < r@.len() ==> {
                let (kind, start, end) = #[trigger] lex_spec(s)[k];
                &&& r@[k].kind == kind
                &&& r@[k].text@ == s.subrange(start, end)
                &&& r@[k].range.start == utf8_len(s.take(start))
                &&& r@[k].range.end == utf8_len(s.take(end))
            },
        decreases s.len() - lexer.position(),
    {
        let ghost i = lexer.position();
        let ghost old_r = r@;
        match lexer.next() {
            None => {
                proof {
                    assert(lex_from(s, i) =~= Seq::<(SyntaxKind, int, int)>::empty());
                    assert(lex_spec(s).take(r@.len() as int) =~= lex_spec(s));
                    assert(r@.len() == lex_spec(s).len());
                }
                break;
            },
            Some(l) => {
                proof {
                    lemma_token_at_bounds(s, i);
                    let n = token_at(s, i).1;
                    let tail = lex_from(s, i + n);
                    assert(lex_from(s, i) =~= seq![(token_at(s, i).0, i, i + n)] + tail);
                    assert(lex_spec(s)[old_r.len() as int] == (token_at(s, i).0, i, i + n));
                    assert(lex_spec(s).take(old_r.len() as int + 1) =~= lex_spec(s).take(old_r.len() as int).push((token_at(s, i).0, i, i + n)));
                }
                r.push(l);
            },
        }
    }
    r
}

} // verus!
