//! Raw tokenizer: splits source bytes into keywords, identifiers, literals.
//!
//! The tokenizer is parameterised by a set of keywords. Between tokens it skips
//! ASCII whitespace and line comments (`//` up to and including the next
//! newline). At a token start it decides, on the first byte:
//! - `"`: a string literal, up to and including the closing `"`;
//! - a decimal digit other than `0`: a run of decimal digits;
//! - an ASCII letter, digit or `_`: a word, which is a keyword if it is one,
//!   a literal if it is all digits or `0x` followed by hex digits, and an
//!   identifier otherwise;
//! - anything else: the longest keyword made of bytes that are neither ASCII
//!   letters, digits nor whitespace (maximal munch), or the unexpected byte.
use crate::span::Span;
use vstd::prelude::*;
use vstd::string::StringSliceAdditionalSpecFns;

verus! {

/// ASCII whitespace (as `u8::is_ascii_whitespace`).
pub open spec fn is_ws(b: u8) -> bool {
    b == 32 || b == 9 || b == 10 || b == 12 || b == 13
}

/// ASCII decimal digit.
pub open spec fn is_digit(b: u8) -> bool {
    48 <= b <= 57
}

/// ASCII letter.
pub open spec fn is_alpha(b: u8) -> bool {
    (65 <= b <= 90) || (97 <= b <= 122)
}

/// ASCII letter or digit.
pub open spec fn is_alnum(b: u8) -> bool {
    is_digit(b) || is_alpha(b)
}

/// Byte that may appear in a word (identifier, alphanumeric keyword, literal).
pub open spec fn is_word(b: u8) -> bool {
    is_alnum(b) || b == 95
}

/// ASCII hexadecimal digit.
pub open spec fn is_hex(b: u8) -> bool {
    is_digit(b) || (97 <= b <= 102) || (65 <= b <= 70)
}

/// A line comment starts at `p`.
pub open spec fn starts_comment(s: Seq<u8>, p: int) -> bool {
    0 <= p && p + 1 < s.len() && s[p] == 47 && s[p + 1] == 47
}

/// Position just after the first newline at or after `p`, or the end of `s`.
pub open spec fn line_end(s: Seq<u8>, p: int) -> int
    decreases s.len() - p,
{
    if p < 0 || p >= s.len() {
        s.len() as int
    } else if s[p] == 10 {
        p + 1
    } else {
        line_end(s, p + 1)
    }
}

pub proof fn lemma_line_end(s: Seq<u8>, p: int)
    requires
        0 <= p < s.len(),
    ensures
        p < line_end(s, p) <= s.len(),
    decreases s.len() - p,
{
    if s[p] != 10 {
        if p + 1 < s.len() {
            lemma_line_end(s, p + 1);
        } else {
            assert(line_end(s, p + 1) == s.len());
        }
    }
}

/// First position at or after `p` that is neither whitespace nor inside a
/// line comment.
pub open spec fn skip_trivia(s: Seq<u8>, p: int) -> int
    decreases s.len() - p,
{
    if 0 <= p < s.len() && is_ws(s[p]) {
        skip_trivia(s, p + 1)
    } else if starts_comment(s, p) {
        proof {
            lemma_line_end(s, p);
        }
        skip_trivia(s, line_end(s, p))
    } else {
        p
    }
}

/// `[line, column]` of byte position `p`.
pub open spec fn cursor_at(s: Seq<u8>, p: int) -> (int, int)
    decreases p,
{
    if p <= 0 {
        (0, 0)
    } else {
        let c = cursor_at(s, p - 1);
        if s[p - 1] == 10 {
            (c.0 + 1, 0)
        } else {
            (c.0, c.1 + 1)
        }
    }
}

pub proof fn lemma_cursor_bounds(s: Seq<u8>, p: int)
    requires
        0 <= p,
    ensures
        0 <= cursor_at(s, p).0 <= p,
        0 <= cursor_at(s, p).1 <= p,
    decreases p,
{
    if p > 0 {
        lemma_cursor_bounds(s, p - 1);
    }
}

/// Position of the first `"` at or after `p`.
pub open spec fn find_quote(s: Seq<u8>, p: int) -> Option<int>
    decreases s.len() - p,
{
    if p < 0 || p >= s.len() {
        None
    } else if s[p] == 34 {
        Some(p)
    } else {
        find_quote(s, p + 1)
    }
}

pub proof fn lemma_find_quote(s: Seq<u8>, p: int)
    requires
        find_quote(s, p) is Some,
    ensures
        0 <= p <= find_quote(s, p)->0 < s.len(),
        s[find_quote(s, p)->0] == 34,
    decreases s.len() - p,
{
    if s[p] != 34 {
        lemma_find_quote(s, p + 1);
    }
}

/// End of the run of decimal digits starting at `p`.
pub open spec fn digits_end(s: Seq<u8>, p: int) -> int
    decreases s.len() - p,
{
    if 0 <= p < s.len() && is_digit(s[p]) {
        digits_end(s, p + 1)
    } else {
        p
    }
}

/// End of the run of word bytes starting at `p`.
pub open spec fn word_end(s: Seq<u8>, p: int) -> int
    decreases s.len() - p,
{
    if 0 <= p < s.len() && is_word(s[p]) {
        word_end(s, p + 1)
    } else {
        p
    }
}

pub proof fn lemma_run_ends(s: Seq<u8>, p: int)
    requires
        0 <= p <= s.len(),
    ensures
        p <= digits_end(s, p) <= s.len(),
        p <= word_end(s, p) <= s.len(),
    decreases s.len() - p,
{
    if p < s.len() {
        lemma_run_ends(s, p + 1);
    }
}

/// A word that reads as a numeric literal: decimal digits, or `0x` and hex digits.
pub open spec fn is_numeric_word(w: Seq<u8>) -> bool {
    (forall|i: int| 0 <= i < w.len() ==> is_digit(#[trigger] w[i])) || (w.len() >= 2 && w[0]
        == 48 && w[1] == 120 && forall|i: int| 2 <= i < w.len() ==> is_hex(#[trigger] w[i]))
}

/// `s[q..k]` is a keyword made of bytes that are neither letters, digits nor whitespace.
pub open spec fn is_kw_match(s: Seq<u8>, kws: Seq<Seq<u8>>, q: int, k: int) -> bool {
    &&& 0 <= q < k <= s.len()
    &&& kws.contains(s.subrange(q, k))
    &&& forall|i: int| q <= i < k ==> !is_alnum(#[trigger] s[i]) && !is_ws(s[i])
}

/// `w` is a prefix of some keyword.
pub open spec fn is_kw_prefix(kws: Seq<Seq<u8>>, w: Seq<u8>) -> bool {
    exists|i: int|
        0 <= i < kws.len() && w.len() <= kws[i].len() && #[trigger] kws[i].subrange(0, w.len() as int)
            == w
}

/// Emitted tokens.
#[derive(Debug, Clone, Copy, PartialEq, Eq)]
pub enum RawToken<'a> {
    /// Tokenized keyword.
    Keyword(&'a [u8]),
    /// Tokenized identifier.
    Ident(&'a [u8]),
    /// Literal: quoted string or numeric value.
    Lit(&'a [u8]),
    /// Unexpected byte.
    Unexpected(u8),
    /// End of file.
    Eof,
}

/// A token together with its location.
pub type RawTokenSpan<'a> = (RawToken<'a>, Span);

/// The token that starts at `q` (a position after trivia) and ends at `end`.
pub open spec fn lexed(s: Seq<u8>, kws: Seq<Seq<u8>>, q: int, tok: RawToken, end: int) -> bool {
    if q >= s.len() {
        tok == RawToken::Eof && end == q
    } else if s[q] == 34 {
        &&& find_quote(s, q + 1) matches Some(j)
        &&& end == j + 1
        &&& tok matches RawToken::Lit(t) && t@ == s.subrange(q, end)
    } else if is_digit(s[q]) && s[q] != 48 {
        &&& end == digits_end(s, q)
        &&& tok matches RawToken::Lit(t) && t@ == s.subrange(q, end)
    } else if is_word(s[q]) {
        let w = s.subrange(q, word_end(s, q));
        &&& end == word_end(s, q)
        &&& if kws.contains(w) {
            tok matches RawToken::Keyword(t) && t@ == w
        } else if is_numeric_word(w) {
            tok matches RawToken::Lit(t) && t@ == w
        } else {
            tok matches RawToken::Ident(t) && t@ == w
        }
    } else if exists|k: int| is_kw_match(s, kws, q, k) {
        &&& is_kw_match(s, kws, q, end)
        &&& forall|k: int| is_kw_match(s, kws, q, k) ==> k <= end
        &&& tok matches RawToken::Keyword(t) && t@ == s.subrange(q, end)
    } else {
        &&& end == q + 1
        &&& tok == RawToken::Unexpected(s[q])
    }
}

impl RawToken<'_> {
    pub fn is_kword(&self) -> (r: bool)
        ensures
            r == (self is Keyword),
    {
        matches!(self, RawToken::Keyword(_))
    }

    pub fn is_ident(&self) -> (r: bool)
        ensures
            r == (self is Ident),
    {
        matches!(self, RawToken::Ident(_))
    }

    pub fn is_lit(&self) -> (r: bool)
        ensures
            r == (self is Lit),
    {
        matches!(self, RawToken::Lit(_))
    }

    pub fn is_unexpected(&self) -> (r: bool)
        ensures
            r == (self is Unexpected),
    {
        matches!(self, RawToken::Unexpected(_))
    }

    pub fn is_eof(&self) -> (r: bool)
        ensures
            r == (self is Eof),
    {
        matches!(self, RawToken::Eof)
    }
}

fn is_ws_byte(b: u8) -> (r: bool)
    ensures
        r == is_ws(b),
{
    b == 32 || b == 9 || b == 10 || b == 12 || b == 13
}

fn is_digit_byte(b: u8) -> (r: bool)
    ensures
        r == is_digit(b),
{
    48 <= b && b <= 57
}

fn is_alnum_byte(b: u8) -> (r: bool)
    ensures
        r == is_alnum(b),
{
    (48 <= b && b <= 57) || (65 <= b && b <= 90) || (97 <= b && b <= 122)
}

fn is_word_byte(b: u8) -> (r: bool)
    ensures
        r == is_word(b),
{
    is_alnum_byte(b) || b == 95
}

fn is_hex_byte(b: u8) -> (r: bool)
    ensures
        r == is_hex(b),
{
    (48 <= b && b <= 57) || (97 <= b && b <= 102) || (65 <= b && b <= 70)
}

/// Byte-wise equality of two slices.
pub fn bytes_eq(a: &[u8], b: &[u8]) -> (r: bool)
    ensures
        r == (a@ == b@),
{
    if a.len() != b.len() {
        return false;
    }
    let mut i: usize = 0;
    while i < a.len()
        invariant
            a@.len() == b@.len(),
            i <= a@.len(),
            forall|j: int| 0 <= j < i ==> a@[j] == b@[j],
        decreases a.len() - i,
    {
        if a[i] != b[i] {
            return false;
        }
        i = i + 1;
    }
    assert(a@ =~= b@);
    true
}

/// `prefix` is a prefix of `k`.
pub fn starts_with(k: &[u8], prefix: &[u8]) -> (r: bool)
    ensures
        r == (prefix@.len() <= k@.len() && k@.subrange(0, prefix@.len() as int) == prefix@),
{
    if prefix.len() > k.len() {
        return false;
    }
    let mut i: usize = 0;
    while i < prefix.len()
        invariant
            prefix@.len() <= k@.len(),
            i <= prefix@.len(),
            forall|j: int| 0 <= j < i ==> k@[j] == prefix@[j],
        decreases prefix.len() - i,
    {
        if k[i] != prefix[i] {
            assert(k@.subrange(0, prefix@.len() as int)[i as int] != prefix@[i as int]);
            return false;
        }
        i = i + 1;
    }
    assert(k@.subrange(0, prefix@.len() as int) =~= prefix@);
    true
}

/// The byte strings held by a vector of keywords.
pub open spec fn kw_view(kwords: Seq<Vec<u8>>) -> Seq<Seq<u8>> {
    kwords.map_values(|k: Vec<u8>| k@)
}

/// A word is a numeric literal (decimal digits, or `0x` and hex digits).
fn is_numeric(w: &[u8]) -> (r: bool)
    ensures
        r == is_numeric_word(w@),
{
    let mut i: usize = 0;
    let mut all_digits = true;
    while i < w.len()
        invariant
            i <= w@.len(),
            all_digits == (forall|j: int| 0 <= j < i ==> is_digit(#[trigger] w@[j])),
        decreases w.len() - i,
    {
        if !is_digit_byte(w[i]) {
            all_digits = false;
        }
        i = i + 1;
    }
    if all_digits {
        return true;
    }
    if w.len() < 2 || w[0] != 48 || w[1] != 120 {
        return false;
    }
    let mut i: usize = 2;
    while i < w.len()
        invariant
            2 <= i <= w@.len(),
            forall|j: int| 2 <= j < i ==> is_hex(#[trigger] w@[j]),
        decreases w.len() - i,
    {
        if !is_hex_byte(w[i]) {
            return false;
        }
        i = i + 1;
    }
    true
}

/// Input string tokens.
pub struct Tokens<'a> {
    ended: bool,
    kwords: Vec<Vec<u8>>,
    offset: usize,
    input: &'a [u8],
    line: usize,
    line_offset: usize,
}

impl<'a> Tokens<'a> {
    /// Bytes of the input.
    pub closed spec fn bytes(&self) -> Seq<u8> {
        self.input@
    }

    /// The keyword set.
    pub closed spec fn keywords(&self) -> Seq<Seq<u8>> {
        kw_view(self.kwords@)
    }

    /// Position of the next byte to read.
    pub closed spec fn position(&self) -> int {
        self.offset as int
    }

    /// The end of file token has been emitted.
    pub closed spec fn is_ended(&self) -> bool {
        self.ended
    }

    /// Internal consistency: position within the input, cursor in sync.
    pub closed spec fn wf(&self) -> bool {
        &&& self.offset <= self.input@.len()
        &&& self.line == cursor_at(self.input@, self.offset as int).0
        &&& self.line_offset == cursor_at(self.input@, self.offset as int).1
    }

    /// The next token can be read without running into an unterminated
    /// string literal.
    pub open spec fn lexable(&self) -> bool {
        let q = skip_trivia(self.bytes(), self.position());
        !self.is_ended() && q < self.bytes().len() && self.bytes()[q] == 34 ==> find_quote(
            self.bytes(),
            q + 1,
        ) is Some
    }

    /// Create new Tokens.
    pub fn new(input: &'a str, kwords: Vec<Vec<u8>>) -> (r: Self)
        ensures
            r.wf(),
            r.bytes() == input.spec_bytes(),
            r.keywords() == kw_view(kwords@),
            r.position() == 0,
            !r.is_ended(),
    {
        Tokens { ended: false, kwords, offset: 0, input: input.as_bytes(), line: 0, line_offset: 0 }
    }

    fn peek_byte(&self) -> (r: Option<u8>)
        requires
            self.wf(),
        ensures
            r == (if self.offset < self.input@.len() {
                Some(self.input@[self.offset as int])
            } else {
                None::<u8>
            }),
    {
        if self.offset < self.input.len() {
            Some(self.input[self.offset])
        } else {
            None
        }
    }

    /// Consume one byte, keeping the cursor in sync.
    fn next_byte(&mut self) -> (b: u8)
        requires
            old(self).wf(),
            old(self).offset < old(self).input@.len(),
        ensures
            final(self).wf(),
            final(self).offset == old(self).offset + 1,
            b == old(self).input@[old(self).offset as int],
            final(self).input == old(self).input,
            final(self).kwords == old(self).kwords,
            final(self).ended == old(self).ended,
    {
        let b = self.input[self.offset];
        proof {
            lemma_cursor_bounds(self.input@, self.offset as int);
        }
        self.offset = self.offset + 1;
        if b == 10 {
            self.line = self.line + 1;
            self.line_offset = 0;
        } else {
            self.line_offset = self.line_offset + 1;
        }
        b
    }

    fn whitespace_ahead(&self) -> (r: bool)
        requires
            self.wf(),
        ensures
            r == (self.offset < self.input@.len() && is_ws(self.input@[self.offset as int])),
    {
        self.offset < self.input.len() && is_ws_byte(self.input[self.offset])
    }

    fn comment_ahead(&self) -> (r: bool)
        requires
            self.wf(),
        ensures
            r == starts_comment(self.input@, self.offset as int),
    {
        self.offset < self.input.len() && self.input.len() - self.offset > 1 && self.input[self.offset]
            == 47 && self.input[self.offset + 1] == 47
    }

    fn skip_whitespace(&mut self)
        requires
            old(self).wf(),
        ensures
            final(self).wf(),
            final(self).input == old(self).input,
            final(self).kwords == old(self).kwords,
            final(self).ended == old(self).ended,
            old(self).offset <= final(self).offset,
            old(self).offset < old(self).input@.len() && is_ws(old(self).input@[old(self).offset as int])
                ==> old(self).offset < final(self).offset,
            skip_trivia(final(self).input@, final(self).offset as int) == skip_trivia(
                old(self).input@,
                old(self).offset as int,
            ),
    {
        let ghost s = self.input@;
        let ghost target = skip_trivia(s, self.offset as int);
        let ghost start = self.offset;
        while self.whitespace_ahead()
            invariant
                self.wf(),
                self.input@ == s,
                self.input == old(self).input,
                self.kwords == old(self).kwords,
                self.ended == old(self).ended,
                start <= self.offset,
                skip_trivia(s, self.offset as int) == target,
            decreases s.len() - self.offset,
        {
            self.next_byte();
        }
    }

    fn skip_comment(&mut self)
        requires
            old(self).wf(),
            starts_comment(old(self).input@, old(self).offset as int),
        ensures
            final(self).wf(),
            final(self).input == old(self).input,
            final(self).kwords == old(self).kwords,
            final(self).ended == old(self).ended,
            final(self).offset == line_end(old(self).input@, old(self).offset as int),
    {
        let ghost s = self.input@;
        let ghost target = line_end(s, self.offset as int);
        let mut done = false;
        while !done && self.offset < self.input.len()
            invariant
                self.wf(),
                self.input@ == s,
                self.input == old(self).input,
                self.kwords == old(self).kwords,
                self.ended == old(self).ended,
                done ==> self.offset == target,
                !done ==> line_end(s, self.offset as int) == target,
            decreases s.len() - self.offset,
        {
            let b = self.next_byte();
            if b == 10 {
                done = true;
            }
        }
    }

    fn next_str_lit(&mut self) -> (r: &'a [u8])
        requires
            old(self).wf(),
            old(self).offset < old(self).input@.len(),
            old(self).input@[old(self).offset as int] == 34,
            find_quote(old(self).input@, old(self).offset + 1) is Some,
        ensures
            final(self).wf(),
            final(self).input == old(self).input,
            final(self).kwords == old(self).kwords,
            final(self).ended == old(self).ended,
            final(self).offset == find_quote(old(self).input@, old(self).offset + 1)->0 + 1,
            r@ == old(self).input@.subrange(old(self).offset as int, final(self).offset as int),
    {
        let ghost s = self.input@;
        let ghost j = find_quote(s, self.offset + 1)->0;
        let input = self.input;
        let cursor = self.offset;
        proof {
            lemma_find_quote(s, self.offset + 1);
        }
        self.next_byte();
        while self.input[self.offset] != 34
            invariant
                cursor < self.offset,
                self.wf(),
                self.input == input,
                input@ == s,
                self.kwords == old(self).kwords,
                self.ended == old(self).ended,
                self.offset <= j < s.len(),
                s[j] == 34,
                find_quote(s, self.offset as int) == Some(j),
            decreases j - self.offset,
        {
            self.next_byte();
        }
        self.next_byte();
        &input[cursor..self.offset]
    }

    fn next_num_lit(&mut self) -> (r: &'a [u8])
        requires
            old(self).wf(),
        ensures
            final(self).wf(),
            final(self).input == old(self).input,
            final(self).kwords == old(self).kwords,
            final(self).ended == old(self).ended,
            final(self).offset == digits_end(old(self).input@, old(self).offset as int),
            r@ == old(self).input@.subrange(old(self).offset as int, final(self).offset as int),
    {
        let ghost s = self.input@;
        let ghost target = digits_end(s, self.offset as int);
        let input = self.input;
        let cursor = self.offset;
        while self.offset < self.input.len() && is_digit_byte(self.input[self.offset])
            invariant
                self.wf(),
                self.input == input,
                input@ == s,
                self.kwords == old(self).kwords,
                self.ended == old(self).ended,
                cursor <= self.offset,
                digits_end(s, self.offset as int) == target,
            decreases s.len() - self.offset,
        {
            self.next_byte();
        }
        &input[cursor..self.offset]
    }

    /// Word: keyword, literal (decimal or hex) or identifier.
    fn next_word(&mut self) -> (r: RawToken<'a>)
        requires
            old(self).wf(),
        ensures
            final(self).wf(),
            final(self).input == old(self).input,
            final(self).kwords == old(self).kwords,
            final(self).ended == old(self).ended,
            final(self).offset == word_end(old(self).input@, old(self).offset as int),
            ({
                let w = old(self).input@.subrange(old(self).offset as int, final(self).offset as int);
                if old(self).keywords().contains(w) {
                    r matches RawToken::Keyword(t) && t@ == w
                } else if is_numeric_word(w) {
                    r matches RawToken::Lit(t) && t@ == w
                } else {
                    r matches RawToken::Ident(t) && t@ == w
                }
            }),
    {
        let ghost s = self.input@;
        let ghost target = word_end(s, self.offset as int);
        let input = self.input;
        let cursor = self.offset;
        while self.offset < self.input.len() && is_word_byte(self.input[self.offset])
            invariant
                self.wf(),
                self.input == input,
                input@ == s,
                self.kwords == old(self).kwords,
                self.ended == old(self).ended,
                cursor <= self.offset,
                word_end(s, self.offset as int) == target,
            decreases s.len() - self.offset,
        {
            self.next_byte();
        }
        let token = &input[cursor..self.offset];
        if self.has_kword(token) {
            RawToken::Keyword(token)
        } else if is_numeric(token) {
            RawToken::Lit(token)
        } else {
            RawToken::Ident(token)
        }
    }

    /// Keyword made of bytes that are neither letters, digits nor whitespace:
    /// the longest one that the input starts with.
    fn next_kword(&mut self) -> (r: RawToken<'a>)
        requires
            old(self).wf(),
            old(self).offset < old(self).input@.len(),
            !is_alnum(old(self).input@[old(self).offset as int]),
            !is_ws(old(self).input@[old(self).offset as int]),
        ensures
            final(self).wf(),
            final(self).input == old(self).input,
            final(self).kwords == old(self).kwords,
            final(self).ended == old(self).ended,
            ({
                let s = old(self).input@;
                let kws = old(self).keywords();
                let q = old(self).offset as int;
                let end = final(self).offset as int;
                if exists|k: int| is_kw_match(s, kws, q, k) {
                    &&& is_kw_match(s, kws, q, end)
                    &&& forall|k: int| is_kw_match(s, kws, q, k) ==> k <= end
                    &&& r matches RawToken::Keyword(t) && t@ == s.subrange(q, end)
                } else {
                    &&& end == q + 1
                    &&& r == RawToken::Unexpected(s[q])
                }
            }),
    {
        let ghost s = self.input@;
        let ghost kws = self.keywords();
        let input = self.input;
        let q = self.offset;
        let line_q = self.line;
        let col_q = self.line_offset;
        let mut best = q;
        let mut best_line = line_q;
        let mut best_col = col_q;
        let mut done = false;
        while !done
            invariant
                self.wf(),
                self.input == input,
                input@ == s,
                self.kwords == old(self).kwords,
                kws == self.keywords(),
                self.ended == old(self).ended,
                q < s.len(),
                q <= self.offset <= s.len(),
                line_q == cursor_at(s, q as int).0,
                col_q == cursor_at(s, q as int).1,
                forall|i: int| q <= i < self.offset ==> !is_alnum(#[trigger] s[i]) && !is_ws(s[i]),
                q <= best <= self.offset,
                best > q ==> is_kw_match(s, kws, q as int, best as int),
                best_line == cursor_at(s, best as int).0,
                best_col == cursor_at(s, best as int).1,
                forall|k: int| q < k <= self.offset && is_kw_match(s, kws, q as int, k) ==> k <= best,
                done ==> forall|k: int| is_kw_match(s, kws, q as int, k) ==> k <= best,
            decreases s.len() - self.offset, if done { 0int } else { 1int },
        {
            match self.peek_byte() {
                None => {
                    done = true;
                },
                Some(b) => {
                    if is_alnum_byte(b) || is_ws_byte(b) {
                        done = true;
                    } else {
                        self.next_byte();
                        let prefix = &input[q..self.offset];
                        if self.has_kword(prefix) {
                            best = self.offset;
                            best_line = self.line;
                            best_col = self.line_offset;
                        } else if !self.has_prefix(prefix) {
                            done = true;
                            let j = self.offset;
                            assert forall|k: int| is_kw_match(s, kws, q as int, k) implies k
                                <= best by {
                                if k > j {
                                    let i = choose|i: int|
                                        0 <= i < kws.len() && kws[i] == s.subrange(q as int, k);
                                    assert(kws[i].subrange(0, j - q) =~= s.subrange(
                                        q as int,
                                        j as int,
                                    ));
                                }
                            }
                        }
                    }
                },
            }
        }
        if best == q {
            proof {
                lemma_cursor_bounds(s, q as int);
            }
            self.offset = q + 1;
            self.line = line_q;
            self.line_offset = col_q + 1;
            RawToken::Unexpected(input[q])
        } else {
            self.offset = best;
            self.line = best_line;
            self.line_offset = best_col;
            RawToken::Keyword(&input[q..best])
        }
    }

    /// Whether the next token can be read without running into an
    /// unterminated string literal.
    pub fn next_is_lexable(&self) -> (r: bool)
        requires
            self.wf(),
        ensures
            r == self.lexable(),
    {
        if self.ended {
            return true;
        }
        let ghost s = self.input@;
        let mut p = self.offset;
        // skip trivia without consuming
        let mut done = false;
        while !done
            invariant
                self.wf(),
                s == self.input@,
                self.offset <= p <= s.len(),
                skip_trivia(s, p as int) == skip_trivia(s, self.offset as int),
                done ==> skip_trivia(s, p as int) == p,
            decreases s.len() - p, if done { 0int } else { 1int },
        {
            if p < self.input.len() && is_ws_byte(self.input[p]) {
                p = p + 1;
            } else if p < self.input.len() && self.input.len() - p > 1 && self.input[p] == 47
                && self.input[p + 1] == 47 {
                proof {
                    lemma_line_end(s, p as int);
                }
                let ghost target = line_end(s, p as int);
                let mut nl = false;
                while !nl && p < self.input.len()
                    invariant
                        s == self.input@,
                        p <= s.len(),
                        nl ==> p == target,
                        !nl ==> line_end(s, p as int) == target,
                    decreases s.len() - p,
                {
                    if self.input[p] == 10 {
                        nl = true;
                    }
                    p = p + 1;
                }
            } else {
                done = true;
            }
        }
        if p >= self.input.len() || self.input[p] != 34 {
            return true;
        }
        let mut j = p + 1;
        while j < self.input.len()
            invariant
                s == self.input@,
                self.wf(),
                !self.ended,
                skip_trivia(s, self.offset as int) == p,
                p < j <= s.len(),
                find_quote(s, p + 1) == find_quote(s, j as int),
            decreases s.len() - j,
        {
            if self.input[j] == 34 {
                return true;
            }
            j = j + 1;
        }
        false
    }

    /// Next token and its location.
    pub fn next(&mut self) -> (r: Option<RawTokenSpan<'a>>)
        requires
            old(self).wf(),
            old(self).lexable(),
        ensures
            final(self).wf(),
            final(self).bytes() == old(self).bytes(),
            final(self).keywords() == old(self).keywords(),
            old(self).is_ended() ==> r is None && final(self).position() == old(self).position()
                && final(self).is_ended(),
            !old(self).is_ended() ==> (r matches Some((tok, span)) && {
                let s = old(self).bytes();
                let q = skip_trivia(s, old(self).position());
                let end = final(self).position();
                &&& old(self).position() <= q <= end <= s.len()
                &&& q < s.len() ==> q < end
                &&& lexed(s, old(self).keywords(), q, tok, end)
                &&& span.min[0] == cursor_at(s, q).0 && span.min[1] == cursor_at(s, q).1
                &&& span.max[0] == cursor_at(s, end).0 && span.max[1] == cursor_at(s, end).1
                &&& final(self).is_ended() == (q >= s.len())
            }),
    {
        if self.ended {
            return None;
        }
        let ghost s = self.input@;
        let ghost start = self.offset;
        // strip whitespace and comments
        while self.whitespace_ahead() || self.comment_ahead()
            invariant
                self.wf(),
                self.input@ == s,
                self.input == old(self).input,
                self.kwords == old(self).kwords,
                !self.ended,
                start <= self.offset,
                skip_trivia(s, self.offset as int) == skip_trivia(s, start as int),
            decreases s.len() - self.offset,
        {
            if self.whitespace_ahead() {
                self.skip_whitespace();
            }
            if self.comment_ahead() {
                proof {
                    lemma_line_end(s, self.offset as int);
                }
                self.skip_comment();
            }
        }
        let ghost q = self.offset as int;
        assert(skip_trivia(s, q) == q);
        let min = [self.line, self.line_offset];
        match self.peek_byte() {
            None => {
                self.ended = true;
                Some((RawToken::Eof, Span { min, max: min }))
            },
            Some(b) => {
                let tok = if b == 34 {
                    proof {
                        lemma_find_quote(s, q + 1);
                    }
                    RawToken::Lit(self.next_str_lit())
                } else if is_digit_byte(b) && b != 48 {
                    RawToken::Lit(self.next_num_lit())
                } else if is_word_byte(b) {
                    self.next_word()
                } else {
                    self.next_kword()
                };
                let max = [self.line, self.line_offset];
                proof {
                    if b == 34 {
                        lemma_find_quote(s, q + 1);
                    }
                    lemma_run_ends(s, q);
                    lemma_run_ends(s, q + 1);
                }
                Some((tok, Span { min, max }))
            },
        }
    }

    fn has_kword(&self, w: &[u8]) -> (r: bool)
        ensures
            r == self.keywords().contains(w@),
    {
        let mut i: usize = 0;
        while i < self.kwords.len()
            invariant
                i <= self.kwords@.len(),
                forall|j: int| 0 <= j < i ==> self.keywords()[j] != w@,
            decreases self.kwords.len() - i,
        {
            if bytes_eq(self.kwords[i].as_slice(), w) {
                assert(self.keywords()[i as int] == w@);
                return true;
            }
            i = i + 1;
        }
        false
    }

    fn has_prefix(&self, w: &[u8]) -> (r: bool)
        ensures
            r == is_kw_prefix(self.keywords(), w@),
    {
        let mut i: usize = 0;
        while i < self.kwords.len()
            invariant
                i <= self.kwords@.len(),
                forall|j: int|
                    0 <= j < i ==> !(w@.len() <= self.keywords()[j].len() && #[trigger] self.keywords()[j].subrange(
                        0,
                        w@.len() as int,
                    ) == w@),
            decreases self.kwords.len() - i,
        {
            if starts_with(self.kwords[i].as_slice(), w) {
                assert(self.keywords()[i as int] == self.kwords@[i as int]@);
                return true;
            }
            i = i + 1;
        }
        false
    }
}

} // verus!
