//! Token grammar for the syntax highlighter.
//!
//! Five classes of lexical tokens are recognised in a line of text:
//! quoted string literals, numbers, boolean/null-like words, `key:` labels
//! and single bracket characters.  Each class has a spec-level grammar
//! (`match_end_at`) and a left-to-right, non-overlapping enumeration of its
//! matches (`class_matches`).  The executable scanners mirror those
//! definitions exactly.

use vstd::prelude::*;

verus! {

/// The five token classes, in priority order: a lower `priority` number wins
/// when matches of two classes overlap.
#[derive(Clone, Copy, PartialEq, Eq, Structural, Debug)]
pub enum TokenClass {
    StrLit,
    Number,
    BoolWord,
    KeyLabel,
    Bracket,
}

impl TokenClass {
    /// Priority rank of this class; 1 is the highest priority.
    pub open spec fn priority(self) -> int {
        match self {
            TokenClass::StrLit => 1,
            TokenClass::Number => 2,
            TokenClass::BoolWord => 3,
            TokenClass::KeyLabel => 4,
            TokenClass::Bracket => 5,
        }
    }
}

/// A half-open span `[start, end)` of the input, owned by one token class.
#[derive(Clone, Copy, PartialEq, Eq, Structural, Debug)]
pub struct Span {
    pub start: usize,
    pub end: usize,
    pub class: TokenClass,
}

/// The mathematical model of a [`Span`]: the same range over `int`.
pub struct SpanModel {
    pub start: int,
    pub end: int,
    pub class: TokenClass,
}

impl View for Span {
    type V = SpanModel;

    open spec fn view(&self) -> SpanModel {
        SpanModel { start: self.start as int, end: self.end as int, class: self.class }
    }
}

/// The models of a sequence of spans.
pub open spec fn models(v: Seq<Span>) -> Seq<SpanModel> {
    v.map(|i: int, sp: Span| sp@)
}

pub open spec fn is_digit_char(c: char) -> bool {
    '0' <= c && c <= '9'
}

pub open spec fn is_alpha_char(c: char) -> bool {
    ('a' <= c && c <= 'z') || ('A' <= c && c <= 'Z')
}

/// A word character: ASCII letter, digit or underscore.
pub open spec fn is_word_char(c: char) -> bool {
    is_alpha_char(c) || is_digit_char(c) || c == '_'
}

/// A character allowed in the parameter bytes of a terminal escape sequence.
pub open spec fn is_csi_param_char(c: char) -> bool {
    is_digit_char(c) || c == ';'
}

/// A terminal escape sequence starts at position `i` of `s`: the escape
/// control byte, `[`, a run of parameter characters, and a final letter.
pub open spec fn escape_at(s: Seq<char>, i: int) -> bool {
    &&& 0 <= i
    &&& i + 2 <= s.len()
    &&& s[i] == '\x1b'
    &&& s[i + 1] == '['
    &&& exists|k: int|
        #![trigger s[k]]
        i + 2 <= k < s.len() && is_alpha_char(s[k]) && (forall|m: int|
            i + 2 <= m < k ==> is_csi_param_char(#[trigger] s[m]))
}

/// `s` contains a terminal escape sequence somewhere.
pub open spec fn contains_escape(s: Seq<char>) -> bool {
    exists|i: int| escape_at(s, i)
}

pub open spec fn is_quote_char(c: char) -> bool {
    c == '"' || c == '\''
}

pub open spec fn is_bracket_char(c: char) -> bool {
    c == '[' || c == ']' || c == '{' || c == '}' || c == '(' || c == ')'
}

/// A word boundary sits immediately before position `i`.
pub open spec fn word_boundary_before(s: Seq<char>, i: int) -> bool {
    i == 0 || !is_word_char(s[i - 1])
}

/// A word boundary sits immediately after position `e - 1`, i.e. at `e`.
pub open spec fn word_boundary_after(s: Seq<char>, e: int) -> bool {
    e == s.len() || !is_word_char(s[e])
}

/// The end of the maximal run of digits that starts at `i`.
pub open spec fn digit_run_end(s: Seq<char>, i: int) -> int
    decreases s.len() - i when 0 <= i <= s.len()
{
    if i < s.len() && is_digit_char(s[i]) {
        digit_run_end(s, i + 1)
    } else {
        i
    }
}

/// The end of the maximal run of word characters that starts at `i`.
pub open spec fn word_run_end(s: Seq<char>, i: int) -> int
    decreases s.len() - i when 0 <= i <= s.len()
{
    if i < s.len() && is_word_char(s[i]) {
        word_run_end(s, i + 1)
    } else {
        i
    }
}

/// The position of the closing quote `q` for a string body that starts at
/// `i`, skipping backslash-escaped characters; `None` when the string is
/// unterminated (or a backslash is followed by a line break or nothing).
pub open spec fn string_close_from(s: Seq<char>, q: char, i: int) -> Option<int>
    decreases s.len() - i when 0 <= i <= s.len()
{
    if i >= s.len() {
        None
    } else if s[i] == q {
        Some(i)
    } else if s[i] == '\\' {
        if i + 1 < s.len() && s[i + 1] != '\n' {
            string_close_from(s, q, i + 2)
        } else {
            None
        }
    } else {
        string_close_from(s, q, i + 1)
    }
}

/// A quoted string literal starting exactly at `i`: its end, if any.
pub open spec fn string_match_end(s: Seq<char>, i: int) -> Option<int> {
    if 0 <= i < s.len() && is_quote_char(s[i]) {
        match string_close_from(s, s[i], i + 1) {
            Some(j) => Some(j + 1),
            None => None,
        }
    } else {
        None
    }
}

/// A number token starting exactly at `i`: a maximal digit run, optionally
/// followed by `.` and a maximal nonempty digit run, with word boundaries
/// on both sides.
pub open spec fn number_match_end(s: Seq<char>, i: int) -> Option<int> {
    if 0 <= i < s.len() && word_boundary_before(s, i) && is_digit_char(s[i]) {
        let d = digit_run_end(s, i);
        let e = if d < s.len() && s[d] == '.' && d + 1 < s.len() && is_digit_char(s[d + 1]) {
            digit_run_end(s, d + 1)
        } else {
            d
        };
        if word_boundary_after(s, e) {
            Some(e)
        } else {
            None
        }
    } else {
        None
    }
}

/// The word `w` occurs at position `i` of `s`.
pub open spec fn word_at(s: Seq<char>, i: int, w: Seq<char>) -> bool {
    &&& 0 <= i
    &&& i + w.len() <= s.len()
    &&& forall|k: int| 0 <= k < w.len() ==> s[i + k] == #[trigger] w[k]
}

pub open spec fn true_chars() -> Seq<char> {
    seq!['t', 'r', 'u', 'e']
}

pub open spec fn false_chars() -> Seq<char> {
    seq!['f', 'a', 'l', 's', 'e']
}

pub open spec fn null_chars() -> Seq<char> {
    seq!['n', 'u', 'l', 'l']
}

pub open spec fn undefined_chars() -> Seq<char> {
    seq!['u', 'n', 'd', 'e', 'f', 'i', 'n', 'e', 'd']
}

pub open spec fn none_chars() -> Seq<char> {
    seq!['N', 'o', 'n', 'e']
}

pub open spec fn nil_chars() -> Seq<char> {
    seq!['n', 'i', 'l']
}

/// A boolean or null-like word starting exactly at `i`: one of `true`,
/// `false`, `null`, `undefined`, `None`, `nil`, delimited by word
/// boundaries on both sides.
pub open spec fn bool_match_end(s: Seq<char>, i: int) -> Option<int> {
    if !(0 <= i < s.len() && word_boundary_before(s, i)) {
        None
    } else if word_at(s, i, undefined_chars()) && word_boundary_after(s, i + 9) {
        Some(i + 9)
    } else if word_at(s, i, false_chars()) && word_boundary_after(s, i + 5) {
        Some(i + 5)
    } else if word_at(s, i, true_chars()) && word_boundary_after(s, i + 4) {
        Some(i + 4)
    } else if word_at(s, i, null_chars()) && word_boundary_after(s, i + 4) {
        Some(i + 4)
    } else if word_at(s, i, none_chars()) && word_boundary_after(s, i + 4) {
        Some(i + 4)
    } else if word_at(s, i, nil_chars()) && word_boundary_after(s, i + 3) {
        Some(i + 3)
    } else {
        None
    }
}

/// A key label starting exactly at `i`: a maximal nonempty run of word
/// characters followed directly by a colon, with a word boundary before it.
/// The matched span includes the colon.
pub open spec fn key_match_end(s: Seq<char>, i: int) -> Option<int> {
    if 0 <= i < s.len() && word_boundary_before(s, i) && is_word_char(s[i]) {
        let w = word_run_end(s, i);
        if w < s.len() && s[w] == ':' {
            Some(w + 1)
        } else {
            None
        }
    } else {
        None
    }
}

/// A single bracket character at `i`.
pub open spec fn bracket_match_end(s: Seq<char>, i: int) -> Option<int> {
    if 0 <= i < s.len() && is_bracket_char(s[i]) {
        Some(i + 1)
    } else {
        None
    }
}

/// The token of class `c` that starts exactly at position `i`, if any.
#[verifier::opaque]
pub open spec fn match_end_at(s: Seq<char>, c: TokenClass, i: int) -> Option<int> {
    match c {
        TokenClass::StrLit => string_match_end(s, i),
        TokenClass::Number => number_match_end(s, i),
        TokenClass::BoolWord => bool_match_end(s, i),
        TokenClass::KeyLabel => key_match_end(s, i),
        TokenClass::Bracket => bracket_match_end(s, i),
    }
}

pub proof fn lemma_digit_run_end_bounds(s: Seq<char>, i: int)
    requires
        0 <= i <= s.len(),
    ensures
        i <= digit_run_end(s, i) <= s.len(),
        forall|m: int| i <= m < digit_run_end(s, i) ==> is_digit_char(#[trigger] s[m]),
        digit_run_end(s, i) < s.len() ==> !is_digit_char(s[digit_run_end(s, i)]),
    decreases s.len() - i,
{
    if i < s.len() && is_digit_char(s[i]) {
        lemma_digit_run_end_bounds(s, i + 1);
    }
}

pub proof fn lemma_word_run_end_bounds(s: Seq<char>, i: int)
    requires
        0 <= i <= s.len(),
    ensures
        i <= word_run_end(s, i) <= s.len(),
        forall|m: int| i <= m < word_run_end(s, i) ==> is_word_char(#[trigger] s[m]),
        word_run_end(s, i) < s.len() ==> !is_word_char(s[word_run_end(s, i)]),
    decreases s.len() - i,
{
    if i < s.len() && is_word_char(s[i]) {
        lemma_word_run_end_bounds(s, i + 1);
    }
}

pub proof fn lemma_string_close_bounds(s: Seq<char>, q: char, i: int)
    requires
        0 <= i <= s.len(),
        string_close_from(s, q, i) is Some,
    ensures
        i <= string_close_from(s, q, i)->Some_0 < s.len(),
        s[string_close_from(s, q, i)->Some_0] == q,
    decreases s.len() - i,
{
    if i >= s.len() {
    } else if s[i] == q {
    } else if s[i] == '\\' {
        if i + 1 < s.len() && s[i + 1] != '\n' {
            lemma_string_close_bounds(s, q, i + 2);
        }
    } else {
        lemma_string_close_bounds(s, q, i + 1);
    }
}

/// Every token of class `c` that starts at `i` ends after `i` and within `s`.
pub proof fn lemma_match_end_bounds(s: Seq<char>, c: TokenClass, i: int)
    requires
        match_end_at(s, c, i) is Some,
    ensures
        0 <= i < match_end_at(s, c, i)->Some_0 <= s.len(),
{
    reveal(match_end_at);
    let e = match_end_at(s, c, i)->Some_0;
    match c {
        TokenClass::StrLit => {
            lemma_string_close_bounds(s, s[i], i + 1);
        },
        TokenClass::Number => {
            lemma_digit_run_end_bounds(s, i);
            let d = digit_run_end(s, i);
            assert(digit_run_end(s, i) == digit_run_end(s, i + 1));
            lemma_digit_run_end_bounds(s, i + 1);
            if d < s.len() && s[d] == '.' && d + 1 < s.len() && is_digit_char(s[d + 1]) {
                lemma_digit_run_end_bounds(s, d + 1);
                assert(digit_run_end(s, d + 1) == digit_run_end(s, d + 2));
                lemma_digit_run_end_bounds(s, d + 2);
            }
        },
        TokenClass::BoolWord => {},
        TokenClass::KeyLabel => {
            lemma_word_run_end_bounds(s, i);
            assert(word_run_end(s, i) == word_run_end(s, i + 1));
            lemma_word_run_end_bounds(s, i + 1);
        },
        TokenClass::Bracket => {},
    }
}

/// The left-to-right, non-overlapping matches of class `c` in `s`, starting
/// the scan at position `i`.
pub open spec fn class_matches_from(s: Seq<char>, c: TokenClass, i: int) -> Seq<SpanModel>
    decreases s.len() - i when 0 <= i
{
    if i >= s.len() {
        Seq::empty()
    } else {
        match match_end_at(s, c, i) {
            Some(e) => {
                if i < e <= s.len() {
                    seq![SpanModel { start: i, end: e, class: c }] + class_matches_from(s, c, e)
                } else {
                    class_matches_from(s, c, i + 1)
                }
            },
            None => class_matches_from(s, c, i + 1),
        }
    }
}

/// All matches of class `c` in `s`, in ascending start order.
pub open spec fn class_matches(s: Seq<char>, c: TokenClass) -> Seq<SpanModel> {
    class_matches_from(s, c, 0)
}

/// The matches produced by one class scan are in-bounds tokens of that
/// class, listed in strictly ascending, pairwise disjoint order.
#[verifier::rlimit(100)]
#[verifier::spinoff_prover]
pub proof fn lemma_class_matches_from_wf(s: Seq<char>, c: TokenClass, i: int)
    requires
        0 <= i,
    ensures
        forall|k: int| 0 <= k < class_matches_from(s, c, i).len() ==> {
            let sp = #[trigger] class_matches_from(s, c, i)[k];
            &&& i <= sp.start < sp.end <= s.len()
            &&& sp.class == c
            &&& match_end_at(s, c, sp.start) == Some(sp.end)
        },
        forall|a: int, b: int|
            0 <= a < b < class_matches_from(s, c, i).len() ==> (#[trigger] class_matches_from(
                s,
                c,
                i,
            )[a]).end <= (#[trigger] class_matches_from(s, c, i)[b]).start,
    decreases s.len() - i,
{
    let ms = class_matches_from(s, c, i);
    if i >= s.len() {
    } else {
        match match_end_at(s, c, i) {
            Some(e) => {
                lemma_match_end_bounds(s, c, i);
                if i < e <= s.len() {
                    lemma_class_matches_from_wf(s, c, e);
                    let tail = class_matches_from(s, c, e);
                    assert(ms == seq![SpanModel { start: i, end: e, class: c }] + tail);
                    assert forall|k: int| 0 <= k < ms.len() implies {
                        let sp = #[trigger] ms[k];
                        &&& i <= sp.start < sp.end <= s.len()
                        &&& sp.class == c
                        &&& match_end_at(s, c, sp.start) == Some(sp.end)
                    } by {
                        if k > 0 {
                            assert(ms[k] == tail[k - 1]);
                        }
                    }
                    assert forall|a: int, b: int| 0 <= a < b < ms.len() implies (
                    #[trigger] ms[a]).end <= (#[trigger] ms[b]).start by {
                        assert(ms[b] == tail[b - 1]);
                        if a > 0 {
                            assert(ms[a] == tail[a - 1]);
                        }
                    }
                } else {
                    lemma_class_matches_from_wf(s, c, i + 1);
                    assert(ms == class_matches_from(s, c, i + 1));
                }
            },
            None => {
                lemma_class_matches_from_wf(s, c, i + 1);
                assert(ms == class_matches_from(s, c, i + 1));
            },
        }
    }
}

/// The characters of `text`, as a vector.
pub fn chars_of(text: &str) -> (r: Vec<char>)
    ensures
        r@ == text@,
{
    let n = text.unicode_len();
    let mut r: Vec<char> = Vec::new();
    let mut i: usize = 0;
    while i < n
        invariant
            n == text@.len(),
            i <= n,
            r@ == text@.subrange(0, i as int),
        decreases n - i,
    {
        r.push(text.get_char(i));
        i = i + 1;
        assert(r@ =~= text@.subrange(0, i as int));
    }
    assert(r@ =~= text@);
    r
}

fn digit_char(c: char) -> (r: bool)
    ensures
        r == is_digit_char(c),
{
    '0' <= c && c <= '9'
}

fn alpha_char(c: char) -> (r: bool)
    ensures
        r == is_alpha_char(c),
{
    ('a' <= c && c <= 'z') || ('A' <= c && c <= 'Z')
}

fn word_char(c: char) -> (r: bool)
    ensures
        r == is_word_char(c),
{
    alpha_char(c) || digit_char(c) || c == '_'
}

fn csi_param_char(c: char) -> (r: bool)
    ensures
        r == is_csi_param_char(c),
{
    digit_char(c) || c == ';'
}

fn quote_char(c: char) -> (r: bool)
    ensures
        r == is_quote_char(c),
{
    c == '"' || c == '\''
}

fn bracket_char(c: char) -> (r: bool)
    ensures
        r == is_bracket_char(c),
{
    c == '[' || c == ']' || c == '{' || c == '}' || c == '(' || c == ')'
}

/// The concrete characters of the boolean/null-like words, stated once so
/// that proofs about them can quantify over word positions.
pub proof fn lemma_word_chars_values()
    ensures
        true_chars().len() == 4,
        true_chars()[0] == 't' && true_chars()[1] == 'r' && true_chars()[2] == 'u'
            && true_chars()[3] == 'e',
        false_chars().len() == 5,
        false_chars()[0] == 'f' && false_chars()[1] == 'a' && false_chars()[2] == 'l'
            && false_chars()[3] == 's' && false_chars()[4] == 'e',
        null_chars().len() == 4,
        null_chars()[0] == 'n' && null_chars()[1] == 'u' && null_chars()[2] == 'l'
            && null_chars()[3] == 'l',
        undefined_chars().len() == 9,
        undefined_chars()[0] == 'u' && undefined_chars()[1] == 'n' && undefined_chars()[2] == 'd'
            && undefined_chars()[3] == 'e' && undefined_chars()[4] == 'f'
            && undefined_chars()[5] == 'i' && undefined_chars()[6] == 'n'
            && undefined_chars()[7] == 'e' && undefined_chars()[8] == 'd',
        none_chars().len() == 4,
        none_chars()[0] == 'N' && none_chars()[1] == 'o' && none_chars()[2] == 'n'
            && none_chars()[3] == 'e',
        nil_chars().len() == 3,
        nil_chars()[0] == 'n' && nil_chars()[1] == 'i' && nil_chars()[2] == 'l',
{
}

/// Option results of the executable matchers agree with the spec grammar.
pub open spec fn match_result_is(r: Option<usize>, m: Option<int>) -> bool {
    match r {
        Some(e) => m == Some(e as int),
        None => m is None,
    }
}

fn match_string_at(cs: &Vec<char>, i: usize) -> (r: Option<usize>)
    requires
        i < cs@.len(),
    ensures
        match_result_is(r, string_match_end(cs@, i as int)),
{
    let n = cs.len();
    let q = cs[i];
    if !quote_char(q) {
        return None;
    }
    let mut j: usize = i + 1;
    loop
        invariant
            i + 1 <= j <= n,
            n == cs@.len(),
            i < n,
            cs@[i as int] == q,
            is_quote_char(q),
            string_close_from(cs@, q, i + 1) == string_close_from(cs@, q, j as int),
        decreases n - j,
    {
        if j >= n {
            return None;
        }
        let c = cs[j];
        if c == q {
            return Some(j + 1);
        } else if c == '\\' {
            if j + 1 < n && cs[j + 1] != '\n' {
                j = j + 2;
            } else {
                return None;
            }
        } else {
            j = j + 1;
        }
    }
}

fn match_number_at(cs: &Vec<char>, i: usize) -> (r: Option<usize>)
    requires
        i < cs@.len(),
    ensures
        match_result_is(r, number_match_end(cs@, i as int)),
{
    let n = cs.len();
    if !digit_char(cs[i]) {
        return None;
    }
    if i > 0 && word_char(cs[i - 1]) {
        return None;
    }
    let mut j: usize = i;
    while j < n && digit_char(cs[j])
        invariant
            i <= j <= n,
            n == cs@.len(),
            digit_run_end(cs@, i as int) == digit_run_end(cs@, j as int),
        decreases n - j,
    {
        j = j + 1;
    }
    let d = j;
    assert(digit_run_end(cs@, i as int) == d);
    let e: usize = if d < n && cs[d] == '.' && d + 1 < n && digit_char(cs[d + 1]) {
        let mut j2: usize = d + 1;
        while j2 < n && digit_char(cs[j2])
            invariant
                d + 1 <= j2 <= n,
                n == cs@.len(),
                digit_run_end(cs@, d + 1) == digit_run_end(cs@, j2 as int),
            decreases n - j2,
        {
            j2 = j2 + 1;
        }
        assert(digit_run_end(cs@, d + 1) == j2);
        j2
    } else {
        d
    };
    if e < n && word_char(cs[e]) {
        None
    } else {
        Some(e)
    }
}

fn match_bool_at(cs: &Vec<char>, i: usize) -> (r: Option<usize>)
    requires
        i < cs@.len(),
    ensures
        match_result_is(r, bool_match_end(cs@, i as int)),
{
    proof {
        lemma_word_chars_values();
    }
    let n = cs.len();
    if i > 0 && word_char(cs[i - 1]) {
        return None;
    }
    if n - i >= 9 && cs[i] == 'u' && cs[i + 1] == 'n' && cs[i + 2] == 'd' && cs[i + 3] == 'e'
        && cs[i + 4] == 'f' && cs[i + 5] == 'i' && cs[i + 6] == 'n' && cs[i + 7] == 'e' && cs[i
        + 8] == 'd' && (i + 9 == n || !word_char(cs[i + 9])) {
        assert(word_at(cs@, i as int, undefined_chars()));
        return Some(i + 9);
    }
    assert(!(word_at(cs@, i as int, undefined_chars()) && word_boundary_after(cs@, i + 9)));
    if n - i >= 5 && cs[i] == 'f' && cs[i + 1] == 'a' && cs[i + 2] == 'l' && cs[i + 3] == 's'
        && cs[i + 4] == 'e' && (i + 5 == n || !word_char(cs[i + 5])) {
        assert(word_at(cs@, i as int, false_chars()));
        return Some(i + 5);
    }
    assert(!(word_at(cs@, i as int, false_chars()) && word_boundary_after(cs@, i + 5)));
    if n - i >= 4 && cs[i] == 't' && cs[i + 1] == 'r' && cs[i + 2] == 'u' && cs[i + 3] == 'e' && (i
        + 4 == n || !word_char(cs[i + 4])) {
        assert(word_at(cs@, i as int, true_chars()));
        return Some(i + 4);
    }
    assert(!(word_at(cs@, i as int, true_chars()) && word_boundary_after(cs@, i + 4)));
    if n - i >= 4 && cs[i] == 'n' && cs[i + 1] == 'u' && cs[i + 2] == 'l' && cs[i + 3] == 'l' && (i
        + 4 == n || !word_char(cs[i + 4])) {
        assert(word_at(cs@, i as int, null_chars()));
        return Some(i + 4);
    }
    assert(!(word_at(cs@, i as int, null_chars()) && word_boundary_after(cs@, i + 4)));
    if n - i >= 4 && cs[i] == 'N' && cs[i + 1] == 'o' && cs[i + 2] == 'n' && cs[i + 3] == 'e' && (i
        + 4 == n || !word_char(cs[i + 4])) {
        assert(word_at(cs@, i as int, none_chars()));
        return Some(i + 4);
    }
    assert(!(word_at(cs@, i as int, none_chars()) && word_boundary_after(cs@, i + 4)));
    if n - i >= 3 && cs[i] == 'n' && cs[i + 1] == 'i' && cs[i + 2] == 'l' && (i + 3 == n
        || !word_char(cs[i + 3])) {
        assert(word_at(cs@, i as int, nil_chars()));
        return Some(i + 3);
    }
    assert(!(word_at(cs@, i as int, nil_chars()) && word_boundary_after(cs@, i + 3)));
    None
}

fn match_key_at(cs: &Vec<char>, i: usize) -> (r: Option<usize>)
    requires
        i < cs@.len(),
    ensures
        match_result_is(r, key_match_end(cs@, i as int)),
{
    let n = cs.len();
    if !word_char(cs[i]) {
        return None;
    }
    if i > 0 && word_char(cs[i - 1]) {
        return None;
    }
    let mut j: usize = i;
    while j < n && word_char(cs[j])
        invariant
            i <= j <= n,
            n == cs@.len(),
            word_run_end(cs@, i as int) == word_run_end(cs@, j as int),
        decreases n - j,
    {
        j = j + 1;
    }
    assert(word_run_end(cs@, i as int) == j);
    if j < n && cs[j] == ':' {
        Some(j + 1)
    } else {
        None
    }
}

fn match_bracket_at(cs: &Vec<char>, i: usize) -> (r: Option<usize>)
    requires
        i < cs@.len(),
    ensures
        match_result_is(r, bracket_match_end(cs@, i as int)),
{
    let n = cs.len();
    if bracket_char(cs[i]) {
        Some(i + 1)
    } else {
        None
    }
}

/// The token of class `class` that starts exactly at `i`, if any.
fn match_token_at(cs: &Vec<char>, class: TokenClass, i: usize) -> (r: Option<usize>)
    requires
        i < cs@.len(),
    ensures
        match_result_is(r, match_end_at(cs@, class, i as int)),
{
    proof {
        reveal(match_end_at);
    }
    match class {
        TokenClass::StrLit => match_string_at(cs, i),
        TokenClass::Number => match_number_at(cs, i),
        TokenClass::BoolWord => match_bool_at(cs, i),
        TokenClass::KeyLabel => match_key_at(cs, i),
        TokenClass::Bracket => match_bracket_at(cs, i),
    }
}

/// All matches of class `class` in `cs`, scanning left to right without
/// overlap within the class.
pub fn find_class_matches(cs: &Vec<char>, class: TokenClass) -> (r: Vec<Span>)
    ensures
        models(r@) == class_matches(cs@, class),
{
    let n = cs.len();
    let mut r: Vec<Span> = Vec::new();
    let mut i: usize = 0;
    while i < n
        invariant
            i <= n,
            n == cs@.len(),
            models(r@) + class_matches_from(cs@, class, i as int) == class_matches(cs@, class),
        decreases n - i,
    {
        let ghost prev = models(r@);
        match match_token_at(cs, class, i) {
            Some(e) => {
                proof {
                    lemma_match_end_bounds(cs@, class, i as int);
                }
                let sp = Span { start: i, end: e, class };
                r.push(sp);
                proof {
                    assert(models(r@) =~= prev + seq![sp@]);
                    assert(class_matches_from(cs@, class, i as int) == seq![sp@]
                        + class_matches_from(cs@, class, e as int));
                    assert(models(r@) + class_matches_from(cs@, class, e as int) =~= prev + (seq![
                        sp@,
                    ] + class_matches_from(cs@, class, e as int)));
                }
                i = e;
            },
            None => {
                proof {
                    assert(class_matches_from(cs@, class, i as int) == class_matches_from(
                        cs@,
                        class,
                        i + 1,
                    ));
                }
                i = i + 1;
            },
        }
    }
    assert(class_matches_from(cs@, class, i as int) =~= Seq::empty());
    assert(models(r@) =~= class_matches(cs@, class));
    r
}

/// Does a terminal escape sequence start at position `i` of `cs`?
fn escape_match_at(cs: &Vec<char>, i: usize) -> (r: bool)
    requires
        i < cs@.len(),
    ensures
        r == escape_at(cs@, i as int),
{
    let n = cs.len();
    if n - i < 2 || cs[i] != '\x1b' || cs[i + 1] != '[' {
        return false;
    }
    let mut j: usize = i + 2;
    while j < n && csi_param_char(cs[j])
        invariant
            i + 2 <= j <= n,
            n == cs@.len(),
            forall|m: int| i + 2 <= m < j ==> is_csi_param_char(#[trigger] cs@[m]),
        decreases n - j,
    {
        j = j + 1;
    }
    if j < n && alpha_char(cs[j]) {
        assert(escape_at(cs@, i as int)) by {
            assert(i + 2 <= j < cs@.len() && is_alpha_char(cs@[j as int]) && (forall|m: int|
                i + 2 <= m < j ==> is_csi_param_char(#[trigger] cs@[m])));
        }
        true
    } else {
        assert(!escape_at(cs@, i as int)) by {
            if escape_at(cs@, i as int) {
                let k = choose|k: int|
                    #![trigger cs@[k]]
                    i + 2 <= k < cs@.len() && is_alpha_char(cs@[k]) && (forall|m: int|
                        i + 2 <= m < k ==> is_csi_param_char(#[trigger] cs@[m]));
                if k < j {
                    assert(is_csi_param_char(cs@[k]));
                } else if j < n {
                    if k > j {
                        assert(is_csi_param_char(cs@[j as int]));
                    }
                }
            }
        }
        false
    }
}

/// Does `cs` contain a terminal escape sequence?
pub fn scan_contains_escape(cs: &Vec<char>) -> (r: bool)
    ensures
        r == contains_escape(cs@),
{
    let n = cs.len();
    let mut i: usize = 0;
    while i < n
        invariant
            i <= n,
            n == cs@.len(),
            forall|p: int| 0 <= p < i ==> !escape_at(cs@, p),
        decreases n - i,
    {
        if escape_match_at(cs, i) {
            return true;
        }
        i = i + 1;
    }
    assert(!contains_escape(cs@)) by {
        if contains_escape(cs@) {
            let p = choose|p: int| escape_at(cs@, p);
            assert(0 <= p && p + 2 <= cs@.len());
        }
    }
    false
}

} // verus!
