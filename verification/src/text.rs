//! Character-level text scanning over `&str`, fully verified.
//!
//! Every executable function mirrors a spec function over `Seq<char>`;
//! the CSS and markup analysis is specified and proved in these terms.
//! Case-insensitive matching folds ASCII letters only.

use vstd::prelude::*;

verus! {

// ---------------------------------------------------------------------------
// Character classes
// ---------------------------------------------------------------------------

/// Whitespace recognised by the scanners: space, tab, newline, carriage
/// return, vertical tab and form feed.
pub open spec fn is_ws_char(c: char) -> bool {
    c == ' ' || c == '\t' || c == '\n' || c == '\r' || c == '\u{b}' || c == '\u{c}'
}

pub fn is_ws(c: char) -> (r: bool)
    ensures
        r == is_ws_char(c),
{
    c == ' ' || c == '\t' || c == '\n' || c == '\r' || c == '\u{b}' || c == '\u{c}'
}

/// ASCII lower-casing of one character; anything outside `A..=Z` is kept.
pub open spec fn lower_char(c: char) -> char {
    if 'A' <= c && c <= 'Z' {
        (((c as u8) + 32) as char)
    } else {
        c
    }
}

pub fn lower(c: char) -> (r: char)
    ensures
        r == lower_char(c),
{
    if 'A' <= c && c <= 'Z' {
        ((c as u8) + 32) as char
    } else {
        c
    }
}

/// ASCII lower-casing of a character sequence.
pub open spec fn lower_seq(s: Seq<char>) -> Seq<char> {
    s.map_values(|c: char| lower_char(c))
}

pub open spec fn is_digit_char(c: char) -> bool {
    '0' <= c && c <= '9'
}

pub fn is_digit(c: char) -> (r: bool)
    ensures
        r == is_digit_char(c),
{
    '0' <= c && c <= '9'
}

pub open spec fn is_quote_char(c: char) -> bool {
    c == '\'' || c == '"'
}

pub fn is_quote(c: char) -> (r: bool)
    ensures
        r == is_quote_char(c),
{
    c == '\'' || c == '"'
}

// ---------------------------------------------------------------------------
// Substring matching and search
// ---------------------------------------------------------------------------

/// `pat` occurs at position `i` of `s`, exactly.
pub open spec fn match_at(s: Seq<char>, pat: Seq<char>, i: int) -> bool {
    0 <= i && i + pat.len() <= s.len() && forall|k: int|
        0 <= k < pat.len() ==> s[i + k] == #[trigger] pat[k]
}

/// `pat` (given lower-case) occurs at position `i` of `s` up to ASCII case.
pub open spec fn match_ci_at(s: Seq<char>, pat: Seq<char>, i: int) -> bool {
    0 <= i && i + pat.len() <= s.len() && forall|k: int|
        0 <= k < pat.len() ==> lower_char(s[i + k]) == #[trigger] pat[k]
}

/// Smallest `j >= i` where `pat` occurs exactly, if any.
pub open spec fn find_from(s: Seq<char>, pat: Seq<char>, i: int) -> Option<int>
    decreases s.len() - i,
{
    if i < 0 || i + pat.len() > s.len() {
        None
    } else if match_at(s, pat, i) {
        Some(i)
    } else {
        find_from(s, pat, i + 1)
    }
}

/// Smallest `j >= i` where `pat` occurs up to ASCII case, if any.
pub open spec fn find_ci_from(s: Seq<char>, pat: Seq<char>, i: int) -> Option<int>
    decreases s.len() - i,
{
    if i < 0 || i + pat.len() > s.len() {
        None
    } else if match_ci_at(s, pat, i) {
        Some(i)
    } else {
        find_ci_from(s, pat, i + 1)
    }
}

/// `pat` occurs somewhere in `s` (exact match).
pub open spec fn contains_seq(s: Seq<char>, pat: Seq<char>) -> bool {
    find_from(s, pat, 0) is Some
}

/// `pat` (lower-case) occurs somewhere in `s`, up to ASCII case.
pub open spec fn contains_ci_seq(s: Seq<char>, pat: Seq<char>) -> bool {
    find_ci_from(s, pat, 0) is Some
}

/// A found occurrence lies between the start index and the end of `s`.
pub proof fn lemma_find_ci_bounds(s: Seq<char>, pat: Seq<char>, i: int)
    ensures
        match find_ci_from(s, pat, i) {
            Some(j) => i <= j && 0 <= j && j + pat.len() <= s.len(),
            None => true,
        },
    decreases s.len() - i,
{
    if i < 0 || i + pat.len() > s.len() {
    } else if match_ci_at(s, pat, i) {
    } else {
        lemma_find_ci_bounds(s, pat, i + 1);
    }
}

pub proof fn lemma_find_bounds(s: Seq<char>, pat: Seq<char>, i: int)
    ensures
        match find_from(s, pat, i) {
            Some(j) => i <= j && 0 <= j && j + pat.len() <= s.len(),
            None => true,
        },
    decreases s.len() - i,
{
    if i < 0 || i + pat.len() > s.len() {
    } else if match_at(s, pat, i) {
    } else {
        lemma_find_bounds(s, pat, i + 1);
    }
}

pub fn match_ci_x(s: &str, n: usize, pat: &str, m: usize, i: usize) -> (r: bool)
    requires
        n == s@.len(),
        m == pat@.len(),
        i + m <= n,
    ensures
        r == match_ci_at(s@, pat@, i as int),
{
    let mut k: usize = 0;
    while k < m
        invariant
            k <= m,
            n == s@.len(),
            m == pat@.len(),
            i + m <= n,
            forall|k2: int| 0 <= k2 < k ==> lower_char(s@[i + k2]) == #[trigger] pat@[k2],
        decreases m - k,
    {
        let c = lower(s.get_char(i + k));
        if c != pat.get_char(k) {
            return false;
        }
        k = k + 1;
    }
    true
}

pub fn match_exact_x(s: &str, n: usize, pat: &str, m: usize, i: usize) -> (r: bool)
    requires
        n == s@.len(),
        m == pat@.len(),
        i + m <= n,
    ensures
        r == match_at(s@, pat@, i as int),
{
    let mut k: usize = 0;
    while k < m
        invariant
            k <= m,
            n == s@.len(),
            m == pat@.len(),
            i + m <= n,
            forall|k2: int| 0 <= k2 < k ==> s@[i + k2] == #[trigger] pat@[k2],
        decreases m - k,
    {
        let c = s.get_char(i + k);
        if c != pat.get_char(k) {
            return false;
        }
        k = k + 1;
    }
    true
}

/// First occurrence of `pat` in `s` at or after `from`, up to ASCII case.
pub fn find_ci(s: &str, n: usize, pat: &str, m: usize, from: usize) -> (r: Option<usize>)
    requires
        n == s@.len(),
        m == pat@.len(),
        from <= n,
    ensures
        match r {
            Some(j) => find_ci_from(s@, pat@, from as int) == Some(j as int) && from <= j && j + m
                <= n,
            None => find_ci_from(s@, pat@, from as int) is None,
        },
    decreases n - from,
{
    if m > n - from {
        return None;
    }
    if match_ci_x(s, n, pat, m, from) {
        Some(from)
    } else {
        if from == n {
            None
        } else {
            find_ci(s, n, pat, m, from + 1)
        }
    }
}

/// First exact occurrence of `pat` in `s` at or after `from`.
pub fn find_exact(s: &str, n: usize, pat: &str, m: usize, from: usize) -> (r: Option<usize>)
    requires
        n == s@.len(),
        m == pat@.len(),
        from <= n,
    ensures
        match r {
            Some(j) => find_from(s@, pat@, from as int) == Some(j as int) && from <= j && j + m
                <= n,
            None => find_from(s@, pat@, from as int) is None,
        },
    decreases n - from,
{
    if m > n - from {
        return None;
    }
    if match_exact_x(s, n, pat, m, from) {
        Some(from)
    } else {
        if from == n {
            None
        } else {
            find_exact(s, n, pat, m, from + 1)
        }
    }
}

/// Relies on `String::push`: appends exactly the one character.
#[verifier::external_body]
pub fn push_char(s: &mut String, c: char)
    ensures
        final(s)@ == old(s)@.push(c),
{
    s.push(c);
}

/// Whether two texts hold the same characters.
pub fn str_eq(a: &str, b: &str) -> (r: bool)
    ensures
        r == (a@ == b@),
{
    let na = a.unicode_len();
    let nb = b.unicode_len();
    if na != nb {
        proof {
            if a@ == b@ {
                assert(a@.len() == b@.len());
            }
        }
        false
    } else {
        let m = match_exact_x(a, na, b, nb, 0);
        proof {
            if match_at(a@, b@, 0) {
                assert forall|k: int| 0 <= k < a@.len() implies a@[k] == b@[k] by {
                    assert(a@[0 + k] == b@[k]);
                }
                assert(a@ =~= b@);
            }
            if a@ == b@ {
                assert(match_at(a@, b@, 0));
            }
        }
        m
    }
}

/// Whether `pat` occurs anywhere in `s`, exact match.
pub fn contains_str(s: &str, pat: &str) -> (r: bool)
    ensures
        r == contains_seq(s@, pat@),
{
    let n = s.unicode_len();
    let m = pat.unicode_len();
    find_exact(s, n, pat, m, 0).is_some()
}

/// Whether `pat` (lower-case) occurs anywhere in `s`, up to ASCII case.
pub fn contains_ci_str(s: &str, pat: &str) -> (r: bool)
    ensures
        r == contains_ci_seq(s@, pat@),
{
    let n = s.unicode_len();
    let m = pat.unicode_len();
    find_ci(s, n, pat, m, 0).is_some()
}

// ---------------------------------------------------------------------------
// Whitespace runs, digit runs, stop sets
// ---------------------------------------------------------------------------

/// First position `>= i` holding a non-whitespace character, or the end.
pub open spec fn skip_ws_from(s: Seq<char>, i: int) -> int
    decreases s.len() - i,
{
    if !(0 <= i < s.len()) {
        i
    } else if is_ws_char(s[i]) {
        skip_ws_from(s, i + 1)
    } else {
        i
    }
}

pub proof fn lemma_skip_ws_bounds(s: Seq<char>, i: int)
    requires
        0 <= i <= s.len(),
    ensures
        i <= skip_ws_from(s, i) <= s.len(),
    decreases s.len() - i,
{
    if i < s.len() && is_ws_char(s[i]) {
        lemma_skip_ws_bounds(s, i + 1);
    }
}

pub fn skip_ws(s: &str, n: usize, i: usize) -> (r: usize)
    requires
        n == s@.len(),
        i <= n,
    ensures
        r as int == skip_ws_from(s@, i as int),
        i <= r <= n,
    decreases n - i,
{
    if i == n {
        i
    } else if is_ws(s.get_char(i)) {
        skip_ws(s, n, i + 1)
    } else {
        i
    }
}

/// End of the digit run starting at `i`.
pub open spec fn digits_end_from(s: Seq<char>, i: int) -> int
    decreases s.len() - i,
{
    if !(0 <= i < s.len()) {
        i
    } else if is_digit_char(s[i]) {
        digits_end_from(s, i + 1)
    } else {
        i
    }
}

pub fn digits_end(s: &str, n: usize, i: usize) -> (r: usize)
    requires
        n == s@.len(),
        i <= n,
    ensures
        r as int == digits_end_from(s@, i as int),
        i <= r <= n,
    decreases n - i,
{
    if i == n {
        i
    } else if is_digit(s.get_char(i)) {
        digits_end(s, n, i + 1)
    } else {
        i
    }
}

/// The stop sets that end a scanned value.
pub enum StopSet {
    /// Quotes, `;` and `,`: ends a family name.
    FamilyValue,
    /// Quotes and `)`: ends the payload of a parenthesised token.
    UrlValue,
    /// Quotes only: ends a bare quoted string.
    QuoteOnly,
    /// `?` and `#`: ends the file-name part of a URL.
    QueryStart,
}

pub open spec fn in_stop(k: StopSet, c: char) -> bool {
    match k {
        StopSet::FamilyValue => c == '\'' || c == '"' || c == ';' || c == ',',
        StopSet::UrlValue => c == '\'' || c == '"' || c == ')',
        StopSet::QuoteOnly => c == '\'' || c == '"',
        StopSet::QueryStart => c == '?' || c == '#',
    }
}

pub fn in_stop_x(k: &StopSet, c: char) -> (r: bool)
    ensures
        r == in_stop(*k, c),
{
    match k {
        StopSet::FamilyValue => c == '\'' || c == '"' || c == ';' || c == ',',
        StopSet::UrlValue => c == '\'' || c == '"' || c == ')',
        StopSet::QuoteOnly => c == '\'' || c == '"',
        StopSet::QueryStart => c == '?' || c == '#',
    }
}

/// First position `>= i` holding a stop character, or the end.
pub open spec fn scan_stop_from(s: Seq<char>, k: StopSet, i: int) -> int
    decreases s.len() - i,
{
    if !(0 <= i < s.len()) {
        i
    } else if in_stop(k, s[i]) {
        i
    } else {
        scan_stop_from(s, k, i + 1)
    }
}

pub proof fn lemma_scan_stop_bounds(s: Seq<char>, k: StopSet, i: int)
    requires
        0 <= i <= s.len(),
    ensures
        i <= scan_stop_from(s, k, i) <= s.len(),
    decreases s.len() - i,
{
    if i < s.len() && !in_stop(k, s[i]) {
        lemma_scan_stop_bounds(s, k, i + 1);
    }
}

pub fn scan_stop(s: &str, n: usize, k: &StopSet, i: usize) -> (r: usize)
    requires
        n == s@.len(),
        i <= n,
    ensures
        r as int == scan_stop_from(s@, *k, i as int),
        i <= r <= n,
    decreases n - i,
{
    if i == n {
        i
    } else if in_stop_x(k, s.get_char(i)) {
        i
    } else {
        scan_stop(s, n, k, i + 1)
    }
}

// ---------------------------------------------------------------------------
// Trimming
// ---------------------------------------------------------------------------

/// Position after the last non-whitespace character before `j`.
pub open spec fn rws_from(s: Seq<char>, j: int) -> int
    decreases j,
{
    if !(0 < j <= s.len()) {
        j
    } else if is_ws_char(s[j - 1]) {
        rws_from(s, j - 1)
    } else {
        j
    }
}

/// `s` with leading and trailing whitespace removed.
pub open spec fn trim_seq(s: Seq<char>) -> Seq<char> {
    let a = skip_ws_from(s, 0);
    let b = rws_from(s, s.len() as int);
    if a <= b {
        s.subrange(a, b)
    } else {
        Seq::empty()
    }
}

/// `s` with trailing whitespace removed.
pub open spec fn rtrim_seq(s: Seq<char>) -> Seq<char> {
    s.subrange(0, rws_from(s, s.len() as int))
}

proof fn lemma_skip_ws_exact(s: Seq<char>, x: int)
    requires
        0 <= x <= s.len(),
        forall|k: int| 0 <= k < x ==> is_ws_char(#[trigger] s[k]),
        x == s.len() || !is_ws_char(s[x]),
    ensures
        skip_ws_from(s, 0) == x,
{
    lemma_skip_ws_run(s, 0, x);
}

proof fn lemma_skip_ws_run(s: Seq<char>, i: int, x: int)
    requires
        0 <= i <= x <= s.len(),
        forall|k: int| i <= k < x ==> is_ws_char(#[trigger] s[k]),
        x == s.len() || !is_ws_char(s[x]),
    ensures
        skip_ws_from(s, i) == x,
    decreases x - i,
{
    if i < x {
        lemma_skip_ws_run(s, i + 1, x);
    }
}

proof fn lemma_rws_exact(s: Seq<char>, j: int, y: int)
    requires
        0 <= y <= j <= s.len(),
        forall|k: int| y <= k < j ==> is_ws_char(#[trigger] s[k]),
        y == 0 || !is_ws_char(s[y - 1]),
    ensures
        rws_from(s, j) == y,
    decreases j - y,
{
    if y < j {
        lemma_rws_exact(s, j - 1, y);
    }
}

/// The substring `s[from..to]` with surrounding whitespace trimmed,
/// as a fresh `String`.
pub fn trim_substring(s: &str, n: usize, from: usize, to: usize) -> (r: String)
    requires
        n == s@.len(),
        from <= to <= n,
    ensures
        r@ == trim_seq(s@.subrange(from as int, to as int)),
{
    let ghost t = s@.subrange(from as int, to as int);
    let mut a = from;
    while a < to && is_ws(s.get_char(a))
        invariant
            from <= a <= to <= n,
            n == s@.len(),
            forall|k: int| from <= k < a ==> is_ws_char(#[trigger] s@[k]),
        decreases to - a,
    {
        a = a + 1;
    }
    let mut b = to;
    while b > a && is_ws(s.get_char(b - 1))
        invariant
            a <= b <= to <= n,
            n == s@.len(),
            forall|k: int| b <= k < to ==> is_ws_char(#[trigger] s@[k]),
        decreases b,
    {
        b = b - 1;
    }
    proof {
        assert(forall|k: int| 0 <= k < t.len() ==> t[k] == #[trigger] s@[from + k]);
        if a == to {
            // everything is whitespace
            lemma_skip_ws_exact(t, t.len() as int);
            lemma_rws_exact(t, t.len() as int, 0);
        } else {
            lemma_skip_ws_exact(t, a - from);
            lemma_rws_exact(t, t.len() as int, b - from);
        }
    }
    let piece = s.substring_char(a, b);
    let r = piece.to_owned();
    proof {
        if a == to {
            assert(trim_seq(t) =~= s@.subrange(a as int, b as int));
        } else {
            assert(trim_seq(t) =~= s@.subrange(a as int, b as int));
        }
    }
    r
}

/// The substring `s[from..to]` with trailing whitespace trimmed,
/// as a fresh `String`.
pub fn rtrim_substring(s: &str, n: usize, from: usize, to: usize) -> (r: String)
    requires
        n == s@.len(),
        from <= to <= n,
    ensures
        r@ == rtrim_seq(s@.subrange(from as int, to as int)),
{
    let ghost t = s@.subrange(from as int, to as int);
    let mut b = to;
    while b > from && is_ws(s.get_char(b - 1))
        invariant
            from <= b <= to <= n,
            n == s@.len(),
            forall|k: int| b <= k < to ==> is_ws_char(#[trigger] s@[k]),
        decreases b,
    {
        b = b - 1;
    }
    proof {
        assert(forall|k: int| 0 <= k < t.len() ==> t[k] == #[trigger] s@[from + k]);
        lemma_rws_exact(t, t.len() as int, b - from);
    }
    let piece = s.substring_char(from, b);
    let r = piece.to_owned();
    proof {
        assert(rtrim_seq(t) =~= s@.subrange(from as int, b as int));
    }
    r
}

/// Position just after the last occurrence of `c` before `j`, or `0`
/// when none occurs there.
pub open spec fn rscan_after(s: Seq<char>, c: char, j: int) -> int
    decreases j,
{
    if !(0 < j <= s.len()) {
        0
    } else if s[j - 1] == c {
        j
    } else {
        rscan_after(s, c, j - 1)
    }
}

pub fn rscan(s: &str, n: usize, c: char, j: usize) -> (r: usize)
    requires
        n == s@.len(),
        j <= n,
    ensures
        r as int == rscan_after(s@, c, j as int),
        r <= j,
    decreases j,
{
    if j == 0 {
        0
    } else if s.get_char(j - 1) == c {
        j
    } else {
        rscan(s, n, c, j - 1)
    }
}


} // verus!
