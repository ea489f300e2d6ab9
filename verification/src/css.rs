//! The style extractor: analysis of CSS text into font-face facts and
//! `@import` targets.
//!
//! The grammar is scanned directly over characters. A `@font-face` block is
//! the text between the first `{` after the keyword and the next `}`; an
//! unclosed block is simply never matched. Within a block, declaration
//! values run to the first quote or separator, keyword alternatives are
//! tried in a fixed order (so `bold` preempts `bolder`), and every
//! `url(...)` occurrence, with an optional trailing `format(...)`, is a
//! source candidate. Candidates with a `data:` scheme or an unresolvable
//! reference are dropped; among the rest the first of the highest format
//! priority wins.

use vstd::prelude::*;
use crate::text::{
    is_ws_char, is_quote_char, is_digit_char, is_quote, is_digit, match_at, match_ci_at,
    find_from, find_ci_from, contains_seq, skip_ws_from, scan_stop_from,
    digits_end_from, trim_seq, rtrim_seq, StopSet, find_ci, find_exact, skip_ws, scan_stop,
    digits_end, trim_substring, rtrim_substring, contains_str, match_ci_x, rscan_after, rscan,
    lemma_find_ci_bounds, lemma_find_bounds, lemma_skip_ws_bounds, lemma_scan_stop_bounds,
    lower_seq,
};
use crate::urls::{url_join, resolve_url, url_parse_parts, parse_url_parts};

verus! {

/// One usable `@font-face` declaration: family, weight and style as
/// written (or defaulted), plus the chosen resource URL and its format.
#[derive(Debug, Clone, PartialEq, Eq)]
pub struct RawFontFace {
    pub family: String,
    pub weight: String,
    pub style: String,
    pub url: String,
    pub format: String,
}

/// The mathematical shape of a font-face fact.
pub struct FaceV {
    pub family: Seq<char>,
    pub weight: Seq<char>,
    pub style: Seq<char>,
    pub url: Seq<char>,
    pub format: Seq<char>,
}

impl View for RawFontFace {
    type V = FaceV;

    open spec fn view(&self) -> FaceV {
        FaceV {
            family: self.family@,
            weight: self.weight@,
            style: self.style@,
            url: self.url@,
            format: self.format@,
        }
    }
}

pub open spec fn face_views(v: Seq<RawFontFace>) -> Seq<FaceV> {
    v.map_values(|x: RawFontFace| x@)
}

pub open spec fn str_views(v: Seq<String>) -> Seq<Seq<char>> {
    v.map_values(|s: String| s@)
}

// ---------------------------------------------------------------------------
// Format priority and inference, font source classification
// ---------------------------------------------------------------------------

/// Preference of a source format: `woff2` over `woff` over `truetype`
/// over `opentype` over anything else.
pub open spec fn priority(f: Seq<char>) -> int {
    let l = lower_seq(f);
    if l == "woff2"@ {
        4
    } else if l == "woff"@ {
        3
    } else if l == "truetype"@ || l == "ttf"@ {
        2
    } else if l == "opentype"@ || l == "otf"@ {
        1
    } else {
        0
    }
}

proof fn lemma_lower_eq(s: Seq<char>, p: Seq<char>)
    ensures
        (lower_seq(s) == p) <==> (s.len() == p.len() && match_ci_at(s, p, 0)),
{
    assert(lower_seq(s).len() == s.len());
    if lower_seq(s) == p {
        assert forall|k: int|
            0 <= k < p.len() implies crate::text::lower_char(s[0 + k]) == #[trigger] p[k] by {
            assert(p[k] == lower_seq(s)[k]);
            assert(lower_seq(s)[k] == crate::text::lower_char(s[k]));
        }
        assert(match_ci_at(s, p, 0));
    }
    if s.len() == p.len() && match_ci_at(s, p, 0) {
        assert forall|k: int| 0 <= k < s.len() implies lower_seq(s)[k] == #[trigger] p[k] by {
            assert(crate::text::lower_char(s[0 + k]) == p[k]);
            assert(lower_seq(s)[k] == crate::text::lower_char(s[k]));
        }
        assert(lower_seq(s) =~= p);
    }
}

/// Whether `s`, ASCII-lowercased, equals the (lower-case) `lit`.
pub fn eq_ci(s: &str, lit: &str) -> (r: bool)
    ensures
        r == (lower_seq(s@) == lit@),
{
    let n = s.unicode_len();
    let m = lit.unicode_len();
    proof {
        lemma_lower_eq(s@, lit@);
        assert(lower_seq(s@).len() == s@.len());
    }
    if n != m {
        false
    } else {
        match_ci_x(s, n, lit, m, 0)
    }
}

/// The priority rank of a format token.
pub fn format_priority(f: &str) -> (r: i32)
    ensures
        r as int == priority(f@),
{
    if eq_ci(f, "woff2") {
        4
    } else if eq_ci(f, "woff") {
        3
    } else if eq_ci(f, "truetype") || eq_ci(f, "ttf") {
        2
    } else if eq_ci(f, "opentype") || eq_ci(f, "otf") {
        1
    } else {
        0
    }
}

/// The file extension of a URL: the text after the last `.` of the last
/// `/`-segment, query and fragment stripped; nothing when that segment
/// holds no dot.
pub open spec fn url_extension(u: Seq<char>) -> Option<Seq<char>> {
    let cut = scan_stop_from(u, StopSet::QueryStart, 0);
    let seg = rscan_after(u, '/', cut);
    let d = rscan_after(u, '.', cut);
    if d > seg {
        Some(u.subrange(d, cut))
    } else {
        None
    }
}

/// The format a resource URL implies, keyed on its file extension,
/// case-insensitively.
pub open spec fn infer_format(u: Seq<char>) -> Seq<char> {
    match url_extension(u) {
        None => "unknown"@,
        Some(e) => {
            let l = lower_seq(e);
            if l == "woff2"@ {
                "woff2"@
            } else if l == "woff"@ {
                "woff"@
            } else if l == "ttf"@ {
                "truetype"@
            } else if l == "otf"@ {
                "opentype"@
            } else if l == "eot"@ {
                "embedded-opentype"@
            } else if l == "svg"@ {
                "svg"@
            } else {
                "unknown"@
            }
        },
    }
}

pub fn infer_format_from_url(u: &str) -> (r: String)
    ensures
        r@ == infer_format(u@),
{
    let n = u.unicode_len();
    let cut = scan_stop(u, n, &StopSet::QueryStart, 0);
    let seg = rscan(u, n, '/', cut);
    let d = rscan(u, n, '.', cut);
    if d > seg {
        let ext = u.substring_char(d, cut);
        if eq_ci(ext, "woff2") {
            String::from_str("woff2")
        } else if eq_ci(ext, "woff") {
            String::from_str("woff")
        } else if eq_ci(ext, "ttf") {
            String::from_str("truetype")
        } else if eq_ci(ext, "otf") {
            String::from_str("opentype")
        } else if eq_ci(ext, "eot") {
            String::from_str("embedded-opentype")
        } else if eq_ci(ext, "svg") {
            String::from_str("svg")
        } else {
            String::from_str("unknown")
        }
    } else {
        String::from_str("unknown")
    }
}

/// The provider a host is attributed to.
pub open spec fn host_source(h: Seq<char>) -> Seq<char> {
    if contains_seq(h, "fonts.gstatic.com"@) || contains_seq(h, "fonts.googleapis.com"@) {
        "google-fonts"@
    } else if contains_seq(h, "use.typekit.net"@) || contains_seq(h, "p.typekit.net"@) {
        "adobe-fonts"@
    } else {
        "custom"@
    }
}

/// The provider a resource URL is attributed to, judged from its host;
/// a URL that does not parse, or has no host, counts as custom.
pub open spec fn source_of(u: Seq<char>) -> Seq<char> {
    match url_parse_parts(u) {
        Some(p) => host_source(p.host),
        None => "custom"@,
    }
}

pub fn detect_font_source(u: &str) -> (r: String)
    ensures
        r@ == source_of(u@),
{
    match parse_url_parts(u) {
        Some(p) => {
            let h = p.host.as_str();
            if contains_str(h, "fonts.gstatic.com") || contains_str(h, "fonts.googleapis.com") {
                String::from_str("google-fonts")
            } else if contains_str(h, "use.typekit.net") || contains_str(h, "p.typekit.net") {
                String::from_str("adobe-fonts")
            } else {
                String::from_str("custom")
            }
        },
        None => String::from_str("custom"),
    }
}

// ---------------------------------------------------------------------------
// Parenthesised payloads: url( ... ) and format( ... )
// ---------------------------------------------------------------------------

/// A parsed parenthesised payload: its content and the position just
/// after the closing parenthesis.
pub struct ParenV {
    pub content: Seq<char>,
    pub end: int,
}

/// Parse the payload of a parenthesised token whose opening parenthesis
/// ends just before `p`: optional whitespace, an optional quote, at least
/// one content character, an optional closing quote, optional whitespace,
/// then `)`. Content stopped by a closing parenthesis loses trailing
/// whitespace; content stopped by a quote is kept as written.
pub open spec fn paren_body(s: Seq<char>, p: int) -> Option<ParenV> {
    let p0 = skip_ws_from(s, p);
    let c0 = if p0 < s.len() && is_quote_char(s[p0]) {
        p0 + 1
    } else {
        p0
    };
    let q = scan_stop_from(s, StopSet::UrlValue, c0);
    if q <= c0 || q >= s.len() {
        None
    } else if is_quote_char(s[q]) {
        let t = skip_ws_from(s, q + 1);
        if t < s.len() && s[t] == ')' {
            Some(ParenV { content: s.subrange(c0, q), end: t + 1 })
        } else {
            None
        }
    } else {
        // the stop is the closing parenthesis itself
        Some(ParenV { content: rtrim_seq(s.subrange(c0, q)), end: q + 1 })
    }
}

pub proof fn lemma_paren_bounds(s: Seq<char>, p: int)
    requires
        0 <= p <= s.len(),
    ensures
        match paren_body(s, p) {
            Some(pv) => p < pv.end <= s.len(),
            None => true,
        },
{
    lemma_skip_ws_bounds(s, p);
    let p0 = skip_ws_from(s, p);
    let c0 = if p0 < s.len() && is_quote_char(s[p0]) {
        p0 + 1
    } else {
        p0
    };
    lemma_scan_stop_bounds(s, StopSet::UrlValue, c0);
    let q = scan_stop_from(s, StopSet::UrlValue, c0);
    if c0 < q < s.len() && is_quote_char(s[q]) {
        lemma_skip_ws_bounds(s, q + 1);
    }
}

/// Executable twin of `paren_body`.
fn parse_paren_body(s: &str, n: usize, p: usize) -> (r: Option<(String, usize)>)
    requires
        n == s@.len(),
        p <= n,
    ensures
        match r {
            Some(pr) => paren_body(s@, p as int) == Some(
                ParenV { content: pr.0@, end: pr.1 as int },
            ) && p < pr.1 <= n,
            None => paren_body(s@, p as int) is None,
        },
{
    proof {
        lemma_paren_bounds(s@, p as int);
    }
    let p0 = skip_ws(s, n, p);
    let c0 = if p0 < n && is_quote(s.get_char(p0)) {
        p0 + 1
    } else {
        p0
    };
    let q = scan_stop(s, n, &StopSet::UrlValue, c0);
    if q <= c0 || q >= n {
        None
    } else if is_quote(s.get_char(q)) {
        let t = skip_ws(s, n, q + 1);
        if t < n && s.get_char(t) == ')' {
            let content = s.substring_char(c0, q).to_owned();
            Some((content, t + 1))
        } else {
            None
        }
    } else {
        let content = rtrim_substring(s, n, c0, q);
        Some((content, q + 1))
    }
}

// ---------------------------------------------------------------------------
// Source candidates within a block
// ---------------------------------------------------------------------------

/// One `url(...)` candidate: its raw content, an optional explicit
/// `format(...)` token, and the position scanning continues from.
pub struct CandV {
    pub raw: Seq<char>,
    pub fmt: Option<Seq<char>>,
    pub end: int,
}

/// The first source candidate at or after `i`.
pub open spec fn url_cand_from(s: Seq<char>, i: int) -> Option<CandV>
    decreases s.len() - i,
    when 0 <= i <= s.len()
    via url_cand_from_dec
{
    match find_ci_from(s, "url("@, i) {
        None => None,
        Some(j) => match paren_body(s, j + "url("@.len()) {
            None => url_cand_from(s, j + 1),
            Some(pv) => {
                let w = skip_ws_from(s, pv.end);
                if match_ci_at(s, "format("@, w) {
                    match paren_body(s, w + "format("@.len()) {
                        Some(fv) => Some(CandV { raw: pv.content, fmt: Some(fv.content), end: fv.end }),
                        None => Some(CandV { raw: pv.content, fmt: None, end: pv.end }),
                    }
                } else {
                    Some(CandV { raw: pv.content, fmt: None, end: pv.end })
                }
            },
        },
    }
}

#[via_fn]
proof fn url_cand_from_dec(s: Seq<char>, i: int) {
    reveal_strlit("url(");
    reveal_strlit("format(");
    lemma_find_ci_bounds(s, "url("@, i);
}

pub proof fn lemma_url_cand_bounds(s: Seq<char>, i: int)
    requires
        0 <= i <= s.len(),
    ensures
        match url_cand_from(s, i) {
            Some(c) => i < c.end <= s.len(),
            None => true,
        },
    decreases s.len() - i,
{
    reveal_strlit("url(");
    reveal_strlit("format(");
    lemma_find_ci_bounds(s, "url("@, i);
    match find_ci_from(s, "url("@, i) {
        None => {},
        Some(j) => {
            lemma_paren_bounds(s, j + "url("@.len());
            match paren_body(s, j + "url("@.len()) {
                None => {
                    lemma_url_cand_bounds(s, j + 1);
                },
                Some(pv) => {
                    lemma_skip_ws_bounds(s, pv.end);
                    let w = skip_ws_from(s, pv.end);
                    if match_ci_at(s, "format("@, w) {
                        lemma_paren_bounds(s, w + "format("@.len());
                    }
                },
            }
        },
    }
}

/// Executable twin of `url_cand_from`.
fn next_url_cand(s: &str, n: usize, i: usize) -> (r: Option<(String, Option<String>, usize)>)
    requires
        n == s@.len(),
        i <= n,
    ensures
        match r {
            Some(c) => url_cand_from(s@, i as int) == Some(
                CandV {
                    raw: c.0@,
                    fmt: match c.1 {
                        Some(f) => Some(f@),
                        None => None,
                    },
                    end: c.2 as int,
                },
            ) && i < c.2 <= n,
            None => url_cand_from(s@, i as int) is None,
        },
    decreases n - i,
{
    proof {
        reveal_strlit("url(");
        reveal_strlit("format(");
        lemma_url_cand_bounds(s@, i as int);
    }
    let pat = "url(";
    let pm = pat.unicode_len();
    match find_ci(s, n, pat, pm, i) {
        None => None,
        Some(j) => {
            match parse_paren_body(s, n, j + pm) {
                None => next_url_cand(s, n, j + 1),
                Some(pr) => {
                    let w = skip_ws(s, n, pr.1);
                    let fpat = "format(";
                    let fm = fpat.unicode_len();
                    if fm <= n - w && match_ci_x(s, n, fpat, fm, w) {
                        match parse_paren_body(s, n, w + fm) {
                            Some(fr) => Some((pr.0, Some(fr.0), fr.1)),
                            None => Some((pr.0, None, pr.1)),
                        }
                    } else {
                        proof {
                            if w + fm > n {
                                assert(!match_ci_at(s@, fpat@, w as int));
                            }
                        }
                        Some((pr.0, None, pr.1))
                    }
                },
            }
        },
    }
}

/// What a raw candidate contributes: nothing for `data:` URLs or
/// unresolvable references; otherwise the resolved URL paired with the
/// explicit format, or the format the URL implies.
pub open spec fn eval_cand(raw0: Seq<char>, fmt: Option<Seq<char>>, base: Seq<char>) -> Option<
    (Seq<char>, Seq<char>),
> {
    let raw = trim_seq(raw0);
    if match_at(raw, "data:"@, 0) {
        None
    } else {
        match url_join(base, raw) {
            None => None,
            Some(u) => Some(
                (
                    u,
                    match fmt {
                        Some(f) => f,
                        None => infer_format(u),
                    },
                ),
            ),
        }
    }
}

/// The running best candidate, replaced only by a strictly higher
/// priority, so the earliest of the best priority wins.
pub open spec fn better(
    cur: Option<(Seq<char>, Seq<char>)>,
    cand: Option<(Seq<char>, Seq<char>)>,
) -> Option<(Seq<char>, Seq<char>)> {
    match cand {
        None => cur,
        Some(c) => {
            let p = priority(c.1);
            let cp = match cur {
                None => -1,
                Some(x) => priority(x.1),
            };
            if p > cp {
                cand
            } else {
                cur
            }
        },
    }
}

/// The selected source of a block, folding `better` over all candidates
/// at or after `i`, starting from `cur`.
pub open spec fn best_src_from(
    s: Seq<char>,
    base: Seq<char>,
    i: int,
    cur: Option<(Seq<char>, Seq<char>)>,
) -> Option<(Seq<char>, Seq<char>)>
    decreases s.len() - i,
    when 0 <= i <= s.len()
    via best_src_from_dec
{
    match url_cand_from(s, i) {
        None => cur,
        Some(c) => best_src_from(s, base, c.end, better(cur, eval_cand(c.raw, c.fmt, base))),
    }
}

#[via_fn]
proof fn best_src_from_dec(s: Seq<char>, base: Seq<char>, i: int, cur: Option<(Seq<char>, Seq<char>)>) {
    lemma_url_cand_bounds(s, i);
}

pub open spec fn opt_pair_view(x: Option<(String, String)>) -> Option<(Seq<char>, Seq<char>)> {
    match x {
        Some(p) => Some((p.0@, p.1@)),
        None => None,
    }
}

/// Executable twin of `eval_cand`.
fn eval_candidate(raw0: &str, fmt: Option<String>, base: &str) -> (r: Option<(String, String)>)
    ensures
        opt_pair_view(r) == eval_cand(
            raw0@,
            match fmt {
                Some(f) => Some(f@),
                None => None,
            },
            base@,
        ),
{
    let n = raw0.unicode_len();
    let raw = trim_substring(raw0, n, 0, n);
    proof {
        assert(raw0@.subrange(0, n as int) =~= raw0@);
    }
    let rn = raw.as_str().unicode_len();
    let dpat = "data:";
    let dm = dpat.unicode_len();
    let is_data = if dm <= rn {
        crate::text::match_exact_x(raw.as_str(), rn, dpat, dm, 0)
    } else {
        proof {
            assert(!match_at(raw@, dpat@, 0));
        }
        false
    };
    if is_data {
        None
    } else {
        match resolve_url(base, raw.as_str()) {
            None => None,
            Some(u) => {
                let f = match fmt {
                    Some(f0) => f0,
                    None => infer_format_from_url(u.as_str()),
                };
                Some((u, f))
            },
        }
    }
}

/// Executable twin of `best_src_from`.
fn best_src(s: &str, n: usize, base: &str, i: usize, cur: Option<(String, String)>) -> (r: Option<
    (String, String),
>)
    requires
        n == s@.len(),
        i <= n,
    ensures
        opt_pair_view(r) == best_src_from(s@, base@, i as int, opt_pair_view(cur)),
    decreases n - i,
{
    match next_url_cand(s, n, i) {
        None => cur,
        Some(c) => {
            let cand = eval_candidate(c.0.as_str(), c.1, base);
            let next = match (cand, cur) {
                (None, cur2) => cur2,
                (Some(cd), None) => Some(cd),
                (Some(cd), Some(cu)) => {
                    let p = format_priority(cd.1.as_str());
                    let cp = format_priority(cu.1.as_str());
                    if p > cp {
                        Some(cd)
                    } else {
                        Some(cu)
                    }
                },
            };
            best_src(s, n, base, c.2, next)
        },
    }
}

// ---------------------------------------------------------------------------
// Declarations within a block
// ---------------------------------------------------------------------------

/// The family a block declares: the value after `font-family:`, quotes
/// optional, running to the first quote or separator, and only accepted
/// when a `;` or `,` terminator follows; trimmed.
pub open spec fn family_from(blk: Seq<char>, i: int) -> Option<Seq<char>>
    decreases blk.len() - i,
    when 0 <= i <= blk.len()
    via family_from_dec
{
    match find_ci_from(blk, "font-family:"@, i) {
        None => None,
        Some(j) => {
            let p0 = skip_ws_from(blk, j + "font-family:"@.len());
            let p = if p0 < blk.len() && is_quote_char(blk[p0]) {
                p0 + 1
            } else {
                p0
            };
            let q = scan_stop_from(blk, StopSet::FamilyValue, p);
            if q <= p {
                family_from(blk, j + 1)
            } else {
                let t0 = if q < blk.len() && is_quote_char(blk[q]) {
                    q + 1
                } else {
                    q
                };
                let t = skip_ws_from(blk, t0);
                if t < blk.len() && (blk[t] == ';' || blk[t] == ',') {
                    Some(trim_seq(blk.subrange(p, q)))
                } else {
                    family_from(blk, j + 1)
                }
            }
        },
    }
}

#[via_fn]
proof fn family_from_dec(blk: Seq<char>, i: int) {
    reveal_strlit("font-family:");
    lemma_find_ci_bounds(blk, "font-family:"@, i);
}

/// Executable twin of `family_from`.
fn parse_family(blk: &str, n: usize, i: usize) -> (r: Option<String>)
    requires
        n == blk@.len(),
        i <= n,
    ensures
        match r {
            Some(f) => family_from(blk@, i as int) == Some(f@),
            None => family_from(blk@, i as int) is None,
        },
    decreases n - i,
{
    proof {
        reveal_strlit("font-family:");
        lemma_find_ci_bounds(blk@, "font-family:"@, i as int);
    }
    let pat = "font-family:";
    let pm = pat.unicode_len();
    match find_ci(blk, n, pat, pm, i) {
        None => None,
        Some(j) => {
            let p0 = skip_ws(blk, n, j + pm);
            let p = if p0 < n && is_quote(blk.get_char(p0)) {
                p0 + 1
            } else {
                p0
            };
            proof {
                lemma_scan_stop_bounds(blk@, StopSet::FamilyValue, p as int);
            }
            let q = scan_stop(blk, n, &StopSet::FamilyValue, p);
            if q <= p {
                parse_family(blk, n, j + 1)
            } else {
                let t0 = if q < n && is_quote(blk.get_char(q)) {
                    q + 1
                } else {
                    q
                };
                let t = skip_ws(blk, n, t0);
                if t < n && (blk.get_char(t) == ';' || blk.get_char(t) == ',') {
                    Some(trim_substring(blk, n, p, q))
                } else {
                    parse_family(blk, n, j + 1)
                }
            }
        },
    }
}

/// The weight a block declares: a digit run, or one of the keywords
/// `normal`, `bold`, `lighter` tried in that order (so `bolder` is seen
/// as `bold`), as written in the source.
pub open spec fn weight_from(blk: Seq<char>, i: int) -> Option<Seq<char>>
    decreases blk.len() - i,
    when 0 <= i <= blk.len()
    via weight_from_dec
{
    match find_ci_from(blk, "font-weight:"@, i) {
        None => None,
        Some(j) => {
            let p = skip_ws_from(blk, j + "font-weight:"@.len());
            if p < blk.len() && is_digit_char(blk[p]) {
                Some(blk.subrange(p, digits_end_from(blk, p)))
            } else if match_ci_at(blk, "normal"@, p) {
                Some(blk.subrange(p, p + "normal"@.len()))
            } else if match_ci_at(blk, "bold"@, p) {
                Some(blk.subrange(p, p + "bold"@.len()))
            } else if match_ci_at(blk, "lighter"@, p) {
                Some(blk.subrange(p, p + "lighter"@.len()))
            } else {
                weight_from(blk, j + 1)
            }
        },
    }
}

#[via_fn]
proof fn weight_from_dec(blk: Seq<char>, i: int) {
    reveal_strlit("font-weight:");
    lemma_find_ci_bounds(blk, "font-weight:"@, i);
}

/// The weight used when a block declares none.
pub open spec fn weight_of(blk: Seq<char>) -> Seq<char> {
    match weight_from(blk, 0) {
        Some(w) => w,
        None => "400"@,
    }
}

/// Executable twin of `weight_of`.
fn parse_weight_keyword_end(blk: &str, n: usize, p: usize) -> (r: Option<usize>)
    requires
        n == blk@.len(),
        p <= n,
    ensures
        match r {
            Some(e) => {
                &&& p <= e <= n
                &&& {
                    ||| (match_ci_at(blk@, "normal"@, p as int) && e == p + "normal"@.len())
                    ||| (!match_ci_at(blk@, "normal"@, p as int) && match_ci_at(
                        blk@,
                        "bold"@,
                        p as int,
                    ) && e == p + "bold"@.len())
                    ||| (!match_ci_at(blk@, "normal"@, p as int) && !match_ci_at(
                        blk@,
                        "bold"@,
                        p as int,
                    ) && match_ci_at(blk@, "lighter"@, p as int) && e == p + "lighter"@.len())
                }
            },
            None => !match_ci_at(blk@, "normal"@, p as int) && !match_ci_at(
                blk@,
                "bold"@,
                p as int,
            ) && !match_ci_at(blk@, "lighter"@, p as int),
        },
{
    let m0 = "normal".unicode_len();
    if m0 <= n - p && match_ci_x(blk, n, "normal", m0, p) {
        return Some(p + m0);
    }
    proof {
        if p + "normal"@.len() > n {
            assert(!match_ci_at(blk@, "normal"@, p as int));
        }
    }
    let m1 = "bold".unicode_len();
    if m1 <= n - p && match_ci_x(blk, n, "bold", m1, p) {
        return Some(p + m1);
    }
    proof {
        if p + "bold"@.len() > n {
            assert(!match_ci_at(blk@, "bold"@, p as int));
        }
    }
    let m2 = "lighter".unicode_len();
    if m2 <= n - p && match_ci_x(blk, n, "lighter", m2, p) {
        return Some(p + m2);
    }
    proof {
        if p + "lighter"@.len() > n {
            assert(!match_ci_at(blk@, "lighter"@, p as int));
        }
    }
    None
}

fn parse_weight(blk: &str, n: usize, i: usize) -> (r: Option<String>)
    requires
        n == blk@.len(),
        i <= n,
    ensures
        match r {
            Some(w) => weight_from(blk@, i as int) == Some(w@),
            None => weight_from(blk@, i as int) is None,
        },
    decreases n - i,
{
    proof {
        reveal_strlit("font-weight:");
        lemma_find_ci_bounds(blk@, "font-weight:"@, i as int);
    }
    let pat = "font-weight:";
    let pm = pat.unicode_len();
    match find_ci(blk, n, pat, pm, i) {
        None => None,
        Some(j) => {
            let p = skip_ws(blk, n, j + pm);
            if p < n && is_digit(blk.get_char(p)) {
                let e = digits_end(blk, n, p);
                Some(copy_substring(blk, n, p, e))
            } else {
                match parse_weight_keyword_end(blk, n, p) {
                    Some(e) => Some(copy_substring(blk, n, p, e)),
                    None => parse_weight(blk, n, j + 1),
                }
            }
        },
    }
}

/// Copy `s[from..to]` out as a `String`.
fn copy_substring(s: &str, n: usize, from: usize, to: usize) -> (r: String)
    requires
        n == s@.len(),
        from <= to <= n,
    ensures
        r@ == s@.subrange(from as int, to as int),
{
    s.substring_char(from, to).to_owned()
}

/// The style a block declares: `normal`, `italic` or `oblique`, tried in
/// that order, as written in the source.
pub open spec fn style_from(blk: Seq<char>, i: int) -> Option<Seq<char>>
    decreases blk.len() - i,
    when 0 <= i <= blk.len()
    via style_from_dec
{
    match find_ci_from(blk, "font-style:"@, i) {
        None => None,
        Some(j) => {
            let p = skip_ws_from(blk, j + "font-style:"@.len());
            if match_ci_at(blk, "normal"@, p) {
                Some(blk.subrange(p, p + "normal"@.len()))
            } else if match_ci_at(blk, "italic"@, p) {
                Some(blk.subrange(p, p + "italic"@.len()))
            } else if match_ci_at(blk, "oblique"@, p) {
                Some(blk.subrange(p, p + "oblique"@.len()))
            } else {
                style_from(blk, j + 1)
            }
        },
    }
}

#[via_fn]
proof fn style_from_dec(blk: Seq<char>, i: int) {
    reveal_strlit("font-style:");
    lemma_find_ci_bounds(blk, "font-style:"@, i);
}

/// The style used when a block declares none.
pub open spec fn style_of(blk: Seq<char>) -> Seq<char> {
    match style_from(blk, 0) {
        Some(st) => st,
        None => "normal"@,
    }
}

fn parse_style(blk: &str, n: usize, i: usize) -> (r: Option<String>)
    requires
        n == blk@.len(),
        i <= n,
    ensures
        match r {
            Some(st) => style_from(blk@, i as int) == Some(st@),
            None => style_from(blk@, i as int) is None,
        },
    decreases n - i,
{
    proof {
        reveal_strlit("font-style:");
        lemma_find_ci_bounds(blk@, "font-style:"@, i as int);
    }
    let pat = "font-style:";
    let pm = pat.unicode_len();
    match find_ci(blk, n, pat, pm, i) {
        None => None,
        Some(j) => {
            let p = skip_ws(blk, n, j + pm);
            let m0 = "normal".unicode_len();
            if m0 <= n - p && match_ci_x(blk, n, "normal", m0, p) {
                return Some(copy_substring(blk, n, p, p + m0));
            }
            proof {
                if p + "normal"@.len() > n {
                    assert(!match_ci_at(blk@, "normal"@, p as int));
                }
            }
            let m1 = "italic".unicode_len();
            if m1 <= n - p && match_ci_x(blk, n, "italic", m1, p) {
                return Some(copy_substring(blk, n, p, p + m1));
            }
            proof {
                if p + "italic"@.len() > n {
                    assert(!match_ci_at(blk@, "italic"@, p as int));
                }
            }
            let m2 = "oblique".unicode_len();
            if m2 <= n - p && match_ci_x(blk, n, "oblique", m2, p) {
                return Some(copy_substring(blk, n, p, p + m2));
            }
            proof {
                if p + "oblique"@.len() > n {
                    assert(!match_ci_at(blk@, "oblique"@, p as int));
                }
            }
            parse_style(blk, n, j + 1)
        },
    }
}

// ---------------------------------------------------------------------------
// Whole blocks and whole stylesheets
// ---------------------------------------------------------------------------

/// What one block contributes: a fact when the block names a family and
/// offers at least one usable source; nothing otherwise.
pub open spec fn block_face(blk: Seq<char>, base: Seq<char>) -> Option<FaceV> {
    match family_from(blk, 0) {
        None => None,
        Some(fam) => match best_src_from(blk, base, 0, None) {
            None => None,
            Some(uf) => Some(
                FaceV {
                    family: fam,
                    weight: weight_of(blk),
                    style: style_of(blk),
                    url: uf.0,
                    format: uf.1,
                },
            ),
        },
    }
}

fn parse_block(blk: &str, base: &str) -> (r: Option<RawFontFace>)
    ensures
        match r {
            Some(f) => block_face(blk@, base@) == Some(f@),
            None => block_face(blk@, base@) is None,
        },
{
    let n = blk.unicode_len();
    match parse_family(blk, n, 0) {
        None => None,
        Some(fam) => {
            match best_src(blk, n, base, 0, None) {
                None => None,
                Some(uf) => {
                    let weight = match parse_weight(blk, n, 0) {
                        Some(w) => w,
                        None => String::from_str("400"),
                    };
                    let style = match parse_style(blk, n, 0) {
                        Some(st) => st,
                        None => String::from_str("normal"),
                    };
                    Some(
                        RawFontFace {
                            family: fam,
                            weight,
                            style,
                            url: uf.0,
                            format: uf.1,
                        },
                    )
                },
            }
        },
    }
}

/// Every font-face fact in `css` at or after `i`, in source order. A block
/// opens at the first `{` after the keyword and closes at the next `}`;
/// text without that shape contributes nothing.
pub open spec fn faces_from(css: Seq<char>, base: Seq<char>, i: int) -> Seq<FaceV>
    decreases css.len() - i,
    when 0 <= i <= css.len()
    via faces_from_dec
{
    match find_ci_from(css, "@font-face"@, i) {
        None => Seq::empty(),
        Some(j) => {
            let k = skip_ws_from(css, j + "@font-face"@.len());
            if k < css.len() && css[k] == '{' {
                match find_from(css, "}"@, k + 1) {
                    None => Seq::empty(),
                    Some(m) => if m == k + 1 {
                        faces_from(css, base, j + 1)
                    } else {
                        match block_face(css.subrange(k + 1, m), base) {
                            Some(f) => seq![f] + faces_from(css, base, m + 1),
                            None => faces_from(css, base, m + 1),
                        }
                    },
                }
            } else {
                faces_from(css, base, j + 1)
            }
        },
    }
}

#[via_fn]
proof fn faces_from_dec(css: Seq<char>, base: Seq<char>, i: int) {
    reveal_strlit("@font-face");
    lemma_find_ci_bounds(css, "@font-face"@, i);
    match find_ci_from(css, "@font-face"@, i) {
        None => {},
        Some(j) => {
            lemma_skip_ws_bounds(css, j + "@font-face"@.len());
            let k = skip_ws_from(css, j + "@font-face"@.len());
            if k < css.len() && css[k] == '{' {
                lemma_find_bounds(css, "}"@, k + 1);
            }
        },
    }
}

/// The complete font-face reading of a stylesheet, every URL resolved
/// against `base`.
pub open spec fn font_faces_spec(css: Seq<char>, base: Seq<char>) -> Seq<FaceV> {
    faces_from(css, base, 0)
}

fn parse_faces_from(css: &str, n: usize, base: &str, i: usize) -> (r: Vec<RawFontFace>)
    requires
        n == css@.len(),
        i <= n,
    ensures
        face_views(r@) == faces_from(css@, base@, i as int),
    decreases n - i,
{
    proof {
        reveal_strlit("@font-face");
        lemma_find_ci_bounds(css@, "@font-face"@, i as int);
    }
    let pat = "@font-face";
    let pm = pat.unicode_len();
    match find_ci(css, n, pat, pm, i) {
        None => {
            let r: Vec<RawFontFace> = Vec::new();
            proof {
                assert(face_views(r@) =~= Seq::<FaceV>::empty());
            }
            r
        },
        Some(j) => {
            let k = skip_ws(css, n, j + pm);
            if k < n && css.get_char(k) == '{' {
                let cpat = "}";
                let cm = cpat.unicode_len();
                match find_exact(css, n, cpat, cm, k + 1) {
                    None => {
                        let r: Vec<RawFontFace> = Vec::new();
                        proof {
                            assert(face_views(r@) =~= Seq::<FaceV>::empty());
                        }
                        r
                    },
                    Some(m) => {
                        if m == k + 1 {
                            parse_faces_from(css, n, base, j + 1)
                        } else {
                            let blk = css.substring_char(k + 1, m);
                            let face = parse_block(blk, base);
                            let mut r = parse_faces_from(css, n, base, m + 1);
                            match face {
                                Some(f) => {
                                    let ghost tail = r@;
                                    r.insert(0, f);
                                    proof {
                                        assert(face_views(r@) =~= seq![r@[0]@] + face_views(tail));
                                    }
                                    r
                                },
                                None => r,
                            }
                        }
                    },
                }
            } else {
                parse_faces_from(css, n, base, j + 1)
            }
        },
    }
}

/// Extract every usable `@font-face` fact from `css`, resolving source
/// references against the stylesheet's own URL.
pub fn parse_font_faces(css: &str, stylesheet_url: &str) -> (r: Vec<RawFontFace>)
    ensures
        face_views(r@) == font_faces_spec(css@, stylesheet_url@),
{
    let n = css.unicode_len();
    parse_faces_from(css, n, stylesheet_url, 0)
}

// ---------------------------------------------------------------------------
// Imports
// ---------------------------------------------------------------------------

/// Every `@import` target in `css` at or after `i`, in source order,
/// resolved against `base`; unresolvable targets are dropped. A target is
/// either a parenthesised `url(...)` or a bare quoted string, and must
/// follow the keyword after at least one whitespace character.
pub open spec fn imports_from(css: Seq<char>, base: Seq<char>, i: int) -> Seq<Seq<char>>
    decreases css.len() - i, 0nat,
    when 0 <= i <= css.len()
    via imports_from_dec
{
    match find_ci_from(css, "@import"@, i) {
        None => Seq::empty(),
        Some(j) => {
            let a = j + "@import"@.len();
            if a < css.len() && is_ws_char(css[a]) {
                let p = skip_ws_from(css, a);
                if match_ci_at(css, "url("@, p) {
                    match paren_body(css, p + "url("@.len()) {
                        Some(pv) => import_tail(css, base, pv.content, pv.end),
                        None => imports_from(css, base, j + 1),
                    }
                } else if p < css.len() && is_quote_char(css[p]) {
                    let q = scan_stop_from(css, StopSet::QuoteOnly, p + 1);
                    if p + 1 < q < css.len() {
                        import_tail(css, base, css.subrange(p + 1, q), q + 1)
                    } else {
                        imports_from(css, base, j + 1)
                    }
                } else {
                    imports_from(css, base, j + 1)
                }
            } else {
                imports_from(css, base, j + 1)
            }
        },
    }
}

/// Resolve one found target and continue scanning after it.
pub open spec fn import_tail(css: Seq<char>, base: Seq<char>, raw: Seq<char>, e: int) -> Seq<
    Seq<char>,
>
    decreases css.len() - e, 1nat,
    when 0 <= e <= css.len()
{
    match url_join(base, raw) {
        Some(u) => seq![u] + imports_from(css, base, e),
        None => imports_from(css, base, e),
    }
}

#[via_fn]
proof fn imports_from_dec(css: Seq<char>, base: Seq<char>, i: int) {
    reveal_strlit("@import");
    reveal_strlit("url(");
    lemma_find_ci_bounds(css, "@import"@, i);
    match find_ci_from(css, "@import"@, i) {
        None => {},
        Some(j) => {
            let a = j + "@import"@.len();
            if a < css.len() && is_ws_char(css[a]) {
                lemma_skip_ws_bounds(css, a);
                let p = skip_ws_from(css, a);
                if match_ci_at(css, "url("@, p) {
                    lemma_paren_bounds(css, p + "url("@.len());
                } else if p < css.len() && is_quote_char(css[p]) {
                    lemma_scan_stop_bounds(css, StopSet::QuoteOnly, p + 1);
                }
            }
        },
    }
}

fn parse_imports_from(css: &str, n: usize, base: &str, i: usize) -> (r: Vec<String>)
    requires
        n == css@.len(),
        i <= n,
    ensures
        str_views(r@) == imports_from(css@, base@, i as int),
    decreases n - i, 0nat,
{
    proof {
        reveal_strlit("@import");
        reveal_strlit("url(");
        lemma_find_ci_bounds(css@, "@import"@, i as int);
    }
    let pat = "@import";
    let pm = pat.unicode_len();
    match find_ci(css, n, pat, pm, i) {
        None => {
            let r: Vec<String> = Vec::new();
            proof {
                assert(str_views(r@) =~= Seq::<Seq<char>>::empty());
            }
            r
        },
        Some(j) => {
            let a = j + pm;
            if a < n && crate::text::is_ws(css.get_char(a)) {
                let p = skip_ws(css, n, a);
                let upat = "url(";
                let um = upat.unicode_len();
                if um <= n - p && match_ci_x(css, n, upat, um, p) {
                    match parse_paren_body(css, n, p + um) {
                        Some(pr) => import_step(css, n, base, pr.0, pr.1),
                        None => parse_imports_from(css, n, base, j + 1),
                    }
                } else {
                    proof {
                        if p + "url("@.len() > n {
                            assert(!match_ci_at(css@, "url("@, p as int));
                        }
                    }
                    if p < n && is_quote(css.get_char(p)) {
                        proof {
                            lemma_scan_stop_bounds(css@, StopSet::QuoteOnly, p + 1);
                        }
                        let q = scan_stop(css, n, &StopSet::QuoteOnly, p + 1);
                        if p + 1 < q && q < n {
                            let raw = copy_substring(css, n, p + 1, q);
                            import_step(css, n, base, raw, q + 1)
                        } else {
                            parse_imports_from(css, n, base, j + 1)
                        }
                    } else {
                        parse_imports_from(css, n, base, j + 1)
                    }
                }
            } else {
                parse_imports_from(css, n, base, j + 1)
            }
        },
    }
}

fn import_step(css: &str, n: usize, base: &str, raw: String, e: usize) -> (r: Vec<String>)
    requires
        n == css@.len(),
        e <= n,
    ensures
        str_views(r@) == import_tail(css@, base@, raw@, e as int),
    decreases n - e, 1nat,
{
    match resolve_url(base, raw.as_str()) {
        Some(u) => {
            let mut r = parse_imports_from(css, n, base, e);
            let ghost tail = r@;
            r.insert(0, u);
            proof {
                assert(str_views(r@) =~= seq![r@[0]@] + str_views(tail));
            }
            r
        },
        None => parse_imports_from(css, n, base, e),
    }
}

/// Extract every `@import` target from `css`, resolved against the
/// stylesheet's own URL, in source order.
pub fn parse_imports(css: &str, stylesheet_url: &str) -> (r: Vec<String>)
    ensures
        str_views(r@) == imports_from(css@, stylesheet_url@, 0),
{
    let n = css.unicode_len();
    parse_imports_from(css, n, stylesheet_url, 0)
}

// ---------------------------------------------------------------------------
// No data: URL is ever emitted
// ---------------------------------------------------------------------------

/// `u` was resolved against `base` from a raw reference that does not
/// use the `data:` scheme.
pub open spec fn from_non_data_raw(base: Seq<char>, u: Seq<char>) -> bool {
    exists|raw: Seq<char>| !match_at(raw, "data:"@, 0) && url_join(base, raw) == Some(u)
}

proof fn lemma_eval_cand_non_data(raw: Seq<char>, fmt: Option<Seq<char>>, base: Seq<char>)
    ensures
        match eval_cand(raw, fmt, base) {
            Some(uf) => from_non_data_raw(base, uf.0),
            None => true,
        },
{
    let t = trim_seq(raw);
    if !match_at(t, "data:"@, 0) {
        match url_join(base, t) {
            Some(u) => {
                assert(!match_at(t, "data:"@, 0) && url_join(base, t) == Some(u));
            },
            None => {},
        }
    }
}

proof fn lemma_best_src_non_data(
    s: Seq<char>,
    base: Seq<char>,
    i: int,
    cur: Option<(Seq<char>, Seq<char>)>,
)
    requires
        0 <= i <= s.len(),
        match cur {
            Some(uf) => from_non_data_raw(base, uf.0),
            None => true,
        },
    ensures
        match best_src_from(s, base, i, cur) {
            Some(uf) => from_non_data_raw(base, uf.0),
            None => true,
        },
    decreases s.len() - i,
{
    lemma_url_cand_bounds(s, i);
    match url_cand_from(s, i) {
        None => {},
        Some(c) => {
            lemma_eval_cand_non_data(c.raw, c.fmt, base);
            lemma_best_src_non_data(s, base, c.end, better(cur, eval_cand(c.raw, c.fmt, base)));
        },
    }
}

proof fn lemma_faces_from_non_data(css: Seq<char>, base: Seq<char>, i: int)
    requires
        0 <= i <= css.len(),
    ensures
        forall|k: int|
            0 <= k < faces_from(css, base, i).len() ==> from_non_data_raw(
                base,
                (#[trigger] faces_from(css, base, i)[k]).url,
            ),
    decreases css.len() - i,
{
    reveal_strlit("@font-face");
    lemma_find_ci_bounds(css, "@font-face"@, i);
    match find_ci_from(css, "@font-face"@, i) {
        None => {
            assert(faces_from(css, base, i).len() == 0);
        },
        Some(j) => {
            lemma_skip_ws_bounds(css, j + "@font-face"@.len());
            let k = skip_ws_from(css, j + "@font-face"@.len());
            if k < css.len() && css[k] == '{' {
                lemma_find_bounds(css, "}"@, k + 1);
                match find_from(css, "}"@, k + 1) {
                    None => {
                        assert(faces_from(css, base, i).len() == 0);
                    },
                    Some(m) => {
                        if m == k + 1 {
                            lemma_faces_from_non_data(css, base, j + 1);
                            assert(faces_from(css, base, i) == faces_from(css, base, j + 1));
                        } else {
                            let blk = css.subrange(k + 1, m);
                            lemma_faces_from_non_data(css, base, m + 1);
                            match block_face(blk, base) {
                                Some(f) => {
                                    lemma_best_src_non_data(blk, base, 0, None);
                                    let whole = faces_from(css, base, i);
                                    let rest = faces_from(css, base, m + 1);
                                    assert(whole == seq![f] + rest);
                                    assert forall|k2: int|
                                        0 <= k2 < whole.len() implies from_non_data_raw(
                                        base,
                                        (#[trigger] whole[k2]).url,
                                    ) by {
                                        if k2 == 0 {
                                            assert(whole[0] == f);
                                        } else {
                                            assert(whole[k2] == rest[k2 - 1]);
                                        }
                                    }
                                },
                                None => {
                                    assert(faces_from(css, base, i) == faces_from(
                                        css,
                                        base,
                                        m + 1,
                                    ));
                                },
                            }
                        }
                    },
                }
            } else {
                lemma_faces_from_non_data(css, base, j + 1);
                assert(faces_from(css, base, i) == faces_from(css, base, j + 1));
            }
        },
    }
}

/// Inline-embedded fonts are never cataloged: every extracted fact's URL
/// was resolved from a raw `src` reference that does not use the `data:`
/// scheme.
pub proof fn lemma_no_data_urls(css: Seq<char>, base: Seq<char>)
    ensures
        forall|k: int|
            0 <= k < font_faces_spec(css, base).len() ==> from_non_data_raw(
                base,
                (#[trigger] font_faces_spec(css, base)[k]).url,
            ),
{
    lemma_faces_from_non_data(css, base, 0);
}


} // verus!
