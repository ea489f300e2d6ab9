//! The scan orchestrator's verified pieces: URL normalization, the
//! favicon-probe decision, assembly of the final catalog, the image
//! data-URI, and the download filename.
//!
//! The network steps around them — fetching the page, probing the icon,
//! retrieving each stylesheet — are the caller's, per the fetch policy in
//! `fetch`.

use vstd::prelude::*;
use crate::text::{
    trim_seq, contains_seq, contains_str, trim_substring, find_from, find_exact, rscan_after,
    rscan,
};
use crate::urls::{url_parse_parts, parse_url_parts};
use crate::css::RawFontFace;
use crate::css::face_views;
use crate::fonts::{
    FontInfo, FontInfoV, infos_view, group_fonts, catalog_matches, urls_distinct,
};
use crate::order::seq_lt;
use crate::html::{FaviconInfo, FaviconV, fav_views, opt_str_view};

verus! {

/// The outcome of one scan: the normalized page URL, every discovered
/// favicon, and the aggregated font catalog.
#[derive(Debug, Clone, PartialEq, Eq)]
pub struct ScanResult {
    pub url: String,
    pub favicons: Vec<FaviconInfo>,
    pub fonts: Vec<FontInfo>,
}

pub struct ScanResultV {
    pub url: Seq<char>,
    pub favicons: Seq<FaviconV>,
    pub fonts: Seq<FontInfoV>,
}

impl View for ScanResult {
    type V = ScanResultV;

    open spec fn view(&self) -> ScanResultV {
        ScanResultV {
            url: self.url@,
            favicons: fav_views(self.favicons@),
            fonts: infos_view(self.fonts@),
        }
    }
}

// ---------------------------------------------------------------------------
// URL normalization
// ---------------------------------------------------------------------------

/// The text actually parsed: the input trimmed, prefixed with `https://`
/// when it carries no scheme separator.
pub open spec fn with_scheme(input: Seq<char>) -> Seq<char> {
    let t = trim_seq(input);
    if contains_seq(t, "://"@) {
        t
    } else {
        "https://"@ + t
    }
}

/// Normalize user input into an absolute URL: trim it, default the
/// scheme to `https`, and parse; the result is the parsed URL's
/// normalized serialization. Inputs that still do not parse are the
/// error case.
pub fn normalize_url(input: &str) -> (r: Result<String, String>)
    ensures
        match r {
            Ok(u) => url_parse_parts(with_scheme(input@)) is Some && u@ == url_parse_parts(
                with_scheme(input@),
            ).unwrap().norm,
            Err(_) => url_parse_parts(with_scheme(input@)) is None,
        },
{
    let n = input.unicode_len();
    let trimmed = trim_substring(input, n, 0, n);
    proof {
        assert(input@.subrange(0, n as int) =~= input@);
    }
    let with = if contains_str(trimmed.as_str(), "://") {
        trimmed
    } else {
        let mut w = String::from_str("https://");
        w.append(trimmed.as_str());
        w
    };
    match parse_url_parts(with.as_str()) {
        Some(p) => Ok(p.norm),
        None => Err(String::from_str("Invalid URL")),
    }
}

/// An input lacking a scheme separator is parsed with `https://`
/// prefixed; one carrying a separator is parsed as written (trimmed).
pub proof fn lemma_normalize_defaults_the_scheme(input: Seq<char>)
    ensures
        !contains_seq(trim_seq(input), "://"@) ==> with_scheme(input) == "https://"@ + trim_seq(
            input,
        ),
        contains_seq(trim_seq(input), "://"@) ==> with_scheme(input) == trim_seq(input),
{
}

// ---------------------------------------------------------------------------
// The favicon probe decision
// ---------------------------------------------------------------------------

/// Whether a probe response passes as an icon: a success whose
/// content-type mentions `image` or `icon`, or carries no content-type
/// at all (a legacy bare icon response).
pub open spec fn probe_accepts(success: bool, ct: Seq<char>) -> bool {
    success && (contains_seq(ct, "image"@) || contains_seq(ct, "icon"@) || ct.len() == 0)
}

/// Decide the implicit favicon probe: `success` is whether the request
/// came back with a success status, `content_type` the observed header
/// (empty when absent). An accepted probe yields the favicon entry with
/// relation `icon` and the observed type, defaulted to `image/x-icon`;
/// anything else yields nothing, never an error.
pub fn classify_favicon_probe(url: &str, success: bool, content_type: &str) -> (r: Option<
    FaviconInfo,
>)
    ensures
        match r {
            Some(f) => probe_accepts(success, content_type@) && f@.url == url@ && f@.rel == "icon"@
                && f@.sizes is None && f@.mime_type == Some(
                if content_type@.len() == 0 {
                    "image/x-icon"@
                } else {
                    content_type@
                },
            ),
            None => !probe_accepts(success, content_type@),
        },
{
    if !success {
        return None;
    }
    let empty = content_type.unicode_len() == 0;
    if contains_str(content_type, "image") || contains_str(content_type, "icon") || empty {
        let mime = if empty {
            String::from_str("image/x-icon")
        } else {
            content_type.to_owned()
        };
        Some(
            FaviconInfo {
                url: url.to_owned(),
                rel: String::from_str("icon"),
                sizes: None,
                mime_type: Some(mime),
            },
        )
    } else {
        None
    }
}

// ---------------------------------------------------------------------------
// Assembly
// ---------------------------------------------------------------------------

/// Put one scan's pieces together: the page's favicons with the probe's
/// entry appended when it produced one, and the catalog aggregated from
/// the inline facts followed by the stylesheet facts.
pub fn scan_assemble(
    normalized_url: String,
    page_favicons: Vec<FaviconInfo>,
    probe: Option<FaviconInfo>,
    inline_faces: Vec<RawFontFace>,
    sheet_faces: Vec<RawFontFace>,
) -> (r: ScanResult)
    ensures
        r.url@ == normalized_url@,
        r@.favicons == fav_views(page_favicons@) + (match probe {
            Some(f) => seq![f@],
            None => Seq::<FaviconV>::empty(),
        }),
        catalog_matches(
            face_views(inline_faces@) + face_views(sheet_faces@),
            r@.fonts,
        ),
        forall|i: int, j: int|
            0 <= i < j < r@.fonts.len() ==> seq_lt(r@.fonts[i].family, r@.fonts[j].family),
        forall|k: int| 0 <= k < r@.fonts.len() ==> urls_distinct((#[trigger] r@.fonts[k]).variants),
{
    let ghost pf = fav_views(page_favicons@);
    let mut favicons = page_favicons;
    match probe {
        Some(f) => {
            favicons.push(f);
            proof {
                assert(fav_views(favicons@) =~= pf + seq![favicons@[favicons@.len() - 1]@]);
            }
        },
        None => {
            proof {
                assert(fav_views(favicons@) =~= pf + Seq::<FaviconV>::empty());
            }
        },
    }
    let ghost iv = inline_faces@;
    let mut all = inline_faces;
    let mut sheets = sheet_faces;
    let ghost sv = sheets@;
    all.append(&mut sheets);
    proof {
        assert(face_views(all@) =~= face_views(iv) + face_views(sv));
    }
    let fonts = group_fonts(all);
    ScanResult { url: normalized_url, favicons, fonts }
}

// ---------------------------------------------------------------------------
// The sibling asset operations' verified pieces
// ---------------------------------------------------------------------------

/// What encoding bytes with the standard base64 alphabet yields: a
/// function of the bytes alone.
pub uninterp spec fn base64_of(b: Seq<u8>) -> Seq<char>;

/// Relies on `base64::Engine::encode` with the standard, padded
/// alphabet: the encoding is a function of the bytes alone, and empty
/// input encodes to the empty string.
#[verifier::external_body]
fn b64_encode(bytes: &Vec<u8>) -> (r: String)
    ensures
        r@ == base64_of(bytes@),
        bytes@.len() == 0 ==> r@.len() == 0,
{
    base64::Engine::encode(&base64::engine::general_purpose::STANDARD, bytes)
}

/// The inline data-URI for proxied image bytes, under the observed
/// content type or `image/png` when none was observed.
pub fn proxy_data_uri(content_type: Option<&str>, bytes: &Vec<u8>) -> (r: String)
    ensures
        r@ == "data:"@ + (match content_type {
            Some(ct) => ct@,
            None => "image/png"@,
        }) + ";base64,"@ + base64_of(bytes@),
{
    let mut s = String::from_str("data:");
    match content_type {
        Some(ct) => s.append(ct),
        None => s.append("image/png"),
    }
    s.append(";base64,");
    let b = b64_encode(bytes);
    s.append(b.as_str());
    s
}

// ---------------------------------------------------------------------------
// Download filename
// ---------------------------------------------------------------------------

/// The filename a downloaded asset is served under: the last
/// `/`-segment of the URL, cut at the first `?`.
pub open spec fn download_filename_spec(u: Seq<char>) -> Seq<char> {
    let st = rscan_after(u, '/', u.len() as int);
    match find_from(u, "?"@, st) {
        Some(q) => u.subrange(st, q),
        None => u.subrange(st, u.len() as int),
    }
}

/// Infer the filename to serve a downloaded asset under.
pub fn download_filename(url: &str) -> (r: String)
    ensures
        r@ == download_filename_spec(url@),
{
    let n = url.unicode_len();
    let st = rscan(url, n, '/', n);
    let qm = "?".unicode_len();
    let e = match find_exact(url, n, "?", qm, st) {
        Some(q) => q,
        None => n,
    };
    url.substring_char(st, e).to_owned()
}

} // verus!
