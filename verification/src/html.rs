//! The markup analyzer: one HTML document becomes favicon candidates, the
//! implicit `/favicon.ico` candidate, inline font-face facts, and a
//! bounded list of external stylesheet URLs.
//!
//! Reading the document's `link` and `style` elements is entrusted to the
//! HTML parser; everything done with them — relation filtering, reference
//! resolution, deduplication, bounding — is verified.

use vstd::prelude::*;
use crate::text::{lower_seq, lower, contains_ci_seq, contains_ci_str, str_eq, push_char};
use crate::urls::{url_join, url_parse_parts, resolve_url, parse_url_parts};
use crate::css::{RawFontFace, face_views, str_views, font_faces_spec, parse_font_faces};

verus! {

/// The attributes of one `link` element, each as written or absent.
pub struct HtmlLink {
    pub rel: Option<String>,
    pub href: Option<String>,
    pub sizes: Option<String>,
    pub mime_type: Option<String>,
    pub as_attr: Option<String>,
}

pub struct LinkV {
    pub rel: Option<Seq<char>>,
    pub href: Option<Seq<char>>,
    pub sizes: Option<Seq<char>>,
    pub mime_type: Option<Seq<char>>,
    pub as_attr: Option<Seq<char>>,
}

pub open spec fn opt_str_view(o: Option<String>) -> Option<Seq<char>> {
    match o {
        Some(s) => Some(s@),
        None => None,
    }
}

impl View for HtmlLink {
    type V = LinkV;

    open spec fn view(&self) -> LinkV {
        LinkV {
            rel: opt_str_view(self.rel),
            href: opt_str_view(self.href),
            sizes: opt_str_view(self.sizes),
            mime_type: opt_str_view(self.mime_type),
            as_attr: opt_str_view(self.as_attr),
        }
    }
}

pub open spec fn link_views(v: Seq<HtmlLink>) -> Seq<LinkV> {
    v.map_values(|x: HtmlLink| x@)
}

/// The `link` elements of a document in document order, with their
/// `rel`, `href`, `sizes`, `type` and `as` attributes: what the HTML
/// parser reads, a function of the markup alone.
pub uninterp spec fn html_links(h: Seq<char>) -> Seq<LinkV>;

/// The text content of each `style` element of a document, in document
/// order: a function of the markup alone.
pub uninterp spec fn html_styles(h: Seq<char>) -> Seq<Seq<char>>;

/// Relies on `scraper::Html::parse_document`, `Html::select` with the
/// selector `link`, and `ElementRef::attr`: best-effort HTML parsing as
/// a browser would recover it, yielding each link element's attributes
/// in document order.
#[verifier::external_body]
fn html_link_elements(html: &str) -> (r: Vec<HtmlLink>)
    ensures
        link_views(r@) == html_links(html@),
{
    let doc = scraper::Html::parse_document(html);
    let sel = scraper::Selector::parse("link").unwrap();
    doc.select(&sel).map(|e| HtmlLink {
        rel: e.attr("rel").map(|v| v.to_string()),
        href: e.attr("href").map(|v| v.to_string()),
        sizes: e.attr("sizes").map(|v| v.to_string()),
        mime_type: e.attr("type").map(|v| v.to_string()),
        as_attr: e.attr("as").map(|v| v.to_string()),
    }).collect()
}

/// Relies on `scraper::Html::parse_document`, `Html::select` with the
/// selector `style`, and `ElementRef::text`: the concatenated text of
/// each style element, in document order.
#[verifier::external_body]
fn html_style_texts(html: &str) -> (r: Vec<String>)
    ensures
        str_views(r@) == html_styles(html@),
{
    let doc = scraper::Html::parse_document(html);
    let sel = scraper::Selector::parse("style").unwrap();
    doc.select(&sel).map(|e| e.text().collect::<String>()).collect()
}

// ---------------------------------------------------------------------------
// Favicons
// ---------------------------------------------------------------------------

/// One discovered favicon: its absolute URL, the lowercased link
/// relation, and the `sizes` and `type` attributes as written.
#[derive(Debug, Clone, PartialEq, Eq)]
pub struct FaviconInfo {
    pub url: String,
    pub rel: String,
    pub sizes: Option<String>,
    pub mime_type: Option<String>,
}

pub struct FaviconV {
    pub url: Seq<char>,
    pub rel: Seq<char>,
    pub sizes: Option<Seq<char>>,
    pub mime_type: Option<Seq<char>>,
}

impl View for FaviconInfo {
    type V = FaviconV;

    open spec fn view(&self) -> FaviconV {
        FaviconV {
            url: self.url@,
            rel: self.rel@,
            sizes: opt_str_view(self.sizes),
            mime_type: opt_str_view(self.mime_type),
        }
    }
}

pub open spec fn fav_views(v: Seq<FaviconInfo>) -> Seq<FaviconV> {
    v.map_values(|x: FaviconInfo| x@)
}

pub open spec fn has_fav_url(favs: Seq<FaviconV>, u: Seq<char>) -> bool {
    exists|k: int| 0 <= k < favs.len() && favs[k].url == u
}

/// The favicon candidates among `links`, after those already in `acc`: a
/// link whose `rel`, lowercased, contains `icon`, with a resolvable
/// `href`; the first occurrence of each resolved URL wins.
pub open spec fn favicons_acc(links: Seq<LinkV>, base: Seq<char>, acc: Seq<FaviconV>) -> Seq<
    FaviconV,
>
    decreases links.len(),
{
    if links.len() == 0 {
        acc
    } else {
        let l = links[0];
        let rest = links.drop_first();
        match l.rel {
            None => favicons_acc(rest, base, acc),
            Some(rel0) => {
                if !contains_ci_seq(rel0, "icon"@) {
                    favicons_acc(rest, base, acc)
                } else {
                    match l.href {
                        None => favicons_acc(rest, base, acc),
                        Some(h) => match url_join(base, h) {
                            None => favicons_acc(rest, base, acc),
                            Some(u) => if has_fav_url(acc, u) {
                                favicons_acc(rest, base, acc)
                            } else {
                                favicons_acc(
                                    rest,
                                    base,
                                    acc.push(
                                        FaviconV {
                                            url: u,
                                            rel: lower_seq(rel0),
                                            sizes: l.sizes,
                                            mime_type: l.mime_type,
                                        },
                                    ),
                                )
                            },
                        },
                    }
                }
            },
        }
    }
}

/// The favicons a document declares, in document order, deduplicated.
pub open spec fn page_favicons(h: Seq<char>, base: Seq<char>) -> Seq<FaviconV> {
    favicons_acc(html_links(h), base, Seq::empty())
}

/// The implicit `/favicon.ico` candidate: built from the base URL's
/// scheme and host, and suppressed when a declared favicon already holds
/// that exact URL or when the base does not parse.
pub open spec fn implicit_favicon(base: Seq<char>, favs: Seq<FaviconV>) -> Option<Seq<char>> {
    match url_parse_parts(base) {
        None => None,
        Some(p) => {
            let u = p.scheme + "://"@ + p.host + "/favicon.ico"@;
            if has_fav_url(favs, u) {
                None
            } else {
                Some(u)
            }
        },
    }
}

// ---------------------------------------------------------------------------
// Stylesheet links
// ---------------------------------------------------------------------------

/// The external stylesheet URLs among `links`, in document order, after
/// those already in `acc`: links with `rel` `stylesheet`, or `rel`
/// `preload` with `as` exactly `style` (the relation compared ASCII
/// case-insensitively, `as` as written), with a resolvable `href`.
pub open spec fn sheets_acc(links: Seq<LinkV>, base: Seq<char>, acc: Seq<Seq<char>>) -> Seq<
    Seq<char>,
>
    decreases links.len(),
{
    if links.len() == 0 {
        acc
    } else {
        let l = links[0];
        let rest = links.drop_first();
        let keep = match l.rel {
            Some(r) => lower_seq(r) == "stylesheet"@ || (lower_seq(r) == "preload"@ && l.as_attr
                == Some("style"@)),
            None => false,
        };
        if keep {
            match l.href {
                Some(h) => match url_join(base, h) {
                    Some(u) => sheets_acc(rest, base, acc.push(u)),
                    None => sheets_acc(rest, base, acc),
                },
                None => sheets_acc(rest, base, acc),
            }
        } else {
            sheets_acc(rest, base, acc)
        }
    }
}

pub open spec fn page_sheets(h: Seq<char>, base: Seq<char>) -> Seq<Seq<char>> {
    sheets_acc(html_links(h), base, Seq::empty())
}

/// The smaller of a bound and a length.
pub open spec fn capped(max: int, len: int) -> int {
    if max < len {
        max
    } else {
        len
    }
}

// ---------------------------------------------------------------------------
// Inline styles
// ---------------------------------------------------------------------------

/// The text of every style element from position `i` on, concatenated in
/// document order.
pub open spec fn styles_concat(ss: Seq<Seq<char>>, i: int) -> Seq<char>
    decreases ss.len() - i,
{
    if !(0 <= i < ss.len()) {
        Seq::empty()
    } else {
        ss[i] + styles_concat(ss, i + 1)
    }
}

/// The inline font-face facts a document carries: all inline style text
/// is joined into one blob before extraction, so a block may span style
/// elements.
pub open spec fn page_inline_faces(h: Seq<char>, base: Seq<char>) -> Seq<crate::css::FaceV> {
    font_faces_spec(styles_concat(html_styles(h), 0), base)
}

// ---------------------------------------------------------------------------
// The analyzer
// ---------------------------------------------------------------------------

/// Everything the markup analyzer reads out of one document.
pub struct ParsedPage {
    pub favicons: Vec<FaviconInfo>,
    pub favicon_ico_url: Option<String>,
    pub inline_faces: Vec<RawFontFace>,
    pub css_urls: Vec<String>,
}

fn dup_opt(o: &Option<String>) -> (r: Option<String>)
    ensures
        opt_str_view(r) == opt_str_view(*o),
{
    match o {
        Some(s) => Some(s.clone()),
        None => None,
    }
}

fn lower_string(s: &str) -> (r: String)
    ensures
        r@ == lower_seq(s@),
{
    let n = s.unicode_len();
    let mut out = String::new();
    let mut i: usize = 0;
    while i < n
        invariant
            i <= n,
            n == s@.len(),
            out@ =~= lower_seq(s@).take(i as int),
        decreases n - i,
    {
        let c = lower(s.get_char(i));
        push_char(&mut out, c);
        proof {
            assert(lower_seq(s@).take(i + 1) =~= lower_seq(s@).take(i as int).push(
                crate::text::lower_char(s@[i as int]),
            ));
        }
        i = i + 1;
    }
    proof {
        assert(lower_seq(s@).take(n as int) =~= lower_seq(s@));
    }
    out
}

fn collect_favicons(links: &Vec<HtmlLink>, i: usize, base: &str, acc: Vec<FaviconInfo>) -> (r: Vec<
    FaviconInfo,
>)
    requires
        i <= links@.len(),
    ensures
        fav_views(r@) == favicons_acc(link_views(links@).skip(i as int), base@, fav_views(acc@)),
    decreases links@.len() - i,
{
    let ghost lv = link_views(links@);
    if i == links.len() {
        proof {
            assert(lv.skip(i as int) =~= Seq::<LinkV>::empty());
        }
        acc
    } else {
        proof {
            assert(lv.skip(i as int)[0] == links@[i as int]@);
            assert(lv.skip(i as int).drop_first() =~= lv.skip(i + 1));
        }
        let ghost av = fav_views(acc@);
        let l = &links[i];
        match &l.rel {
            None => collect_favicons(links, i + 1, base, acc),
            Some(rel0) => {
                let rl = lower_string(rel0.as_str());
                if !contains_ci_str(rel0.as_str(), "icon") {
                    collect_favicons(links, i + 1, base, acc)
                } else {
                    match &l.href {
                        None => collect_favicons(links, i + 1, base, acc),
                        Some(h) => {
                            match resolve_url(base, h.as_str()) {
                                None => collect_favicons(links, i + 1, base, acc),
                                Some(u) => {
                                    if has_fav_url_x(&acc, &u) {
                                        collect_favicons(links, i + 1, base, acc)
                                    } else {
                                        let mut acc2 = acc;
                                        acc2.push(
                                            FaviconInfo {
                                                url: u,
                                                rel: rl,
                                                sizes: dup_opt(&l.sizes),
                                                mime_type: dup_opt(&l.mime_type),
                                            },
                                        );
                                        proof {
                                            assert(fav_views(acc2@) =~= av.push(
                                                acc2@[acc2@.len() - 1]@,
                                            ));
                                        }
                                        collect_favicons(links, i + 1, base, acc2)
                                    }
                                },
                            }
                        },
                    }
                }
            },
        }
    }
}

fn has_fav_url_x(favs: &Vec<FaviconInfo>, u: &String) -> (r: bool)
    ensures
        r == has_fav_url(fav_views(favs@), u@),
{
    let mut k: usize = 0;
    while k < favs.len()
        invariant
            k <= favs@.len(),
            forall|t: int| 0 <= t < k ==> fav_views(favs@)[t].url != u@,
        decreases favs@.len() - k,
    {
        if favs[k].url == *u {
            proof {
                assert(fav_views(favs@)[k as int].url == u@);
            }
            return true;
        }
        proof {
            assert(fav_views(favs@)[k as int] == favs@[k as int]@);
        }
        k = k + 1;
    }
    proof {
        if has_fav_url(fav_views(favs@), u@) {
            let w = choose|w: int|
                0 <= w < fav_views(favs@).len() && fav_views(favs@)[w].url == u@;
            assert(false);
        }
    }
    false
}

fn collect_sheets(links: &Vec<HtmlLink>, i: usize, base: &str, acc: Vec<String>) -> (r: Vec<String>)
    requires
        i <= links@.len(),
    ensures
        str_views(r@) == sheets_acc(link_views(links@).skip(i as int), base@, str_views(acc@)),
    decreases links@.len() - i,
{
    let ghost lv = link_views(links@);
    if i == links.len() {
        proof {
            assert(lv.skip(i as int) =~= Seq::<LinkV>::empty());
        }
        acc
    } else {
        proof {
            assert(lv.skip(i as int)[0] == links@[i as int]@);
            assert(lv.skip(i as int).drop_first() =~= lv.skip(i + 1));
        }
        let ghost av = str_views(acc@);
        let l = &links[i];
        let keep = match &l.rel {
            Some(r0) => {
                if crate::css::eq_ci(r0.as_str(), "stylesheet") {
                    true
                } else if crate::css::eq_ci(r0.as_str(), "preload") {
                    match &l.as_attr {
                        Some(a0) => str_eq(a0.as_str(), "style"),
                        None => false,
                    }
                } else {
                    false
                }
            },
            None => false,
        };
        if keep {
            match &l.href {
                Some(h) => {
                    match resolve_url(base, h.as_str()) {
                        Some(u) => {
                            let mut acc2 = acc;
                            acc2.push(u);
                            proof {
                                assert(str_views(acc2@) =~= av.push(acc2@[acc2@.len() - 1]@));
                            }
                            collect_sheets(links, i + 1, base, acc2)
                        },
                        None => collect_sheets(links, i + 1, base, acc),
                    }
                },
                None => collect_sheets(links, i + 1, base, acc),
            }
        } else {
            collect_sheets(links, i + 1, base, acc)
        }
    }
}

fn concat_styles(styles: &Vec<String>, i: usize) -> (r: String)
    requires
        i <= styles@.len(),
    ensures
        r@ == styles_concat(str_views(styles@), i as int),
    decreases styles@.len() - i,
{
    let ghost sv = str_views(styles@);
    if i == styles.len() {
        String::new()
    } else {
        proof {
            assert(sv[i as int] == styles@[i as int]@);
        }
        let mut s = styles[i].clone();
        let rest = concat_styles(styles, i + 1);
        s.append(rest.as_str());
        s
    }
}

/// Analyze one document against its absolute base URL: favicon links
/// (deduplicated, first occurrence winning), the implicit favicon
/// candidate, inline font-face facts, and at most `max_stylesheets`
/// stylesheet URLs in document order.
pub fn parse_page(html: &str, base_url: &str, max_stylesheets: usize) -> (r: ParsedPage)
    ensures
        fav_views(r.favicons@) == page_favicons(html@, base_url@),
        opt_str_view(r.favicon_ico_url) == implicit_favicon(
            base_url@,
            page_favicons(html@, base_url@),
        ),
        face_views(r.inline_faces@) == page_inline_faces(html@, base_url@),
        str_views(r.css_urls@) == page_sheets(html@, base_url@).take(
            capped(max_stylesheets as int, page_sheets(html@, base_url@).len() as int),
        ),
{
    let links = html_link_elements(html);
    let styles = html_style_texts(html);
    let acc0: Vec<FaviconInfo> = Vec::new();
    proof {
        assert(fav_views(acc0@) =~= Seq::<FaviconV>::empty());
        assert(link_views(links@).skip(0) =~= link_views(links@));
    }
    let favicons = collect_favicons(&links, 0, base_url, acc0);
    let favicon_ico_url = match parse_url_parts(base_url) {
        None => None,
        Some(p) => {
            let mut u = p.scheme;
            u.append("://");
            u.append(p.host.as_str());
            u.append("/favicon.ico");
            if has_fav_url_x(&favicons, &u) {
                None
            } else {
                Some(u)
            }
        },
    };
    let sacc0: Vec<String> = Vec::new();
    proof {
        assert(str_views(sacc0@) =~= Seq::<Seq<char>>::empty());
    }
    let mut css_urls = collect_sheets(&links, 0, base_url, sacc0);
    let ghost full = str_views(css_urls@);
    if css_urls.len() > max_stylesheets {
        css_urls.truncate(max_stylesheets);
    }
    proof {
        assert(str_views(css_urls@) =~= full.take(
            capped(max_stylesheets as int, full.len() as int),
        ));
    }
    let blob = concat_styles(&styles, 0);
    let inline_faces = parse_font_faces(blob.as_str(), base_url);
    ParsedPage { favicons, favicon_ico_url, inline_faces, css_urls }
}

} // verus!
