//! The stylesheet fetcher as a state machine: the caller performs one GET
//! at a time and hands the outcome back, while the policy — which sheets
//! are fetched, what each contributes, and that `@import` chains are
//! followed exactly one level deep — is decided and proved here.

use vstd::prelude::*;
use crate::css::{
    RawFontFace, face_views, str_views, font_faces_spec, imports_from, parse_font_faces,
    parse_imports,
};
use crate::html::capped;

verus! {

/// One stylesheet still to fetch: its URL, and whether it was reached
/// through an `@import` (imports of such a sheet are not followed).
pub struct PendingSheet {
    pub url: String,
    pub is_import: bool,
}

pub struct PendingV {
    pub url: Seq<char>,
    pub is_import: bool,
}

impl View for PendingSheet {
    type V = PendingV;

    open spec fn view(&self) -> PendingV {
        PendingV { url: self.url@, is_import: self.is_import }
    }
}

pub open spec fn pend_views(v: Seq<PendingSheet>) -> Seq<PendingV> {
    v.map_values(|x: PendingSheet| x@)
}

/// Queue entries standing for the given import targets, in order.
pub open spec fn import_entries(urls: Seq<Seq<char>>) -> Seq<PendingV> {
    urls.map_values(|u: Seq<char>| (PendingV { url: u, is_import: true }))
}

/// The fetcher's state: the sheets still to fetch, the facts gathered so
/// far, and the per-sheet import bound.
pub struct FetchState {
    pub queue: Vec<PendingSheet>,
    pub faces: Vec<RawFontFace>,
    pub max_imports: usize,
}

/// Start a fetch round over the given stylesheet URLs (already bounded
/// by the markup analyzer), all top-level.
pub fn fetch_init(css_urls: Vec<String>, max_imports: usize) -> (st: FetchState)
    ensures
        st.max_imports == max_imports,
        st.faces@.len() == 0,
        st.queue@.len() == css_urls@.len(),
        forall|t: int|
            0 <= t < css_urls@.len() ==> (#[trigger] st.queue@[t])@.url == css_urls@[t]@
                && !st.queue@[t]@.is_import,
{
    let mut queue: Vec<PendingSheet> = Vec::new();
    let mut i: usize = 0;
    while i < css_urls.len()
        invariant
            i <= css_urls@.len(),
            queue@.len() == i,
            forall|t: int|
                0 <= t < i ==> (#[trigger] queue@[t])@.url == css_urls@[t]@
                    && !queue@[t]@.is_import,
        decreases css_urls@.len() - i,
    {
        queue.push(PendingSheet { url: css_urls[i].clone(), is_import: false });
        i = i + 1;
    }
    FetchState { queue, faces: Vec::new(), max_imports }
}

/// The next URL to fetch, if any.
pub fn fetch_next(st: &FetchState) -> (r: Option<String>)
    ensures
        match r {
            Some(u) => st.queue@.len() > 0 && u@ == st.queue@[0]@.url,
            None => st.queue@.len() == 0,
        },
{
    if st.queue.len() == 0 {
        None
    } else {
        Some(st.queue[0].url.clone())
    }
}

/// Consume the queue head with the outcome of fetching it (the decoded
/// body, or nothing on any failure, which is absorbed).
///
/// A fetched top-level sheet contributes its font-face facts and
/// enqueues at most `max_imports` of its import targets, ahead of the
/// remaining top-level sheets. A fetched import contributes its facts
/// only: nothing it imports is ever enqueued, so the crawl is bounded to
/// exactly one level below the page's own stylesheets. A failed fetch
/// contributes nothing.
pub fn fetch_step(st: &mut FetchState, body: Option<&str>)
    requires
        old(st).queue@.len() > 0,
    ensures
        final(st).max_imports == old(st).max_imports,
        ({
            let head = old(st).queue@[0]@;
            let tail = pend_views(old(st).queue@).drop_first();
            match body {
                Some(css) => {
                    &&& face_views(final(st).faces@) == face_views(old(st).faces@)
                        + font_faces_spec(css@, head.url)
                    &&& if head.is_import {
                        pend_views(final(st).queue@) == tail
                    } else {
                        pend_views(final(st).queue@) == import_entries(
                            imports_from(css@, head.url, 0).take(
                                capped(
                                    old(st).max_imports as int,
                                    imports_from(css@, head.url, 0).len() as int,
                                ),
                            ),
                        ) + tail
                    }
                },
                None => {
                    &&& final(st).faces@ == old(st).faces@
                    &&& pend_views(final(st).queue@) == tail
                },
            }
        }),
{
    let ghost oldq = pend_views(old(st).queue@);
    let head = st.queue.remove(0);
    proof {
        assert(pend_views(st.queue@) =~= oldq.drop_first());
    }
    match body {
        Some(css) => {
            let mut newf = parse_font_faces(css, head.url.as_str());
            let ghost of = st.faces@;
            let ghost nf = newf@;
            st.faces.append(&mut newf);
            proof {
                assert(face_views(st.faces@) =~= face_views(of) + face_views(nf));
            }
            if !head.is_import {
                let mut imps = parse_imports(css, head.url.as_str());
                let ghost full = str_views(imps@);
                if imps.len() > st.max_imports {
                    imps.truncate(st.max_imports);
                }
                proof {
                    assert(str_views(imps@) =~= full.take(
                        capped(st.max_imports as int, full.len() as int),
                    ));
                }
                let mut nq: Vec<PendingSheet> = Vec::new();
                let mut k: usize = 0;
                while k < imps.len()
                    invariant
                        k <= imps@.len(),
                        nq@.len() == k,
                        forall|t: int|
                            0 <= t < k ==> (#[trigger] nq@[t])@.url == imps@[t]@
                                && nq@[t]@.is_import,
                    decreases imps@.len() - k,
                {
                    nq.push(PendingSheet { url: imps[k].clone(), is_import: true });
                    k = k + 1;
                }
                let ghost pending_imports = pend_views(nq@);
                let ghost remaining = pend_views(st.queue@);
                nq.append(&mut st.queue);
                st.queue = nq;
                proof {
                    assert(pend_views(st.queue@) =~= pending_imports + remaining);
                    assert(pending_imports =~= import_entries(str_views(imps@)));
                }
            }
        },
        None => {},
    }
}

/// The facts a finished round gathered, in fetch order.
pub fn fetch_faces(st: FetchState) -> (r: Vec<RawFontFace>)
    ensures
        r@ == st.faces@,
{
    st.faces
}

} // verus!
