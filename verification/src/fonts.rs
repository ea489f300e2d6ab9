//! The font aggregator: raw font-face facts are grouped by family
//! (exact-string, case-sensitive), deduplicated by resource URL with the
//! first declaration winning, ordered by numeric weight with ties broken
//! by style (then URL), and the family groups ordered by name.

use vstd::prelude::*;
use vstd::relations::{total_ordering, sorted_by};
use vstd::seq_lib::{lemma_multiset_commutative, lemma_sorted_unique};
use vstd::multiset::Multiset;
use crate::css::{RawFontFace, FaceV, face_views, str_views, source_of, detect_font_source};
use crate::order::{
    seq_lt, seq_le, weight_num, weight_key, str_le, lemma_seq_le_total_ordering,
    lemma_seq_lt_asymmetric, lemma_seq_lt_connected, lemma_seq_lt_transitive,
    lemma_seq_lt_irreflexive,
};

verus! {

/// One physical resource of a family: a (style, weight) rendering backed
/// by one URL in one format.
#[derive(Debug, Clone, PartialEq, Eq)]
pub struct FontVariant {
    pub style: String,
    pub weight: String,
    pub url: String,
    pub format: String,
}

pub struct VarV {
    pub style: Seq<char>,
    pub weight: Seq<char>,
    pub url: Seq<char>,
    pub format: Seq<char>,
}

impl View for FontVariant {
    type V = VarV;

    open spec fn view(&self) -> VarV {
        VarV { style: self.style@, weight: self.weight@, url: self.url@, format: self.format@ }
    }
}

pub open spec fn vars_view(v: Seq<FontVariant>) -> Seq<VarV> {
    v.map_values(|x: FontVariant| x@)
}

/// One catalog entry: a family with its ordered variants and the
/// provider it is attributed to.
#[derive(Debug, Clone, PartialEq, Eq)]
pub struct FontInfo {
    pub family: String,
    pub variants: Vec<FontVariant>,
    pub source: String,
}

pub struct FontInfoV {
    pub family: Seq<char>,
    pub variants: Seq<VarV>,
    pub source: Seq<char>,
}

impl View for FontInfo {
    type V = FontInfoV;

    open spec fn view(&self) -> FontInfoV {
        FontInfoV { family: self.family@, variants: vars_view(self.variants@), source: self.source@ }
    }
}

// ---------------------------------------------------------------------------
// The grouping model
// ---------------------------------------------------------------------------

/// The variant a fact stands for.
pub open spec fn var_of(f: FaceV) -> VarV {
    VarV { style: f.style, weight: f.weight, url: f.url, format: f.format }
}

/// No two variants share a URL.
pub open spec fn urls_distinct(vs: Seq<VarV>) -> bool {
    forall|i: int, j: int| 0 <= i < j < vs.len() ==> vs[i].url != vs[j].url
}

/// Whether some variant in `vs` holds the URL `u`.
pub open spec fn has_url(vs: Seq<VarV>, u: Seq<char>) -> bool {
    exists|k: int| 0 <= k < vs.len() && vs[k].url == u
}

/// The variants of family `fam` among `faces`, in declaration order, each
/// URL kept once with its first declaration; `acc` holds what is already
/// collected.
pub open spec fn vars_acc(faces: Seq<FaceV>, fam: Seq<char>, acc: Seq<VarV>) -> Seq<VarV>
    decreases faces.len(),
{
    if faces.len() == 0 {
        acc
    } else {
        let f = faces[0];
        if f.family == fam && !has_url(acc, f.url) {
            vars_acc(faces.drop_first(), fam, acc.push(var_of(f)))
        } else {
            vars_acc(faces.drop_first(), fam, acc)
        }
    }
}

/// The deduplicated variants of one family, in declaration order.
pub open spec fn family_variants(faces: Seq<FaceV>, fam: Seq<char>) -> Seq<VarV> {
    vars_acc(faces, fam, Seq::empty())
}

/// The distinct families among `faces`, in first-occurrence order, after
/// those already in `acc`.
pub open spec fn fams_acc(faces: Seq<FaceV>, acc: Seq<Seq<char>>) -> Seq<Seq<char>>
    decreases faces.len(),
{
    if faces.len() == 0 {
        acc
    } else {
        let f = faces[0];
        if acc.contains(f.family) {
            fams_acc(faces.drop_first(), acc)
        } else {
            fams_acc(faces.drop_first(), acc.push(f.family))
        }
    }
}

pub open spec fn distinct_families(faces: Seq<FaceV>) -> Seq<Seq<char>> {
    fams_acc(faces, Seq::empty())
}

/// A family that occurs among the facts has at least one variant.
proof fn lemma_vars_acc_min_len(faces: Seq<FaceV>, fam: Seq<char>, acc: Seq<VarV>)
    ensures
        vars_acc(faces, fam, acc).len() >= acc.len(),
    decreases faces.len(),
{
    if faces.len() > 0 {
        let f = faces[0];
        if f.family == fam && !has_url(acc, f.url) {
            lemma_vars_acc_min_len(faces.drop_first(), fam, acc.push(var_of(f)));
        } else {
            lemma_vars_acc_min_len(faces.drop_first(), fam, acc);
        }
    }
}

proof fn lemma_family_has_variants(faces: Seq<FaceV>, fam: Seq<char>, acc: Seq<VarV>)
    requires
        exists|i: int| 0 <= i < faces.len() && (#[trigger] faces[i]).family == fam,
    ensures
        vars_acc(faces, fam, acc).len() >= 1,
    decreases faces.len(),
{
    let f = faces[0];
    if f.family == fam && !has_url(acc, f.url) {
        lemma_vars_acc_min_len(faces.drop_first(), fam, acc.push(var_of(f)));
    } else if f.family == fam {
        assert(acc.len() >= 1);
        lemma_vars_acc_min_len(faces.drop_first(), fam, acc);
    } else {
        let i = choose|i: int| 0 <= i < faces.len() && (#[trigger] faces[i]).family == fam;
        assert(faces.drop_first()[i - 1] == faces[i]);
        lemma_family_has_variants(faces.drop_first(), fam, acc);
    }
}

/// Every collected family name is the family of some fact.
proof fn lemma_fams_acc_member(faces: Seq<FaceV>, acc: Seq<Seq<char>>, x: Seq<char>)
    requires
        fams_acc(faces, acc).contains(x),
    ensures
        acc.contains(x) || exists|i: int| 0 <= i < faces.len() && (#[trigger] faces[i]).family
            == x,
    decreases faces.len(),
{
    if faces.len() > 0 {
        let f = faces[0];
        let rest = faces.drop_first();
        if acc.contains(f.family) {
            lemma_fams_acc_member(rest, acc, x);
            if !acc.contains(x) {
                let i = choose|i: int| 0 <= i < rest.len() && (#[trigger] rest[i]).family == x;
                assert(faces[i + 1] == rest[i]);
            }
        } else {
            lemma_fams_acc_member(rest, acc.push(f.family), x);
            if !acc.contains(x) {
                if acc.push(f.family).contains(x) {
                    let k = choose|k: int|
                        0 <= k < acc.push(f.family).len() && acc.push(f.family)[k] == x;
                    assert(k == acc.len());
                    assert(faces[0].family == x);
                } else {
                    let i = choose|i: int|
                        0 <= i < rest.len() && (#[trigger] rest[i]).family == x;
                    assert(faces[i + 1] == rest[i]);
                }
            }
        }
    }
}

// ---------------------------------------------------------------------------
// Orders
// ---------------------------------------------------------------------------

/// Variant order: numeric weight, then style, then URL (with the written
/// weight and the format as final tie-breakers, making the order total).
pub open spec fn var_le(a: VarV, b: VarV) -> bool {
    if weight_num(a.weight) != weight_num(b.weight) {
        weight_num(a.weight) < weight_num(b.weight)
    } else if a.style != b.style {
        seq_lt(a.style, b.style)
    } else if a.url != b.url {
        seq_lt(a.url, b.url)
    } else if a.weight != b.weight {
        seq_lt(a.weight, b.weight)
    } else if a.format != b.format {
        seq_lt(a.format, b.format)
    } else {
        true
    }
}

pub open spec fn var_le_rel() -> spec_fn(VarV, VarV) -> bool {
    |a: VarV, b: VarV| var_le(a, b)
}

pub open spec fn seq_le_rel() -> spec_fn(Seq<char>, Seq<char>) -> bool {
    |a: Seq<char>, b: Seq<char>| seq_le(a, b)
}

proof fn lemma_var_le_pair(a: VarV, b: VarV)
    ensures
        var_le(a, a),
        var_le(a, b) || var_le(b, a),
        (var_le(a, b) && var_le(b, a)) ==> a == b,
{
    lemma_seq_lt_connected(a.style, b.style);
    lemma_seq_lt_connected(a.url, b.url);
    lemma_seq_lt_connected(a.weight, b.weight);
    lemma_seq_lt_connected(a.format, b.format);
    lemma_seq_lt_asymmetric(a.style, b.style);
    lemma_seq_lt_asymmetric(a.url, b.url);
    lemma_seq_lt_asymmetric(a.weight, b.weight);
    lemma_seq_lt_asymmetric(a.format, b.format);
}

proof fn lemma_var_le_trans(a: VarV, b: VarV, c: VarV)
    ensures
        (var_le(a, b) && var_le(b, c)) ==> var_le(a, c),
{
    lemma_seq_lt_transitive(a.style, b.style, c.style);
    lemma_seq_lt_transitive(a.url, b.url, c.url);
    lemma_seq_lt_transitive(a.weight, b.weight, c.weight);
    lemma_seq_lt_transitive(a.format, b.format, c.format);
    lemma_seq_lt_asymmetric(a.style, b.style);
    lemma_seq_lt_asymmetric(a.url, b.url);
    lemma_seq_lt_asymmetric(a.weight, b.weight);
    lemma_seq_lt_asymmetric(a.format, b.format);
    lemma_seq_lt_irreflexive(a.style);
    lemma_seq_lt_irreflexive(a.url);
    lemma_seq_lt_irreflexive(a.weight);
    lemma_seq_lt_irreflexive(a.format);
}

/// The variant order is total.
pub proof fn lemma_var_le_total_ordering()
    ensures
        total_ordering(var_le_rel()),
{
    let r = var_le_rel();
    assert forall|a: VarV| #[trigger] r(a, a) by {
        lemma_var_le_pair(a, a);
    }
    assert forall|a: VarV, b: VarV| #[trigger] r(a, b) && #[trigger] r(b, a) implies a == b by {
        lemma_var_le_pair(a, b);
    }
    assert forall|a: VarV, b: VarV, c: VarV|
        #[trigger] r(a, b) && #[trigger] r(b, c) implies r(a, c) by {
        lemma_var_le_trans(a, b, c);
    }
    assert forall|a: VarV, b: VarV| #[trigger] r(a, b) || #[trigger] r(b, a) by {
        lemma_var_le_pair(a, b);
    }
}

/// `seq_le_rel` is `seq_le` as a relation value; its totality restated.
pub proof fn lemma_seq_le_rel_total_ordering()
    ensures
        total_ordering(seq_le_rel()),
{
    lemma_seq_le_total_ordering();
    assert(seq_le_rel() == (|a: Seq<char>, b: Seq<char>| seq_le(a, b)));
}

/// Whether `a` orders no later than `b` among variants.
pub fn variant_le(a: &FontVariant, b: &FontVariant) -> (r: bool)
    ensures
        r == var_le(a@, b@),
{
    let ka = weight_key(a.weight.as_str());
    let kb = weight_key(b.weight.as_str());
    if ka != kb {
        ka < kb
    } else if !(a.style == b.style) {
        let r = str_le(a.style.as_str(), b.style.as_str());
        proof {
            assert(seq_le(a.style@, b.style@) == (seq_lt(a.style@, b.style@) || a.style@
                == b.style@));
        }
        r
    } else if !(a.url == b.url) {
        let r = str_le(a.url.as_str(), b.url.as_str());
        r
    } else if !(a.weight == b.weight) {
        let r = str_le(a.weight.as_str(), b.weight.as_str());
        r
    } else if !(a.format == b.format) {
        let r = str_le(a.format.as_str(), b.format.as_str());
        r
    } else {
        true
    }
}

// ---------------------------------------------------------------------------
// Sorting
// ---------------------------------------------------------------------------

fn dup_variant(v: &FontVariant) -> (r: FontVariant)
    ensures
        r@ == v@,
{
    FontVariant {
        style: v.style.clone(),
        weight: v.weight.clone(),
        url: v.url.clone(),
        format: v.format.clone(),
    }
}

proof fn lemma_insert_multiset<A>(s: Seq<A>, p: int, x: A)
    requires
        0 <= p <= s.len(),
    ensures
        s.insert(p, x).to_multiset() =~= s.to_multiset().insert(x),
{
    broadcast use vstd::seq_lib::group_to_multiset_ensures;
    broadcast use vstd::multiset::group_multiset_axioms;

    let t = s.insert(p, x);
    assert(t =~= s.take(p) + seq![x] + s.skip(p));
    assert(s =~= s.take(p) + s.skip(p));
    lemma_multiset_commutative(s.take(p), s.skip(p));
    lemma_multiset_commutative(s.take(p) + seq![x], s.skip(p));
    lemma_multiset_commutative(s.take(p), seq![x]);
    assert(seq![x] =~= Seq::<A>::empty().push(x));
    assert(seq![x].to_multiset() =~= Multiset::<A>::empty().insert(x));
}

/// Sort variants by `var_le`: the result is ordered and holds exactly
/// the same variants.
fn sort_variants(input: Vec<FontVariant>) -> (r: Vec<FontVariant>)
    ensures
        vars_view(r@).to_multiset() == vars_view(input@).to_multiset(),
        sorted_by(vars_view(r@), var_le_rel()),
{
    proof {
        lemma_var_le_total_ordering();
    }
    let mut out: Vec<FontVariant> = Vec::new();
    let mut i: usize = 0;
    proof {
        broadcast use vstd::seq_lib::group_to_multiset_ensures;

        assert(vars_view(input@.take(0)) =~= Seq::<VarV>::empty());
        assert(vars_view(out@) =~= Seq::<VarV>::empty());
    }
    while i < input.len()
        invariant
            i <= input@.len(),
            sorted_by(vars_view(out@), var_le_rel()),
            vars_view(out@).to_multiset() == vars_view(input@.take(i as int)).to_multiset(),
        decreases input@.len() - i,
    {
        let x = dup_variant(&input[i]);
        let ghost ov = vars_view(out@);
        let mut p: usize = 0;
        while p < out.len() && variant_le(&out[p], &x)
            invariant
                p <= out@.len(),
                vars_view(out@) == ov,
                x@ == input@[i as int]@,
                i < input@.len(),
                forall|k: int| 0 <= k < p ==> var_le(#[trigger] ov[k], x@),
            decreases out@.len() - p,
        {
            proof {
                assert(ov[p as int] == out@[p as int]@);
            }
            p = p + 1;
        }
        out.insert(p, x);
        proof {
            lemma_var_le_total_ordering();
            broadcast use vstd::seq_lib::group_to_multiset_ensures;

            let nv = vars_view(out@);
            assert(nv =~= ov.insert(p as int, x@)) by {
                assert(forall|t: int|
                    0 <= t < out@.len() ==> #[trigger] nv[t] == out@[t]@);
            }
            lemma_insert_multiset(ov, p as int, x@);
            // the new sequence is still sorted
            let r = var_le_rel();
            assert forall|a: int, b: int|
                0 <= a < b < nv.len() implies #[trigger] r(nv[a], nv[b]) by {
                if b < p {
                    assert(nv[a] == ov[a] && nv[b] == ov[b]);
                } else if a < p && b == p {
                    assert(nv[a] == ov[a] && nv[b] == x@);
                    assert(var_le(ov[a], x@));
                } else if a < p && b > p {
                    assert(nv[a] == ov[a] && nv[b] == ov[b - 1]);
                    if b - 1 == a {
                        lemma_var_le_pair(ov[a], ov[a]);
                    } else {
                        assert(r(ov[a], ov[b - 1]));
                    }
                } else if a == p {
                    assert(nv[a] == x@ && nv[b] == ov[b - 1]);
                    // the scan stopped at p, so x precedes ov[p]
                    assert(p < ov.len());
                    assert(!var_le(ov[p as int], x@));
                    lemma_var_le_pair(ov[p as int], x@);
                    assert(var_le(x@, ov[p as int]));
                    if b - 1 > p {
                        assert(r(ov[p as int], ov[b - 1]));
                        lemma_var_le_trans(x@, ov[p as int], ov[b - 1]);
                    }
                } else {
                    assert(nv[a] == ov[a - 1] && nv[b] == ov[b - 1]);
                    assert(r(ov[a - 1], ov[b - 1]));
                }
            }
            // the multiset tracks the consumed prefix
            assert(input@.take(i + 1) =~= input@.take(i as int).push(input@[i as int]));
            assert(vars_view(input@.take(i + 1)) =~= vars_view(input@.take(i as int)).push(x@));
        }
        i = i + 1;
    }
    proof {
        assert(input@.take(input@.len() as int) =~= input@);
    }
    out
}

/// Sort family names lexicographically: ordered, same names.
fn sort_families(input: Vec<String>) -> (r: Vec<String>)
    ensures
        str_views(r@).to_multiset() == str_views(input@).to_multiset(),
        sorted_by(str_views(r@), seq_le_rel()),
{
    proof {
        lemma_seq_le_rel_total_ordering();
    }
    let mut out: Vec<String> = Vec::new();
    let mut i: usize = 0;
    proof {
        broadcast use vstd::seq_lib::group_to_multiset_ensures;

        assert(str_views(input@.take(0)) =~= Seq::<Seq<char>>::empty());
        assert(str_views(out@) =~= Seq::<Seq<char>>::empty());
    }
    while i < input.len()
        invariant
            i <= input@.len(),
            sorted_by(str_views(out@), seq_le_rel()),
            str_views(out@).to_multiset() == str_views(input@.take(i as int)).to_multiset(),
        decreases input@.len() - i,
    {
        let x = input[i].clone();
        let ghost ov = str_views(out@);
        let mut p: usize = 0;
        while p < out.len() && str_le(out[p].as_str(), x.as_str())
            invariant
                p <= out@.len(),
                str_views(out@) == ov,
                x@ == input@[i as int]@,
                i < input@.len(),
                forall|k: int| 0 <= k < p ==> seq_le(#[trigger] ov[k], x@),
            decreases out@.len() - p,
        {
            proof {
                assert(ov[p as int] == out@[p as int]@);
            }
            p = p + 1;
        }
        out.insert(p, x);
        proof {
            lemma_seq_le_rel_total_ordering();
            broadcast use vstd::seq_lib::group_to_multiset_ensures;

            let nv = str_views(out@);
            assert(nv =~= ov.insert(p as int, x@)) by {
                assert(forall|t: int|
                    0 <= t < out@.len() ==> #[trigger] nv[t] == out@[t]@);
            }
            lemma_insert_multiset(ov, p as int, x@);
            let r = seq_le_rel();
            assert forall|a: int, b: int|
                0 <= a < b < nv.len() implies #[trigger] r(nv[a], nv[b]) by {
                if b < p {
                    assert(nv[a] == ov[a] && nv[b] == ov[b]);
                } else if a < p && b == p {
                    assert(nv[a] == ov[a] && nv[b] == x@);
                } else if a < p && b > p {
                    assert(nv[a] == ov[a] && nv[b] == ov[b - 1]);
                    if b - 1 != a {
                        assert(r(ov[a], ov[b - 1]));
                    }
                } else if a == p {
                    assert(nv[a] == x@ && nv[b] == ov[b - 1]);
                    assert(p < ov.len());
                    assert(!seq_le(ov[p as int], x@));
                    lemma_seq_lt_connected(x@, ov[p as int]);
                    assert(seq_le(x@, ov[p as int]));
                    if b - 1 > p {
                        assert(r(ov[p as int], ov[b - 1]));
                        lemma_seq_lt_transitive(x@, ov[p as int], ov[b - 1]);
                    }
                } else {
                    assert(nv[a] == ov[a - 1] && nv[b] == ov[b - 1]);
                    assert(r(ov[a - 1], ov[b - 1]));
                }
            }
            assert(input@.take(i + 1) =~= input@.take(i as int).push(input@[i as int]));
            assert(str_views(input@.take(i + 1)) =~= str_views(input@.take(i as int)).push(x@));
        }
        i = i + 1;
    }
    proof {
        assert(input@.take(input@.len() as int) =~= input@);
    }
    out
}

// ---------------------------------------------------------------------------
// Collectors
// ---------------------------------------------------------------------------

fn contains_string(v: &Vec<String>, s: &String) -> (r: bool)
    ensures
        r == str_views(v@).contains(s@),
{
    let mut k: usize = 0;
    while k < v.len()
        invariant
            k <= v@.len(),
            forall|t: int| 0 <= t < k ==> str_views(v@)[t] != s@,
        decreases v@.len() - k,
    {
        if v[k] == *s {
            proof {
                assert(str_views(v@)[k as int] == s@);
            }
            return true;
        }
        proof {
            assert(str_views(v@)[k as int] == v@[k as int]@);
        }
        k = k + 1;
    }
    proof {
        if str_views(v@).contains(s@) {
            let w = choose|w: int| 0 <= w < str_views(v@).len() && str_views(v@)[w] == s@;
            assert(false);
        }
    }
    false
}

fn has_url_x(vs: &Vec<FontVariant>, u: &String) -> (r: bool)
    ensures
        r == has_url(vars_view(vs@), u@),
{
    let mut k: usize = 0;
    while k < vs.len()
        invariant
            k <= vs@.len(),
            forall|t: int| 0 <= t < k ==> vars_view(vs@)[t].url != u@,
        decreases vs@.len() - k,
    {
        if vs[k].url == *u {
            proof {
                assert(vars_view(vs@)[k as int].url == u@);
            }
            return true;
        }
        proof {
            assert(vars_view(vs@)[k as int] == vs@[k as int]@);
        }
        k = k + 1;
    }
    proof {
        if has_url(vars_view(vs@), u@) {
            let w = choose|w: int| 0 <= w < vars_view(vs@).len() && vars_view(vs@)[w].url == u@;
            assert(false);
        }
    }
    false
}

fn collect_families(faces: &Vec<RawFontFace>, i: usize, acc: Vec<String>) -> (r: Vec<String>)
    requires
        i <= faces@.len(),
    ensures
        str_views(r@) == fams_acc(face_views(faces@).skip(i as int), str_views(acc@)),
    decreases faces@.len() - i,
{
    let ghost fv = face_views(faces@);
    if i == faces.len() {
        proof {
            assert(fv.skip(i as int) =~= Seq::<FaceV>::empty());
        }
        acc
    } else {
        proof {
            assert(fv.skip(i as int)[0] == faces@[i as int]@);
            assert(fv.skip(i as int).drop_first() =~= fv.skip(i + 1));
        }
        let ghost av = str_views(acc@);
        let f = &faces[i];
        if contains_string(&acc, &f.family) {
            collect_families(faces, i + 1, acc)
        } else {
            let mut acc2 = acc;
            acc2.push(f.family.clone());
            proof {
                assert(str_views(acc2@) =~= av.push(f.family@));
            }
            collect_families(faces, i + 1, acc2)
        }
    }
}

fn collect_variants(faces: &Vec<RawFontFace>, i: usize, fam: &String, acc: Vec<FontVariant>) -> (r:
    Vec<FontVariant>)
    requires
        i <= faces@.len(),
    ensures
        vars_view(r@) == vars_acc(face_views(faces@).skip(i as int), fam@, vars_view(acc@)),
    decreases faces@.len() - i,
{
    let ghost fv = face_views(faces@);
    if i == faces.len() {
        proof {
            assert(fv.skip(i as int) =~= Seq::<FaceV>::empty());
        }
        acc
    } else {
        proof {
            assert(fv.skip(i as int)[0] == faces@[i as int]@);
            assert(fv.skip(i as int).drop_first() =~= fv.skip(i + 1));
        }
        let ghost av = vars_view(acc@);
        let f = &faces[i];
        if f.family == *fam && !has_url_x(&acc, &f.url) {
            let mut acc2 = acc;
            acc2.push(
                FontVariant {
                    style: f.style.clone(),
                    weight: f.weight.clone(),
                    url: f.url.clone(),
                    format: f.format.clone(),
                },
            );
            proof {
                assert(vars_view(acc2@) =~= av.push(var_of(fv.skip(i as int)[0])));
            }
            collect_variants(faces, i + 1, fam, acc2)
        } else {
            collect_variants(faces, i + 1, fam, acc)
        }
    }
}

// ---------------------------------------------------------------------------
// Uniqueness
// ---------------------------------------------------------------------------

proof fn lemma_push_no_dup<A>(s: Seq<A>, x: A)
    requires
        s.no_duplicates(),
        !s.contains(x),
    ensures
        s.push(x).no_duplicates(),
{
    assert forall|i: int, j: int|
        0 <= i < s.push(x).len() && 0 <= j < s.push(x).len() && i != j implies s.push(x)[i] != s.push(
        x,
    )[j] by {
        if i < s.len() && j < s.len() {
        } else if i < s.len() {
            if s[i] == x {
                assert(s.contains(x));
            }
        } else {
            if s[j] == x {
                assert(s.contains(x));
            }
        }
    }
}

proof fn lemma_fams_acc_nodup(faces: Seq<FaceV>, acc: Seq<Seq<char>>)
    requires
        acc.no_duplicates(),
    ensures
        fams_acc(faces, acc).no_duplicates(),
    decreases faces.len(),
{
    if faces.len() > 0 {
        let f = faces[0];
        if acc.contains(f.family) {
            lemma_fams_acc_nodup(faces.drop_first(), acc);
        } else {
            lemma_push_no_dup(acc, f.family);
            lemma_fams_acc_nodup(faces.drop_first(), acc.push(f.family));
        }
    }
}

proof fn lemma_vars_acc_urls(faces: Seq<FaceV>, fam: Seq<char>, acc: Seq<VarV>)
    requires
        urls_distinct(acc),
    ensures
        urls_distinct(vars_acc(faces, fam, acc)),
    decreases faces.len(),
{
    if faces.len() > 0 {
        let f = faces[0];
        if f.family == fam && !has_url(acc, f.url) {
            let acc2 = acc.push(var_of(f));
            assert(urls_distinct(acc2)) by {
                assert forall|i: int, j: int| 0 <= i < j < acc2.len() implies acc2[i].url
                    != acc2[j].url by {
                    if j == acc.len() {
                        if acc[i].url == f.url {
                            assert(has_url(acc, f.url));
                        }
                    }
                }
            }
            lemma_vars_acc_urls(faces.drop_first(), fam, acc2);
        } else {
            lemma_vars_acc_urls(faces.drop_first(), fam, acc);
        }
    }
}

proof fn lemma_url_distinct_transfer(s: Seq<VarV>, t: Seq<VarV>)
    requires
        t.to_multiset() == s.to_multiset(),
        urls_distinct(s),
    ensures
        urls_distinct(t),
{
    broadcast use vstd::seq_lib::group_to_multiset_ensures;
    broadcast use vstd::multiset::group_multiset_axioms;

    assert(s.no_duplicates()) by {
        assert forall|i: int, j: int|
            0 <= i < s.len() && 0 <= j < s.len() && i != j implies s[i] != s[j] by {
            if s[i] == s[j] {
                if i < j {
                    assert(s[i].url != s[j].url);
                } else {
                    assert(s[j].url != s[i].url);
                }
            }
        }
    }
    s.lemma_multiset_has_no_duplicates();
    t.lemma_multiset_has_no_duplicates_conv();
    assert forall|i: int, j: int| 0 <= i < j < t.len() implies t[i].url != t[j].url by {
        assert(t[i] != t[j]);
        assert(t.contains(t[i]) && t.contains(t[j]));
        assert(t.to_multiset().contains(t[i]) && t.to_multiset().contains(t[j]));
        assert(s.contains(t[i]) && s.contains(t[j]));
        let a = choose|a: int| 0 <= a < s.len() && s[a] == t[i];
        let b = choose|b: int| 0 <= b < s.len() && s[b] == t[j];
        assert(a != b);
        if a < b {
            assert(s[a].url != s[b].url);
        } else {
            assert(s[b].url != s[a].url);
        }
    }
}

// ---------------------------------------------------------------------------
// The aggregator
// ---------------------------------------------------------------------------

pub open spec fn infos_view(v: Seq<FontInfo>) -> Seq<FontInfoV> {
    v.map_values(|x: FontInfo| x@)
}

/// How a catalog relates to the raw facts it was aggregated from: one
/// entry per distinct family in lexicographic order, each holding
/// exactly the family's URL-deduplicated variants ordered by `var_le`,
/// and classified from its first variant after that ordering.
pub open spec fn catalog_matches(faces: Seq<FaceV>, r: Seq<FontInfoV>) -> bool {
    let fams = distinct_families(faces).sort_by(seq_le_rel());
    &&& r.len() == fams.len()
    &&& forall|k: int| 0 <= k < r.len() ==> {
        &&& (#[trigger] r[k]).family == fams[k]
        &&& r[k].variants.len() > 0
        &&& r[k].source == source_of(r[k].variants[0].url)
        &&& r[k].variants.to_multiset() == family_variants(faces, fams[k]).to_multiset()
        &&& sorted_by(r[k].variants, var_le_rel())
    }
}

/// Aggregate raw font-face facts into the final catalog: grouped by
/// family, deduplicated by URL (first declaration wins), variants ordered
/// by numeric weight then style (then URL), families ordered by name, and
/// each family classified from its first variant after that ordering.
pub fn group_fonts(raw_faces: Vec<RawFontFace>) -> (r: Vec<FontInfo>)
    ensures
        catalog_matches(face_views(raw_faces@), infos_view(r@)),
        forall|i: int, j: int|
            0 <= i < j < r@.len() ==> seq_lt(r@[i]@.family, r@[j]@.family),
        forall|k: int| 0 <= k < r@.len() ==> urls_distinct((#[trigger] r@[k])@.variants),
{
    let ghost faces = face_views(raw_faces@);
    let acc0: Vec<String> = Vec::new();
    proof {
        assert(str_views(acc0@) =~= Seq::<Seq<char>>::empty());
        assert(faces.skip(0) =~= faces);
    }
    let fams_raw = collect_families(&raw_faces, 0, acc0);
    let fams_sorted = sort_families(fams_raw);
    let ghost sfams = distinct_families(faces).sort_by(seq_le_rel());
    proof {
        lemma_seq_le_rel_total_ordering();
        assert(Seq::<Seq<char>>::empty().no_duplicates());
        lemma_fams_acc_nodup(faces, Seq::empty());
        distinct_families(faces).lemma_sort_by_ensures(seq_le_rel());
        lemma_sorted_unique(str_views(fams_sorted@), sfams, seq_le_rel());
        assert(str_views(fams_sorted@) == sfams);
        distinct_families(faces).lemma_multiset_has_no_duplicates();
        str_views(fams_sorted@).lemma_multiset_has_no_duplicates_conv();
        assert(sfams.no_duplicates());
        assert(sorted_by(sfams, seq_le_rel()));
    }
    let mut r: Vec<FontInfo> = Vec::new();
    let mut k: usize = 0;
    while k < fams_sorted.len()
        invariant
            k <= fams_sorted@.len(),
            str_views(fams_sorted@) == sfams,
            sfams == distinct_families(faces).sort_by(seq_le_rel()),
            faces == face_views(raw_faces@),
            r@.len() == k,
            forall|t: int| 0 <= t < k ==> {
                &&& (#[trigger] r@[t]@).family == sfams[t]
                &&& r@[t]@.variants.len() > 0
                &&& r@[t]@.source == source_of(r@[t]@.variants[0].url)
                &&& r@[t]@.variants.to_multiset() == family_variants(faces, sfams[t]).to_multiset()
                &&& sorted_by(r@[t]@.variants, var_le_rel())
                &&& urls_distinct(r@[t]@.variants)
            },
        decreases fams_sorted@.len() - k,
    {
        let fam = &fams_sorted[k];
        proof {
            assert(fams_sorted@[k as int]@ == sfams[k as int]);
        }
        let vacc0: Vec<FontVariant> = Vec::new();
        proof {
            assert(vars_view(vacc0@) =~= Seq::<VarV>::empty());
            assert(faces.skip(0) =~= faces);
        }
        let vars_raw = collect_variants(&raw_faces, 0, fam, vacc0);
        let vars = sort_variants(vars_raw);
        proof {
            lemma_vars_acc_urls(faces, fam@, Seq::empty());
            lemma_url_distinct_transfer(family_variants(faces, fam@), vars_view(vars@));
            // the family names some fact, so its variants are not empty
            broadcast use vstd::seq_lib::group_to_multiset_ensures;

            assert(sfams[k as int] == fam@);
            assert(sfams.contains(fam@));
            lemma_seq_le_rel_total_ordering();
            distinct_families(faces).lemma_sort_by_ensures(seq_le_rel());
            assert(distinct_families(faces).sort_by(seq_le_rel()).contains(fam@));
            assert(distinct_families(faces).contains(fam@));
            lemma_fams_acc_member(faces, Seq::empty(), fam@);
            lemma_family_has_variants(faces, fam@, Seq::empty());
            assert(vars_view(vars@).len() == vars_view(vars@).to_multiset().len());
            assert(family_variants(faces, fam@).len() == family_variants(
                faces,
                fam@,
            ).to_multiset().len());
            assert(vars@.len() >= 1);
            assert(vars_view(vars@)[0] == vars@[0]@);
        }
        let source = detect_font_source(vars[0].url.as_str());
        let info = FontInfo { family: fam.clone(), variants: vars, source };
        r.push(info);
        k = k + 1;
    }
    proof {
        assert(infos_view(r@).len() == sfams.len());
        assert forall|k2: int| 0 <= k2 < infos_view(r@).len() implies {
            &&& (#[trigger] infos_view(r@)[k2]).family == sfams[k2]
            &&& infos_view(r@)[k2].variants.len() > 0
            &&& infos_view(r@)[k2].source == source_of(infos_view(r@)[k2].variants[0].url)
            &&& infos_view(r@)[k2].variants.to_multiset() == family_variants(
                faces,
                sfams[k2],
            ).to_multiset()
            &&& sorted_by(infos_view(r@)[k2].variants, var_le_rel())
        } by {
            assert(infos_view(r@)[k2] == r@[k2]@);
        }
        assert forall|i: int, j: int|
            0 <= i < j < r@.len() implies seq_lt(r@[i]@.family, r@[j]@.family) by {
            assert(seq_le_rel()(sfams[i], sfams[j]));
            assert(sfams[i] != sfams[j]);
        }
    }
    r
}


/// Aggregation is deterministic: any two catalogs that match the same
/// raw facts are equal. With the fetch order fixed, a scan of the same
/// page therefore yields one and the same catalog every time.
pub proof fn lemma_catalog_deterministic(faces: Seq<FaceV>, r1: Seq<FontInfoV>, r2: Seq<FontInfoV>)
    requires
        catalog_matches(faces, r1),
        catalog_matches(faces, r2),
    ensures
        r1 == r2,
{
    lemma_var_le_total_ordering();
    assert forall|k: int| 0 <= k < r1.len() implies r1[k] == r2[k] by {
        lemma_sorted_unique(r1[k].variants, r2[k].variants, var_le_rel());
        assert(r1[k].variants == r2[k].variants);
    }
    assert(r1 =~= r2);
}


// ---------------------------------------------------------------------------
// Order independence
// ---------------------------------------------------------------------------

/// Within each family, no two facts share a URL. Deduplication then
/// keeps every fact, so accumulation order cannot matter. A permutation
/// of a sequence with this property has it as well.
pub open spec fn fam_urls_distinct(faces: Seq<FaceV>) -> bool {
    forall|i: int, j: int|
        0 <= i < j < faces.len() && (#[trigger] faces[i]).family == (#[trigger] faces[j]).family
            ==> faces[i].url != faces[j].url
}

pub open spec fn fam_pred(fam: Seq<char>) -> spec_fn(FaceV) -> bool {
    |f: FaceV| f.family == fam
}

pub open spec fn to_var_fn() -> spec_fn(FaceV) -> VarV {
    |f: FaceV| var_of(f)
}

/// The variants of every fact of one family, in declaration order.
pub open spec fn matches_of(faces: Seq<FaceV>, fam: Seq<char>) -> Seq<VarV> {
    faces.filter(fam_pred(fam)).map_values(to_var_fn())
}

proof fn lemma_matches_of_empty(fam: Seq<char>)
    ensures
        matches_of(Seq::empty(), fam) == Seq::<VarV>::empty(),
{
    reveal(Seq::filter);
    assert(Seq::<FaceV>::empty().filter(fam_pred(fam)) =~= Seq::<FaceV>::empty());
    assert(matches_of(Seq::empty(), fam) =~= Seq::<VarV>::empty());
}

proof fn lemma_matches_of_one(f: FaceV, fam: Seq<char>)
    ensures
        matches_of(seq![f], fam) == (if f.family == fam {
            seq![var_of(f)]
        } else {
            Seq::<VarV>::empty()
        }),
{
    reveal(Seq::filter);
    let p = fam_pred(fam);
    assert(seq![f].drop_last() =~= Seq::<FaceV>::empty());
    assert(Seq::<FaceV>::empty().filter(p) =~= Seq::<FaceV>::empty());
    assert(seq![f].last() == f);
    if p(f) {
        assert(seq![f].filter(p) =~= Seq::<FaceV>::empty().push(f));
        assert(matches_of(seq![f], fam) =~= seq![var_of(f)]);
    } else {
        assert(seq![f].filter(p) =~= Seq::<FaceV>::empty());
        assert(matches_of(seq![f], fam) =~= Seq::<VarV>::empty());
    }
}

proof fn lemma_matches_of_add(a: Seq<FaceV>, b: Seq<FaceV>, fam: Seq<char>)
    ensures
        matches_of(a + b, fam) == matches_of(a, fam) + matches_of(b, fam),
{
    broadcast use vstd::prelude::Seq::filter_distributes_over_add;

    let p = fam_pred(fam);
    assert((a + b).filter(p) == a.filter(p) + b.filter(p));
    assert((a.filter(p) + b.filter(p)).map_values(to_var_fn()) =~= a.filter(p).map_values(
        to_var_fn(),
    ) + b.filter(p).map_values(to_var_fn()));
}

/// Whether `acc` already holds none of the URLs that `faces` still
/// contributes to the family.
pub open spec fn acc_fresh(acc: Seq<VarV>, faces: Seq<FaceV>, fam: Seq<char>) -> bool {
    forall|i: int|
        0 <= i < faces.len() && (#[trigger] faces[i]).family == fam ==> !has_url(
            acc,
            faces[i].url,
        )
}

/// With per-family distinct URLs, deduplication never fires: collecting
/// appends exactly every matching fact's variant.
proof fn lemma_vars_acc_matches(faces: Seq<FaceV>, fam: Seq<char>, acc: Seq<VarV>)
    requires
        fam_urls_distinct(faces),
        acc_fresh(acc, faces, fam),
    ensures
        vars_acc(faces, fam, acc) == acc + matches_of(faces, fam),
    decreases faces.len(),
{
    if faces.len() == 0 {
        lemma_matches_of_empty(fam);
        assert(faces =~= Seq::<FaceV>::empty());
        assert(acc + matches_of(faces, fam) =~= acc);
    } else {
        let f0 = faces[0];
        let rest = faces.drop_first();
        assert(faces =~= seq![f0] + rest);
        lemma_matches_of_add(seq![f0], rest, fam);
        lemma_matches_of_one(f0, fam);
        assert(fam_urls_distinct(rest)) by {
            assert forall|i: int, j: int|
                0 <= i < j < rest.len() && (#[trigger] rest[i]).family == (#[trigger] rest[j]).family
                implies rest[i].url != rest[j].url by {
                assert(rest[i] == faces[i + 1]);
                assert(rest[j] == faces[j + 1]);
            }
        }
        if f0.family == fam {
            assert(!has_url(acc, f0.url));
            let acc2 = acc.push(var_of(f0));
            assert(acc_fresh(acc2, rest, fam)) by {
                assert forall|i: int|
                    0 <= i < rest.len() && (#[trigger] rest[i]).family == fam implies !has_url(
                    acc2,
                    rest[i].url,
                ) by {
                    assert(rest[i] == faces[i + 1]);
                    assert(!has_url(acc, faces[i + 1].url));
                    assert(faces[0].url != faces[i + 1].url);
                    if has_url(acc2, rest[i].url) {
                        let k = choose|k: int|
                            0 <= k < acc2.len() && acc2[k].url == rest[i].url;
                        if k < acc.len() {
                            assert(acc[k].url == rest[i].url);
                        } else {
                            assert(acc2[k] == var_of(f0));
                        }
                    }
                }
            }
            lemma_vars_acc_matches(rest, fam, acc2);
            assert(vars_acc(faces, fam, acc) == acc2 + matches_of(rest, fam));
            assert(acc + matches_of(faces, fam) =~= acc2 + matches_of(rest, fam));
        } else {
            assert(acc_fresh(acc, rest, fam)) by {
                assert forall|i: int|
                    0 <= i < rest.len() && (#[trigger] rest[i]).family == fam implies !has_url(
                    acc,
                    rest[i].url,
                ) by {
                    assert(rest[i] == faces[i + 1]);
                }
            }
            lemma_vars_acc_matches(rest, fam, acc);
            assert(acc + matches_of(faces, fam) =~= acc + matches_of(rest, fam));
        }
    }
}

/// What one family contributes is, as a multiset, invariant under any
/// reordering of the facts.
proof fn lemma_matches_multiset(faces1: Seq<FaceV>, faces2: Seq<FaceV>, fam: Seq<char>)
    requires
        faces1.to_multiset() == faces2.to_multiset(),
    ensures
        matches_of(faces1, fam).to_multiset() == matches_of(faces2, fam).to_multiset(),
    decreases faces1.len(),
{
    broadcast use vstd::seq_lib::group_to_multiset_ensures;
    broadcast use vstd::multiset::group_multiset_axioms;

    if faces1.len() == 0 {
        assert(faces1.to_multiset().len() == faces1.len());
        assert(faces2.to_multiset().len() == faces2.len());
        assert(faces2.len() == 0);
        assert(faces1 =~= faces2);
    } else {
        let x = faces1[0];
        let rest1 = faces1.drop_first();
        assert(faces1.contains(x));
        assert(faces1.to_multiset().count(x) > 0);
        assert(faces2.to_multiset().count(x) > 0);
        assert(faces2.contains(x));
        let j = choose|j: int| 0 <= j < faces2.len() && faces2[j] == x;
        let rest2 = faces2.remove(j);
        assert(faces1.remove(0) =~= rest1);
        assert(faces1.remove(0).to_multiset() =~= faces1.to_multiset().remove(x));
        assert(faces2.remove(j).to_multiset() =~= faces2.to_multiset().remove(x));
        assert(rest1.to_multiset() =~= rest2.to_multiset());
        lemma_matches_multiset(rest1, rest2, fam);
        // decompose both fact sequences around the shared element
        assert(faces1 =~= seq![x] + rest1);
        lemma_matches_of_add(seq![x], rest1, fam);
        let a2 = faces2.subrange(0, j);
        let b2 = faces2.subrange(j + 1, faces2.len() as int);
        assert(faces2 =~= a2 + (seq![x] + b2));
        assert(rest2 =~= a2 + b2);
        lemma_matches_of_add(a2, seq![x] + b2, fam);
        lemma_matches_of_add(seq![x], b2, fam);
        lemma_matches_of_add(a2, b2, fam);
        let mx = matches_of(seq![x], fam);
        let ma = matches_of(a2, fam);
        let mb = matches_of(b2, fam);
        assert(matches_of(faces1, fam) == mx + matches_of(rest1, fam));
        assert(matches_of(faces2, fam) == ma + (mx + mb));
        assert(matches_of(rest2, fam) == ma + mb);
        lemma_multiset_commutative(mx, matches_of(rest1, fam));
        lemma_multiset_commutative(ma, mx + mb);
        lemma_multiset_commutative(mx, mb);
        lemma_multiset_commutative(ma, mb);
        assert(matches_of(faces1, fam).to_multiset() =~= matches_of(faces2, fam).to_multiset());
    }
}

proof fn lemma_fams_acc_keeps(faces: Seq<FaceV>, acc: Seq<Seq<char>>, x: Seq<char>)
    requires
        acc.contains(x),
    ensures
        fams_acc(faces, acc).contains(x),
    decreases faces.len(),
{
    if faces.len() > 0 {
        let f = faces[0];
        if acc.contains(f.family) {
            lemma_fams_acc_keeps(faces.drop_first(), acc, x);
        } else {
            let k = choose|k: int| 0 <= k < acc.len() && acc[k] == x;
            assert(acc.push(f.family)[k] == x);
            lemma_fams_acc_keeps(faces.drop_first(), acc.push(f.family), x);
        }
    }
}

proof fn lemma_fams_acc_complete(faces: Seq<FaceV>, acc: Seq<Seq<char>>, i: int)
    requires
        0 <= i < faces.len(),
    ensures
        fams_acc(faces, acc).contains(faces[i].family),
    decreases faces.len(),
{
    let f = faces[0];
    if i == 0 {
        if acc.contains(f.family) {
            lemma_fams_acc_keeps(faces.drop_first(), acc, f.family);
        } else {
            assert(acc.push(f.family)[acc.len() as int] == f.family);
            lemma_fams_acc_keeps(faces.drop_first(), acc.push(f.family), f.family);
        }
    } else {
        assert(faces.drop_first()[i - 1] == faces[i]);
        if acc.contains(f.family) {
            lemma_fams_acc_complete(faces.drop_first(), acc, i - 1);
        } else {
            lemma_fams_acc_complete(faces.drop_first(), acc.push(f.family), i - 1);
        }
    }
}

/// The sorted family list is invariant under any reordering of the facts.
proof fn lemma_sorted_families_invariant(faces1: Seq<FaceV>, faces2: Seq<FaceV>)
    requires
        faces1.to_multiset() == faces2.to_multiset(),
    ensures
        distinct_families(faces1).sort_by(seq_le_rel()) == distinct_families(faces2).sort_by(
            seq_le_rel(),
        ),
{
    broadcast use vstd::seq_lib::group_to_multiset_ensures;
    broadcast use vstd::multiset::group_multiset_axioms;

    let d1 = distinct_families(faces1);
    let d2 = distinct_families(faces2);
    assert(Seq::<Seq<char>>::empty().no_duplicates());
    lemma_fams_acc_nodup(faces1, Seq::empty());
    lemma_fams_acc_nodup(faces2, Seq::empty());
    assert forall|x: Seq<char>| d1.contains(x) implies d2.contains(x) by {
        lemma_fams_acc_member(faces1, Seq::empty(), x);
        let i = choose|i: int| 0 <= i < faces1.len() && (#[trigger] faces1[i]).family == x;
        assert(faces1.contains(faces1[i]));
        assert(faces1.to_multiset().count(faces1[i]) > 0);
        assert(faces2.to_multiset().count(faces1[i]) > 0);
        assert(faces2.contains(faces1[i]));
        let j = choose|j: int| 0 <= j < faces2.len() && faces2[j] == faces1[i];
        lemma_fams_acc_complete(faces2, Seq::empty(), j);
    }
    assert forall|x: Seq<char>| d2.contains(x) implies d1.contains(x) by {
        lemma_fams_acc_member(faces2, Seq::empty(), x);
        let i = choose|i: int| 0 <= i < faces2.len() && (#[trigger] faces2[i]).family == x;
        assert(faces2.contains(faces2[i]));
        assert(faces2.to_multiset().count(faces2[i]) > 0);
        assert(faces1.to_multiset().count(faces2[i]) > 0);
        assert(faces1.contains(faces2[i]));
        let j = choose|j: int| 0 <= j < faces1.len() && faces1[j] == faces2[i];
        lemma_fams_acc_complete(faces1, Seq::empty(), j);
    }
    d1.lemma_multiset_has_no_duplicates();
    d2.lemma_multiset_has_no_duplicates();
    assert(d1.to_multiset() =~= d2.to_multiset()) by {
        assert forall|x: Seq<char>|
            d1.to_multiset().count(x) == d2.to_multiset().count(x) by {
            if d1.contains(x) {
                assert(d1.to_multiset().count(x) == 1);
                assert(d2.contains(x));
                assert(d2.to_multiset().count(x) == 1);
            } else {
                assert(!d2.contains(x));
                assert(d1.to_multiset().count(x) == 0);
                assert(d2.to_multiset().count(x) == 0);
            }
        }
    }
    lemma_seq_le_rel_total_ordering();
    d1.lemma_sort_by_ensures(seq_le_rel());
    d2.lemma_sort_by_ensures(seq_le_rel());
    lemma_sorted_unique(d1.sort_by(seq_le_rel()), d2.sort_by(seq_le_rel()), seq_le_rel());
}

/// Accumulation order cannot change the catalog: when no two facts of
/// one family share a URL, any two catalogs matching reorderings of the
/// same facts are equal.
pub proof fn lemma_catalog_order_independent(
    faces1: Seq<FaceV>,
    faces2: Seq<FaceV>,
    r1: Seq<FontInfoV>,
    r2: Seq<FontInfoV>,
)
    requires
        faces1.to_multiset() == faces2.to_multiset(),
        fam_urls_distinct(faces1),
        fam_urls_distinct(faces2),
        catalog_matches(faces1, r1),
        catalog_matches(faces2, r2),
    ensures
        r1 == r2,
{
    lemma_sorted_families_invariant(faces1, faces2);
    let fams = distinct_families(faces1).sort_by(seq_le_rel());
    lemma_var_le_total_ordering();
    assert forall|k: int| 0 <= k < r1.len() implies r1[k] == r2[k] by {
        let fam = fams[k];
        assert(acc_fresh(Seq::empty(), faces1, fam));
        assert(acc_fresh(Seq::empty(), faces2, fam));
        lemma_vars_acc_matches(faces1, fam, Seq::empty());
        lemma_vars_acc_matches(faces2, fam, Seq::empty());
        assert(Seq::<VarV>::empty() + matches_of(faces1, fam) =~= matches_of(faces1, fam));
        assert(Seq::<VarV>::empty() + matches_of(faces2, fam) =~= matches_of(faces2, fam));
        lemma_matches_multiset(faces1, faces2, fam);
        assert(r1[k].variants.to_multiset() == r2[k].variants.to_multiset());
        lemma_sorted_unique(r1[k].variants, r2[k].variants, var_le_rel());
        assert(r1[k].variants == r2[k].variants);
    }
    assert(r1 =~= r2);
}


} // verus!
