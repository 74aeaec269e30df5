//! Properties that relate several operations of the catalog.
use vstd::prelude::*;

use crate::catalog::{lemma_stable_prefix, links_of, same_rows, sorts_stably, stable_sort_of, Catalog};
use crate::facets::{collections_of, galleries_of};
use crate::filter::FilterClause;
use crate::models::{FilterOptions, GallerySummary, ImageDetail, ImageRow, TagRef};
use crate::catalog::TagRow;
use crate::facets::{tag_key, used_by};
use crate::order::{key_lt, lemma_key_cmp_equal, lemma_strict_len, texts_strictly_sorted, KeyView};
use crate::sql::{all_conds, query_text, texts};

verus! {

/// With no clauses every image matches, in catalog order.
pub proof fn lemma_select_all(cat: &Catalog, imgs: Seq<ImageRow>)
    ensures
        cat.select(imgs, Seq::empty()) == imgs,
    decreases imgs.len(),
{
    if imgs.len() > 0 {
        lemma_select_all(cat, imgs.drop_last());
        assert(cat.matches_all(imgs.last(), Seq::empty()));
        assert(imgs.drop_last().push(imgs.last()) =~= imgs);
    }
}

/// A search returns an image exactly when the image is in the catalog and satisfies
/// every clause of the filter.
pub proof fn law_search_selects_exactly(
    cat: &Catalog,
    filters: Seq<FilterClause>,
    rows: Seq<ImageRow>,
    img: ImageRow,
)
    requires
        same_rows(rows, cat.matching(filters)),
    ensures
        rows.contains(img) <==> cat.images@.contains(img) && cat.matches_all(img, filters),
{
    crate::catalog::lemma_select_contains(cat, cat.images@, filters, img);
}

/// The options of a filter count as many images as the search under the same filter
/// returns.
pub proof fn law_count_matches_search(
    cat: &Catalog,
    filters: Seq<FilterClause>,
    rows: Seq<ImageRow>,
    o: FilterOptions,
)
    requires
        same_rows(rows, cat.matching(filters)),
        cat.describes(o, cat.matching(filters)),
    ensures
        o.image_count == rows.len(),
{
}

/// Without clauses, the options list the distinct collections of all images, in
/// ascending order.
pub proof fn law_unfiltered_collections(cat: &Catalog, o: FilterOptions)
    requires
        cat.describes(o, cat.matching(Seq::empty())),
    ensures
        texts_strictly_sorted(texts(o.collections@)),
        texts(o.collections@).to_set() == collections_of(cat.images@),
{
    lemma_select_all(cat, cat.images@);
}

/// Without clauses, the options list one gallery for each distinct (collection,
/// gallery) pair of the images.
pub proof fn law_unfiltered_galleries(cat: &Catalog, o: FilterOptions)
    requires
        cat.describes(o, cat.matching(Seq::empty())),
    ensures
        o.galleries@.map_values(|g: GallerySummary| g.key()).to_set() == galleries_of(cat.images@),
        o.galleries@.len() == galleries_of(cat.images@).len(),
{
    lemma_select_all(cat, cat.images@);
    lemma_strict_len(o.galleries@.map_values(|g: GallerySummary| g.key()));
}

/// After the tags of an image are replaced, its detail lists exactly the distinct
/// tags that were given.
pub proof fn law_replace_then_detail(
    before: Catalog,
    after: Catalog,
    u: Seq<char>,
    ts: Seq<Seq<char>>,
    d: ImageDetail,
    img: ImageRow,
)
    requires
        Catalog::tags_replaced(before, after, u, ts),
        after.detail_of(d, img),
        img.uuid@ == u,
    ensures
        d.tags@.map_values(|t: TagRef| t.uuid@).to_set() == ts.to_set(),
{
    let ids = d.tags@.map_values(|t: TagRef| t.uuid@);
    let ks = d.tags@.map_values(|t: TagRef| t.key());
    assert forall|x: Seq<char>| ids.to_set().contains(x) <==> ts.to_set().contains(x) by {
        if ids.contains(x) {
            let j = choose|j: int| 0 <= j < ids.len() && ids[j] == x;
            assert(ks.to_set().contains(ks[j]));
            assert(after.tags_used(seq![img]).contains(ks[j]));
            let t = choose|t: int|
                0 <= t < after.tags@.len() && crate::facets::tag_key(after.tag_groups@, #[trigger] after.tags@[t]) == ks[j]
                    && crate::facets::used_by(after.image_tags@, seq![img], after.tags@[t].uuid@);
            let i = choose|i: int|
                0 <= i < 1 && crate::catalog::linked(after.image_tags@, (#[trigger] seq![img][i]).uuid@, after.tags@[t].uuid@);
            assert(seq![img][i] == img);
            assert(crate::catalog::linked(after.image_tags@, u, x));
        }
        if ts.contains(x) {
            let i = choose|i: int| 0 <= i < ts.len() && ts[i] == x;
            assert(before.has_tag(ts[i]));
            let t = choose|t: int| 0 <= t < before.tags@.len() && (#[trigger] before.tags@[t]).uuid@ == x;
            assert(after.tags@[t] == before.tags@[t]);
            assert(crate::catalog::linked(after.image_tags@, u, x));
            assert(seq![img][0] == img);
            assert(crate::facets::used_by(after.image_tags@, seq![img], x));
            let v: KeyView = crate::facets::tag_key(after.tag_groups@, after.tags@[t]);
            assert(after.tags_used(seq![img]).contains(v));
            assert(ks.to_set().contains(v));
            let j = choose|j: int| 0 <= j < ks.len() && ks[j] == v;
            assert(ids[j] == x);
        }
    }
    assert(ids.to_set() =~= ts.to_set());
}

/// After the tags of an image are replaced by none, the image has no tag left.
pub proof fn law_cleared_tags(before: Catalog, after: Catalog, u: Seq<char>)
    requires
        Catalog::tags_replaced(before, after, u, Seq::empty()),
    ensures
        links_of(after.image_tags@, u) == Set::<Seq<char>>::empty(),
{
    assert(links_of(after.image_tags@, u) =~= Set::<Seq<char>>::empty());
}

/// Two clauses of the same shape: the same field, the same operator and as many values.
pub open spec fn same_shape(a: FilterClause, b: FilterClause) -> bool {
    &&& a.field == b.field
    &&& a.op == b.op
    &&& a.value.values().len() == b.value.values().len()
}

proof fn lemma_conds_ignore_values(a: Seq<FilterClause>, b: Seq<FilterClause>)
    requires
        a.len() == b.len(),
        forall|i: int| 0 <= i < a.len() ==> same_shape(#[trigger] a[i], b[i]),
    ensures
        all_conds(a) == all_conds(b),
    decreases a.len(),
{
    if a.len() > 0 {
        lemma_conds_ignore_values(a.drop_last(), b.drop_last());
        assert(same_shape(a[a.len() - 1], b[b.len() - 1]));
    }
}

/// The text of a compiled query depends only on the shapes of its clauses, never on
/// the values they carry: those reach the query as bound parameters alone.
pub proof fn law_query_text_ignores_values(a: Seq<FilterClause>, b: Seq<FilterClause>)
    requires
        a.len() == b.len(),
        forall|i: int| 0 <= i < a.len() ==> same_shape(#[trigger] a[i], b[i]),
    ensures
        query_text(a) == query_text(b),
{
    lemma_conds_ignore_values(a, b);
}

/// After the tags of an image are replaced, its detail lists each distinct given tag
/// exactly once.
pub proof fn law_replace_then_detail_count(
    before: Catalog,
    after: Catalog,
    u: Seq<char>,
    ts: Seq<Seq<char>>,
    d: ImageDetail,
    img: ImageRow,
)
    requires
        Catalog::tags_replaced(before, after, u, ts),
        after.wf(),
        after.detail_of(d, img),
        img.uuid@ == u,
    ensures
        d.tags@.len() == ts.to_set().len(),
{
    law_replace_then_detail(before, after, u, ts, d, img);
    let ids = d.tags@.map_values(|t: TagRef| t.uuid@);
    let ks = d.tags@.map_values(|t: TagRef| t.key());
    let tids = after.tags@.map_values(|t: TagRow| t.uuid@);
    assert forall|a: int, b: int| 0 <= a < ids.len() && 0 <= b < ids.len() && a != b implies ids[a]
        != ids[b] by {
        if ids[a] == ids[b] {
            assert(ks.to_set().contains(ks[a]));
            assert(ks.to_set().contains(ks[b]));
            let ta = choose|t: int|
                0 <= t < after.tags@.len() && tag_key(after.tag_groups@, #[trigger] after.tags@[t]) == ks[a]
                    && used_by(after.image_tags@, seq![img], after.tags@[t].uuid@);
            let tb = choose|t: int|
                0 <= t < after.tags@.len() && tag_key(after.tag_groups@, #[trigger] after.tags@[t]) == ks[b]
                    && used_by(after.image_tags@, seq![img], after.tags@[t].uuid@);
            assert(tids[ta] == tids[tb]);
            assert(ta == tb);
            if a < b {
                assert(key_lt(ks[a], ks[b]));
            } else {
                assert(key_lt(ks[b], ks[a]));
            }
            lemma_key_cmp_equal(ks[a], ks[b]);
        }
    }
    ids.unique_seq_to_set();
}

/// The same filters on an unchanged catalog give the same rows in the same order: the
/// stable sort of the matching images is unique.
pub proof fn law_search_repeatable(
    cat: &Catalog,
    filters: Seq<FilterClause>,
    rows1: Seq<ImageRow>,
    rows2: Seq<ImageRow>,
)
    requires
        stable_sort_of(rows1, cat.matching(filters)),
        stable_sort_of(rows2, cat.matching(filters)),
    ensures
        rows1 == rows2,
{
    let src = cat.matching(filters);
    let p1 = choose|p: Seq<int>| sorts_stably(rows1, src, p);
    let p2 = choose|p: Seq<int>| sorts_stably(rows2, src, p);
    lemma_stable_prefix(rows1, rows2, src, p1, p2, p1.len() as int);
    assert forall|j: int| 0 <= j < rows1.len() implies rows1[j] == rows2[j] by {
        assert(p1[j] == p2[j]);
    }
    assert(rows1 =~= rows2);
}

} // verus!
