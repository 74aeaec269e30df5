//! Distinct collections, galleries, models and tags of a set of images.
use vstd::prelude::*;

use crate::catalog::{check_filters, linked, Catalog, Link, TagRow, GroupRow};
use crate::error::AppError;
use crate::filter::{clauses_ok, FilterClause};
use crate::models::{FilterOptions, GallerySummary, ImageRow, Model, TagRef};
use crate::order::{
    keys_of, lemma_distinct_listing, lemma_text_key_lt, sorted_positions, strictly_sorted,
    text_eq, text_key, texts_strictly_sorted, KeyView, SortKey,
};
use crate::sql::texts;

verus! {

/// The distinct collections of some images.
pub open spec fn collections_of(rows: Seq<ImageRow>) -> Set<Seq<char>> {
    Set::new(|c: Seq<char>| exists|i: int| 0 <= i < rows.len() && (#[trigger] rows[i]).collection@ == c)
}

/// The gallery key of an image: its collection and gallery.
pub open spec fn gallery_key_of(r: ImageRow) -> KeyView {
    (r.collection@, r.gallery@, Seq::empty())
}

/// The distinct (collection, gallery) pairs of some images, as gallery keys.
pub open spec fn galleries_of(rows: Seq<ImageRow>) -> Set<KeyView> {
    Set::new(|v: KeyView| exists|i: int| 0 <= i < rows.len() && gallery_key_of(#[trigger] rows[i]) == v)
}

/// Whether one of some images is linked with `other`.
pub open spec fn used_by(links: Seq<Link>, rows: Seq<ImageRow>, other: Seq<char>) -> bool {
    exists|i: int| 0 <= i < rows.len() && linked(links, (#[trigger] rows[i]).uuid@, other)
}

/// The name of the first group with uuid `g`, or the empty text where there is none.
pub open spec fn group_name(groups: Seq<GroupRow>, g: Seq<char>) -> Seq<char>
    decreases groups.len(),
{
    if groups.len() == 0 {
        Seq::empty()
    } else if groups[0].uuid@ == g {
        groups[0].name@
    } else {
        group_name(groups.drop_first(), g)
    }
}

/// The listed key of a stored tag: its group's name, its name and its uuid.
pub open spec fn tag_key(groups: Seq<GroupRow>, t: TagRow) -> KeyView {
    (group_name(groups, t.group_uuid@), t.name@, t.uuid@)
}

impl Catalog {
    /// The keys of the models linked with some of `rows`.
    pub open spec fn models_used(&self, rows: Seq<ImageRow>) -> Set<KeyView> {
        Set::new(
            |v: KeyView|
                exists|m: int|
                    0 <= m < self.models@.len() && (#[trigger] self.models@[m]).key() == v && used_by(
                        self.image_models@,
                        rows,
                        self.models@[m].uuid@,
                    ),
        )
    }

    /// The keys of the tags linked with some of `rows`.
    pub open spec fn tags_used(&self, rows: Seq<ImageRow>) -> Set<KeyView> {
        Set::new(
            |v: KeyView|
                exists|t: int|
                    0 <= t < self.tags@.len() && tag_key(self.tag_groups@, #[trigger] self.tags@[t]) == v
                        && used_by(self.image_tags@, rows, self.tags@[t].uuid@),
        )
    }
}

/// The name of the first group with uuid `g`.
fn find_group_name(groups: &Vec<GroupRow>, g: &str) -> (r: String)
    ensures
        r@ == group_name(groups@, g@),
{
    let mut i: usize = 0;
    proof {
        assert(groups@.subrange(0, groups@.len() as int) =~= groups@);
    }
    while i < groups.len()
        invariant
            i <= groups@.len(),
            group_name(groups@.subrange(i as int, groups@.len() as int), g@) == group_name(groups@, g@),
        decreases groups@.len() - i,
    {
        let ghost rest = groups@.subrange(i as int, groups@.len() as int);
        proof {
            assert(rest.drop_first() =~= groups@.subrange(i + 1, groups@.len() as int));
            assert(rest[0] == groups@[i as int]);
        }
        if text_eq(groups[i].uuid.as_str(), g) {
            return groups[i].name.clone();
        }
        i = i + 1;
    }
    String::new()
}

/// Whether one of `rows` is linked with `other`.
fn is_used(links: &Vec<Link>, rows: &Vec<ImageRow>, other: &str) -> (r: bool)
    ensures
        r == used_by(links@, rows@, other@),
{
    let mut i: usize = 0;
    while i < rows.len()
        invariant
            i <= rows@.len(),
            forall|j: int| 0 <= j < i ==> !linked(links@, (#[trigger] rows@[j]).uuid@, other@),
        decreases rows@.len() - i,
    {
        if crate::catalog::is_linked(links, rows[i].uuid.as_str(), other) {
            return true;
        }
        i = i + 1;
    }
    false
}

/// The distinct collections of some images, in ascending order.
pub fn distinct_collections(rows: &Vec<ImageRow>) -> (r: Vec<String>)
    ensures
        texts_strictly_sorted(texts(r@)),
        texts(r@).to_set() == collections_of(rows@),
{
    let mut keys: Vec<SortKey> = Vec::new();
    let mut i: usize = 0;
    while i < rows.len()
        invariant
            i <= rows@.len(),
            keys@.len() == i,
            forall|k: int| 0 <= k < i ==> (#[trigger] keys@[k]).key() == text_key(rows@[k].collection@),
        decreases rows@.len() - i,
    {
        keys.push(SortKey { a: rows[i].collection.clone(), b: String::new(), c: String::new() });
        i = i + 1;
    }
    let ghost ks = keys_of(keys@);
    let order = sorted_positions(&keys, true);
    let mut out: Vec<String> = Vec::new();
    let mut j: usize = 0;
    while j < order.len()
        invariant
            j <= order@.len(),
            ks == keys_of(keys@),
            keys@.len() == rows@.len(),
            crate::order::in_range(ks, order@),
            out@.len() == j,
            forall|m: int| 0 <= m < j ==> (#[trigger] out@[m])@ == rows@[order@[m] as int].collection@,
        decreases order@.len() - j,
    {
        out.push(rows[order[j]].collection.clone());
        j = j + 1;
    }
    proof {
        let outk = texts(out@).map_values(|t: Seq<char>| text_key(t));
        assert forall|m: int| 0 <= m < outk.len() implies #[trigger] outk[m] == ks[order@[m] as int] by {
            assert(keys@[order@[m] as int].key() == text_key(rows@[order@[m] as int].collection@));
        }
        lemma_distinct_listing(ks, order@, outk);
        assert forall|a: int, b: int| 0 <= a < b < texts(out@).len() implies crate::order::text_cmp(
            #[trigger] texts(out@)[a],
            #[trigger] texts(out@)[b],
        ) == core::cmp::Ordering::Less by {
            assert(crate::order::key_lt(outk[a], outk[b]));
            lemma_text_key_lt(out@[a]@, out@[b]@);
        }
        assert forall|c: Seq<char>| texts(out@).to_set().contains(c) <==> collections_of(rows@).contains(c) by {
            if texts(out@).contains(c) {
                let m = choose|m: int| 0 <= m < texts(out@).len() && texts(out@)[m] == c;
                assert(outk[m] == text_key(c));
                assert(outk.to_set().contains(text_key(c)));
                let k = choose|k: int| 0 <= k < ks.len() && ks[k] == text_key(c);
                assert(keys@[k].key() == text_key(rows@[k].collection@));
                assert(rows@[k].collection@ == c);
            }
            if collections_of(rows@).contains(c) {
                let k = choose|k: int| 0 <= k < rows@.len() && (#[trigger] rows@[k]).collection@ == c;
                assert(keys@[k].key() == text_key(rows@[k].collection@));
                assert(ks[k] == text_key(c));
                assert(ks.to_set().contains(text_key(c)));
                let m = choose|m: int| 0 <= m < outk.len() && outk[m] == text_key(c);
                assert(texts(out@)[m] == c);
            }
        }
        assert(texts(out@).to_set() =~= collections_of(rows@));
    }
    out
}

/// The distinct galleries of some images, ordered by collection and name; their image
/// counts are left at zero.
pub fn distinct_galleries(rows: &Vec<ImageRow>) -> (r: Vec<GallerySummary>)
    ensures
        strictly_sorted(r@.map_values(|g: GallerySummary| g.key())),
        r@.map_values(|g: GallerySummary| g.key()).to_set() == galleries_of(rows@),
        forall|j: int| 0 <= j < r@.len() ==> (#[trigger] r@[j]).image_count == 0,
        r@.len() <= rows@.len(),
{
    let mut keys: Vec<SortKey> = Vec::new();
    let mut i: usize = 0;
    while i < rows.len()
        invariant
            i <= rows@.len(),
            keys@.len() == i,
            forall|k: int| 0 <= k < i ==> (#[trigger] keys@[k]).key() == gallery_key_of(rows@[k]),
        decreases rows@.len() - i,
    {
        keys.push(SortKey { a: rows[i].collection.clone(), b: rows[i].gallery.clone(), c: String::new() });
        i = i + 1;
    }
    let ghost ks = keys_of(keys@);
    let order = sorted_positions(&keys, true);
    let mut out: Vec<GallerySummary> = Vec::new();
    let mut j: usize = 0;
    while j < order.len()
        invariant
            j <= order@.len(),
            ks == keys_of(keys@),
            keys@.len() == rows@.len(),
            crate::order::in_range(ks, order@),
            out@.len() == j,
            forall|m: int| 0 <= m < j ==> (#[trigger] out@[m]).key() == gallery_key_of(rows@[order@[m] as int]),
            forall|m: int| 0 <= m < j ==> (#[trigger] out@[m]).image_count == 0,
        decreases order@.len() - j,
    {
        let r = &rows[order[j]];
        out.push(GallerySummary { name: r.gallery.clone(), collection: r.collection.clone(), image_count: 0 });
        j = j + 1;
    }
    proof {
        let outk = out@.map_values(|g: GallerySummary| g.key());
        assert forall|m: int| 0 <= m < outk.len() implies #[trigger] outk[m] == ks[order@[m] as int] by {
            assert(keys@[order@[m] as int].key() == gallery_key_of(rows@[order@[m] as int]));
        }
        lemma_distinct_listing(ks, order@, outk);
        assert forall|v: KeyView| ks.to_set().contains(v) <==> galleries_of(rows@).contains(v) by {
            if ks.contains(v) {
                let k = choose|k: int| 0 <= k < ks.len() && ks[k] == v;
                assert(keys@[k].key() == gallery_key_of(rows@[k]));
            }
            if galleries_of(rows@).contains(v) {
                let k = choose|k: int| 0 <= k < rows@.len() && gallery_key_of(#[trigger] rows@[k]) == v;
                assert(keys@[k].key() == gallery_key_of(rows@[k]));
                assert(ks[k] == v);
            }
        }
        assert(ks.to_set() =~= galleries_of(rows@));
    }
    out
}

impl Catalog {
    /// The models linked with some of `rows`, ordered by collection, name and uuid.
    pub fn used_models(&self, rows: &Vec<ImageRow>) -> (r: Vec<Model>)
        ensures
            strictly_sorted(r@.map_values(|m: Model| m.key())),
            r@.map_values(|m: Model| m.key()).to_set() == self.models_used(rows@),
    {
        let ghost want = self.models_used(rows@);
        let mut cand: Vec<Model> = Vec::new();
        let mut keys: Vec<SortKey> = Vec::new();
        let mut m: usize = 0;
        while m < self.models.len()
            invariant
                m <= self.models@.len(),
                want == self.models_used(rows@),
                keys@.len() == cand@.len(),
                forall|c: int| 0 <= c < cand@.len() ==> (#[trigger] keys@[c]).key() == cand@[c].key(),
                forall|v: KeyView|
                    keys_of(keys@).contains(v) <==> exists|x: int|
                        0 <= x < m && (#[trigger] self.models@[x]).key() == v && used_by(
                            self.image_models@,
                            rows@,
                            self.models@[x].uuid@,
                        ),
            decreases self.models@.len() - m,
        {
            let ghost before = keys_of(keys@);
            let model = &self.models[m];
            if is_used(&self.image_models, rows, model.uuid.as_str()) {
                cand.push(model.copy());
                keys.push(SortKey { a: model.collection.clone(), b: model.name.clone(), c: model.uuid.clone() });
                proof {
                    assert(keys_of(keys@) =~= before.push(model.key()));
                }
            }
            proof {
                assert forall|v: KeyView|
                    keys_of(keys@).contains(v) <==> exists|x: int|
                        0 <= x < m + 1 && (#[trigger] self.models@[x]).key() == v && used_by(
                            self.image_models@,
                            rows@,
                            self.models@[x].uuid@,
                        ) by {
                    if keys_of(keys@).contains(v) && !before.contains(v) {
                        assert(keys_of(keys@).last() == v);
                    }
                    if keys_of(keys@).contains(v) && before.contains(v) {
                        let x = choose|x: int|
                            0 <= x < m && (#[trigger] self.models@[x]).key() == v && used_by(
                                self.image_models@,
                                rows@,
                                self.models@[x].uuid@,
                            );
                    }
                    if exists|x: int|
                        0 <= x < m + 1 && (#[trigger] self.models@[x]).key() == v && used_by(
                            self.image_models@,
                            rows@,
                            self.models@[x].uuid@,
                        ) {
                        let x = choose|x: int|
                            0 <= x < m + 1 && (#[trigger] self.models@[x]).key() == v && used_by(
                                self.image_models@,
                                rows@,
                                self.models@[x].uuid@,
                            );
                        if x == m {
                            assert(keys_of(keys@).last() == v);
                        } else {
                            assert(before.contains(v));
                            let c = choose|c: int| 0 <= c < before.len() && before[c] == v;
                            assert(keys_of(keys@)[c] == v);
                        }
                    }
                }
            }
            m = m + 1;
        }
        let ghost ks = keys_of(keys@);
        proof {
            assert(ks.to_set() =~= want);
        }
        let order = sorted_positions(&keys, true);
        let mut out: Vec<Model> = Vec::new();
        let mut j: usize = 0;
        while j < order.len()
            invariant
                j <= order@.len(),
                ks == keys_of(keys@),
                keys@.len() == cand@.len(),
                forall|c: int| 0 <= c < cand@.len() ==> (#[trigger] keys@[c]).key() == cand@[c].key(),
                crate::order::in_range(ks, order@),
                out@.len() == j,
                forall|x: int| 0 <= x < j ==> (#[trigger] out@[x]).key() == ks[order@[x] as int],
            decreases order@.len() - j,
        {
            proof {
                assert(keys@[order@[j as int] as int].key() == cand@[order@[j as int] as int].key());
            }
            out.push(cand[order[j]].copy());
            j = j + 1;
        }
        proof {
            let outk = out@.map_values(|m: Model| m.key());
            assert forall|x: int| 0 <= x < outk.len() implies #[trigger] outk[x] == ks[order@[x] as int] by {}
            lemma_distinct_listing(ks, order@, outk);
        }
        out
    }

    /// The tags linked with some of `rows`, each with its group's name, ordered by
    /// group, name and uuid.
    pub fn used_tags(&self, rows: &Vec<ImageRow>) -> (r: Vec<TagRef>)
        ensures
            strictly_sorted(r@.map_values(|t: TagRef| t.key())),
            r@.map_values(|t: TagRef| t.key()).to_set() == self.tags_used(rows@),
    {
        let ghost want = self.tags_used(rows@);
        let ghost groups = self.tag_groups@;
        let mut cand: Vec<TagRef> = Vec::new();
        let mut keys: Vec<SortKey> = Vec::new();
        let mut m: usize = 0;
        while m < self.tags.len()
            invariant
                m <= self.tags@.len(),
                want == self.tags_used(rows@),
                groups == self.tag_groups@,
                keys@.len() == cand@.len(),
                forall|c: int| 0 <= c < cand@.len() ==> (#[trigger] keys@[c]).key() == cand@[c].key(),
                forall|v: KeyView|
                    keys_of(keys@).contains(v) <==> exists|x: int|
                        0 <= x < m && tag_key(groups, #[trigger] self.tags@[x]) == v && used_by(
                            self.image_tags@,
                            rows@,
                            self.tags@[x].uuid@,
                        ),
            decreases self.tags@.len() - m,
        {
            let ghost before = keys_of(keys@);
            let tag = &self.tags[m];
            if is_used(&self.image_tags, rows, tag.uuid.as_str()) {
                let group = find_group_name(&self.tag_groups, tag.group_uuid.as_str());
                let key = SortKey { a: group.clone(), b: tag.name.clone(), c: tag.uuid.clone() };
                cand.push(TagRef { uuid: tag.uuid.clone(), name: tag.name.clone(), group });
                keys.push(key);
                proof {
                    assert(keys_of(keys@) =~= before.push(tag_key(groups, *tag)));
                }
            }
            proof {
                assert forall|v: KeyView|
                    keys_of(keys@).contains(v) <==> exists|x: int|
                        0 <= x < m + 1 && tag_key(groups, #[trigger] self.tags@[x]) == v && used_by(
                            self.image_tags@,
                            rows@,
                            self.tags@[x].uuid@,
                        ) by {
                    if keys_of(keys@).contains(v) && !before.contains(v) {
                        assert(keys_of(keys@).last() == v);
                    }
                    if keys_of(keys@).contains(v) && before.contains(v) {
                        let x = choose|x: int|
                            0 <= x < m && tag_key(groups, #[trigger] self.tags@[x]) == v && used_by(
                                self.image_tags@,
                                rows@,
                                self.tags@[x].uuid@,
                            );
                    }
                    if exists|x: int|
                        0 <= x < m + 1 && tag_key(groups, #[trigger] self.tags@[x]) == v && used_by(
                            self.image_tags@,
                            rows@,
                            self.tags@[x].uuid@,
                        ) {
                        let x = choose|x: int|
                            0 <= x < m + 1 && tag_key(groups, #[trigger] self.tags@[x]) == v && used_by(
                                self.image_tags@,
                                rows@,
                                self.tags@[x].uuid@,
                            );
                        if x == m {
                            assert(keys_of(keys@).last() == v);
                        } else {
                            assert(before.contains(v));
                            let c = choose|c: int| 0 <= c < before.len() && before[c] == v;
                            assert(keys_of(keys@)[c] == v);
                        }
                    }
                }
            }
            m = m + 1;
        }
        let ghost ks = keys_of(keys@);
        proof {
            assert(ks.to_set() =~= want);
        }
        let order = sorted_positions(&keys, true);
        let mut out: Vec<TagRef> = Vec::new();
        let mut j: usize = 0;
        while j < order.len()
            invariant
                j <= order@.len(),
                ks == keys_of(keys@),
                keys@.len() == cand@.len(),
                forall|c: int| 0 <= c < cand@.len() ==> (#[trigger] keys@[c]).key() == cand@[c].key(),
                crate::order::in_range(ks, order@),
                out@.len() == j,
                forall|x: int| 0 <= x < j ==> (#[trigger] out@[x]).key() == ks[order@[x] as int],
            decreases order@.len() - j,
        {
            proof {
                assert(keys@[order@[j as int] as int].key() == cand@[order@[j as int] as int].key());
            }
            let t = &cand[order[j]];
            out.push(TagRef { uuid: t.uuid.clone(), name: t.name.clone(), group: t.group.clone() });
            j = j + 1;
        }
        proof {
            let outk = out@.map_values(|t: TagRef| t.key());
            assert forall|x: int| 0 <= x < outk.len() implies #[trigger] outk[x] == ks[order@[x] as int] by {}
            lemma_distinct_listing(ks, order@, outk);
        }
        out
    }
}

impl Catalog {
    /// Filter options that describe the images `rows`: their number, and their
    /// distinct collections, galleries, models and tags, each list strictly ascending.
    pub open spec fn describes(&self, o: FilterOptions, rows: Seq<ImageRow>) -> bool {
        &&& o.image_count == rows.len()
        &&& texts_strictly_sorted(texts(o.collections@))
        &&& texts(o.collections@).to_set() == collections_of(rows)
        &&& strictly_sorted(o.galleries@.map_values(|g: GallerySummary| g.key()))
        &&& o.galleries@.map_values(|g: GallerySummary| g.key()).to_set() == galleries_of(rows)
        &&& forall|j: int| 0 <= j < o.galleries@.len() ==> (#[trigger] o.galleries@[j]).image_count == 0
        &&& strictly_sorted(o.models@.map_values(|m: Model| m.key()))
        &&& o.models@.map_values(|m: Model| m.key()).to_set() == self.models_used(rows)
        &&& strictly_sorted(o.tags@.map_values(|t: TagRef| t.key()))
        &&& o.tags@.map_values(|t: TagRef| t.key()).to_set() == self.tags_used(rows)
    }

    pub proof fn lemma_select_len(&self, imgs: Seq<ImageRow>, cs: Seq<FilterClause>)
        ensures
            self.select(imgs, cs).len() <= imgs.len(),
        decreases imgs.len(),
    {
        if imgs.len() > 0 {
            self.lemma_select_len(imgs.drop_last(), cs);
        }
    }

    /// The facets that remain available under a filter: the number of matching images
    /// and their distinct collections, galleries, models and tags. Fails, as
    /// `query_images` does, on a clause that is not accepted.
    pub fn query_filter_options(&self, filters: &[FilterClause]) -> (r: Result<FilterOptions, AppError>)
        requires
            self.wf(),
        ensures
            r is Ok <==> clauses_ok(filters@),
            r matches Err(e) ==> e is BadRequest,
            r matches Err(AppError::BadRequest(m)) ==> m@ == crate::filter::filters_error(filters@),
            r matches Ok(o) ==> self.describes(o, self.matching(filters@)),
    {
        check_filters(filters)?;
        let sel = self.select_images(filters);
        proof {
            self.lemma_select_len(self.images@, filters@);
        }
        let image_count = sel.len() as u32;
        let collections = distinct_collections(&sel);
        let galleries = distinct_galleries(&sel);
        let models = self.used_models(&sel);
        let tags = self.used_tags(&sel);
        Ok(FilterOptions { image_count, collections, galleries, models, tags })
    }
}

} // verus!
