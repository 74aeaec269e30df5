//! Listings of collections, galleries, models and tag groups.
use vstd::prelude::*;

use crate::catalog::Catalog;
use crate::facets::{collections_of, distinct_collections, distinct_galleries, galleries_of};
use crate::models::{CollectionSummary, GallerySummary, ImageRow, Model, Tag, TagGroup};
use crate::order::{
    keys_of, lemma_full_keys, lemma_strict_len, sorted, sorted_positions, strictly_sorted,
    text_eq, texts_strictly_sorted, KeyView, SortKey,
};
use crate::sql::texts;
use crate::catalog::{GroupRow, TagRow};

verus! {

/// The images of one collection, in their order.
pub open spec fn in_collection(rows: Seq<ImageRow>, c: Seq<char>) -> Seq<ImageRow> {
    rows.filter(|r: ImageRow| r.collection@ == c)
}

/// The images of one gallery of one collection, in their order.
pub open spec fn in_gallery(rows: Seq<ImageRow>, c: Seq<char>, g: Seq<char>) -> Seq<ImageRow> {
    rows.filter(|r: ImageRow| r.collection@ == c && r.gallery@ == g)
}

/// The models of one collection, or all of them.
pub open spec fn models_in(ms: Seq<Model>, c: Option<Seq<char>>) -> Seq<Model> {
    match c {
        Some(c) => ms.filter(|m: Model| m.collection@ == c),
        None => ms,
    }
}

/// The key of a listed tag group: its name (then uuid, to part namesakes).
pub open spec fn group_key(g: TagGroup) -> KeyView {
    (g.name@, g.uuid@, Seq::empty())
}

/// The key of a stored tag group.
pub open spec fn group_row_key(g: GroupRow) -> KeyView {
    (g.name@, g.uuid@, Seq::empty())
}

/// The key of a tag listed within its group: its name (then uuid).
pub open spec fn tag_entry_key(t: Tag) -> KeyView {
    (t.name@, t.uuid@, Seq::empty())
}

/// The keys of the stored tags of group `g`.
pub open spec fn member_keys(tags: Seq<TagRow>, g: Seq<char>) -> Set<KeyView> {
    Set::new(
        |v: KeyView|
            exists|k: int|
                0 <= k < tags.len() && (#[trigger] tags[k]).group_uuid@ == g && v == (
                    tags[k].name@,
                    tags[k].uuid@,
                    Seq::<char>::empty(),
                ),
    )
}

/// The stored tags of group `g`, in their order.
pub open spec fn members_of(tags: Seq<TagRow>, g: Seq<char>) -> Seq<TagRow> {
    tags.filter(|t: TagRow| t.group_uuid@ == g)
}

/// The images of `rows` in collection `c`.
fn images_in_collection(rows: &Vec<ImageRow>, c: &str) -> (r: Vec<ImageRow>)
    ensures
        r@ == in_collection(rows@, c@),
{
    let mut r: Vec<ImageRow> = Vec::new();
    let mut i: usize = 0;
    while i < rows.len()
        invariant
            i <= rows@.len(),
            r@ == in_collection(rows@.subrange(0, i as int), c@),
        decreases rows@.len() - i,
    {
        proof {
            reveal(Seq::filter);
            assert(rows@.subrange(0, i + 1).drop_last() =~= rows@.subrange(0, i as int));
        }
        if text_eq(rows[i].collection.as_str(), c) {
            r.push(rows[i].copy());
        }
        i = i + 1;
    }
    proof {
        assert(rows@.subrange(0, rows@.len() as int) =~= rows@);
    }
    r
}

/// The number of images of `rows` in gallery `g` of collection `c`.
fn count_in_gallery(rows: &Vec<ImageRow>, c: &str, g: &str) -> (n: usize)
    ensures
        n == in_gallery(rows@, c@, g@).len(),
{
    let mut n: usize = 0;
    let mut i: usize = 0;
    while i < rows.len()
        invariant
            i <= rows@.len(),
            n == in_gallery(rows@.subrange(0, i as int), c@, g@).len(),
            n <= i,
        decreases rows@.len() - i,
    {
        proof {
            reveal(Seq::filter);
            assert(rows@.subrange(0, i + 1).drop_last() =~= rows@.subrange(0, i as int));
        }
        if text_eq(rows[i].collection.as_str(), c) && text_eq(rows[i].gallery.as_str(), g) {
            n = n + 1;
        }
        i = i + 1;
    }
    proof {
        assert(rows@.subrange(0, rows@.len() as int) =~= rows@);
    }
    n
}

impl Catalog {
    /// Every collection with the number of its images and of its galleries, ordered by
    /// name.
    pub fn query_collections(&self) -> (r: Vec<CollectionSummary>)
        requires
            self.wf(),
        ensures
            texts_strictly_sorted(r@.map_values(|s: CollectionSummary| s.name@)),
            r@.map_values(|s: CollectionSummary| s.name@).to_set() == collections_of(self.images@),
            forall|j: int|
                0 <= j < r@.len() ==> (#[trigger] r@[j]).image_count == in_collection(
                    self.images@,
                    r@[j].name@,
                ).len() && r@[j].gallery_count == galleries_of(
                    in_collection(self.images@, r@[j].name@),
                ).len(),
    {
        let names = distinct_collections(&self.images);
        let mut out: Vec<CollectionSummary> = Vec::new();
        let mut j: usize = 0;
        while j < names.len()
            invariant
                j <= names@.len(),
                self.wf(),
                out@.len() == j,
                forall|m: int| 0 <= m < j ==> (#[trigger] out@[m]).name@ == names@[m]@,
                forall|m: int|
                    0 <= m < j ==> (#[trigger] out@[m]).image_count == in_collection(
                        self.images@,
                        out@[m].name@,
                    ).len() && out@[m].gallery_count == galleries_of(
                        in_collection(self.images@, out@[m].name@),
                    ).len(),
            decreases names@.len() - j,
        {
            let rows = images_in_collection(&self.images, names[j].as_str());
            let galleries = distinct_galleries(&rows);
            proof {
                self.images@.lemma_filter_len(|r: ImageRow| r.collection@ == names@[j as int]@);
                lemma_strict_len(galleries@.map_values(|g: GallerySummary| g.key()));
            }
            out.push(
                CollectionSummary {
                    name: names[j].clone(),
                    image_count: rows.len() as u32,
                    gallery_count: galleries.len() as u32,
                },
            );
            j = j + 1;
        }
        proof {
            assert(out@.map_values(|s: CollectionSummary| s.name@) =~= texts(names@));
        }
        out
    }

    /// The galleries of one collection, or of all, each with the number of its images,
    /// ordered by collection and name.
    pub fn query_galleries(&self, collection: Option<&str>) -> (r: Vec<GallerySummary>)
        requires
            self.wf(),
        ensures
            strictly_sorted(r@.map_values(|g: GallerySummary| g.key())),
            r@.map_values(|g: GallerySummary| g.key()).to_set() == galleries_of(
                match collection {
                    Some(c) => in_collection(self.images@, c@),
                    None => self.images@,
                },
            ),
            forall|j: int|
                0 <= j < r@.len() ==> (#[trigger] r@[j]).image_count == in_gallery(
                    self.images@,
                    r@[j].collection@,
                    r@[j].name@,
                ).len(),
    {
        let filtered = match collection {
            Some(c) => images_in_collection(&self.images, c),
            None => Vec::new(),
        };
        let rows = if collection.is_some() {
            &filtered
        } else {
            &self.images
        };
        let gs = distinct_galleries(rows);
        let mut out: Vec<GallerySummary> = Vec::new();
        let mut j: usize = 0;
        while j < gs.len()
            invariant
                j <= gs@.len(),
                self.wf(),
                out@.len() == j,
                forall|m: int| 0 <= m < j ==> (#[trigger] out@[m]).key() == gs@[m].key(),
                forall|m: int|
                    0 <= m < j ==> (#[trigger] out@[m]).image_count == in_gallery(
                        self.images@,
                        out@[m].collection@,
                        out@[m].name@,
                    ).len(),
            decreases gs@.len() - j,
        {
            let g = &gs[j];
            let n = count_in_gallery(&self.images, g.collection.as_str(), g.name.as_str());
            proof {
                self.images@.lemma_filter_len(
                    |r: ImageRow| r.collection@ == g.collection@ && r.gallery@ == g.name@,
                );
            }
            out.push(
                GallerySummary { name: g.name.clone(), collection: g.collection.clone(), image_count: n as u32 },
            );
            j = j + 1;
        }
        proof {
            assert(out@.map_values(|g: GallerySummary| g.key()) =~= gs@.map_values(
                |g: GallerySummary| g.key(),
            ));
        }
        out
    }

    /// The models of one collection, or of all, ordered by collection and name.
    pub fn query_models(&self, collection: Option<&str>) -> (r: Vec<Model>)
        ensures
            sorted(r@.map_values(|m: Model| m.key())),
            r@.len() == models_in(self.models@, opt_view(collection)).len(),
            r@.map_values(|m: Model| m.key()).to_set() == models_in(
                self.models@,
                opt_view(collection),
            ).map_values(|m: Model| m.key()).to_set(),
    {
        let ghost want = models_in(self.models@, opt_view(collection));
        let mut cand: Vec<Model> = Vec::new();
        let mut i: usize = 0;
        while i < self.models.len()
            invariant
                i <= self.models@.len(),
                cand@ == models_in(self.models@.subrange(0, i as int), opt_view(collection)),
            decreases self.models@.len() - i,
        {
            proof {
                reveal(Seq::filter);
                assert(self.models@.subrange(0, i + 1).drop_last() =~= self.models@.subrange(0, i as int));
            }
            let m = &self.models[i];
            let keep = match collection {
                Some(c) => text_eq(m.collection.as_str(), c),
                None => true,
            };
            if keep {
                cand.push(m.copy());
            }
            proof {
                if collection is None {
                    assert(cand@ =~= self.models@.subrange(0, i + 1));
                }
            }
            i = i + 1;
        }
        proof {
            assert(self.models@.subrange(0, self.models@.len() as int) =~= self.models@);
            assert(cand@ == want);
        }
        let mut keys: Vec<SortKey> = Vec::new();
        let mut k: usize = 0;
        while k < cand.len()
            invariant
                k <= cand@.len(),
                keys@.len() == k,
                forall|x: int| 0 <= x < k ==> (#[trigger] keys@[x]).key() == cand@[x].key(),
            decreases cand@.len() - k,
        {
            let m = &cand[k];
            keys.push(SortKey { a: m.collection.clone(), b: m.name.clone(), c: m.uuid.clone() });
            k = k + 1;
        }
        let ghost ks = keys_of(keys@);
        proof {
            assert(ks =~= cand@.map_values(|m: Model| m.key()));
        }
        let order = sorted_positions(&keys, false);
        let mut out: Vec<Model> = Vec::new();
        let mut j: usize = 0;
        while j < order.len()
            invariant
                j <= order@.len(),
                ks == keys_of(keys@),
                ks == cand@.map_values(|m: Model| m.key()),
                keys@.len() == cand@.len(),
                crate::order::in_range(ks, order@),
                out@.len() == j,
                forall|x: int| 0 <= x < j ==> (#[trigger] out@[x]).key() == ks[order@[x] as int],
            decreases order@.len() - j,
        {
            out.push(cand[order[j]].copy());
            j = j + 1;
        }
        proof {
            let outk = out@.map_values(|m: Model| m.key());
            assert forall|x: int| 0 <= x < outk.len() implies #[trigger] outk[x] == ks[order@[x] as int] by {}
            lemma_full_keys(ks, order@, outk);
        }
        out
    }

    /// Every tag group with its tags, groups ordered by name and tags by name; a group
    /// without tags is listed with none.
    pub fn query_tag_groups(&self) -> (r: Vec<TagGroup>)
        ensures
            sorted(r@.map_values(|g: TagGroup| group_key(g))),
            r@.len() == self.tag_groups@.len(),
            r@.map_values(|g: TagGroup| group_key(g)).to_set() == self.tag_groups@.map_values(
                |g: GroupRow| group_row_key(g),
            ).to_set(),
            forall|j: int|
                0 <= j < r@.len() ==> sorted((#[trigger] r@[j]).tags@.map_values(|t: Tag| tag_entry_key(t)))
                    && r@[j].tags@.map_values(|t: Tag| tag_entry_key(t)).to_set() == member_keys(
                    self.tags@,
                    r@[j].uuid@,
                ) && r@[j].tags@.len() == members_of(self.tags@, r@[j].uuid@).len(),
    {
        let mut keys: Vec<SortKey> = Vec::new();
        let mut k: usize = 0;
        while k < self.tag_groups.len()
            invariant
                k <= self.tag_groups@.len(),
                keys@.len() == k,
                forall|x: int| 0 <= x < k ==> (#[trigger] keys@[x]).key() == group_row_key(self.tag_groups@[x]),
            decreases self.tag_groups@.len() - k,
        {
            let g = &self.tag_groups[k];
            keys.push(SortKey { a: g.name.clone(), b: g.uuid.clone(), c: String::new() });
            k = k + 1;
        }
        let ghost ks = keys_of(keys@);
        proof {
            assert(ks =~= self.tag_groups@.map_values(|g: GroupRow| group_row_key(g)));
        }
        let order = sorted_positions(&keys, false);
        let mut out: Vec<TagGroup> = Vec::new();
        let mut j: usize = 0;
        while j < order.len()
            invariant
                j <= order@.len(),
                ks == keys_of(keys@),
                ks == self.tag_groups@.map_values(|g: GroupRow| group_row_key(g)),
                keys@.len() == self.tag_groups@.len(),
                crate::order::in_range(ks, order@),
                out@.len() == j,
                forall|x: int| 0 <= x < j ==> #[trigger] group_key(out@[x]) == ks[order@[x] as int],
                forall|x: int|
                    0 <= x < j ==> sorted((#[trigger] out@[x]).tags@.map_values(|t: Tag| tag_entry_key(t)))
                        && out@[x].tags@.map_values(|t: Tag| tag_entry_key(t)).to_set() == member_keys(
                        self.tags@,
                        out@[x].uuid@,
                    ) && out@[x].tags@.len() == members_of(self.tags@, out@[x].uuid@).len(),
            decreases order@.len() - j,
        {
            let g = &self.tag_groups[order[j]];
            let tags = self.group_members(g.uuid.as_str());
            out.push(TagGroup { uuid: g.uuid.clone(), name: g.name.clone(), tags });
            j = j + 1;
        }
        proof {
            let outk = out@.map_values(|g: TagGroup| group_key(g));
            assert forall|x: int| 0 <= x < outk.len() implies #[trigger] outk[x] == ks[order@[x] as int] by {}
            lemma_full_keys(ks, order@, outk);
        }
        out
    }

    /// The tags of one group, ordered by name.
    fn group_members(&self, group: &str) -> (r: Vec<Tag>)
        ensures
            sorted(r@.map_values(|t: Tag| tag_entry_key(t))),
            r@.map_values(|t: Tag| tag_entry_key(t)).to_set() == member_keys(self.tags@, group@),
            r@.len() == members_of(self.tags@, group@).len(),
    {
        let mut keys: Vec<SortKey> = Vec::new();
        let mut members: Vec<usize> = Vec::new();
        let mut k: usize = 0;
        while k < self.tags.len()
            invariant
                k <= self.tags@.len(),
                keys@.len() == members@.len(),
                forall|x: int| 0 <= x < members@.len() ==> (#[trigger] members@[x]) < self.tags@.len()
                    && self.tags@[members@[x] as int].group_uuid@ == group@
                    && keys@[x].key() == (self.tags@[members@[x] as int].name@, self.tags@[members@[x] as int].uuid@, Seq::<char>::empty()),
                forall|t: int| 0 <= t < k && (#[trigger] self.tags@[t]).group_uuid@ == group@ ==> exists|x: int|
                    0 <= x < members@.len() && members@[x] == t,
                members@.len() == members_of(self.tags@.subrange(0, k as int), group@).len(),
            decreases self.tags@.len() - k,
        {
            proof {
                reveal(Seq::filter);
                assert(self.tags@.subrange(0, k + 1).drop_last() =~= self.tags@.subrange(0, k as int));
            }
            let t = &self.tags[k];
            let ghost before = members@;
            if text_eq(t.group_uuid.as_str(), group) {
                keys.push(SortKey { a: t.name.clone(), b: t.uuid.clone(), c: String::new() });
                members.push(k);
            }
            proof {
                assert forall|u: int| 0 <= u < k + 1 && (#[trigger] self.tags@[u]).group_uuid@ == group@ implies exists|x: int|
                    0 <= x < members@.len() && members@[x] == u by {
                    if u == k {
                        assert(members@[members@.len() - 1] == k);
                    } else {
                        let x = choose|x: int| 0 <= x < before.len() && before[x] == u;
                        assert(members@[x] == before[x]);
                    }
                }
            }
            k = k + 1;
        }
        let ghost ks = keys_of(keys@);
        proof {
            assert(self.tags@.subrange(0, self.tags@.len() as int) =~= self.tags@);
            assert forall|v: KeyView| ks.to_set().contains(v) <==> member_keys(self.tags@, group@).contains(v) by {
                if ks.contains(v) {
                    let x = choose|x: int| 0 <= x < ks.len() && ks[x] == v;
                    assert(keys@[x].key() == v);
                    let t = members@[x] as int;
                    assert(self.tags@[t].group_uuid@ == group@);
                }
                if member_keys(self.tags@, group@).contains(v) {
                    let t = choose|t: int|
                        0 <= t < self.tags@.len() && (#[trigger] self.tags@[t]).group_uuid@ == group@ && v == (
                            self.tags@[t].name@,
                            self.tags@[t].uuid@,
                            Seq::<char>::empty(),
                        );
                    let x = choose|x: int| 0 <= x < members@.len() && members@[x] == t;
                    assert(ks[x] == v);
                }
            }
            assert(ks.to_set() =~= member_keys(self.tags@, group@));
        }
        let order = sorted_positions(&keys, false);
        let mut out: Vec<Tag> = Vec::new();
        let mut j: usize = 0;
        while j < order.len()
            invariant
                j <= order@.len(),
                ks == keys_of(keys@),
                keys@.len() == members@.len(),
                forall|x: int| 0 <= x < members@.len() ==> (#[trigger] members@[x]) < self.tags@.len()
                    && keys@[x].key() == (self.tags@[members@[x] as int].name@, self.tags@[members@[x] as int].uuid@, Seq::<char>::empty()),
                crate::order::in_range(ks, order@),
                out@.len() == j,
                forall|x: int| 0 <= x < j ==> #[trigger] tag_entry_key(out@[x]) == ks[order@[x] as int],
            decreases order@.len() - j,
        {
            let t = &self.tags[members[order[j]]];
            proof {
                assert(keys@[order@[j as int] as int].key() == ks[order@[j as int] as int]);
            }
            out.push(Tag { uuid: t.uuid.clone(), name: t.name.clone() });
            j = j + 1;
        }
        proof {
            let outk = out@.map_values(|t: Tag| tag_entry_key(t));
            assert forall|x: int| 0 <= x < outk.len() implies #[trigger] outk[x] == ks[order@[x] as int] by {}
            lemma_full_keys(ks, order@, outk);
        }
        out
    }
}

/// The view of an optional text.
pub open spec fn opt_view(c: Option<&str>) -> Option<Seq<char>> {
    match c {
        Some(s) => Some(s@),
        None => None,
    }
}

} // verus!
