//! The catalog held in memory, its invariant, and the meaning of each filter clause.
use vstd::prelude::*;

use crate::error::AppError;
use crate::filter::{
    check_clause, clause_ok, clauses_ok, filters_error, lemma_first_bad, FilterClause, FilterField,
    FilterOp,
};
use crate::models::{ImageRow, Model};
use crate::order::{keys_of, sorted_positions, text_eq, SortKey};
use crate::sql::str_texts;

verus! {

/// A tag as stored: its group is named by uuid.
pub struct TagRow {
    pub uuid: String,
    pub name: String,
    pub group_uuid: String,
}

/// A tag group as stored.
pub struct GroupRow {
    pub uuid: String,
    pub name: String,
}

/// An association between an image and a model or a tag.
pub struct Link {
    pub image_uuid: String,
    pub other_uuid: String,
}

/// The catalog: images, models, tags and their associations, held in memory.
pub struct Catalog {
    pub images: Vec<ImageRow>,
    pub models: Vec<Model>,
    pub tag_groups: Vec<GroupRow>,
    pub tags: Vec<TagRow>,
    pub image_models: Vec<Link>,
    pub image_tags: Vec<Link>,
}

/// Whether an association links `img` with `other`.
pub open spec fn linked(links: Seq<Link>, img: Seq<char>, other: Seq<char>) -> bool {
    exists|k: int|
        0 <= k < links.len() && (#[trigger] links[k]).image_uuid@ == img && links[k].other_uuid@
            == other
}

/// The uuids that the associations link with `img`.
pub open spec fn links_of(links: Seq<Link>, img: Seq<char>) -> Set<Seq<char>> {
    Set::new(|o: Seq<char>| linked(links, img, o))
}

/// Whether two tags belong to the same group.
pub open spec fn same_group(tags: Seq<TagRow>, t: Seq<char>, s: Seq<char>) -> bool {
    exists|a: int, b: int|
        0 <= a < tags.len() && 0 <= b < tags.len() && (#[trigger] tags[a]).uuid@ == t
            && (#[trigger] tags[b]).uuid@ == s && tags[a].group_uuid@ == tags[b].group_uuid@
}

/// What a set operator demands of the uuids `a` associated with an image, for the
/// values `s`.
pub open spec fn set_clause_holds(a: Set<Seq<char>>, s: Seq<Seq<char>>, op: FilterOp) -> bool {
    match op {
        FilterOp::AnyOf => exists|i: int| 0 <= i < s.len() && a.contains(#[trigger] s[i]),
        FilterOp::AllOf => forall|i: int| 0 <= i < s.len() ==> a.contains(#[trigger] s[i]),
        FilterOp::Exact => a == s.to_set(),
        FilterOp::NoneOf => forall|i: int| 0 <= i < s.len() ==> !a.contains(#[trigger] s[i]),
        FilterOp::Eq => false,
    }
}

/// `tags exact s`: the image carries every tag of `s`, and no other tag from the groups
/// that the tags of `s` belong to.
pub open spec fn tags_exact_holds(tags: Seq<TagRow>, a: Set<Seq<char>>, s: Seq<Seq<char>>) -> bool {
    &&& forall|i: int| 0 <= i < s.len() ==> a.contains(#[trigger] s[i])
    &&& forall|t: Seq<char>|
        #![trigger a.contains(t)]
        a.contains(t) && (exists|i: int| 0 <= i < s.len() && same_group(tags, t, #[trigger] s[i]))
            ==> s.contains(t)
}

/// No (image, other) pair is stored twice.
pub open spec fn links_unique(links: Seq<Link>) -> bool {
    forall|a: int, b: int|
        0 <= a < b < links.len() ==> !((#[trigger] links[a]).image_uuid@ == (#[trigger] links[b]).image_uuid@
            && links[a].other_uuid@ == links[b].other_uuid@)
}

/// A collection of `n` images or fewer can count them in 32 bits.
pub open spec fn fits_u32(n: int) -> bool {
    n <= u32::MAX
}

impl Catalog {
    /// Whether an image has this uuid.
    pub open spec fn has_image(&self, u: Seq<char>) -> bool {
        exists|k: int| 0 <= k < self.images@.len() && (#[trigger] self.images@[k]).uuid@ == u
    }

    /// Whether a tag has this uuid.
    pub open spec fn has_tag(&self, u: Seq<char>) -> bool {
        exists|k: int| 0 <= k < self.tags@.len() && (#[trigger] self.tags@[k]).uuid@ == u
    }

    /// Whether a tag group has this uuid.
    pub open spec fn has_group(&self, u: Seq<char>) -> bool {
        exists|k: int| 0 <= k < self.tag_groups@.len() && (#[trigger] self.tag_groups@[k]).uuid@ == u
    }

    /// The catalog's invariant: the uuids of images, models, tags and tag groups are
    /// each unique, every tag's group exists, every association refers to an existing
    /// image and an existing model or tag and is stored once, and the images can be
    /// counted in 32 bits.
    pub open spec fn wf(&self) -> bool {
        &&& fits_u32(self.images@.len() as int)
        &&& self.models@.map_values(|m: Model| m.uuid@).no_duplicates()
        &&& self.tags@.map_values(|t: TagRow| t.uuid@).no_duplicates()
        &&& self.tag_groups@.map_values(|g: GroupRow| g.uuid@).no_duplicates()
        &&& forall|k: int| 0 <= k < self.tags@.len() ==> self.has_group((#[trigger] self.tags@[k]).group_uuid@)
        &&& links_unique(self.image_models@)
        &&& links_unique(self.image_tags@)
        &&& forall|a: int, b: int|
            0 <= a < b < self.images@.len() ==> (#[trigger] self.images@[a]).uuid@
                != (#[trigger] self.images@[b]).uuid@
        &&& forall|k: int|
            0 <= k < self.image_models@.len() ==> self.has_image(
                (#[trigger] self.image_models@[k]).image_uuid@,
            ) && (exists|m: int|
                0 <= m < self.models@.len() && (#[trigger] self.models@[m]).uuid@
                    == self.image_models@[k].other_uuid@)
        &&& forall|k: int|
            0 <= k < self.image_tags@.len() ==> self.has_image(
                (#[trigger] self.image_tags@[k]).image_uuid@,
            ) && self.has_tag(self.image_tags@[k].other_uuid@)
    }

    /// Whether an image satisfies one clause.
    pub open spec fn clause_holds(&self, img: ImageRow, c: FilterClause) -> bool {
        let s = c.value.values();
        match c.field {
            FilterField::Collection => img.collection@ == s[0],
            FilterField::Gallery => img.gallery@ == s[0],
            FilterField::Models => set_clause_holds(
                links_of(self.image_models@, img.uuid@),
                s,
                c.op,
            ),
            FilterField::Tags => if c.op == FilterOp::Exact {
                tags_exact_holds(self.tags@, links_of(self.image_tags@, img.uuid@), s)
            } else {
                set_clause_holds(links_of(self.image_tags@, img.uuid@), s, c.op)
            },
        }
    }

    /// Whether an image satisfies every clause of a list.
    pub open spec fn matches_all(&self, img: ImageRow, cs: Seq<FilterClause>) -> bool {
        forall|i: int| 0 <= i < cs.len() ==> self.clause_holds(img, #[trigger] cs[i])
    }

    /// The images of `imgs` that satisfy every clause, in their order.
    pub open spec fn select(&self, imgs: Seq<ImageRow>, cs: Seq<FilterClause>) -> Seq<ImageRow>
        decreases imgs.len(),
    {
        if imgs.len() == 0 {
            Seq::empty()
        } else if self.matches_all(imgs.last(), cs) {
            self.select(imgs.drop_last(), cs).push(imgs.last())
        } else {
            self.select(imgs.drop_last(), cs)
        }
    }

    /// The catalog's images that satisfy every clause, in catalog order.
    pub open spec fn matching(&self, cs: Seq<FilterClause>) -> Seq<ImageRow> {
        self.select(self.images@, cs)
    }
}

/// Whether a list of texts holds `t`.
fn contains_text(vals: &Vec<&str>, t: &str) -> (r: bool)
    ensures
        r == str_texts(vals@).contains(t@),
{
    let mut i: usize = 0;
    while i < vals.len()
        invariant
            i <= vals@.len(),
            forall|j: int| 0 <= j < i ==> (#[trigger] vals@[j])@ != t@,
        decreases vals@.len() - i,
    {
        if text_eq(vals[i], t) {
            proof {
                assert(str_texts(vals@)[i as int] == t@);
            }
            return true;
        }
        i = i + 1;
    }
    proof {
        if str_texts(vals@).contains(t@) {
            let j = choose|j: int| 0 <= j < str_texts(vals@).len() && str_texts(vals@)[j] == t@;
            assert(vals@[j]@ == t@);
        }
    }
    false
}

/// Whether an association links `img` with `other`.
pub(crate) fn is_linked(links: &Vec<Link>, img: &str, other: &str) -> (r: bool)
    ensures
        r == linked(links@, img@, other@),
{
    let mut k: usize = 0;
    while k < links.len()
        invariant
            k <= links@.len(),
            forall|j: int|
                0 <= j < k ==> !((#[trigger] links@[j]).image_uuid@ == img@ && links@[j].other_uuid@
                    == other@),
        decreases links@.len() - k,
    {
        if text_eq(links[k].image_uuid.as_str(), img) && text_eq(links[k].other_uuid.as_str(), other) {
            return true;
        }
        k = k + 1;
    }
    false
}

/// Whether two tags belong to the same group.
fn in_same_group(tags: &Vec<TagRow>, t: &str, s: &str) -> (r: bool)
    ensures
        r == same_group(tags@, t@, s@),
{
    let mut a: usize = 0;
    while a < tags.len()
        invariant
            a <= tags@.len(),
            forall|x: int, y: int|
                0 <= x < a && 0 <= y < tags@.len() ==> !((#[trigger] tags@[x]).uuid@ == t@
                    && (#[trigger] tags@[y]).uuid@ == s@ && tags@[x].group_uuid@
                    == tags@[y].group_uuid@),
        decreases tags@.len() - a,
    {
        if text_eq(tags[a].uuid.as_str(), t) {
            let mut b: usize = 0;
            while b < tags.len()
                invariant
                    a < tags@.len(),
                    b <= tags@.len(),
                    tags@[a as int].uuid@ == t@,
                    forall|y: int|
                        0 <= y < b ==> !((#[trigger] tags@[y]).uuid@ == s@ && tags@[a as int].group_uuid@
                            == tags@[y].group_uuid@),
                decreases tags@.len() - b,
            {
                if text_eq(tags[b].uuid.as_str(), s) && text_eq(
                    tags[a].group_uuid.as_str(),
                    tags[b].group_uuid.as_str(),
                ) {
                    return true;
                }
                b = b + 1;
            }
        }
        a = a + 1;
    }
    false
}

/// Checks every clause of a list, failing on the first that is not accepted.
pub fn check_filters(filters: &[FilterClause]) -> (r: Result<(), AppError>)
    ensures
        r is Ok <==> clauses_ok(filters@),
        r matches Err(e) ==> e is BadRequest,
        r matches Err(AppError::BadRequest(m)) ==> m@ == filters_error(filters@),
{
    let mut k: usize = 0;
    while k < filters.len()
        invariant
            k <= filters@.len(),
            forall|j: int| 0 <= j < k ==> clause_ok(#[trigger] filters@[j]),
        decreases filters@.len() - k,
    {
        match check_clause(&filters[k]) {
            Ok(()) => {},
            Err(e) => {
                proof {
                    lemma_first_bad(filters@, k as int);
                }
                return Err(e);
            },
        }
        k = k + 1;
    }
    Ok(())
}

impl Catalog {
    /// Whether an image satisfies one accepted clause.
    pub fn clause_matches(&self, img: &ImageRow, clause: &FilterClause) -> (r: bool)
        requires
            clause_ok(*clause),
        ensures
            r == self.clause_holds(*img, *clause),
    {
        let ghost s = clause.value.values();
        match clause.field {
            FilterField::Collection | FilterField::Gallery => {
                let v = match clause.value.as_single() {
                    Some(v) => v,
                    None => {
                        return false;
                    },
                };
                if clause.field == FilterField::Collection {
                    text_eq(img.collection.as_str(), v)
                } else {
                    text_eq(img.gallery.as_str(), v)
                }
            },
            FilterField::Models | FilterField::Tags => {
                let links = if clause.field == FilterField::Models {
                    &self.image_models
                } else {
                    &self.image_tags
                };
                let vals = clause.value.as_multiple();
                proof {
                    assert(str_texts(vals@) =~= s);
                }
                let ghost a = links_of(links@, img.uuid@);
                let mut any = false;
                let mut all = true;
                let mut i: usize = 0;
                while i < vals.len()
                    invariant
                        i <= vals@.len(),
                        str_texts(vals@) == s,
                        s == clause.value.values(),
                        a == links_of(links@, img.uuid@),
                        any <==> exists|j: int| 0 <= j < i && a.contains(#[trigger] s[j]),
                        all <==> forall|j: int| 0 <= j < i ==> a.contains(#[trigger] s[j]),
                    decreases vals@.len() - i,
                {
                    let l = is_linked(links, img.uuid.as_str(), vals[i]);
                    proof {
                        assert(s[i as int] == vals@[i as int]@);
                        assert(a.contains(s[i as int]) == l);
                    }
                    any = any || l;
                    all = all && l;
                    i = i + 1;
                }
                match clause.op {
                    FilterOp::AnyOf => any,
                    FilterOp::AllOf => all,
                    FilterOp::NoneOf => {
                        proof {
                            if !any {
                                assert forall|j: int| 0 <= j < s.len() implies !a.contains(
                                    #[trigger] s[j],
                                ) by {}
                            }
                        }
                        !any
                    },
                    _ => {
                        if !all {
                            return false;
                        }
                        // No other linked uuid may be left over.
                        let is_tags = clause.field == FilterField::Tags;
                        assert(clause.op == FilterOp::Exact);
                        let mut k: usize = 0;
                        while k < links.len()
                            invariant
                                k <= links@.len(),
                                str_texts(vals@) == s,
                        s == clause.value.values(),
                                a == links_of(links@, img.uuid@),
                                clause.op == FilterOp::Exact,
                                is_tags == (clause.field == FilterField::Tags),
                                clause.field == FilterField::Models || clause.field == FilterField::Tags,
                                links@ == (if is_tags { self.image_tags@ } else { self.image_models@ }),
                                forall|j: int| 0 <= j < k ==> #[trigger] links@[j].image_uuid@ == img.uuid@
                                    ==> (if is_tags {
                                    (exists|i: int|
                                        0 <= i < s.len() && same_group(
                                            self.tags@,
                                            links@[j].other_uuid@,
                                            #[trigger] s[i],
                                        )) ==> s.contains(links@[j].other_uuid@)
                                } else {
                                    s.contains(links@[j].other_uuid@)
                                }),
                            decreases links@.len() - k,
                        {
                            if text_eq(links[k].image_uuid.as_str(), img.uuid.as_str()) {
                                let t = links[k].other_uuid.as_str();
                                proof {
                                    assert(links@[k as int].image_uuid@ == img.uuid@ && links@[k as int].other_uuid@ == t@);
                                    assert(a.contains(t@));
                                }
                                let listed = contains_text(&vals, t);
                                if !listed {
                                    if !is_tags {
                                        proof {
                                            assert(a.contains(t@));
                                            assert(!s.to_set().contains(t@));
                                        }
                                        return false;
                                    }
                                    let mut i: usize = 0;
                                    while i < vals.len()
                                        invariant
                                            i <= vals@.len(),
                                            str_texts(vals@) == s,
                        s == clause.value.values(),
                                            a == links_of(links@, img.uuid@),
                                            is_tags,
                                            clause.op == FilterOp::Exact,
                                            clause.field == FilterField::Tags,
                                            links@ == self.image_tags@,
                                            a.contains(t@),
                                            !s.contains(t@),
                                            forall|j: int|
                                                0 <= j < i ==> !same_group(self.tags@, t@, #[trigger] s[j]),
                                        decreases vals@.len() - i,
                                    {
                                        if in_same_group(&self.tags, t, vals[i]) {
                                            proof {
                                                assert(s[i as int] == vals@[i as int]@);
                                                assert(a.contains(t@));
                                            }
                                            return false;
                                        }
                                        proof {
                                            assert(s[i as int] == vals@[i as int]@);
                                        }
                                        i = i + 1;
                                    }
                                }
                            }
                            k = k + 1;
                        }
                        proof {
                            if is_tags {
                                assert forall|t: Seq<char>|
                                    a.contains(t) && (exists|i: int|
                                        0 <= i < s.len() && same_group(self.tags@, t, #[trigger] s[i]))
                                        implies s.contains(t) by {
                                    let j = choose|j: int|
                                        0 <= j < links@.len() && (#[trigger] links@[j]).image_uuid@ == img.uuid@
                                            && links@[j].other_uuid@ == t;
                                }
                            } else {
                                assert forall|t: Seq<char>| a.contains(t) <==> s.to_set().contains(t) by {
                                    if a.contains(t) {
                                        let j = choose|j: int|
                                            0 <= j < links@.len() && (#[trigger] links@[j]).image_uuid@
                                                == img.uuid@ && links@[j].other_uuid@ == t;
                                    }
                                    if s.to_set().contains(t) {
                                        let j = choose|j: int| 0 <= j < s.len() && s[j] == t;
                                    }
                                }
                                assert(a =~= s.to_set());
                            }
                        }
                        true
                    },
                }
            },
        }
    }
}

/// An image is selected exactly when it is among those given and satisfies every clause.
pub proof fn lemma_select_contains(cat: &Catalog, imgs: Seq<ImageRow>, cs: Seq<FilterClause>, img: ImageRow)
    ensures
        cat.select(imgs, cs).contains(img) <==> imgs.contains(img) && cat.matches_all(img, cs),
    decreases imgs.len(),
{
    if imgs.len() > 0 {
        let pre = imgs.drop_last();
        lemma_select_contains(cat, pre, cs, img);
        let sp = cat.select(pre, cs);
        if imgs.contains(img) && !pre.contains(img) {
            let k = choose|k: int| 0 <= k < imgs.len() && imgs[k] == img;
            if k < pre.len() {
                assert(pre[k] == img);
            }
        }
        if pre.contains(img) {
            let k = choose|k: int| 0 <= k < pre.len() && pre[k] == img;
            assert(imgs[k] == img);
        }
        if cat.matches_all(imgs.last(), cs) {
            let s = sp.push(imgs.last());
            if s.contains(img) && !sp.contains(img) {
                let k = choose|k: int| 0 <= k < s.len() && s[k] == img;
                if k < sp.len() {
                    assert(sp[k] == img);
                }
            }
            if sp.contains(img) {
                let k = choose|k: int| 0 <= k < sp.len() && sp[k] == img;
                assert(s[k] == img);
            }
            if img == imgs.last() {
                assert(s[sp.len() as int] == img);
            }
        }
    }
}

/// Selecting from distinct images gives distinct images.
pub proof fn lemma_select_no_dup(cat: &Catalog, imgs: Seq<ImageRow>, cs: Seq<FilterClause>)
    requires
        imgs.no_duplicates(),
    ensures
        cat.select(imgs, cs).no_duplicates(),
    decreases imgs.len(),
{
    if imgs.len() > 0 {
        let pre = imgs.drop_last();
        assert(pre.no_duplicates());
        lemma_select_no_dup(cat, pre, cs);
        let sp = cat.select(pre, cs);
        if cat.matches_all(imgs.last(), cs) {
            lemma_select_contains(cat, pre, cs, imgs.last());
            if pre.contains(imgs.last()) {
                let k = choose|k: int| 0 <= k < pre.len() && pre[k] == imgs.last();
                assert(imgs[k] == imgs[imgs.len() - 1]);
            }
            let s = sp.push(imgs.last());
            assert forall|a: int, b: int| 0 <= a < b < s.len() implies s[a] != s[b] by {
                if b == sp.len() {
                    assert(sp.contains(sp[a]));
                }
            }
        }
    }
}

/// Rows ordered by collection, then gallery, then path.
pub open spec fn images_sorted(rows: Seq<ImageRow>) -> bool {
    forall|i: int, j: int|
        0 <= i < j < rows.len() ==> !crate::order::key_lt(
            (#[trigger] rows[j]).key(),
            (#[trigger] rows[i]).key(),
        )
}

/// Position `k` occurs in `pos`.
pub open spec fn pos_listed(pos: Seq<int>, k: int) -> bool {
    exists|j: int| 0 <= j < pos.len() && #[trigger] pos[j] == k
}

/// `rows` lists `src` taken at the distinct positions `pos`, every position once,
/// ordered by key, with rows of equal key in their order in `src`.
pub open spec fn sorts_stably(rows: Seq<ImageRow>, src: Seq<ImageRow>, pos: Seq<int>) -> bool {
    &&& pos.len() == rows.len()
    &&& rows.len() == src.len()
    &&& pos.no_duplicates()
    &&& forall|k: int| 0 <= k < src.len() ==> #[trigger] pos_listed(pos, k)
    &&& forall|j: int| 0 <= j < pos.len() ==> 0 <= #[trigger] pos[j] < src.len() && rows[j] == src[pos[j]]
    &&& images_sorted(rows)
    &&& forall|a: int, b: int|
        0 <= a < b < rows.len() && (#[trigger] rows[a]).key() == (#[trigger] rows[b]).key() ==> pos[a]
            < pos[b]
}

/// `rows` is `src` sorted by collection, gallery and path, rows of equal key keeping
/// their order in `src`. Only one list is that (`law_search_repeatable`).
pub open spec fn stable_sort_of(rows: Seq<ImageRow>, src: Seq<ImageRow>) -> bool {
    exists|pos: Seq<int>| sorts_stably(rows, src, pos)
}

/// Two stable sorts of one list agree on their first `j` positions.
pub proof fn lemma_stable_prefix(
    rows1: Seq<ImageRow>,
    rows2: Seq<ImageRow>,
    src: Seq<ImageRow>,
    p1: Seq<int>,
    p2: Seq<int>,
    j: int,
)
    requires
        sorts_stably(rows1, src, p1),
        sorts_stably(rows2, src, p2),
        0 <= j <= p1.len(),
    ensures
        forall|i: int| 0 <= i < j ==> p1[i] == p2[i],
    decreases j,
{
    if j > 0 {
        lemma_stable_prefix(rows1, rows2, src, p1, p2, j - 1);
        let i = j - 1;
        if p1[i] != p2[i] {
            let a = p1[i];
            let b = p2[i];
            assert(0 <= a < src.len() && 0 <= b < src.len());
            assert(pos_listed(p2, a));
            let j2 = choose|x: int| 0 <= x < p2.len() && #[trigger] p2[x] == a;
            if j2 < i {
                assert(p1[j2] == p2[j2]);
            }
            assert(pos_listed(p1, b));
            let j1 = choose|x: int| 0 <= x < p1.len() && #[trigger] p1[x] == b;
            if j1 < i {
                assert(p2[j1] == p1[j1]);
            }
            let ka = src[a].key();
            let kb = src[b].key();
            assert(rows1[i] == src[a] && rows1[j1] == src[b]);
            assert(rows2[i] == src[b] && rows2[j2] == src[a]);
            assert(!crate::order::key_lt(rows1[j1].key(), rows1[i].key()));
            assert(!crate::order::key_lt(rows2[j2].key(), rows2[i].key()));
            crate::order::lemma_key_cmp_flip(ka, kb);
            crate::order::lemma_key_cmp_equal(ka, kb);
            assert(p1[i] < p1[j1]);
            assert(p2[i] < p2[j2]);
        }
    }
}

/// Two lists hold the same rows and have the same length.
pub open spec fn same_rows<T>(a: Seq<T>, b: Seq<T>) -> bool {
    &&& a.len() == b.len()
    &&& forall|x: T| a.contains(x) <==> b.contains(x)
}

/// The sort keys of image rows.
fn image_keys(rows: &Vec<ImageRow>) -> (ks: Vec<SortKey>)
    ensures
        ks@.len() == rows@.len(),
        forall|k: int| 0 <= k < rows@.len() ==> #[trigger] keys_of(ks@)[k] == rows@[k].key(),
{
    let mut ks: Vec<SortKey> = Vec::new();
    let mut i: usize = 0;
    while i < rows.len()
        invariant
            i <= rows@.len(),
            ks@.len() == i,
            forall|k: int| 0 <= k < i ==> (#[trigger] ks@[k]).key() == rows@[k].key(),
        decreases rows@.len() - i,
    {
        let r = &rows[i];
        ks.push(SortKey { a: r.collection.clone(), b: r.gallery.clone(), c: r.path.clone() });
        i = i + 1;
    }
    proof {
        assert forall|k: int| 0 <= k < rows@.len() implies #[trigger] keys_of(ks@)[k] == rows@[k].key() by {
            assert(ks@[k].key() == rows@[k].key());
        }
    }
    ks
}

impl Catalog {
    /// Whether an image satisfies every clause of an accepted list.
    pub fn matches_filters(&self, img: &ImageRow, filters: &[FilterClause]) -> (r: bool)
        requires
            clauses_ok(filters@),
        ensures
            r == self.matches_all(*img, filters@),
    {
        let mut k: usize = 0;
        while k < filters.len()
            invariant
                k <= filters@.len(),
                clauses_ok(filters@),
                forall|j: int| 0 <= j < k ==> self.clause_holds(*img, #[trigger] filters@[j]),
            decreases filters@.len() - k,
        {
            if !self.clause_matches(img, &filters[k]) {
                return false;
            }
            k = k + 1;
        }
        true
    }

    /// The catalog's images that satisfy every clause, in catalog order.
    pub(crate) fn select_images(&self, filters: &[FilterClause]) -> (r: Vec<ImageRow>)
        requires
            clauses_ok(filters@),
        ensures
            r@ == self.matching(filters@),
    {
        let mut r: Vec<ImageRow> = Vec::new();
        let mut i: usize = 0;
        while i < self.images.len()
            invariant
                i <= self.images@.len(),
                clauses_ok(filters@),
                r@ == self.select(self.images@.subrange(0, i as int), filters@),
            decreases self.images@.len() - i,
        {
            proof {
                let pre = self.images@.subrange(0, i as int);
                let post = self.images@.subrange(0, i + 1);
                assert(post.drop_last() =~= pre);
                assert(post.last() == self.images@[i as int]);
            }
            if self.matches_filters(&self.images[i], filters) {
                r.push(self.images[i].copy());
            }
            i = i + 1;
        }
        proof {
            assert(self.images@.subrange(0, self.images@.len() as int) =~= self.images@);
        }
        r
    }

    /// The images that satisfy every clause of a filter, ordered by collection, gallery
    /// and path. Fails, as `build_image_query` does, on a clause that is not accepted.
    pub fn query_images(&self, filters: &[FilterClause]) -> (r: Result<Vec<ImageRow>, AppError>)
        ensures
            r is Ok <==> clauses_ok(filters@),
            r matches Err(e) ==> e is BadRequest,
            r matches Err(AppError::BadRequest(m)) ==> m@ == filters_error(filters@),
            r matches Ok(rows) ==> same_rows(rows@, self.matching(filters@)),
            r matches Ok(rows) ==> images_sorted(rows@),
            r matches Ok(rows) ==> stable_sort_of(rows@, self.matching(filters@)),
            r matches Ok(rows) ==> (self.wf() ==> rows@.no_duplicates()),
    {
        check_filters(filters)?;
        let sel = self.select_images(filters);
        let keys = image_keys(&sel);
        let order = sorted_positions(&keys, false);
        let ghost ks = keys_of(keys@);
        let mut rows: Vec<ImageRow> = Vec::new();
        let mut j: usize = 0;
        while j < order.len()
            invariant
                j <= order@.len(),
                ks == keys_of(keys@),
                keys@.len() == sel@.len(),
                forall|k: int| 0 <= k < sel@.len() ==> #[trigger] ks[k] == sel@[k].key(),
                crate::order::in_range(ks, order@),
                rows@.len() == j,
                forall|m: int| 0 <= m < j ==> #[trigger] rows@[m] == sel@[order@[m] as int],
            decreases order@.len() - j,
        {
            rows.push(sel[order[j]].copy());
            j = j + 1;
        }
        proof {
            let ms = self.matching(filters@);
            assert forall|x: ImageRow| rows@.contains(x) <==> ms.contains(x) by {
                if rows@.contains(x) {
                    let m = choose|m: int| 0 <= m < rows@.len() && rows@[m] == x;
                    assert(ms[order@[m] as int] == x);
                }
                if ms.contains(x) {
                    let k = choose|k: int| 0 <= k < ms.len() && ms[k] == x;
                    assert(order@.contains(k as usize));
                    let m = choose|m: int| 0 <= m < order@.len() && order@[m] == k as usize;
                    assert(rows@[m] == x);
                }
            }
            assert forall|a: int, b: int| 0 <= a < b < rows@.len() implies !crate::order::key_lt(
                (#[trigger] rows@[b]).key(),
                (#[trigger] rows@[a]).key(),
            ) by {
                assert(!crate::order::key_lt(ks[order@[b] as int], ks[order@[a] as int]));
            }
            let pos = order@.map_values(|x: usize| x as int);
            assert forall|a: int, b: int|
                0 <= a < b < rows@.len() && (#[trigger] rows@[a]).key() == (#[trigger] rows@[b]).key()
                    implies pos[a] < pos[b] by {
                assert(ks[order@[a] as int] == ks[order@[b] as int]);
            }
            assert forall|a: int, b: int| 0 <= a < pos.len() && 0 <= b < pos.len() && a != b implies pos[a]
                != pos[b] by {
                assert(order@[a] != order@[b]);
            }
            assert forall|k: int| 0 <= k < sel@.len() implies #[trigger] pos_listed(pos, k) by {
                assert(order@.contains(k as usize));
                let j = choose|j: int| 0 <= j < order@.len() && order@[j] == k as usize;
                assert(pos[j] == k);
            }
            assert(sorts_stably(rows@, sel@, pos));
            if self.wf() {
                assert forall|a: int, b: int| 0 <= a < b < self.images@.len() implies self.images@[a]
                    != self.images@[b] by {
                    assert(self.images@[a].uuid@ != self.images@[b].uuid@);
                }
                lemma_select_no_dup(self, self.images@, filters@);
                assert forall|a: int, b: int| 0 <= a < b < rows@.len() implies rows@[a] != rows@[b] by {
                    assert(order@[a] != order@[b]);
                }
            }
        }
        Ok(rows)
    }
}

} // verus!
