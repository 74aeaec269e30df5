//! Building a catalog from its tables, with a check of its invariant.
use vstd::prelude::*;

use crate::catalog::{links_unique, Catalog, GroupRow, Link, TagRow};
use crate::sql::texts;
use crate::error::AppError;
use crate::models::{ImageRow, Model};
use crate::order::text_eq;

verus! {

/// Whether the texts of a list are pairwise distinct.
fn texts_distinct(v: &Vec<String>) -> (r: bool)
    ensures
        r == texts(v@).no_duplicates(),
{
    let n = v.len();
    let mut a: usize = 0;
    while a < n
        invariant
            n == v@.len(),
            a <= n,
            forall|x: int, y: int| 0 <= x < a && x < y < n ==> texts(v@)[x] != texts(v@)[y],
        decreases n - a,
    {
        let mut b: usize = a + 1;
        while b < n
            invariant
                n == v@.len(),
                a < n,
                a + 1 <= b <= n,
                forall|x: int, y: int| 0 <= x < a && x < y < n ==> texts(v@)[x] != texts(v@)[y],
                forall|y: int| a < y < b ==> texts(v@)[a as int] != texts(v@)[y],
            decreases n - b,
        {
            if text_eq(v[a].as_str(), v[b].as_str()) {
                proof {
                    assert(texts(v@)[a as int] == texts(v@)[b as int]);
                }
                return false;
            }
            b = b + 1;
        }
        a = a + 1;
    }
    proof {
        assert forall|x: int, y: int| 0 <= x < n && 0 <= y < n && x != y implies texts(v@)[x]
            != texts(v@)[y] by {
            if y < x {
                assert(texts(v@)[y] != texts(v@)[x]);
            }
        }
    }
    true
}

/// Whether no (image, other) pair of a list of associations is stored twice.
fn links_distinct(v: &Vec<Link>) -> (r: bool)
    ensures
        r == links_unique(v@),
{
    let n = v.len();
    let mut a: usize = 0;
    while a < n
        invariant
            n == v@.len(),
            a <= n,
            forall|x: int, y: int|
                0 <= x < a && x < y < n ==> !((#[trigger] v@[x]).image_uuid@ == (#[trigger] v@[y]).image_uuid@
                    && v@[x].other_uuid@ == v@[y].other_uuid@),
        decreases n - a,
    {
        let mut b: usize = a + 1;
        while b < n
            invariant
                n == v@.len(),
                a < n,
                a + 1 <= b <= n,
                forall|x: int, y: int|
                    0 <= x < a && x < y < n ==> !((#[trigger] v@[x]).image_uuid@ == (#[trigger] v@[y]).image_uuid@
                        && v@[x].other_uuid@ == v@[y].other_uuid@),
                forall|y: int|
                    a < y < b ==> !(v@[a as int].image_uuid@ == (#[trigger] v@[y]).image_uuid@
                        && v@[a as int].other_uuid@ == v@[y].other_uuid@),
            decreases n - b,
        {
            if text_eq(v[a].image_uuid.as_str(), v[b].image_uuid.as_str()) && text_eq(
                v[a].other_uuid.as_str(),
                v[b].other_uuid.as_str(),
            ) {
                return false;
            }
            b = b + 1;
        }
        a = a + 1;
    }
    true
}

/// The uuids of the models, in order.
fn model_uuids(v: &Vec<Model>) -> (r: Vec<String>)
    ensures
        r@.len() == v@.len(),
        forall|j: int| 0 <= j < v@.len() ==> (#[trigger] r@[j])@ == v@[j].uuid@,
{
    let mut r: Vec<String> = Vec::new();
    let mut i: usize = 0;
    while i < v.len()
        invariant
            i <= v@.len(),
            r@.len() == i,
            forall|j: int| 0 <= j < i ==> (#[trigger] r@[j])@ == v@[j].uuid@,
        decreases v@.len() - i,
    {
        r.push(v[i].uuid.clone());
        i = i + 1;
    }
    r
}

/// The uuids of the tags, in order.
fn tag_uuids(v: &Vec<TagRow>) -> (r: Vec<String>)
    ensures
        r@.len() == v@.len(),
        forall|j: int| 0 <= j < v@.len() ==> (#[trigger] r@[j])@ == v@[j].uuid@,
{
    let mut r: Vec<String> = Vec::new();
    let mut i: usize = 0;
    while i < v.len()
        invariant
            i <= v@.len(),
            r@.len() == i,
            forall|j: int| 0 <= j < i ==> (#[trigger] r@[j])@ == v@[j].uuid@,
        decreases v@.len() - i,
    {
        r.push(v[i].uuid.clone());
        i = i + 1;
    }
    r
}

/// The uuids of the tag groups, in order.
fn group_uuids(v: &Vec<GroupRow>) -> (r: Vec<String>)
    ensures
        r@.len() == v@.len(),
        forall|j: int| 0 <= j < v@.len() ==> (#[trigger] r@[j])@ == v@[j].uuid@,
{
    let mut r: Vec<String> = Vec::new();
    let mut i: usize = 0;
    while i < v.len()
        invariant
            i <= v@.len(),
            r@.len() == i,
            forall|j: int| 0 <= j < i ==> (#[trigger] r@[j])@ == v@[j].uuid@,
        decreases v@.len() - i,
    {
        r.push(v[i].uuid.clone());
        i = i + 1;
    }
    r
}

impl Catalog {
    /// Whether a model has this uuid.
    pub open spec fn has_model(&self, u: Seq<char>) -> bool {
        exists|m: int| 0 <= m < self.models@.len() && (#[trigger] self.models@[m]).uuid@ == u
    }

    /// Whether a model has this uuid.
    pub fn model_exists(&self, uuid: &str) -> (r: bool)
        ensures
            r == self.has_model(uuid@),
    {
        let mut k: usize = 0;
        while k < self.models.len()
            invariant
                k <= self.models@.len(),
                forall|j: int| 0 <= j < k ==> (#[trigger] self.models@[j]).uuid@ != uuid@,
            decreases self.models@.len() - k,
        {
            if text_eq(self.models[k].uuid.as_str(), uuid) {
                return true;
            }
            k = k + 1;
        }
        false
    }

    /// Whether the image uuids are pairwise distinct.
    fn images_unique(&self) -> (r: bool)
        ensures
            r == forall|a: int, b: int|
                0 <= a < b < self.images@.len() ==> (#[trigger] self.images@[a]).uuid@
                    != (#[trigger] self.images@[b]).uuid@,
    {
        let n = self.images.len();
        let mut a: usize = 0;
        while a < n
            invariant
                n == self.images@.len(),
                a <= n,
                forall|x: int, y: int|
                    0 <= x < a && x < y < n ==> (#[trigger] self.images@[x]).uuid@
                        != (#[trigger] self.images@[y]).uuid@,
            decreases n - a,
        {
            let mut b: usize = a + 1;
            while b < n
                invariant
                    n == self.images@.len(),
                    a < n,
                    a + 1 <= b <= n,
                    forall|x: int, y: int|
                        0 <= x < a && x < y < n ==> (#[trigger] self.images@[x]).uuid@
                            != (#[trigger] self.images@[y]).uuid@,
                    forall|y: int| a < y < b ==> self.images@[a as int].uuid@ != (#[trigger] self.images@[y]).uuid@,
                decreases n - b,
            {
                if text_eq(self.images[a].uuid.as_str(), self.images[b].uuid.as_str()) {
                    return false;
                }
                b = b + 1;
            }
            a = a + 1;
        }
        true
    }

    /// Whether a tag group has this uuid.
    pub fn group_exists(&self, uuid: &str) -> (r: bool)
        ensures
            r == self.has_group(uuid@),
    {
        let mut k: usize = 0;
        while k < self.tag_groups.len()
            invariant
                k <= self.tag_groups@.len(),
                forall|j: int| 0 <= j < k ==> (#[trigger] self.tag_groups@[j]).uuid@ != uuid@,
            decreases self.tag_groups@.len() - k,
        {
            if text_eq(self.tag_groups[k].uuid.as_str(), uuid) {
                return true;
            }
            k = k + 1;
        }
        false
    }

    /// Whether the catalog's invariant holds.
    pub fn check_wf(&self) -> (r: bool)
        ensures
            r == self.wf(),
    {
        if self.images.len() > 0xFFFF_FFFF {
            return false;
        }
        if !self.images_unique() {
            return false;
        }
        let mu = model_uuids(&self.models);
        let tu = tag_uuids(&self.tags);
        let gu = group_uuids(&self.tag_groups);
        proof {
            assert(texts(mu@) =~= self.models@.map_values(|m: Model| m.uuid@));
            assert(texts(tu@) =~= self.tags@.map_values(|t: TagRow| t.uuid@));
            assert(texts(gu@) =~= self.tag_groups@.map_values(|g: GroupRow| g.uuid@));
        }
        if !texts_distinct(&mu) || !texts_distinct(&tu) || !texts_distinct(&gu) {
            return false;
        }
        if !links_distinct(&self.image_models) || !links_distinct(&self.image_tags) {
            return false;
        }
        let mut k: usize = 0;
        while k < self.tags.len()
            invariant
                k <= self.tags@.len(),
                forall|j: int| 0 <= j < k ==> self.has_group((#[trigger] self.tags@[j]).group_uuid@),
            decreases self.tags@.len() - k,
        {
            if !self.group_exists(self.tags[k].group_uuid.as_str()) {
                return false;
            }
            k = k + 1;
        }
        let mut k: usize = 0;
        while k < self.image_models.len()
            invariant
                k <= self.image_models@.len(),
                forall|j: int|
                    0 <= j < k ==> self.has_image((#[trigger] self.image_models@[j]).image_uuid@)
                        && self.has_model(self.image_models@[j].other_uuid@),
            decreases self.image_models@.len() - k,
        {
            let l = &self.image_models[k];
            if self.find_image(l.image_uuid.as_str()).is_none() || !self.model_exists(l.other_uuid.as_str()) {
                return false;
            }
            k = k + 1;
        }
        let mut k: usize = 0;
        while k < self.image_tags.len()
            invariant
                k <= self.image_tags@.len(),
                forall|j: int|
                    0 <= j < k ==> self.has_image((#[trigger] self.image_tags@[j]).image_uuid@)
                        && self.has_tag(self.image_tags@[j].other_uuid@),
            decreases self.image_tags@.len() - k,
        {
            let l = &self.image_tags[k];
            if self.find_image(l.image_uuid.as_str()).is_none() || !self.tag_exists(l.other_uuid.as_str()) {
                return false;
            }
            k = k + 1;
        }
        true
    }

    /// A catalog of the given tables, where they are consistent: image uuids are
    /// unique and every association refers to an existing image and an existing model
    /// or tag. Otherwise a `DbError`.
    pub fn new(
        images: Vec<ImageRow>,
        models: Vec<Model>,
        tag_groups: Vec<GroupRow>,
        tags: Vec<TagRow>,
        image_models: Vec<Link>,
        image_tags: Vec<Link>,
    ) -> (r: Result<Catalog, AppError>)
        ensures
            r is Ok <==> (Catalog { images, models, tag_groups, tags, image_models, image_tags }).wf(),
            r matches Ok(c) ==> c == (Catalog { images, models, tag_groups, tags, image_models, image_tags }),
            r matches Err(e) ==> e is DbError,
    {
        let c = Catalog { images, models, tag_groups, tags, image_models, image_tags };
        if c.check_wf() {
            Ok(c)
        } else {
            Err(AppError::DbError(String::from_str("catalog snapshot is inconsistent")))
        }
    }
}

} // verus!
