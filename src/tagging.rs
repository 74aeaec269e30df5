//! Image detail and replacement of an image's tags.
use vstd::prelude::*;

use crate::catalog::{is_linked, linked, links_unique, Catalog, Link};
use crate::error::AppError;
use crate::models::{ImageDetail, ImageRow, Model, TagRef};
use crate::order::{strictly_sorted, text_eq};
use crate::sql::texts;

verus! {

impl Catalog {
    /// `d` is the detail of `img`: its fields, with the models and the tags linked to
    /// it, each list strictly ascending.
    pub open spec fn detail_of(&self, d: ImageDetail, img: ImageRow) -> bool {
        &&& d.uuid == img.uuid
        &&& d.path == img.path
        &&& d.collection == img.collection
        &&& d.gallery == img.gallery
        &&& d.width == img.width
        &&& d.height == img.height
        &&& d.file_size == img.file_size
        &&& strictly_sorted(d.models@.map_values(|m: Model| m.key()))
        &&& d.models@.map_values(|m: Model| m.key()).to_set() == self.models_used(seq![img])
        &&& strictly_sorted(d.tags@.map_values(|t: TagRef| t.key()))
        &&& d.tags@.map_values(|t: TagRef| t.key()).to_set() == self.tags_used(seq![img])
    }

    /// `after` is `before` with the tags of image `u` replaced by the tags `ts`, all of
    /// which exist; nothing else changes.
    pub open spec fn tags_replaced(before: Catalog, after: Catalog, u: Seq<char>, ts: Seq<Seq<char>>) -> bool {
        &&& after.images == before.images
        &&& after.models == before.models
        &&& after.tag_groups == before.tag_groups
        &&& after.tags == before.tags
        &&& after.image_models == before.image_models
        &&& before.has_image(u)
        &&& forall|i: int| 0 <= i < ts.len() ==> before.has_tag(#[trigger] ts[i])
        &&& forall|img: Seq<char>, t: Seq<char>|
            #[trigger] linked(after.image_tags@, img, t) <==> if img == u {
                ts.contains(t)
            } else {
                linked(before.image_tags@, img, t)
            }
    }

    /// The position of the image with this uuid.
    pub fn find_image(&self, uuid: &str) -> (r: Option<usize>)
        ensures
            r is None <==> !self.has_image(uuid@),
            r matches Some(k) ==> k < self.images@.len() && self.images@[k as int].uuid@ == uuid@,
    {
        let mut k: usize = 0;
        while k < self.images.len()
            invariant
                k <= self.images@.len(),
                forall|j: int| 0 <= j < k ==> (#[trigger] self.images@[j]).uuid@ != uuid@,
            decreases self.images@.len() - k,
        {
            if text_eq(self.images[k].uuid.as_str(), uuid) {
                return Some(k);
            }
            k = k + 1;
        }
        None
    }

    /// Whether a tag has this uuid.
    pub fn tag_exists(&self, uuid: &str) -> (r: bool)
        ensures
            r == self.has_tag(uuid@),
    {
        let mut k: usize = 0;
        while k < self.tags.len()
            invariant
                k <= self.tags@.len(),
                forall|j: int| 0 <= j < k ==> (#[trigger] self.tags@[j]).uuid@ != uuid@,
            decreases self.tags@.len() - k,
        {
            if text_eq(self.tags[k].uuid.as_str(), uuid) {
                return true;
            }
            k = k + 1;
        }
        false
    }

    /// The image with this uuid, with its models and tags; `NotFound` where no image
    /// has it.
    pub fn query_image_detail(&self, uuid: &str) -> (r: Result<ImageDetail, AppError>)
        ensures
            r is Err <==> !self.has_image(uuid@),
            r matches Err(e) ==> e is NotFound,
            r matches Ok(d) ==> exists|k: int|
                0 <= k < self.images@.len() && (#[trigger] self.images@[k]).uuid@ == uuid@
                    && self.detail_of(d, self.images@[k]),
    {
        let k = match self.find_image(uuid) {
            Some(k) => k,
            None => {
                return Err(AppError::NotFound(String::from_str("Image not found")));
            },
        };
        let img = self.images[k].copy();
        let mut one: Vec<ImageRow> = Vec::new();
        one.push(img.copy());
        proof {
            assert(one@ =~= seq![self.images@[k as int]]);
        }
        let models = self.used_models(&one);
        let tags = self.used_tags(&one);
        Ok(
            ImageDetail {
                uuid: img.uuid,
                path: img.path,
                collection: img.collection,
                gallery: img.gallery,
                width: img.width,
                height: img.height,
                file_size: img.file_size,
                models,
                tags,
            },
        )
    }

    /// Replaces all tags of one image by the distinct tags of `tag_uuids`. Fails with
    /// `NotFound` where no image has the uuid, and with `BadRequest` naming the first
    /// tag uuid that no tag has; a failed call changes nothing.
    pub fn replace_image_tags(&mut self, image_uuid: &str, tag_uuids: &[String]) -> (r: Result<(), AppError>)
        requires
            old(self).wf(),
        ensures
            final(self).wf(),
            r is Ok <==> old(self).has_image(image_uuid@) && forall|i: int|
                0 <= i < tag_uuids@.len() ==> old(self).has_tag(#[trigger] tag_uuids@[i]@),
            r matches Err(e) ==> (e is NotFound <==> !old(self).has_image(image_uuid@)),
            r matches Err(e) ==> (e is NotFound || e is BadRequest),
            r matches Err(AppError::BadRequest(m)) ==> exists|i: int|
                0 <= i < tag_uuids@.len() && !old(self).has_tag(#[trigger] tag_uuids@[i]@) && (forall|j: int|
                    0 <= j < i ==> old(self).has_tag(#[trigger] tag_uuids@[j]@)) && m@ == "Tag not found: "@
                    + tag_uuids@[i]@,
            r is Err ==> *final(self) == *old(self),
            r is Ok ==> Catalog::tags_replaced(*old(self), *final(self), image_uuid@, texts(tag_uuids@)),
    {
        let ghost u = image_uuid@;
        let ghost ts = texts(tag_uuids@);
        if self.find_image(image_uuid).is_none() {
            return Err(AppError::NotFound(String::from_str("Image not found")));
        }
        let mut i: usize = 0;
        while i < tag_uuids.len()
            invariant
                i <= tag_uuids@.len(),
                *self == *old(self),
                self.wf(),
                u == image_uuid@,
                ts == texts(tag_uuids@),
                self.has_image(u),
                forall|j: int| 0 <= j < i ==> self.has_tag(#[trigger] tag_uuids@[j]@),
            decreases tag_uuids@.len() - i,
        {
            if !self.tag_exists(tag_uuids[i].as_str()) {
                let mut msg = String::from_str("Tag not found: ");
                msg.append(tag_uuids[i].as_str());
                return Err(AppError::BadRequest(msg));
            }
            i = i + 1;
        }
        proof {
            assert forall|j: int| 0 <= j < ts.len() implies self.has_tag(#[trigger] ts[j]) by {
                assert(self.has_tag(tag_uuids@[j]@));
            }
        }
        let ghost old_links = self.image_tags@;
        let mut kept: Vec<Link> = Vec::new();
        let mut k: usize = 0;
        while k < self.image_tags.len()
            invariant
                k <= old_links.len(),
                old_links == self.image_tags@,
                *self == *old(self),
                self.wf(),
                u == image_uuid@,
                ts == texts(tag_uuids@),
                self.has_image(u),
                forall|j: int| 0 <= j < ts.len() ==> self.has_tag(#[trigger] ts[j]),
                forall|j: int|
                    0 <= j < kept@.len() ==> self.has_image((#[trigger] kept@[j]).image_uuid@)
                        && self.has_tag(kept@[j].other_uuid@),
                links_unique(kept@),
                links_unique(old_links),
                forall|img: Seq<char>, t: Seq<char>|
                    #[trigger] linked(kept@, img, t) <==> img != u && linked(
                        old_links.subrange(0, k as int),
                        img,
                        t,
                    ),
            decreases old_links.len() - k,
        {
            let l = &self.image_tags[k];
            let ghost before = kept@;
            let keep = !text_eq(l.image_uuid.as_str(), image_uuid);
            if keep {
                proof {
                    let pre = old_links.subrange(0, k as int);
                    if linked(pre, l.image_uuid@, l.other_uuid@) {
                        let y = choose|y: int|
                            0 <= y < pre.len() && (#[trigger] pre[y]).image_uuid@ == l.image_uuid@
                                && pre[y].other_uuid@ == l.other_uuid@;
                        assert(old_links[y] == pre[y]);
                        assert(old_links[k as int] == *l);
                    }
                    assert(!linked(before, l.image_uuid@, l.other_uuid@));
                }
                kept.push(Link { image_uuid: l.image_uuid.clone(), other_uuid: l.other_uuid.clone() });
                proof {
                    assert forall|a: int, b: int| 0 <= a < b < kept@.len() implies !((#[trigger] kept@[a]).image_uuid@
                        == (#[trigger] kept@[b]).image_uuid@ && kept@[a].other_uuid@ == kept@[b].other_uuid@) by {
                        if b == before.len() && kept@[a].image_uuid@ == kept@[b].image_uuid@ && kept@[a].other_uuid@ == kept@[b].other_uuid@ {
                            assert(before[a] == kept@[a]);
                            assert(linked(before, l.image_uuid@, l.other_uuid@));
                        } else if b < before.len() {
                            assert(before[a] == kept@[a] && before[b] == kept@[b]);
                        }
                    }
                }
            }
            proof {
                let pre = old_links.subrange(0, k as int);
                let post = old_links.subrange(0, k + 1);
                assert forall|img: Seq<char>, t: Seq<char>|
                    #[trigger] linked(kept@, img, t) <==> img != u && linked(post, img, t) by {
                    if linked(kept@, img, t) {
                        let x = choose|x: int|
                            0 <= x < kept@.len() && (#[trigger] kept@[x]).image_uuid@ == img
                                && kept@[x].other_uuid@ == t;
                        if x < before.len() {
                            assert(before[x] == kept@[x]);
                            assert(linked(before, img, t));
                            let y = choose|y: int|
                                0 <= y < pre.len() && (#[trigger] pre[y]).image_uuid@ == img
                                    && pre[y].other_uuid@ == t;
                            assert(post[y] == pre[y]);
                        } else {
                            assert(keep);
                            assert(post[k as int] == old_links[k as int]);
                        }
                    }
                    if img != u && linked(post, img, t) {
                        let y = choose|y: int|
                            0 <= y < post.len() && (#[trigger] post[y]).image_uuid@ == img
                                && post[y].other_uuid@ == t;
                        if y < k {
                            assert(pre[y] == post[y]);
                            assert(linked(pre, img, t));
                            assert(linked(before, img, t));
                            let x = choose|x: int|
                                0 <= x < before.len() && (#[trigger] before[x]).image_uuid@ == img
                                    && before[x].other_uuid@ == t;
                            assert(kept@[x] == before[x]);
                        } else {
                            assert(post[y] == old_links[k as int]);
                            assert(keep);
                            assert(kept@[before.len() as int].image_uuid@ == img);
                        }
                    }
                }
                assert forall|j: int|
                    0 <= j < kept@.len() implies self.has_image((#[trigger] kept@[j]).image_uuid@)
                        && self.has_tag(kept@[j].other_uuid@) by {
                    if j < before.len() {
                        assert(kept@[j] == before[j]);
                    } else {
                        assert(keep);
                        let l0 = self.image_tags@[k as int];
                        assert(self.has_image(l0.image_uuid@) && self.has_tag(l0.other_uuid@));
                    }
                }
            }
            k = k + 1;
        }
        proof {
            assert(old_links.subrange(0, old_links.len() as int) =~= old_links);
        }
        let mut i: usize = 0;
        while i < tag_uuids.len()
            invariant
                i <= tag_uuids@.len(),
                ts == texts(tag_uuids@),
                *self == *old(self),
                self.wf(),
                u == image_uuid@,
                ts == texts(tag_uuids@),
                old_links == self.image_tags@,
                self.has_image(u),
                forall|j: int| 0 <= j < ts.len() ==> self.has_tag(#[trigger] ts[j]),
                forall|j: int|
                    0 <= j < kept@.len() ==> self.has_image((#[trigger] kept@[j]).image_uuid@)
                        && self.has_tag(kept@[j].other_uuid@),
                links_unique(kept@),
                forall|img: Seq<char>, t: Seq<char>|
                    #[trigger] linked(kept@, img, t) <==> if img == u {
                        ts.subrange(0, i as int).contains(t)
                    } else {
                        linked(old_links, img, t)
                    },
            decreases tag_uuids@.len() - i,
        {
            let ghost before = kept@;
            let t = tag_uuids[i].as_str();
            let present = is_linked(&kept, image_uuid, t);
            if !present {
                kept.push(Link { image_uuid: String::from_str(image_uuid), other_uuid: tag_uuids[i].clone() });
                proof {
                    assert forall|a: int, b: int| 0 <= a < b < kept@.len() implies !((#[trigger] kept@[a]).image_uuid@
                        == (#[trigger] kept@[b]).image_uuid@ && kept@[a].other_uuid@ == kept@[b].other_uuid@) by {
                        if b == before.len() && kept@[a].image_uuid@ == kept@[b].image_uuid@ && kept@[a].other_uuid@ == kept@[b].other_uuid@ {
                            assert(before[a] == kept@[a]);
                            assert(linked(before, image_uuid@, t@));
                        } else if b < before.len() {
                            assert(before[a] == kept@[a] && before[b] == kept@[b]);
                        }
                    }
                }
            }
            proof {
                let pre = ts.subrange(0, i as int);
                let post = ts.subrange(0, i + 1);
                assert(post =~= pre.push(t@));
                assert(ts[i as int] == t@);
                assert forall|img: Seq<char>, s: Seq<char>|
                    #[trigger] linked(kept@, img, s) <==> if img == u {
                        post.contains(s)
                    } else {
                        linked(old_links, img, s)
                    } by {
                    if linked(kept@, img, s) {
                        let x = choose|x: int|
                            0 <= x < kept@.len() && (#[trigger] kept@[x]).image_uuid@ == img
                                && kept@[x].other_uuid@ == s;
                        if x < before.len() {
                            assert(before[x] == kept@[x]);
                            assert(linked(before, img, s));
                            if img == u {
                                let y = choose|y: int| 0 <= y < pre.len() && pre[y] == s;
                                assert(post[y] == s);
                            }
                        } else {
                            assert(post[i as int] == s);
                        }
                    }
                    if img == u && post.contains(s) {
                        let y = choose|y: int| 0 <= y < post.len() && post[y] == s;
                        if y < i {
                            assert(pre[y] == s);
                            assert(linked(before, img, s));
                            let x = choose|x: int|
                                0 <= x < before.len() && (#[trigger] before[x]).image_uuid@ == img
                                    && before[x].other_uuid@ == s;
                            assert(kept@[x] == before[x]);
                        } else if !present {
                            assert(kept@[before.len() as int].image_uuid@ == img);
                        } else {
                            assert(linked(before, img, s));
                            let x = choose|x: int|
                                0 <= x < before.len() && (#[trigger] before[x]).image_uuid@ == img
                                    && before[x].other_uuid@ == s;
                            assert(kept@[x] == before[x]);
                        }
                    }
                    if img != u && linked(old_links, img, s) {
                        assert(linked(before, img, s));
                        let x = choose|x: int|
                            0 <= x < before.len() && (#[trigger] before[x]).image_uuid@ == img
                                && before[x].other_uuid@ == s;
                        assert(kept@[x] == before[x]);
                    }
                }
                assert forall|j: int|
                    0 <= j < kept@.len() implies self.has_image((#[trigger] kept@[j]).image_uuid@)
                        && self.has_tag(kept@[j].other_uuid@) by {
                    if j < before.len() {
                        assert(kept@[j] == before[j]);
                    } else {
                        assert(self.has_tag(ts[i as int]));
                    }
                }
            }
            i = i + 1;
        }
        proof {
            assert(ts.subrange(0, ts.len() as int) =~= ts);
        }
        let ghost kv = kept@;
        proof {
            assert forall|j: int| 0 <= j < kv.len() implies old(self).has_image((#[trigger] kv[j]).image_uuid@)
                && old(self).has_tag(kv[j].other_uuid@) by {
                assert(self.has_image(kept@[j].image_uuid@));
            }
        }
        self.image_tags = kept;
        proof {
            assert(self.images == old(self).images);
            assert(self.image_tags@ == kv);
            assert(self.images@ == old(self).images@);
            assert(self.image_models@ == old(self).image_models@);
            assert(self.models@ == old(self).models@);
            assert(self.tags@ == old(self).tags@);
            assert(self.tag_groups@ == old(self).tag_groups@);
            assert(links_unique(kv));
            assert forall|k: int| 0 <= k < self.tags@.len() implies self.has_group(
                (#[trigger] self.tags@[k]).group_uuid@,
            ) by {
                assert(old(self).has_group(old(self).tags@[k].group_uuid@));
                let g = choose|g: int| 0 <= g < old(self).tag_groups@.len() && (#[trigger] old(self).tag_groups@[g]).uuid@ == old(self).tags@[k].group_uuid@;
                assert(self.tag_groups@[g] == old(self).tag_groups@[g]);
            }
            assert forall|k: int| 0 <= k < self.image_models@.len() implies self.has_image(
                (#[trigger] self.image_models@[k]).image_uuid@,
            ) by {
                assert(old(self).has_image(old(self).image_models@[k].image_uuid@));
                let a = choose|a: int| 0 <= a < old(self).images@.len() && (#[trigger] old(self).images@[a]).uuid@ == old(self).image_models@[k].image_uuid@;
                assert(self.images@[a] == old(self).images@[a]);
            }
            assert forall|k: int| 0 <= k < self.image_tags@.len() implies self.has_image(
                (#[trigger] self.image_tags@[k]).image_uuid@,
            ) && self.has_tag(self.image_tags@[k].other_uuid@) by {
                assert(old(self).has_image(kv[k].image_uuid@));
                assert(old(self).has_tag(kv[k].other_uuid@));
                let a = choose|a: int| 0 <= a < old(self).images@.len() && (#[trigger] old(self).images@[a]).uuid@ == kv[k].image_uuid@;
                assert(self.images@[a] == old(self).images@[a]);
                let b = choose|b: int| 0 <= b < old(self).tags@.len() && (#[trigger] old(self).tags@[b]).uuid@ == kv[k].other_uuid@;
                assert(self.tags@[b] == old(self).tags@[b]);
            }
        }
        Ok(())
    }
}

} // verus!
