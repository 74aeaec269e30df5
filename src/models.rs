//! Rows and records that the library reads and returns.
use vstd::prelude::*;

use crate::order::KeyView;

verus! {

/// One image of the catalog.
pub struct ImageRow {
    pub uuid: String,
    pub path: String,
    pub collection: String,
    pub gallery: String,
    pub width: u32,
    pub height: u32,
    pub file_size: i64,
}

impl ImageRow {
    /// A copy of the row.
    pub fn copy(&self) -> (r: ImageRow)
        ensures
            r == *self,
    {
        ImageRow {
            uuid: self.uuid.clone(),
            path: self.path.clone(),
            collection: self.collection.clone(),
            gallery: self.gallery.clone(),
            width: self.width,
            height: self.height,
            file_size: self.file_size,
        }
    }

    /// The order of search results: collection, then gallery, then path.
    pub open spec fn key(&self) -> KeyView {
        (self.collection@, self.gallery@, self.path@)
    }
}

/// A model, scoped to one collection.
pub struct Model {
    pub uuid: String,
    pub name: String,
    pub collection: String,
}

impl Model {
    pub fn copy(&self) -> (r: Model)
        ensures
            r == *self,
    {
        Model { uuid: self.uuid.clone(), name: self.name.clone(), collection: self.collection.clone() }
    }

    /// The order of model lists: collection, then name (then uuid, to part namesakes).
    pub open spec fn key(&self) -> KeyView {
        (self.collection@, self.name@, self.uuid@)
    }
}

/// A tag together with the name of its group.
pub struct TagRef {
    pub uuid: String,
    pub name: String,
    pub group: String,
}

impl TagRef {
    /// The order of tag lists: group, then name (then uuid, to part namesakes).
    pub open spec fn key(&self) -> KeyView {
        (self.group@, self.name@, self.uuid@)
    }
}

/// A tag as listed within its group.
pub struct Tag {
    pub uuid: String,
    pub name: String,
}

/// A tag group with its member tags.
pub struct TagGroup {
    pub uuid: String,
    pub name: String,
    pub tags: Vec<Tag>,
}

/// A collection with the number of its images and galleries.
pub struct CollectionSummary {
    pub name: String,
    pub image_count: u32,
    pub gallery_count: u32,
}

/// A gallery of a collection with the number of its images.
pub struct GallerySummary {
    pub name: String,
    pub collection: String,
    pub image_count: u32,
}

impl GallerySummary {
    /// The order of gallery lists: collection, then name.
    pub open spec fn key(&self) -> KeyView {
        (self.collection@, self.name@, Seq::empty())
    }
}

/// The facets that remain available under a filter.
pub struct FilterOptions {
    pub image_count: u32,
    pub collections: Vec<String>,
    pub galleries: Vec<GallerySummary>,
    pub models: Vec<Model>,
    pub tags: Vec<TagRef>,
}

/// An image with the models and tags linked to it.
pub struct ImageDetail {
    pub uuid: String,
    pub path: String,
    pub collection: String,
    pub gallery: String,
    pub width: u32,
    pub height: u32,
    pub file_size: i64,
    pub models: Vec<Model>,
    pub tags: Vec<TagRef>,
}

} // verus!
