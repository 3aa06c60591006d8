//! The records of the catalogue and the bodies of requests.

use vstd::prelude::*;

verus! {

/// A stored image: its row id, the name of its file (the hex digest of its
/// content) and its extension.
pub struct Image {
    pub id: i64,
    pub filename: String,
    pub ext: String,
}

/// A tag: its row id and its name.
pub struct Tag {
    pub id: i64,
    pub name: String,
}

/// The query of a search: a comma-separated list of tags, if any.
pub struct SearchParams {
    pub tags: Option<String>,
}

/// The body of a request that tags an image.
pub struct AddTagsRequest {
    pub tags: Vec<String>,
}

pub struct ImageView {
    pub id: i64,
    pub filename: Seq<char>,
    pub ext: Seq<char>,
}

pub struct TagView {
    pub id: i64,
    pub name: Seq<char>,
}

impl View for Image {
    type V = ImageView;

    open spec fn view(&self) -> ImageView {
        ImageView { id: self.id, filename: self.filename@, ext: self.ext@ }
    }
}

impl View for Tag {
    type V = TagView;

    open spec fn view(&self) -> TagView {
        TagView { id: self.id, name: self.name@ }
    }
}

/// The views of a sequence of images.
pub open spec fn image_views(v: Seq<Image>) -> Seq<ImageView> {
    v.map_values(|i: Image| i@)
}

/// The views of a sequence of tags.
pub open spec fn tag_views(v: Seq<Tag>) -> Seq<TagView> {
    v.map_values(|t: Tag| t@)
}

} // verus!
