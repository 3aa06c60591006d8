//! What the service answers: a code, a message and data, or an HTTP error.

use vstd::prelude::*;
use crate::text::views;
use crate::models::{Image, ImageView, Tag, TagView, tag_views};
use crate::files::image_url_of;

verus! {

/// An image as a search lists it, with the URL of its file.
pub struct SearchHit {
    pub id: i64,
    pub url: String,
    pub filename: String,
    pub ext: String,
}

/// The data of an answer.
pub enum ReplyData {
    Empty,
    Image(Image),
    TagsAdded { image_id: i64, tags: Vec<String> },
    Tags(Vec<Tag>),
    Hits(Vec<SearchHit>),
}

/// A successful answer.
pub struct Reply {
    pub code: u16,
    pub msg: String,
    pub data: ReplyData,
}

/// A failed request: its HTTP status and the message sent back.
pub struct HttpError {
    pub status: u16,
    pub message: String,
}

pub struct SearchHitView {
    pub id: i64,
    pub url: Seq<char>,
    pub filename: Seq<char>,
    pub ext: Seq<char>,
}

pub enum ReplyDataView {
    Empty,
    Image(ImageView),
    TagsAdded { image_id: i64, tags: Seq<Seq<char>> },
    Tags(Seq<TagView>),
    Hits(Seq<SearchHitView>),
}

pub struct ReplyView {
    pub code: u16,
    pub msg: Seq<char>,
    pub data: ReplyDataView,
}

pub struct HttpErrorView {
    pub status: u16,
    pub message: Seq<char>,
}

impl View for SearchHit {
    type V = SearchHitView;

    open spec fn view(&self) -> SearchHitView {
        SearchHitView { id: self.id, url: self.url@, filename: self.filename@, ext: self.ext@ }
    }
}

/// The views of a sequence of hits.
pub open spec fn hit_views(v: Seq<SearchHit>) -> Seq<SearchHitView> {
    v.map_values(|h: SearchHit| h@)
}

impl View for ReplyData {
    type V = ReplyDataView;

    open spec fn view(&self) -> ReplyDataView {
        match self {
            ReplyData::Empty => ReplyDataView::Empty,
            ReplyData::Image(img) => ReplyDataView::Image(img@),
            ReplyData::TagsAdded { image_id, tags } => ReplyDataView::TagsAdded {
                image_id: *image_id,
                tags: views(tags@),
            },
            ReplyData::Tags(tags) => ReplyDataView::Tags(tag_views(tags@)),
            ReplyData::Hits(hits) => ReplyDataView::Hits(hit_views(hits@)),
        }
    }
}

impl View for Reply {
    type V = ReplyView;

    open spec fn view(&self) -> ReplyView {
        ReplyView { code: self.code, msg: self.msg@, data: self.data@ }
    }
}

impl View for HttpError {
    type V = HttpErrorView;

    open spec fn view(&self) -> HttpErrorView {
        HttpErrorView { status: self.status, message: self.message@ }
    }
}

/// A successful answer with code 200.
pub open spec fn ok_reply(msg: Seq<char>, data: ReplyDataView) -> ReplyView {
    ReplyView { code: 200, msg, data }
}

/// A successful answer with code 200.
pub fn reply(msg: &str, data: ReplyData) -> (r: Reply)
    ensures
        r@ == ok_reply(msg@, data@),
{
    Reply { code: 200, msg: msg.to_owned(), data }
}

/// A failed request.
pub fn http_error(status: u16, message: String) -> (e: HttpError)
    ensures
        e@ == (HttpErrorView { status, message: message@ }),
{
    HttpError { status, message }
}

/// How a search lists an image: with the URL of its file.
pub open spec fn hit_of(img: ImageView) -> SearchHitView {
    SearchHitView {
        id: img.id,
        url: image_url_of(img.filename, img.ext),
        filename: img.filename,
        ext: img.ext,
    }
}

} // verus!
