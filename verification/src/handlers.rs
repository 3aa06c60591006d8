//! The requests of the HTTP interface: what each one runs and what it is
//! answered. An upload is a flow that the server drives: it reads the
//! multipart fields, the bytes of the file, the lookup and the insert, and
//! the flow decides each next step.

use vstd::prelude::*;
use crate::text::{views, same_text, lemma_views_push};
use crate::tags::{parse_search_tags, clean_tag_names, search_terms_of, tag_list};
use crate::models::{Image, ImageView, Tag, SearchParams, AddTagsRequest, tag_views, image_views};
use crate::files::{
    IMAGES_URL, hex_lower, sha256_of,
    image_url, content_hash, content_name_of, upload_extension, upload_extension_of, storage_path,
    storage_path_of,
};
use crate::sql::{Statement, StatementView, ValueView, with_one, with_two};
use crate::services::{
    find_images_by_tags, find_image_by_hash, create_image, search_statement, IMAGE_BY_FILENAME,
    INSERT_IMAGE, DeleteFlowView, DeleteEventView, DeleteStage, delete_next,
};
use crate::replies::{
    Reply, ReplyData, ReplyDataView, ReplyView, HttpError, HttpErrorView, SearchHit, ok_reply,
    reply, http_error, hit_of, hit_views,
};

verus! {

// ---------------------------------------------------------------------------
// Search
// ---------------------------------------------------------------------------

/// The comma-separated tags of a search query; none given reads as empty.
pub open spec fn raw_query(params: SearchParams) -> Seq<char> {
    match params.tags {
        Some(t) => t@,
        None => ""@,
    }
}

/// The tags that a search names.
pub fn search_terms(params: &SearchParams) -> (tags: Vec<String>)
    ensures
        views(tags@) == search_terms_of(raw_query(*params)),
{
    match &params.tags {
        Some(t) => parse_search_tags(t.as_str()),
        None => parse_search_tags(""),
    }
}

/// The statement that a search runs.
pub fn search_images(params: &SearchParams) -> (st: Statement)
    ensures
        st@ == search_statement(search_terms_of(raw_query(*params))),
{
    find_images_by_tags(search_terms(params))
}

/// The answer to a search: each image found, in order, with its URL.
pub fn format_response(images: Vec<Image>) -> (r: Reply)
    ensures
        r@ == ok_reply(
            "Success"@,
            ReplyDataView::Hits(image_views(images@).map_values(|m: ImageView| hit_of(m))),
        ),
{
    let mut hits: Vec<SearchHit> = Vec::new();
    let mut i: usize = 0;
    while i < images.len()
        invariant
            i <= images@.len(),
            hit_views(hits@) == image_views(images@.subrange(0, i as int)).map_values(
                |m: ImageView| hit_of(m),
            ),
        decreases images@.len() - i,
    {
        let img = &images[i];
        let hit = SearchHit {
            id: img.id,
            url: image_url(img.filename.as_str(), img.ext.as_str()),
            filename: img.filename.clone(),
            ext: img.ext.clone(),
        };
        let ghost before = hits@;
        hits.push(hit);
        proof {
            assert(hit_views(hits@) =~= hit_views(before).push(hit_of(images@[i as int]@)));
            assert(image_views(images@.subrange(0, i + 1)).map_values(|m: ImageView| hit_of(m))
                =~= image_views(images@.subrange(0, i as int)).map_values(
                |m: ImageView| hit_of(m),
            ).push(hit_of(images@[i as int]@)));
        }
        i = i + 1;
    }
    assert(images@.subrange(0, images@.len() as int) =~= images@);
    reply("Success", ReplyData::Hits(hits))
}

/// A search answers each image found, in the order found, with its id, its
/// file name and extension, and the public URL of its file.
pub proof fn lemma_search_hits_link_files(images: Seq<ImageView>)
    ensures
        ({
            let hits = images.map_values(|m: ImageView| hit_of(m));
            &&& hits.len() == images.len()
            &&& forall|i: int|
                0 <= i < images.len() ==> {
                    &&& (#[trigger] hits[i]).id == images[i].id
                    &&& hits[i].filename == images[i].filename
                    &&& hits[i].ext == images[i].ext
                    &&& hits[i].url == IMAGES_URL@ + images[i].filename + "."@ + images[i].ext
                }
        }),
{
}

// ---------------------------------------------------------------------------
// Tags
// ---------------------------------------------------------------------------

/// The answer to a tagging request once `tags` were added to `image_id`.
pub fn tags_added(image_id: i64, tags: Vec<String>) -> (r: Reply)
    ensures
        r@ == ok_reply("Tags added"@, (ReplyDataView::TagsAdded { image_id, tags: views(tags@) })),
{
    reply("Tags added", ReplyData::TagsAdded { image_id, tags })
}

/// A tagging request in progress: the names it tags, in order, how many of
/// them are done, and those done.
pub struct TagRequest {
    pub image_id: i64,
    pub names: Vec<String>,
    pub next: usize,
    pub added: Vec<String>,
    pub finished: bool,
}

/// The outcome of tagging the current name.
pub enum TagRequestEvent {
    Tagged,
    Failed(String),
}

/// What a tagging request asks for next.
pub enum TagRequestAction {
    /// Tag `image_id` with `name`, creating the tag if needed.
    TagName { image_id: i64, name: String },
    /// Answer the request.
    Respond(Reply),
    /// Refuse the request.
    Reject(HttpError),
}

pub struct TagRequestView {
    pub image_id: i64,
    pub names: Seq<Seq<char>>,
    pub next: int,
    pub added: Seq<Seq<char>>,
    pub finished: bool,
}

pub enum TagRequestEventView {
    Tagged,
    Failed(Seq<char>),
}

pub enum TagRequestActionView {
    TagName { image_id: i64, name: Seq<char> },
    Respond(ReplyView),
    Reject(HttpErrorView),
}

impl View for TagRequest {
    type V = TagRequestView;

    open spec fn view(&self) -> TagRequestView {
        TagRequestView {
            image_id: self.image_id,
            names: views(self.names@),
            next: self.next as int,
            added: views(self.added@),
            finished: self.finished,
        }
    }
}

impl View for TagRequestEvent {
    type V = TagRequestEventView;

    open spec fn view(&self) -> TagRequestEventView {
        match self {
            TagRequestEvent::Tagged => TagRequestEventView::Tagged,
            TagRequestEvent::Failed(m) => TagRequestEventView::Failed(m@),
        }
    }
}

impl View for TagRequestAction {
    type V = TagRequestActionView;

    open spec fn view(&self) -> TagRequestActionView {
        match self {
            TagRequestAction::TagName { image_id, name } => TagRequestActionView::TagName {
                image_id: *image_id,
                name: name@,
            },
            TagRequestAction::Respond(r) => TagRequestActionView::Respond(r@),
            TagRequestAction::Reject(e) => TagRequestActionView::Reject(e@),
        }
    }
}

/// The answer once `tags` were added to `image_id`.
pub open spec fn tags_added_reply(image_id: i64, tags: Seq<Seq<char>>) -> ReplyView {
    ok_reply("Tags added"@, ReplyDataView::TagsAdded { image_id, tags })
}

/// How a tagging request of `image_id` with the cleaned `names` starts: with
/// no name it is answered at once; else it asks to tag the first.
pub open spec fn tag_request_start(image_id: i64, names: Seq<Seq<char>>) -> (
    TagRequestView,
    TagRequestActionView,
) {
    if names.len() == 0 {
        (
            TagRequestView { image_id, names, next: 0, added: Seq::empty(), finished: true },
            TagRequestActionView::Respond(tags_added_reply(image_id, Seq::empty())),
        )
    } else {
        (
            TagRequestView { image_id, names, next: 0, added: Seq::empty(), finished: false },
            TagRequestActionView::TagName { image_id, name: names[0] },
        )
    }
}

/// Whether a tagging request at `f` waits for the outcome of a tagging.
pub open spec fn tag_request_accepts(f: TagRequestView, e: TagRequestEventView) -> bool {
    !f.finished && 0 <= f.next < f.names.len()
}

/// The next state of a tagging request and what it asks for: the first
/// failure refuses the request with 500 and its message, and no further name
/// is tagged (those tagged before stay so); once the current name is tagged,
/// the next is asked for, and after the last the request is answered with
/// all the names, in order.
pub open spec fn tag_request_next(f: TagRequestView, e: TagRequestEventView) -> (
    TagRequestView,
    TagRequestActionView,
) {
    match e {
        TagRequestEventView::Failed(m) => (
            TagRequestView { added: Seq::empty(), finished: true, ..f },
            TagRequestActionView::Reject(HttpErrorView { status: 500, message: m }),
        ),
        TagRequestEventView::Tagged => {
            let added = f.added.push(f.names[f.next]);
            let next = f.next + 1;
            if next >= f.names.len() {
                (
                    TagRequestView { next, added: Seq::empty(), finished: true, ..f },
                    TagRequestActionView::Respond(tags_added_reply(f.image_id, added)),
                )
            } else {
                (
                    TagRequestView { next, added, ..f },
                    TagRequestActionView::TagName { image_id: f.image_id, name: f.names[next] },
                )
            }
        },
    }
}

/// Starts a tagging request of `image_id`: its names are trimmed, the empty
/// ones skipped, and tagged one after the other, in order.
pub fn add_tags(image_id: i64, payload: &AddTagsRequest) -> (r: (TagRequest, TagRequestAction))
    ensures
        (r.0@, r.1@) == tag_request_start(image_id, tag_list(views(payload.tags@))),
{
    let names = clean_tag_names(&payload.tags);
    if names.len() == 0 {
        let rep = tags_added(image_id, Vec::new());
        assert(views(Seq::<String>::empty()) =~= Seq::<Seq<char>>::empty());
        let flow = TagRequest { image_id, names, next: 0, added: Vec::new(), finished: true };
        (flow, TagRequestAction::Respond(rep))
    } else {
        let name = names[0].clone();
        let flow = TagRequest { image_id, names, next: 0, added: Vec::new(), finished: false };
        assert(views(flow.added@) =~= Seq::<Seq<char>>::empty());
        (flow, TagRequestAction::TagName { image_id, name })
    }
}

impl TagRequest {
    /// Whether the request waits for the outcome of a tagging.
    pub fn accepts(&self, e: &TagRequestEvent) -> (b: bool)
        ensures
            b == tag_request_accepts(self@, e@),
    {
        !self.finished && self.next < self.names.len()
    }

    /// Takes in the outcome of tagging the current name.
    pub fn step(self, e: TagRequestEvent) -> (r: (TagRequest, TagRequestAction))
        requires
            tag_request_accepts(self@, e@),
        ensures
            (r.0@, r.1@) == tag_request_next(self@, e@),
    {
        let ghost before = self@;
        let TagRequest { image_id, names, next, added, finished } = self;
        assert(before.names.len() == names@.len());
        assert(next < names.len());
        match e {
            TagRequestEvent::Failed(m) => {
                let flow = TagRequest { image_id, names, next, added: Vec::new(), finished: true };
                assert(views(flow.added@) =~= Seq::<Seq<char>>::empty());
                (flow, TagRequestAction::Reject(http_error(500, m)))
            },
            TagRequestEvent::Tagged => {
                let mut added = added;
                let done = names[next].clone();
                proof { lemma_views_push(added@, done); }
                added.push(done);
                let next = next + 1;
                if next >= names.len() {
                    let rep = tags_added(image_id, added);
                    let flow = TagRequest { image_id, names, next, added: Vec::new(), finished: true };
                    assert(views(flow.added@) =~= Seq::<Seq<char>>::empty());
                    (flow, TagRequestAction::Respond(rep))
                } else {
                    let name = names[next].clone();
                    (
                        TagRequest { image_id, names, next, added, finished: false },
                        TagRequestAction::TagName { image_id, name },
                    )
                }
            },
        }
    }
}

/// The actions of a tagging request that starts at `f` and receives `evs`,
/// up to the first event that it cannot receive.
pub open spec fn tag_request_run(f: TagRequestView, evs: Seq<TagRequestEventView>) -> Seq<
    TagRequestActionView,
>
    decreases evs.len(),
{
    if evs.len() == 0 || !tag_request_accepts(f, evs[0]) {
        Seq::empty()
    } else {
        let (g, a) = tag_request_next(f, evs[0]);
        seq![a] + tag_request_run(g, evs.drop_first())
    }
}

/// All the actions of a tagging request of `image_id` with the cleaned
/// `names` that receives `evs`: the first one, then those of its run.
pub open spec fn tag_request_actions(
    image_id: i64,
    names: Seq<Seq<char>>,
    evs: Seq<TagRequestEventView>,
) -> Seq<TagRequestActionView> {
    let (f, a) = tag_request_start(image_id, names);
    seq![a] + tag_request_run(f, evs)
}

/// `k` taggings that succeed.
pub open spec fn tagged_times(k: nat) -> Seq<TagRequestEventView> {
    Seq::new(k, |i: int| TagRequestEventView::Tagged)
}

/// The requests to tag `image_id` with `count` names from index `from` on.
pub open spec fn tag_name_requests(
    image_id: i64,
    names: Seq<Seq<char>>,
    from: int,
    count: nat,
) -> Seq<TagRequestActionView> {
    Seq::new(count, |i: int| TagRequestActionView::TagName { image_id, name: names[from + i] })
}

/// A tagging request that has tagged the first `j` names.
pub open spec fn tag_request_at(image_id: i64, names: Seq<Seq<char>>, j: int) -> TagRequestView {
    TagRequestView { image_id, names, next: j, added: names.take(j), finished: false }
}

proof fn lemma_tag_request_fails_from(
    image_id: i64,
    names: Seq<Seq<char>>,
    j: int,
    k: int,
    m: Seq<char>,
)
    requires
        0 <= j <= k < names.len(),
    ensures
        tag_request_run(
            tag_request_at(image_id, names, j),
            tagged_times((k - j) as nat).push(TagRequestEventView::Failed(m)),
        ) == tag_name_requests(image_id, names, j + 1, (k - j) as nat).push(
            TagRequestActionView::Reject(HttpErrorView { status: 500, message: m }),
        ),
    decreases k - j,
{
    let f = tag_request_at(image_id, names, j);
    let evs = tagged_times((k - j) as nat).push(TagRequestEventView::Failed(m));
    let reject = TagRequestActionView::Reject(HttpErrorView { status: 500, message: m });
    if k == j {
        let (g, a) = tag_request_next(f, evs[0]);
        assert(evs.drop_first() =~= Seq::<TagRequestEventView>::empty());
        assert(tag_request_run(g, evs.drop_first()) == Seq::<TagRequestActionView>::empty());
        assert(tag_request_run(f, evs) == seq![a] + tag_request_run(g, evs.drop_first()));
        assert(tag_request_run(f, evs) =~= seq![a]);
        assert(tag_name_requests(image_id, names, j + 1, 0).push(reject) =~= seq![reject]);
    } else {
        assert(evs[0] == TagRequestEventView::Tagged);
        let (g, a) = tag_request_next(f, evs[0]);
        assert(names.take(j).push(names[j]) =~= names.take(j + 1));
        assert(g == tag_request_at(image_id, names, j + 1));
        assert(evs.drop_first() =~= tagged_times((k - j - 1) as nat).push(
            TagRequestEventView::Failed(m),
        ));
        lemma_tag_request_fails_from(image_id, names, j + 1, k, m);
        assert(tag_request_run(f, evs) == seq![a] + tag_request_run(g, evs.drop_first()));
        assert(seq![a] + tag_name_requests(image_id, names, j + 2, (k - j - 1) as nat).push(reject)
            =~= tag_name_requests(image_id, names, j + 1, (k - j) as nat).push(reject));
    }
}

proof fn lemma_tag_request_succeeds_from(image_id: i64, names: Seq<Seq<char>>, j: int)
    requires
        0 <= j < names.len(),
    ensures
        tag_request_run(
            tag_request_at(image_id, names, j),
            tagged_times((names.len() - j) as nat),
        ) == tag_name_requests(image_id, names, j + 1, (names.len() - j - 1) as nat).push(
            TagRequestActionView::Respond(tags_added_reply(image_id, names)),
        ),
    decreases names.len() - j,
{
    let f = tag_request_at(image_id, names, j);
    let evs = tagged_times((names.len() - j) as nat);
    let respond = TagRequestActionView::Respond(tags_added_reply(image_id, names));
    assert(evs[0] == TagRequestEventView::Tagged);
    let (g, a) = tag_request_next(f, evs[0]);
    assert(names.take(j).push(names[j]) =~= names.take(j + 1));
    if j == names.len() - 1 {
        assert(names.take(j + 1) =~= names);
        assert(a == respond);
        assert(evs.drop_first() =~= Seq::<TagRequestEventView>::empty());
        assert(tag_request_run(g, evs.drop_first()) == Seq::<TagRequestActionView>::empty());
        assert(tag_request_run(f, evs) == seq![a] + tag_request_run(g, evs.drop_first()));
        assert(tag_request_run(f, evs) =~= seq![a]);
        assert(tag_name_requests(image_id, names, j + 1, 0).push(respond) =~= seq![respond]);
    } else {
        assert(g == tag_request_at(image_id, names, j + 1));
        assert(evs.drop_first() =~= tagged_times((names.len() - j - 1) as nat));
        lemma_tag_request_succeeds_from(image_id, names, j + 1);
        assert(tag_request_run(f, evs) == seq![a] + tag_request_run(g, evs.drop_first()));
        assert(seq![a] + tag_name_requests(image_id, names, j + 2, (names.len() - j - 2) as nat).push(
            respond,
        ) =~= tag_name_requests(image_id, names, j + 1, (names.len() - j - 1) as nat).push(
            respond,
        ));
    }
}

/// A tagging request tags its names one after the other, in order, and
/// stops at the first failure: if the first `k` taggings succeed and the next
/// fails with `m`, it has asked for exactly the first `k + 1` names, asks for
/// nothing more (nor for anything to be undone) and is refused with 500 and
/// `m`.
pub proof fn lemma_tag_request_stops_at_failure(
    image_id: i64,
    names: Seq<Seq<char>>,
    k: nat,
    m: Seq<char>,
)
    requires
        k < names.len(),
    ensures
        tag_request_actions(image_id, names, tagged_times(k).push(TagRequestEventView::Failed(m)))
            == tag_name_requests(image_id, names, 0, k + 1).push(
            TagRequestActionView::Reject(HttpErrorView { status: 500, message: m }),
        ),
{
    let reject = TagRequestActionView::Reject(HttpErrorView { status: 500, message: m });
    assert(names.take(0) =~= Seq::<Seq<char>>::empty());
    assert(tag_request_start(image_id, names).0 == tag_request_at(image_id, names, 0));
    lemma_tag_request_fails_from(image_id, names, 0, k as int, m);
    assert(seq![tag_request_start(image_id, names).1] + tag_name_requests(
        image_id,
        names,
        1,
        k,
    ).push(reject) =~= tag_name_requests(image_id, names, 0, k + 1).push(reject));
}

/// A tagging request whose taggings all succeed asks for every name once, in
/// order, and is answered with all of them.
pub proof fn lemma_tag_request_tags_all(image_id: i64, names: Seq<Seq<char>>)
    requires
        names.len() > 0,
    ensures
        tag_request_actions(image_id, names, tagged_times(names.len())) == tag_name_requests(
            image_id,
            names,
            0,
            names.len(),
        ).push(TagRequestActionView::Respond(tags_added_reply(image_id, names))),
{
    let respond = TagRequestActionView::Respond(tags_added_reply(image_id, names));
    assert(names.take(0) =~= Seq::<Seq<char>>::empty());
    assert(tag_request_start(image_id, names).0 == tag_request_at(image_id, names, 0));
    lemma_tag_request_succeeds_from(image_id, names, 0);
    assert(seq![tag_request_start(image_id, names).1] + tag_name_requests(
        image_id,
        names,
        1,
        (names.len() - 1) as nat,
    ).push(respond) =~= tag_name_requests(image_id, names, 0, names.len()).push(respond));
}

/// The answer that lists the tags of an image.
pub fn get_image_tags(tags: Vec<Tag>) -> (r: Reply)
    ensures
        r@ == ok_reply("Success"@, ReplyDataView::Tags(tag_views(tags@))),
{
    reply("Success", ReplyData::Tags(tags))
}

/// The answer that lists every tag.
pub fn list_tags(tags: Vec<Tag>) -> (r: Reply)
    ensures
        r@ == ok_reply("Success"@, ReplyDataView::Tags(tag_views(tags@))),
{
    reply("Success", ReplyData::Tags(tags))
}

/// The answer to a deletion that succeeded.
pub fn delete_image() -> (r: Reply)
    ensures
        r@ == ok_reply("Deleted successfully"@, ReplyDataView::Empty),
{
    reply("Deleted successfully", ReplyData::Empty)
}

/// A failure of the database or of the file system, as the client sees it.
pub fn server_error(message: String) -> (e: HttpError)
    ensures
        e@ == (HttpErrorView { status: 500, message: message@ }),
{
    http_error(500, message)
}

// ---------------------------------------------------------------------------
// Upload
// ---------------------------------------------------------------------------

/// Where an upload stands: which outcome it waits for.
#[derive(PartialEq, Eq, Structural, Clone, Copy)]
pub enum UploadStage {
    SeekingFile,
    Reading,
    LookingUp,
    Writing,
    Recording,
    Finished,
}

/// An upload in progress: the content name and extension of the file once
/// known, and its bytes until they are written.
pub struct UploadFlow {
    pub stage: UploadStage,
    pub name: String,
    pub ext: String,
    pub data: Vec<u8>,
}

/// What the server reports to an upload.
pub enum UploadEvent {
    /// The next multipart field: its name and its file name, if any.
    Field { name: Option<String>, file_name: Option<String> },
    /// There is no further field.
    NoMoreFields,
    /// The bytes of the field being read.
    Bytes(Vec<u8>),
    /// The image that the lookup found, if any.
    Found(Option<Image>),
    /// The file was written.
    Written,
    /// The image was recorded under this id.
    Inserted(i64),
    /// The step failed with this message.
    Failed(String),
}

/// What an upload asks for next.
pub enum UploadAction {
    /// Report the next multipart field.
    NextField,
    /// Read the bytes of the current field.
    ReadField,
    /// Run the statement, which yields at most one image.
    FetchImage(Statement),
    /// Create the file at `path` and write `data` to it.
    WriteFile { path: String, data: Vec<u8> },
    /// Run the statement and report the id of the new row.
    Insert(Statement),
    /// Answer the request.
    Respond(Reply),
    /// Refuse the request.
    Reject(HttpError),
}

pub struct UploadFlowView {
    pub stage: UploadStage,
    pub name: Seq<char>,
    pub ext: Seq<char>,
    pub data: Seq<u8>,
}

pub enum UploadEventView {
    Field { name: Option<Seq<char>>, file_name: Option<Seq<char>> },
    NoMoreFields,
    Bytes(Seq<u8>),
    Found(Option<ImageView>),
    Written,
    Inserted(i64),
    Failed(Seq<char>),
}

pub enum UploadActionView {
    NextField,
    ReadField,
    FetchImage(StatementView),
    WriteFile { path: Seq<char>, data: Seq<u8> },
    Insert(StatementView),
    Respond(ReplyView),
    Reject(HttpErrorView),
}

/// The character view of an optional string.
pub open spec fn opt_view(s: Option<String>) -> Option<Seq<char>> {
    match s {
        Some(t) => Some(t@),
        None => None,
    }
}

impl View for UploadFlow {
    type V = UploadFlowView;

    open spec fn view(&self) -> UploadFlowView {
        UploadFlowView { stage: self.stage, name: self.name@, ext: self.ext@, data: self.data@ }
    }
}

impl View for UploadEvent {
    type V = UploadEventView;

    open spec fn view(&self) -> UploadEventView {
        match self {
            UploadEvent::Field { name, file_name } => UploadEventView::Field {
                name: opt_view(*name),
                file_name: opt_view(*file_name),
            },
            UploadEvent::NoMoreFields => UploadEventView::NoMoreFields,
            UploadEvent::Bytes(d) => UploadEventView::Bytes(d@),
            UploadEvent::Found(Some(img)) => UploadEventView::Found(Some(img@)),
            UploadEvent::Found(None) => UploadEventView::Found(None),
            UploadEvent::Written => UploadEventView::Written,
            UploadEvent::Inserted(id) => UploadEventView::Inserted(*id),
            UploadEvent::Failed(m) => UploadEventView::Failed(m@),
        }
    }
}

impl View for UploadAction {
    type V = UploadActionView;

    open spec fn view(&self) -> UploadActionView {
        match self {
            UploadAction::NextField => UploadActionView::NextField,
            UploadAction::ReadField => UploadActionView::ReadField,
            UploadAction::FetchImage(st) => UploadActionView::FetchImage(st@),
            UploadAction::WriteFile { path, data } => UploadActionView::WriteFile {
                path: path@,
                data: data@,
            },
            UploadAction::Insert(st) => UploadActionView::Insert(st@),
            UploadAction::Respond(r) => UploadActionView::Respond(r@),
            UploadAction::Reject(e) => UploadActionView::Reject(e@),
        }
    }
}

/// An upload that has ended.
pub open spec fn upload_finished() -> UploadFlowView {
    UploadFlowView {
        stage: UploadStage::Finished,
        name: Seq::empty(),
        ext: Seq::empty(),
        data: Seq::empty(),
    }
}

/// The answer to an upload whose content was already stored.
pub open spec fn existing_reply(img: ImageView) -> ReplyView {
    ok_reply("Image exists (deduplicated)"@, ReplyDataView::Image(img))
}

/// The answer to an upload that stored new content.
pub open spec fn stored_reply(id: i64, name: Seq<char>, ext: Seq<char>) -> ReplyView {
    ok_reply("Upload success"@, ReplyDataView::Image(ImageView { id, filename: name, ext }))
}

/// Whether an upload at `f` can receive `e`: a failure at any stage but the
/// last, else the outcome of what it asked for.
pub open spec fn upload_accepts(f: UploadFlowView, e: UploadEventView) -> bool {
    match e {
        UploadEventView::Failed(_) => f.stage != UploadStage::Finished,
        UploadEventView::Field { .. } => f.stage == UploadStage::SeekingFile,
        UploadEventView::NoMoreFields => f.stage == UploadStage::SeekingFile,
        UploadEventView::Bytes(_) => f.stage == UploadStage::Reading,
        UploadEventView::Found(_) => f.stage == UploadStage::LookingUp,
        UploadEventView::Written => f.stage == UploadStage::Writing,
        UploadEventView::Inserted(_) => f.stage == UploadStage::Recording,
    }
}

/// The next state of an upload and what it asks for. Fields other than
/// `file` are skipped; without one the request is refused with 400. The
/// bytes of `file` are named by their SHA-256 digest in hex, the extension
/// taken from the field's file name. If an image of that name exists it is
/// the answer, and nothing is written or recorded. Else the bytes are written
/// to `storage/<name>.<ext>`, then recorded, and the new row is the answer.
/// A failure while reading the fields is refused with 400, any later one
/// with 500.
pub open spec fn upload_next(f: UploadFlowView, e: UploadEventView) -> (
    UploadFlowView,
    UploadActionView,
) {
    match e {
        UploadEventView::Failed(m) => (
            upload_finished(),
            UploadActionView::Reject(
                HttpErrorView {
                    status: if f.stage == UploadStage::SeekingFile {
                        400u16
                    } else {
                        500u16
                    },
                    message: m,
                },
            ),
        ),
        UploadEventView::NoMoreFields => (
            upload_finished(),
            UploadActionView::Reject(
                HttpErrorView { status: 400, message: "Missing 'file' field"@ },
            ),
        ),
        UploadEventView::Field { name, file_name } => if name == Some("file"@) {
            (
                UploadFlowView {
                    stage: UploadStage::Reading,
                    ext: upload_extension_of(file_name),
                    ..f
                },
                UploadActionView::ReadField,
            )
        } else {
            (f, UploadActionView::NextField)
        },
        UploadEventView::Bytes(d) => (
            UploadFlowView {
                stage: UploadStage::LookingUp,
                name: content_name_of(d),
                data: d,
                ..f
            },
            UploadActionView::FetchImage(
                with_one(IMAGE_BY_FILENAME@, ValueView::Text(content_name_of(d))),
            ),
        ),
        UploadEventView::Found(Some(img)) => (
            upload_finished(),
            UploadActionView::Respond(existing_reply(img)),
        ),
        UploadEventView::Found(None) => (
            UploadFlowView { stage: UploadStage::Writing, data: Seq::empty(), ..f },
            UploadActionView::WriteFile { path: storage_path_of(f.name, f.ext), data: f.data },
        ),
        UploadEventView::Written => (
            UploadFlowView { stage: UploadStage::Recording, ..f },
            UploadActionView::Insert(
                with_two(INSERT_IMAGE@, ValueView::Text(f.name), ValueView::Text(f.ext)),
            ),
        ),
        UploadEventView::Inserted(id) => (
            upload_finished(),
            UploadActionView::Respond(stored_reply(id, f.name, f.ext)),
        ),
    }
}

/// The initial state of an upload.
pub open spec fn upload_start() -> UploadFlowView {
    UploadFlowView {
        stage: UploadStage::SeekingFile,
        name: Seq::empty(),
        ext: Seq::empty(),
        data: Seq::empty(),
    }
}

fn finished_upload() -> (f: UploadFlow)
    ensures
        f@ == upload_finished(),
{
    UploadFlow { stage: UploadStage::Finished, name: String::new(), ext: String::new(), data: Vec::new() }
}

/// Starts an upload: it asks for the first multipart field.
pub fn upload_image() -> (r: (UploadFlow, UploadAction))
    ensures
        r.0@ == upload_start(),
        r.1@ == UploadActionView::NextField,
{
    let flow = UploadFlow {
        stage: UploadStage::SeekingFile,
        name: String::new(),
        ext: String::new(),
        data: Vec::new(),
    };
    (flow, UploadAction::NextField)
}

impl UploadFlow {
    /// Whether the flow can receive `e` now.
    pub fn accepts(&self, e: &UploadEvent) -> (b: bool)
        ensures
            b == upload_accepts(self@, e@),
    {
        match e {
            UploadEvent::Failed(_) => self.stage != UploadStage::Finished,
            UploadEvent::Field { .. } => self.stage == UploadStage::SeekingFile,
            UploadEvent::NoMoreFields => self.stage == UploadStage::SeekingFile,
            UploadEvent::Bytes(_) => self.stage == UploadStage::Reading,
            UploadEvent::Found(_) => self.stage == UploadStage::LookingUp,
            UploadEvent::Written => self.stage == UploadStage::Writing,
            UploadEvent::Inserted(_) => self.stage == UploadStage::Recording,
        }
    }

    /// Takes in what the server reports.
    pub fn step(self, e: UploadEvent) -> (r: (UploadFlow, UploadAction))
        requires
            upload_accepts(self@, e@),
        ensures
            (r.0@, r.1@) == upload_next(self@, e@),
    {
        let UploadFlow { stage, name, ext, data } = self;
        match e {
            UploadEvent::Failed(m) => {
                let status: u16 = if stage == UploadStage::SeekingFile {
                    400
                } else {
                    500
                };
                (finished_upload(), UploadAction::Reject(http_error(status, m)))
            },
            UploadEvent::NoMoreFields => (
                finished_upload(),
                UploadAction::Reject(http_error(400, "Missing 'file' field".to_owned())),
            ),
            UploadEvent::Field { name: field_name, file_name } => {
                let is_file = match &field_name {
                    Some(n) => same_text(n.as_str(), "file"),
                    None => false,
                };
                if is_file {
                    let new_ext = match &file_name {
                        Some(n) => upload_extension(Some(n.as_str())),
                        None => upload_extension(None),
                    };
                    (UploadFlow { stage: UploadStage::Reading, name, ext: new_ext, data }, UploadAction::ReadField)
                } else {
                    (UploadFlow { stage, name, ext, data }, UploadAction::NextField)
                }
            },
            UploadEvent::Bytes(bytes) => {
                let hash = content_hash(bytes.as_slice());
                let st = find_image_by_hash(hash.as_str());
                (
                    UploadFlow { stage: UploadStage::LookingUp, name: hash, ext, data: bytes },
                    UploadAction::FetchImage(st),
                )
            },
            UploadEvent::Found(Some(img)) => (
                finished_upload(),
                UploadAction::Respond(reply("Image exists (deduplicated)", ReplyData::Image(img))),
            ),
            UploadEvent::Found(None) => {
                let path = storage_path(name.as_str(), ext.as_str());
                (
                    UploadFlow { stage: UploadStage::Writing, name, ext, data: Vec::new() },
                    UploadAction::WriteFile { path, data },
                )
            },
            UploadEvent::Written => {
                let st = create_image(name.as_str(), ext.as_str());
                (UploadFlow { stage: UploadStage::Recording, name, ext, data }, UploadAction::Insert(st))
            },
            UploadEvent::Inserted(id) => {
                let img = Image { id, filename: name, ext };
                (finished_upload(), UploadAction::Respond(reply("Upload success", ReplyData::Image(img))))
            },
        }
    }
}

// ---------------------------------------------------------------------------
// What every run of an upload does
// ---------------------------------------------------------------------------

/// The actions of an upload that starts at `f` and receives `evs`, up to the
/// first event that it cannot receive.
pub open spec fn upload_run(f: UploadFlowView, evs: Seq<UploadEventView>) -> Seq<UploadActionView>
    decreases evs.len(),
{
    if evs.len() == 0 || !upload_accepts(f, evs[0]) {
        Seq::empty()
    } else {
        let (g, a) = upload_next(f, evs[0]);
        seq![a] + upload_run(g, evs.drop_first())
    }
}

/// How far an upload has come.
pub open spec fn upload_rank(s: UploadStage) -> int {
    match s {
        UploadStage::SeekingFile => 0,
        UploadStage::Reading => 1,
        UploadStage::LookingUp => 2,
        UploadStage::Writing => 3,
        UploadStage::Recording => 4,
        UploadStage::Finished => 5,
    }
}

proof fn lemma_upload_finished_run(evs: Seq<UploadEventView>)
    ensures
        upload_run(upload_finished(), evs) == Seq::<UploadActionView>::empty(),
{
}

proof fn lemma_upload_run_unfold(f: UploadFlowView, evs: Seq<UploadEventView>)
    requires
        evs.len() > 0,
        upload_accepts(f, evs[0]),
    ensures
        upload_run(f, evs) == seq![upload_next(f, evs[0]).1] + upload_run(
            upload_next(f, evs[0]).0,
            evs.drop_first(),
        ),
{
}

proof fn lemma_upload_run_len(f: UploadFlowView, evs: Seq<UploadEventView>)
    ensures
        upload_run(f, evs).len() <= evs.len(),
    decreases evs.len(),
{
    if evs.len() > 0 && upload_accepts(f, evs[0]) {
        lemma_upload_run_len(upload_next(f, evs[0]).0, evs.drop_first());
    }
}

proof fn lemma_upload_no_lookup_after(f: UploadFlowView, evs: Seq<UploadEventView>)
    requires
        upload_rank(f.stage) > 2,
    ensures
        forall|k: int| 0 <= k < upload_run(f, evs).len() ==> !(evs[k] is Found),
        upload_run(f, evs).len() <= evs.len(),
    decreases evs.len(),
{
    if evs.len() > 0 && upload_accepts(f, evs[0]) {
        let (g, a) = upload_next(f, evs[0]);
        lemma_upload_no_lookup_after(g, evs.drop_first());
        assert forall|k: int| 0 <= k < upload_run(f, evs).len() implies !(evs[k] is Found) by {
            if k > 0 {
                assert(evs[k] == evs.drop_first()[k - 1]);
            }
        }
    }
}

/// Deduplication: in a run of an upload, once the lookup finds an image of
/// the same content, that image is the answer, and the run has written no
/// file and recorded no row, nor does it afterwards.
pub proof fn lemma_upload_reuses_existing(evs: Seq<UploadEventView>, k: int, img: ImageView)
    requires
        0 <= k < upload_run(upload_start(), evs).len(),
        evs[k] == UploadEventView::Found(Some(img)),
    ensures
        upload_run(upload_start(), evs).len() == k + 1,
        upload_run(upload_start(), evs)[k] == UploadActionView::Respond(existing_reply(img)),
        forall|j: int|
            0 <= j <= k ==> !(#[trigger] upload_run(upload_start(), evs)[j] is WriteFile) && !(
            upload_run(upload_start(), evs)[j] is Insert),
{
    lemma_upload_reuses_existing_from(upload_start(), evs, k, img);
}

proof fn lemma_upload_reuses_existing_from(
    f: UploadFlowView,
    evs: Seq<UploadEventView>,
    k: int,
    img: ImageView,
)
    requires
        upload_rank(f.stage) <= 2,
        0 <= k < upload_run(f, evs).len(),
        evs[k] == UploadEventView::Found(Some(img)),
    ensures
        upload_run(f, evs).len() == k + 1,
        upload_run(f, evs)[k] == UploadActionView::Respond(existing_reply(img)),
        forall|j: int|
            0 <= j <= k ==> !(#[trigger] upload_run(f, evs)[j] is WriteFile) && !(upload_run(
                f,
                evs,
            )[j] is Insert),
    decreases evs.len(),
{
    let (g, a) = upload_next(f, evs[0]);
    let tail = evs.drop_first();
    lemma_upload_run_len(f, evs);
    lemma_upload_run_unfold(f, evs);
    if k == 0 {
        lemma_upload_finished_run(tail);
    } else {
        assert(tail[k - 1] == evs[k]);
        if upload_rank(g.stage) > 2 {
            lemma_upload_no_lookup_after(g, tail);
        } else {
            lemma_upload_reuses_existing_from(g, tail, k - 1, img);
            assert forall|j: int| 0 <= j <= k implies !(#[trigger] upload_run(f, evs)[j] is WriteFile)
                && !(upload_run(f, evs)[j] is Insert) by {
                if j > 0 {
                    assert(upload_run(f, evs)[j] == upload_run(g, tail)[j - 1]);
                }
            }
        }
    }
}

/// What an upload step can end in: a failure ends the upload, refused with
/// 400 while the fields are read and 500 after, with the failure's message;
/// a file is written only once the lookup found no image of its content; a
/// row is inserted only once the file was reported written; the upload is
/// answered only with the image found or with the row just inserted.
pub proof fn lemma_upload_step_outcomes(f: UploadFlowView, e: UploadEventView)
    requires
        upload_accepts(f, e),
    ensures
        ({
            let (g, a) = upload_next(f, e);
            &&& (e matches UploadEventView::Failed(m) ==> g == upload_finished() && a
                == UploadActionView::Reject(
                HttpErrorView {
                    status: if f.stage == UploadStage::SeekingFile {
                        400u16
                    } else {
                        500u16
                    },
                    message: m,
                },
            ))
            &&& (a is WriteFile ==> f.stage == UploadStage::LookingUp && e
                == UploadEventView::Found(None))
            &&& (e == UploadEventView::Found(None) ==> a == (UploadActionView::WriteFile {
                path: "storage/"@ + f.name + "."@ + f.ext,
                data: f.data,
            }))
            &&& (e matches UploadEventView::Bytes(d) ==> g.name == hex_lower(sha256_of(d))
                && g.data == d && a == UploadActionView::FetchImage(
                with_one(IMAGE_BY_FILENAME@, ValueView::Text(hex_lower(sha256_of(d)))),
            ))
            &&& (a is Insert ==> f.stage == UploadStage::Writing && e == UploadEventView::Written)
            &&& (e == UploadEventView::Written ==> a == UploadActionView::Insert(
                with_two(INSERT_IMAGE@, ValueView::Text(f.name), ValueView::Text(f.ext)),
            ))
            &&& (a matches UploadActionView::Respond(r) ==> {
                ||| e matches UploadEventView::Found(Some(img)) && r == (ReplyView {
                    code: 200,
                    msg: "Image exists (deduplicated)"@,
                    data: ReplyDataView::Image(img),
                })
                ||| e matches UploadEventView::Inserted(id) && f.stage == UploadStage::Recording
                    && r == (ReplyView {
                    code: 200,
                    msg: "Upload success"@,
                    data: ReplyDataView::Image(ImageView { id, filename: f.name, ext: f.ext }),
                })
            })
            &&& (a is Reject ==> g == upload_finished())
        }),
{
}

/// Each action of an upload's run is what the upload makes, at the stage it
/// has then reached, of the event at the same place.
proof fn lemma_upload_run_answers(f: UploadFlowView, evs: Seq<UploadEventView>, k: int)
    requires
        0 <= k < upload_run(f, evs).len(),
    ensures
        exists|g: UploadFlowView|
            upload_accepts(g, evs[k]) && upload_run(f, evs)[k] == #[trigger] upload_next(
                g,
                evs[k],
            ).1,
    decreases evs.len(),
{
    lemma_upload_run_len(f, evs);
    lemma_upload_run_unfold(f, evs);
    if k > 0 {
        let (g, a) = upload_next(f, evs[0]);
        let tail = evs.drop_first();
        lemma_upload_run_answers(g, tail, k - 1);
        assert(tail[k - 1] == evs[k]);
        assert(upload_run(f, evs)[k] == upload_run(g, tail)[k - 1]);
    }
}

/// In every run of an upload, a row is inserted only right after the file
/// was reported written, and a failure to write it ends the upload with a
/// 500 refusal: nothing is recorded for a file that was not stored.
pub proof fn lemma_upload_inserts_only_written_files(evs: Seq<UploadEventView>, k: int)
    requires
        0 <= k < upload_run(upload_start(), evs).len(),
    ensures
        upload_run(upload_start(), evs)[k] is Insert ==> evs[k] == UploadEventView::Written,
        upload_run(upload_start(), evs)[k] is WriteFile ==> evs[k] == UploadEventView::Found(None),
        evs[k] matches UploadEventView::Failed(m) ==> upload_run(upload_start(), evs)[k] is Reject
            && k == upload_run(upload_start(), evs).len() - 1,
{
    let run = upload_run(upload_start(), evs);
    lemma_upload_run_answers(upload_start(), evs, k);
    let g = choose|g: UploadFlowView|
        upload_accepts(g, evs[k]) && run[k] == #[trigger] upload_next(g, evs[k]).1;
    lemma_upload_step_outcomes(g, evs[k]);
    if evs[k] is Failed {
        lemma_upload_run_ends_after_reject(upload_start(), evs, k);
    }
}

proof fn lemma_upload_run_ends_after_reject(f: UploadFlowView, evs: Seq<UploadEventView>, k: int)
    requires
        0 <= k < upload_run(f, evs).len(),
        upload_run(f, evs)[k] is Reject || evs[k] is Failed,
    ensures
        k == upload_run(f, evs).len() - 1,
        upload_run(f, evs)[k] is Reject,
    decreases evs.len(),
{
    lemma_upload_run_len(f, evs);
    lemma_upload_run_unfold(f, evs);
    let (g, a) = upload_next(f, evs[0]);
    let tail = evs.drop_first();
    if k == 0 {
        lemma_upload_step_outcomes(f, evs[0]);
        lemma_upload_finished_run(tail);
    } else {
        assert(tail[k - 1] == evs[k]);
        assert(upload_run(f, evs)[k] == upload_run(g, tail)[k - 1]);
        lemma_upload_run_ends_after_reject(g, tail, k - 1);
    }
}

/// What an upload knows at each stage: the extension is that of a name the
/// client gave, and, while looking up, the name is that of the bytes held.
pub open spec fn upload_invariant(f: UploadFlowView) -> bool {
    &&& upload_rank(f.stage) >= 1 && upload_rank(f.stage) <= 4 ==> exists|fname: Option<Seq<char>>|
        f.ext == upload_extension_of(fname)
    &&& f.stage == UploadStage::LookingUp ==> f.name == content_name_of(f.data)
}

/// The storage and the record of an upload agree: a file is written at
/// `storage/<name>.<ext>`, where `name` is the digest of the very bytes
/// written and `ext` the extension of a name the client gave; a row is
/// recorded only right after that, and it names that same file.
pub open spec fn upload_stores_named_content(run: Seq<UploadActionView>) -> bool {
    forall|k: int|
        0 <= k < run.len() ==> {
            &&& (#[trigger] run[k] matches UploadActionView::WriteFile { path, data } ==> exists|
                fname: Option<Seq<char>>,
            | path == storage_path_of(content_name_of(data), upload_extension_of(fname)))
            &&& (run[k] matches UploadActionView::Insert(st) ==> k > 0 && exists|
                fname: Option<Seq<char>>,
                data: Seq<u8>,
            |
                {
                    &&& run[k - 1] == UploadActionView::WriteFile {
                        path: storage_path_of(content_name_of(data), upload_extension_of(fname)),
                        data,
                    }
                    &&& st == with_two(
                        INSERT_IMAGE@,
                        ValueView::Text(content_name_of(data)),
                        ValueView::Text(upload_extension_of(fname)),
                    )
                })
        }
}

/// Every run of an upload stores content under its digest and records
/// exactly the file it wrote.
pub proof fn lemma_upload_records_what_it_writes(evs: Seq<UploadEventView>)
    ensures
        upload_stores_named_content(upload_run(upload_start(), evs)),
{
    lemma_upload_records_from(upload_start(), evs);
}

proof fn lemma_upload_records_from(f: UploadFlowView, evs: Seq<UploadEventView>)
    requires
        upload_invariant(f),
        f.stage != UploadStage::Writing,
        f.stage != UploadStage::Recording,
    ensures
        upload_stores_named_content(upload_run(f, evs)),
    decreases evs.len(),
{
    let run = upload_run(f, evs);
    if evs.len() == 0 || !upload_accepts(f, evs[0]) {
        return;
    }
    let (g, a) = upload_next(f, evs[0]);
    let tail = evs.drop_first();
    lemma_upload_run_unfold(f, evs);
    if g.stage != UploadStage::Writing {
        assert(g.stage != UploadStage::Recording);
        if let UploadEventView::Field { name, file_name } = evs[0] {
            if name == Some("file"@) {
                assert(g.ext == upload_extension_of(file_name));
            }
        }
        assert(upload_invariant(g));
        lemma_upload_records_from(g, tail);
        let rest = upload_run(g, tail);
        assert forall|k: int| 0 <= k < run.len() implies {
            &&& (#[trigger] run[k] matches UploadActionView::WriteFile { path, data } ==> exists|
                fname: Option<Seq<char>>,
            | path == storage_path_of(content_name_of(data), upload_extension_of(fname)))
            &&& (run[k] matches UploadActionView::Insert(st) ==> k > 0 && exists|
                fname: Option<Seq<char>>,
                data: Seq<u8>,
            |
                {
                    &&& run[k - 1] == UploadActionView::WriteFile {
                        path: storage_path_of(content_name_of(data), upload_extension_of(fname)),
                        data,
                    }
                    &&& st == with_two(
                        INSERT_IMAGE@,
                        ValueView::Text(content_name_of(data)),
                        ValueView::Text(upload_extension_of(fname)),
                    )
                })
        } by {
            if k > 0 {
                assert(run[k] == rest[k - 1]);
                if k > 1 {
                    assert(run[k - 1] == rest[k - 2]);
                }
            }
        }
    } else {
        // The lookup found nothing: the file is written, then recorded.
        let fname = choose|fname: Option<Seq<char>>| f.ext == upload_extension_of(fname);
        let data = f.data;
        assert(a == UploadActionView::WriteFile {
            path: storage_path_of(content_name_of(data), upload_extension_of(fname)),
            data,
        });
        let rest = upload_run(g, tail);
        if tail.len() > 0 && upload_accepts(g, tail[0]) {
            let (h, b) = upload_next(g, tail[0]);
            let tail2 = tail.drop_first();
            lemma_upload_run_unfold(g, tail);
            if tail2.len() > 0 && upload_accepts(h, tail2[0]) {
                let (i, c) = upload_next(h, tail2[0]);
                lemma_upload_run_unfold(h, tail2);
                lemma_upload_finished_run(tail2.drop_first());
                assert(run =~= seq![a, b, c]);
            } else {
                assert(run =~= seq![a, b]);
            }
        } else {
            assert(run =~= seq![a]);
        }
    }
}

/// The file that an upload writes is the one that deleting the row it
/// records removes: the row names the file by its digest and extension, and
/// a deletion removes `storage/<filename>.<ext>` of the row it finds.
pub proof fn lemma_delete_finds_uploaded_file(f: UploadFlowView, id: i64, d: DeleteFlowView)
    requires
        f.stage == UploadStage::LookingUp,
        d.stage == DeleteStage::Finding,
    ensures
        ({
            let (f1, write) = upload_next(f, UploadEventView::Found(None));
            let (f2, record) = upload_next(f1, UploadEventView::Written);
            let row = ImageView { id, filename: f.name, ext: f.ext };
            let (d1, _) = delete_next(d, DeleteEventView::Found(Some(row)));
            &&& write matches UploadActionView::WriteFile { path, .. } && path == d1.path
            &&& record == UploadActionView::Insert(
                with_two(INSERT_IMAGE@, ValueView::Text(row.filename), ValueView::Text(row.ext)),
            )
            &&& upload_next(f2, UploadEventView::Inserted(id)).1 == UploadActionView::Respond(
                stored_reply(id, row.filename, row.ext),
            )
        }),
{
}

} // verus!
