//! The catalogue's operations as SQL: the statement that each one runs, and,
//! for the operations that run several in turn, the flow that decides the
//! next statement from the outcome of the last.

use vstd::prelude::*;
use crate::text::views;
use crate::tags::{distinct_names, distinct_tags, lemma_distinct_names_idempotent, lemma_distinct_names_shape};
use crate::models::{Image, ImageView};
use crate::files::{storage_path, storage_path_of};
use crate::sql::{
    Value, ValueView, Statement, StatementView, value_views, plain, with_one, with_two, statement,
    statement_with_one, statement_with_two,
};

verus! {

/// The newest images, when a search names no tag.
pub const LATEST_IMAGES: &'static str = "SELECT * FROM images ORDER BY id DESC LIMIT 50";

/// The start of a search by tags, up to the opening of the list of names.
pub const SEARCH_HEAD: &'static str = "\n        SELECT images.id, images.filename, images.ext\n        FROM images\n        INNER JOIN image_tags ON images.id = image_tags.image_id\n        INNER JOIN tags ON image_tags.tag_id = tags.id\n        WHERE tags.name IN (\n    ";

/// Keeps the images that carry as many distinct searched tags as were named.
pub const SEARCH_GROUP: &'static str = "GROUP BY images.id HAVING COUNT(DISTINCT tags.id) = ";

/// Newest first.
pub const SEARCH_ORDER: &'static str = " ORDER BY images.id DESC";

pub const IMAGE_BY_FILENAME: &'static str = "SELECT * FROM images WHERE filename = ?";

pub const INSERT_IMAGE: &'static str = "INSERT INTO images (filename, ext) VALUES (?, ?)";

pub const INSERT_TAG: &'static str = "INSERT OR IGNORE INTO tags (name) VALUES (?)";

pub const TAG_ID_BY_NAME: &'static str = "SELECT id FROM tags WHERE name = ?";

pub const LINK_TAG: &'static str = "INSERT OR IGNORE INTO image_tags (image_id, tag_id) VALUES (?, ?)";

pub const TAGS_OF_IMAGE: &'static str = "\n        SELECT tags.id, tags.name\n        FROM tags\n        INNER JOIN image_tags ON tags.id = image_tags.tag_id\n        WHERE image_tags.image_id = ?\n    ";

pub const ALL_TAGS: &'static str = "SELECT * FROM tags ORDER BY name ASC";

pub const IMAGE_BY_ID: &'static str = "SELECT * FROM images WHERE id = ?";

pub const UNLINK_IMAGE: &'static str = "DELETE FROM image_tags WHERE image_id = ?";

pub const DELETE_IMAGE_ROW: &'static str = "DELETE FROM images WHERE id = ?";

/// `?` once for each of `n` bind arguments, separated by `, `.
pub open spec fn placeholders(n: nat) -> Seq<char>
    decreases n,
{
    if n == 0 {
        Seq::empty()
    } else if n == 1 {
        "?"@
    } else {
        placeholders((n - 1) as nat) + ", "@ + "?"@
    }
}

/// The text of a search for `n` tags.
pub open spec fn search_sql(n: nat) -> Seq<char> {
    SEARCH_HEAD@ + placeholders(n) + ") "@ + SEARCH_GROUP@ + "?"@ + SEARCH_ORDER@
}

/// Each name as a text argument.
pub open spec fn text_binds(names: Seq<Seq<char>>) -> Seq<ValueView> {
    names.map_values(|t: Seq<char>| ValueView::Text(t))
}

/// The search for the images that carry all of the distinct `names`: the
/// newest 50 images when there is none; else the images tagged with as many
/// of the names as there are names, newest first.
pub open spec fn search_statement_for(names: Seq<Seq<char>>) -> StatementView {
    if names.len() == 0 {
        plain(LATEST_IMAGES@)
    } else {
        StatementView {
            sql: search_sql(names.len()),
            binds: text_binds(names).push(ValueView::Int(names.len() as i64)),
        }
    }
}

/// The search for images that carry all of `tags`: a name given twice
/// counts once, so the search is over the distinct names, in the order of
/// their first occurrence.
pub open spec fn search_statement(tags: Seq<Seq<char>>) -> StatementView {
    search_statement_for(distinct_names(tags))
}

/// Naming a tag more than once searches as naming it once.
pub proof fn lemma_search_ignores_repeats(tags: Seq<Seq<char>>)
    ensures
        search_statement(tags) == search_statement(distinct_names(tags)),
{
    lemma_distinct_names_idempotent(tags);
}

/// How many times `c` occurs in `s`.
pub open spec fn occurrences(s: Seq<char>, c: char) -> nat
    decreases s.len(),
{
    if s.len() == 0 {
        0
    } else {
        occurrences(s.drop_last(), c) + if s.last() == c {
            1nat
        } else {
            0nat
        }
    }
}

proof fn lemma_occurrences_add(a: Seq<char>, b: Seq<char>, c: char)
    ensures
        occurrences(a + b, c) == occurrences(a, c) + occurrences(b, c),
    decreases b.len(),
{
    if b.len() == 0 {
        assert(a + b =~= a);
    } else {
        lemma_occurrences_add(a, b.drop_last(), c);
        assert((a + b).drop_last() =~= a + b.drop_last());
    }
}

/// The list of a search for `n` tags has exactly `n` placeholders, one for
/// each tag that the statement binds before the count.
pub proof fn lemma_placeholders_match_tags(n: nat)
    ensures
        occurrences(placeholders(n), '?') == n,
    decreases n,
{
    reveal_strlit("?");
    reveal_strlit(", ");
    assert(occurrences("?"@, '?') == 1) by {
        assert("?"@.len() == 1);
        assert("?"@.last() == '?');
        assert("?"@.drop_last() =~= Seq::<char>::empty());
        assert(occurrences(Seq::<char>::empty(), '?') == 0);
    }
    if n > 1 {
        lemma_placeholders_match_tags((n - 1) as nat);
        assert(occurrences(", "@, '?') == 0) by {
            let t = ", "@;
            assert(t.len() == 2);
            assert(t.last() == ' ');
            assert(t.drop_last().last() == ',');
            assert(t.drop_last().drop_last() =~= Seq::<char>::empty());
            assert(occurrences(Seq::<char>::empty(), '?') == 0);
            assert(occurrences(t.drop_last(), '?') == 0);
        }
        lemma_occurrences_add(placeholders((n - 1) as nat), ", "@, '?');
        lemma_occurrences_add(placeholders((n - 1) as nat) + ", "@, "?"@, '?');
    }
}

/// What a search for `tags` binds: with no tag, nothing, and it lists the
/// newest images. Else each distinct name once, in the order of its first
/// occurrence, one placeholder for each in the list of names, and then the
/// number of distinct names: the number of the named tags that an image must
/// carry, which is all of them.
pub proof fn lemma_search_binds_names_then_count(tags: Seq<Seq<char>>)
    ensures
        tags.len() == 0 ==> search_statement(tags) == plain(LATEST_IMAGES@),
        tags.len() > 0 ==> ({
            let st = search_statement(tags);
            let d = distinct_names(tags);
            &&& d.len() > 0
            &&& d.no_duplicates()
            &&& forall|x: Seq<char>| d.contains(x) <==> tags.contains(x)
            &&& st.binds.len() == d.len() + 1
            &&& forall|i: int| 0 <= i < d.len() ==> st.binds[i] == ValueView::Text(d[i])
            &&& st.binds[d.len() as int] == ValueView::Int(d.len() as i64)
            &&& st.sql == SEARCH_HEAD@ + placeholders(d.len()) + ") "@ + SEARCH_GROUP@ + "?"@
                + SEARCH_ORDER@
            &&& occurrences(placeholders(d.len()), '?') == d.len()
        }),
{
    lemma_distinct_names_shape(tags);
    let d = distinct_names(tags);
    if tags.len() == 0 {
        assert(d =~= Seq::<Seq<char>>::empty());
    } else {
        assert(tags.contains(tags[0]));
        assert(d.contains(tags[0]));
        lemma_placeholders_match_tags(d.len());
        let st = search_statement(tags);
        assert forall|i: int| 0 <= i < d.len() implies st.binds[i] == ValueView::Text(d[i]) by {
            assert(st.binds[i] == text_binds(d)[i]);
        }
    }
}

/// The statement that finds the images that carry all of `tags`.
pub fn find_images_by_tags(tags: Vec<String>) -> (st: Statement)
    ensures
        st@ == search_statement(views(tags@)),
{
    let names = distinct_tags(&tags);
    statement_for_names(&names)
}

/// The search statement over names known to be distinct.
fn statement_for_names(tags: &Vec<String>) -> (st: Statement)
    ensures
        st@ == search_statement_for(views(tags@)),
{
    let n = tags.len();
    if n == 0 {
        return statement(LATEST_IMAGES);
    }
    let mut sql = SEARCH_HEAD.to_owned();
    let mut binds: Vec<Value> = Vec::new();
    let mut i: usize = 0;
    assert(SEARCH_HEAD@ + placeholders(0) =~= SEARCH_HEAD@);
    assert(value_views(binds@) =~= text_binds(views(tags@).subrange(0, 0)));
    while i < n
        invariant
            n == tags@.len(),
            i <= n,
            sql@ == SEARCH_HEAD@ + placeholders(i as nat),
            value_views(binds@) == text_binds(views(tags@).subrange(0, i as int)),
        decreases n - i,
    {
        if i > 0 {
            sql.append(", ");
        }
        sql.append("?");
        proof {
            if i > 0 {
                assert(sql@ =~= SEARCH_HEAD@ + (placeholders(i as nat) + ", "@ + "?"@));
            } else {
                assert(sql@ =~= SEARCH_HEAD@ + "?"@);
            }
        }
        let t = tags[i].clone();
        let ghost old_binds = binds@;
        binds.push(Value::Text(t));
        proof {
            assert(value_views(binds@) =~= value_views(old_binds).push(ValueView::Text(tags@[i as int]@)));
            assert(views(tags@).subrange(0, i + 1) =~= views(tags@).subrange(0, i as int).push(tags@[i as int]@));
            assert(value_views(binds@) =~= text_binds(views(tags@).subrange(0, i + 1)));
        }
        i = i + 1;
    }
    sql.append(") ");
    sql.append(SEARCH_GROUP);
    sql.append("?");
    sql.append(SEARCH_ORDER);
    binds.push(Value::Int(n as i64));
    let st = Statement { sql, binds };
    assert(views(tags@).subrange(0, n as int) =~= views(tags@));
    assert(st@.binds =~= text_binds(views(tags@)).push(ValueView::Int(n as i64)));
    st
}

/// The statement that finds the image stored under `hash`.
pub fn find_image_by_hash(hash: &str) -> (st: Statement)
    ensures
        st@ == with_one(IMAGE_BY_FILENAME@, ValueView::Text(hash@)),
{
    statement_with_one(IMAGE_BY_FILENAME, Value::Text(hash.to_owned()))
}

/// The statement that records an image stored as `filename` with `ext`.
pub fn create_image(filename: &str, ext: &str) -> (st: Statement)
    ensures
        st@ == with_two(INSERT_IMAGE@, ValueView::Text(filename@), ValueView::Text(ext@)),
{
    statement_with_two(INSERT_IMAGE, Value::Text(filename.to_owned()), Value::Text(ext.to_owned()))
}

/// The statement that lists the tags of an image.
pub fn get_tags_by_image_id(image_id: i64) -> (st: Statement)
    ensures
        st@ == with_one(TAGS_OF_IMAGE@, ValueView::Int(image_id)),
{
    statement_with_one(TAGS_OF_IMAGE, Value::Int(image_id))
}

/// The statement that lists every tag by name.
pub fn list_all_tags() -> (st: Statement)
    ensures
        st@ == plain(ALL_TAGS@),
{
    statement(ALL_TAGS)
}

// ---------------------------------------------------------------------------
// Tagging an image: make sure the tag exists, find its id, link it
// ---------------------------------------------------------------------------

/// Where a tagging stands: which outcome it waits for.
#[derive(PartialEq, Eq, Structural, Clone, Copy)]
pub enum TagStage {
    InsertingTag,
    ResolvingTag,
    Linking,
    Finished,
}

/// A tagging of `image_id` with `tag_name` in progress.
pub struct TagFlow {
    pub image_id: i64,
    pub tag_name: String,
    pub stage: TagStage,
}

/// What the database reported for the last statement of a tagging.
pub enum TagEvent {
    Executed,
    TagId(i64),
    Failed(String),
}

/// What a tagging asks for next.
pub enum TagAction {
    /// Run the statement.
    Execute(Statement),
    /// Run the statement, which yields one id.
    FetchId(Statement),
    /// The tagging is over, with this outcome.
    Finish(Result<(), String>),
}

pub struct TagFlowView {
    pub image_id: i64,
    pub tag_name: Seq<char>,
    pub stage: TagStage,
}

pub enum TagEventView {
    Executed,
    TagId(i64),
    Failed(Seq<char>),
}

pub enum TagActionView {
    Execute(StatementView),
    FetchId(StatementView),
    Finish(Result<(), Seq<char>>),
}

/// The character view of an outcome.
pub open spec fn outcome_view(r: Result<(), String>) -> Result<(), Seq<char>> {
    match r {
        Ok(()) => Ok(()),
        Err(m) => Err(m@),
    }
}

impl View for TagFlow {
    type V = TagFlowView;

    open spec fn view(&self) -> TagFlowView {
        TagFlowView { image_id: self.image_id, tag_name: self.tag_name@, stage: self.stage }
    }
}

impl View for TagEvent {
    type V = TagEventView;

    open spec fn view(&self) -> TagEventView {
        match self {
            TagEvent::Executed => TagEventView::Executed,
            TagEvent::TagId(t) => TagEventView::TagId(*t),
            TagEvent::Failed(m) => TagEventView::Failed(m@),
        }
    }
}

impl View for TagAction {
    type V = TagActionView;

    open spec fn view(&self) -> TagActionView {
        match self {
            TagAction::Execute(st) => TagActionView::Execute(st@),
            TagAction::FetchId(st) => TagActionView::FetchId(st@),
            TagAction::Finish(r) => TagActionView::Finish(outcome_view(*r)),
        }
    }
}

/// Whether a tagging at `f` can receive `e`: a failure at any stage but the
/// last, else the outcome of the statement it asked for.
pub open spec fn tag_accepts(f: TagFlowView, e: TagEventView) -> bool {
    match e {
        TagEventView::Failed(_) => f.stage != TagStage::Finished,
        TagEventView::Executed => f.stage == TagStage::InsertingTag || f.stage
            == TagStage::Linking,
        TagEventView::TagId(_) => f.stage == TagStage::ResolvingTag,
    }
}

/// The next state of a tagging and what it asks for: after the tag is
/// inserted (or was there), fetch its id by name; with the id, link it to
/// the image; once linked, finish. Any failure ends it with that error.
pub open spec fn tag_next(f: TagFlowView, e: TagEventView) -> (TagFlowView, TagActionView) {
    match e {
        TagEventView::Failed(m) => (
            TagFlowView { stage: TagStage::Finished, ..f },
            TagActionView::Finish(Err(m)),
        ),
        TagEventView::Executed => if f.stage == TagStage::InsertingTag {
            (
                TagFlowView { stage: TagStage::ResolvingTag, ..f },
                TagActionView::FetchId(with_one(TAG_ID_BY_NAME@, ValueView::Text(f.tag_name))),
            )
        } else {
            (TagFlowView { stage: TagStage::Finished, ..f }, TagActionView::Finish(Ok(())))
        },
        TagEventView::TagId(t) => (
            TagFlowView { stage: TagStage::Linking, ..f },
            TagActionView::Execute(
                with_two(LINK_TAG@, ValueView::Int(f.image_id), ValueView::Int(t)),
            ),
        ),
    }
}

/// Starts tagging `image_id` with `tag_name`: the tag is inserted first,
/// unless a tag of that name exists.
pub fn add_tag_to_image(image_id: i64, tag_name: &str) -> (r: (TagFlow, TagAction))
    ensures
        r.0@ == (TagFlowView { image_id, tag_name: tag_name@, stage: TagStage::InsertingTag }),
        r.1@ == TagActionView::Execute(with_one(INSERT_TAG@, ValueView::Text(tag_name@))),
{
    let flow = TagFlow { image_id, tag_name: tag_name.to_owned(), stage: TagStage::InsertingTag };
    let action = TagAction::Execute(statement_with_one(INSERT_TAG, Value::Text(tag_name.to_owned())));
    (flow, action)
}

impl TagFlow {
    /// Whether the flow can receive `e` now.
    pub fn accepts(&self, e: &TagEvent) -> (b: bool)
        ensures
            b == tag_accepts(self@, e@),
    {
        match e {
            TagEvent::Failed(_) => self.stage != TagStage::Finished,
            TagEvent::Executed => self.stage == TagStage::InsertingTag || self.stage
                == TagStage::Linking,
            TagEvent::TagId(_) => self.stage == TagStage::ResolvingTag,
        }
    }

    /// Takes in the outcome of the last statement.
    pub fn step(self, e: TagEvent) -> (r: (TagFlow, TagAction))
        requires
            tag_accepts(self@, e@),
        ensures
            (r.0@, r.1@) == tag_next(self@, e@),
    {
        let TagFlow { image_id, tag_name, stage } = self;
        match e {
            TagEvent::Failed(m) => (
                TagFlow { image_id, tag_name, stage: TagStage::Finished },
                TagAction::Finish(Err(m)),
            ),
            TagEvent::Executed => {
                if stage == TagStage::InsertingTag {
                    let st = statement_with_one(TAG_ID_BY_NAME, Value::Text(tag_name.clone()));
                    (
                        TagFlow { image_id, tag_name, stage: TagStage::ResolvingTag },
                        TagAction::FetchId(st),
                    )
                } else {
                    (TagFlow { image_id, tag_name, stage: TagStage::Finished }, TagAction::Finish(Ok(())))
                }
            },
            TagEvent::TagId(t) => {
                let st = statement_with_two(LINK_TAG, Value::Int(image_id), Value::Int(t));
                (TagFlow { image_id, tag_name, stage: TagStage::Linking }, TagAction::Execute(st))
            },
        }
    }
}

// ---------------------------------------------------------------------------
// Deleting an image: find it, drop its links and its row in one
// transaction, then remove its file
// ---------------------------------------------------------------------------

/// Where a deletion stands: which outcome it waits for.
#[derive(PartialEq, Eq, Structural, Clone, Copy)]
pub enum DeleteStage {
    Finding,
    Beginning,
    Unlinking,
    Removing,
    Committing,
    Checking,
    Deleting,
    Finished,
}

/// A deletion of image `id` in progress; `path` is the image's file once
/// the image is found.
pub struct DeleteFlow {
    pub id: i64,
    pub path: String,
    pub stage: DeleteStage,
}

/// What the database or the file system reported.
pub enum DeleteEvent {
    /// The image that the lookup found, if any.
    Found(Option<Image>),
    /// The transaction began, a statement ran, the commit or the removal of
    /// the file succeeded.
    Done,
    /// Whether the file exists.
    Exists(bool),
    Failed(String),
}

/// What a deletion asks for next.
pub enum DeleteAction {
    /// Run the statement, which yields at most one image.
    FetchImage(Statement),
    /// Begin a transaction.
    Begin,
    /// Run the statement in the transaction.
    Execute(Statement),
    /// Commit the transaction.
    Commit,
    /// Tell whether this file exists.
    CheckFile(String),
    /// Remove this file.
    RemoveFile(String),
    /// The deletion is over, with this outcome; an open transaction is
    /// rolled back.
    Finish(Result<(), String>),
    /// The deletion succeeded, but this warning is to be logged.
    FinishWithWarning(String),
}

pub struct DeleteFlowView {
    pub id: i64,
    pub path: Seq<char>,
    pub stage: DeleteStage,
}

pub enum DeleteEventView {
    Found(Option<ImageView>),
    Done,
    Exists(bool),
    Failed(Seq<char>),
}

pub enum DeleteActionView {
    FetchImage(StatementView),
    Begin,
    Execute(StatementView),
    Commit,
    CheckFile(Seq<char>),
    RemoveFile(Seq<char>),
    Finish(Result<(), Seq<char>>),
    FinishWithWarning(Seq<char>),
}

impl View for DeleteFlow {
    type V = DeleteFlowView;

    open spec fn view(&self) -> DeleteFlowView {
        DeleteFlowView { id: self.id, path: self.path@, stage: self.stage }
    }
}

impl View for DeleteEvent {
    type V = DeleteEventView;

    open spec fn view(&self) -> DeleteEventView {
        match self {
            DeleteEvent::Found(Some(img)) => DeleteEventView::Found(Some(img@)),
            DeleteEvent::Found(None) => DeleteEventView::Found(None),
            DeleteEvent::Done => DeleteEventView::Done,
            DeleteEvent::Exists(b) => DeleteEventView::Exists(*b),
            DeleteEvent::Failed(m) => DeleteEventView::Failed(m@),
        }
    }
}

impl View for DeleteAction {
    type V = DeleteActionView;

    open spec fn view(&self) -> DeleteActionView {
        match self {
            DeleteAction::FetchImage(st) => DeleteActionView::FetchImage(st@),
            DeleteAction::Begin => DeleteActionView::Begin,
            DeleteAction::Execute(st) => DeleteActionView::Execute(st@),
            DeleteAction::Commit => DeleteActionView::Commit,
            DeleteAction::CheckFile(p) => DeleteActionView::CheckFile(p@),
            DeleteAction::RemoveFile(p) => DeleteActionView::RemoveFile(p@),
            DeleteAction::Finish(r) => DeleteActionView::Finish(outcome_view(*r)),
            DeleteAction::FinishWithWarning(w) => DeleteActionView::FinishWithWarning(w@),
        }
    }
}

/// The error of a deletion whose image does not exist.
pub open spec fn not_found_message() -> Seq<char> {
    "Image not found"@
}

/// What is logged when the file of a deleted image cannot be removed.
pub open spec fn removal_warning(path: Seq<char>, error: Seq<char>) -> Seq<char> {
    "Failed to delete file "@ + path + ": "@ + error
}

/// Whether a deletion at `f` can receive `e`: a failure at any stage but the
/// last, else the outcome of what it asked for.
pub open spec fn delete_accepts(f: DeleteFlowView, e: DeleteEventView) -> bool {
    match e {
        DeleteEventView::Failed(_) => f.stage != DeleteStage::Finished,
        DeleteEventView::Found(_) => f.stage == DeleteStage::Finding,
        DeleteEventView::Exists(_) => f.stage == DeleteStage::Checking,
        DeleteEventView::Done => {
            ||| f.stage == DeleteStage::Beginning
            ||| f.stage == DeleteStage::Unlinking
            ||| f.stage == DeleteStage::Removing
            ||| f.stage == DeleteStage::Committing
            ||| f.stage == DeleteStage::Deleting
        },
    }
}

/// The next state of a deletion and what it asks for. A missing image ends
/// it with `Image not found`. Once found, a transaction removes the image's
/// links, then its row, and is committed; then the file is removed if it
/// exists. A failure to remove the file is only logged; any other failure
/// ends the deletion with that error.
pub open spec fn delete_next(f: DeleteFlowView, e: DeleteEventView) -> (
    DeleteFlowView,
    DeleteActionView,
) {
    let done = DeleteFlowView { stage: DeleteStage::Finished, ..f };
    match e {
        DeleteEventView::Failed(m) => if f.stage == DeleteStage::Deleting {
            (done, DeleteActionView::FinishWithWarning(removal_warning(f.path, m)))
        } else {
            (done, DeleteActionView::Finish(Err(m)))
        },
        DeleteEventView::Found(None) => (
            done,
            DeleteActionView::Finish(Err(not_found_message())),
        ),
        DeleteEventView::Found(Some(img)) => (
            DeleteFlowView {
                id: f.id,
                path: storage_path_of(img.filename, img.ext),
                stage: DeleteStage::Beginning,
            },
            DeleteActionView::Begin,
        ),
        DeleteEventView::Exists(b) => if b {
            (DeleteFlowView { stage: DeleteStage::Deleting, ..f }, DeleteActionView::RemoveFile(f.path))
        } else {
            (done, DeleteActionView::Finish(Ok(())))
        },
        DeleteEventView::Done => if f.stage == DeleteStage::Beginning {
            (
                DeleteFlowView { stage: DeleteStage::Unlinking, ..f },
                DeleteActionView::Execute(with_one(UNLINK_IMAGE@, ValueView::Int(f.id))),
            )
        } else if f.stage == DeleteStage::Unlinking {
            (
                DeleteFlowView { stage: DeleteStage::Removing, ..f },
                DeleteActionView::Execute(with_one(DELETE_IMAGE_ROW@, ValueView::Int(f.id))),
            )
        } else if f.stage == DeleteStage::Removing {
            (DeleteFlowView { stage: DeleteStage::Committing, ..f }, DeleteActionView::Commit)
        } else if f.stage == DeleteStage::Committing {
            (DeleteFlowView { stage: DeleteStage::Checking, ..f }, DeleteActionView::CheckFile(f.path))
        } else {
            (done, DeleteActionView::Finish(Ok(())))
        },
    }
}

/// Starts deleting image `id`: it is looked up first.
pub fn delete_image(id: i64) -> (r: (DeleteFlow, DeleteAction))
    ensures
        r.0@ == (DeleteFlowView { id, path: Seq::empty(), stage: DeleteStage::Finding }),
        r.1@ == DeleteActionView::FetchImage(with_one(IMAGE_BY_ID@, ValueView::Int(id))),
{
    let flow = DeleteFlow { id, path: String::new(), stage: DeleteStage::Finding };
    (flow, DeleteAction::FetchImage(statement_with_one(IMAGE_BY_ID, Value::Int(id))))
}

impl DeleteFlow {
    /// Whether the flow can receive `e` now.
    pub fn accepts(&self, e: &DeleteEvent) -> (b: bool)
        ensures
            b == delete_accepts(self@, e@),
    {
        match e {
            DeleteEvent::Failed(_) => self.stage != DeleteStage::Finished,
            DeleteEvent::Found(_) => self.stage == DeleteStage::Finding,
            DeleteEvent::Exists(_) => self.stage == DeleteStage::Checking,
            DeleteEvent::Done => self.stage == DeleteStage::Beginning || self.stage
                == DeleteStage::Unlinking || self.stage == DeleteStage::Removing || self.stage
                == DeleteStage::Committing || self.stage == DeleteStage::Deleting,
        }
    }

    /// Takes in the outcome of what the flow asked for.
    pub fn step(self, e: DeleteEvent) -> (r: (DeleteFlow, DeleteAction))
        requires
            delete_accepts(self@, e@),
        ensures
            (r.0@, r.1@) == delete_next(self@, e@),
    {
        let DeleteFlow { id, path, stage } = self;
        match e {
            DeleteEvent::Failed(m) => {
                if stage == DeleteStage::Deleting {
                    let mut w = "Failed to delete file ".to_owned();
                    w.append(path.as_str());
                    w.append(": ");
                    w.append(m.as_str());
                    (DeleteFlow { id, path, stage: DeleteStage::Finished }, DeleteAction::FinishWithWarning(w))
                } else {
                    (DeleteFlow { id, path, stage: DeleteStage::Finished }, DeleteAction::Finish(Err(m)))
                }
            },
            DeleteEvent::Found(None) => (
                DeleteFlow { id, path, stage: DeleteStage::Finished },
                DeleteAction::Finish(Err("Image not found".to_owned())),
            ),
            DeleteEvent::Found(Some(img)) => {
                let p = storage_path(img.filename.as_str(), img.ext.as_str());
                (DeleteFlow { id, path: p, stage: DeleteStage::Beginning }, DeleteAction::Begin)
            },
            DeleteEvent::Exists(b) => {
                if b {
                    let target = path.clone();
                    (DeleteFlow { id, path, stage: DeleteStage::Deleting }, DeleteAction::RemoveFile(target))
                } else {
                    (DeleteFlow { id, path, stage: DeleteStage::Finished }, DeleteAction::Finish(Ok(())))
                }
            },
            DeleteEvent::Done => {
                if stage == DeleteStage::Beginning {
                    let st = statement_with_one(UNLINK_IMAGE, Value::Int(id));
                    (DeleteFlow { id, path, stage: DeleteStage::Unlinking }, DeleteAction::Execute(st))
                } else if stage == DeleteStage::Unlinking {
                    let st = statement_with_one(DELETE_IMAGE_ROW, Value::Int(id));
                    (DeleteFlow { id, path, stage: DeleteStage::Removing }, DeleteAction::Execute(st))
                } else if stage == DeleteStage::Removing {
                    (DeleteFlow { id, path, stage: DeleteStage::Committing }, DeleteAction::Commit)
                } else if stage == DeleteStage::Committing {
                    let target = path.clone();
                    (DeleteFlow { id, path, stage: DeleteStage::Checking }, DeleteAction::CheckFile(target))
                } else {
                    (DeleteFlow { id, path, stage: DeleteStage::Finished }, DeleteAction::Finish(Ok(())))
                }
            },
        }
    }
}

// ---------------------------------------------------------------------------
// What every run of a deletion does
// ---------------------------------------------------------------------------

/// The actions of a deletion that starts at `f` and receives `evs`, up to
/// the first event that it cannot receive.
pub open spec fn delete_run(f: DeleteFlowView, evs: Seq<DeleteEventView>) -> Seq<DeleteActionView>
    decreases evs.len(),
{
    if evs.len() == 0 || !delete_accepts(f, evs[0]) {
        Seq::empty()
    } else {
        let (g, a) = delete_next(f, evs[0]);
        seq![a] + delete_run(g, evs.drop_first())
    }
}

/// How far a deletion has come.
pub open spec fn delete_rank(s: DeleteStage) -> int {
    match s {
        DeleteStage::Finding => 0,
        DeleteStage::Beginning => 1,
        DeleteStage::Unlinking => 2,
        DeleteStage::Removing => 3,
        DeleteStage::Committing => 4,
        DeleteStage::Checking => 5,
        DeleteStage::Deleting => 6,
        DeleteStage::Finished => 7,
    }
}

/// The statement that drops the links of image `id`.
pub open spec fn unlink_of(id: i64) -> DeleteActionView {
    DeleteActionView::Execute(with_one(UNLINK_IMAGE@, ValueView::Int(id)))
}

/// The statement that drops the row of image `id`.
pub open spec fn drop_row_of(id: i64) -> DeleteActionView {
    DeleteActionView::Execute(with_one(DELETE_IMAGE_ROW@, ValueView::Int(id)))
}

/// The order of a deletion of image `id`: its links are dropped before its
/// row, the row before the commit, and the file only after the commit.
pub open spec fn delete_ordered(run: Seq<DeleteActionView>, id: i64) -> bool {
    forall|k: int|
        0 <= k < run.len() ==> {
            &&& (#[trigger] run[k] == drop_row_of(id) ==> exists|j: int|
                0 <= j < k && run[j] == unlink_of(id))
            &&& (run[k] == DeleteActionView::Commit ==> exists|j: int|
                0 <= j < k && run[j] == drop_row_of(id))
            &&& (run[k] is RemoveFile ==> exists|j: int|
                0 <= j < k && run[j] == DeleteActionView::Commit)
        }
}

/// The order that a run from `f` keeps, given how far `f` has come.
pub open spec fn delete_ordered_from(run: Seq<DeleteActionView>, id: i64, rank: int) -> bool {
    forall|k: int|
        0 <= k < run.len() ==> {
            &&& (#[trigger] run[k] == drop_row_of(id) ==> rank >= 2 || exists|j: int|
                0 <= j < k && run[j] == unlink_of(id))
            &&& (run[k] == DeleteActionView::Commit ==> rank >= 3 || exists|j: int|
                0 <= j < k && run[j] == drop_row_of(id))
            &&& (run[k] is RemoveFile ==> rank >= 4 || exists|j: int|
                0 <= j < k && run[j] == DeleteActionView::Commit)
        }
}

proof fn lemma_delete_run_unfold(f: DeleteFlowView, evs: Seq<DeleteEventView>)
    requires
        evs.len() > 0,
        delete_accepts(f, evs[0]),
    ensures
        delete_run(f, evs) == seq![delete_next(f, evs[0]).1] + delete_run(
            delete_next(f, evs[0]).0,
            evs.drop_first(),
        ),
{
}

proof fn lemma_delete_step(f: DeleteFlowView, e: DeleteEventView)
    requires
        delete_accepts(f, e),
    ensures
        ({
            let (g, a) = delete_next(f, e);
            &&& g.id == f.id
            &&& a == drop_row_of(f.id) ==> delete_rank(f.stage) >= 2
            &&& a == DeleteActionView::Commit ==> delete_rank(f.stage) >= 3
            &&& a is RemoveFile ==> delete_rank(f.stage) >= 4
            &&& g.stage != DeleteStage::Finished && delete_rank(g.stage) >= 2 && delete_rank(f.stage)
                < 2 ==> a == unlink_of(f.id)
            &&& g.stage != DeleteStage::Finished && delete_rank(g.stage) >= 3 && delete_rank(f.stage)
                < 3 ==> a == drop_row_of(f.id)
            &&& g.stage != DeleteStage::Finished && delete_rank(g.stage) >= 4 && delete_rank(f.stage)
                < 4 ==> a == DeleteActionView::Commit
        }),
{
    reveal_strlit("DELETE FROM image_tags WHERE image_id = ?");
    reveal_strlit("DELETE FROM images WHERE id = ?");
    assert(UNLINK_IMAGE@.len() != DELETE_IMAGE_ROW@.len());
}

proof fn lemma_delete_finished_run(f: DeleteFlowView, evs: Seq<DeleteEventView>)
    requires
        f.stage == DeleteStage::Finished,
    ensures
        delete_run(f, evs) == Seq::<DeleteActionView>::empty(),
{
}

#[verifier::rlimit(30)]
proof fn lemma_delete_ordered_from(f: DeleteFlowView, evs: Seq<DeleteEventView>)
    ensures
        delete_ordered_from(delete_run(f, evs), f.id, delete_rank(f.stage)),
    decreases evs.len(),
{
    if evs.len() == 0 || !delete_accepts(f, evs[0]) {
        return;
    }
    let g = delete_next(f, evs[0]).0;
    let a = delete_next(f, evs[0]).1;
    let tail = evs.drop_first();
    lemma_delete_run_unfold(f, evs);
    lemma_delete_step(f, evs[0]);
    lemma_delete_ordered_from(g, tail);
    let run = delete_run(f, evs);
    let rest = delete_run(g, tail);
    let id = f.id;
    let rf = delete_rank(f.stage);
    let rg = delete_rank(g.stage);
    if g.stage == DeleteStage::Finished {
        lemma_delete_finished_run(g, tail);
        assert(run =~= seq![a]);
        return;
    }
    assert(run[0] == a);
    assert forall|k: int| 0 <= k < run.len() implies {
        &&& (#[trigger] run[k] == drop_row_of(id) ==> rf >= 2 || exists|j: int|
            0 <= j < k && run[j] == unlink_of(id))
        &&& (run[k] == DeleteActionView::Commit ==> rf >= 3 || exists|j: int|
            0 <= j < k && run[j] == drop_row_of(id))
        &&& (run[k] is RemoveFile ==> rf >= 4 || exists|j: int|
            0 <= j < k && run[j] == DeleteActionView::Commit)
    } by {
        if k > 0 {
            assert(run[k] == rest[k - 1]);
            if run[k] == drop_row_of(id) && rf < 2 && rg < 2 {
                let j = choose|j: int| 0 <= j < k - 1 && rest[j] == unlink_of(id);
                assert(run[j + 1] == rest[j]);
            }
            if run[k] == DeleteActionView::Commit && rf < 3 && rg < 3 {
                let j = choose|j: int| 0 <= j < k - 1 && rest[j] == drop_row_of(id);
                assert(run[j + 1] == rest[j]);
            }
            if run[k] is RemoveFile && rf < 4 && rg < 4 {
                let j = choose|j: int| 0 <= j < k - 1 && rest[j] == DeleteActionView::Commit;
                assert(run[j + 1] == rest[j]);
            }
        }
    }
}

/// What a tagging step can end in: a failure at any stage ends the tagging
/// with that failure; it ends in success exactly when the link it asked for
/// is reported made; the link is asked for only with the id that the lookup
/// returned, and the image and name never change.
pub proof fn lemma_tag_step_outcomes(f: TagFlowView, e: TagEventView)
    requires
        tag_accepts(f, e),
    ensures
        ({
            let (g, a) = tag_next(f, e);
            &&& g.image_id == f.image_id && g.tag_name == f.tag_name
            &&& (e matches TagEventView::Failed(m) ==> a == TagActionView::Finish(Err(m))
                && g.stage == TagStage::Finished)
            &&& (a == TagActionView::Finish(Ok(())) <==> (f.stage == TagStage::Linking && e
                == TagEventView::Executed))
            &&& (a matches TagActionView::Finish(Err(m)) ==> e == TagEventView::Failed(m))
            &&& (e matches TagEventView::TagId(t) ==> a == TagActionView::Execute(
                with_two(LINK_TAG@, ValueView::Int(f.image_id), ValueView::Int(t)),
            ))
            &&& (a is Execute ==> e is TagId)
            &&& (a is Finish <==> g.stage == TagStage::Finished)
        }),
{
}

/// The initial state of a tagging.
pub open spec fn tag_start(image_id: i64, tag_name: Seq<char>) -> TagFlowView {
    TagFlowView { image_id, tag_name, stage: TagStage::InsertingTag }
}

/// A tagging that succeeds looks the tag up by the name it inserted, links
/// exactly the id that the lookup returned to the image, and then finishes.
pub proof fn lemma_tag_links_looked_up_id(image_id: i64, tag_name: Seq<char>, tag_id: i64)
    ensures
        ({
            let (f1, a1) = tag_next(tag_start(image_id, tag_name), TagEventView::Executed);
            let (f2, a2) = tag_next(f1, TagEventView::TagId(tag_id));
            let (f3, a3) = tag_next(f2, TagEventView::Executed);
            &&& a1 == TagActionView::FetchId(with_one(TAG_ID_BY_NAME@, ValueView::Text(tag_name)))
            &&& a2 == TagActionView::Execute(
                with_two(LINK_TAG@, ValueView::Int(image_id), ValueView::Int(tag_id)),
            )
            &&& a3 == TagActionView::Finish(Ok(()))
            &&& f3.stage == TagStage::Finished
            &&& forall|e: TagEventView| !tag_accepts(f3, e)
        }),
{
}

/// What a deletion step can end in: a failure before the file is being
/// removed (up to and including the commit) ends the deletion with that
/// failure; it ends in success only once the commit was reported done (the
/// file is then checked, and its removal can only be warned about); the
/// file is checked exactly when the commit is reported done.
pub proof fn lemma_delete_step_outcomes(f: DeleteFlowView, e: DeleteEventView)
    requires
        delete_accepts(f, e),
    ensures
        ({
            let (g, a) = delete_next(f, e);
            &&& g.id == f.id
            &&& (e matches DeleteEventView::Failed(m) ==> f.stage != DeleteStage::Deleting ==> a
                == DeleteActionView::Finish(Err(m)))
            &&& (e matches DeleteEventView::Failed(m) ==> f.stage == DeleteStage::Deleting ==> a
                == DeleteActionView::FinishWithWarning(removal_warning(f.path, m)))
            &&& (a == DeleteActionView::Finish(Ok(())) || a is FinishWithWarning ==> (f.stage
                == DeleteStage::Checking || f.stage == DeleteStage::Deleting))
            &&& (a is CheckFile <==> (f.stage == DeleteStage::Committing && e
                == DeleteEventView::Done))
            &&& (e matches DeleteEventView::Found(Some(img)) ==> a == DeleteActionView::Begin
                && g.path == "storage/"@ + img.filename + "."@ + img.ext)
            &&& (a matches DeleteActionView::CheckFile(p) ==> p == f.path)
            &&& (a matches DeleteActionView::RemoveFile(p) ==> p == f.path && f.stage
                == DeleteStage::Checking && e == DeleteEventView::Exists(true))
            &&& (a is Finish || a is FinishWithWarning <==> g.stage == DeleteStage::Finished)
        }),
{
}

/// Whether `a` ends a deletion in success.
pub open spec fn delete_success(a: DeleteActionView) -> bool {
    a == DeleteActionView::Finish(Ok(())) || a is FinishWithWarning
}

proof fn lemma_delete_success_from(f: DeleteFlowView, evs: Seq<DeleteEventView>)
    ensures
        forall|k: int|
            0 <= k < delete_run(f, evs).len() && delete_success(#[trigger] delete_run(f, evs)[k])
                ==> delete_rank(f.stage) >= 5 || exists|j: int|
                0 <= j < k && delete_run(f, evs)[j] is CheckFile,
    decreases evs.len(),
{
    if evs.len() == 0 || !delete_accepts(f, evs[0]) {
        return;
    }
    let g = delete_next(f, evs[0]).0;
    let a = delete_next(f, evs[0]).1;
    let tail = evs.drop_first();
    lemma_delete_run_unfold(f, evs);
    lemma_delete_step_outcomes(f, evs[0]);
    lemma_delete_success_from(g, tail);
    let run = delete_run(f, evs);
    let rest = delete_run(g, tail);
    if g.stage == DeleteStage::Finished {
        lemma_delete_finished_run(g, tail);
        assert(run =~= seq![a]);
        return;
    }
    assert(run[0] == a);
    assert forall|k: int| 0 <= k < run.len() && delete_success(#[trigger] run[k]) implies delete_rank(
        f.stage,
    ) >= 5 || exists|j: int| 0 <= j < k && run[j] is CheckFile by {
        if k > 0 {
            assert(run[k] == rest[k - 1]);
            if delete_rank(f.stage) < 5 {
                if delete_rank(g.stage) >= 5 {
                    assert(run[0] is CheckFile);
                } else {
                    let j = choose|j: int| 0 <= j < k - 1 && rest[j] is CheckFile;
                    assert(run[j + 1] == rest[j]);
                }
            }
        }
    }
}

/// Every run of a deletion succeeds only after its commit was reported done:
/// a success is preceded by the check of the file, which is asked for
/// exactly when the commit is reported done.
pub proof fn lemma_delete_succeeds_only_after_commit(id: i64, evs: Seq<DeleteEventView>)
    ensures
        forall|k: int|
            0 <= k < delete_run(delete_start(id), evs).len() && delete_success(
                #[trigger] delete_run(delete_start(id), evs)[k],
            ) ==> exists|j: int| 0 <= j < k && delete_run(delete_start(id), evs)[j] is CheckFile,
{
    lemma_delete_success_from(delete_start(id), evs);
}

/// The initial state of a deletion of image `id`.
pub open spec fn delete_start(id: i64) -> DeleteFlowView {
    DeleteFlowView { id, path: Seq::empty(), stage: DeleteStage::Finding }
}

/// Every run of a deletion drops the image's links before its row, its row
/// before the commit, and removes the file only after the commit.
pub proof fn lemma_delete_in_order(id: i64, evs: Seq<DeleteEventView>)
    ensures
        delete_ordered(delete_run(delete_start(id), evs), id),
{
    lemma_delete_ordered_from(delete_start(id), evs);
}

/// A deletion of an image that does not exist ends at once with
/// `Image not found`, having run nothing but the lookup.
pub proof fn lemma_delete_missing_image(id: i64, evs: Seq<DeleteEventView>)
    requires
        evs.len() > 0,
        evs[0] == DeleteEventView::Found(None),
    ensures
        delete_run(delete_start(id), evs) == seq![
            DeleteActionView::Finish(Err(not_found_message())),
        ],
{
    lemma_delete_run_unfold(delete_start(id), evs);
    let g = delete_next(delete_start(id), evs[0]).0;
    let tail = evs.drop_first();
    assert(delete_run(g, tail) == Seq::<DeleteActionView>::empty());
}

} // verus!
