use memedb::handlers::{
    delete_image as deleted_reply, format_response, get_image_tags, list_tags, server_error,
    tags_added, upload_image, UploadAction, UploadEvent, UploadFlow,
};
use memedb::handlers::{add_tags, TagRequest, TagRequestAction, TagRequestEvent};
use memedb::models::{AddTagsRequest, Image, Tag};
use memedb::replies::{Reply, ReplyData};
use memedb::services::{
    add_tag_to_image, delete_image, DeleteAction, DeleteEvent, DeleteFlow, TagAction, TagEvent,
    TagFlow,
};
use memedb::sql::Value;

fn upload_step(flow: UploadFlow, e: UploadEvent) -> (UploadFlow, UploadAction) {
    assert!(flow.accepts(&e));
    flow.step(e)
}

fn field(name: &str, file_name: Option<&str>) -> UploadEvent {
    UploadEvent::Field { name: Some(name.to_string()), file_name: file_name.map(|s| s.to_string()) }
}

const ABC_HASH: &str = "ba7816bf8f01cfea414140de5dae2223b00361a396177a9cb410ff61f20015ad";

fn image_of(reply: &Reply) -> &Image {
    match &reply.data {
        ReplyData::Image(img) => img,
        _ => panic!("not an image"),
    }
}

#[test]
fn an_upload_of_new_content_writes_then_records() {
    let (f, a) = upload_image();
    assert!(matches!(a, UploadAction::NextField));
    let (f, a) = upload_step(f, field("comment", None));
    assert!(matches!(a, UploadAction::NextField));
    let (f, a) = upload_step(f, field("file", Some("cat.png")));
    assert!(matches!(a, UploadAction::ReadField));
    let (f, a) = upload_step(f, UploadEvent::Bytes(b"abc".to_vec()));
    match &a {
        UploadAction::FetchImage(st) => {
            assert_eq!(st.sql, "SELECT * FROM images WHERE filename = ?");
            assert!(matches!(&st.binds[0], Value::Text(h) if h == ABC_HASH));
        }
        _ => panic!("expected a lookup"),
    }
    let (f, a) = upload_step(f, UploadEvent::Found(None));
    match &a {
        UploadAction::WriteFile { path, data } => {
            assert_eq!(path, &format!("storage/{}.png", ABC_HASH));
            assert_eq!(data, &b"abc".to_vec());
        }
        _ => panic!("expected a write"),
    }
    let (f, a) = upload_step(f, UploadEvent::Written);
    match &a {
        UploadAction::Insert(st) => {
            assert_eq!(st.sql, "INSERT INTO images (filename, ext) VALUES (?, ?)");
            assert!(matches!(&st.binds[0], Value::Text(h) if h == ABC_HASH));
            assert!(matches!(&st.binds[1], Value::Text(e) if e == "png"));
        }
        _ => panic!("expected an insert"),
    }
    let (f, a) = upload_step(f, UploadEvent::Inserted(5));
    match &a {
        UploadAction::Respond(r) => {
            assert_eq!(r.code, 200);
            assert_eq!(r.msg, "Upload success");
            let img = image_of(r);
            assert_eq!(img.id, 5);
            assert_eq!(img.filename, ABC_HASH);
            assert_eq!(img.ext, "png");
        }
        _ => panic!("expected a reply"),
    }
    assert!(!f.accepts(&UploadEvent::Written));
    assert!(!f.accepts(&UploadEvent::Failed("late".to_string())));
}

#[test]
fn an_upload_of_known_content_is_deduplicated() {
    let (f, _) = upload_image();
    let (f, _) = upload_step(f, field("file", None));
    let (f, _) = upload_step(f, UploadEvent::Bytes(b"abc".to_vec()));
    let existing = Image { id: 3, filename: ABC_HASH.to_string(), ext: "jpg".to_string() };
    let (f, a) = upload_step(f, UploadEvent::Found(Some(existing)));
    match &a {
        UploadAction::Respond(r) => {
            assert_eq!(r.code, 200);
            assert_eq!(r.msg, "Image exists (deduplicated)");
            let img = image_of(r);
            assert_eq!(img.id, 3);
            assert_eq!(img.ext, "jpg");
        }
        _ => panic!("expected the existing image"),
    }
    assert!(!f.accepts(&UploadEvent::Written));
}

#[test]
fn an_upload_without_a_name_is_stored_as_bin() {
    let (f, _) = upload_image();
    let (f, _) = upload_step(f, field("file", None));
    let (f, _) = upload_step(f, UploadEvent::Bytes(b"abc".to_vec()));
    let (_, a) = upload_step(f, UploadEvent::Found(None));
    match a {
        UploadAction::WriteFile { path, .. } => assert_eq!(path, format!("storage/{}.bin", ABC_HASH)),
        _ => panic!("expected a write"),
    }
}

#[test]
fn an_upload_without_a_file_field_is_refused() {
    let (f, _) = upload_image();
    let (f, _) = upload_step(f, field("other", Some("x.png")));
    let (_, a) = upload_step(f, UploadEvent::NoMoreFields);
    match a {
        UploadAction::Reject(e) => {
            assert_eq!(e.status, 400);
            assert_eq!(e.message, "Missing 'file' field");
        }
        _ => panic!("expected a refusal"),
    }
}

#[test]
fn upload_failures_map_to_400_while_reading_fields_and_500_later() {
    let (f, _) = upload_image();
    let (_, a) = upload_step(f, UploadEvent::Failed("bad multipart".to_string()));
    assert!(matches!(a, UploadAction::Reject(ref e) if e.status == 400 && e.message == "bad multipart"));
    let (f, _) = upload_image();
    let (f, _) = upload_step(f, field("file", None));
    let (_, a) = upload_step(f, UploadEvent::Failed("read error".to_string()));
    assert!(matches!(a, UploadAction::Reject(ref e) if e.status == 500 && e.message == "read error"));
}

#[test]
fn tagging_inserts_resolves_then_links() {
    let (f, a): (TagFlow, TagAction) = add_tag_to_image(4, "funny");
    match &a {
        TagAction::Execute(st) => {
            assert_eq!(st.sql, "INSERT OR IGNORE INTO tags (name) VALUES (?)");
            assert!(matches!(&st.binds[0], Value::Text(t) if t == "funny"));
        }
        _ => panic!(),
    }
    assert!(f.accepts(&TagEvent::Executed));
    let (f, a) = f.step(TagEvent::Executed);
    match &a {
        TagAction::FetchId(st) => assert_eq!(st.sql, "SELECT id FROM tags WHERE name = ?"),
        _ => panic!(),
    }
    assert!(!f.accepts(&TagEvent::Executed));
    let (f, a) = f.step(TagEvent::TagId(9));
    match &a {
        TagAction::Execute(st) => {
            assert_eq!(st.sql, "INSERT OR IGNORE INTO image_tags (image_id, tag_id) VALUES (?, ?)");
            assert!(matches!(st.binds[0], Value::Int(4)));
            assert!(matches!(st.binds[1], Value::Int(9)));
        }
        _ => panic!(),
    }
    let (f, a) = f.step(TagEvent::Executed);
    assert!(matches!(a, TagAction::Finish(Ok(()))));
    assert!(!f.accepts(&TagEvent::Failed("x".to_string())));
}

#[test]
fn tagging_stops_at_the_first_failure() {
    let (f, _) = add_tag_to_image(1, "cat");
    let (_, a) = f.step(TagEvent::Failed("locked".to_string()));
    assert!(matches!(a, TagAction::Finish(Err(ref m)) if m == "locked"));
}

fn delete_step(f: DeleteFlow, e: DeleteEvent) -> (DeleteFlow, DeleteAction) {
    assert!(f.accepts(&e));
    f.step(e)
}

#[test]
fn a_deletion_unlinks_removes_commits_then_deletes_the_file() {
    let (f, a) = delete_image(3);
    match &a {
        DeleteAction::FetchImage(st) => {
            assert_eq!(st.sql, "SELECT * FROM images WHERE id = ?");
            assert!(matches!(st.binds[0], Value::Int(3)));
        }
        _ => panic!(),
    }
    let img = Image { id: 3, filename: "abc".to_string(), ext: "gif".to_string() };
    let (f, a) = delete_step(f, DeleteEvent::Found(Some(img)));
    assert!(matches!(a, DeleteAction::Begin));
    let (f, a) = delete_step(f, DeleteEvent::Done);
    assert!(matches!(a, DeleteAction::Execute(ref st) if st.sql == "DELETE FROM image_tags WHERE image_id = ?"));
    let (f, a) = delete_step(f, DeleteEvent::Done);
    assert!(matches!(a, DeleteAction::Execute(ref st) if st.sql == "DELETE FROM images WHERE id = ?"));
    let (f, a) = delete_step(f, DeleteEvent::Done);
    assert!(matches!(a, DeleteAction::Commit));
    let (f, a) = delete_step(f, DeleteEvent::Done);
    assert!(matches!(a, DeleteAction::CheckFile(ref p) if p == "storage/abc.gif"));
    let (f, a) = delete_step(f, DeleteEvent::Exists(true));
    assert!(matches!(a, DeleteAction::RemoveFile(ref p) if p == "storage/abc.gif"));
    let (_, a) = delete_step(f, DeleteEvent::Done);
    assert!(matches!(a, DeleteAction::Finish(Ok(()))));
}

#[test]
fn deleting_a_missing_image_fails() {
    let (f, _) = delete_image(42);
    let (f, a) = delete_step(f, DeleteEvent::Found(None));
    assert!(matches!(a, DeleteAction::Finish(Err(ref m)) if m == "Image not found"));
    assert!(!f.accepts(&DeleteEvent::Done));
}

#[test]
fn a_missing_file_is_not_an_error() {
    let (f, _) = delete_image(1);
    let img = Image { id: 1, filename: "h".to_string(), ext: "png".to_string() };
    let (f, _) = delete_step(f, DeleteEvent::Found(Some(img)));
    let (f, _) = delete_step(f, DeleteEvent::Done);
    let (f, _) = delete_step(f, DeleteEvent::Done);
    let (f, _) = delete_step(f, DeleteEvent::Done);
    let (f, _) = delete_step(f, DeleteEvent::Done);
    let (_, a) = delete_step(f, DeleteEvent::Exists(false));
    assert!(matches!(a, DeleteAction::Finish(Ok(()))));
}

#[test]
fn a_failed_file_removal_is_only_logged() {
    let (f, _) = delete_image(1);
    let img = Image { id: 1, filename: "h".to_string(), ext: "png".to_string() };
    let (f, _) = delete_step(f, DeleteEvent::Found(Some(img)));
    let (f, _) = delete_step(f, DeleteEvent::Done);
    let (f, _) = delete_step(f, DeleteEvent::Done);
    let (f, _) = delete_step(f, DeleteEvent::Done);
    let (f, _) = delete_step(f, DeleteEvent::Done);
    let (f, _) = delete_step(f, DeleteEvent::Exists(true));
    let (_, a) = delete_step(f, DeleteEvent::Failed("permission denied".to_string()));
    assert!(matches!(a, DeleteAction::FinishWithWarning(ref w)
        if w == "Failed to delete file storage/h.png: permission denied"));
}

#[test]
fn a_failure_inside_the_transaction_is_an_error() {
    let (f, _) = delete_image(1);
    let img = Image { id: 1, filename: "h".to_string(), ext: "png".to_string() };
    let (f, _) = delete_step(f, DeleteEvent::Found(Some(img)));
    let (f, _) = delete_step(f, DeleteEvent::Done);
    let (_, a) = delete_step(f, DeleteEvent::Failed("constraint".to_string()));
    assert!(matches!(a, DeleteAction::Finish(Err(ref m)) if m == "constraint"));
}

#[test]
fn search_results_carry_their_urls() {
    let images = vec![
        Image { id: 2, filename: "bb".to_string(), ext: "png".to_string() },
        Image { id: 1, filename: "aa".to_string(), ext: "jpg".to_string() },
    ];
    let r = format_response(images);
    assert_eq!(r.code, 200);
    assert_eq!(r.msg, "Success");
    match r.data {
        ReplyData::Hits(hits) => {
            assert_eq!(hits.len(), 2);
            assert_eq!(hits[0].id, 2);
            assert_eq!(hits[0].url, "http://localhost:1234/images/bb.png");
            assert_eq!(hits[1].url, "http://localhost:1234/images/aa.jpg");
            assert_eq!(hits[1].filename, "aa");
            assert_eq!(hits[1].ext, "jpg");
        }
        _ => panic!(),
    }
}

#[test]
fn replies_of_the_tag_and_delete_requests() {
    let r = tags_added(7, vec!["cat".to_string()]);
    assert_eq!(r.msg, "Tags added");
    assert!(matches!(r.data, ReplyData::TagsAdded { image_id: 7, ref tags } if tags == &vec!["cat".to_string()]));
    let tags = vec![Tag { id: 1, name: "cat".to_string() }];
    let r = get_image_tags(tags);
    assert_eq!(r.msg, "Success");
    assert!(matches!(r.data, ReplyData::Tags(ref t) if t.len() == 1 && t[0].name == "cat"));
    let r = list_tags(Vec::new());
    assert!(matches!(r.data, ReplyData::Tags(ref t) if t.is_empty()));
    let r = deleted_reply();
    assert_eq!(r.code, 200);
    assert_eq!(r.msg, "Deleted successfully");
    assert!(matches!(r.data, ReplyData::Empty));
    let e = server_error("boom".to_string());
    assert_eq!(e.status, 500);
    assert_eq!(e.message, "boom");
}

fn request_step(r: TagRequest, e: TagRequestEvent) -> (TagRequest, TagRequestAction) {
    assert!(r.accepts(&e));
    r.step(e)
}

fn asks_for(a: &TagRequestAction, expected: &str) -> bool {
    matches!(a, TagRequestAction::TagName { image_id: 8, name } if name == expected)
}

#[test]
fn a_tagging_request_tags_each_name_in_order() {
    let payload = AddTagsRequest { tags: vec![" cat".to_string(), "".to_string(), "meme ".to_string()] };
    let (r, a) = add_tags(8, &payload);
    assert!(asks_for(&a, "cat"));
    let (r, a) = request_step(r, TagRequestEvent::Tagged);
    assert!(asks_for(&a, "meme"));
    let (r, a) = request_step(r, TagRequestEvent::Tagged);
    match a {
        TagRequestAction::Respond(reply) => {
            assert_eq!(reply.code, 200);
            assert_eq!(reply.msg, "Tags added");
            assert!(matches!(reply.data, ReplyData::TagsAdded { image_id: 8, ref tags }
                if tags == &vec!["cat".to_string(), "meme".to_string()]));
        }
        _ => panic!("expected the answer"),
    }
    assert!(!r.accepts(&TagRequestEvent::Tagged));
}

#[test]
fn a_tagging_request_stops_at_the_first_failure() {
    let payload = AddTagsRequest { tags: vec!["a".to_string(), "b".to_string(), "c".to_string()] };
    let (r, a) = add_tags(8, &payload);
    assert!(asks_for(&a, "a"));
    let (r, a) = request_step(r, TagRequestEvent::Tagged);
    assert!(asks_for(&a, "b"));
    let (r, a) = request_step(r, TagRequestEvent::Failed("database is locked".to_string()));
    assert!(matches!(a, TagRequestAction::Reject(ref e) if e.status == 500 && e.message == "database is locked"));
    assert!(!r.accepts(&TagRequestEvent::Tagged));
}

#[test]
fn a_tagging_request_without_names_is_answered_at_once() {
    let payload = AddTagsRequest { tags: vec!["  ".to_string()] };
    let (r, a) = add_tags(8, &payload);
    assert!(matches!(a, TagRequestAction::Respond(ref reply)
        if matches!(reply.data, ReplyData::TagsAdded { image_id: 8, ref tags } if tags.is_empty())));
    assert!(!r.accepts(&TagRequestEvent::Tagged));
}
