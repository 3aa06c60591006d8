use memedb::db::{init_db, FOREIGN_KEYS_ON, SCHEMA};
use memedb::handlers::search_images;
use memedb::models::SearchParams;
use memedb::services::{
    create_image, find_image_by_hash, find_images_by_tags, get_tags_by_image_id, list_all_tags,
    LATEST_IMAGES, SEARCH_HEAD,
};
use memedb::sql::Value;

fn text_arg(v: &Value) -> Option<&str> {
    match v {
        Value::Text(s) => Some(s.as_str()),
        Value::Int(_) => None,
    }
}

fn int_arg(v: &Value) -> Option<i64> {
    match v {
        Value::Int(n) => Some(*n),
        Value::Text(_) => None,
    }
}

#[test]
fn a_search_without_tags_lists_the_newest_fifty() {
    let st = find_images_by_tags(Vec::new());
    assert_eq!(st.sql, "SELECT * FROM images ORDER BY id DESC LIMIT 50");
    assert_eq!(st.sql, LATEST_IMAGES);
    assert!(st.binds.is_empty());
}

#[test]
fn a_search_binds_each_tag_and_their_count() {
    let st = find_images_by_tags(vec!["cat".to_string(), "funny".to_string()]);
    let expected = format!(
        "{}?, ?) GROUP BY images.id HAVING COUNT(DISTINCT tags.id) = ? ORDER BY images.id DESC",
        SEARCH_HEAD
    );
    assert_eq!(st.sql, expected);
    assert_eq!(st.binds.len(), 3);
    assert_eq!(text_arg(&st.binds[0]), Some("cat"));
    assert_eq!(text_arg(&st.binds[1]), Some("funny"));
    assert_eq!(int_arg(&st.binds[2]), Some(2));
    assert_eq!(st.sql.matches('?').count(), st.binds.len());
}

#[test]
fn a_search_for_one_tag() {
    let st = find_images_by_tags(vec!["cat".to_string()]);
    assert!(st.sql.starts_with(SEARCH_HEAD));
    assert!(st.sql.ends_with("?) GROUP BY images.id HAVING COUNT(DISTINCT tags.id) = ? ORDER BY images.id DESC"));
    assert_eq!(st.binds.len(), 2);
    assert_eq!(int_arg(&st.binds[1]), Some(1));
}

#[test]
fn a_search_request_parses_its_query() {
    let st = search_images(&SearchParams { tags: Some(" cat ,, meme".to_string()) });
    assert_eq!(st.binds.len(), 3);
    assert_eq!(text_arg(&st.binds[0]), Some("cat"));
    assert_eq!(text_arg(&st.binds[1]), Some("meme"));
    assert_eq!(int_arg(&st.binds[2]), Some(2));
    let st = search_images(&SearchParams { tags: None });
    assert_eq!(st.sql, LATEST_IMAGES);
}

#[test]
fn single_statements() {
    let st = find_image_by_hash("abc");
    assert_eq!(st.sql, "SELECT * FROM images WHERE filename = ?");
    assert_eq!(text_arg(&st.binds[0]), Some("abc"));
    let st = create_image("abc", "jpg");
    assert_eq!(st.sql, "INSERT INTO images (filename, ext) VALUES (?, ?)");
    assert_eq!(text_arg(&st.binds[0]), Some("abc"));
    assert_eq!(text_arg(&st.binds[1]), Some("jpg"));
    let st = get_tags_by_image_id(7);
    assert!(st.sql.contains("WHERE image_tags.image_id = ?"));
    assert_eq!(int_arg(&st.binds[0]), Some(7));
    let st = list_all_tags();
    assert_eq!(st.sql, "SELECT * FROM tags ORDER BY name ASC");
    assert!(st.binds.is_empty());
}

#[test]
fn the_schema_comes_after_foreign_keys() {
    let sts = init_db();
    assert_eq!(sts.len(), 2);
    assert_eq!(sts[0].sql, FOREIGN_KEYS_ON);
    assert_eq!(sts[1].sql, SCHEMA);
    assert!(sts[1].sql.contains("CREATE TABLE IF NOT EXISTS image_tags"));
}

#[test]
fn a_search_binds_each_distinct_tag_once() {
    let st = find_images_by_tags(vec!["cat".to_string(), "meme".to_string(), "cat".to_string()]);
    assert_eq!(st.binds.len(), 3);
    assert_eq!(text_arg(&st.binds[0]), Some("cat"));
    assert_eq!(text_arg(&st.binds[1]), Some("meme"));
    assert_eq!(int_arg(&st.binds[2]), Some(2));
    assert_eq!(st.sql.matches('?').count(), 3);
    let once = find_images_by_tags(vec!["cat".to_string(), "meme".to_string()]);
    assert_eq!(st.sql, once.sql);
}
