use memedb::db::init_db;
use memedb::models::{Image, Tag};
use memedb::services::{
    add_tag_to_image, create_image, delete_image, find_image_by_hash, find_images_by_tags,
    get_tags_by_image_id, DeleteAction, DeleteEvent, TagAction, TagEvent,
};
use memedb::sql::{Statement, Value};
use sqlx::sqlite::{Sqlite, SqliteArguments, SqlitePool, SqlitePoolOptions, SqliteRow};
use sqlx::Row;

fn bound(st: &Statement) -> sqlx::query::Query<'_, Sqlite, SqliteArguments<'_>> {
    let mut q = sqlx::query(st.sql.as_str());
    for v in &st.binds {
        q = match v {
            Value::Int(n) => q.bind(*n),
            Value::Text(s) => q.bind(s.as_str()),
        };
    }
    q
}

fn image_of(row: &SqliteRow) -> Image {
    Image { id: row.get("id"), filename: row.get("filename"), ext: row.get("ext") }
}

async fn prepared_pool() -> SqlitePool {
    let pool = SqlitePoolOptions::new().connect("sqlite::memory:").await.unwrap();
    for st in init_db() {
        bound(&st).execute(&pool).await.unwrap();
    }
    pool
}

async fn insert(pool: &SqlitePool, name: &str, ext: &str) -> i64 {
    bound(&create_image(name, ext)).execute(pool).await.unwrap().last_insert_rowid()
}

async fn tag(pool: &SqlitePool, image_id: i64, name: &str) {
    let (mut flow, mut action) = add_tag_to_image(image_id, name);
    loop {
        let event = match &action {
            TagAction::Execute(st) => {
                bound(st).execute(pool).await.unwrap();
                TagEvent::Executed
            }
            TagAction::FetchId(st) => TagEvent::TagId(bound(st).fetch_one(pool).await.unwrap().get(0)),
            TagAction::Finish(outcome) => {
                assert!(outcome.is_ok());
                return;
            }
        };
        let (next, next_action) = flow.step(event);
        flow = next;
        action = next_action;
    }
}

async fn search(pool: &SqlitePool, tags: &[&str]) -> Vec<i64> {
    let st = find_images_by_tags(tags.iter().map(|t| t.to_string()).collect());
    bound(&st).fetch_all(pool).await.unwrap().iter().map(|r| image_of(r).id).collect()
}

fn block_on<F: std::future::Future>(f: F) -> F::Output {
    tokio::runtime::Builder::new_current_thread().enable_all().build().unwrap().block_on(f)
}

#[test]
fn a_search_needs_every_tag_and_lists_newest_first() {
    block_on(async {
        let pool = prepared_pool().await;
        let a = insert(&pool, "aaa", "jpg").await;
        let b = insert(&pool, "bbb", "png").await;
        tag(&pool, a, "cat").await;
        tag(&pool, a, "funny").await;
        tag(&pool, b, "cat").await;
        tag(&pool, b, "cat").await;
        assert_eq!(search(&pool, &["cat"]).await, vec![b, a]);
        assert_eq!(search(&pool, &["cat", "funny"]).await, vec![a]);
        assert_eq!(search(&pool, &["dog"]).await, Vec::<i64>::new());
        assert_eq!(search(&pool, &[]).await, vec![b, a]);
        // A tag named twice counts once.
        assert_eq!(search(&pool, &["cat", "cat"]).await, vec![b, a]);
        assert_eq!(search(&pool, &["funny", "cat", "funny"]).await, vec![a]);
    });
}

#[test]
fn tagging_twice_links_once() {
    block_on(async {
        let pool = prepared_pool().await;
        let a = insert(&pool, "aaa", "jpg").await;
        tag(&pool, a, "cat").await;
        tag(&pool, a, "cat").await;
        let st = get_tags_by_image_id(a);
        let tags: Vec<Tag> = bound(&st)
            .fetch_all(&pool)
            .await
            .unwrap()
            .iter()
            .map(|r| Tag { id: r.get("id"), name: r.get("name") })
            .collect();
        assert_eq!(tags.len(), 1);
        assert_eq!(tags[0].name, "cat");
    });
}

#[test]
fn a_lookup_by_content_name_finds_the_recorded_image() {
    block_on(async {
        let pool = prepared_pool().await;
        let a = insert(&pool, "abc", "gif").await;
        let found = bound(&find_image_by_hash("abc")).fetch_optional(&pool).await.unwrap();
        let img = image_of(&found.unwrap());
        assert_eq!(img.id, a);
        assert_eq!(img.ext, "gif");
        let missing = bound(&find_image_by_hash("zzz")).fetch_optional(&pool).await.unwrap();
        assert!(missing.is_none());
    });
}

#[test]
fn a_deletion_removes_the_row_and_its_links() {
    block_on(async {
        let pool = prepared_pool().await;
        let a = insert(&pool, "aaa", "jpg").await;
        let b = insert(&pool, "bbb", "jpg").await;
        tag(&pool, a, "cat").await;
        tag(&pool, b, "cat").await;
        let (mut flow, mut action) = delete_image(a);
        let mut tx: Option<sqlx::Transaction<'_, Sqlite>> = None;
        let mut checked: Option<String> = None;
        loop {
            let event = match &action {
                DeleteAction::FetchImage(st) => {
                    DeleteEvent::Found(bound(st).fetch_optional(&pool).await.unwrap().map(|r| image_of(&r)))
                }
                DeleteAction::Begin => {
                    tx = Some(pool.begin().await.unwrap());
                    DeleteEvent::Done
                }
                DeleteAction::Execute(st) => {
                    bound(st).execute(&mut **tx.as_mut().unwrap()).await.unwrap();
                    DeleteEvent::Done
                }
                DeleteAction::Commit => {
                    tx.take().unwrap().commit().await.unwrap();
                    DeleteEvent::Done
                }
                DeleteAction::CheckFile(path) => {
                    checked = Some(path.clone());
                    DeleteEvent::Exists(false)
                }
                DeleteAction::RemoveFile(_) => panic!("no file to remove"),
                DeleteAction::Finish(outcome) => {
                    assert!(outcome.is_ok());
                    break;
                }
                DeleteAction::FinishWithWarning(_) => panic!("no warning expected"),
            };
            let (next, next_action) = flow.step(event);
            flow = next;
            action = next_action;
        }
        assert_eq!(checked, Some("storage/aaa.jpg".to_string()));
        assert_eq!(search(&pool, &["cat"]).await, vec![b]);
        assert_eq!(search(&pool, &[]).await, vec![b]);
        let links: i64 = sqlx::query("SELECT COUNT(*) FROM image_tags").fetch_one(&pool).await.unwrap().get(0);
        assert_eq!(links, 1);
    });
}
