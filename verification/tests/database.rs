use memedb::models::{Image, Tag};
use memedb::services::{
    add_tag_to_image, create_image, find_images_by_tags, list_all_tags, TagAction, TagEvent,
};
use memedb::sql::{Statement, Value};
use sqlx::sqlite::{Sqlite, SqliteArguments, SqlitePool, SqlitePoolOptions, SqliteRow};
use sqlx::Row;

fn bound(st: &Statement) -> sqlx::query::Query<'_, Sqlite, SqliteArguments<'_>> {
    let mut q = sqlx::query(st.sql.as_str());
    for v in &st.binds {
        q = match v {
            Value::Int(n) => q.bind(*n),
            Value::Text(s) => q.bind(s.as_str()),
        };
    }
    q
}

fn image_of(row: &SqliteRow) -> Image {
    Image { id: row.get("id"), filename: row.get("filename"), ext: row.get("ext") }
}

fn tag_of(row: &SqliteRow) -> Tag {
    Tag { id: row.get("id"), name: row.get("name") }
}

async fn run_tagging(pool: &SqlitePool, image_id: i64, name: &str) -> Result<(), String> {
    let (mut flow, mut action) = add_tag_to_image(image_id, name);
    loop {
        let event = match &action {
            TagAction::Execute(st) => match bound(st).execute(pool).await {
                Ok(_) => TagEvent::Executed,
                Err(e) => TagEvent::Failed(e.to_string()),
            },
            TagAction::FetchId(st) => match bound(st).fetch_one(pool).await {
                Ok(row) => TagEvent::TagId(row.get(0)),
                Err(e) => TagEvent::Failed(e.to_string()),
            },
            TagAction::Finish(outcome) => return outcome.clone(),
        };
        assert!(flow.accepts(&event));
        let (next, next_action) = flow.step(event);
        flow = next;
        action = next_action;
    }
}

#[test]
fn test_create_image_and_add_tag() {
    let runtime = tokio::runtime::Builder::new_current_thread().enable_all().build().unwrap();
    runtime.block_on(async {
        let pool = SqlitePoolOptions::new().connect("sqlite::memory:").await.unwrap();

        sqlx::query("
            CREATE TABLE images (
                id INTEGER PRIMARY KEY AUTOINCREMENT,
                filename TEXT NOT NULL UNIQUE,
                ext TEXT NOT NULL
            );
            CREATE TABLE tags (
                id INTEGER PRIMARY KEY AUTOINCREMENT,
                name TEXT NOT NULL UNIQUE
            );
            CREATE TABLE image_tags (
                image_id INTEGER NOT NULL,
                tag_id INTEGER NOT NULL,
                PRIMARY KEY (image_id, tag_id),
                FOREIGN KEY(image_id) REFERENCES images(id),
                FOREIGN KEY(tag_id) REFERENCES tags(id)
            );
        ")
        .execute(&pool)
        .await
        .unwrap();

        let st = create_image("test_hash_123", "jpg");
        let image_id = bound(&st).execute(&pool).await.unwrap().last_insert_rowid();
        assert_eq!(image_id, 1);

        run_tagging(&pool, image_id, "funny").await.unwrap();
        run_tagging(&pool, image_id, "cat").await.unwrap();

        let st = list_all_tags();
        let tags: Vec<Tag> = bound(&st).fetch_all(&pool).await.unwrap().iter().map(tag_of).collect();
        assert_eq!(tags.len(), 2);
        assert!(tags.iter().any(|t| t.name == "funny"));

        let st = find_images_by_tags(vec!["funny".to_string()]);
        let images: Vec<Image> =
            bound(&st).fetch_all(&pool).await.unwrap().iter().map(image_of).collect();
        assert_eq!(images.len(), 1);
        assert_eq!(images[0].filename, "test_hash_123");

        println!("✅ 测试通过！业务逻辑没问题。");
    });
}
