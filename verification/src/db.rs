//! The catalogue's schema.

use vstd::prelude::*;
use crate::sql::{Statement, plain, statement};

verus! {

/// Turns on the enforcement of foreign keys.
pub const FOREIGN_KEYS_ON: &'static str = "PRAGMA foreign_keys = ON;";

/// The tables of images, of tags and of the links between them, and the
/// index by tag.
pub const SCHEMA: &'static str = "\n    CREATE TABLE IF NOT EXISTS images (\n        id          INTEGER PRIMARY KEY AUTOINCREMENT,\n        filename    TEXT UNIQUE NOT NULL,\n        ext         TEXT NOT NULL\n    );\n\n    CREATE TABLE IF NOT EXISTS tags (\n        id          INTEGER PRIMARY KEY AUTOINCREMENT,\n        name        TEXT UNIQUE NOT NULL\n    );\n\n    CREATE TABLE IF NOT EXISTS image_tags (\n        image_id    INTEGER NOT NULL,\n        tag_id      INTEGER NOT NULL,\n        PRIMARY KEY (image_id, tag_id),\n        FOREIGN KEY (image_id) REFERENCES images(id) ON DELETE CASCADE,\n        FOREIGN KEY (tag_id)   REFERENCES tags(id)   ON DELETE CASCADE\n    );\n\n    CREATE INDEX IF NOT EXISTS idx_tag_image ON image_tags(tag_id, image_id);\n    ";

/// The statements that prepare a database, in order: foreign keys on, then
/// the schema.
pub fn init_db() -> (sts: Vec<Statement>)
    ensures
        sts@.len() == 2,
        sts@[0]@ == plain(FOREIGN_KEYS_ON@),
        sts@[1]@ == plain(SCHEMA@),
{
    let mut sts: Vec<Statement> = Vec::new();
    sts.push(statement(FOREIGN_KEYS_ON));
    sts.push(statement(SCHEMA));
    sts
}

} // verus!
