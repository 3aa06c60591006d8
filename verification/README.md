# memedb

MemeDB stores images by content: an upload is named by the SHA-256 digest of
its bytes, kept once under `storage/<digest>.<ext>`, recorded in SQLite, and
can be tagged, searched by tags and deleted.

- `src/` is the verified library (Verus). It decides everything the service
  does: how search terms and tag names are cleaned (`text`, `tags`), how an
  upload is named and where it is stored (`files`), the SQL that each
  operation runs (`sql`, `services`, `db`), the flows of uploads, taggings
  and deletions, which ask for one database or file operation at a time and
  decide the next from its outcome (`handlers`, `services`), including the
  tagging of a request's names one by one, and the content of every answer
  (`replies`, `handlers`).
- `app/` is the web server (axum, sqlx, tokio). It reads requests, runs the
  statements and file operations that the flows ask for, and writes the
  answers as JSON (its keys are chosen there).
- `tests/` runs the library, including its statements against an in-memory
  SQLite database.
