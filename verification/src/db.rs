//! Encrypted note store over SQLite: notes, folders, attachments and
//! embeddings, with note content encrypted before it reaches the database
//! and decrypted after it is read back. The database contents are modeled
//! as maps from row id to row value; each trusted wrapper around one SQL
//! statement says what it does to those maps.
//!
//! The model makes those maps functions of the connection value, so it
//! assumes the connection is the only live handle on its database file:
//! a write through a second connection (or another process) would change
//! the file behind the maps. The engine owns its store exclusively; a
//! caller who opens the same file twice steps outside the model.

use vstd::prelude::*;

use rusqlite::Connection;

use vstd::string::StringSliceAdditionalSpecFns;

use crate::rag::{cosine_milli, cosine_milli_spec, embedding_wf, sort_by_score_desc, sorted_desc};
use crate::security::{decrypt_spec, sealed_layout, xor_fold_spec, Encryptor};
use crate::textutil::{copy_bytes, lex_le};

verus! {

broadcast use vstd::seq_lib::group_to_multiset_ensures;

#[verifier::external_type_specification]
#[verifier::external_body]
pub struct ExConnection(Connection);

/// A note row: title, stored (encrypted) content, created, updated,
/// soft-deleted, folder.
pub type NoteRow = (Seq<u8>, Seq<u8>, i64, i64, bool, Option<i64>);

/// The `notes` table, by id.
pub uninterp spec fn db_notes(c: Connection) -> Map<i64, NoteRow>;

/// The `folders` table, by id: name and creation time.
pub uninterp spec fn db_folders(c: Connection) -> Map<i64, (Seq<u8>, i64)>;

/// The `attachments` table, by id: note id, file type, file path,
/// creation time.
pub uninterp spec fn db_attachments(c: Connection) -> Map<i64, (i64, Seq<u8>, Seq<u8>, i64)>;

/// The `embeddings` table, by note id.
pub uninterp spec fn db_embeddings(c: Connection) -> Map<i64, Seq<i64>>;

/// Every folder id appears in the listing.
pub open spec fn covers_folders(m: Map<i64, (Seq<u8>, i64)>, v: Seq<(i64, Vec<u8>)>) -> bool {
    forall|id: i64|
        #[trigger] m.contains_key(id) ==> exists|i: int|
            0 <= i < v.len() && (#[trigger] v[i]).0 == id
}

/// Every note id of the folder appears in the listing.
pub open spec fn covers_folder_notes(
    m: Map<i64, NoteRow>,
    folder_id: i64,
    v: Seq<(i64, Vec<u8>, Vec<u8>, i64)>,
) -> bool {
    forall|id: i64|
        #[trigger] m.contains_key(id) && m[id].5 == Some(folder_id) ==> exists|i: int|
            0 <= i < v.len() && (#[trigger] v[i]).0 == id
}

/// Every note id changed after `since` appears in the listing.
pub open spec fn covers_modified_notes(
    m: Map<i64, NoteRow>,
    since: i64,
    v: Seq<(i64, Vec<u8>, Vec<u8>, i64)>,
) -> bool {
    forall|id: i64|
        #[trigger] m.contains_key(id) && m[id].3 > since ==> exists|i: int|
            0 <= i < v.len() && (#[trigger] v[i]).0 == id
}

/// Every attachment id of the note appears in the listing.
pub open spec fn covers_note_attachments(
    m: Map<i64, (i64, Seq<u8>, Seq<u8>, i64)>,
    note_id: i64,
    v: Seq<(i64, Vec<u8>, Vec<u8>)>,
) -> bool {
    forall|id: i64|
        #[trigger] m.contains_key(id) && m[id].0 == note_id ==> exists|i: int|
            0 <= i < v.len() && (#[trigger] v[i]).0 == id
}

/// All four content maps are unchanged.
pub open spec fn db_unchanged(a: Connection, b: Connection) -> bool {
    &&& db_notes(b) == db_notes(a)
    &&& db_folders(b) == db_folders(a)
    &&& db_attachments(b) == db_attachments(a)
    &&& db_embeddings(b) == db_embeddings(a)
}

/// Relies on rusqlite's `Connection::open_in_memory` and `execute_batch`:
/// a fresh in-memory database holds no rows, and the schema statements
/// only create empty tables.
#[verifier::external_body]
fn open_store_memory() -> (r: Option<Connection>)
    ensures
        match r {
            Some(c) => db_notes(c) == Map::<i64, NoteRow>::empty() && db_folders(c) == Map::<
                i64,
                (Seq<u8>, i64),
            >::empty() && db_attachments(c) == Map::<i64, (i64, Seq<u8>, Seq<u8>, i64)>::empty()
                && db_embeddings(c) == Map::<i64, Seq<i64>>::empty(),
            None => true,
        },
{
    let c = Connection::open_in_memory().ok()?;
    c.execute_batch("CREATE TABLE IF NOT EXISTS notes (id INTEGER PRIMARY KEY, title BLOB, content BLOB, tags TEXT, created_at INTEGER, updated_at INTEGER, is_deleted INTEGER DEFAULT 0, folder_id INTEGER DEFAULT NULL); CREATE TABLE IF NOT EXISTS audio_chunks (id INTEGER PRIMARY KEY, note_id INTEGER, data BLOB, duration_ms INTEGER, created_at INTEGER); CREATE VIRTUAL TABLE IF NOT EXISTS notes_fts USING fts5(title, content); CREATE TABLE IF NOT EXISTS folders (id INTEGER PRIMARY KEY, name BLOB NOT NULL, created_at INTEGER); CREATE TABLE IF NOT EXISTS attachments (id INTEGER PRIMARY KEY, note_id INTEGER, file_type BLOB, file_path BLOB, created_at INTEGER); CREATE TABLE IF NOT EXISTS embeddings (note_id INTEGER PRIMARY KEY, vec BLOB);").ok()?;
    Some(c)
}

/// Relies on rusqlite's `Connection::open`, `query_row` (for the WAL
/// pragma, whose result must be consumed) and `execute_batch`: opens or
/// creates the database file; what it already holds is unknown here.
#[verifier::external_body]
fn open_store_file(path: &str) -> (r: Option<Connection>) {
    let c = Connection::open(path).ok()?;
    let _mode: String = c.query_row("PRAGMA journal_mode=WAL;", [], |row| row.get(0)).ok()?;
    c.execute_batch("PRAGMA synchronous=NORMAL;").ok()?;
    c.execute_batch("CREATE TABLE IF NOT EXISTS notes (id INTEGER PRIMARY KEY, title BLOB, content BLOB, tags TEXT, created_at INTEGER, updated_at INTEGER, is_deleted INTEGER DEFAULT 0, folder_id INTEGER DEFAULT NULL); CREATE TABLE IF NOT EXISTS audio_chunks (id INTEGER PRIMARY KEY, note_id INTEGER, data BLOB, duration_ms INTEGER, created_at INTEGER); CREATE VIRTUAL TABLE IF NOT EXISTS notes_fts USING fts5(title, content); CREATE TABLE IF NOT EXISTS folders (id INTEGER PRIMARY KEY, name BLOB NOT NULL, created_at INTEGER); CREATE TABLE IF NOT EXISTS attachments (id INTEGER PRIMARY KEY, note_id INTEGER, file_type BLOB, file_path BLOB, created_at INTEGER); CREATE TABLE IF NOT EXISTS embeddings (note_id INTEGER PRIMARY KEY, vec BLOB);").ok()?;
    Some(c)
}

/// Relies on SQLite `INSERT INTO notes` and `last_insert_rowid`: on
/// success one row is added under a fresh id and nothing else
/// changes; on failure nothing changes.
#[verifier::external_body]
fn insert_note_row(
    c: &mut Connection,
    title: &[u8],
    content: &[u8],
    ts: i64,
    folder_id: Option<i64>,
) -> (r: Option<i64>)
    ensures
        match r {
            Some(id) => !db_notes(*old(c)).contains_key(id) && db_notes(*final(c))
                == db_notes(*old(c)).insert(id, (title@, content@, ts, ts, false, folder_id))
                && db_folders(*final(c)) == db_folders(*old(c)) && db_attachments(*final(c))
                == db_attachments(*old(c)) && db_embeddings(*final(c)) == db_embeddings(*old(c)),
            None => db_unchanged(*old(c), *final(c)),
        },
{
    let n = c.execute(
        "INSERT INTO notes (title, content, created_at, updated_at, folder_id) VALUES (?1, ?2, ?3, ?3, ?4)",
        (title, content, ts, folder_id),
    ).ok()?;
    if n != 1 {
        return None;
    }
    Some(c.last_insert_rowid())
}

/// Relies on SQLite `SELECT ... FROM notes WHERE id = ? AND is_deleted = 0`:
/// returns the row's title, stored content and update time exactly when a
/// live row with that id exists; reading changes nothing.
#[verifier::external_body]
fn get_note_row(c: &Connection, note_id: i64) -> (r: Result<Option<(Vec<u8>, Vec<u8>, i64)>, ()>)
    ensures
        match r {
            Ok(Some(v)) => db_notes(*c).contains_key(note_id) && !db_notes(*c)[note_id].4
                && v.0@ == db_notes(*c)[note_id].0 && v.1@ == db_notes(*c)[note_id].1 && v.2
                == db_notes(*c)[note_id].3,
            Ok(None) => !(db_notes(*c).contains_key(note_id) && !db_notes(*c)[note_id].4),
            Err(()) => true,
        },
{
    let res = c.query_row(
        "SELECT title, content, updated_at FROM notes WHERE id = ?1 AND is_deleted = 0",
        (note_id,),
        |row| Ok((row.get::<_, Vec<u8>>(0)?, row.get::<_, Vec<u8>>(1)?, row.get::<_, i64>(2)?)),
    );
    match res {
        Ok(v) => Ok(Some(v)),
        Err(rusqlite::Error::QueryReturnedNoRows) => Ok(None),
        Err(_) => Err(()),
    }
}

/// Relies on SQLite `UPDATE notes SET title, content, updated_at WHERE id`:
/// on success the row, if present, carries the new title, content and
/// update time (created, deleted and folder kept); nothing else changes.
/// On failure nothing changes.
#[verifier::external_body]
fn update_note_row(c: &mut Connection, note_id: i64, title: &[u8], content: &[u8], ts: i64) -> (r:
    bool)
    ensures
        r ==> db_notes(*final(c)) == (if db_notes(*old(c)).contains_key(note_id) {
            db_notes(*old(c)).insert(
                note_id,
                (
                    title@,
                    content@,
                    db_notes(*old(c))[note_id].2,
                    ts,
                    db_notes(*old(c))[note_id].4,
                    db_notes(*old(c))[note_id].5,
                ),
            )
        } else {
            db_notes(*old(c))
        }) && db_folders(*final(c)) == db_folders(*old(c)) && db_attachments(*final(c))
            == db_attachments(*old(c)) && db_embeddings(*final(c)) == db_embeddings(*old(c)),
        !r ==> db_unchanged(*old(c), *final(c)),
{
    c.execute(
        "UPDATE notes SET title = ?1, content = ?2, updated_at = ?3 WHERE id = ?4",
        (title, content, ts, note_id),
    ).is_ok()
}

/// Relies on SQLite `UPDATE notes SET is_deleted = 1, updated_at WHERE id`:
/// a soft delete; on success the row, if present, is marked deleted with
/// the new update time; nothing else changes. On failure nothing changes.
#[verifier::external_body]
fn delete_note_row(c: &mut Connection, note_id: i64, ts: i64) -> (r: bool)
    ensures
        r ==> db_notes(*final(c)) == (if db_notes(*old(c)).contains_key(note_id) {
            db_notes(*old(c)).insert(
                note_id,
                (
                    db_notes(*old(c))[note_id].0,
                    db_notes(*old(c))[note_id].1,
                    db_notes(*old(c))[note_id].2,
                    ts,
                    true,
                    db_notes(*old(c))[note_id].5,
                ),
            )
        } else {
            db_notes(*old(c))
        }) && db_folders(*final(c)) == db_folders(*old(c)) && db_attachments(*final(c))
            == db_attachments(*old(c)) && db_embeddings(*final(c)) == db_embeddings(*old(c)),
        !r ==> db_unchanged(*old(c), *final(c)),
{
    c.execute(
        "UPDATE notes SET is_deleted = 1, updated_at = ?1 WHERE id = ?2",
        (ts, note_id),
    ).is_ok()
}

/// Relies on SQLite `INSERT INTO folders` and `last_insert_rowid`: as for
/// notes.
#[verifier::external_body]
fn insert_folder_row(c: &mut Connection, name: &[u8], ts: i64) -> (r: Option<i64>)
    ensures
        match r {
            Some(id) => !db_folders(*old(c)).contains_key(id) && db_folders(*final(c))
                == db_folders(*old(c)).insert(id, (name@, ts)) && db_notes(*final(c)) == db_notes(
                *old(c),
            ) && db_attachments(*final(c)) == db_attachments(*old(c)) && db_embeddings(*final(c))
                == db_embeddings(*old(c)),
            None => db_unchanged(*old(c), *final(c)),
        },
{
    let n = c.execute(
        "INSERT INTO folders (name, created_at) VALUES (?1, ?2)",
        (name, ts),
    ).ok()?;
    if n != 1 {
        return None;
    }
    Some(c.last_insert_rowid())
}

/// Relies on SQLite `SELECT id, name FROM folders ORDER BY name ASC`
/// (blobs compare bytewise): every folder once, sorted by name; reading
/// changes nothing.
#[verifier::external_body]
fn query_folder_rows(c: &Connection) -> (r: Result<Vec<(i64, Vec<u8>)>, ()>)
    ensures
        match r {
            Ok(v) => {
                &&& forall|i: int|
                    0 <= i < v@.len() ==> db_folders(*c).contains_key(#[trigger] v@[i].0)
                        && db_folders(*c)[v@[i].0].0 == v@[i].1@
                &&& covers_folders(db_folders(*c), v@)
                &&& forall|i: int, j: int|
                    0 <= i < j < v@.len() ==> #[trigger] v@[i].0 != #[trigger] v@[j].0
                &&& forall|i: int, j: int|
                    0 <= i <= j < v@.len() ==> lex_le(#[trigger] v@[i].1@, #[trigger] v@[j].1@)
            },
            Err(()) => true,
        },
{
    let mut stmt = c.prepare("SELECT id, name FROM folders ORDER BY name ASC").map_err(|_| ())?;
    let rows = stmt.query_map([], |row| Ok((row.get(0)?, row.get::<_, Vec<u8>>(1)?))).map_err(
        |_| (),
    )?;
    let mut out = Vec::new();
    for row in rows {
        out.push(row.map_err(|_| ())?);
    }
    Ok(out)
}

/// Relies on SQLite `SELECT ... FROM notes WHERE folder_id = ? ORDER BY
/// updated_at DESC`: every note of the folder once (deleted included, as
/// stored), newest first; reading changes nothing.
#[verifier::external_body]
fn query_notes_by_folder_rows(c: &Connection, folder_id: i64) -> (r: Result<
    Vec<(i64, Vec<u8>, Vec<u8>, i64)>,
    (),
>)
    ensures
        match r {
            Ok(v) => {
                &&& forall|i: int|
                    0 <= i < v@.len() ==> db_notes(*c).contains_key(#[trigger] v@[i].0) && db_notes(
                        *c,
                    )[v@[i].0].5 == Some(folder_id) && db_notes(*c)[v@[i].0].0 == v@[i].1@
                        && db_notes(*c)[v@[i].0].1 == v@[i].2@ && db_notes(*c)[v@[i].0].3 == v@[i].3
                &&& covers_folder_notes(db_notes(*c), folder_id, v@)
                &&& forall|i: int, j: int|
                    0 <= i < j < v@.len() ==> #[trigger] v@[i].0 != #[trigger] v@[j].0
                &&& forall|i: int, j: int| 0 <= i <= j < v@.len() ==> v@[i].3 >= v@[j].3
            },
            Err(()) => true,
        },
{
    let mut stmt = c.prepare(
        "SELECT id, title, content, updated_at FROM notes WHERE folder_id = ?1 ORDER BY updated_at DESC",
    ).map_err(|_| ())?;
    let rows = stmt.query_map((folder_id,), |row| {
        Ok((row.get(0)?, row.get::<_, Vec<u8>>(1)?, row.get::<_, Vec<u8>>(2)?, row.get(3)?))
    }).map_err(|_| ())?;
    let mut out = Vec::new();
    for row in rows {
        out.push(row.map_err(|_| ())?);
    }
    Ok(out)
}

/// Relies on SQLite `SELECT ... FROM notes WHERE updated_at > ?`: every
/// note changed after `since`, once, content as stored (encrypted);
/// reading changes nothing.
#[verifier::external_body]
fn query_modified_rows(c: &Connection, since: i64) -> (r: Result<
    Vec<(i64, Vec<u8>, Vec<u8>, i64)>,
    (),
>)
    ensures
        match r {
            Ok(v) => {
                &&& forall|i: int|
                    0 <= i < v@.len() ==> db_notes(*c).contains_key(#[trigger] v@[i].0) && db_notes(
                        *c,
                    )[v@[i].0].3 > since && db_notes(*c)[v@[i].0].0 == v@[i].1@ && db_notes(
                        *c,
                    )[v@[i].0].1 == v@[i].2@ && db_notes(*c)[v@[i].0].3 == v@[i].3
                &&& covers_modified_notes(db_notes(*c), since, v@)
                &&& forall|i: int, j: int|
                    0 <= i < j < v@.len() ==> #[trigger] v@[i].0 != #[trigger] v@[j].0
            },
            Err(()) => true,
        },
{
    let mut stmt = c.prepare(
        "SELECT id, title, content, updated_at FROM notes WHERE updated_at > ?1",
    ).map_err(|_| ())?;
    let rows = stmt.query_map((since,), |row| {
        Ok((row.get(0)?, row.get::<_, Vec<u8>>(1)?, row.get::<_, Vec<u8>>(2)?, row.get(3)?))
    }).map_err(|_| ())?;
    let mut out = Vec::new();
    for row in rows {
        out.push(row.map_err(|_| ())?);
    }
    Ok(out)
}

/// Relies on SQLite `INSERT INTO attachments` and `last_insert_rowid`: as
/// for notes.
#[verifier::external_body]
fn insert_attachment_row(
    c: &mut Connection,
    note_id: i64,
    file_type: &[u8],
    file_path: &[u8],
    ts: i64,
) -> (r: Option<i64>)
    ensures
        match r {
            Some(id) => !db_attachments(*old(c)).contains_key(id) && db_attachments(
                *final(c),
            ) == db_attachments(*old(c)).insert(id, (note_id, file_type@, file_path@, ts))
                && db_notes(*final(c)) == db_notes(*old(c)) && db_folders(*final(c)) == db_folders(
                *old(c),
            ) && db_embeddings(*final(c)) == db_embeddings(*old(c)),
            None => db_unchanged(*old(c), *final(c)),
        },
{
    let n = c.execute(
        "INSERT INTO attachments (note_id, file_type, file_path, created_at) VALUES (?1, ?2, ?3, ?4)",
        (note_id, file_type, file_path, ts),
    ).ok()?;
    if n != 1 {
        return None;
    }
    Some(c.last_insert_rowid())
}

/// Relies on SQLite `SELECT ... FROM attachments WHERE note_id = ?`: every
/// attachment of the note once; reading changes nothing.
#[verifier::external_body]
fn query_attachment_rows(c: &Connection, note_id: i64) -> (r: Result<Vec<(i64, Vec<u8>, Vec<u8>)>, ()>)
    ensures
        match r {
            Ok(v) => {
                &&& forall|i: int|
                    0 <= i < v@.len() ==> db_attachments(*c).contains_key(#[trigger] v@[i].0)
                        && db_attachments(*c)[v@[i].0].0 == note_id && db_attachments(
                        *c,
                    )[v@[i].0].1 == v@[i].1@ && db_attachments(*c)[v@[i].0].2 == v@[i].2@
                &&& covers_note_attachments(db_attachments(*c), note_id, v@)
                &&& forall|i: int, j: int|
                    0 <= i < j < v@.len() ==> #[trigger] v@[i].0 != #[trigger] v@[j].0
            },
            Err(()) => true,
        },
{
    let mut stmt = c.prepare(
        "SELECT id, file_type, file_path FROM attachments WHERE note_id = ?1",
    ).map_err(|_| ())?;
    let rows = stmt.query_map((note_id,), |row| {
        Ok((row.get(0)?, row.get::<_, Vec<u8>>(1)?, row.get::<_, Vec<u8>>(2)?))
    }).map_err(|_| ())?;
    let mut out = Vec::new();
    for row in rows {
        out.push(row.map_err(|_| ())?);
    }
    Ok(out)
}

/// Relies on SQLite `INSERT OR REPLACE INTO embeddings`: on success the
/// note's embedding is set (the vector is stored as its little-endian
/// bytes, converted back on load) and nothing else changes; on failure
/// nothing changes.
#[verifier::external_body]
fn upsert_embedding_row(c: &mut Connection, note_id: i64, emb: &Vec<i64>) -> (r: bool)
    ensures
        r ==> db_embeddings(*final(c)) == db_embeddings(*old(c)).insert(note_id, emb@)
            && db_notes(*final(c)) == db_notes(*old(c)) && db_folders(*final(c)) == db_folders(
            *old(c),
        ) && db_attachments(*final(c)) == db_attachments(*old(c)),
        !r ==> db_unchanged(*old(c), *final(c)),
{
    let mut blob: Vec<u8> = Vec::new();
    for x in emb.iter() {
        blob.extend_from_slice(&x.to_le_bytes());
    }
    c.execute(
        "INSERT OR REPLACE INTO embeddings (note_id, vec) VALUES (?1, ?2)",
        (note_id, blob),
    ).is_ok()
}

/// Relies on SQLite `SELECT note_id, vec FROM embeddings`: every stored
/// embedding once (bytes converted back to the stored vector); reading
/// changes nothing.
#[verifier::external_body]
fn load_embedding_rows(c: &Connection) -> (r: Result<Vec<(i64, Vec<i64>)>, ()>)
    ensures
        match r {
            Ok(v) => {
                &&& forall|i: int|
                    0 <= i < v@.len() ==> db_embeddings(*c).contains_key(#[trigger] v@[i].0)
                        && db_embeddings(*c)[v@[i].0] == v@[i].1@
                &&& forall|id: i64|
                    #[trigger] db_embeddings(*c).contains_key(id) ==> exists|i: int|
                        0 <= i < v@.len() && (#[trigger] v@[i]).0 == id
                &&& forall|i: int, j: int|
                    0 <= i < j < v@.len() ==> #[trigger] v@[i].0 != #[trigger] v@[j].0
                &&& v@.len() == db_embeddings(*c).dom().len()
            },
            Err(()) => true,
        },
{
    let mut stmt = c.prepare("SELECT note_id, vec FROM embeddings").map_err(|_| ())?;
    let rows = stmt.query_map([], |row| {
        let id: i64 = row.get(0)?;
        let blob: Vec<u8> = row.get(1)?;
        let v: Vec<i64> = blob.chunks_exact(8).map(
            |ch| i64::from_le_bytes([ch[0], ch[1], ch[2], ch[3], ch[4], ch[5], ch[6], ch[7]]),
        ).collect();
        Ok((id, v))
    }).map_err(|_| ())?;
    let mut out = Vec::new();
    for row in rows {
        out.push(row.map_err(|_| ())?);
    }
    Ok(out)
}

/// Relies on std's `SystemTime::now` and `duration_since` for the
/// wall-clock unix timestamp. Nothing is assumed of the value; a clock
/// before 1970 reads as zero, so no branch panics.
#[verifier::external_body]
pub(crate) fn now_ts() -> (r: i64) {
    match std::time::SystemTime::now().duration_since(std::time::UNIX_EPOCH) {
        Ok(d) => d.as_secs() as i64,
        Err(_) => 0,
    }
}


/// Errors a store operation can surface.
#[derive(Debug, Clone, Copy, PartialEq, Eq, Structural)]
pub enum StoreError {
    /// The underlying database refused the operation.
    Backend,
    /// Content could not be encrypted (random source or cipher failure).
    EncryptionFailed,
    /// No live row with the requested id.
    NotFound,
}

/// The bytes of "Decryption Failed", returned as content when stored
/// bytes do not authenticate.
pub open spec fn decryption_failed_text() -> Seq<u8> {
    seq![
        68u8, 101u8, 99u8, 114u8, 121u8, 112u8, 116u8, 105u8, 111u8, 110u8, 32u8, 70u8, 97u8,
        105u8, 108u8, 101u8, 100u8,
    ]
}

/// What reading a stored content blob yields: the plaintext, or the fixed
/// notice when it does not decrypt.
pub open spec fn content_plain(key: Seq<u8>, blob: Seq<u8>) -> Seq<u8> {
    match decrypt_spec(key, blob) {
        Some(p) => p,
        None => decryption_failed_text(),
    }
}

/// The score under which stored embeddings are ranked: the milli-cosine
/// against the query, with ill-formed (unscorable) embeddings at zero.
pub open spec fn rank_score(q: Seq<i64>, e: Seq<i64>) -> int {
    if embedding_wf(e) {
        cosine_milli_spec(q, e)
    } else {
        0
    }
}

/// `v` is the `k`-prefix of some full non-increasing ranking of all the
/// stored embeddings, scored against `q`.
pub open spec fn ranking_prefix(
    v: Seq<(i64, i64)>,
    emb: Map<i64, Seq<i64>>,
    q: Seq<i64>,
    k: int,
) -> bool {
    exists|full: Seq<(i64, i64)>|
        {
            &&& #[trigger] sorted_desc(full)
            &&& full.len() == emb.dom().len()
            &&& v == (if k <= full.len() {
                full.take(k)
            } else {
                full
            })
            &&& forall|i: int|
                0 <= i < full.len() ==> emb.contains_key(#[trigger] full[i].0) && full[i].1 as int
                    == rank_score(q, emb[full[i].0])
            &&& forall|id: i64|
                emb.contains_key(id) ==> exists|i: int|
                    0 <= i < full.len() && (#[trigger] full[i]).0 == id
        }
}

/// Whether an embedding is within the scorer's bounds.
fn check_embedding_wf(v: &[i64]) -> (r: bool)
    ensures
        r == embedding_wf(v@),
{
    let len = v.len();
    if len > 4096 {
        return false;
    }
    let mut i: usize = 0;
    while i < len
        invariant
            len == v@.len() <= 4096,
            0 <= i <= len,
            forall|j: int| 0 <= j < i ==> -1000000 <= #[trigger] v@[j] <= 1000000,
        decreases len - i,
    {
        if v[i] < -1000000 || v[i] > 1000000 {
            return false;
        }
        i += 1;
    }
    true
}

/// The encrypted note store: a SQLite database and the key that guards
/// note content.
pub struct Database {
    conn: Connection,
    encryptor: Encryptor,
}

impl Database {
    pub closed spec fn notes(&self) -> Map<i64, NoteRow> {
        db_notes(self.conn)
    }

    pub closed spec fn folders(&self) -> Map<i64, (Seq<u8>, i64)> {
        db_folders(self.conn)
    }

    pub closed spec fn attachments(&self) -> Map<i64, (i64, Seq<u8>, Seq<u8>, i64)> {
        db_attachments(self.conn)
    }

    pub closed spec fn embeddings(&self) -> Map<i64, Seq<i64>> {
        db_embeddings(self.conn)
    }

    /// The derived content key.
    pub closed spec fn key(&self) -> Seq<u8> {
        self.encryptor.key_view()
    }

    pub open spec fn wf(&self) -> bool {
        self.key().len() == 32
    }

    /// Everything except the notes table is unchanged.
    pub open spec fn same_but_notes(pre: Self, post: Self) -> bool {
        &&& post.folders() == pre.folders()
        &&& post.attachments() == pre.attachments()
        &&& post.embeddings() == pre.embeddings()
        &&& post.key() == pre.key()
    }

    /// Open or create the store at `path`, deriving the key from the
    /// passphrase. What an existing file holds is unknown. The contracts
    /// of this store assume this is the only live handle on the file:
    /// do not open the same path twice.
    pub fn open(path: &str, password: &str) -> (r: Option<Database>)
        ensures
            match r {
                Some(d) => d.wf() && d.key() == xor_fold_spec(password.spec_bytes()),
                None => true,
            },
    {
        let encryptor = Encryptor::new(password.as_bytes());
        match open_store_file(path) {
            Some(conn) => Some(Database { conn, encryptor }),
            None => None,
        }
    }

    /// Open a fresh in-memory store: all tables start empty.
    pub fn open_in_memory(password: &str) -> (r: Option<Database>)
        ensures
            match r {
                Some(d) => d.wf() && d.key() == xor_fold_spec(password.spec_bytes()) && d.notes()
                    == Map::<i64, NoteRow>::empty() && d.folders() == Map::<
                    i64,
                    (Seq<u8>, i64),
                >::empty() && d.attachments() == Map::<
                    i64,
                    (i64, Seq<u8>, Seq<u8>, i64),
                >::empty() && d.embeddings() == Map::<i64, Seq<i64>>::empty(),
                None => true,
            },
    {
        let encryptor = Encryptor::new(password.as_bytes());
        match open_store_memory() {
            Some(conn) => Some(Database { conn, encryptor }),
            None => None,
        }
    }

    /// Insert a note with encrypted content under a fresh id; `created`
    /// and `updated` both carry the insertion time.
    pub fn add_note(&mut self, title: &[u8], content: &[u8], folder_id: Option<i64>) -> (r: Result<
        i64,
        StoreError,
    >)
        requires
            old(self).wf(),
        ensures
            final(self).wf(),
            Self::same_but_notes(*old(self), *final(self)),
            match r {
                Ok(id) => !old(self).notes().contains_key(id) && exists|
                    blob: Seq<u8>,
                    ts: i64,
                |
                    sealed_layout(old(self).key(), blob, content@) && final(self).notes() == old(
                        self,
                    ).notes().insert(id, (title@, blob, ts, ts, false, folder_id)),
                Err(e) => final(self).notes() == old(self).notes() && (e == StoreError::Backend || e
                    == StoreError::EncryptionFailed),
            },
    {
        let ts = now_ts();
        let blob = match self.encryptor.encrypt(content) {
            Some(b) => b,
            None => {
                return Err(StoreError::EncryptionFailed);
            },
        };
        match insert_note_row(&mut self.conn, title, blob.as_slice(), ts, folder_id) {
            Some(id) => {
                proof {
                    let b = blob@;
                    assert(sealed_layout(self.key(), b, content@));
                }
                Ok(id)
            },
            None => Err(StoreError::Backend),
        }
    }

    /// Fetch a live note: id, title, decrypted content (or the fixed
    /// notice when decryption fails), update time. `NotFound` exactly
    /// when no live row has this id.
    pub fn get_note(&self, note_id: i64) -> (r: Result<(i64, Vec<u8>, Vec<u8>, i64), StoreError>)
        requires
            self.wf(),
        ensures
            match r {
                Ok(v) => self.notes().contains_key(note_id) && !self.notes()[note_id].4 && v.0
                    == note_id && v.1@ == self.notes()[note_id].0 && v.2@ == content_plain(
                    self.key(),
                    self.notes()[note_id].1,
                ) && v.3 == self.notes()[note_id].3,
                Err(StoreError::NotFound) => !(self.notes().contains_key(note_id)
                    && !self.notes()[note_id].4),
                Err(StoreError::Backend) => true,
                Err(StoreError::EncryptionFailed) => false,
            },
    {
        let row = match get_note_row(&self.conn, note_id) {
            Ok(Some(v)) => v,
            Ok(None) => {
                return Err(StoreError::NotFound);
            },
            Err(()) => {
                return Err(StoreError::Backend);
            },
        };
        let (title, blob, updated) = row;
        let content = self.decrypt_or_notice(blob.as_slice());
        Ok((note_id, title, content, updated))
    }

    /// Decrypt a stored blob, or return the fixed notice.
    fn decrypt_or_notice(&self, blob: &[u8]) -> (r: Vec<u8>)
        requires
            self.wf(),
        ensures
            r@ == content_plain(self.key(), blob@),
    {
        match self.encryptor.decrypt(blob) {
            Some(p) => p,
            None => {
                let notice: [u8; 17] = [
                    68, 101, 99, 114, 121, 112, 116, 105, 111, 110, 32, 70, 97, 105, 108, 101, 100,
                ];
                let mut r: Vec<u8> = Vec::new();
                r.extend_from_slice(notice.as_slice());
                proof {
                    assert(r@ =~= decryption_failed_text());
                }
                r
            },
        }
    }

    /// Re-title and re-encrypt a note; a missing id changes nothing and is
    /// not an error, as in the underlying SQL.
    pub fn update_note(&mut self, note_id: i64, title: &[u8], content: &[u8]) -> (r: Result<
        (),
        StoreError,
    >)
        requires
            old(self).wf(),
        ensures
            final(self).wf(),
            Self::same_but_notes(*old(self), *final(self)),
            match r {
                Ok(()) => (old(self).notes().contains_key(note_id) ==> exists|
                    blob: Seq<u8>,
                    ts: i64,
                |
                    sealed_layout(old(self).key(), blob, content@) && final(self).notes() == old(
                        self,
                    ).notes().insert(
                        note_id,
                        (
                            title@,
                            blob,
                            old(self).notes()[note_id].2,
                            ts,
                            old(self).notes()[note_id].4,
                            old(self).notes()[note_id].5,
                        ),
                    )) && (!old(self).notes().contains_key(note_id) ==> final(self).notes() == old(
                    self,
                ).notes()),
                Err(e) => final(self).notes() == old(self).notes() && (e == StoreError::Backend || e
                    == StoreError::EncryptionFailed),
            },
    {
        let ts = now_ts();
        let blob = match self.encryptor.encrypt(content) {
            Some(b) => b,
            None => {
                return Err(StoreError::EncryptionFailed);
            },
        };
        if update_note_row(&mut self.conn, note_id, title, blob.as_slice(), ts) {
            Ok(())
        } else {
            Err(StoreError::Backend)
        }
    }

    /// Soft-delete a note; a missing id changes nothing and is not an
    /// error, as in the underlying SQL.
    pub fn delete_note(&mut self, note_id: i64) -> (r: Result<(), StoreError>)
        requires
            old(self).wf(),
        ensures
            final(self).wf(),
            Self::same_but_notes(*old(self), *final(self)),
            match r {
                Ok(()) => (old(self).notes().contains_key(note_id) ==> exists|ts: i64|
                    final(self).notes() == old(self).notes().insert(
                        note_id,
                        (
                            old(self).notes()[note_id].0,
                            old(self).notes()[note_id].1,
                            old(self).notes()[note_id].2,
                            ts,
                            true,
                            old(self).notes()[note_id].5,
                        ),
                    )) && (!old(self).notes().contains_key(note_id) ==> final(self).notes() == old(
                    self,
                ).notes()),
                Err(e) => final(self).notes() == old(self).notes() && e == StoreError::Backend,
            },
    {
        let ts = now_ts();
        if delete_note_row(&mut self.conn, note_id, ts) {
            Ok(())
        } else {
            Err(StoreError::Backend)
        }
    }

    /// Create a folder under a fresh id.
    pub fn create_folder(&mut self, name: &[u8]) -> (r: Result<i64, StoreError>)
        requires
            old(self).wf(),
        ensures
            final(self).wf(),
            final(self).notes() == old(self).notes(),
            final(self).attachments() == old(self).attachments(),
            final(self).embeddings() == old(self).embeddings(),
            final(self).key() == old(self).key(),
            match r {
                Ok(id) => !old(self).folders().contains_key(id) && exists|ts: i64|
                    final(self).folders() == old(self).folders().insert(id, (name@, ts)),
                Err(e) => final(self).folders() == old(self).folders() && e == StoreError::Backend,
            },
    {
        let ts = now_ts();
        match insert_folder_row(&mut self.conn, name, ts) {
            Some(id) => Ok(id),
            None => Err(StoreError::Backend),
        }
    }

    /// All folders, sorted by name.
    pub fn get_folders(&self) -> (r: Result<Vec<(i64, Vec<u8>)>, StoreError>)
        requires
            self.wf(),
        ensures
            r matches Ok(v) ==> forall|i: int|
                0 <= i < v@.len() ==> self.folders().contains_key(#[trigger] v@[i].0)
                    && self.folders()[v@[i].0].0 == v@[i].1@,
            r matches Ok(v) ==> covers_folders(self.folders(), v@),
            r matches Ok(v) ==> forall|i: int, j: int|
                0 <= i < j < v@.len() ==> #[trigger] v@[i].0 != #[trigger] v@[j].0,
            r matches Ok(v) ==> forall|i: int, j: int|
                0 <= i <= j < v@.len() ==> lex_le(#[trigger] v@[i].1@, #[trigger] v@[j].1@),
            r matches Err(e) ==> e == StoreError::Backend,
    {
        let out = match query_folder_rows(&self.conn) {
            Ok(v) => v,
            Err(()) => {
                return Err(StoreError::Backend);
            },
        };
        Ok(out)
    }

    /// The notes of a folder, newest first, content decrypted (or the
    /// fixed notice).
    pub fn get_notes_by_folder(&self, folder_id: i64) -> (r: Result<
        Vec<(i64, Vec<u8>, Vec<u8>, i64)>,
        StoreError,
    >)
        requires
            self.wf(),
        ensures
            r matches Ok(v) ==> forall|i: int|
                0 <= i < v@.len() ==> self.notes().contains_key(#[trigger] v@[i].0)
                    && self.notes()[v@[i].0].5 == Some(folder_id) && self.notes()[v@[i].0].0
                    == v@[i].1@ && v@[i].2@ == content_plain(self.key(), self.notes()[v@[i].0].1)
                    && self.notes()[v@[i].0].3 == v@[i].3,
            r matches Ok(v) ==> covers_folder_notes(self.notes(), folder_id, v@),
            r matches Ok(v) ==> forall|i: int, j: int|
                0 <= i <= j < v@.len() ==> #[trigger] v@[i].3 >= #[trigger] v@[j].3,
            r matches Err(e) ==> e == StoreError::Backend,
    {
        let rows = match query_notes_by_folder_rows(&self.conn, folder_id) {
            Ok(v) => v,
            Err(()) => {
                return Err(StoreError::Backend);
            },
        };
        let ghost rows_v = rows@;
        let mut out: Vec<(i64, Vec<u8>, Vec<u8>, i64)> = Vec::new();
        let n = rows.len();
        let mut i: usize = 0;
        while i < n
            invariant
                self.wf(),
                n == rows@.len(),
                rows@ == rows_v,
                0 <= i <= n,
                out@.len() == i,
                forall|j: int|
                    0 <= j < i ==> (#[trigger] out@[j]).0 == rows_v[j].0 && out@[j].1@
                        == rows_v[j].1@ && out@[j].2@ == content_plain(self.key(), rows_v[j].2@)
                        && out@[j].3 == rows_v[j].3,
            decreases n - i,
        {
            let id = rows[i].0;
            let title = copy_bytes(rows[i].1.as_slice());
            let content = self.decrypt_or_notice(rows[i].2.as_slice());
            let updated = rows[i].3;
            out.push((id, title, content, updated));
            i += 1;
        }
        proof {
            assert(covers_folder_notes(self.notes(), folder_id, out@)) by {
                assert forall|id: i64|
                    #[trigger] self.notes().contains_key(id) && self.notes()[id].5 == Some(
                        folder_id,
                    ) implies exists|i2: int|
                    0 <= i2 < out@.len() && (#[trigger] out@[i2]).0 == id by {
                    assert(covers_folder_notes(self.notes(), folder_id, rows_v));
                    let iw = choose|iw: int|
                        0 <= iw < rows_v.len() && (#[trigger] rows_v[iw]).0 == id;
                    assert(out@[iw].0 == id);
                }
            }
        }
        Ok(out)
    }

    /// Notes changed after `since`, content as stored (still encrypted),
    /// for delta sync.
    pub fn get_modified_notes(&self, since: i64) -> (r: Result<
        Vec<(i64, Vec<u8>, Vec<u8>, i64)>,
        StoreError,
    >)
        requires
            self.wf(),
        ensures
            r matches Ok(v) ==> forall|i: int|
                0 <= i < v@.len() ==> self.notes().contains_key(#[trigger] v@[i].0)
                    && self.notes()[v@[i].0].3 > since && self.notes()[v@[i].0].0 == v@[i].1@
                    && self.notes()[v@[i].0].1 == v@[i].2@ && self.notes()[v@[i].0].3 == v@[i].3,
            r matches Ok(v) ==> covers_modified_notes(self.notes(), since, v@),
            r matches Ok(v) ==> forall|i: int, j: int|
                0 <= i < j < v@.len() ==> #[trigger] v@[i].0 != #[trigger] v@[j].0,
            r matches Err(e) ==> e == StoreError::Backend,
    {
        let out = match query_modified_rows(&self.conn, since) {
            Ok(v) => v,
            Err(()) => {
                return Err(StoreError::Backend);
            },
        };
        Ok(out)
    }

    /// Placeholder full-text search; the index is not consulted.
    pub fn search_notes(&self, _query: &[u8]) -> (r: Result<Vec<(Vec<u8>, Vec<u8>)>, StoreError>)
        ensures
            r matches Ok(v) && v@.len() == 0,
    {
        Ok(Vec::new())
    }

    /// Attach a file record to a note under a fresh id.
    pub fn add_attachment(&mut self, note_id: i64, file_type: &[u8], file_path: &[u8]) -> (r:
        Result<i64, StoreError>)
        requires
            old(self).wf(),
        ensures
            final(self).wf(),
            final(self).notes() == old(self).notes(),
            final(self).folders() == old(self).folders(),
            final(self).embeddings() == old(self).embeddings(),
            final(self).key() == old(self).key(),
            r matches Ok(id) ==> !old(self).attachments().contains_key(id) && exists|
                ts: i64,
            |
                final(self).attachments() == old(self).attachments().insert(
                    id,
                    (note_id, file_type@, file_path@, ts),
                ),
            r matches Err(e) ==> final(self).attachments() == old(self).attachments() && e
                == StoreError::Backend,
    {
        let ts = now_ts();
        match insert_attachment_row(&mut self.conn, note_id, file_type, file_path, ts) {
            Some(id) => {
                proof {
                    assert(exists|ts2: i64|
                        self.attachments() == old(self).attachments().insert(
                            id,
                            (note_id, file_type@, file_path@, ts2),
                        )) by {
                        assert(self.attachments() == old(self).attachments().insert(
                            id,
                            (note_id, file_type@, file_path@, ts),
                        ));
                    }
                }
                Ok(id)
            },
            None => Err(StoreError::Backend),
        }
    }

    /// The attachments of a note: id, file type, file path.
    pub fn get_attachments(&self, note_id: i64) -> (r: Result<
        Vec<(i64, Vec<u8>, Vec<u8>)>,
        StoreError,
    >)
        requires
            self.wf(),
        ensures
            r matches Ok(v) ==> forall|i: int|
                0 <= i < v@.len() ==> self.attachments().contains_key(#[trigger] v@[i].0)
                    && self.attachments()[v@[i].0].0 == note_id && self.attachments()[v@[i].0].1
                    == v@[i].1@ && self.attachments()[v@[i].0].2 == v@[i].2@,
            r matches Ok(v) ==> covers_note_attachments(self.attachments(), note_id, v@),
            r matches Ok(v) ==> forall|i: int, j: int|
                0 <= i < j < v@.len() ==> #[trigger] v@[i].0 != #[trigger] v@[j].0,
            r matches Err(e) ==> e == StoreError::Backend,
    {
        let out = match query_attachment_rows(&self.conn, note_id) {
            Ok(v) => v,
            Err(()) => {
                return Err(StoreError::Backend);
            },
        };
        Ok(out)
    }

    /// Store or replace the embedding of a note.
    pub fn save_embedding(&mut self, note_id: i64, embedding: &Vec<i64>) -> (r: Result<
        (),
        StoreError,
    >)
        requires
            old(self).wf(),
        ensures
            final(self).wf(),
            final(self).notes() == old(self).notes(),
            final(self).folders() == old(self).folders(),
            final(self).attachments() == old(self).attachments(),
            final(self).key() == old(self).key(),
            match r {
                Ok(()) => final(self).embeddings() == old(self).embeddings().insert(
                    note_id,
                    embedding@,
                ),
                Err(e) => final(self).embeddings() == old(self).embeddings() && e
                    == StoreError::Backend,
            },
    {
        if upsert_embedding_row(&mut self.conn, note_id, embedding) {
            Ok(())
        } else {
            Err(StoreError::Backend)
        }
    }

    /// Brute-force similarity search: score every stored embedding against
    /// the query, rank them, and return the first `k` pairs
    /// `(note_id, score_milli)`. The result is the `k`-prefix of a full
    /// non-increasing ranking of all stored embeddings.
    pub fn search_similar_notes(&self, query: &[i64], k: usize) -> (r: Result<
        Vec<(i64, i64)>,
        StoreError,
    >)
        requires
            self.wf(),
            embedding_wf(query@),
        ensures
            r matches Ok(v) ==> ranking_prefix(v@, self.embeddings(), query@, k as int),
            r matches Err(e) ==> e == StoreError::Backend,
    {
        let rows = match load_embedding_rows(&self.conn) {
            Ok(v) => v,
            Err(()) => {
                return Err(StoreError::Backend);
            },
        };
        let ghost rows_v = rows@;
        let mut scored: Vec<(i64, i64)> = Vec::new();
        let n = rows.len();
        let mut i: usize = 0;
        while i < n
            invariant
                self.wf(),
                embedding_wf(query@),
                n == rows@.len(),
                rows@ == rows_v,
                0 <= i <= n,
                scored@.len() == i,
                forall|j: int|
                    0 <= j < i ==> (#[trigger] scored@[j]).0 == rows_v[j].0 && scored@[j].1 as int
                        == rank_score(query@, rows_v[j].1@),
            decreases n - i,
        {
            let s: i64 = if check_embedding_wf(rows[i].1.as_slice()) {
                cosine_milli(query, rows[i].1.as_slice())
            } else {
                0
            };
            let id = rows[i].0;
            scored.push((id, s));
            i += 1;
        }
        let sorted = sort_by_score_desc(scored);
        let mut out: Vec<(i64, i64)> = Vec::new();
        let m = sorted.len();
        let lim = if k <= m {
            k
        } else {
            m
        };
        let mut t: usize = 0;
        while t < lim
            invariant
                lim <= sorted@.len(),
                0 <= t <= lim,
                out@ == sorted@.take(t as int),
            decreases lim - t,
        {
            out.push(sorted[t]);
            proof {
                assert(sorted@.take(t + 1) =~= sorted@.take(t as int).push(sorted@[t as int]));
            }
            t += 1;
        }
        proof {
            let full = sorted@;
            assert(full.to_multiset() == scored@.to_multiset());
            assert(full.len() == rows_v.len());
            assert(rows_v.len() == self.embeddings().dom().len());
            assert forall|i2: int| 0 <= i2 < full.len() implies self.embeddings().contains_key(
                #[trigger] full[i2].0,
            ) && full[i2].1 as int == rank_score(query@, self.embeddings()[full[i2].0]) by {
                assert(full.to_multiset().contains(full[i2]));
                assert(scored@.to_multiset().contains(full[i2]));
                assert(scored@.contains(full[i2]));
                let j = choose|j: int| 0 <= j < scored@.len() && scored@[j] == full[i2];
                assert(scored@[j].0 == rows_v[j].0);
                assert(self.embeddings().contains_key(rows_v[j].0));
                assert(self.embeddings()[rows_v[j].0] == rows_v[j].1@);
            }
            assert forall|id: i64| self.embeddings().contains_key(id) implies exists|i2: int|
                0 <= i2 < full.len() && #[trigger] full[i2].0 == id by {
                let j = choose|j: int| 0 <= j < rows_v.len() && #[trigger] rows_v[j].0 == id;
                assert(scored@[j].0 == id);
                assert(scored@.to_multiset().contains(scored@[j]));
                assert(full.to_multiset().contains(scored@[j]));
                assert(full.contains(scored@[j]));
                let i3 = choose|i3: int| 0 <= i3 < full.len() && full[i3] == scored@[j];
                assert(full[i3].0 == id);
            }
            if k <= m {
                assert(out@ == full.take(k as int));
            } else {
                assert(out@ =~= full);
            }
        }
        Ok(out)
    }
}

} // verus!
