use vstd::prelude::*;

verus! {

// Trusted interface to the SQLite database behind the vault.  The two
// tables are modelled as maps from text keys to their row contents; each
// wrapper's contract states what its single SQL statement does to those
// maps, as rusqlite and SQLite document it.  The model treats the open
// connection as the store's one writer for its lifetime; concurrent
// processes are serialised by SQLite's own journaling and never observed
// mid-statement.

/// Declares rusqlite's `Connection` so that it can stand in fields and
/// signatures; the value itself stays opaque.
#[verifier::external_type_specification]
#[verifier::external_body]
pub struct ExConnection(rusqlite::Connection);

/// What the `secrets` table of the open store holds: each secret's name
/// mapped to its encrypted value and its creation and update timestamps.
pub uninterp spec fn secrets_table(conn: rusqlite::Connection) -> Map<
    Seq<char>,
    (Seq<u8>, Seq<char>, Seq<char>),
>;

/// What the `metadata` table of the open store holds.
pub uninterp spec fn meta_table(conn: rusqlite::Connection) -> Map<Seq<char>, Seq<char>>;

/// Relies on rusqlite's `Connection::open`: opens the database file at
/// `path`, creating it when absent.  What the tables then hold depends on
/// the file, so nothing is promised of them.
#[verifier::external_body]
pub(crate) fn conn_open(path: &str) -> Result<rusqlite::Connection, String> {
    rusqlite::Connection::open(std::path::Path::new(path)).map_err(|e| e.to_string())
}

/// Relies on rusqlite's `Connection::execute_batch`: switches on WAL
/// journaling and creates the two tables when absent.  `CREATE TABLE IF NOT
/// EXISTS` never drops rows, so both tables keep their contents.
#[verifier::external_body]
pub(crate) fn conn_setup(conn: &mut rusqlite::Connection) -> (r: Result<(), String>)
    ensures
        secrets_table(*final(conn)) == secrets_table(*old(conn)),
        meta_table(*final(conn)) == meta_table(*old(conn)),
{
    conn.execute_batch(
        "PRAGMA journal_mode=WAL; CREATE TABLE IF NOT EXISTS secrets (name TEXT PRIMARY KEY, encrypted_value BLOB NOT NULL, created_at TEXT NOT NULL, updated_at TEXT NOT NULL); CREATE TABLE IF NOT EXISTS metadata (key TEXT PRIMARY KEY, value TEXT NOT NULL);",
    ).map_err(|e| e.to_string())
}

/// Relies on rusqlite's `Connection::query_row` over `SELECT
/// encrypted_value FROM secrets WHERE name = ?1`: the stored blob for
/// `name`, or nothing when no row has that primary key.
#[verifier::external_body]
pub(crate) fn row_get(conn: &rusqlite::Connection, name: &str) -> (r: Result<
    Option<Vec<u8>>,
    String,
>)
    ensures
        match r {
            Ok(found) => match found {
                Some(v) => secrets_table(*conn).contains_key(name@) && v@ == secrets_table(
                    *conn,
                )[name@].0,
                None => !secrets_table(*conn).contains_key(name@),
            },
            Err(_) => true,
        },
{
    let q = conn.query_row(
        "SELECT encrypted_value FROM secrets WHERE name = ?1",
        (name,),
        |row| row.get(0),
    );
    match q {
        Ok(v) => Ok(Some(v)),
        Err(rusqlite::Error::QueryReturnedNoRows) => Ok(None),
        Err(e) => Err(e.to_string()),
    }
}

/// Relies on rusqlite's `Connection::execute` over `INSERT INTO secrets`:
/// one atomic statement that adds the row, or fails (on a duplicate primary
/// key among else) leaving the table as it was.
#[verifier::external_body]
pub(crate) fn row_insert(
    conn: &mut rusqlite::Connection,
    name: &str,
    value: &Vec<u8>,
    now: &str,
) -> (r: Result<(), String>)
    ensures
        meta_table(*final(conn)) == meta_table(*old(conn)),
        match r {
            Ok(_) => secrets_table(*final(conn)) == secrets_table(*old(conn)).insert(
                name@,
                (value@, now@, now@),
            ),
            Err(_) => secrets_table(*final(conn)) == secrets_table(*old(conn)),
        },
{
    conn.execute(
        "INSERT INTO secrets (name, encrypted_value, created_at, updated_at) VALUES (?1, ?2, ?3, ?4)",
        (name, value, now, now),
    ).map(|_| ()).map_err(|e| e.to_string())
}

/// Relies on rusqlite's `Connection::execute` over `UPDATE secrets`: one
/// atomic statement that re-encrypts the row in place, keeping its creation
/// timestamp; with no matching row it changes nothing.  On failure the
/// table is left as it was.
#[verifier::external_body]
pub(crate) fn row_update(
    conn: &mut rusqlite::Connection,
    name: &str,
    value: &Vec<u8>,
    now: &str,
) -> (r: Result<(), String>)
    ensures
        meta_table(*final(conn)) == meta_table(*old(conn)),
        match r {
            Ok(_) => secrets_table(*final(conn)) == (if secrets_table(*old(conn)).contains_key(
                name@,
            ) {
                secrets_table(*old(conn)).insert(
                    name@,
                    (value@, secrets_table(*old(conn))[name@].1, now@),
                )
            } else {
                secrets_table(*old(conn))
            }),
            Err(_) => secrets_table(*final(conn)) == secrets_table(*old(conn)),
        },
{
    conn.execute(
        "UPDATE secrets SET encrypted_value = ?1, updated_at = ?2 WHERE name = ?3",
        (value, now, name),
    ).map(|_| ()).map_err(|e| e.to_string())
}

/// Relies on rusqlite's `Connection::execute` over `DELETE FROM secrets`:
/// one atomic statement removing the row with that primary key; the count
/// of removed rows tells whether it existed.  On failure the table is left
/// as it was.
#[verifier::external_body]
pub(crate) fn row_delete(conn: &mut rusqlite::Connection, name: &str) -> (r: Result<usize, String>)
    ensures
        meta_table(*final(conn)) == meta_table(*old(conn)),
        match r {
            Ok(n) => secrets_table(*final(conn)) == secrets_table(*old(conn)).remove(name@) && (n
                == 1 <==> secrets_table(*old(conn)).contains_key(name@)) && n <= 1,
            Err(_) => secrets_table(*final(conn)) == secrets_table(*old(conn)),
        },
{
    conn.execute("DELETE FROM secrets WHERE name = ?1", (name,)).map_err(|e| e.to_string())
}

/// Relies on rusqlite's `prepare` and `query_map` over `SELECT name,
/// created_at, updated_at FROM secrets ORDER BY name`: every row of the
/// table, exactly once, without the encrypted values.  SQLite's default
/// BINARY collation orders TEXT by its UTF-8 bytes, which is code-point
/// order, so the rows come strictly sorted by name.
#[verifier::external_body]
pub(crate) fn rows_list(conn: &rusqlite::Connection) -> (r: Result<
    Vec<(String, String, String)>,
    String,
>)
    ensures
        match r {
            Ok(v) => (forall|i: int|
                0 <= i < v@.len() ==> secrets_table(*conn).contains_key(#[trigger] v@[i].0@)
                    && secrets_table(*conn)[v@[i].0@].1 == v@[i].1@ && secrets_table(
                    *conn,
                )[v@[i].0@].2 == v@[i].2@) && (forall|n: Seq<char>|
                secrets_table(*conn).contains_key(n) ==> exists|i: int|
                    0 <= i < v@.len() && #[trigger] v@[i].0@ == n) && (forall|i: int, j: int|
                0 <= i < j < v@.len() ==> crate::text::lex_lt(v@[i].0@, v@[j].0@)),
            Err(_) => true,
        },
{
    let run = || -> rusqlite::Result<Vec<(String, String, String)>> {
        let mut stmt = conn.prepare(
            "SELECT name, created_at, updated_at FROM secrets ORDER BY name",
        )?;
        let rows = stmt.query_map([], |row| Ok((row.get(0)?, row.get(1)?, row.get(2)?)))?;
        rows.collect()
    };
    run().map_err(|e| e.to_string())
}

/// Relies on rusqlite's `Connection::query_row` over `SELECT value FROM
/// metadata WHERE key = ?1`: the stored text for `key`, or nothing when no
/// row has that primary key.
#[verifier::external_body]
pub(crate) fn meta_get(conn: &rusqlite::Connection, key: &str) -> (r: Result<
    Option<String>,
    String,
>)
    ensures
        match r {
            Ok(found) => match found {
                Some(v) => meta_table(*conn).contains_key(key@) && v@ == meta_table(*conn)[key@],
                None => !meta_table(*conn).contains_key(key@),
            },
            Err(_) => true,
        },
{
    let q = conn.query_row("SELECT value FROM metadata WHERE key = ?1", (key,), |row| row.get(0));
    match q {
        Ok(v) => Ok(Some(v)),
        Err(rusqlite::Error::QueryReturnedNoRows) => Ok(None),
        Err(e) => Err(e.to_string()),
    }
}

/// Relies on rusqlite's `Connection::execute` over `INSERT OR REPLACE INTO
/// metadata`: one atomic statement that sets `key` to `value`.  On failure
/// the table is left as it was.
#[verifier::external_body]
pub(crate) fn meta_set(conn: &mut rusqlite::Connection, key: &str, value: &str) -> (r: Result<
    (),
    String,
>)
    ensures
        secrets_table(*final(conn)) == secrets_table(*old(conn)),
        match r {
            Ok(_) => meta_table(*final(conn)) == meta_table(*old(conn)).insert(key@, value@),
            Err(_) => meta_table(*final(conn)) == meta_table(*old(conn)),
        },
{
    conn.execute("INSERT OR REPLACE INTO metadata (key, value) VALUES (?1, ?2)", (key, value))
        .map(|_| ())
        .map_err(|e| e.to_string())
}

/// Relies on chrono's `Utc::now` and `to_rfc3339`: the moment of the call
/// as an RFC 3339 timestamp.  The result depends on the clock, so nothing
/// is promised of it.
#[verifier::external_body]
pub(crate) fn now_rfc3339() -> String {
    chrono::Utc::now().to_rfc3339()
}

} // verus!
