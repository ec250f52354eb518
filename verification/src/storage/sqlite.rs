//! SQLite storage: settings are kept as a JSON text in one row of a table,
//! keyed by a configurable name. The table name is spliced into the SQL
//! text, so it is held to the identifier rule at all times.
use vstd::prelude::*;

use crate::text::{join2, join3, text};

verus! {

/// Default table name used by [`SqliteStorage`].
pub const DEFAULT_TABLE: &'static str = "rcman_settings";

/// Default row key used by [`SqliteStorage`] for the main settings payload.
pub const DEFAULT_KEY: &'static str = "main";

/// Whether a character may begin an identifier: an ASCII letter or `_`.
pub open spec fn is_ident_start(c: char) -> bool {
    ('a' <= c && c <= 'z') || ('A' <= c && c <= 'Z') || c == '_'
}

/// Whether a character may continue an identifier: an ASCII letter or
/// digit, or `_`.
pub open spec fn is_ident_char(c: char) -> bool {
    is_ident_start(c) || ('0' <= c && c <= '9')
}

/// A safe SQLite identifier: `^[A-Za-z_][A-Za-z0-9_]*$`.
pub open spec fn valid_identifier(s: Seq<char>) -> bool {
    &&& s.len() > 0
    &&& is_ident_start(s[0])
    &&& forall|i: int| 1 <= i < s.len() ==> is_ident_char(#[trigger] s[i])
}

/// Validate that `name` is a safe SQLite identifier: ASCII letters, digits
/// and underscores, with a non-digit first character.
pub fn is_valid_identifier(name: &str) -> (r: bool)
    ensures
        r == valid_identifier(name@),
{
    let n = name.unicode_len();
    if n == 0 {
        return false;
    }
    let first = name.get_char(0);
    if !(('a' <= first && first <= 'z') || ('A' <= first && first <= 'Z') || first == '_') {
        return false;
    }
    let mut i: usize = 1;
    while i < n
        invariant
            n == name@.len(),
            1 <= i <= n,
            forall|j: int| 1 <= j < i ==> is_ident_char(#[trigger] name@[j]),
        decreases n - i,
    {
        let c = name.get_char(i);
        if !(('a' <= c && c <= 'z') || ('A' <= c && c <= 'Z') || c == '_' || ('0' <= c && c <= '9')) {
            return false;
        }
        i += 1;
    }
    true
}

/// SQLite storage backend.
#[derive(Debug)]
pub struct SqliteStorage {
    table_name: String,
    key: String,
}

impl SqliteStorage {
    /// The table name is always a safe identifier.
    #[verifier::type_invariant]
    spec fn table_is_identifier(&self) -> bool {
        valid_identifier(self.table_name@)
    }

    /// The table the settings row lives in.
    pub closed spec fn table(&self) -> Seq<char> {
        self.table_name@
    }

    /// The key of the settings row.
    pub closed spec fn row_key(&self) -> Seq<char> {
        self.key@
    }

    /// Create a new SQLite storage backend with the default table name
    /// (`rcman_settings`) and row key (`main`).
    pub fn new() -> (r: Self)
        ensures
            r.table() == DEFAULT_TABLE@,
            r.row_key() == DEFAULT_KEY@,
            valid_identifier(r.table()),
    {
        Self::default()
    }

    /// Use a custom table name. A name that is no valid SQLite identifier is
    /// not taken: the table stays as it was.
    pub fn with_table(self, table: &str) -> (r: Self)
        ensures
            r.table() == if valid_identifier(table@) { table@ } else { self.table() },
            r.row_key() == self.row_key(),
            valid_identifier(r.table()),
    {
        proof {
            use_type_invariant(&self);
        }
        if is_valid_identifier(table) {
            SqliteStorage { table_name: text(table), key: self.key }
        } else {
            self
        }
    }

    /// Use a custom row key, e.g. to share one database file across several
    /// settings namespaces.
    pub fn with_key(self, key: &str) -> (r: Self)
        ensures
            r.row_key() == key@,
            r.table() == self.table(),
            valid_identifier(r.table()),
    {
        proof {
            use_type_invariant(&self);
        }
        SqliteStorage { table_name: self.table_name, key: text(key) }
    }

    /// The table name.
    pub fn table_name(&self) -> (r: &str)
        ensures
            r@ == self.table(),
            valid_identifier(r@),
    {
        proof {
            use_type_invariant(self);
        }
        self.table_name.as_str()
    }

    /// The row key.
    pub fn key(&self) -> (r: &str)
        ensures
            r@ == self.row_key(),
    {
        self.key.as_str()
    }

    /// The file extension of this format.
    pub fn extension(&self) -> (r: &'static str)
        ensures
            r@ == "db"@,
    {
        "db"
    }

    /// The statement that creates the settings table if it is missing.
    pub fn create_table_sql(&self) -> (r: String)
        ensures
            r@ == "CREATE TABLE IF NOT EXISTS "@ + self.table()
                + " (\n                key  TEXT PRIMARY KEY NOT NULL,\n                data TEXT NOT NULL\n            )"@,
    {
        let mut r = join2("CREATE TABLE IF NOT EXISTS ", self.table_name.as_str());
        r.append(" (\n                key  TEXT PRIMARY KEY NOT NULL,\n                data TEXT NOT NULL\n            )");
        r
    }

    /// The query that reads the settings row (the key is its parameter).
    pub fn select_sql(&self) -> (r: String)
        ensures
            r@ == "SELECT data FROM "@ + self.table() + " WHERE key = ?1"@,
    {
        join3("SELECT data FROM ", self.table_name.as_str(), " WHERE key = ?1")
    }

    /// The statement that writes the settings row (key and data are its
    /// parameters), replacing the row that has the key.
    pub fn upsert_sql(&self) -> (r: String)
        ensures
            r@ == "INSERT INTO "@ + self.table()
                + " (key, data) VALUES (?1, ?2)\n             ON CONFLICT(key) DO UPDATE SET data = excluded.data"@,
    {
        join3(
            "INSERT INTO ",
            self.table_name.as_str(),
            " (key, data) VALUES (?1, ?2)\n             ON CONFLICT(key) DO UPDATE SET data = excluded.data",
        )
    }
}

impl Default for SqliteStorage {
    fn default() -> (r: Self)
        ensures
            r.table() == DEFAULT_TABLE@,
            r.row_key() == DEFAULT_KEY@,
            valid_identifier(r.table()),
    {
        proof {
            reveal_strlit("rcman_settings");
        }
        SqliteStorage { table_name: text(DEFAULT_TABLE), key: text(DEFAULT_KEY) }
    }
}

impl Clone for SqliteStorage {
    fn clone(&self) -> (r: Self)
        ensures
            r.table() == self.table(),
            r.row_key() == self.row_key(),
    {
        proof {
            use_type_invariant(self);
        }
        SqliteStorage { table_name: self.table_name.clone(), key: self.key.clone() }
    }
}

} // verus!
