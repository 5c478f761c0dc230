//! Schema migrations of the user database.
use vstd::prelude::*;

verus! {

/// An applied migration; `applied_at` is Unix seconds.
#[derive(Debug, Clone)]
pub struct Migration {
    pub version: u32,
    pub name: String,
    pub applied_at: i64,
}

/// The migrations, in the order they apply: version, name, statement.
pub fn all_migrations() -> (r: Vec<(u32, &'static str, &'static str)>)
    ensures
        r@.len() == 5,
        forall|i: int| 0 <= i < 5 ==> (#[trigger] r@[i]).0 == i + 1,
        r@[0].1@ == "initial_schema"@,
        r@[1].1@ == "add_user_email"@,
        r@[2].1@ == "add_user_last_login"@,
        r@[3].1@ == "add_api_keys_table"@,
        r@[4].1@ == "add_sessions_table"@,
        r@[0].2@ == "CREATE TABLE IF NOT EXISTS users (id TEXT PRIMARY KEY, username TEXT UNIQUE NOT NULL, password_hash TEXT NOT NULL, role TEXT NOT NULL, created TEXT NOT NULL)"@,
        r@[1].2@ == "ALTER TABLE users ADD COLUMN email TEXT DEFAULT ''"@,
        r@[2].2@ == "ALTER TABLE users ADD COLUMN last_login TEXT"@,
        r@[3].2@ == "CREATE TABLE IF NOT EXISTS api_keys (id TEXT PRIMARY KEY, name TEXT NOT NULL, key_hash TEXT NOT NULL, user_id TEXT NOT NULL, role TEXT NOT NULL, created TEXT NOT NULL, expires TEXT, revoked INTEGER DEFAULT 0)"@,
        r@[4].2@ == "CREATE TABLE IF NOT EXISTS sessions (id TEXT PRIMARY KEY, user_id TEXT NOT NULL, created TEXT NOT NULL, expires TEXT NOT NULL, revoked INTEGER DEFAULT 0)"@,
{
    let mut v: Vec<(u32, &'static str, &'static str)> = Vec::new();
    v.push((1, "initial_schema", "CREATE TABLE IF NOT EXISTS users (id TEXT PRIMARY KEY, username TEXT UNIQUE NOT NULL, password_hash TEXT NOT NULL, role TEXT NOT NULL, created TEXT NOT NULL)"));
    v.push((2, "add_user_email", "ALTER TABLE users ADD COLUMN email TEXT DEFAULT ''"));
    v.push((3, "add_user_last_login", "ALTER TABLE users ADD COLUMN last_login TEXT"));
    v.push((4, "add_api_keys_table", "CREATE TABLE IF NOT EXISTS api_keys (id TEXT PRIMARY KEY, name TEXT NOT NULL, key_hash TEXT NOT NULL, user_id TEXT NOT NULL, role TEXT NOT NULL, created TEXT NOT NULL, expires TEXT, revoked INTEGER DEFAULT 0)"));
    v.push((5, "add_sessions_table", "CREATE TABLE IF NOT EXISTS sessions (id TEXT PRIMARY KEY, user_id TEXT NOT NULL, created TEXT NOT NULL, expires TEXT NOT NULL, revoked INTEGER DEFAULT 0)"));
    v
}

} // verus!
