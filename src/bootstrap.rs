//! Bootstrapping: the target database, the bookkeeping schema, and the
//! statements that the engine sends to the server.
use vstd::prelude::*;
use vstd::string::*;
use crate::error::EngineError;

verus! {

/// The key of the session-scoped advisory lock that every run takes on each
/// connection before it looks at or changes anything.
pub const LOCK_ID: i64 = 10297114116;

/// Takes the advisory lock whose key is the statement's one parameter.
pub const LOCK_SQL: &'static str = "SELECT pg_advisory_lock($1)";

/// Counts the databases named by the statement's one parameter, as column `c`.
pub const QUERY_FOR_DATABASE: &'static str =
    "SELECT COUNT(*) AS c FROM pg_catalog.pg_database WHERE datname = $1";

/// Yields a row when the database named by the first parameter holds the
/// schema named by the second.
pub const QUERY_FOR_VERSION_SCHEMA: &'static str =
    "SELECT 1 AS has_schema FROM information_schema.schemata WHERE catalog_name = $1 AND schema_name = $2";

/// The name of the bookkeeping schema.
pub const SCHEMA_NAME: &'static str = "schemato";

/// Creates the bookkeeping schema and its versions table, and records the
/// baseline version 0; run as one batch inside one transaction.
pub const CREATE_SCHEMA_SQL: &'static str = "
    CREATE SCHEMA schemato;

    CREATE TABLE schemato.versions (
        version INTEGER NOT NULL PRIMARY KEY,
        tstamp  TIMESTAMP WITH TIME ZONE NOT NULL DEFAULT NOW()
    );

    INSERT INTO schemato.versions (version) VALUES (0);
";

/// Lists the installed versions, lowest first, as column `version`.
pub const QUERY_FOR_INSTALLED: &'static str = "SELECT version FROM schemato.versions ORDER BY version ASC";

/// Records the version given as the statement's one parameter.
pub const SET_VERSION_SQL: &'static str = "INSERT INTO schemato.versions (version) VALUES ($1)";

/// What to do about the target database.
#[derive(Debug, PartialEq, Eq, Structural)]
pub enum DatabaseAction {
    /// It does not exist: create it.
    Create,
    /// It exists: nothing to do.
    Present,
}

/// What to do about the bookkeeping schema.
#[derive(Debug, PartialEq, Eq, Structural)]
pub enum SchemaAction {
    /// It does not exist: create it with its table and baseline row.
    Create,
    /// It exists: leave it and its rows alone.
    Present,
}

pub open spec fn database_action_spec(count: i64) -> Result<DatabaseAction, EngineError> {
    if count == 0 {
        Ok(DatabaseAction::Create)
    } else if count == 1 {
        Ok(DatabaseAction::Present)
    } else {
        Err(EngineError::DatabaseCount(count))
    }
}

pub open spec fn schema_action_spec(rows: nat) -> SchemaAction {
    if rows == 0 {
        SchemaAction::Create
    } else {
        SchemaAction::Present
    }
}

/// Decides from the number of databases of the target's name: none means
/// create it, one means it is there, and any other count is fatal.
pub fn database_action(count: i64) -> (r: Result<DatabaseAction, EngineError>)
    ensures
        r == database_action_spec(count),
{
    if count == 0 {
        Ok(DatabaseAction::Create)
    } else if count == 1 {
        Ok(DatabaseAction::Present)
    } else {
        Err(EngineError::DatabaseCount(count))
    }
}

/// Decides from the number of rows that the schema query found: the schema
/// is created only where none was found, so a database that has it is never
/// bootstrapped twice.
pub fn schema_action(rows: usize) -> (r: SchemaAction)
    ensures
        r == schema_action_spec(rows as nat),
        rows >= 1 ==> r == SchemaAction::Present,
{
    if rows < 1 {
        SchemaAction::Create
    } else {
        SchemaAction::Present
    }
}

/// The statement that creates a database of the given name.
pub fn create_database_sql(name: &str) -> (r: String)
    ensures
        r@ == "CREATE DATABASE "@ + name@,
{
    let mut r = String::from_str("CREATE DATABASE ");
    r.append(name);
    r
}

} // verus!
