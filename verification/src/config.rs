//! Opening a store: where it is, and the versions and modes that its database must have.

use vstd::prelude::*;
use vstd::string::*;

use crate::chars::characters;
use crate::error::{Fault, StoreError, either_fault, fault_of, fault_when, integrity};
use crate::text::{same_text, signed_decimal, signed_decimal_text, text2};

verus! {

/// The version of the schema.
pub const SCHEMA_VERSION: u32 = 1;

/// The application identifier of the database: the letters `NMM1`.
pub const APPLICATION_ID: i64 = 0x4e4d4d31;

/// How long a store waits for a busy database, in milliseconds.
pub const BUSY_TIMEOUT_MS: u64 = 5000;

/// Where a store keeps its database and its artifacts, and how long it waits for a busy database.
#[derive(Clone, Debug)]
pub struct StoreConfig {
    pub database_path: String,
    pub artifact_root: String,
    pub busy_timeout_ms: u64,
}

impl StoreConfig {
    /// The configuration of a store that waits five seconds for a busy database.
    pub fn new(database_path: String, artifact_root: String) -> (config: Self)
        ensures
            config.database_path@ == database_path@,
            config.artifact_root@ == artifact_root@,
            config.busy_timeout_ms == 5000,
    {
        StoreConfig { database_path, artifact_root, busy_timeout_ms: BUSY_TIMEOUT_MS }
    }
}

/// What opening a database does to its schema.
#[derive(Clone, Copy, Debug, PartialEq, Eq, Structural)]
pub enum Migration {
    Initialize,
    Keep,
}

/// The fault of a database that belongs to something else or to a later version, or whose version
/// number does not fit its tables.
pub open spec fn migration_fault(application_id: i64, version: u32, has_metadata: bool) -> Option<
    Fault,
> {
    if application_id != 0 && application_id != APPLICATION_ID {
        Some(
            Fault::Integrity(
                "unexpected SQLite application_id "@ + signed_decimal(application_id as int),
            ),
        )
    } else if version > SCHEMA_VERSION {
        Some(Fault::UnsupportedSchema { found: version, expected: SCHEMA_VERSION })
    } else {
        fault_when(
            version == 0 && has_metadata,
            Fault::Integrity("schema tables exist while PRAGMA user_version is zero"@),
        )
    }
}

/// Decides whether a database is to be initialized, by its application identifier, its version and
/// whether it has a metadata table.
pub fn plan_migration(application_id: i64, version: u32, has_metadata: bool) -> (migration: Result<
    Migration,
    StoreError,
>)
    ensures
        fault_of(migration) == migration_fault(application_id, version, has_metadata),
        migration matches Ok(migration) ==> migration == migration_of(version),
{
    if application_id != 0 && application_id != APPLICATION_ID {
        let found = signed_decimal_text(application_id);
        return Err(
            StoreError::Integrity(text2("unexpected SQLite application_id ", found.as_str())),
        );
    }
    if version > SCHEMA_VERSION {
        return Err(
            StoreError::UnsupportedSchema { found: version, expected: SCHEMA_VERSION },
        );
    }
    if version == 0 {
        if has_metadata {
            return Err(integrity("schema tables exist while PRAGMA user_version is zero"));
        }
        return Ok(Migration::Initialize);
    }
    Ok(Migration::Keep)
}

/// Confirms the version that the metadata table reports.
pub fn confirm_schema_version(persisted: &str) -> (verdict: Result<(), StoreError>)
    ensures
        fault_of(verdict) == schema_version_fault(persisted@),
{
    if !same_text(persisted, "1") {
        return Err(StoreError::Integrity(text2("schema_metadata reports version ", persisted)));
    }
    Ok(())
}

/// Whether a text is `wal` in letters of either case.
pub open spec fn is_wal(mode: Seq<char>) -> bool {
    &&& mode.len() == 3
    &&& mode[0] == 'w' || mode[0] == 'W'
    &&& mode[1] == 'a' || mode[1] == 'A'
    &&& mode[2] == 'l' || mode[2] == 'L'
}

/// The fault of a connection without foreign keys or without a write-ahead log.
pub open spec fn connection_fault(foreign_keys: i64, journal_mode: Seq<char>) -> Option<Fault> {
    either_fault(
        fault_when(
            foreign_keys != 1,
            Fault::Integrity("SQLite foreign key enforcement could not be enabled"@),
        ),
        fault_when(
            !is_wal(journal_mode),
            Fault::Integrity("SQLite WAL mode could not be enabled: "@ + journal_mode),
        ),
    )
}

/// Accepts a connection that enforces foreign keys and keeps a write-ahead log.
pub fn configure_connection(foreign_keys: i64, journal_mode: &str) -> (verdict: Result<
    (),
    StoreError,
>)
    ensures
        fault_of(verdict) == connection_fault(foreign_keys, journal_mode@),
{
    if foreign_keys != 1 {
        return Err(integrity("SQLite foreign key enforcement could not be enabled"));
    }
    let mode = characters(journal_mode);
    let wal = mode.len() == 3 && (mode[0] == 'w' || mode[0] == 'W') && (mode[1] == 'a' || mode[1]
        == 'A') && (mode[2] == 'l' || mode[2] == 'L');
    if !wal {
        return Err(
            StoreError::Integrity(text2("SQLite WAL mode could not be enabled: ", journal_mode)),
        );
    }
    Ok(())
}

/// A database is taken exactly where it is new or of this application, of a version that is known,
/// and has no tables without a version.
pub proof fn law_database_is_taken_exactly(application_id: i64, version: u32, has_metadata: bool)
    ensures
        migration_fault(application_id, version, has_metadata) is None <==> {
            &&& application_id == 0 || application_id == 0x4e4d4d31
            &&& version <= 1
            &&& version == 0 ==> !has_metadata
        },
        (application_id == 0 || application_id == 0x4e4d4d31) && version > 1 ==> migration_fault(
            application_id,
            version,
            has_metadata,
        ) == Some(Fault::UnsupportedSchema { found: version, expected: 1 }),
{
}

/// A connection is taken exactly where foreign keys are enforced and the journal is a write-ahead
/// log, in whatever case its name is written.
pub proof fn law_connection_is_taken_exactly(foreign_keys: i64, journal_mode: Seq<char>)
    ensures
        connection_fault(foreign_keys, journal_mode) is None <==> {
            &&& foreign_keys == 1
            &&& journal_mode.len() == 3
            &&& forall|i: int|
                0 <= i < 3 ==> (#[trigger] journal_mode[i]) == "wal"@[i] || journal_mode[i]
                    == "WAL"@[i]
        },
{
    reveal_strlit("wal");
    reveal_strlit("WAL");
    assert("wal"@[0] == 'w' && "wal"@[1] == 'a' && "wal"@[2] == 'l');
    assert("WAL"@[0] == 'W' && "WAL"@[1] == 'A' && "WAL"@[2] == 'L');
    if journal_mode.len() == 3 && forall|i: int|
        0 <= i < 3 ==> (#[trigger] journal_mode[i]) == "wal"@[i] || journal_mode[i] == "WAL"@[i] {
        assert(journal_mode[0] == 'w' || journal_mode[0] == 'W');
        assert(journal_mode[1] == 'a' || journal_mode[1] == 'A');
        assert(journal_mode[2] == 'l' || journal_mode[2] == 'L');
    }
}

/// What is to be done with a database of a version.
pub open spec fn migration_of(version: u32) -> Migration {
    if version == 0 {
        Migration::Initialize
    } else {
        Migration::Keep
    }
}

/// The fault of a database whose metadata name another version.
pub open spec fn schema_version_fault(persisted: Seq<char>) -> Option<Fault> {
    fault_when(
        persisted != "1"@,
        Fault::Integrity("schema_metadata reports version "@ + persisted),
    )
}

/// A database without a version is set up, one with a version is kept, and the metadata name the
/// version of the schema exactly as its decimal.
pub proof fn law_new_database_is_set_up_once(version: u32, persisted: Seq<char>)
    ensures
        migration_of(version) is Initialize <==> version == 0,
        migration_of(version) is Keep <==> version > 0,
        schema_version_fault(persisted) is None <==> persisted == "1"@,
{
}

} // verus!
