//! Encodings, digests, configuration and the names of fault points.

use naome_memory::bags::{all_distinct, same_bag};
use naome_memory::bytemap::{ByteMap, ByteSet, same_members};
use naome_memory::config::{
    APPLICATION_ID, BUSY_TIMEOUT_MS, Migration, SCHEMA_VERSION, StoreConfig,
    configure_connection, confirm_schema_version, plan_migration,
};
use naome_memory::digest::sha256;
use naome_memory::error::StoreError;
use naome_memory::fault_points::RepositoryFaultPointV1;
use naome_memory::framing::{domain_hasher, hash_frame, hash_optional_i64, hash_u64};
use naome_memory::hexadecimal::bytes_hex;
use naome_memory::json::{judge_json, validate_json};
use naome_memory::logical::{
    SqlValue, TableContent, TreeEntry, encode_row, logical_artifact_tree_digest,
    logical_database_digest, logical_state_digest, repository_state_digest, table_query,
};
use naome_memory::sorting::sort_byte_strings;
use naome_memory::stored::{sqlite_bool, sqlite_integer, unsigned_integer};

#[test]
fn values_are_encoded_with_their_kind() {
    let row = vec![
        SqlValue::Null,
        SqlValue::Integer(-2),
        SqlValue::Real(1.5f64.to_bits()),
        SqlValue::Text(b"ab".to_vec()),
        SqlValue::Blob(vec![7]),
    ];
    let mut expected = 5u64.to_be_bytes().to_vec();
    expected.push(0);
    expected.push(1);
    expected.extend_from_slice(&(-2i64).to_be_bytes());
    expected.push(2);
    expected.extend_from_slice(&1.5f64.to_bits().to_be_bytes());
    expected.push(3);
    expected.extend_from_slice(&2u64.to_be_bytes());
    expected.extend_from_slice(b"ab");
    expected.push(4);
    expected.extend_from_slice(&1u64.to_be_bytes());
    expected.push(7);
    assert_eq!(encode_row(&row), expected);
}

fn table(rows: Vec<Vec<SqlValue>>) -> TableContent {
    TableContent {
        name: "atoms".to_owned(),
        schema_sql: "CREATE TABLE atoms(id)".to_owned(),
        rows,
    }
}

#[test]
fn logical_digests_forget_the_order_of_rows() {
    let one = || vec![SqlValue::Integer(1)];
    let two = || vec![SqlValue::Integer(2)];
    let forward = logical_database_digest(&vec![table(vec![one(), two()])]);
    let backward = logical_database_digest(&vec![table(vec![two(), one()])]);
    assert_eq!(forward, backward);
    assert_ne!(forward, logical_database_digest(&vec![table(vec![one(), one()])]));
    assert_ne!(forward, logical_database_digest(&Vec::new()));

    let mut message = b"naome-memory:sqlite:logical-state:v1\0".to_vec();
    message.extend_from_slice(&1u64.to_be_bytes());
    for part in [b"atoms".as_slice(), b"CREATE TABLE atoms(id)".as_slice()] {
        message.extend_from_slice(&(part.len() as u64).to_be_bytes());
        message.extend_from_slice(part);
    }
    message.extend_from_slice(&2u64.to_be_bytes());
    for row in [encode_row(&one()), encode_row(&two())] {
        message.extend_from_slice(&(row.len() as u64).to_be_bytes());
        message.extend_from_slice(&row);
    }
    assert_eq!(forward, sha256(&message));
    assert_eq!(table_query("odd\"name"), "SELECT * FROM \"odd\"\"name\"");
}

#[test]
fn logical_trees_are_ordered_by_path() {
    let entry = |path: &str| TreeEntry {
        relative_path: path.to_owned(),
        byte_len: 3,
        digest: sha256(path.as_bytes()),
    };
    let tree = logical_artifact_tree_digest(vec![entry("b"), entry("a")]);
    assert_eq!(tree, logical_artifact_tree_digest(vec![entry("a"), entry("b")]));
    let mut message = b"naome-memory:sqlite:artifact-tree:v1\0".to_vec();
    message.extend_from_slice(&2u64.to_be_bytes());
    for path in ["a", "b"] {
        message.extend_from_slice(&1u64.to_be_bytes());
        message.extend_from_slice(path.as_bytes());
        message.extend_from_slice(&3u64.to_be_bytes());
        message.extend_from_slice(&sha256(path.as_bytes()));
    }
    assert_eq!(tree, sha256(&message));
    let mut state = b"naome-memory:sqlite:repository-state:v1\0".to_vec();
    state.extend_from_slice(&[1; 32]);
    state.extend_from_slice(&tree);
    assert_eq!(repository_state_digest(&[1; 32], &tree), sha256(&state));
}

#[test]
fn byte_strings_are_sorted_and_compared() {
    assert_eq!(
        sort_byte_strings(vec![vec![2], vec![1, 0], vec![], vec![1], vec![2]]),
        vec![vec![], vec![1], vec![1, 0], vec![2], vec![2]]
    );
    assert!(same_bag(&vec![vec![1], vec![2], vec![1]], &vec![vec![1], vec![1], vec![2]]));
    assert!(!same_bag(&vec![vec![1], vec![2]], &vec![vec![1], vec![1], vec![2]]));
    assert!(all_distinct(&vec![vec![1], vec![2]]));
    assert!(!all_distinct(&vec![vec![1], vec![1]]));
    let mut left = ByteSet::new();
    let mut right = ByteSet::new();
    assert!(left.insert(b"b"));
    assert!(left.insert(b"a"));
    assert!(!left.insert(b"a"));
    assert!(right.insert(b"a"));
    assert!(!same_members(&left, &right));
    assert!(right.insert(b"b"));
    assert!(same_members(&left, &right));
    assert_eq!(left.member_at(0).as_slice(), b"a");
    let mut map: ByteMap<u8> = ByteMap::new();
    assert!(map.insert(b"k".to_vec(), 1));
    assert!(!map.insert(b"k".to_vec(), 2));
    assert_eq!(map.get(b"k"), Some(&2));
    assert_eq!(map.remove(b"k"), Some(2));
    assert_eq!(map.len(), 0);
}

#[test]
fn transcripts_are_framed() {
    let transcript = hash_u64(domain_hasher("domain\0"), 7);
    let framed = hash_optional_i64(hash_frame(transcript, b"xy"), Some(-1));
    let digest = hash_optional_i64(framed, None).finish();
    let mut message = b"domain\0".to_vec();
    message.extend_from_slice(&7u64.to_be_bytes());
    message.extend_from_slice(&2u64.to_be_bytes());
    message.extend_from_slice(b"xy");
    message.push(1);
    message.extend_from_slice(&(-1i64).to_be_bytes());
    message.push(0);
    assert_eq!(digest, sha256(&message));
    assert_eq!(bytes_hex(&[0, 171, 255]), "00abff");
}

#[test]
fn numbers_fit_their_columns() {
    assert_eq!(sqlite_integer(i64::MAX as u64, "value").unwrap(), i64::MAX);
    match sqlite_integer(u64::MAX, "value") {
        Err(error) => assert_eq!(
            error.to_text(),
            "integer is outside SQLite's signed 64-bit range: value=18446744073709551615"
        ),
        Ok(_) => panic!("an oversized integer was accepted"),
    }
    assert_eq!(unsigned_integer(7, "value").unwrap(), 7);
    assert!(unsigned_integer(-7, "value").is_err());
    assert!(sqlite_bool(1, "flag").unwrap());
    assert!(!sqlite_bool(0, "flag").unwrap());
    assert!(sqlite_bool(2, "flag").is_err());
}

#[test]
fn json_texts_are_judged_by_their_parser() {
    validate_json("{\"a\":[1,null]}", "receipt").unwrap();
    match validate_json("{", "receipt") {
        Err(error) => assert!(
            error.to_text().starts_with("database integrity failure: invalid receipt JSON: ")
        ),
        Ok(()) => panic!("broken JSON was accepted"),
    }
    match judge_json(Some("why".to_owned()), "receipt") {
        Err(error) => assert_eq!(
            error.to_text(),
            "database integrity failure: invalid receipt JSON: why"
        ),
        Ok(()) => panic!("a refusal was accepted"),
    }
}

#[test]
fn database_uses_strict_schema_wal_and_foreign_keys() {
    let config = StoreConfig::new("memory.db".to_owned(), "artifacts".to_owned());
    assert_eq!(config.database_path, "memory.db");
    assert_eq!(config.artifact_root, "artifacts");
    assert_eq!(config.busy_timeout_ms, BUSY_TIMEOUT_MS);
    configure_connection(1, "wal").unwrap();
    configure_connection(1, "WAL").unwrap();
    assert!(configure_connection(0, "wal").is_err());
    assert!(configure_connection(1, "delete").is_err());
}

#[test]
fn schemas_are_migrated_once() {
    assert!(matches!(plan_migration(0, 0, false).unwrap(), Migration::Initialize));
    assert!(matches!(
        plan_migration(APPLICATION_ID, SCHEMA_VERSION, true).unwrap(),
        Migration::Keep
    ));
    assert!(plan_migration(APPLICATION_ID + 1, 0, false).is_err());
    assert!(matches!(
        plan_migration(APPLICATION_ID, SCHEMA_VERSION + 1, true),
        Err(StoreError::UnsupportedSchema { .. })
    ));
    assert!(plan_migration(APPLICATION_ID, 0, true).is_err());
    confirm_schema_version(&SCHEMA_VERSION.to_string()).unwrap();
    assert!(confirm_schema_version("0").is_err());
}

#[test]
fn fault_points_have_distinct_identifiers() {
    let points = RepositoryFaultPointV1::ordered();
    assert_eq!(points.len(), 13);
    let mut names: Vec<&str> = points.iter().map(|point| point.identifier()).collect();
    assert_eq!(names[0], "draft_append_after_sequence_claim");
    assert_eq!(names[12], "retirement_before_commit");
    names.sort_unstable();
    names.dedup();
    assert_eq!(names.len(), 13);
}

#[test]
fn errors_describe_themselves() {
    for (error, text) in [
        (StoreError::Core("x".to_owned()), "memory core contract error: x"),
        (StoreError::Sqlite("x".to_owned()), "SQLite error: x"),
        (StoreError::Io("x".to_owned()), "I/O error: x"),
        (StoreError::Json("x".to_owned()), "JSON error: x"),
        (
            StoreError::UnsupportedSchema { found: 2, expected: 1 },
            "unsupported schema version 2; expected 1",
        ),
        (
            StoreError::ArtifactTooLarge { actual: 5 },
            "artifact exceeds the 64 MiB limit: 5 bytes",
        ),
        (
            StoreError::RetirementConflict,
            "retirement plan conflicts with an existing run",
        ),
        (
            StoreError::StalePlan { expected: "a".to_owned(), actual: "b".to_owned() },
            "stale retirement plan: expected input digest a, current digest b",
        ),
    ] {
        assert_eq!(error.to_text(), text);
    }
}

#[test]
fn state_digests_forget_every_order() {
    let row = |number: i64| vec![SqlValue::Integer(number), SqlValue::Null];
    let table = |name: &str, numbers: &[i64]| TableContent {
        name: name.to_owned(),
        schema_sql: format!("CREATE TABLE {name}(a, b)"),
        rows: numbers.iter().map(|number| row(*number)).collect(),
    };
    let entry = |path: &str, byte: u8| TreeEntry {
        relative_path: path.to_owned(),
        byte_len: 1,
        digest: [byte; 32],
    };
    let first = logical_state_digest(
        vec![table("atoms", &[1, 2, 3]), table("runs", &[4])],
        vec![entry("sha256/aa", 1), entry("sha256/bb", 2)],
    );
    let second = logical_state_digest(
        vec![table("runs", &[4]), table("atoms", &[3, 1, 2])],
        vec![entry("sha256/bb", 2), entry("sha256/aa", 1)],
    );
    assert_eq!(first, second);
    let database =
        logical_database_digest(&vec![table("atoms", &[1, 2, 3]), table("runs", &[4])]);
    let tree =
        logical_artifact_tree_digest(vec![entry("sha256/aa", 1), entry("sha256/bb", 2)]);
    assert_eq!(first, repository_state_digest(&database, &tree));
    let other = logical_state_digest(
        vec![table("atoms", &[1, 2]), table("runs", &[4])],
        vec![entry("sha256/aa", 1), entry("sha256/bb", 2)],
    );
    assert_ne!(first, other);
}
