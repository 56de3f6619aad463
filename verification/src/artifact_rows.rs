//! Artifact records as rows of the database.

use vstd::prelude::*;
use vstd::string::*;

use crate::artifact::{ArtifactDigest, ArtifactRecord, RecordView};
use crate::error::{Fault, StoreError, fault_of};
use crate::stored::digest_array;

verus! {

/// The columns of an artifact record.
#[derive(Clone, Debug)]
pub struct ArtifactFileRow {
    pub artifact_digest: Vec<u8>,
    pub byte_len: i64,
    pub relative_path: String,
}

/// The fault of an artifact row: a digest that is not 32 bytes long, or a negative length.
pub open spec fn record_row_fault(row: ArtifactFileRow) -> Option<Fault> {
    if row.artifact_digest@.len() != 32 {
        Some(
            Fault::Sqlite(
                "Conversion error from type Blob at index: 0, artifact digest is not 32 bytes"@,
            ),
        )
    } else if row.byte_len < 0 {
        Some(
            Fault::Sqlite(
                "Conversion error from type Integer at index: 1, out of range integral type conversion attempted"@,
            ),
        )
    } else {
        None
    }
}

/// The record that an artifact row holds.
pub open spec fn row_record(row: ArtifactFileRow) -> RecordView {
    RecordView {
        digest: row.artifact_digest@,
        byte_len: row.byte_len as u64,
        relative_path: row.relative_path@,
    }
}

/// Reads an artifact record from its row.
pub fn artifact_record_from_row(row: &ArtifactFileRow) -> (record: Result<
    ArtifactRecord,
    StoreError,
>)
    ensures
        fault_of(record) == record_row_fault(*row),
        record matches Ok(record) ==> record@ == row_record(*row),
{
    let digest: [u8; 32] = match digest_array(row.artifact_digest.as_slice(), "artifact_digest") {
        Ok(digest) => digest,
        Err(_) => return Err(
            StoreError::Sqlite(
                "Conversion error from type Blob at index: 0, artifact digest is not 32 bytes".to_owned(),
            ),
        ),
    };
    if row.byte_len < 0 {
        return Err(
            StoreError::Sqlite(
                "Conversion error from type Integer at index: 1, out of range integral type conversion attempted".to_owned(),
            ),
        );
    }
    Ok(
        ArtifactRecord {
            digest: ArtifactDigest(digest),
            byte_len: row.byte_len as u64,
            relative_path: row.relative_path.clone(),
        },
    )
}

} // verus!
