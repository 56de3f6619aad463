//! Content-addressed artifacts: their identity, their place and the verification of their bytes.

use vstd::prelude::*;
use vstd::string::*;
use vstd::utf8::*;

use crate::chars::characters;
use crate::digest::{Transcript, sha256_of};
use crate::error::{Fault, StoreError, either_fault, fault_of, fault_when};
use crate::hexadecimal::{
    digest_hex, hex_bytes, hex_decode, hex_text, is_hex_text, is_lower_hex_digit,
    law_canonical_hex_is_lowercase, law_decoding_undoes_encoding, lemma_hex_text_digits,
};
use crate::stored::{digest_array, digest_fault, same_digest};
use crate::text::{decimal, decimal_text, same_text, text2, text3, text5};

verus! {

/// The largest artifact that the store accepts.
pub const MAX_ARTIFACT_BYTES: u64 = 67108864;

/// How many bytes a copy reads at once.
pub const COPY_BUFFER_BYTES: u64 = 65536;

/// The SHA-256 digest of an artifact.
#[derive(Clone, Copy, Debug, Eq, Hash, Ord, PartialEq, PartialOrd)]
pub struct ArtifactDigest(pub [u8; 32]);

impl View for ArtifactDigest {
    type V = Seq<u8>;

    open spec fn view(&self) -> Seq<u8> {
        self.0@
    }
}

impl ArtifactDigest {
    /// Writes the digest in lowercase hexadecimal.
    pub fn to_hex(self) -> (text: String)
        ensures
            text@ == hex_text(self@),
    {
        digest_hex(&self.0)
    }

    /// Reads a blob of exactly 32 bytes as a digest.
    pub fn from_slice(bytes: &[u8], field: &'static str) -> (digest: Result<Self, StoreError>)
        ensures
            fault_of(digest) == digest_fault(bytes@, field@),
            digest matches Ok(digest) ==> digest@ == bytes@,
    {
        Ok(ArtifactDigest(digest_array(bytes, field)?))
    }
}

/// An artifact as the store registers it.
#[derive(Clone, Debug)]
pub struct ArtifactRecord {
    pub digest: ArtifactDigest,
    pub byte_len: u64,
    pub relative_path: String,
}

/// The mathematical content of an [`ArtifactRecord`].
#[verifier::ext_equal]
pub struct RecordView {
    pub digest: Seq<u8>,
    pub byte_len: u64,
    pub relative_path: Seq<char>,
}

impl View for ArtifactRecord {
    type V = RecordView;

    open spec fn view(&self) -> RecordView {
        RecordView {
            digest: self.digest@,
            byte_len: self.byte_len,
            relative_path: self.relative_path@,
        }
    }
}

/// Whether two artifact records are equal.
pub fn same_record(a: &ArtifactRecord, b: &ArtifactRecord) -> (same: bool)
    ensures
        same == (a@ == b@),
{
    same_digest(&a.digest.0, &b.digest.0) && a.byte_len == b.byte_len && same_text(
        a.relative_path.as_str(),
        b.relative_path.as_str(),
    )
}

/// Copies an artifact record.
pub fn copy_record(record: &ArtifactRecord) -> (copy: ArtifactRecord)
    ensures
        copy@ == record@,
{
    ArtifactRecord {
        digest: record.digest,
        byte_len: record.byte_len,
        relative_path: record.relative_path.clone(),
    }
}

/// The place of an artifact below the root of the store: two levels of directories named by the
/// first four hexadecimal digits, then all the digits.
pub open spec fn artifact_path(digest: Seq<u8>) -> Seq<char> {
    "sha256/"@ + hex_text(digest).subrange(0, 2) + "/"@ + hex_text(digest).subrange(2, 4) + "/"@
        + hex_text(digest)
}

proof fn lemma_hex_is_ascii(bytes: Seq<u8>)
    ensures
        is_ascii_chars(hex_text(bytes)),
{
    lemma_hex_text_digits(bytes);
    assert forall|i| 0 <= i < hex_text(bytes).len() implies '\0' <= #[trigger] hex_text(bytes)[i]
        <= '\u{7f}' by {
        assert(is_lower_hex_digit(hex_text(bytes)[i]));
    }
}

/// Whether the text from `i` to `j` is a whole segment of a path.
pub open spec fn is_segment(path: Seq<char>, i: int, j: int) -> bool {
    &&& 0 <= i <= j <= path.len()
    &&& i == 0 || path[i - 1] == '/'
    &&& j == path.len() || path[j] == '/'
    &&& forall|k: int| i <= k < j ==> path[k] != '/'
}

/// Whether a path stays below the directory that it is joined to: it is relative, not empty, does
/// not start with a segment `.` and has no segment `..`.
pub open spec fn is_safe_path(path: Seq<char>) -> bool {
    &&& path.len() > 0
    &&& path[0] != '/'
    &&& !(path[0] == '.' && is_segment(path, 0, 1))
    &&& forall|i: int|
        #![trigger path[i]]
        0 <= i && i + 2 <= path.len() && path[i] == '.' && path[i + 1] == '.' ==> !is_segment(
            path,
            i,
            i + 2,
        )
}

/// Whether a path stays below the directory that it is joined to.
pub fn is_safe_relative_path(path: &str) -> (safe: bool)
    ensures
        safe == is_safe_path(path@),
{
    let list = characters(path);
    if list.len() == 0 || list[0] == '/' {
        return false;
    }
    if list[0] == '.' && (list.len() == 1 || list[1] == '/') {
        assert(is_segment(path@, 0, 1));
        return false;
    }
    let mut i: usize = 0;
    while i < list.len() - 1
        invariant
            list@ == path@,
            0 < list@.len(),
            i <= list@.len(),
            forall|k: int|
                #![trigger list@[k]]
                0 <= k < i && k + 2 <= list@.len() && list@[k] == '.' && list@[k + 1] == '.'
                    ==> !is_segment(list@, k, k + 2),
        decreases list@.len() - i,
    {
        if list[i] == '.' && list[i + 1] == '.' && (i == 0 || list[i - 1] == '/') && (i + 2
            == list.len() || list[i + 2] == '/') {
            assert(is_segment(path@, i as int, i + 2));
            assert(path@[i as int] == '.');
            return false;
        }
        i += 1;
    }
    assert forall|k: int|
        #![trigger path@[k]]
        0 <= k && k + 2 <= path@.len() && path@[k] == '.' && path@[k + 1] == '.' implies !is_segment(
        path@,
        k,
        k + 2,
    ) by {
        assert(list@[k] == '.');
    }
    assert(!(path@[0] == '.' && is_segment(path@, 0, 1)));
    true
}

/// Joins a relative path to a directory.
pub open spec fn joined_path(root: Seq<char>, relative: Seq<char>) -> Seq<char> {
    if root.len() == 0 || root.last() == '/' {
        root + relative
    } else {
        root + "/"@ + relative
    }
}

/// Joins a relative path to a directory.
pub fn join_path(root: &str, relative: &str) -> (path: String)
    ensures
        path@ == joined_path(root@, relative@),
{
    let list = characters(root);
    if list.len() == 0 || list[list.len() - 1] == '/' {
        text2(root, relative)
    } else {
        text3(root, "/", relative)
    }
}

/// What was found at a path: nothing, something that is no regular file, or a regular file of a
/// length with the chunks that reading it to its end gave.
#[derive(Clone, Debug)]
pub enum ObservedPath {
    Missing,
    Irregular,
    File { byte_len: u64, chunks: Vec<Vec<u8>> },
}

/// All the bytes of a list of chunks.
pub open spec fn fed(chunks: Seq<Vec<u8>>) -> Seq<u8>
    decreases chunks.len(),
{
    if chunks.len() == 0 {
        Seq::empty()
    } else {
        fed(chunks.drop_last()) + chunks.last()@
    }
}

/// The fault of taking in `count` more bytes after `length`.
pub open spec fn growth_fault(length: nat, count: nat) -> Option<Fault> {
    if length + count > u64::MAX {
        Some(Fault::ArtifactTooLarge { actual: u64::MAX })
    } else {
        fault_when(
            length + count > MAX_ARTIFACT_BYTES,
            Fault::ArtifactTooLarge { actual: (length + count) as u64 },
        )
    }
}

/// The fault of a list of chunks: that of the first chunk with which the bytes are too many.
pub open spec fn stream_fault(chunks: Seq<Vec<u8>>) -> Option<Fault>
    decreases chunks.len(),
{
    if chunks.len() == 0 {
        None
    } else {
        either_fault(
            stream_fault(chunks.drop_last()),
            growth_fault(fed(chunks.drop_last()).len(), chunks.last()@.len()),
        )
    }
}

/// An artifact that is being taken in, chunk by chunk.
pub struct ArtifactStream {
    transcript: Transcript,
    byte_len: u64,
}

impl View for ArtifactStream {
    type V = Seq<u8>;

    closed spec fn view(&self) -> Seq<u8> {
        self.transcript@
    }
}

impl ArtifactStream {
    #[verifier::type_invariant]
    spec fn counted(self) -> bool {
        self.byte_len == self.transcript@.len() && self.byte_len <= MAX_ARTIFACT_BYTES
    }

    /// A stream that has taken in nothing.
    pub fn new() -> (stream: Self)
        ensures
            stream@ == Seq::<u8>::empty(),
    {
        ArtifactStream { transcript: Transcript::new(), byte_len: 0 }
    }

    /// Takes in one more chunk, unless the bytes would be too many.
    pub fn absorb(self, chunk: &[u8]) -> (stream: Result<Self, StoreError>)
        ensures
            fault_of(stream) == growth_fault(self@.len(), chunk@.len()),
            stream matches Ok(stream) ==> stream@ == self@ + chunk@,
    {
        proof {
            use_type_invariant(&self);
        }
        let count: u64 = chunk.len() as u64;
        let byte_len = self.byte_len;
        let total: u64 = match byte_len.checked_add(count) {
            Some(total) => total,
            None => return Err(StoreError::ArtifactTooLarge { actual: u64::MAX }),
        };
        if total > MAX_ARTIFACT_BYTES {
            return Err(StoreError::ArtifactTooLarge { actual: total });
        }
        let transcript = self.transcript.update(chunk);
        Ok(ArtifactStream { transcript, byte_len: total })
    }

    /// The record of the artifact that has been taken in.
    pub fn finish(self) -> (record: ArtifactRecord)
        ensures
            record@ == record_of(self@),
            self@.len() <= MAX_ARTIFACT_BYTES,
    {
        proof {
            use_type_invariant(&self);
        }
        let byte_len = self.byte_len;
        let digest = ArtifactDigest(self.transcript.finish());
        ArtifactRecord { digest, byte_len, relative_path: ArtifactStore::relative_path_for(digest) }
    }
}

/// The record of an artifact with the given bytes.
pub open spec fn record_of(bytes: Seq<u8>) -> RecordView {
    RecordView {
        digest: sha256_of(bytes),
        byte_len: bytes.len() as u64,
        relative_path: artifact_path(sha256_of(bytes)),
    }
}

fn absorb_all(chunks: &Vec<Vec<u8>>) -> (stream: Result<ArtifactStream, StoreError>)
    ensures
        fault_of(stream) == stream_fault(chunks@),
        stream matches Ok(stream) ==> stream@ == fed(chunks@),
{
    let mut stream = ArtifactStream::new();
    let mut i: usize = 0;
    assert(fed(chunks@.subrange(0, 0)) =~= Seq::<u8>::empty());
    while i < chunks.len()
        invariant
            i <= chunks@.len(),
            stream@ == fed(chunks@.subrange(0, i as int)),
            stream_fault(chunks@.subrange(0, i as int)) is None,
        decreases chunks@.len() - i,
    {
        proof {
            assert(chunks@.subrange(0, i + 1).drop_last() =~= chunks@.subrange(0, i as int));
            assert(chunks@.subrange(0, i + 1).last() == chunks@[i as int]);
        }
        match stream.absorb(chunks[i].as_slice()) {
            Ok(next) => {
                stream = next;
            },
            Err(error) => {
                proof {
                    lemma_stream_fault_stops(chunks@, i + 1);
                }
                return Err(error);
            },
        }
        i += 1;
    }
    assert(chunks@.subrange(0, i as int) =~= chunks@);
    Ok(stream)
}

proof fn lemma_stream_fault_stops(chunks: Seq<Vec<u8>>, i: int)
    requires
        0 <= i <= chunks.len(),
        stream_fault(chunks.subrange(0, i)) is Some,
    ensures
        stream_fault(chunks) == stream_fault(chunks.subrange(0, i)),
    decreases chunks.len() - i,
{
    if i == chunks.len() {
        assert(chunks.subrange(0, i) =~= chunks);
    } else {
        assert(chunks.subrange(0, i + 1).drop_last() =~= chunks.subrange(0, i));
        lemma_stream_fault_stops(chunks, i + 1);
    }
}

/// The fault of a path that does not hold the artifact expected there.
pub open spec fn path_fault(
    path: Seq<char>,
    digest: Seq<u8>,
    byte_len: u64,
    observed: ObservedPath,
) -> Option<Fault> {
    match observed {
        ObservedPath::Missing => Some(Fault::ArtifactMissing { path }),
        ObservedPath::Irregular => Some(Fault::ArtifactDigestMismatch { path }),
        ObservedPath::File { byte_len: found, chunks } => if found != byte_len {
            Some(Fault::ArtifactDigestMismatch { path })
        } else if byte_len > MAX_ARTIFACT_BYTES {
            Some(Fault::ArtifactTooLarge { actual: byte_len })
        } else {
            either_fault(
                stream_fault(chunks@),
                fault_when(
                    fed(chunks@).len() != byte_len || sha256_of(fed(chunks@)) != digest,
                    Fault::ArtifactDigestMismatch { path },
                ),
            )
        },
    }
}

/// The fault of a record whose length is too large or whose path is not its canonical one.
pub open spec fn metadata_fault(record: RecordView) -> Option<Fault> {
    if record.byte_len > MAX_ARTIFACT_BYTES {
        Some(Fault::ArtifactTooLarge { actual: record.byte_len })
    } else {
        fault_when(
            record.relative_path != artifact_path(record.digest) || !is_safe_path(
                record.relative_path,
            ),
            Fault::InvalidArtifactPath(record.relative_path),
        )
    }
}

/// What becomes of a staged artifact.
#[derive(Clone, Copy, Debug, PartialEq, Eq, Structural)]
pub enum Publication {
    Rename,
    KeepExisting,
}

/// The store of artifacts below one directory.
#[derive(Clone, Debug)]
pub struct ArtifactStore {
    root: String,
}

impl View for ArtifactStore {
    type V = Seq<char>;

    closed spec fn view(&self) -> Seq<char> {
        self.root@
    }
}

impl ArtifactStore {
    /// The store below `root`.
    pub fn open(root: String) -> (store: Self)
        ensures
            store@ == root@,
    {
        ArtifactStore { root }
    }

    /// The directory of the store.
    pub fn root(&self) -> (root: &str)
        ensures
            root@ == self@,
    {
        self.root.as_str()
    }

    /// The directories that an open store needs, outermost first.
    pub fn required_directories(&self) -> (directories: Vec<String>)
        ensures
            directories@.len() == 3,
            directories@[0]@ == self@,
            directories@[1]@ == joined_path(self@, "sha256"@),
            directories@[2]@ == joined_path(self@, ".tmp"@),
    {
        let mut directories: Vec<String> = Vec::new();
        directories.push(self.root.clone());
        directories.push(join_path(self.root.as_str(), "sha256"));
        directories.push(join_path(self.root.as_str(), ".tmp"));
        directories
    }

    /// The path at which the `sequence`th artifact of a process is staged.
    pub fn temporary_path(&self, process_id: u32, sequence: u64) -> (path: String)
        ensures
            path@ == joined_path(
                joined_path(self@, ".tmp"@),
                "ingest-"@ + decimal(process_id as nat) + "-"@ + decimal(sequence as nat)
                    + ".partial"@,
            ),
    {
        let staging = join_path(self.root.as_str(), ".tmp");
        let process = decimal_text(process_id as u64);
        let count = decimal_text(sequence);
        let name = text5("ingest-", process.as_str(), "-", count.as_str(), ".partial");
        join_path(staging.as_str(), name.as_str())
    }

    /// The place of an artifact below the root.
    pub fn relative_path_for(digest: ArtifactDigest) -> (path: String)
        ensures
            path@ == artifact_path(digest@),
    {
        let hex = digest.to_hex();
        proof {
            lemma_hex_is_ascii(digest@);
        }
        let first = hex.as_str().substring_ascii(0, 2);
        let second = hex.as_str().substring_ascii(2, 4);
        let mut path = text5("sha256/", first, "/", second, "/");
        path.append(hex.as_str());
        path
    }

    /// The path of an artifact.
    pub fn path_for(&self, digest: ArtifactDigest) -> (path: String)
        ensures
            path@ == joined_path(self@, artifact_path(digest@)),
    {
        let relative = Self::relative_path_for(digest);
        join_path(self.root.as_str(), relative.as_str())
    }

    /// The record of an artifact read in chunks.
    pub fn ingest(&self, chunks: &Vec<Vec<u8>>) -> (record: Result<ArtifactRecord, StoreError>)
        ensures
            fault_of(record) == stream_fault(chunks@),
            record matches Ok(record) ==> record@ == record_of(fed(chunks@)),
    {
        let stream = absorb_all(chunks)?;
        Ok(stream.finish())
    }

    /// The record of an artifact given as a whole. Too many bytes are noticed with the first copy
    /// buffer that goes beyond the limit.
    pub fn ingest_bytes(&self, bytes: &[u8]) -> (record: Result<ArtifactRecord, StoreError>)
        ensures
            fault_of(record) == ingestion_fault(bytes@),
            record matches Ok(record) ==> record@ == record_of(bytes@),
    {
        let length: u64 = bytes.len() as u64;
        if length > MAX_ARTIFACT_BYTES {
            let actual: u64 = if length < MAX_ARTIFACT_BYTES + COPY_BUFFER_BYTES {
                length
            } else {
                MAX_ARTIFACT_BYTES + COPY_BUFFER_BYTES
            };
            return Err(StoreError::ArtifactTooLarge { actual });
        }
        let stream = ArtifactStream::new().absorb(bytes)?;
        assert(stream@ =~= bytes@);
        Ok(stream.finish())
    }

    /// Checks the length and the path of a record.
    pub fn validate_record_metadata(record: &ArtifactRecord) -> (verdict: Result<(), StoreError>)
        ensures
            fault_of(verdict) == metadata_fault(record@),
    {
        if record.byte_len > MAX_ARTIFACT_BYTES {
            return Err(StoreError::ArtifactTooLarge { actual: record.byte_len });
        }
        let expected = Self::relative_path_for(record.digest);
        if !same_text(record.relative_path.as_str(), expected.as_str()) || !is_safe_relative_path(
            record.relative_path.as_str(),
        ) {
            return Err(StoreError::InvalidArtifactPath(record.relative_path.clone()));
        }
        Ok(())
    }

    /// Checks that what was found at a path is the artifact expected there.
    pub fn verify_path(
        path: &str,
        digest: ArtifactDigest,
        byte_len: u64,
        observed: &ObservedPath,
    ) -> (verdict: Result<(), StoreError>)
        ensures
            fault_of(verdict) == path_fault(path@, digest@, byte_len, *observed),
    {
        match observed {
            ObservedPath::Missing => Err(StoreError::ArtifactMissing { path: path.to_owned() }),
            ObservedPath::Irregular => Err(
                StoreError::ArtifactDigestMismatch { path: path.to_owned() },
            ),
            ObservedPath::File { byte_len: found, chunks } => {
                if *found != byte_len {
                    return Err(StoreError::ArtifactDigestMismatch { path: path.to_owned() });
                }
                if byte_len > MAX_ARTIFACT_BYTES {
                    return Err(StoreError::ArtifactTooLarge { actual: byte_len });
                }
                let stream = absorb_all(chunks)?;
                let record = stream.finish();
                if record.byte_len != byte_len || !same_digest(&record.digest.0, &digest.0) {
                    return Err(StoreError::ArtifactDigestMismatch { path: path.to_owned() });
                }
                Ok(())
            },
        }
    }

    /// Checks a record and what was found at its path.
    pub fn verify(&self, record: &ArtifactRecord, observed: &ObservedPath) -> (verdict: Result<
        (),
        StoreError,
    >)
        ensures
            fault_of(verdict) == either_fault(
                metadata_fault(record@),
                path_fault(
                    joined_path(self@, record@.relative_path),
                    record@.digest,
                    record@.byte_len,
                    *observed,
                ),
            ),
    {
        Self::validate_record_metadata(record)?;
        let path = join_path(self.root.as_str(), record.relative_path.as_str());
        Self::verify_path(path.as_str(), record.digest, record.byte_len, observed)
    }

    /// Decides what becomes of a staged artifact: it takes its place where nothing stands there,
    /// and is dropped where its place already holds it.
    pub fn publish(&self, record: &ArtifactRecord, observed: &ObservedPath) -> (publication: Result<
        Publication,
        StoreError,
    >)
        ensures
            fault_of(publication) == publication_fault(self@, record@, *observed),
            publication matches Ok(publication) ==> publication == publication_of(*observed),
    {
        if let ObservedPath::Missing = observed {
            return Ok(Publication::Rename);
        }
        let path = self.path_for(record.digest);
        Self::verify_path(path.as_str(), record.digest, record.byte_len, observed)?;
        Ok(Publication::KeepExisting)
    }

    /// Decides whether the file of a collected artifact is to be unlinked. A missing file was
    /// unlinked before; a file that is not the artifact is refused.
    pub fn removal(&self, record: &ArtifactRecord, observed: &ObservedPath) -> (unlink: Result<
        bool,
        StoreError,
    >)
        ensures
            fault_of(unlink) == removal_fault(self@, record@, *observed),
            unlink matches Ok(unlink) ==> unlink == !(observed is Missing),
    {
        Self::validate_record_metadata(record)?;
        if let ObservedPath::Missing = observed {
            return Ok(false);
        }
        let path = join_path(self.root.as_str(), record.relative_path.as_str());
        Self::verify_path(path.as_str(), record.digest, record.byte_len, observed)?;
        Ok(true)
    }
}

/// Whether a name has the given length and holds lowercase hexadecimal digits only.
pub open spec fn is_hex_component(name: Seq<char>, expected_len: nat) -> bool {
    name.len() == expected_len && forall|i: int|
        0 <= i < name.len() ==> is_lower_hex_digit(#[trigger] name[i])
}

/// Accepts a name of the given length in lowercase hexadecimal digits.
pub fn lowercase_hex_component(name: &str, expected_len: usize) -> (component: Result<
    String,
    StoreError,
>)
    ensures
        fault_of(component) == fault_when(
            !is_hex_component(name@, expected_len as nat),
            Fault::InvalidArtifactPath(name@),
        ),
        component matches Ok(component) ==> component@ == name@,
{
    let list = characters(name);
    if list.len() != expected_len {
        return Err(StoreError::InvalidArtifactPath(name.to_owned()));
    }
    let mut i: usize = 0;
    while i < list.len()
        invariant
            list@ == name@,
            i <= list@.len(),
            forall|k: int| 0 <= k < i ==> is_lower_hex_digit(#[trigger] name@[k]),
        decreases list@.len() - i,
    {
        let c = list[i];
        if !(('0' <= c && c <= '9') || ('a' <= c && c <= 'f')) {
            assert(!is_lower_hex_digit(name@[i as int]));
            return Err(StoreError::InvalidArtifactPath(name.to_owned()));
        }
        i += 1;
    }
    Ok(name.to_owned())
}

/// Refuses an entry of the artifact tree that is not of the kind expected there.
pub fn require_entry(expected_kind: bool, path: &str) -> (verdict: Result<(), StoreError>)
    ensures
        fault_of(verdict) == fault_when(!expected_kind, Fault::InvalidArtifactPath(path@)),
{
    if !expected_kind {
        return Err(StoreError::InvalidArtifactPath(path.to_owned()));
    }
    Ok(())
}

/// The fault of an object of the artifact tree that stands at the wrong place or is too large.
pub open spec fn object_fault(
    first: Seq<char>,
    second: Seq<char>,
    object: Seq<char>,
    path: Seq<char>,
    byte_len: u64,
) -> Option<Fault> {
    if object.subrange(0, 2) != first || object.subrange(2, 4) != second {
        Some(Fault::InvalidArtifactPath(path))
    } else {
        fault_when(
            byte_len > MAX_ARTIFACT_BYTES,
            Fault::ArtifactTooLarge { actual: byte_len },
        )
    }
}

/// The record of an object of the artifact tree, from its name and the names of the two
/// directories above it.
pub fn discovered_record(first: &str, second: &str, object: &str, path: &str, byte_len: u64) -> (record:
    Result<ArtifactRecord, StoreError>)
    requires
        is_hex_component(first@, 2),
        is_hex_component(second@, 2),
        is_hex_component(object@, 64),
    ensures
        fault_of(record) == object_fault(first@, second@, object@, path@, byte_len),
        record matches Ok(record) ==> record@ == (RecordView {
            digest: hex_bytes(object@),
            byte_len,
            relative_path: artifact_path(hex_bytes(object@)),
        }),
{
    proof {
        assert(is_ascii_chars(object@)) by {
            assert forall|i| 0 <= i < object@.len() implies '\0' <= #[trigger] object@[i]
                <= '\u{7f}' by {
                assert(is_lower_hex_digit(object@[i]));
            }
        }
    }
    if !same_text(object.substring_ascii(0, 2), first) || !same_text(
        object.substring_ascii(2, 4),
        second,
    ) {
        return Err(StoreError::InvalidArtifactPath(path.to_owned()));
    }
    proof {
        assert(is_hex_text(object@)) by {
            assert forall|i: int| 0 <= i < object@.len() implies crate::hexadecimal::is_hex_digit(
                #[trigger] object@[i],
            ) by {
                assert(is_lower_hex_digit(object@[i]));
            }
        }
    }
    let bytes = match hex_decode(object) {
        Ok(bytes) => bytes,
        Err(_) => return Err(StoreError::InvalidArtifactPath(path.to_owned())),
    };
    let digest = ArtifactDigest::from_slice(bytes.as_slice(), "CAS file name")?;
    if byte_len > MAX_ARTIFACT_BYTES {
        return Err(StoreError::ArtifactTooLarge { actual: byte_len });
    }
    Ok(ArtifactRecord { digest, byte_len, relative_path: ArtifactStore::relative_path_for(digest) })
}

/// The canonical path of every artifact stays below the root of the store.
pub proof fn law_artifact_path_is_safe(digest: Seq<u8>)
    requires
        digest.len() == 32,
    ensures
        is_safe_path(artifact_path(digest)),
{
    lemma_hex_text_digits(digest);
    let path = artifact_path(digest);
    let hex = hex_text(digest);
    reveal_strlit("sha256/");
    reveal_strlit("/");
    assert("sha256/"@.len() == 7);
    assert("/"@.len() == 1);
    assert(path.len() == 77);
    assert(path[0] == 's');
    assert forall|i: int| #![trigger path[i]] 0 <= i < path.len() implies path[i] != '.' by {
        if i < 7 {
            assert(path[i] == "sha256/"@[i]);
        } else if i < 9 {
            assert(path[i] == hex[i - 7]);
            assert(is_lower_hex_digit(hex[i - 7]));
        } else if i == 9 {
            assert(path[i] == "/"@[0]);
        } else if i < 12 {
            assert(path[i] == hex[i - 8]);
            assert(is_lower_hex_digit(hex[i - 8]));
        } else if i == 12 {
            assert(path[i] == "/"@[0]);
        } else {
            assert(path[i] == hex[i - 13]);
            assert(is_lower_hex_digit(hex[i - 13]));
        }
    }
}

/// Different artifacts have different canonical paths.
pub proof fn law_artifact_path_determines_digest(a: Seq<u8>, b: Seq<u8>)
    requires
        a.len() == 32,
        b.len() == 32,
        artifact_path(a) == artifact_path(b),
    ensures
        a == b,
{
    lemma_hex_text_digits(a);
    lemma_hex_text_digits(b);
    let path = artifact_path(a);
    let other = artifact_path(b);
    assert(path.subrange(path.len() - 64, path.len() as int) =~= hex_text(a));
    assert(other.subrange(other.len() - 64, other.len() as int) =~= hex_text(b));
    law_decoding_undoes_encoding(a);
    law_decoding_undoes_encoding(b);
}

/// An object that is found in the artifact tree stands at the canonical path of its digest.
pub proof fn law_discovered_object_is_canonical(
    first: Seq<char>,
    second: Seq<char>,
    object: Seq<char>,
    path: Seq<char>,
    byte_len: u64,
)
    requires
        is_hex_component(first, 2),
        is_hex_component(second, 2),
        is_hex_component(object, 64),
        object_fault(first, second, object, path, byte_len) is None,
    ensures
        artifact_path(hex_bytes(object)) == "sha256/"@ + first + "/"@ + second + "/"@ + object,
{
    assert forall|i: int| 0 <= i < object.len() implies crate::hexadecimal::is_hex_digit(
        #[trigger] object[i],
    ) by {
        assert(is_lower_hex_digit(object[i]));
    }
    law_canonical_hex_is_lowercase(object);
}

/// What an artifact was recorded as verifies against the bytes that it was recorded from.
pub proof fn law_recorded_artifact_verifies(root: Seq<char>, chunks: Vec<Vec<u8>>)
    requires
        stream_fault(chunks@) is None,
    ensures
        metadata_fault(record_of(fed(chunks@))) is None,
        path_fault(
            joined_path(root, record_of(fed(chunks@)).relative_path),
            record_of(fed(chunks@)).digest,
            record_of(fed(chunks@)).byte_len,
            (ObservedPath::File { byte_len: record_of(fed(chunks@)).byte_len, chunks }),
        ) is None,
{
    lemma_stream_bounded(chunks@);
    assert(sha256_of(fed(chunks@)).len() == 32);
    law_artifact_path_is_safe(sha256_of(fed(chunks@)));
}

/// A path verifies only where a regular file stands whose bytes have the expected number and the
/// expected digest: every other content is noticed.
pub proof fn law_verified_path_holds_the_artifact(
    path: Seq<char>,
    digest: Seq<u8>,
    byte_len: u64,
    observed: ObservedPath,
)
    requires
        path_fault(path, digest, byte_len, observed) is None,
    ensures
        observed matches ObservedPath::File { byte_len: found, chunks } && found == byte_len
            && fed(chunks@).len() == byte_len && sha256_of(fed(chunks@)) == digest && byte_len
            <= MAX_ARTIFACT_BYTES,
{
}

proof fn lemma_stream_bounded(chunks: Seq<Vec<u8>>)
    requires
        stream_fault(chunks) is None,
    ensures
        fed(chunks).len() <= MAX_ARTIFACT_BYTES,
    decreases chunks.len(),
{
    if chunks.len() > 0 {
        lemma_stream_bounded(chunks.drop_last());
    }
}

/// A stream of chunks is accepted exactly where all of it is no larger than 64 MiB.
pub proof fn law_stream_is_accepted_exactly_within_its_limit(chunks: Seq<Vec<u8>>)
    ensures
        stream_fault(chunks) is None <==> fed(chunks).len() <= 64 * 1024 * 1024,
    decreases chunks.len(),
{
    if chunks.len() > 0 {
        law_stream_is_accepted_exactly_within_its_limit(chunks.drop_last());
    }
}

/// What was fed is every chunk in order: a chunk more stands behind the rest.
pub proof fn law_chunks_are_fed_in_order(chunks: Seq<Vec<u8>>, chunk: Vec<u8>)
    ensures
        fed(Seq::<Vec<u8>>::empty()).len() == 0,
        fed(chunks.push(chunk)) == fed(chunks) + chunk@,
{
    assert(chunks.push(chunk).drop_last() =~= chunks);
}

/// A path holds an artifact exactly where a file is there whose bytes have the length and the hash
/// of the artifact, and are no more than 64 MiB.
pub proof fn law_path_holds_an_artifact_exactly(
    path: Seq<char>,
    digest: Seq<u8>,
    byte_len: u64,
    observed: ObservedPath,
)
    ensures
        path_fault(path, digest, byte_len, observed) is None <==> {
            &&& observed matches ObservedPath::File { byte_len: found, chunks }
            &&& found == byte_len
            &&& fed(chunks@).len() == byte_len
            &&& byte_len <= 64 * 1024 * 1024
            &&& sha256_of(fed(chunks@)) == digest
        },
        path_fault(path, digest, byte_len, ObservedPath::Missing) == Some(
            Fault::ArtifactMissing { path },
        ),
{
    if let ObservedPath::File { byte_len: found, chunks } = observed {
        law_stream_is_accepted_exactly_within_its_limit(chunks@);
    }
}

/// The metadata of an artifact are accepted exactly where it is no larger than 64 MiB and stands
/// under the path of its digest.
pub proof fn law_metadata_are_accepted_exactly_under_their_path(record: RecordView)
    requires
        record.digest.len() == 32,
    ensures
        metadata_fault(record) is None <==> record.byte_len <= 64 * 1024 * 1024
            && record.relative_path == artifact_path(record.digest),
{
    law_artifact_path_is_safe(record.digest);
}

/// The fault of taking bytes in as an artifact.
pub open spec fn ingestion_fault(bytes: Seq<u8>) -> Option<Fault> {
    fault_when(
        bytes.len() > MAX_ARTIFACT_BYTES,
        Fault::ArtifactTooLarge {
            actual: if bytes.len() < MAX_ARTIFACT_BYTES + COPY_BUFFER_BYTES {
                bytes.len() as u64
            } else {
                (MAX_ARTIFACT_BYTES + COPY_BUFFER_BYTES) as u64
            },
        },
    )
}

/// The fault of publishing an artifact where something else stands.
pub open spec fn publication_fault(
    root: Seq<char>,
    record: RecordView,
    observed: ObservedPath,
) -> Option<Fault> {
    if observed is Missing {
        None
    } else {
        path_fault(
            joined_path(root, artifact_path(record.digest)),
            record.digest,
            record.byte_len,
            observed,
        )
    }
}

/// How an artifact is published where something stands or nothing does.
pub open spec fn publication_of(observed: ObservedPath) -> Publication {
    if observed is Missing {
        Publication::Rename
    } else {
        Publication::KeepExisting
    }
}

/// The fault of removing an artifact.
pub open spec fn removal_fault(
    root: Seq<char>,
    record: RecordView,
    observed: ObservedPath,
) -> Option<Fault> {
    either_fault(
        metadata_fault(record),
        if observed is Missing {
            None
        } else {
            path_fault(
                joined_path(root, record.relative_path),
                record.digest,
                record.byte_len,
                observed,
            )
        },
    )
}

/// Bytes become an artifact exactly where they are no more than 64 MiB.
pub proof fn law_bytes_are_taken_in_exactly_within_the_limit(bytes: Seq<u8>)
    ensures
        ingestion_fault(bytes) is None <==> bytes.len() <= 64 * 1024 * 1024,
        ingestion_fault(bytes) matches Some(fault) ==> (fault matches Fault::ArtifactTooLarge {
            actual,
        } && 64 * 1024 * 1024 < actual <= bytes.len()),
{
}

/// An artifact is published over nothing or over itself: what is there already is kept exactly where
/// it is the artifact, and nothing else is ever replaced.
pub proof fn law_artifact_is_published_over_nothing_or_itself(
    root: Seq<char>,
    record: RecordView,
    observed: ObservedPath,
)
    ensures
        publication_fault(root, record, observed) is None <==> {
            ||| observed is Missing
            ||| path_fault(
                joined_path(root, artifact_path(record.digest)),
                record.digest,
                record.byte_len,
                observed,
            ) is None
        },
        publication_of(observed) is Rename <==> observed is Missing,
{
}

/// An artifact is removed exactly under its own path, and only where nothing else stands there.
pub proof fn law_artifact_is_removed_exactly_as_itself(
    root: Seq<char>,
    record: RecordView,
    observed: ObservedPath,
)
    ensures
        removal_fault(root, record, observed) is None <==> {
            &&& metadata_fault(record) is None
            &&& observed is Missing || path_fault(
                joined_path(root, record.relative_path),
                record.digest,
                record.byte_len,
                observed,
            ) is None
        },
{
}

/// A path is safe exactly where it is relative and does not leave its directory: it is not empty, it
/// does not begin with a slash or with a dot alone, and no part of it is two dots.
pub proof fn law_safe_path_stays_below_its_root(path: Seq<char>, i: int)
    ensures
        is_safe_path(path) ==> path.len() > 0 && path[0] != '/',
        is_safe_path(path) && 0 <= i && i + 2 <= path.len() && path[i] == '.' && path[i + 1] == '.'
            ==> !((i == 0 || path[i - 1] == '/') && (i + 2 == path.len() || path[i + 2] == '/')),
        is_safe_path(path) && path[0] == '.' ==> path.len() > 1 && path[1] != '/',
        path.len() > 0 && (forall|k: int| 0 <= k < path.len() ==> path[k] != '.') && path[0] != '/'
            ==> is_safe_path(path),
{
    if is_safe_path(path) && 0 <= i && i + 2 <= path.len() && path[i] == '.' && path[i + 1] == '.'
        && (i == 0 || path[i - 1] == '/') && (i + 2 == path.len() || path[i + 2] == '/') {
        assert(is_segment(path, i, i + 2));
    }
    if is_safe_path(path) && path[0] == '.' && (path.len() == 1 || path[1] == '/') {
        assert(is_segment(path, 0, 1));
    }
}

/// A path below a root is the root, one slash and the path; a root that ends in a slash has it
/// already, and an empty root adds nothing.
pub proof fn law_path_is_joined_with_one_slash(root: Seq<char>, relative: Seq<char>)
    ensures
        joined_path(Seq::<char>::empty(), relative) == relative,
        joined_path(root, relative).len() >= root.len() + relative.len(),
        joined_path(root, relative).subrange(0, root.len() as int) == root,
        joined_path(root, relative).subrange(
            joined_path(root, relative).len() - relative.len(),
            joined_path(root, relative).len() as int,
        ) == relative,
        root.len() > 0 ==> joined_path(root, relative)[joined_path(root, relative).len()
            - relative.len() - 1] == '/',
        root.len() > 0 && root.last() == '/' ==> joined_path(root, relative).len() == root.len()
            + relative.len(),
{
    reveal_strlit("/");
    let path = joined_path(root, relative);
    assert("/"@.len() == 1 && "/"@[0] == '/');
    assert(path.subrange(0, root.len() as int) =~= root);
    assert(path.subrange(path.len() - relative.len(), path.len() as int) =~= relative);
    assert(joined_path(Seq::<char>::empty(), relative) =~= relative);
}

/// A file is discovered as an artifact exactly where it stands in the two directories that its name
/// begins with and is no larger than 64 MiB.
pub proof fn law_object_is_discovered_exactly_in_its_directories(
    first: Seq<char>,
    second: Seq<char>,
    object: Seq<char>,
    path: Seq<char>,
    byte_len: u64,
)
    requires
        object.len() >= 4,
    ensures
        object_fault(first, second, object, path, byte_len) is None <==> {
            &&& first == object.subrange(0, 2)
            &&& second == object.subrange(2, 4)
            &&& byte_len <= 64 * 1024 * 1024
        },
{
}

/// A component of a path is accepted exactly where it has its length and is made of lowercase
/// hexadecimal digits.
pub proof fn law_component_is_lowercase_hexadecimal(name: Seq<char>, expected_len: nat, i: int)
    ensures
        is_hex_component(name, expected_len) ==> name.len() == expected_len && (0 <= i < name.len()
            ==> (('0' <= name[i] && name[i] <= '9') || ('a' <= name[i] && name[i] <= 'f'))),
        name.len() == expected_len && (forall|k: int|
            0 <= k < name.len() ==> (('0' <= name[k] && name[k] <= '9') || ('a' <= name[k]
                && #[trigger] name[k] <= 'f'))) ==> is_hex_component(name, expected_len),
{
}

} // verus!
