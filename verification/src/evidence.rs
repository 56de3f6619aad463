//! What release evidence is called, where it is kept, and how a campaign is judged.

use vstd::prelude::*;
use vstd::string::*;

use crate::artifact::is_segment;
use crate::chars::characters;
use crate::digest::{sha256, sha256_of};
use crate::framing::{domain_hasher, utf8};
use crate::hexadecimal::{digest_hex, hex_text, is_lower_hex_digit};
use crate::text::{decimal, decimal_text, same_text, text2, text3};

verus! {

/// Where evidence is kept, below the root of the workspace.
pub const PROOF_DIR: &'static str = "target/proofs";

/// The report of a scale run.
pub const SCALE_RECEIPT_FILE: &'static str = "scale-receipt.json";

/// The core receipt that a scale run attaches.
pub const SCALE_CORE_RECEIPT_FILE: &'static str = "scale-core-retirement-receipt.json";

/// The receipt of a mutation campaign.
pub const MUTATION_RECEIPT_FILE: &'static str = "mutation-receipt.json";

/// What the logs of a mutation campaign are called.
pub const MUTATION_LOG_STEM: &'static str = "mutation-naome-memory-core";

/// Where a mutation campaign keeps what its tool writes.
pub const MUTATION_OUTPUT_DIR: &'static str = "mutation-tool";

/// The receipt of a fuzz campaign.
pub const FUZZ_RECEIPT_FILE: &'static str = "fuzz-receipt.json";

/// Where a fuzz campaign keeps the inputs that made a target fail.
pub const FUZZ_ARTIFACT_DIR: &'static str = "fuzz-artifacts";

/// The toolchain of a fuzz campaign.
pub const FUZZ_NIGHTLY: &'static str = "nightly-2026-07-01";

/// How many failing inputs a fuzz target may keep.
pub const FUZZ_MAX_ARTIFACT_COUNT: usize = 16;

/// How many bytes a failing input may have.
pub const FUZZ_MAX_ARTIFACT_BYTES: u64 = 1_048_576;

/// How many atoms the deepest scale run stores.
pub const DEEP_SCALE_ATOM_COUNT: usize = 100_000;

/// How long a scale run may take.
pub const SCALE_MAX_WALL_MILLIS: u64 = 1_800_000;

/// How much memory the deepest scale run may take.
pub const SCALE_MAX_RSS_BYTES: u64 = 6_442_450_944;

/// How much disk space the deepest scale run may take.
pub const SCALE_MAX_DISK_BYTES: u64 = 10_737_418_240;

/// Why evidence is refused.
#[derive(Debug)]
pub struct EvidenceError {
    pub message: String,
}

impl View for EvidenceError {
    type V = Seq<char>;

    open spec fn view(&self) -> Seq<char> {
        self.message@
    }
}

/// What a result is refused for: nothing when it is not.
pub open spec fn refusal_of<T>(result: Result<T, EvidenceError>) -> Option<Seq<char>> {
    match result {
        Ok(_) => None,
        Err(error) => Some(error@),
    }
}

/// A refusal with a fixed text.
pub fn refuse(text: &str) -> (error: EvidenceError)
    ensures
        error@ == text@,
{
    EvidenceError { message: text.to_owned() }
}

/// How a campaign ended.
#[derive(Clone, Copy, Debug, PartialEq, Eq, Structural)]
pub enum EvidenceStatusV1 {
    Passed,
    Failed,
    Inconclusive,
}

impl EvidenceStatusV1 {
    /// The name of a status.
    pub open spec fn name(self) -> Seq<char> {
        match self {
            EvidenceStatusV1::Passed => "Passed"@,
            EvidenceStatusV1::Failed => "Failed"@,
            EvidenceStatusV1::Inconclusive => "Inconclusive"@,
        }
    }

    /// Writes the name of a status.
    pub fn name_text(self) -> (text: &'static str)
        ensures
            text@ == self.name(),
    {
        match self {
            EvidenceStatusV1::Passed => "Passed",
            EvidenceStatusV1::Failed => "Failed",
            EvidenceStatusV1::Inconclusive => "Inconclusive",
        }
    }
}

// ---------------------------------------------------------------------------------------------
// Scale runs

/// Whether a scale run broke a limit that was measured.
pub open spec fn breaks_a_limit(
    atoms: usize,
    distribution_matches: bool,
    observed_wall_millis: u64,
    observed_max_rss_bytes: Option<u64>,
    observed_disk_bytes: Option<u64>,
) -> bool {
    ||| !distribution_matches
    ||| observed_wall_millis > SCALE_MAX_WALL_MILLIS
    ||| atoms == DEEP_SCALE_ATOM_COUNT && (observed_max_rss_bytes matches Some(bytes) && bytes
        > SCALE_MAX_RSS_BYTES)
    ||| atoms == DEEP_SCALE_ATOM_COUNT && (observed_disk_bytes matches Some(bytes) && bytes
        > SCALE_MAX_DISK_BYTES)
}

/// How a scale run ended: a broken limit makes it fail, and the deepest run says nothing where a
/// measurement or its source is missing.
pub open spec fn scale_status(
    atoms: usize,
    distribution_matches: bool,
    observed_wall_millis: u64,
    observed_max_rss_bytes: Option<u64>,
    observed_disk_bytes: Option<u64>,
    source_binding_complete: bool,
) -> EvidenceStatusV1 {
    if breaks_a_limit(
        atoms,
        distribution_matches,
        observed_wall_millis,
        observed_max_rss_bytes,
        observed_disk_bytes,
    ) {
        EvidenceStatusV1::Failed
    } else if atoms == DEEP_SCALE_ATOM_COUNT && (observed_max_rss_bytes is None
        || observed_disk_bytes is None || !source_binding_complete) {
        EvidenceStatusV1::Inconclusive
    } else {
        EvidenceStatusV1::Passed
    }
}

/// Judges a scale run.
pub fn classify_scale_evidence(
    atoms: usize,
    distribution_matches: bool,
    observed_wall_millis: u64,
    observed_max_rss_bytes: Option<u64>,
    observed_disk_bytes: Option<u64>,
    source_binding_complete: bool,
) -> (status: EvidenceStatusV1)
    ensures
        status == scale_status(
            atoms,
            distribution_matches,
            observed_wall_millis,
            observed_max_rss_bytes,
            observed_disk_bytes,
            source_binding_complete,
        ),
{
    let deep = atoms == DEEP_SCALE_ATOM_COUNT;
    let too_much_memory = match observed_max_rss_bytes {
        Some(bytes) => bytes > SCALE_MAX_RSS_BYTES,
        None => false,
    };
    let too_much_disk = match observed_disk_bytes {
        Some(bytes) => bytes > SCALE_MAX_DISK_BYTES,
        None => false,
    };
    if !distribution_matches || observed_wall_millis > SCALE_MAX_WALL_MILLIS || (deep && (
    too_much_memory || too_much_disk)) {
        return EvidenceStatusV1::Failed;
    }
    if deep && (observed_max_rss_bytes.is_none() || observed_disk_bytes.is_none()
        || !source_binding_complete) {
        return EvidenceStatusV1::Inconclusive;
    }
    EvidenceStatusV1::Passed
}

/// The deepest scale run passes only on complete evidence: both measurements are there and within
/// their limits, the run was in time, and its source is bound.
pub proof fn law_deep_scale_passes_only_on_complete_evidence(
    distribution_matches: bool,
    observed_wall_millis: u64,
    observed_max_rss_bytes: Option<u64>,
    observed_disk_bytes: Option<u64>,
    source_binding_complete: bool,
)
    requires
        scale_status(
            DEEP_SCALE_ATOM_COUNT,
            distribution_matches,
            observed_wall_millis,
            observed_max_rss_bytes,
            observed_disk_bytes,
            source_binding_complete,
        ) == EvidenceStatusV1::Passed,
    ensures
        distribution_matches,
        observed_wall_millis <= SCALE_MAX_WALL_MILLIS,
        observed_max_rss_bytes matches Some(bytes) && bytes <= SCALE_MAX_RSS_BYTES,
        observed_disk_bytes matches Some(bytes) && bytes <= SCALE_MAX_DISK_BYTES,
        source_binding_complete,
{
}

// ---------------------------------------------------------------------------------------------
// Names

/// Whether `c` is an ASCII letter or digit.
pub open spec fn is_plain(c: char) -> bool {
    ('0' <= c && c <= '9') || ('a' <= c && c <= 'z') || ('A' <= c && c <= 'Z')
}

fn plain(c: char) -> (yes: bool)
    ensures
        yes == is_plain(c),
{
    ('0' <= c && c <= '9') || ('a' <= c && c <= 'z') || ('A' <= c && c <= 'Z')
}

/// Whether a text is a full Git object id: forty lowercase hexadecimal digits.
pub open spec fn is_git_commit(text: Seq<char>) -> bool {
    text.len() == 40 && forall|i: int|
        0 <= i < text.len() ==> is_lower_hex_digit(#[trigger] text[i])
}

/// Recognises a full Git object id.
pub fn valid_git_commit(value: &str) -> (valid: bool)
    ensures
        valid == is_git_commit(value@),
{
    let list = characters(value);
    if list.len() != 40 {
        return false;
    }
    let mut i: usize = 0;
    while i < list.len()
        invariant
            list@ == value@,
            i <= list@.len(),
            forall|k: int| 0 <= k < i ==> is_lower_hex_digit(#[trigger] list@[k]),
        decreases list@.len() - i,
    {
        let c: char = list[i];
        if !(('0' <= c && c <= '9') || ('a' <= c && c <= 'f')) {
            assert(!is_lower_hex_digit(value@[i as int]));
            return false;
        }
        i += 1;
    }
    true
}

/// Whether a text is a name for logs: letters, digits and hyphens, at least one of them.
pub open spec fn is_log_stem(text: Seq<char>) -> bool {
    text.len() > 0 && forall|i: int|
        0 <= i < text.len() ==> is_plain(#[trigger] text[i]) || text[i] == '-'
}

/// Recognises a name for logs.
pub fn safe_log_stem(value: &str) -> (safe: bool)
    ensures
        safe == is_log_stem(value@),
{
    let list = characters(value);
    let mut i: usize = 0;
    while i < list.len()
        invariant
            list@ == value@,
            i <= list@.len(),
            forall|k: int| 0 <= k < i ==> is_plain(#[trigger] list@[k]) || list@[k] == '-',
        decreases list@.len() - i,
    {
        let c: char = list[i];
        if !plain(c) && c != '-' {
            assert(!(is_plain(value@[i as int]) || value@[i as int] == '-'));
            return false;
        }
        i += 1;
    }
    list.len() > 0
}

/// Whether `c` may stand behind the first character of a file name.
pub open spec fn is_name_character(c: char) -> bool {
    is_plain(c) || c == '-' || c == '_' || c == '.'
}

/// Whether a text is a plain file name: a letter or digit first, and then letters, digits,
/// hyphens, underscores and dots.
pub open spec fn is_artifact_file_name(text: Seq<char>) -> bool {
    text.len() > 0 && is_plain(text[0]) && forall|i: int|
        1 <= i < text.len() ==> is_name_character(#[trigger] text[i])
}

/// Recognises a plain file name.
pub fn safe_artifact_file_name(value: &str) -> (safe: bool)
    ensures
        safe == is_artifact_file_name(value@),
{
    let list = characters(value);
    if list.len() == 0 || !plain(list[0]) {
        return false;
    }
    let mut i: usize = 1;
    while i < list.len()
        invariant
            list@ == value@,
            1 <= i <= list@.len(),
            forall|k: int| 1 <= k < i ==> is_name_character(#[trigger] list@[k]),
        decreases list@.len() - i,
    {
        let c: char = list[i];
        if !plain(c) && c != '-' && c != '_' && c != '.' {
            assert(!is_name_character(value@[i as int]));
            return false;
        }
        i += 1;
    }
    true
}

/// A plain file name does not lead out of its directory: it has no separator, and it is neither
/// the directory itself nor the one above.
pub proof fn law_plain_file_name_stays_in_its_directory(name: Seq<char>)
    requires
        is_artifact_file_name(name),
    ensures
        !name.contains('/'),
        !name.contains('\\'),
        name != "."@,
        name != ".."@,
{
    reveal_strlit(".");
    reveal_strlit("..");
    assert(name[0] != '.');
    if name.contains('/') {
        let i = name.index_of('/');
        assert(i == 0 || is_name_character(name[i]));
    }
    if name.contains('\\') {
        let i = name.index_of('\\');
        assert(i == 0 || is_name_character(name[i]));
    }
}

/// Whether a path leads from a directory to something below it: it is not absolute, it has no
/// backslash, no segment names the directory above, and the first does not name the directory.
pub open spec fn is_relative_path(path: Seq<char>) -> bool {
    &&& path.len() > 0
    &&& path[0] != '/'
    &&& !path.contains('\\')
    &&& forall|i: int, j: int| #[trigger]
        is_segment(path, i, j) ==> path.subrange(i, j) != seq!['.', '.'] && !(i == 0
            && path.subrange(i, j) == seq!['.'])
}

/// Recognises a path that leads from a directory to something below it.
#[verifier::loop_isolation(false)]
pub fn safe_proof_relative_path(value: &str) -> (safe: bool)
    ensures
        safe == is_relative_path(value@),
{
    let list = characters(value);
    let ghost path = value@;
    if list.len() == 0 {
        return false;
    }
    if list[0] == '/' {
        return false;
    }
    let mut start: usize = 0;
    let mut end: usize = 0;
    while end < list.len()
        invariant
            list@ == path,
            start <= end <= list@.len(),
            start == 0 || path[start - 1] == '/',
            forall|k: int| start <= k < end ==> #[trigger] path[k] != '/',
            forall|k: int| 0 <= k < end ==> #[trigger] path[k] != '\\',
            forall|i: int, j: int| #[trigger]
                is_segment(path, i, j) && j < start ==> path.subrange(i, j) != seq!['.', '.'] && !(
                i == 0 && path.subrange(i, j) == seq!['.']),
        decreases list@.len() - end,
    {
        let c: char = list[end];
        if c == '\\' {
            assert(path[end as int] == '\\');
            assert(path.contains('\\'));
            return false;
        }
        if c == '/' {
            if !plain_segment(&list, start, end) {
                assert(is_segment(path, start as int, end as int));
                return false;
            }
            proof {
                assert forall|i: int, j: int| #[trigger]
                    is_segment(path, i, j) && j < end + 1 implies path.subrange(i, j) != seq![
                    '.',
                    '.',
                ] && !(i == 0 && path.subrange(i, j) == seq!['.']) by {
                    if j >= start {
                        if j < end {
                            assert(path[j] != '/');
                        }
                        assert(j == end);
                        if i < start {
                            assert(path[start - 1] == '/');
                        } else if i > start {
                            assert(path[i - 1] != '/');
                        }
                        assert(i == start);
                    }
                }
            }
            start = end + 1;
        }
        end += 1;
    }
    if !plain_segment(&list, start, end) {
        assert(is_segment(path, start as int, end as int));
        return false;
    }
    proof {
        assert forall|i: int, j: int| #[trigger] is_segment(path, i, j) implies path.subrange(
            i,
            j,
        ) != seq!['.', '.'] && !(i == 0 && path.subrange(i, j) == seq!['.']) by {
            if j >= start {
                if j < end {
                    assert(path[j] != '/');
                }
                assert(j == end);
                if i < start {
                    assert(path[start - 1] == '/');
                } else if i > start {
                    assert(path[i - 1] != '/');
                }
                assert(i == start);
            }
        }
        if path.contains('\\') {
            let k = path.index_of('\\');
            assert(path[k] != '\\');
        }
    }
    true
}

fn plain_segment(list: &Vec<char>, start: usize, end: usize) -> (plain: bool)
    requires
        start <= end <= list@.len(),
    ensures
        plain == (list@.subrange(start as int, end as int) != seq!['.', '.'] && !(start == 0
            && list@.subrange(start as int, end as int) == seq!['.'])),
{
    let ghost segment = list@.subrange(start as int, end as int);
    if end - start == 2 && list[start] == '.' && list[start + 1] == '.' {
        assert(segment =~= seq!['.', '.']);
        return false;
    }
    if start == 0 && end == 1 && list[0] == '.' {
        assert(segment =~= seq!['.']);
        return false;
    }
    proof {
        if segment == seq!['.', '.'] {
            assert(segment.len() == 2);
            assert(segment[0] == list@[start as int]);
            assert(segment[1] == list@[start + 1]);
        }
        if start == 0 && segment == seq!['.'] {
            assert(segment.len() == 1);
            assert(segment[0] == list@[0]);
        }
    }
    true
}

// ---------------------------------------------------------------------------------------------
// Sources and digests

/// The commit that evidence is bound to: the one that was checked out, clean, both when the
/// campaign began and when its evidence is published.
pub open spec fn bound_commit(start: Option<&str>, publication: Option<&str>) -> Option<Seq<char>> {
    match (start, publication) {
        (Some(start), Some(publication)) => if start@ == publication@ && is_git_commit(start@) {
            Some(start@)
        } else {
            None
        },
        _ => None,
    }
}

/// Binds evidence to a commit.
pub fn bound_clean_source_commit(start: Option<&str>, publication: Option<&str>) -> (commit: Option<
    String,
>)
    ensures
        crate::text::optional_text(commit) == bound_commit(start, publication),
{
    match start {
        Some(start) => match publication {
            Some(publication) => {
                if same_text(start, publication) && valid_git_commit(start) {
                    Some(start.to_owned())
                } else {
                    None
                }
            },
            None => None,
        },
        None => None,
    }
}

/// The SHA-256 digest of bytes, in hexadecimal.
pub fn sha256_hex(bytes: &[u8]) -> (text: String)
    ensures
        text@ == hex_text(sha256_of(bytes@)),
{
    let digest = sha256(bytes);
    digest_hex(&digest)
}

/// The SHA-256 digest of bytes behind a domain text, in hexadecimal.
pub open spec fn prefixed_hex(domain: Seq<char>, bytes: Seq<u8>) -> Seq<char> {
    hex_text(sha256_of(utf8(domain) + bytes))
}

/// Writes the SHA-256 digest of bytes behind a domain text in hexadecimal.
pub fn hash_prefixed_hex(domain: &str, bytes: &[u8]) -> (text: String)
    ensures
        text@ == prefixed_hex(domain@, bytes@),
{
    let digest = domain_hasher(domain).update(bytes).finish();
    digest_hex(&digest)
}

// ---------------------------------------------------------------------------------------------
// Commands

/// The texts of a command.
pub open spec fn command_texts(command: Seq<String>) -> Seq<Seq<char>> {
    command.map_values(|part: String| part@)
}

/// The command of a mutation campaign.
pub open spec fn mutation_command(toolchain: Seq<char>) -> Seq<Seq<char>> {
    seq![
        "cargo"@,
        "+"@ + toolchain,
        "mutants"@,
        "--package"@,
        "naome-memory-core"@,
        "--timeout"@,
        "120"@,
        "--output"@,
        PROOF_DIR@ + "/"@ + MUTATION_OUTPUT_DIR@,
    ]
}

/// Writes the command of a mutation campaign.
pub fn mutation_target_command(toolchain: &str) -> (command: Vec<String>)
    ensures
        command_texts(command@) == mutation_command(toolchain@),
{
    let mut command: Vec<String> = Vec::new();
    command.push("cargo".to_owned());
    command.push(text2("+", toolchain));
    command.push("mutants".to_owned());
    command.push("--package".to_owned());
    command.push("naome-memory-core".to_owned());
    command.push("--timeout".to_owned());
    command.push("120".to_owned());
    command.push("--output".to_owned());
    command.push(text3(PROOF_DIR, "/", MUTATION_OUTPUT_DIR));
    assert(command_texts(command@) =~= mutation_command(toolchain@));
    command
}

/// The command of a fuzz target.
pub open spec fn fuzz_command(target: Seq<char>, seconds: u64) -> Seq<Seq<char>> {
    seq![
        "cargo"@,
        "+"@ + FUZZ_NIGHTLY@,
        "fuzz"@,
        "run"@,
        target,
        "--"@,
        "-max_total_time="@ + decimal(seconds as nat),
    ]
}

/// Writes the command of a fuzz target.
pub fn fuzz_target_command(target: &str, seconds: u64) -> (command: Vec<String>)
    ensures
        command_texts(command@) == fuzz_command(target@, seconds),
{
    let duration = decimal_text(seconds);
    let mut command: Vec<String> = Vec::new();
    command.push("cargo".to_owned());
    command.push(text2("+", FUZZ_NIGHTLY));
    command.push("fuzz".to_owned());
    command.push("run".to_owned());
    command.push(target.to_owned());
    command.push("--".to_owned());
    command.push(text2("-max_total_time=", duration.as_str()));
    assert(command_texts(command@) =~= fuzz_command(target@, seconds));
    command
}

/// The targets of a fuzz campaign, each with the name of its logs.
pub open spec fn fuzz_target_names() -> Seq<(Seq<char>, Seq<char>)> {
    seq![
        ("decoder"@, "fuzz-decoder"@),
        ("canonical"@, "fuzz-canonical"@),
        ("receipt_verifier"@, "fuzz-receipt-verifier"@),
        ("sqlite_ingest"@, "fuzz-sqlite-ingest"@),
    ]
}

/// Lists the targets of a fuzz campaign, each with the name of its logs.
pub fn fuzz_targets() -> (targets: [(&'static str, &'static str); 4])
    ensures
        targets@.map_values(|target: (&'static str, &'static str)| (target.0@, target.1@))
            == fuzz_target_names(),
{
    let targets: [(&'static str, &'static str); 4] = [
        ("decoder", "fuzz-decoder"),
        ("canonical", "fuzz-canonical"),
        ("receipt_verifier", "fuzz-receipt-verifier"),
        ("sqlite_ingest", "fuzz-sqlite-ingest"),
    ];
    assert(targets@.map_values(|target: (&'static str, &'static str)| (target.0@, target.1@))
        =~= fuzz_target_names());
    targets
}

/// Scale evidence fails exactly where the sizes are not distributed as they should be, the run took
/// longer than half an hour, or a run of 100000 atoms was seen to take more than 6 GiB of memory or
/// 10 GiB of disk; it passes exactly where it does not fail and, at 100000 atoms, both were measured
/// and the source is bound.
pub proof fn law_scale_evidence_is_classified_exactly(
    atoms: usize,
    distribution_matches: bool,
    observed_wall_millis: u64,
    observed_max_rss_bytes: Option<u64>,
    observed_disk_bytes: Option<u64>,
    source_binding_complete: bool,
)
    ensures
        ({
            let status = scale_status(
                atoms,
                distribution_matches,
                observed_wall_millis,
                observed_max_rss_bytes,
                observed_disk_bytes,
                source_binding_complete,
            );
            let fails = {
                ||| !distribution_matches
                ||| observed_wall_millis > 30 * 60 * 1000
                ||| atoms == 100_000 && observed_max_rss_bytes is Some && observed_max_rss_bytes->0
                    > 6 * 1024 * 1024 * 1024
                ||| atoms == 100_000 && observed_disk_bytes is Some && observed_disk_bytes->0 > 10
                    * 1024 * 1024 * 1024
            };
            &&& status is Failed <==> fails
            &&& status is Passed <==> !fails && (atoms == 100_000 ==> observed_max_rss_bytes is Some
                && observed_disk_bytes is Some && source_binding_complete)
        }),
{
}

/// A commit is 40 lowercase hexadecimal digits; a log stem is letters, digits and dashes; a file
/// name begins with a letter or a digit and goes on with those, dashes, underscores and dots.
pub proof fn law_names_are_of_known_characters(text: Seq<char>, i: int)
    ensures
        is_git_commit(text) && 0 <= i < text.len() ==> {
            &&& text.len() == 40
            &&& ('0' <= text[i] && text[i] <= '9') || ('a' <= text[i] && text[i] <= 'f')
        },
        is_log_stem(text) && 0 <= i < text.len() ==> text[i] != '/' && text[i] != '.' && text[i]
            != '\\',
        is_artifact_file_name(text) && 0 <= i < text.len() ==> text[i] != '/' && text[i] != '\\',
        is_artifact_file_name(text) ==> text[0] != '.' && text[0] != '-',
{
}

/// Evidence is bound to a commit exactly where the same commit was seen at the start and at the
/// publication, and is one.
pub proof fn law_commit_is_bound_exactly(start: Option<&str>, publication: Option<&str>)
    ensures
        bound_commit(start, publication) is Some <==> {
            &&& start matches Some(first)
            &&& publication matches Some(second)
            &&& first@ == second@
            &&& first@.len() == 40
            &&& forall|i: int| 0 <= i < 40 ==> is_lower_hex_digit(#[trigger] first@[i])
        },
        bound_commit(start, publication) matches Some(commit) ==> commit == start->0@,
{
}

/// A fuzz campaign has four targets, no two of one name or of one log.
pub proof fn law_fuzz_targets_are_four_and_differ(i: int, j: int)
    requires
        0 <= i < j < 4,
    ensures
        fuzz_target_names().len() == 4,
        fuzz_target_names()[i].0 != fuzz_target_names()[j].0,
        fuzz_target_names()[i].1 != fuzz_target_names()[j].1,
        is_log_stem(fuzz_target_names()[i].1),
        is_log_stem(fuzz_target_names()[j].1),
{
    reveal_strlit("decoder");
    reveal_strlit("canonical");
    reveal_strlit("receipt_verifier");
    reveal_strlit("sqlite_ingest");
    reveal_strlit("fuzz-decoder");
    reveal_strlit("fuzz-canonical");
    reveal_strlit("fuzz-receipt-verifier");
    reveal_strlit("fuzz-sqlite-ingest");
    assert("decoder"@.len() == 7);
    assert("canonical"@.len() == 9);
    assert("receipt_verifier"@.len() == 16);
    assert("sqlite_ingest"@.len() == 13);
    assert("fuzz-decoder"@.len() == 12);
    assert("fuzz-canonical"@.len() == 14);
    assert("fuzz-receipt-verifier"@.len() == 21);
    assert("fuzz-sqlite-ingest"@.len() == 18);
}

/// Every campaign is run by cargo under its toolchain: mutation of the decision core with a time
/// limit of 120 seconds for each mutant, fuzzing of one target for the time that was asked for.
pub proof fn law_campaign_commands_are_bounded(
    toolchain: Seq<char>,
    target: Seq<char>,
    seconds: u64,
)
    ensures
        ({
            let command = mutation_command(toolchain);
            &&& command.len() == 9
            &&& command[0] == "cargo"@
            &&& command[1] == "+"@ + toolchain
            &&& command[2] == "mutants"@
            &&& command[3] == "--package"@ && command[4] == "naome-memory-core"@
            &&& command[5] == "--timeout"@ && command[6] == "120"@
            &&& command[7] == "--output"@ && command[8] == "target/proofs"@ + "/"@
                + "mutation-tool"@
        }),
        ({
            let command = fuzz_command(target, seconds);
            &&& command.len() == 7
            &&& command[0] == "cargo"@
            &&& command[1] == "+"@ + "nightly-2026-07-01"@
            &&& command[2] == "fuzz"@ && command[3] == "run"@
            &&& command[4] == target
            &&& command[5] == "--"@
            &&& command[6] == "-max_total_time="@ + decimal(seconds as nat)
        }),
{
}

} // verus!
