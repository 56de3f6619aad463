//! The edge tables: artifact links, relations, pins, retirement runs and decisions, and the rows
//! of the full-text index.

use vstd::prelude::*;
use vstd::string::*;

use crate::artifact::ArtifactDigest;
use crate::bytemap::ByteMap;
use crate::digest::{sha256, sha256_of};
use crate::error::{Fault, StoreError, either_fault, fault_when};
use crate::folding::{folded, lemma_folded_step, lemma_folded_stops};
use crate::framing::utf8;
use crate::hexadecimal::{digest_hex, hex_bytes, hex_decode, hex_refusal, hex_text, is_hex_text};
use crate::messages::{about_pair, integrity_about, integrity_about_pair, integrity_fault};
use crate::model::{is_relation_kind, names_relation};
use crate::stored::{bool_fault, digest_array, digest_fault, same_digest, sqlite_bool};
use crate::tables::{Headers, header_views, loaded};
use crate::text::{copy_bytes, same_text, text2, text3};

verus! {

/// The list at a key, empty where there is none.
pub open spec fn group_of<T>(groups: Map<Seq<u8>, Seq<T>>, key: Seq<u8>) -> Seq<T> {
    if groups.contains_key(key) {
        groups[key]
    } else {
        Seq::empty()
    }
}

/// Appends an item to the list at a key.
fn push_group<T>(table: &mut ByteMap<Vec<T>>, key: &[u8], item: T)
    ensures
        final(table)@.dom() == old(table)@.dom().insert(key@),
        final(table)@[key@]@ == (if old(table)@.contains_key(key@) {
            old(table)@[key@]@
        } else {
            Seq::empty()
        }).push(item),
        forall|other: Seq<u8>|
            #![trigger final(table)@[other]]
            other != key@ && old(table)@.contains_key(other) ==> final(table)@[other] == old(
                table,
            )@[other],
{
    let mut items: Vec<T> = match table.remove(key) {
        Some(items) => items,
        None => Vec::new(),
    };
    items.push(item);
    table.insert(copy_bytes(key), items);
    assert(table@.dom() =~= old(table)@.dom().insert(key@));
}

// ---------------------------------------------------------------------------------------------
// Artifact links

/// A row of one of the two tables that link artifacts to atoms.
#[derive(Clone, Debug)]
pub struct LinkRow {
    pub atom_id: Vec<u8>,
    pub artifact_digest: Vec<u8>,
    pub role: String,
    pub retention_allowed: i64,
}

/// An artifact linked to an atom.
#[derive(Clone, Debug)]
pub struct ArtifactLinkAuthority {
    pub digest: ArtifactDigest,
    pub role: String,
    pub retention_allowed: bool,
}

/// The mathematical content of an [`ArtifactLinkAuthority`].
#[verifier::ext_equal]
pub struct LinkView {
    pub digest: Seq<u8>,
    pub role: Seq<char>,
    pub retention_allowed: bool,
}

impl View for ArtifactLinkAuthority {
    type V = LinkView;

    open spec fn view(&self) -> LinkView {
        LinkView {
            digest: self.digest@,
            role: self.role@,
            retention_allowed: self.retention_allowed,
        }
    }
}

/// The linked artifacts by atom.
pub type ArtifactLinks = ByteMap<Vec<ArtifactLinkAuthority>>;

/// The mathematical content of a list of links.
pub open spec fn link_list(links: Seq<ArtifactLinkAuthority>) -> Seq<LinkView> {
    links.map_values(|link: ArtifactLinkAuthority| link@)
}

/// The mathematical content of a link table.
pub open spec fn link_views(links: ArtifactLinks) -> Map<Seq<u8>, Seq<LinkView>> {
    links@.map_values(|links: Vec<ArtifactLinkAuthority>| link_list(links@))
}

/// The two tables that link artifacts to atoms.
#[derive(Clone, Copy, Debug, PartialEq, Eq, Structural)]
pub enum LinkTable {
    References,
    ProvenanceEdges,
}

impl LinkTable {
    /// The stored name of the table.
    pub open spec fn name(self) -> Seq<char> {
        match self {
            LinkTable::References => "artifact_refs"@,
            LinkTable::ProvenanceEdges => "artifact_provenance_edges"@,
        }
    }

    /// Writes the stored name of the table.
    pub fn text(self) -> (name: &'static str)
        ensures
            name@ == self.name(),
    {
        match self {
            LinkTable::References => "artifact_refs",
            LinkTable::ProvenanceEdges => "artifact_provenance_edges",
        }
    }
}

/// The fault of a link row.
pub open spec fn link_row_fault(row: LinkRow, source: LinkTable) -> Option<Fault> {
    either_fault(
        digest_fault(row.atom_id@, "artifact link atom_id"@),
        either_fault(
            digest_fault(row.artifact_digest@, "artifact link digest"@),
            if row.role@.len() == 0 {
                Some(Fault::Integrity(source.name() + " contains an empty artifact role"@))
            } else {
                bool_fault(row.retention_allowed, "artifact retention_allowed"@)
            },
        ),
    )
}

/// Takes one link row in.
pub open spec fn link_step(
    table: Map<Seq<u8>, Seq<LinkView>>,
    row: LinkRow,
    source: LinkTable,
) -> Result<Map<Seq<u8>, Seq<LinkView>>, Fault> {
    match link_row_fault(row, source) {
        Some(fault) => Err(fault),
        None => Ok(
            table.insert(
                row.atom_id@,
                group_of(table, row.atom_id@).push(
                    LinkView {
                        digest: row.artifact_digest@,
                        role: row.role@,
                        retention_allowed: row.retention_allowed == 1,
                    },
                ),
            ),
        ),
    }
}

fn take_link(table: &mut ArtifactLinks, row: &LinkRow, source: LinkTable) -> (verdict: Result<(), StoreError>)
    ensures
        match verdict {
            Ok(_) => link_step(link_views(*old(table)), *row, source) == Ok::<Map<Seq<u8>, Seq<LinkView>>, Fault>(
                link_views(*final(table)),
            ),
            Err(error) => link_step(link_views(*old(table)), *row, source) == Err::<Map<Seq<u8>, Seq<LinkView>>, Fault>(
                error@,
            ),
        },
{
    let atom_id = digest_array(row.atom_id.as_slice(), "artifact link atom_id")?;
    let digest = ArtifactDigest::from_slice(row.artifact_digest.as_slice(), "artifact link digest")?;
    if row.role.as_str().is_empty() {
        return Err(StoreError::Integrity(text2(source.text(), " contains an empty artifact role")));
    }
    let retention_allowed = sqlite_bool(row.retention_allowed, "artifact retention_allowed")?;
    let link = ArtifactLinkAuthority { digest, role: row.role.clone(), retention_allowed };
    let ghost view = link@;
    push_group(table, row.atom_id.as_slice(), link);
    proof {
        let before = link_views(*old(table));
        let after = link_views(*table);
        assert(after[row.atom_id@] =~= group_of(before, row.atom_id@).push(view));
        assert(after =~= before.insert(
            row.atom_id@,
            group_of(before, row.atom_id@).push(view),
        ));
    }
    Ok(())
}

/// The link table that rows give.
pub open spec fn link_table(rows: Seq<LinkRow>, source: LinkTable) -> Result<Map<Seq<u8>, Seq<LinkView>>, Fault> {
    folded(
        rows,
        Map::<Seq<u8>, Seq<LinkView>>::empty(),
        |table: Map<Seq<u8>, Seq<LinkView>>, row: LinkRow| link_step(table, row, source),
    )
}

/// Loads one of the two link tables.
#[verifier::loop_isolation(false)]
pub fn load_artifact_links(rows: &Vec<LinkRow>, source: LinkTable) -> (table: Result<ArtifactLinks, StoreError>)
    ensures
        loaded(table, |table: ArtifactLinks| link_views(table)) == link_table(rows@, source),
{
    let ghost start = Map::<Seq<u8>, Seq<LinkView>>::empty();
    let ghost step = |table: Map<Seq<u8>, Seq<LinkView>>, row: LinkRow| link_step(table, row, source);
    let mut table: ArtifactLinks = ByteMap::new();
    assert(link_views(table) =~= start);
    let mut i: usize = 0;
    while i < rows.len()
        invariant
            i <= rows@.len(),
            folded(rows@.subrange(0, i as int), start, step) == Ok::<Map<Seq<u8>, Seq<LinkView>>, Fault>(
                link_views(table),
            ),
        decreases rows@.len() - i,
    {
        proof {
            lemma_folded_step(rows@, start, step, i as int);
        }
        match take_link(&mut table, &rows[i], source) {
            Ok(()) => {},
            Err(error) => {
                proof {
                    lemma_folded_stops(rows@, start, step, i + 1);
                }
                return Err(error);
            },
        }
        i += 1;
    }
    assert(rows@.subrange(0, i as int) =~= rows@);
    Ok(table)
}

// ---------------------------------------------------------------------------------------------
// Relations

/// A row of the relation table.
#[derive(Clone, Debug)]
pub struct RelationRow {
    pub source_atom_id: Vec<u8>,
    pub target_atom_id: Vec<u8>,
    pub relation_kind: String,
    pub relation_digest: Vec<u8>,
}

/// A relation that starts at an atom.
#[derive(Clone, Debug)]
pub struct RelationAuthority {
    pub target_atom_id: [u8; 32],
    pub relation_kind: String,
    pub relation_digest: [u8; 32],
}

/// The mathematical content of a [`RelationAuthority`].
#[verifier::ext_equal]
pub struct RelationView {
    pub target_atom_id: Seq<u8>,
    pub relation_kind: Seq<char>,
    pub relation_digest: Seq<u8>,
}

impl View for RelationAuthority {
    type V = RelationView;

    open spec fn view(&self) -> RelationView {
        RelationView {
            target_atom_id: self.target_atom_id@,
            relation_kind: self.relation_kind@,
            relation_digest: self.relation_digest@,
        }
    }
}

/// The relations by the atom that they start at.
pub type Relations = ByteMap<Vec<RelationAuthority>>;

/// The mathematical content of a list of relations.
pub open spec fn relation_list(relations: Seq<RelationAuthority>) -> Seq<RelationView> {
    relations.map_values(|relation: RelationAuthority| relation@)
}

/// The mathematical content of a relation table.
pub open spec fn relation_views(relations: Relations) -> Map<Seq<u8>, Seq<RelationView>> {
    relations@.map_values(|relations: Vec<RelationAuthority>| relation_list(relations@))
}

/// The fault of a relation row: it needs two different atoms of one memory space and a known kind.
pub open spec fn relation_row_fault(row: RelationRow, headers: Headers) -> Option<Fault> {
    let known = header_views(headers);
    either_fault(
        digest_fault(row.source_atom_id@, "relation source_atom_id"@),
        either_fault(
            digest_fault(row.target_atom_id@, "relation target_atom_id"@),
            either_fault(
                digest_fault(row.relation_digest@, "relation_digest"@),
                if row.source_atom_id@ == row.target_atom_id@ || !names_relation(
                    row.relation_kind@,
                ) {
                    Some(
                        Fault::Integrity(
                            about_pair(
                                "relation "@,
                                row.source_atom_id@,
                                " -> "@,
                                row.target_atom_id@,
                                " has invalid authority"@,
                            ),
                        ),
                    )
                } else if !known.contains_key(row.source_atom_id@) {
                    Some(integrity_fault("relation source "@, row.source_atom_id@, " is missing"@))
                } else if !known.contains_key(row.target_atom_id@) {
                    Some(integrity_fault("relation target "@, row.target_atom_id@, " is missing"@))
                } else {
                    fault_when(
                        known[row.source_atom_id@].memory_space_id
                            != known[row.target_atom_id@].memory_space_id,
                        Fault::Integrity(
                            about_pair(
                                "relation "@,
                                row.source_atom_id@,
                                " -> "@,
                                row.target_atom_id@,
                                " crosses memory spaces"@,
                            ),
                        ),
                    )
                },
            ),
        ),
    )
}

/// Takes one relation row in.
pub open spec fn relation_step(
    table: Map<Seq<u8>, Seq<RelationView>>,
    row: RelationRow,
    headers: Headers,
) -> Result<Map<Seq<u8>, Seq<RelationView>>, Fault> {
    match relation_row_fault(row, headers) {
        Some(fault) => Err(fault),
        None => Ok(
            table.insert(
                row.source_atom_id@,
                group_of(table, row.source_atom_id@).push(
                    RelationView {
                        target_atom_id: row.target_atom_id@,
                        relation_kind: row.relation_kind@,
                        relation_digest: row.relation_digest@,
                    },
                ),
            ),
        ),
    }
}

fn take_relation(table: &mut Relations, row: &RelationRow, headers: &Headers) -> (verdict: Result<(), StoreError>)
    ensures
        match verdict {
            Ok(_) => relation_step(relation_views(*old(table)), *row, *headers) == Ok::<Map<Seq<u8>, Seq<RelationView>>, Fault>(
                relation_views(*final(table)),
            ),
            Err(error) => relation_step(relation_views(*old(table)), *row, *headers) == Err::<Map<Seq<u8>, Seq<RelationView>>, Fault>(
                error@,
            ),
        },
{
    let source = digest_array(row.source_atom_id.as_slice(), "relation source_atom_id")?;
    let target = digest_array(row.target_atom_id.as_slice(), "relation target_atom_id")?;
    let relation_digest = digest_array(row.relation_digest.as_slice(), "relation_digest")?;
    if same_digest(&source, &target) || !is_relation_kind(row.relation_kind.as_str()) {
        return Err(
            integrity_about_pair("relation ", &source, " -> ", &target, " has invalid authority"),
        );
    }
    let source_header = match headers.get(source.as_slice()) {
        Some(header) => header,
        None => return Err(integrity_about("relation source ", &source, " is missing")),
    };
    let target_header = match headers.get(target.as_slice()) {
        Some(header) => header,
        None => return Err(integrity_about("relation target ", &target, " is missing")),
    };
    if !same_text(
        source_header.memory_space_id.as_str(),
        target_header.memory_space_id.as_str(),
    ) {
        return Err(
            integrity_about_pair("relation ", &source, " -> ", &target, " crosses memory spaces"),
        );
    }
    let relation = RelationAuthority {
        target_atom_id: target,
        relation_kind: row.relation_kind.clone(),
        relation_digest,
    };
    let ghost view = relation@;
    push_group(table, row.source_atom_id.as_slice(), relation);
    proof {
        let before = relation_views(*old(table));
        let after = relation_views(*table);
        let key = row.source_atom_id@;
        assert(after[key] =~= group_of(before, key).push(view));
        assert(after =~= before.insert(key, group_of(before, key).push(view)));
    }
    Ok(())
}

/// The relation table that rows give.
pub open spec fn relation_table(rows: Seq<RelationRow>, headers: Headers) -> Result<Map<Seq<u8>, Seq<RelationView>>, Fault> {
    folded(
        rows,
        Map::<Seq<u8>, Seq<RelationView>>::empty(),
        |table: Map<Seq<u8>, Seq<RelationView>>, row: RelationRow| relation_step(table, row, headers),
    )
}

/// Loads the relation table.
#[verifier::loop_isolation(false)]
pub fn load_relation_authorities(rows: &Vec<RelationRow>, headers: &Headers) -> (table: Result<Relations, StoreError>)
    ensures
        loaded(table, |table: Relations| relation_views(table)) == relation_table(rows@, *headers),
{
    let ghost start = Map::<Seq<u8>, Seq<RelationView>>::empty();
    let ghost step = |table: Map<Seq<u8>, Seq<RelationView>>, row: RelationRow| relation_step(table, row, *headers);
    let mut table: Relations = ByteMap::new();
    assert(relation_views(table) =~= start);
    let mut i: usize = 0;
    while i < rows.len()
        invariant
            i <= rows@.len(),
            folded(rows@.subrange(0, i as int), start, step) == Ok::<Map<Seq<u8>, Seq<RelationView>>, Fault>(
                relation_views(table),
            ),
        decreases rows@.len() - i,
    {
        proof {
            lemma_folded_step(rows@, start, step, i as int);
        }
        match take_relation(&mut table, &rows[i], headers) {
            Ok(()) => {},
            Err(error) => {
                proof {
                    lemma_folded_stops(rows@, start, step, i + 1);
                }
                return Err(error);
            },
        }
        i += 1;
    }
    assert(rows@.subrange(0, i as int) =~= rows@);
    Ok(table)
}

// ---------------------------------------------------------------------------------------------
// Artifact pins

/// A row of the pin table.
#[derive(Clone, Debug)]
pub struct PinRow {
    pub atom_id: Vec<u8>,
    pub artifact_digest: Vec<u8>,
    pub run_id: Vec<u8>,
}

/// An artifact that a retirement run pinned for an atom.
#[derive(Clone, Debug)]
pub struct PinAuthority {
    pub digest: ArtifactDigest,
    pub run_id: [u8; 32],
}

/// The mathematical content of a [`PinAuthority`].
#[verifier::ext_equal]
pub struct PinView {
    pub digest: Seq<u8>,
    pub run_id: Seq<u8>,
}

impl View for PinAuthority {
    type V = PinView;

    open spec fn view(&self) -> PinView {
        PinView { digest: self.digest@, run_id: self.run_id@ }
    }
}

/// The pins by atom.
pub type ArtifactPins = ByteMap<Vec<PinAuthority>>;

/// The mathematical content of a list of pins.
pub open spec fn pin_list(pins: Seq<PinAuthority>) -> Seq<PinView> {
    pins.map_values(|pin: PinAuthority| pin@)
}

/// The mathematical content of a pin table.
pub open spec fn pin_views(pins: ArtifactPins) -> Map<Seq<u8>, Seq<PinView>> {
    pins@.map_values(|pins: Vec<PinAuthority>| pin_list(pins@))
}

/// The fault of a pin row.
pub open spec fn pin_row_fault(row: PinRow) -> Option<Fault> {
    either_fault(
        digest_fault(row.atom_id@, "artifact pin atom_id"@),
        either_fault(
            digest_fault(row.artifact_digest@, "artifact pin digest"@),
            digest_fault(row.run_id@, "artifact pin run_id"@),
        ),
    )
}

/// Takes one pin row in.
pub open spec fn pin_step(table: Map<Seq<u8>, Seq<PinView>>, row: PinRow) -> Result<
    Map<Seq<u8>, Seq<PinView>>,
    Fault,
> {
    match pin_row_fault(row) {
        Some(fault) => Err(fault),
        None => Ok(
            table.insert(
                row.atom_id@,
                group_of(table, row.atom_id@).push(
                    PinView { digest: row.artifact_digest@, run_id: row.run_id@ },
                ),
            ),
        ),
    }
}

fn take_pin(table: &mut ArtifactPins, row: &PinRow) -> (verdict: Result<(), StoreError>)
    ensures
        match verdict {
            Ok(_) => pin_step(pin_views(*old(table)), *row) == Ok::<Map<Seq<u8>, Seq<PinView>>, Fault>(
                pin_views(*final(table)),
            ),
            Err(error) => pin_step(pin_views(*old(table)), *row) == Err::<Map<Seq<u8>, Seq<PinView>>, Fault>(
                error@,
            ),
        },
{
    let atom_id = digest_array(row.atom_id.as_slice(), "artifact pin atom_id")?;
    let digest = ArtifactDigest::from_slice(row.artifact_digest.as_slice(), "artifact pin digest")?;
    let run_id = digest_array(row.run_id.as_slice(), "artifact pin run_id")?;
    let pin = PinAuthority { digest, run_id };
    let ghost view = pin@;
    push_group(table, atom_id.as_slice(), pin);
    proof {
        let before = pin_views(*old(table));
        let after = pin_views(*table);
        let key = row.atom_id@;
        assert(after[key] =~= group_of(before, key).push(view));
        assert(after =~= before.insert(key, group_of(before, key).push(view)));
    }
    Ok(())
}

/// The pin table that rows give.
pub open spec fn pin_table(rows: Seq<PinRow>) -> Result<Map<Seq<u8>, Seq<PinView>>, Fault> {
    folded(
        rows,
        Map::<Seq<u8>, Seq<PinView>>::empty(),
        |table: Map<Seq<u8>, Seq<PinView>>, row: PinRow| pin_step(table, row),
    )
}

/// Loads the pin table.
#[verifier::loop_isolation(false)]
pub fn load_artifact_pins(rows: &Vec<PinRow>) -> (table: Result<ArtifactPins, StoreError>)
    ensures
        loaded(table, |table: ArtifactPins| pin_views(table)) == pin_table(rows@),
{
    let ghost start = Map::<Seq<u8>, Seq<PinView>>::empty();
    let ghost step = |table: Map<Seq<u8>, Seq<PinView>>, row: PinRow| pin_step(table, row);
    let mut table: ArtifactPins = ByteMap::new();
    assert(pin_views(table) =~= start);
    let mut i: usize = 0;
    while i < rows.len()
        invariant
            i <= rows@.len(),
            folded(rows@.subrange(0, i as int), start, step) == Ok::<Map<Seq<u8>, Seq<PinView>>, Fault>(
                pin_views(table),
            ),
        decreases rows@.len() - i,
    {
        proof {
            lemma_folded_step(rows@, start, step, i as int);
        }
        match take_pin(&mut table, &rows[i]) {
            Ok(()) => {},
            Err(error) => {
                proof {
                    lemma_folded_stops(rows@, start, step, i + 1);
                }
                return Err(error);
            },
        }
        i += 1;
    }
    assert(rows@.subrange(0, i as int) =~= rows@);
    Ok(table)
}

// ---------------------------------------------------------------------------------------------
// Retirement runs

/// A row of the table of retirement runs.
#[derive(Clone, Debug)]
pub struct RunRow {
    pub run_id: Vec<u8>,
    pub memory_space_id: String,
    pub status: String,
}

/// What is known of a retirement run.
#[derive(Clone, Debug)]
pub struct RetirementRunAuthority {
    pub memory_space_id: String,
    pub status: String,
}

/// The mathematical content of a [`RetirementRunAuthority`].
#[verifier::ext_equal]
pub struct RunView {
    pub memory_space_id: Seq<char>,
    pub status: Seq<char>,
}

impl View for RetirementRunAuthority {
    type V = RunView;

    open spec fn view(&self) -> RunView {
        RunView { memory_space_id: self.memory_space_id@, status: self.status@ }
    }
}

/// The retirement runs by identity.
pub type RetirementRuns = ByteMap<RetirementRunAuthority>;

/// The mathematical content of a table of runs.
pub open spec fn run_views(runs: RetirementRuns) -> Map<Seq<u8>, RunView> {
    runs@.map_values(|run: RetirementRunAuthority| run@)
}

/// Whether a run can have the given status.
pub open spec fn is_run_status(status: Seq<char>) -> bool {
    status == "applying"@ || status == "applied"@ || status == "rejected"@
}

/// The fault of a run row.
pub open spec fn run_row_fault(row: RunRow) -> Option<Fault> {
    either_fault(
        digest_fault(row.run_id@, "retirement run_id"@),
        fault_when(
            row.memory_space_id@.len() == 0 || !is_run_status(row.status@),
            integrity_fault("retirement run "@, row.run_id@, " has invalid authority"@),
        ),
    )
}

/// Takes one run row in. A later row of a run replaces an earlier one.
pub open spec fn run_step(table: Map<Seq<u8>, RunView>, row: RunRow) -> Result<
    Map<Seq<u8>, RunView>,
    Fault,
> {
    match run_row_fault(row) {
        Some(fault) => Err(fault),
        None => Ok(
            table.insert(
                row.run_id@,
                RunView { memory_space_id: row.memory_space_id@, status: row.status@ },
            ),
        ),
    }
}

fn take_run(table: &mut RetirementRuns, row: &RunRow) -> (verdict: Result<(), StoreError>)
    ensures
        match verdict {
            Ok(_) => run_step(run_views(*old(table)), *row) == Ok::<Map<Seq<u8>, RunView>, Fault>(
                run_views(*final(table)),
            ),
            Err(error) => run_step(run_views(*old(table)), *row) == Err::<Map<Seq<u8>, RunView>, Fault>(
                error@,
            ),
        },
{
    let run_id = digest_array(row.run_id.as_slice(), "retirement run_id")?;
    if row.memory_space_id.as_str().is_empty() || !(same_text(row.status.as_str(), "applying")
        || same_text(row.status.as_str(), "applied") || same_text(
        row.status.as_str(),
        "rejected",
    )) {
        return Err(integrity_about("retirement run ", &run_id, " has invalid authority"));
    }
    let run = RetirementRunAuthority {
        memory_space_id: row.memory_space_id.clone(),
        status: row.status.clone(),
    };
    let ghost view = run@;
    table.insert(copy_bytes(run_id.as_slice()), run);
    assert(run_views(*table) =~= run_views(*old(table)).insert(row.run_id@, view));
    Ok(())
}

/// The table of runs that rows give.
pub open spec fn run_table(rows: Seq<RunRow>) -> Result<Map<Seq<u8>, RunView>, Fault> {
    folded(
        rows,
        Map::<Seq<u8>, RunView>::empty(),
        |table: Map<Seq<u8>, RunView>, row: RunRow| run_step(table, row),
    )
}

/// Loads the table of retirement runs.
#[verifier::loop_isolation(false)]
pub fn load_retirement_run_authorities(rows: &Vec<RunRow>) -> (table: Result<RetirementRuns, StoreError>)
    ensures
        loaded(table, |table: RetirementRuns| run_views(table)) == run_table(rows@),
{
    let ghost start = Map::<Seq<u8>, RunView>::empty();
    let ghost step = |table: Map<Seq<u8>, RunView>, row: RunRow| run_step(table, row);
    let mut table: RetirementRuns = ByteMap::new();
    assert(run_views(table) =~= start);
    let mut i: usize = 0;
    while i < rows.len()
        invariant
            i <= rows@.len(),
            folded(rows@.subrange(0, i as int), start, step) == Ok::<Map<Seq<u8>, RunView>, Fault>(
                run_views(table),
            ),
        decreases rows@.len() - i,
    {
        proof {
            lemma_folded_step(rows@, start, step, i as int);
        }
        match take_run(&mut table, &rows[i]) {
            Ok(()) => {},
            Err(error) => {
                proof {
                    lemma_folded_stops(rows@, start, step, i + 1);
                }
                return Err(error);
            },
        }
        i += 1;
    }
    assert(rows@.subrange(0, i as int) =~= rows@);
    Ok(table)
}

// ---------------------------------------------------------------------------------------------
// Retirement decisions

/// A row of the table of retirement decisions.
#[derive(Clone, Debug)]
pub struct DecisionRow {
    pub run_id: Vec<u8>,
    pub atom_id: Vec<u8>,
    pub decision: String,
}

/// The decisions by run and atom: the key is the run followed by the atom.
pub type RetirementDecisions = ByteMap<String>;

/// The mathematical content of a table of decisions.
pub open spec fn decision_views(decisions: RetirementDecisions) -> Map<Seq<u8>, Seq<char>> {
    decisions@.map_values(|decision: String| decision@)
}

/// The fault of a decision row.
pub open spec fn decision_row_fault(row: DecisionRow) -> Option<Fault> {
    either_fault(
        digest_fault(row.run_id@, "retirement decision run_id"@),
        digest_fault(row.atom_id@, "retirement decision atom_id"@),
    )
}

/// Takes one decision row in. A later row of a run and an atom replaces an earlier one.
pub open spec fn decision_step(table: Map<Seq<u8>, Seq<char>>, row: DecisionRow) -> Result<
    Map<Seq<u8>, Seq<char>>,
    Fault,
> {
    match decision_row_fault(row) {
        Some(fault) => Err(fault),
        None => Ok(table.insert(row.run_id@ + row.atom_id@, row.decision@)),
    }
}

/// Joins two digests to one key.
pub fn pair_key(first: &[u8; 32], second: &[u8; 32]) -> (key: Vec<u8>)
    ensures
        key@ == first@ + second@,
{
    let mut key = copy_bytes(first.as_slice());
    let mut i: usize = 0;
    while i < 32
        invariant
            i <= 32,
            key@ == first@ + second@.subrange(0, i as int),
        decreases 32 - i,
    {
        key.push(second[i]);
        i += 1;
        assert(key@ =~= first@ + second@.subrange(0, i as int));
    }
    assert(key@ =~= first@ + second@);
    key
}

fn take_decision(table: &mut RetirementDecisions, row: &DecisionRow) -> (verdict: Result<(), StoreError>)
    ensures
        match verdict {
            Ok(_) => decision_step(decision_views(*old(table)), *row) == Ok::<Map<Seq<u8>, Seq<char>>, Fault>(
                decision_views(*final(table)),
            ),
            Err(error) => decision_step(decision_views(*old(table)), *row) == Err::<Map<Seq<u8>, Seq<char>>, Fault>(
                error@,
            ),
        },
{
    let run_id = digest_array(row.run_id.as_slice(), "retirement decision run_id")?;
    let atom_id = digest_array(row.atom_id.as_slice(), "retirement decision atom_id")?;
    let decision = row.decision.clone();
    let ghost view = decision@;
    table.insert(pair_key(&run_id, &atom_id), decision);
    assert(decision_views(*table) =~= decision_views(*old(table)).insert(
        row.run_id@ + row.atom_id@,
        view,
    ));
    Ok(())
}

/// The table of decisions that rows give.
pub open spec fn decision_table(rows: Seq<DecisionRow>) -> Result<Map<Seq<u8>, Seq<char>>, Fault> {
    folded(
        rows,
        Map::<Seq<u8>, Seq<char>>::empty(),
        |table: Map<Seq<u8>, Seq<char>>, row: DecisionRow| decision_step(table, row),
    )
}

/// Loads the table of retirement decisions.
#[verifier::loop_isolation(false)]
pub fn load_retirement_decision_authorities(rows: &Vec<DecisionRow>) -> (table: Result<RetirementDecisions, StoreError>)
    ensures
        loaded(table, |table: RetirementDecisions| decision_views(table)) == decision_table(rows@),
{
    let ghost start = Map::<Seq<u8>, Seq<char>>::empty();
    let ghost step = |table: Map<Seq<u8>, Seq<char>>, row: DecisionRow| decision_step(table, row);
    let mut table: RetirementDecisions = ByteMap::new();
    assert(decision_views(table) =~= start);
    let mut i: usize = 0;
    while i < rows.len()
        invariant
            i <= rows@.len(),
            folded(rows@.subrange(0, i as int), start, step) == Ok::<Map<Seq<u8>, Seq<char>>, Fault>(
                decision_views(table),
            ),
        decreases rows@.len() - i,
    {
        proof {
            lemma_folded_step(rows@, start, step, i as int);
        }
        match take_decision(&mut table, &rows[i]) {
            Ok(()) => {},
            Err(error) => {
                proof {
                    lemma_folded_stops(rows@, start, step, i + 1);
                }
                return Err(error);
            },
        }
        i += 1;
    }
    assert(rows@.subrange(0, i as int) =~= rows@);
    Ok(table)
}

// ---------------------------------------------------------------------------------------------
// Full-text rows

/// A row of the full-text index.
#[derive(Clone, Debug)]
pub struct FtsRow {
    pub atom_id: String,
    pub searchable_text: String,
}

/// What the full-text index holds for an atom: how many rows, the digest of the text of the first
/// one, and whether another row holds another text.
#[derive(Clone, Copy, Debug)]
pub struct FtsAuthority {
    pub row_count: u64,
    pub searchable_text_digest: [u8; 32],
    pub has_conflicting_text: bool,
}

/// The mathematical content of an [`FtsAuthority`].
#[verifier::ext_equal]
pub struct FtsView {
    pub row_count: u64,
    pub searchable_text_digest: Seq<u8>,
    pub has_conflicting_text: bool,
}

impl View for FtsAuthority {
    type V = FtsView;

    open spec fn view(&self) -> FtsView {
        FtsView {
            row_count: self.row_count,
            searchable_text_digest: self.searchable_text_digest@,
            has_conflicting_text: self.has_conflicting_text,
        }
    }
}

/// The full-text rows by atom.
pub type FtsRows = ByteMap<FtsAuthority>;

/// The mathematical content of a full-text table.
pub open spec fn fts_views(rows: FtsRows) -> Map<Seq<u8>, FtsView> {
    rows@.map_values(|row: FtsAuthority| row@)
}

/// The fault of a full-text row: its atom must be written in lowercase hexadecimal.
pub open spec fn fts_row_fault(row: FtsRow) -> Option<Fault> {
    if !is_hex_text(row.atom_id@) {
        Some(Fault::Integrity("FTS atom ID is not hexadecimal: "@ + hex_refusal(row.atom_id@)))
    } else {
        either_fault(
            digest_fault(hex_bytes(row.atom_id@), "FTS atom_id"@),
            fault_when(
                row.atom_id@ != hex_text(hex_bytes(row.atom_id@)),
                Fault::Integrity(
                    "FTS atom ID "@ + row.atom_id@ + " is not canonical lowercase hexadecimal"@,
                ),
            ),
        )
    }
}

/// One more row for an atom of which `known` is known.
pub open spec fn fts_counted(known: Option<FtsView>, digest: Seq<u8>) -> FtsView {
    match known {
        Some(known) => FtsView {
            row_count: if known.row_count == u64::MAX {
                u64::MAX
            } else {
                (known.row_count + 1) as u64
            },
            searchable_text_digest: known.searchable_text_digest,
            has_conflicting_text: known.has_conflicting_text || known.searchable_text_digest
                != digest,
        },
        None => FtsView {
            row_count: 1,
            searchable_text_digest: digest,
            has_conflicting_text: false,
        },
    }
}

/// Takes one full-text row in.
pub open spec fn fts_step(table: Map<Seq<u8>, FtsView>, row: FtsRow) -> Result<
    Map<Seq<u8>, FtsView>,
    Fault,
> {
    match fts_row_fault(row) {
        Some(fault) => Err(fault),
        None => {
            let key = hex_bytes(row.atom_id@);
            let known = if table.contains_key(key) {
                Some(table[key])
            } else {
                None
            };
            Ok(table.insert(key, fts_counted(known, sha256_of(utf8(row.searchable_text@)))))
        },
    }
}

fn take_fts(table: &mut FtsRows, row: &FtsRow) -> (verdict: Result<(), StoreError>)
    ensures
        match verdict {
            Ok(_) => fts_step(fts_views(*old(table)), *row) == Ok::<Map<Seq<u8>, FtsView>, Fault>(
                fts_views(*final(table)),
            ),
            Err(error) => fts_step(fts_views(*old(table)), *row) == Err::<Map<Seq<u8>, FtsView>, Fault>(
                error@,
            ),
        },
{
    let bytes = match hex_decode(row.atom_id.as_str()) {
        Ok(bytes) => bytes,
        Err(refusal) => return Err(
            StoreError::Integrity(text2("FTS atom ID is not hexadecimal: ", refusal.as_str())),
        ),
    };
    let atom_id = digest_array(bytes.as_slice(), "FTS atom_id")?;
    let canonical = digest_hex(&atom_id);
    if !same_text(row.atom_id.as_str(), canonical.as_str()) {
        return Err(
            StoreError::Integrity(
                text3(
                    "FTS atom ID ",
                    row.atom_id.as_str(),
                    " is not canonical lowercase hexadecimal",
                ),
            ),
        );
    }
    let digest = sha256(row.searchable_text.as_str().as_bytes());
    let known: FtsAuthority = match table.get(atom_id.as_slice()) {
        Some(known) => FtsAuthority {
            row_count: known.row_count.saturating_add(1),
            searchable_text_digest: known.searchable_text_digest,
            has_conflicting_text: known.has_conflicting_text || !same_digest(
                &known.searchable_text_digest,
                &digest,
            ),
        },
        None => FtsAuthority {
            row_count: 1,
            searchable_text_digest: digest,
            has_conflicting_text: false,
        },
    };
    let ghost view = known@;
    table.insert(copy_bytes(atom_id.as_slice()), known);
    assert(fts_views(*table) =~= fts_views(*old(table)).insert(hex_bytes(row.atom_id@), view));
    Ok(())
}

/// The full-text table that rows give.
pub open spec fn fts_table(rows: Seq<FtsRow>) -> Result<Map<Seq<u8>, FtsView>, Fault> {
    folded(
        rows,
        Map::<Seq<u8>, FtsView>::empty(),
        |table: Map<Seq<u8>, FtsView>, row: FtsRow| fts_step(table, row),
    )
}

/// Loads the full-text rows.
#[verifier::loop_isolation(false)]
pub fn load_fts_authorities(rows: &Vec<FtsRow>) -> (table: Result<FtsRows, StoreError>)
    ensures
        loaded(table, |table: FtsRows| fts_views(table)) == fts_table(rows@),
{
    let ghost start = Map::<Seq<u8>, FtsView>::empty();
    let ghost step = |table: Map<Seq<u8>, FtsView>, row: FtsRow| fts_step(table, row);
    let mut table: FtsRows = ByteMap::new();
    assert(fts_views(table) =~= start);
    let mut i: usize = 0;
    while i < rows.len()
        invariant
            i <= rows@.len(),
            folded(rows@.subrange(0, i as int), start, step) == Ok::<Map<Seq<u8>, FtsView>, Fault>(
                fts_views(table),
            ),
        decreases rows@.len() - i,
    {
        proof {
            lemma_folded_step(rows@, start, step, i as int);
        }
        match take_fts(&mut table, &rows[i]) {
            Ok(()) => {},
            Err(error) => {
                proof {
                    lemma_folded_stops(rows@, start, step, i + 1);
                }
                return Err(error);
            },
        }
        i += 1;
    }
    assert(rows@.subrange(0, i as int) =~= rows@);
    Ok(table)
}

/// Links are grouped by their atoms: one more is taken where it names an atom, an artifact and a
/// role and its permission is a truth value, and then stands behind the other links of its atom
/// with no other group changed.
pub proof fn law_links_are_grouped_exactly(
    rows: Seq<LinkRow>,
    row: LinkRow,
    source: LinkTable,
    other: Seq<u8>,
)
    ensures
        link_table(Seq::<LinkRow>::empty(), source) == Ok::<_, Fault>(
            Map::<Seq<u8>, Seq<LinkView>>::empty(),
        ),
        link_table(rows.push(row), source) is Ok <==> {
            &&& link_table(rows, source) is Ok
            &&& row.atom_id@.len() == 32
            &&& row.artifact_digest@.len() == 32
            &&& row.role@.len() > 0
            &&& row.retention_allowed == 0 || row.retention_allowed == 1
        },
        link_table(rows.push(row), source) matches Ok(after) ==> {
            let before = group_of(link_table(rows, source)->Ok_0, row.atom_id@);
            let now = group_of(after, row.atom_id@);
            &&& now.len() == before.len() + 1
            &&& now.drop_last() == before
            &&& now.last().digest == row.artifact_digest@
            &&& now.last().role == row.role@
            &&& now.last().retention_allowed == (row.retention_allowed != 0)
            &&& other != row.atom_id@ ==> group_of(after, other) == group_of(
                link_table(rows, source)->Ok_0,
                other,
            )
        },
{
    let step = |table: Map<Seq<u8>, Seq<LinkView>>, row: LinkRow| link_step(table, row, source);
    crate::folding::lemma_folded_push(rows, row, Map::<Seq<u8>, Seq<LinkView>>::empty(), step);
    if let Ok(after) = link_table(rows.push(row), source) {
        assert(group_of(after, row.atom_id@).drop_last() =~= group_of(
            link_table(rows, source)->Ok_0,
            row.atom_id@,
        ));
    }
}

/// Relations are grouped by their sources: one more is taken where it is of a known kind between two
/// different stored atoms of one memory space.
pub proof fn law_relations_are_grouped_exactly(
    rows: Seq<RelationRow>,
    row: RelationRow,
    headers: Headers,
    other: Seq<u8>,
)
    ensures
        relation_table(Seq::<RelationRow>::empty(), headers) == Ok::<_, Fault>(
            Map::<Seq<u8>, Seq<RelationView>>::empty(),
        ),
        relation_table(rows.push(row), headers) is Ok <==> {
            let known = header_views(headers);
            &&& relation_table(rows, headers) is Ok
            &&& row.source_atom_id@.len() == 32
            &&& row.target_atom_id@.len() == 32
            &&& row.relation_digest@.len() == 32
            &&& row.source_atom_id@ != row.target_atom_id@
            &&& names_relation(row.relation_kind@)
            &&& known.contains_key(row.source_atom_id@)
            &&& known.contains_key(row.target_atom_id@)
            &&& known[row.source_atom_id@].memory_space_id
                == known[row.target_atom_id@].memory_space_id
        },
        relation_table(rows.push(row), headers) matches Ok(after) ==> {
            let before = group_of(relation_table(rows, headers)->Ok_0, row.source_atom_id@);
            let now = group_of(after, row.source_atom_id@);
            &&& now.len() == before.len() + 1
            &&& now.drop_last() == before
            &&& now.last().target_atom_id == row.target_atom_id@
            &&& now.last().relation_kind == row.relation_kind@
            &&& now.last().relation_digest == row.relation_digest@
            &&& other != row.source_atom_id@ ==> group_of(after, other) == group_of(
                relation_table(rows, headers)->Ok_0,
                other,
            )
        },
{
    let step = |table: Map<Seq<u8>, Seq<RelationView>>, row: RelationRow|
        relation_step(table, row, headers);
    crate::folding::lemma_folded_push(rows, row, Map::<Seq<u8>, Seq<RelationView>>::empty(), step);
    if let Ok(after) = relation_table(rows.push(row), headers) {
        assert(group_of(after, row.source_atom_id@).drop_last() =~= group_of(
            relation_table(rows, headers)->Ok_0,
            row.source_atom_id@,
        ));
    }
}

/// Pins are grouped by their atoms: one more is taken where it names an atom, an artifact and a run.
pub proof fn law_pins_are_grouped_exactly(rows: Seq<PinRow>, row: PinRow, other: Seq<u8>)
    ensures
        pin_table(Seq::<PinRow>::empty()) == Ok::<_, Fault>(
            Map::<Seq<u8>, Seq<PinView>>::empty(),
        ),
        pin_table(rows.push(row)) is Ok <==> {
            &&& pin_table(rows) is Ok
            &&& row.atom_id@.len() == 32
            &&& row.artifact_digest@.len() == 32
            &&& row.run_id@.len() == 32
        },
        pin_table(rows.push(row)) matches Ok(after) ==> {
            let before = group_of(pin_table(rows)->Ok_0, row.atom_id@);
            let now = group_of(after, row.atom_id@);
            &&& now.len() == before.len() + 1
            &&& now.drop_last() == before
            &&& now.last().digest == row.artifact_digest@
            &&& now.last().run_id == row.run_id@
            &&& other != row.atom_id@ ==> group_of(after, other) == group_of(
                pin_table(rows)->Ok_0,
                other,
            )
        },
{
    let step = |table: Map<Seq<u8>, Seq<PinView>>, row: PinRow| pin_step(table, row);
    crate::folding::lemma_folded_push(rows, row, Map::<Seq<u8>, Seq<PinView>>::empty(), step);
    if let Ok(after) = pin_table(rows.push(row)) {
        assert(group_of(after, row.atom_id@).drop_last() =~= group_of(
            pin_table(rows)->Ok_0,
            row.atom_id@,
        ));
    }
}

/// Runs are indexed exactly: one more is taken where it is of a memory space and is applying,
/// applied or rejected, and then stands under its identity.
pub proof fn law_runs_are_indexed_exactly(rows: Seq<RunRow>, row: RunRow, other: Seq<u8>)
    ensures
        run_table(Seq::<RunRow>::empty()) == Ok::<_, Fault>(Map::<Seq<u8>, RunView>::empty()),
        run_table(rows.push(row)) is Ok <==> {
            &&& run_table(rows) is Ok
            &&& row.run_id@.len() == 32
            &&& row.memory_space_id@.len() > 0
            &&& row.status@ == "applying"@ || row.status@ == "applied"@ || row.status@
                == "rejected"@
        },
        run_table(rows.push(row)) matches Ok(after) ==> {
            let before = run_table(rows)->Ok_0;
            &&& after.contains_key(row.run_id@)
            &&& after[row.run_id@].memory_space_id == row.memory_space_id@
            &&& after[row.run_id@].status == row.status@
            &&& other != row.run_id@ ==> (after.contains_key(other) <==> before.contains_key(other))
                && (before.contains_key(other) ==> after[other] == before[other])
        },
{
    let step = |table: Map<Seq<u8>, RunView>, row: RunRow| run_step(table, row);
    crate::folding::lemma_folded_push(rows, row, Map::<Seq<u8>, RunView>::empty(), step);
}

/// Decisions are indexed by run and atom: one more is taken where it names both, and then is what
/// that run decided of that atom.
pub proof fn law_decisions_are_indexed_by_run_and_atom(
    rows: Seq<DecisionRow>,
    row: DecisionRow,
    run_id: Seq<u8>,
    atom_id: Seq<u8>,
)
    requires
        run_id.len() == 32,
        atom_id.len() == 32,
    ensures
        decision_table(Seq::<DecisionRow>::empty()) == Ok::<_, Fault>(
            Map::<Seq<u8>, Seq<char>>::empty(),
        ),
        decision_table(rows.push(row)) is Ok <==> decision_table(rows) is Ok && row.run_id@.len()
            == 32 && row.atom_id@.len() == 32,
        decision_table(rows.push(row)) matches Ok(after) ==> {
            let before = decision_table(rows)->Ok_0;
            let key = run_id + atom_id;
            if run_id == row.run_id@ && atom_id == row.atom_id@ {
                after.contains_key(key) && after[key] == row.decision@
            } else {
                &&& after.contains_key(key) <==> before.contains_key(key)
                &&& before.contains_key(key) ==> after[key] == before[key]
            }
        },
{
    let step = |table: Map<Seq<u8>, Seq<char>>, row: DecisionRow| decision_step(table, row);
    crate::folding::lemma_folded_push(rows, row, Map::<Seq<u8>, Seq<char>>::empty(), step);
    if row.run_id@.len() == 32 && row.atom_id@.len() == 32 && run_id + atom_id == row.run_id@
        + row.atom_id@ {
        crate::framing::lemma_split(run_id, atom_id, row.run_id@, row.atom_id@);
    }
}

/// Full-text rows are counted exactly: one more is taken where its name is the lowercase hexadecimal
/// name of an atom; it is one more row of that atom, and a text that is not the first one of the
/// atom is noticed for good.
pub proof fn law_full_text_rows_are_counted_exactly(rows: Seq<FtsRow>, row: FtsRow)
    ensures
        fts_table(Seq::<FtsRow>::empty()) == Ok::<_, Fault>(Map::<Seq<u8>, FtsView>::empty()),
        fts_table(rows.push(row)) is Ok <==> {
            &&& fts_table(rows) is Ok
            &&& is_hex_text(row.atom_id@)
            &&& row.atom_id@.len() == 64
            &&& row.atom_id@ == hex_text(hex_bytes(row.atom_id@))
        },
        fts_table(rows.push(row)) matches Ok(after) ==> {
            let before = fts_table(rows)->Ok_0;
            let atom_id = hex_bytes(row.atom_id@);
            let digest = sha256_of(utf8(row.searchable_text@));
            &&& after.contains_key(atom_id)
            &&& after.remove(atom_id) == before.remove(atom_id)
            &&& !before.contains_key(atom_id) ==> {
                &&& after[atom_id].row_count == 1
                &&& after[atom_id].searchable_text_digest == digest
                &&& !after[atom_id].has_conflicting_text
            }
            &&& before.contains_key(atom_id) ==> {
                &&& before[atom_id].row_count < u64::MAX ==> after[atom_id].row_count
                    == before[atom_id].row_count + 1
                &&& after[atom_id].row_count >= before[atom_id].row_count
                &&& after[atom_id].searchable_text_digest == before[atom_id].searchable_text_digest
                &&& after[atom_id].has_conflicting_text <==> before[atom_id].has_conflicting_text
                    || before[atom_id].searchable_text_digest != digest
            }
        },
{
    let step = |table: Map<Seq<u8>, FtsView>, row: FtsRow| fts_step(table, row);
    crate::folding::lemma_folded_push(rows, row, Map::<Seq<u8>, FtsView>::empty(), step);
    if let Ok(after) = fts_table(rows.push(row)) {
        let atom_id = hex_bytes(row.atom_id@);
        assert(after.remove(atom_id) =~= fts_table(rows)->Ok_0.remove(atom_id));
    }
}

} // verus!
