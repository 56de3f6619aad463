//! Comparing what an atom declares with what the tables hold for it.

use vstd::prelude::*;
use vstd::string::*;

use crate::bags::byte_strings;
use crate::bytemap::ByteSet;
use crate::digest::{sha256, sha256_of};
use crate::edges::{
    ArtifactLinkAuthority, LinkView, PinAuthority, PinView, RelationAuthority, RelationView,
    link_list, pair_key, pin_list, relation_list,
};
use crate::error::{Fault, StoreError, fault_of, fault_when, integrity};
use crate::framing::{lemma_split, lemma_utf8_determines, utf8};
use crate::model::{
    ArtifactDeclaration, RelationDeclaration, RetentionTier, relation_kind_text, relation_name,
};
use crate::stored::optional_digest;
use crate::text::{append_bytes, copy_bytes};

verus! {

/// One byte for a flag.
pub open spec fn flag_byte(flag: bool) -> u8 {
    if flag {
        1
    } else {
        0
    }
}

/// The key of a link: artifact, permission and role.
pub open spec fn link_key(link: LinkView) -> Seq<u8> {
    link.digest + seq![flag_byte(link.retention_allowed)] + utf8(link.role)
}

/// The keys of a list of links.
pub open spec fn link_keys(links: Seq<LinkView>) -> Seq<Seq<u8>> {
    links.map_values(|link: LinkView| link_key(link))
}

/// The key of a relation: target, digest and kind.
pub open spec fn relation_key(relation: RelationView) -> Seq<u8> {
    relation.target_atom_id + relation.relation_digest + utf8(relation.relation_kind)
}

/// The keys of a list of relations.
pub open spec fn relation_keys(relations: Seq<RelationView>) -> Seq<Seq<u8>> {
    relations.map_values(|relation: RelationView| relation_key(relation))
}

/// The key of a pin: artifact and run.
pub open spec fn pin_key(pin: PinView) -> Seq<u8> {
    pin.digest + pin.run_id
}

/// Links with the same key are the same link.
pub proof fn law_link_key_determines_link(a: LinkView, b: LinkView)
    requires
        a.digest.len() == 32,
        b.digest.len() == 32,
        link_key(a) == link_key(b),
    ensures
        a == b,
{
    let left = seq![flag_byte(a.retention_allowed)] + utf8(a.role);
    let right = seq![flag_byte(b.retention_allowed)] + utf8(b.role);
    assert(link_key(a) =~= a.digest + left);
    assert(link_key(b) =~= b.digest + right);
    lemma_split(a.digest, left, b.digest, right);
    assert(left[0] == flag_byte(a.retention_allowed));
    assert(right[0] == flag_byte(b.retention_allowed));
    lemma_split(
        seq![flag_byte(a.retention_allowed)],
        utf8(a.role),
        seq![flag_byte(b.retention_allowed)],
        utf8(b.role),
    );
    lemma_utf8_determines(a.role, b.role);
}

/// Relations with the same key are the same relation.
pub proof fn law_relation_key_determines_relation(a: RelationView, b: RelationView)
    requires
        a.target_atom_id.len() == 32,
        b.target_atom_id.len() == 32,
        a.relation_digest.len() == 32,
        b.relation_digest.len() == 32,
        relation_key(a) == relation_key(b),
    ensures
        a == b,
{
    let left = a.target_atom_id + a.relation_digest;
    let right = b.target_atom_id + b.relation_digest;
    lemma_split(left, utf8(a.relation_kind), right, utf8(b.relation_kind));
    lemma_split(a.target_atom_id, a.relation_digest, b.target_atom_id, b.relation_digest);
    lemma_utf8_determines(a.relation_kind, b.relation_kind);
}

/// Writes the key of a link.
pub fn link_key_bytes(digest: &[u8; 32], role: &str, retention_allowed: bool) -> (key: Vec<u8>)
    ensures
        key@ == link_key((LinkView { digest: digest@, role: role@, retention_allowed })),
{
    let mut key = copy_bytes(digest.as_slice());
    if retention_allowed {
        key.push(1u8);
    } else {
        key.push(0u8);
    }
    assert(key@ =~= digest@ + seq![flag_byte(retention_allowed)]);
    append_bytes(&mut key, role.as_bytes());
    key
}

/// Writes the key of a relation.
pub fn relation_key_bytes(target: &[u8; 32], digest: &[u8; 32], kind: &str) -> (key: Vec<u8>)
    ensures
        key@ == relation_key(
            (RelationView {
                target_atom_id: target@,
                relation_kind: kind@,
                relation_digest: digest@,
            }),
        ),
{
    let mut key = pair_key(target, digest);
    append_bytes(&mut key, kind.as_bytes());
    key
}

/// The link that an artifact declaration stands for.
pub open spec fn declared_link(artifact: ArtifactDeclaration) -> LinkView {
    LinkView {
        digest: artifact.digest@,
        role: artifact.media_type@,
        retention_allowed: artifact.retention_allowed,
    }
}

/// The links that artifact declarations stand for.
pub open spec fn declared_links(artifacts: Seq<ArtifactDeclaration>) -> Seq<LinkView> {
    artifacts.map_values(|artifact: ArtifactDeclaration| declared_link(artifact))
}

/// The links of a list that an atom keeps: all of them, or only those with permission to be kept.
pub open spec fn kept_links(links: Seq<LinkView>, permitted_only: bool) -> Seq<LinkView>
    decreases links.len(),
{
    if links.len() == 0 {
        Seq::empty()
    } else {
        let earlier = kept_links(links.drop_last(), permitted_only);
        if !permitted_only || links.last().retention_allowed {
            earlier.push(links.last())
        } else {
            earlier
        }
    }
}

/// An atom that keeps every link keeps the whole list.
pub proof fn lemma_all_links_kept(links: Seq<LinkView>)
    ensures
        kept_links(links, false) == links,
    decreases links.len(),
{
    if links.len() > 0 {
        lemma_all_links_kept(links.drop_last());
        assert(links =~= links.drop_last().push(links.last()));
    } else {
        assert(kept_links(links, false) =~= links);
    }
}

/// Lists the keys of the links that a declaration list stands for, all of them or only those with
/// permission to be kept.
pub fn declared_link_keys(artifacts: &Vec<ArtifactDeclaration>, permitted_only: bool) -> (keys: Vec<
    Vec<u8>,
>)
    ensures
        byte_strings(keys@) == link_keys(
            kept_links(declared_links(artifacts@), permitted_only),
        ),
{
    let ghost all = declared_links(artifacts@);
    let mut keys: Vec<Vec<u8>> = Vec::new();
    let mut i: usize = 0;
    assert(byte_strings(keys@) =~= link_keys(kept_links(all.subrange(0, 0), permitted_only)));
    while i < artifacts.len()
        invariant
            all == declared_links(artifacts@),
            i <= artifacts@.len(),
            byte_strings(keys@) == link_keys(kept_links(all.subrange(0, i as int), permitted_only)),
        decreases artifacts@.len() - i,
    {
        let ghost before = keys@;
        proof {
            let longer = all.subrange(0, i + 1);
            assert(longer.drop_last() =~= all.subrange(0, i as int));
            assert(longer.last() == declared_link(artifacts@[i as int]));
        }
        if !permitted_only || artifacts[i].retention_allowed {
            let key = link_key_bytes(
                &artifacts[i].digest,
                artifacts[i].media_type.as_str(),
                artifacts[i].retention_allowed,
            );
            keys.push(key);
            proof {
                let kept = kept_links(all.subrange(0, i as int), permitted_only);
                assert(byte_strings(keys@) =~= byte_strings(before).push(key@));
                assert(link_keys(kept.push(declared_link(artifacts@[i as int]))) =~= link_keys(
                    kept,
                ).push(key@));
            }
        }
        i += 1;
    }
    assert(all.subrange(0, i as int) =~= all);
    keys
}

/// Lists the keys of stored links.
pub fn stored_link_keys(links: &[ArtifactLinkAuthority]) -> (keys: Vec<Vec<u8>>)
    ensures
        byte_strings(keys@) == link_keys(link_list(links@)),
{
    let mut keys: Vec<Vec<u8>> = Vec::new();
    let mut i: usize = 0;
    while i < links.len()
        invariant
            i <= links@.len(),
            keys@.len() == i,
            forall|k: int| 0 <= k < i ==> (#[trigger] keys@[k])@ == link_key(links@[k]@),
        decreases links@.len() - i,
    {
        keys.push(
            link_key_bytes(&links[i].digest.0, links[i].role.as_str(), links[i].retention_allowed),
        );
        i += 1;
    }
    assert(byte_strings(keys@) =~= link_keys(link_list(links@)));
    keys
}

/// The relation that a relation declaration stands for.
pub open spec fn declared_relation(relation: RelationDeclaration) -> RelationView {
    RelationView {
        target_atom_id: relation.target@,
        relation_kind: relation_name(relation.kind),
        relation_digest: sha256_of(relation.canonical@),
    }
}

/// The relations that relation declarations stand for.
pub open spec fn declared_relations(relations: Seq<RelationDeclaration>) -> Seq<RelationView> {
    relations.map_values(|relation: RelationDeclaration| declared_relation(relation))
}

/// Lists the keys of declared relations.
pub fn declared_relation_keys(relations: &Vec<RelationDeclaration>) -> (keys: Vec<Vec<u8>>)
    ensures
        byte_strings(keys@) == relation_keys(declared_relations(relations@)),
{
    let mut keys: Vec<Vec<u8>> = Vec::new();
    let mut i: usize = 0;
    while i < relations.len()
        invariant
            i <= relations@.len(),
            keys@.len() == i,
            forall|k: int|
                0 <= k < i ==> (#[trigger] keys@[k])@ == relation_key(
                    declared_relation(relations@[k]),
                ),
        decreases relations@.len() - i,
    {
        let digest = sha256(relations[i].canonical.as_slice());
        keys.push(
            relation_key_bytes(
                &relations[i].target,
                &digest,
                relation_kind_text(relations[i].kind),
            ),
        );
        i += 1;
    }
    assert(byte_strings(keys@) =~= relation_keys(declared_relations(relations@)));
    keys
}

/// Lists the keys of stored relations.
pub fn stored_relation_keys(relations: &[RelationAuthority]) -> (keys: Vec<Vec<u8>>)
    ensures
        byte_strings(keys@) == relation_keys(relation_list(relations@)),
{
    let mut keys: Vec<Vec<u8>> = Vec::new();
    let mut i: usize = 0;
    while i < relations.len()
        invariant
            i <= relations@.len(),
            keys@.len() == i,
            forall|k: int|
                0 <= k < i ==> (#[trigger] keys@[k])@ == relation_key(relations@[k]@),
        decreases relations@.len() - i,
    {
        keys.push(
            relation_key_bytes(
                &relations[i].target_atom_id,
                &relations[i].relation_digest,
                relations[i].relation_kind.as_str(),
            ),
        );
        i += 1;
    }
    assert(byte_strings(keys@) =~= relation_keys(relation_list(relations@)));
    keys
}

/// Whether an atom of the tier is kept exactly.
pub open spec fn is_exact_tier(tier: RetentionTier) -> bool {
    tier == RetentionTier::EpisodicLongTerm || tier == RetentionTier::DualLongTerm
}

/// The pin keys that an exactly kept atom has: one for each artifact with permission to be kept.
pub open spec fn retained_pins(artifacts: Seq<ArtifactDeclaration>, run_id: Seq<u8>) -> Set<
    Seq<u8>,
> {
    Set::new(
        |key: Seq<u8>|
            exists|i: int|
                0 <= i < artifacts.len() && (#[trigger] artifacts[i]).retention_allowed && key
                    == artifacts[i].digest@ + run_id,
    )
}

/// The pin keys that an atom has in a tier.
pub open spec fn expected_pins(
    artifacts: Seq<ArtifactDeclaration>,
    tier: RetentionTier,
    run_id: Option<Seq<u8>>,
) -> Set<Seq<u8>> {
    if is_exact_tier(tier) {
        retained_pins(artifacts, run_id->0)
    } else {
        Set::empty()
    }
}

/// The fault of an exactly kept atom without a run.
pub open spec fn expected_pins_fault(tier: RetentionTier, run_id: Option<Seq<u8>>) -> Option<Fault> {
    fault_when(
        is_exact_tier(tier) && run_id is None,
        Fault::Integrity("episodic LTM atom is missing retirement run authority"@),
    )
}

/// The pin keys that an atom should have.
pub fn expected_artifact_pins(
    artifacts: &Vec<ArtifactDeclaration>,
    tier: RetentionTier,
    run_id: &Option<[u8; 32]>,
) -> (pins: Result<ByteSet, StoreError>)
    ensures
        fault_of(pins) == expected_pins_fault(tier, optional_digest(*run_id)),
        pins matches Ok(pins) ==> pins@ == expected_pins(
            artifacts@,
            tier,
            optional_digest(*run_id),
        ),
{
    let mut pins = ByteSet::new();
    if tier != RetentionTier::EpisodicLongTerm && tier != RetentionTier::DualLongTerm {
        return Ok(pins);
    }
    let run_id = match run_id {
        Some(run_id) => run_id,
        None => return Err(integrity("episodic LTM atom is missing retirement run authority")),
    };
    let mut i: usize = 0;
    while i < artifacts.len()
        invariant
            i <= artifacts@.len(),
            forall|key: Seq<u8>|
                pins@.contains(key) <==> exists|k: int|
                    0 <= k < i && (#[trigger] artifacts@[k]).retention_allowed && key
                        == artifacts@[k].digest@ + run_id@,
        decreases artifacts@.len() - i,
    {
        let ghost before = pins@;
        if artifacts[i].retention_allowed {
            pins.insert(pair_key(&artifacts[i].digest, run_id).as_slice());
        }
        assert forall|key: Seq<u8>|
            pins@.contains(key) <==> exists|k: int|
                0 <= k < i + 1 && (#[trigger] artifacts@[k]).retention_allowed && key
                    == artifacts@[k].digest@ + run_id@ by {
            if before.contains(key) {
                let k = choose|k: int|
                    0 <= k < i && (#[trigger] artifacts@[k]).retention_allowed && key
                        == artifacts@[k].digest@ + run_id@;
                assert(artifacts@[k].retention_allowed);
            }
            if artifacts@[i as int].retention_allowed && key == artifacts@[i as int].digest@
                + run_id@ {
                assert(0 <= i < i + 1);
            }
        }
        i += 1;
    }
    assert(pins@ =~= retained_pins(artifacts@, run_id@));
    Ok(pins)
}

/// The keys of a list of pins.
pub open spec fn pin_keys(pins: Seq<PinView>) -> Seq<Seq<u8>> {
    pins.map_values(|pin: PinView| pin_key(pin))
}

/// Whether a list of pins holds exactly the expected ones, each once.
pub open spec fn pins_closed(pins: Seq<PinView>, expected: Set<Seq<u8>>) -> bool {
    pin_keys(pins).no_duplicates() && pin_keys(pins).to_set() == expected
}

/// Whether a list of pins holds exactly the expected ones, each once.
pub fn pins_are_closed(pins: &[PinAuthority], expected: &ByteSet) -> (closed: bool)
    ensures
        closed == pins_closed(pin_list(pins@), expected@),
{
    let ghost keys = pin_keys(pin_list(pins@));
    let mut seen = ByteSet::new();
    let mut i: usize = 0;
    while i < pins.len()
        invariant
            keys == pin_keys(pin_list(pins@)),
            i <= pins@.len(),
            forall|m: int, n: int| 0 <= m < n < i ==> keys[m] != keys[n],
            forall|m: int| 0 <= m < i ==> expected@.contains(#[trigger] keys[m]),
            forall|key: Seq<u8>|
                seen@.contains(key) <==> exists|m: int| 0 <= m < i && #[trigger] keys[m] == key,
        decreases pins@.len() - i,
    {
        let key = pair_key(&pins[i].digest.0, &pins[i].run_id);
        assert(key@ == keys[i as int]);
        let ghost before = seen@;
        if !seen.insert(key.as_slice()) {
            proof {
                let m = choose|m: int| 0 <= m < i && #[trigger] keys[m] == key@;
                assert(keys[m] == keys[i as int]);
            }
            return false;
        }
        if !expected.contains(key.as_slice()) {
            assert(keys.to_set().contains(keys[i as int])) by {
                assert(keys.contains(keys[i as int]));
            }
            return false;
        }
        assert forall|m: int, n: int| 0 <= m < n < i + 1 implies keys[m] != keys[n] by {
            if n == i && keys[m] == keys[n] {
                assert(before.contains(key@));
            }
        }
        assert forall|other: Seq<u8>|
            seen@.contains(other) <==> exists|m: int|
                0 <= m < i + 1 && #[trigger] keys[m] == other by {
            if before.contains(other) {
                let m = choose|m: int| 0 <= m < i && #[trigger] keys[m] == other;
                assert(keys[m] == other);
            }
            if other == key@ {
                assert(keys[i as int] == other);
            }
        }
        i += 1;
    }
    assert(keys.no_duplicates());
    let count: usize = expected.len();
    let mut j: usize = 0;
    while j < count
        invariant
            keys == pin_keys(pin_list(pins@)),
            j <= count == expected.ordered().len(),
            forall|key: Seq<u8>| seen@.contains(key) <==> keys.contains(key),
            forall|m: int| 0 <= m < j ==> keys.contains(#[trigger] expected.ordered()[m]),
        decreases count - j,
    {
        let member = expected.member_at(j);
        if !seen.contains(member.as_slice()) {
            assert(expected@.contains(member@) && !keys.to_set().contains(member@));
            return false;
        }
        j += 1;
    }
    assert(keys.to_set() =~= expected@) by {
        assert forall|key: Seq<u8>| keys.to_set().contains(key) <==> expected@.contains(key) by {
            if expected@.contains(key) {
                assert(expected.ordered().contains(key));
                let m = expected.ordered().index_of(key);
                assert(keys.contains(expected.ordered()[m]));
            }
            if keys.contains(key) {
                let m = keys.index_of(key);
                assert(expected@.contains(keys[m]));
            }
        }
    }
    true
}

/// Where only permitted links are kept, those are exactly the links whose artifact may be retained;
/// where all are kept, all are, in their order.
pub proof fn law_kept_links_are_the_permitted_ones(links: Seq<LinkView>, link: LinkView)
    ensures
        kept_links(links, false) == links,
        kept_links(links, true).contains(link) <==> links.contains(link) && link.retention_allowed,
        kept_links(links, true).len() <= links.len(),
    decreases links.len(),
{
    if links.len() > 0 {
        let shorter = links.drop_last();
        let last = links.last();
        law_kept_links_are_the_permitted_ones(shorter, link);
        assert(links =~= shorter.push(last));
        let earlier = kept_links(shorter, true);
        let kept = kept_links(links, true);
        assert(links.contains(link) <==> shorter.contains(link) || link == last) by {
            if shorter.contains(link) {
                assert(links[shorter.index_of(link)] == link);
            }
            if link == last {
                assert(links[links.len() - 1] == link);
            }
            if links.contains(link) {
                let i = links.index_of(link);
                if i < shorter.len() {
                    assert(shorter[i] == link);
                }
            }
        }
        if last.retention_allowed {
            assert(kept == earlier.push(last));
            assert(kept.contains(link) <==> earlier.contains(link) || link == last) by {
                if earlier.contains(link) {
                    assert(kept[earlier.index_of(link)] == link);
                }
                if link == last {
                    assert(kept[kept.len() - 1] == link);
                }
                if kept.contains(link) {
                    let i = kept.index_of(link);
                    if i < earlier.len() {
                        assert(earlier[i] == link);
                    }
                }
            }
        }
    } else {
        assert(kept_links(links, false) =~= links);
    }
}

/// An atom declares its artifacts as links: each under its digest, its media type as the role, with
/// its permission; and its relations with the digest of what they say.
pub proof fn law_declarations_are_linked_one_by_one(
    artifacts: Seq<ArtifactDeclaration>,
    relations: Seq<RelationDeclaration>,
    i: int,
)
    ensures
        declared_links(artifacts).len() == artifacts.len(),
        0 <= i < artifacts.len() ==> {
            let link = declared_links(artifacts)[i];
            &&& link.digest == artifacts[i].digest@
            &&& link.role == artifacts[i].media_type@
            &&& link.retention_allowed == artifacts[i].retention_allowed
        },
        declared_relations(relations).len() == relations.len(),
        0 <= i < relations.len() ==> {
            let relation = declared_relations(relations)[i];
            &&& relation.target_atom_id == relations[i].target@
            &&& relation.relation_kind == relation_name(relations[i].kind)
            &&& relation.relation_digest == sha256_of(relations[i].canonical@)
        },
{
}

/// An atom has pins exactly where it is kept exactly, that is, episodically or both ways; then it
/// has one for every artifact that may be retained, of the run that kept it.
pub proof fn law_exactly_kept_atom_is_pinned(
    artifacts: Seq<ArtifactDeclaration>,
    tier: RetentionTier,
    run_id: Option<Seq<u8>>,
    digest: Seq<u8>,
    pinned_by: Seq<u8>,
)
    requires
        digest.len() == 32,
        pinned_by.len() == 32,
    ensures
        expected_pins_fault(tier, run_id) is None <==> (tier is EpisodicLongTerm
            || tier is DualLongTerm ==> run_id is Some),
        expected_pins_fault(tier, run_id) is None ==> (expected_pins(
            artifacts,
            tier,
            run_id,
        ).contains(digest + pinned_by) <==> {
            &&& tier is EpisodicLongTerm || tier is DualLongTerm
            &&& run_id == Some(pinned_by)
            &&& exists|i: int|
                0 <= i < artifacts.len() && (#[trigger] artifacts[i]).digest@ == digest
                    && artifacts[i].retention_allowed
        }),
{
    if tier is EpisodicLongTerm || tier is DualLongTerm {
        if let Some(run) = run_id {
            assert forall|i: int| 0 <= i < artifacts.len() && digest + pinned_by == (
            #[trigger] artifacts[i]).digest@ + run implies digest == artifacts[i].digest@
                && pinned_by == run by {
                lemma_split(digest, pinned_by, artifacts[i].digest@, run);
            }
        }
    }
}

/// The pins of an atom close exactly where none is there twice and they are the expected ones.
pub proof fn law_pins_close_exactly(pins: Seq<PinView>, expected: Set<Seq<u8>>, key: Seq<u8>)
    requires
        pins_closed(pins, expected),
    ensures
        expected.contains(key) <==> exists|i: int|
            0 <= i < pins.len() && key == (#[trigger] pins[i]).digest + pins[i].run_id,
        forall|i: int, j: int|
            0 <= i < j < pins.len() ==> (#[trigger] pins[i]).digest != (
            #[trigger] pins[j]).digest || pins[i].run_id != pins[j].run_id,
{
    let keys = pin_keys(pins);
    assert(keys.len() == pins.len());
    assert forall|i: int| 0 <= i < pins.len() implies #[trigger] keys[i] == pins[i].digest
        + pins[i].run_id by {}
    assert forall|i: int, j: int| 0 <= i < j < pins.len() implies (#[trigger] pins[i]).digest != (
    #[trigger] pins[j]).digest || pins[i].run_id != pins[j].run_id by {
        assert(keys[i] != keys[j]);
    }
    if expected.contains(key) {
        assert(keys.to_set().contains(key));
        let i = keys.index_of(key);
        assert(pins[i].digest + pins[i].run_id == key);
    }
    if exists|i: int| 0 <= i < pins.len() && key == (#[trigger] pins[i]).digest + pins[i].run_id {
        let i = choose|i: int|
            0 <= i < pins.len() && key == (#[trigger] pins[i]).digest + pins[i].run_id;
        assert(keys[i] == key);
        assert(keys.to_set().contains(key));
    }
}

} // verus!
