//! Lists of digests by atom.

use vstd::prelude::*;

use crate::bytemap::ByteMap;
use crate::records::copy_digests;
use crate::stored::{digest_seq, same_digests};
use crate::text::copy_bytes;

verus! {

/// Lists of digests by atom.
pub type DigestGroups = ByteMap<Vec<[u8; 32]>>;

/// The mathematical content of lists of digests by atom.
pub open spec fn group_views(groups: DigestGroups) -> Map<Seq<u8>, Seq<Seq<u8>>> {
    groups@.map_values(|digests: Vec<[u8; 32]>| digest_seq(digests@))
}

/// Whether two tables hold the same lists for the same atoms.
#[verifier::loop_isolation(false)]
pub fn same_groups(a: &DigestGroups, b: &DigestGroups) -> (same: bool)
    ensures
        same == (group_views(*a) == group_views(*b)),
{
    let ghost left = group_views(*a);
    let ghost right = group_views(*b);
    let left_count: usize = a.len();
    let right_count: usize = b.len();
    let mut i: usize = 0;
    while i < left_count
        invariant
            i <= left_count == a.keys().len(),
            forall|k: int|
                0 <= k < i ==> right.contains_key(#[trigger] a.keys()[k]) && left[a.keys()[k]]
                    == right[a.keys()[k]],
        decreases left_count - i,
    {
        let (key, list) = a.entry_at(i);
        assert(left.contains_key(key@));
        match b.get(key.as_slice()) {
            Some(other) => {
                if !same_digests(list.as_slice(), other.as_slice()) {
                    assert(left[key@] != right[key@]);
                    return false;
                }
            },
            None => {
                assert(!right.contains_key(key@));
                return false;
            },
        }
        i += 1;
    }
    let mut j: usize = 0;
    while j < right_count
        invariant
            j <= right_count == b.keys().len(),
            forall|k: int| 0 <= k < j ==> left.contains_key(#[trigger] b.keys()[k]),
        decreases right_count - j,
    {
        let (key, _) = b.entry_at(j);
        assert(right.contains_key(key@));
        if !a.contains_key(key.as_slice()) {
            assert(!left.contains_key(key@));
            return false;
        }
        j += 1;
    }
    proof {
        assert forall|key: Seq<u8>| left.contains_key(key) <==> right.contains_key(key) by {
            if left.contains_key(key) {
                assert(a.keys().contains(key));
                let k = a.keys().index_of(key);
                assert(right.contains_key(a.keys()[k]));
            }
            if right.contains_key(key) {
                assert(b.keys().contains(key));
                let k = b.keys().index_of(key);
                assert(left.contains_key(b.keys()[k]));
            }
        }
        assert forall|key: Seq<u8>| #[trigger] left.contains_key(key) implies left[key]
            == right[key] by {
            assert(a.keys().contains(key));
            let k = a.keys().index_of(key);
            assert(left[a.keys()[k]] == right[a.keys()[k]]);
        }
        assert(left =~= right);
    }
    true
}

/// Sets the list of an atom.
pub fn set_group(groups: &mut DigestGroups, atom_id: &[u8; 32], digests: &Vec<[u8; 32]>)
    ensures
        group_views(*final(groups)) == group_views(*old(groups)).insert(
            atom_id@,
            digest_seq(digests@),
        ),
{
    groups.insert(copy_bytes(atom_id.as_slice()), copy_digests(digests));
    assert(group_views(*groups) =~= group_views(*old(groups)).insert(
        atom_id@,
        digest_seq(digests@),
    ));
}

/// Appends a digest to the list of an atom.
pub fn add_to_group(groups: &mut DigestGroups, atom_id: &[u8; 32], digest: [u8; 32])
    ensures
        group_views(*final(groups)) == group_views(*old(groups)).insert(
            atom_id@,
            crate::edges::group_of(group_views(*old(groups)), atom_id@).push(digest@),
        ),
{
    let mut digests: Vec<[u8; 32]> = match groups.remove(atom_id.as_slice()) {
        Some(digests) => digests,
        None => Vec::new(),
    };
    let ghost before = digests@;
    digests.push(digest);
    assert(digest_seq(digests@) =~= digest_seq(before).push(digest@));
    groups.insert(copy_bytes(atom_id.as_slice()), digests);
    proof {
        let views = group_views(*old(groups));
        assert(digest_seq(before) =~= crate::edges::group_of(views, atom_id@));
        assert(group_views(*groups) =~= views.insert(
            atom_id@,
            crate::edges::group_of(views, atom_id@).push(digest@),
        ));
    }
}

} // verus!
