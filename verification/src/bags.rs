//! Comparing lists of byte strings without regard to order.

use vstd::multiset::*;
use vstd::prelude::*;

use crate::bytemap::ByteSet;
use crate::text::same_bytes;

verus! {

/// The byte strings of a list.
pub open spec fn byte_strings(list: Seq<Vec<u8>>) -> Seq<Seq<u8>> {
    list.map_values(|bytes: Vec<u8>| bytes@)
}

proof fn lemma_removed_bag(list: Seq<Seq<u8>>, i: int)
    requires
        0 <= i < list.len(),
    ensures
        list.remove(i).to_multiset() == list.to_multiset().remove(list[i]),
        list.to_multiset().count(list[i]) > 0,
{
    list.to_multiset_ensures();
    assert(list.contains(list[i]));
}

/// Whether two lists hold the same byte strings equally often.
#[verifier::loop_isolation(false)]
pub fn same_bag(a: &Vec<Vec<u8>>, b: &Vec<Vec<u8>>) -> (same: bool)
    ensures
        same == (byte_strings(a@).to_multiset() == byte_strings(b@).to_multiset()),
{
    let ghost left = byte_strings(a@);
    let ghost right = byte_strings(b@);
    let mut rest: Vec<usize> = Vec::new();
    let mut k: usize = 0;
    while k < b.len()
        invariant
            k <= b@.len(),
            rest@.len() == k,
            forall|j: int| 0 <= j < k ==> rest@[j] == j,
        decreases b@.len() - k,
    {
        rest.push(k);
        k += 1;
    }
    let ghost mut remaining = right;
    let mut i: usize = 0;
    proof {
        assert(left.subrange(0, 0) =~= Seq::<Seq<u8>>::empty());
        left.subrange(0, 0).to_multiset_ensures();
        assert(left.subrange(0, 0).to_multiset().add(remaining.to_multiset())
            =~= right.to_multiset()) by {
            assert(left.subrange(0, 0).to_multiset().len() == 0);
        }
    }
    while i < a.len()
        invariant
            i <= a@.len(),
            rest@.len() == remaining.len(),
            forall|j: int|
                #![trigger rest@[j]]
                #![trigger remaining[j]]
                0 <= j < rest@.len() ==> rest@[j] < b@.len() && remaining[j]
                    == b@[rest@[j] as int]@,
            left.subrange(0, i as int).to_multiset().add(remaining.to_multiset())
                == right.to_multiset(),
        decreases a@.len() - i,
    {
        let ghost item = left[i as int];
        let mut j: usize = 0;
        let mut found = false;
        while j < rest.len() && !found
            invariant
                j <= rest@.len(),
                rest@.len() == remaining.len(),
                !found ==> forall|m: int| 0 <= m < j ==> #[trigger] remaining[m] != item,
                found ==> j < rest@.len() && remaining[j as int] == item,
            decreases rest@.len() - j + (if found { 0int } else { 1 }),
        {
            if same_bytes(a[i].as_slice(), b[rest[j]].as_slice()) {
                assert(remaining[j as int] == item);
                found = true;
            } else {
                assert(remaining[j as int] != item);
                j += 1;
            }
        }
        if !found {
            proof {
                remaining.to_multiset_ensures();
                assert(!remaining.contains(item));
                assert(remaining.to_multiset().count(item) == 0);
                let prefix = left.subrange(0, i as int);
                let longer = left.subrange(0, i + 1);
                assert(longer =~= prefix.push(item));
                prefix.to_multiset_ensures();
                longer.to_multiset_ensures();
                assert(longer.to_multiset() =~= prefix.to_multiset().insert(item));
                assert(right.to_multiset().count(item) == prefix.to_multiset().count(item));
                lemma_prefix_bag(left, i + 1, item);
                assert(left.to_multiset().count(item) > right.to_multiset().count(item));
            }
            return false;
        }
        proof {
            let prefix = left.subrange(0, i as int);
            let longer = left.subrange(0, i + 1);
            assert(longer =~= prefix.push(item));
            prefix.to_multiset_ensures();
            assert(longer.to_multiset() =~= prefix.to_multiset().insert(item));
            lemma_removed_bag(remaining, j as int);
            let shorter = remaining.remove(j as int);
            assert(longer.to_multiset().add(shorter.to_multiset()) =~= prefix.to_multiset().add(
                remaining.to_multiset(),
            ));
            remaining = shorter;
        }
        let ghost kept = rest@;
        rest.remove(j);
        assert forall|m: int|
            #![trigger rest@[m]]
            0 <= m < rest@.len() implies rest@[m] < b@.len() && remaining[m]
            == b@[rest@[m] as int]@ by {
            let n = if m < j {
                m
            } else {
                m + 1
            };
            assert(rest@[m] == kept[n]);
        }
        i += 1;
    }
    proof {
        assert(left.subrange(0, i as int) =~= left);
        remaining.to_multiset_ensures();
        if remaining.len() == 0 {
            assert(left.to_multiset().add(remaining.to_multiset()) =~= left.to_multiset()) by {
                assert(remaining.to_multiset().len() == 0);
            }
        } else {
            let extra = remaining[0];
            assert(remaining.contains(extra));
            assert(remaining.to_multiset().count(extra) > 0);
            assert(right.to_multiset().count(extra) > left.to_multiset().count(extra));
        }
    }
    rest.len() == 0
}

proof fn lemma_prefix_bag(list: Seq<Seq<u8>>, i: int, item: Seq<u8>)
    requires
        0 <= i <= list.len(),
    ensures
        list.subrange(0, i).to_multiset().count(item) <= list.to_multiset().count(item),
    decreases list.len() - i,
{
    if i == list.len() {
        assert(list.subrange(0, i) =~= list);
    } else {
        lemma_prefix_bag(list, i + 1, item);
        assert(list.subrange(0, i + 1) =~= list.subrange(0, i).push(list[i]));
        list.subrange(0, i).to_multiset_ensures();
    }
}

/// Whether no byte string occurs twice in a list.
pub fn all_distinct(list: &Vec<Vec<u8>>) -> (distinct: bool)
    ensures
        distinct == byte_strings(list@).no_duplicates(),
{
    let ghost all = byte_strings(list@);
    let mut seen = ByteSet::new();
    let mut i: usize = 0;
    while i < list.len()
        invariant
            all == byte_strings(list@),
            i <= list@.len(),
            forall|m: int, n: int| 0 <= m < n < i ==> all[m] != all[n],
            forall|member: Seq<u8>|
                seen@.contains(member) <==> exists|m: int| 0 <= m < i && all[m] == member,
        decreases list@.len() - i,
    {
        let ghost before = seen@;
        if !seen.insert(list[i].as_slice()) {
            proof {
                let m = choose|m: int| 0 <= m < i && all[m] == all[i as int];
                assert(all[m] == all[i as int]);
            }
            return false;
        }
        proof {
            assert forall|m: int, n: int| 0 <= m < n < i + 1 implies all[m] != all[n] by {
                if n == i && all[m] == all[n] {
                    assert(before.contains(all[i as int]));
                }
            }
            assert forall|member: Seq<u8>|
                seen@.contains(member) <==> exists|m: int| 0 <= m < i + 1 && all[m] == member by {
                if before.contains(member) {
                    let m = choose|m: int| 0 <= m < i && all[m] == member;
                    assert(0 <= m < i + 1 && all[m] == member);
                }
                if member == all[i as int] {
                    assert(0 <= i < i + 1 && all[i as int] == member);
                }
            }
        }
        i += 1;
    }
    true
}

} // verus!
