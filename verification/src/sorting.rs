//! Putting lists in the order of byte strings.

use vstd::prelude::*;

use crate::bytemap::{
    Side, lemma_precedes_asymmetric, lemma_precedes_transitive, precedes, side_of,
};

verus! {

/// Something that is put in order by a byte string.
pub trait Keyed: View {
    /// The byte string that a value is ordered by.
    spec fn key(value: Self::V) -> Seq<u8>;

    /// The byte string that this value is ordered by.
    fn key_bytes(&self) -> (key: &[u8])
        ensures
            key@ == Self::key(self@),
    ;
}

impl Keyed for Vec<u8> {
    open spec fn key(value: Seq<u8>) -> Seq<u8> {
        value
    }

    fn key_bytes(&self) -> (key: &[u8]) {
        self.as_slice()
    }
}

/// The mathematical content of a list.
pub open spec fn views<T: View>(list: Seq<T>) -> Seq<T::V> {
    list.map_values(|item: T| item@)
}

/// Whether each item stands where its key allows: no later item precedes it.
pub open spec fn in_key_order<A>(list: Seq<A>, key: spec_fn(A) -> Seq<u8>) -> bool {
    forall|i: int, j: int|
        0 <= i < j < list.len() ==> key(#[trigger] list[i]) == key(#[trigger] list[j]) || precedes(
            key(list[i]),
            key(list[j]),
        )
}

/// Whether `ordered` holds the items of `list`, each as often, in the order of their keys.
pub open spec fn is_sorted_form<A>(
    list: Seq<A>,
    ordered: Seq<A>,
    key: spec_fn(A) -> Seq<u8>,
) -> bool {
    &&& ordered.to_multiset() == list.to_multiset()
    &&& in_key_order(ordered, key)
}

fn place_of<T: Keyed>(ordered: &Vec<T>, item: &T) -> (place: usize)
    requires
        in_key_order(views(ordered@), |value: T::V| T::key(value)),
    ensures
        place <= ordered@.len(),
        forall|k: int|
            0 <= k < place ==> T::key((#[trigger] ordered@[k])@) == T::key(item@) || precedes(
                T::key(ordered@[k]@),
                T::key(item@),
            ),
        forall|k: int|
            place <= k < ordered@.len() ==> precedes(
                T::key(item@),
                T::key((#[trigger] ordered@[k])@),
            ),
{
    let ghost list = views(ordered@);
    let mut place: usize = 0;
    let mut end: usize = ordered.len();
    while place < end
        invariant
            list == views(ordered@),
            in_key_order(list, |value: T::V| T::key(value)),
            place <= end <= ordered@.len(),
            forall|k: int|
                0 <= k < place ==> T::key((#[trigger] ordered@[k])@) == T::key(item@) || precedes(
                    T::key(ordered@[k]@),
                    T::key(item@),
                ),
            forall|k: int|
                end <= k < ordered@.len() ==> precedes(
                    T::key(item@),
                    T::key((#[trigger] ordered@[k])@),
                ),
        decreases end - place,
    {
        let middle: usize = place + (end - place) / 2;
        assert(list[middle as int] == ordered@[middle as int]@);
        match side_of(ordered[middle].key_bytes(), item.key_bytes()) {
            Side::After => {
                proof {
                    assert forall|k: int| middle <= k < ordered@.len() implies precedes(
                        T::key(item@),
                        T::key((#[trigger] ordered@[k])@),
                    ) by {
                        assert(list[k] == ordered@[k]@);
                        if k > middle && T::key(list[middle as int]) != T::key(list[k]) {
                            lemma_precedes_transitive(
                                T::key(item@),
                                T::key(list[middle as int]),
                                T::key(list[k]),
                            );
                        }
                    }
                }
                end = middle;
            },
            _ => {
                proof {
                    assert forall|k: int| 0 <= k < middle + 1 implies T::key(
                        (#[trigger] ordered@[k])@,
                    ) == T::key(item@) || precedes(T::key(ordered@[k]@), T::key(item@)) by {
                        assert(list[k] == ordered@[k]@);
                        if k < middle && T::key(list[middle as int]) != T::key(list[k])
                            && T::key(list[middle as int]) != T::key(item@) {
                            lemma_precedes_transitive(
                                T::key(list[k]),
                                T::key(list[middle as int]),
                                T::key(item@),
                            );
                        }
                    }
                }
                place = middle + 1;
            },
        }
    }
    place
}

/// Puts a list in the order of its keys.
#[verifier::loop_isolation(false)]
pub fn sort_by_key<T: Keyed>(list: Vec<T>) -> (ordered: Vec<T>)
    ensures
        is_sorted_form(views(list@), views(ordered@), |value: T::V| T::key(value)),
{
    let ghost key = |value: T::V| T::key(value);
    let ghost all = views(list@);
    let mut rest = list;
    let mut ordered: Vec<T> = Vec::new();
    proof {
        assert(views(ordered@) =~= Seq::<T::V>::empty());
        assert(views(ordered@).to_multiset().add(views(rest@).to_multiset())
            =~= all.to_multiset()) by {
            views(ordered@).to_multiset_ensures();
        }
    }
    while rest.len() > 0
        invariant
            in_key_order(views(ordered@), key),
            views(ordered@).to_multiset().add(views(rest@).to_multiset()) == all.to_multiset(),
        decreases rest@.len(),
    {
        let ghost rest_before = views(rest@);
        let ghost before = views(ordered@);
        let ghost before_list = ordered@;
        match rest.pop() {
            None => {},
            Some(item) => {
                let ghost added = item@;
                let place: usize = place_of(&ordered, &item);
                ordered.insert(place, item);
                proof {
                    let after = views(ordered@);
                    let shorter = views(rest@);
                    assert(after =~= before.insert(place as int, added));
                    assert(rest_before =~= shorter.push(added));
                    vstd::seq_lib::to_multiset_insert(before, place as int, added);
                    shorter.to_multiset_ensures();
                    assert(rest_before.to_multiset() =~= shorter.to_multiset().insert(added));
                    assert(after.to_multiset().add(shorter.to_multiset())
                        =~= before.to_multiset().add(rest_before.to_multiset()));
                    assert forall|i: int, j: int| 0 <= i < j < after.len() implies key(
                        #[trigger] after[i],
                    ) == key(#[trigger] after[j]) || precedes(key(after[i]), key(after[j])) by {
                        let source_i = if i < place {
                            i
                        } else {
                            i - 1
                        };
                        let source_j = if j < place {
                            j
                        } else {
                            j - 1
                        };
                        if i != place {
                            assert(after[i] == before[source_i]);
                            assert(before[source_i] == before_list[source_i]@);
                        }
                        if j != place {
                            assert(after[j] == before[source_j]);
                            assert(before[source_j] == before_list[source_j]@);
                        }
                    }
                }
            },
        }
    }
    proof {
        assert(views(rest@) =~= Seq::<T::V>::empty());
        views(rest@).to_multiset_ensures();
        assert(views(rest@).to_multiset().len() == 0);
        assert(views(ordered@).to_multiset().add(views(rest@).to_multiset())
            =~= views(ordered@).to_multiset());
    }
    ordered
}

/// Whether `ordered` holds the byte strings of `list`, each as often, in their order.
pub open spec fn is_sorted(list: Seq<Seq<u8>>, ordered: Seq<Seq<u8>>) -> bool {
    is_sorted_form(list, ordered, |value: Seq<u8>| value)
}

/// Byte strings in their order.
pub open spec fn sorted(list: Seq<Seq<u8>>) -> Seq<Seq<u8>> {
    choose|ordered: Seq<Seq<u8>>| is_sorted(list, ordered)
}

proof fn lemma_sorted_form_is_unique(list: Seq<Seq<u8>>, a: Seq<Seq<u8>>, b: Seq<Seq<u8>>)
    requires
        is_sorted(list, a),
        is_sorted(list, b),
    ensures
        a == b,
    decreases a.len(),
{
    let key = |value: Seq<u8>| value;
    a.to_multiset_ensures();
    b.to_multiset_ensures();
    if a.len() == 0 {
        assert(a =~= b);
    } else {
        assert(a.to_multiset().count(a.last()) > 0);
        assert(b.contains(a.last()));
        assert(b.to_multiset().count(b.last()) > 0);
        assert(a.contains(b.last()));
        let i = a.index_of(b.last());
        let j = b.index_of(a.last());
        if a.last() != b.last() {
            assert(key(a[i]) == key(a[a.len() - 1]) || precedes(key(a[i]), key(a[a.len() - 1])));
            assert(key(b[j]) == key(b[b.len() - 1]) || precedes(key(b[j]), key(b[b.len() - 1])));
            lemma_precedes_asymmetric(a.last(), b.last());
        }
        let left = a.drop_last();
        let right = b.drop_last();
        left.to_multiset_ensures();
        right.to_multiset_ensures();
        assert(a =~= left.push(a.last()));
        assert(b =~= right.push(b.last()));
        assert(left.to_multiset() =~= a.to_multiset().remove(a.last()));
        assert(right.to_multiset() =~= b.to_multiset().remove(b.last()));
        assert forall|x: int, y: int| 0 <= x < y < left.len() implies key(#[trigger] left[x])
            == key(#[trigger] left[y]) || precedes(key(left[x]), key(left[y])) by {
            assert(left[x] == a[x] && left[y] == a[y]);
        }
        assert forall|x: int, y: int| 0 <= x < y < right.len() implies key(#[trigger] right[x])
            == key(#[trigger] right[y]) || precedes(key(right[x]), key(right[y])) by {
            assert(right[x] == b[x] && right[y] == b[y]);
        }
        lemma_sorted_form_is_unique(left, left, right);
    }
}

/// Whether no two items of a list have one key.
pub open spec fn distinct_keys<A>(list: Seq<A>, key: spec_fn(A) -> Seq<u8>) -> bool {
    forall|i: int, j: int|
        0 <= i < j < list.len() ==> key(#[trigger] list[i]) != key(#[trigger] list[j])
}

/// Items with different keys have one order only, whichever way they come.
pub proof fn law_distinct_keys_have_one_order<A>(a: Seq<A>, b: Seq<A>, key: spec_fn(A) -> Seq<u8>)
    requires
        a.to_multiset() == b.to_multiset(),
        in_key_order(a, key),
        in_key_order(b, key),
        distinct_keys(a, key),
    ensures
        a == b,
    decreases a.len(),
{
    a.to_multiset_ensures();
    b.to_multiset_ensures();
    if a.len() == 0 {
        assert(a =~= b);
    } else {
        let last = a.last();
        let other = b.last();
        assert(a.to_multiset().count(last) > 0);
        assert(b.contains(last));
        assert(b.to_multiset().count(other) > 0);
        assert(a.contains(other));
        let i = a.index_of(other);
        let j = b.index_of(last);
        if last != other {
            assert(key(a[i]) != key(a[a.len() - 1]));
            assert(precedes(key(a[i]), key(a[a.len() - 1])));
            assert(key(b[j]) == key(b[b.len() - 1]) || precedes(key(b[j]), key(b[b.len() - 1])));
            lemma_precedes_asymmetric(key(last), key(other));
            assert(false);
        }
        let left = a.drop_last();
        let right = b.drop_last();
        left.to_multiset_ensures();
        right.to_multiset_ensures();
        assert(a =~= left.push(last));
        assert(b =~= right.push(last));
        assert(left.to_multiset() =~= a.to_multiset().remove(last));
        assert(right.to_multiset() =~= b.to_multiset().remove(last));
        assert forall|x: int, y: int| 0 <= x < y < left.len() implies key(#[trigger] left[x])
            == key(#[trigger] left[y]) || precedes(key(left[x]), key(left[y])) by {
            assert(left[x] == a[x] && left[y] == a[y]);
        }
        assert forall|x: int, y: int| 0 <= x < y < right.len() implies key(#[trigger] right[x])
            == key(#[trigger] right[y]) || precedes(key(right[x]), key(right[y])) by {
            assert(right[x] == b[x] && right[y] == b[y]);
        }
        assert forall|x: int, y: int| 0 <= x < y < left.len() implies key(#[trigger] left[x])
            != key(#[trigger] left[y]) by {
            assert(left[x] == a[x] && left[y] == a[y]);
        }
        law_distinct_keys_have_one_order(left, right, key);
    }
}

/// Lists that hold the same items have different keys together.
pub proof fn lemma_distinct_keys_move<A>(a: Seq<A>, b: Seq<A>, key: spec_fn(A) -> Seq<u8>)
    requires
        a.to_multiset() == b.to_multiset(),
        distinct_keys(a, key),
    ensures
        distinct_keys(b, key),
{
    a.to_multiset_ensures();
    b.to_multiset_ensures();
    assert forall|i: int, j: int| 0 <= i < j < b.len() implies key(#[trigger] b[i]) != key(
        #[trigger] b[j],
    ) by {
        if key(b[i]) == key(b[j]) {
            assert(b.to_multiset().count(b[i]) > 0);
            assert(b.to_multiset().count(b[j]) > 0);
            assert(a.contains(b[i]));
            assert(a.contains(b[j]));
            let m = a.index_of(b[i]);
            let n = a.index_of(b[j]);
            if m != n {
                assert(m < n ==> key(a[m]) != key(a[n]));
                assert(n < m ==> key(a[n]) != key(a[m]));
                assert(false);
            }
            let rest = b.remove(j);
            assert(rest.to_multiset() =~= b.to_multiset().remove(b[j]));
            rest.to_multiset_ensures();
            assert(rest[i] == b[i]);
            assert(rest.to_multiset().count(b[i]) > 0);
            assert(a.to_multiset().count(a[m]) > 1);
            let fewer = a.remove(m);
            assert(fewer.to_multiset() =~= a.to_multiset().remove(a[m]));
            fewer.to_multiset_ensures();
            assert(fewer.to_multiset().count(a[m]) > 0);
            assert(fewer.contains(a[m]));
            let k = fewer.index_of(a[m]);
            if k < m {
                assert(a[k] == fewer[k]);
                assert(key(a[k]) != key(a[m]));
            } else {
                assert(a[k + 1] == fewer[k]);
                assert(key(a[m]) != key(a[k + 1]));
            }
            assert(false);
        }
    }
}

/// Lists that hold the same items hold the same after each item was replaced by what belongs to
/// it.
pub proof fn lemma_mapped_bags<A, B>(a: Seq<A>, b: Seq<A>, f: spec_fn(A) -> B)
    requires
        a.to_multiset() == b.to_multiset(),
    ensures
        a.map_values(f).to_multiset() == b.map_values(f).to_multiset(),
    decreases a.len(),
{
    a.to_multiset_ensures();
    b.to_multiset_ensures();
    if a.len() == 0 {
        assert(a =~= b);
    } else {
        let last = a.last();
        assert(a.to_multiset().count(last) > 0);
        assert(b.contains(last));
        let i = b.index_of(last);
        let left = a.drop_last();
        let right = b.remove(i);
        left.to_multiset_ensures();
        assert(a =~= left.push(last));
        assert(left.to_multiset() =~= a.to_multiset().remove(last));
        assert(right.to_multiset() =~= b.to_multiset().remove(last));
        lemma_mapped_bags(left, right, f);
        left.map_values(f).to_multiset_ensures();
        b.map_values(f).to_multiset_ensures();
        assert(a.map_values(f) =~= left.map_values(f).push(f(last)));
        assert(right.map_values(f) =~= b.map_values(f).remove(i));
        assert(b.map_values(f)[i] == f(last));
        assert(b.map_values(f).contains(f(last)));
        assert(right.map_values(f).to_multiset() =~= b.map_values(f).to_multiset().remove(f(last)));
        assert(b.map_values(f).to_multiset() =~= b.map_values(f).to_multiset().remove(
            f(last),
        ).insert(f(last)));
    }
}

/// Puts byte strings in their order.
pub fn sort_byte_strings(list: Vec<Vec<u8>>) -> (ordered: Vec<Vec<u8>>)
    ensures
        views(ordered@) == sorted(views(list@)),
        is_sorted(views(list@), views(ordered@)),
{
    let ghost all = views(list@);
    let ordered = sort_by_key(list);
    proof {
        let key = |value: Seq<u8>| value;
        let form = views(ordered@);
        assert forall|i: int, j: int| 0 <= i < j < form.len() implies key(#[trigger] form[i])
            == key(#[trigger] form[j]) || precedes(key(form[i]), key(form[j])) by {
            let other = |value: Seq<u8>| <Vec<u8> as Keyed>::key(value);
            assert(other(form[i]) == other(form[j]) || precedes(other(form[i]), other(form[j])));
        }
        assert(is_sorted(all, form));
        lemma_sorted_form_is_unique(all, form, sorted(all));
    }
    ordered
}

/// The order in which byte strings come does not matter: lists that hold the same ones, each as
/// often, have one sorted form.
pub proof fn law_sorted_form_forgets_the_order(a: Seq<Seq<u8>>, b: Seq<Seq<u8>>)
    requires
        a.to_multiset() == b.to_multiset(),
    ensures
        sorted(a) == sorted(b),
{
    lemma_sorted_form_exists(a);
    lemma_sorted_form_exists(b);
    lemma_sorted_form_is_unique(a, sorted(a), sorted(b));
}

/// Every list of byte strings has a sorted form.
pub proof fn lemma_sorted_form_exists(list: Seq<Seq<u8>>)
    ensures
        is_sorted(list, sorted(list)),
    decreases list.len(),
{
    let key = |value: Seq<u8>| value;
    if list.len() == 0 {
        assert(is_sorted(list, list));
    } else {
        let item = list.last();
        let shorter = list.drop_last();
        lemma_sorted_form_exists(shorter);
        let ordered = sorted(shorter);
        let place = lemma_place_exists(ordered, item, ordered.len() as int);
        let longer = ordered.insert(place, item);
        vstd::seq_lib::to_multiset_insert(ordered, place, item);
        shorter.to_multiset_ensures();
        assert(list =~= shorter.push(item));
        assert(longer.to_multiset() =~= list.to_multiset());
        assert forall|i: int, j: int| 0 <= i < j < longer.len() implies key(#[trigger] longer[i])
            == key(#[trigger] longer[j]) || precedes(key(longer[i]), key(longer[j])) by {
            let source_i = if i < place {
                i
            } else {
                i - 1
            };
            let source_j = if j < place {
                j
            } else {
                j - 1
            };
            if i != place {
                assert(longer[i] == ordered[source_i]);
            }
            if j != place {
                assert(longer[j] == ordered[source_j]);
            }
            if i != place && j != place {
                assert(key(ordered[source_i]) == key(ordered[source_j]) || precedes(
                    key(ordered[source_i]),
                    key(ordered[source_j]),
                ));
            }
        }
        assert(is_sorted(list, longer));
    }
}

proof fn lemma_place_exists(ordered: Seq<Seq<u8>>, item: Seq<u8>, end: int) -> (place: int)
    requires
        in_key_order(ordered, |value: Seq<u8>| value),
        0 <= end <= ordered.len(),
        forall|k: int| end <= k < ordered.len() ==> precedes(item, #[trigger] ordered[k]),
    ensures
        0 <= place <= end,
        forall|k: int|
            0 <= k < place ==> #[trigger] ordered[k] == item || precedes(ordered[k], item),
        forall|k: int| place <= k < ordered.len() ==> precedes(item, #[trigger] ordered[k]),
    decreases end,
{
    if end == 0 {
        0
    } else {
        let last = ordered[end - 1];
        crate::bytemap::lemma_precedes_total(last, item);
        if last == item || precedes(last, item) {
            let key = |value: Seq<u8>| value;
            assert forall|k: int| 0 <= k < end implies #[trigger] ordered[k] == item || precedes(
                ordered[k],
                item,
            ) by {
                if k < end - 1 {
                    assert(key(ordered[k]) == key(ordered[end - 1]) || precedes(
                        key(ordered[k]),
                        key(ordered[end - 1]),
                    ));
                    if ordered[k] != last && last != item {
                        lemma_precedes_transitive(ordered[k], last, item);
                    }
                }
            }
            end
        } else {
            lemma_place_exists(ordered, item, end - 1)
        }
    }
}

} // verus!
