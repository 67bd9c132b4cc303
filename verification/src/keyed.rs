//! Sequences of keyed entries held in strictly increasing key order, and the
//! maps they stand for. The in-memory intent store and the deterministic
//! aggregate both keep their contents this way.

use vstd::prelude::*;
use crate::order::{key_lt, key_precedes, lemma_key_lt_asymmetric, lemma_key_lt_irreflexive,
    lemma_key_lt_total, lemma_key_lt_transitive};

verus! {

/// The keys of the entries strictly increase.
pub open spec fn keys_increase<V>(s: Seq<(Seq<char>, V)>) -> bool {
    forall|i: int, j: int| 0 <= i < j < s.len() ==> key_lt(#[trigger] s[i].0, #[trigger] s[j].0)
}

/// The map that the entries of `s` stand for.
pub open spec fn map_of<V>(s: Seq<(Seq<char>, V)>) -> Map<Seq<char>, V> {
    Map::new(
        |k: Seq<char>| exists|i: int| 0 <= i < s.len() && s[i].0 == k,
        |k: Seq<char>| s[choose|i: int| 0 <= i < s.len() && s[i].0 == k].1,
    )
}

/// Each entry is what the map holds under its key.
pub proof fn lemma_map_of_at<V>(s: Seq<(Seq<char>, V)>, i: int)
    requires
        keys_increase(s),
        0 <= i < s.len(),
    ensures
        map_of(s).contains_key(s[i].0),
        map_of(s)[s[i].0] == s[i].1,
{
    let k = s[i].0;
    assert(exists|j: int| 0 <= j < s.len() && s[j].0 == k);
    let j = choose|j: int| 0 <= j < s.len() && s[j].0 == k;
    lemma_key_lt_irreflexive(k);
    if j < i {
        assert(key_lt(s[j].0, s[i].0));
    } else if i < j {
        assert(key_lt(s[i].0, s[j].0));
    }
}

/// Every key of the map is the key of an entry.
pub proof fn lemma_map_of_key<V>(s: Seq<(Seq<char>, V)>, k: Seq<char>) -> (i: int)
    requires
        keys_increase(s),
        map_of(s).contains_key(k),
    ensures
        0 <= i < s.len(),
        s[i].0 == k,
        map_of(s)[k] == s[i].1,
{
    let i = choose|i: int| 0 <= i < s.len() && s[i].0 == k;
    lemma_map_of_at(s, i);
    i
}

/// Inserting an entry at the place its key belongs inserts it in the map.
pub proof fn lemma_map_of_insert<V>(s: Seq<(Seq<char>, V)>, p: int, x: (Seq<char>, V))
    requires
        keys_increase(s),
        0 <= p <= s.len(),
        forall|i: int| 0 <= i < p ==> key_lt(#[trigger] s[i].0, x.0),
        forall|i: int| p <= i < s.len() ==> key_lt(x.0, #[trigger] s[i].0),
    ensures
        keys_increase(s.insert(p, x)),
        map_of(s.insert(p, x)) =~= map_of(s).insert(x.0, x.1),
{
    let t = s.insert(p, x);
    assert forall|i: int, j: int| 0 <= i < j < t.len() implies key_lt(
        #[trigger] t[i].0,
        #[trigger] t[j].0,
    ) by {
        if i < p && j == p {
        } else if i == p && j > p {
            assert(t[j] == s[j - 1]);
        } else if i < p && j > p {
            assert(t[j] == s[j - 1]);
        } else if i > p {
            assert(t[i] == s[i - 1] && t[j] == s[j - 1]);
        }
    }
    assert forall|k: Seq<char>| #[trigger] map_of(t).contains_key(k) <==> map_of(s).insert(
        x.0,
        x.1,
    ).contains_key(k) by {
        if map_of(t).contains_key(k) {
            let i = choose|i: int| 0 <= i < t.len() && t[i].0 == k;
            if i < p {
                assert(s[i].0 == k);
            } else if i > p {
                assert(s[i - 1].0 == k);
            }
        }
        if map_of(s).contains_key(k) {
            let i = choose|i: int| 0 <= i < s.len() && s[i].0 == k;
            if i < p {
                assert(t[i].0 == k);
            } else {
                assert(t[i + 1].0 == k);
            }
        }
        if k == x.0 {
            assert(t[p].0 == k);
        }
    }
    assert forall|k: Seq<char>| #[trigger] map_of(t).contains_key(k) implies map_of(t)[k]
        == map_of(s).insert(x.0, x.1)[k] by {
        let i = lemma_map_of_key(t, k);
        if i == p {
        } else if i < p {
            lemma_map_of_at(s, i);
        } else {
            lemma_map_of_at(s, i - 1);
        }
    }
}

/// Replacing an entry by one with the same key replaces it in the map.
pub proof fn lemma_map_of_update<V>(s: Seq<(Seq<char>, V)>, p: int, x: (Seq<char>, V))
    requires
        keys_increase(s),
        0 <= p < s.len(),
        x.0 == s[p].0,
    ensures
        keys_increase(s.update(p, x)),
        map_of(s.update(p, x)) =~= map_of(s).insert(x.0, x.1),
{
    let t = s.update(p, x);
    assert forall|i: int, j: int| 0 <= i < j < t.len() implies key_lt(
        #[trigger] t[i].0,
        #[trigger] t[j].0,
    ) by {
        assert(t[i].0 == s[i].0 && t[j].0 == s[j].0);
    }
    assert forall|k: Seq<char>| #[trigger] map_of(t).contains_key(k) <==> map_of(s).insert(
        x.0,
        x.1,
    ).contains_key(k) by {
        if map_of(t).contains_key(k) {
            let i = choose|i: int| 0 <= i < t.len() && t[i].0 == k;
            assert(s[i].0 == k);
        }
        if map_of(s).contains_key(k) {
            let i = choose|i: int| 0 <= i < s.len() && s[i].0 == k;
            assert(t[i].0 == k);
        }
        if k == x.0 {
            assert(t[p].0 == k);
        }
    }
    assert forall|k: Seq<char>| #[trigger] map_of(t).contains_key(k) implies map_of(t)[k]
        == map_of(s).insert(x.0, x.1)[k] by {
        let i = lemma_map_of_key(t, k);
        if i != p {
            lemma_map_of_at(s, i);
        }
    }
}


/// Dropping the first entry drops its key from the map.
proof fn lemma_map_of_drop_first<V>(s: Seq<(Seq<char>, V)>)
    requires
        keys_increase(s),
        s.len() > 0,
    ensures
        keys_increase(s.drop_first()),
        map_of(s.drop_first()) =~= map_of(s).remove(s[0].0),
{
    let t = s.drop_first();
    assert forall|i: int, j: int| 0 <= i < j < t.len() implies key_lt(
        #[trigger] t[i].0,
        #[trigger] t[j].0,
    ) by {
        assert(t[i] == s[i + 1] && t[j] == s[j + 1]);
    }
    assert forall|k: Seq<char>| #[trigger] map_of(t).contains_key(k) <==> map_of(s).remove(
        s[0].0,
    ).contains_key(k) by {
        if map_of(t).contains_key(k) {
            let i = choose|i: int| 0 <= i < t.len() && t[i].0 == k;
            assert(s[i + 1].0 == k);
            lemma_key_lt_irreflexive(k);
            assert(key_lt(s[0].0, s[i + 1].0));
        }
        if map_of(s).contains_key(k) && k != s[0].0 {
            let i = choose|i: int| 0 <= i < s.len() && s[i].0 == k;
            assert(t[i - 1].0 == k);
        }
    }
    assert forall|k: Seq<char>| #[trigger] map_of(t).contains_key(k) implies map_of(t)[k]
        == map_of(s)[k] by {
        let i = lemma_map_of_key(t, k);
        lemma_map_of_at(s, i + 1);
    }
}

/// Entries in strictly increasing key order are determined by the map they
/// stand for: a map has exactly one such listing.
pub proof fn law_listing_is_unique<V>(a: Seq<(Seq<char>, V)>, b: Seq<(Seq<char>, V)>)
    requires
        keys_increase(a),
        keys_increase(b),
        map_of(a) == map_of(b),
    ensures
        a == b,
    decreases a.len(),
{
    if a.len() == 0 || b.len() == 0 {
        if b.len() > 0 {
            lemma_map_of_at(b, 0);
        }
        if a.len() > 0 {
            lemma_map_of_at(a, 0);
        }
        assert(a =~= b);
    } else {
        lemma_map_of_at(a, 0);
        lemma_map_of_at(b, 0);
        let j = lemma_map_of_key(b, a[0].0);
        let i = lemma_map_of_key(a, b[0].0);
        lemma_key_lt_irreflexive(a[0].0);
        if j > 0 {
            assert(key_lt(b[0].0, b[j].0));
            if i > 0 {
                assert(key_lt(a[0].0, a[i].0));
                lemma_key_lt_asymmetric(a[0].0, a[i].0);
            }
        }
        assert(a[0] == b[0]);
        lemma_map_of_drop_first(a);
        lemma_map_of_drop_first(b);
        law_listing_is_unique(a.drop_first(), b.drop_first());
        assert(a =~= seq![a[0]] + a.drop_first());
        assert(b =~= seq![b[0]] + b.drop_first());
    }
}


/// Values ordered by a text key.
pub trait Keyed {
    spec fn key(&self) -> Seq<char>;

    fn key_text(&self) -> (s: &str)
        ensures
            s@ == self.key(),
    ;
}

/// No element's key comes before the key of an element to its left.
pub open spec fn sorted_by_key<T: Keyed>(s: Seq<T>) -> bool {
    forall|i: int, j: int| 0 <= i < j < s.len() ==> !key_lt(#[trigger] s[j].key(), #[trigger] s[i].key())
}

/// A sequence sorted by key runs in ascending key order: of two elements, the
/// one to the left has the same key as the other or a key that comes first.
pub proof fn law_sorted_is_ascending<T: Keyed>(s: Seq<T>, i: int, j: int)
    requires
        sorted_by_key(s),
        0 <= i < j < s.len(),
    ensures
        s[i].key() == s[j].key() || key_lt(s[i].key(), s[j].key()),
{
    lemma_key_lt_total(s[i].key(), s[j].key());
}

/// Whether an element's key is `k`.
pub open spec fn key_is<T: Keyed>(k: Seq<char>) -> spec_fn(T) -> bool {
    |x: T| x.key() == k
}

/// The elements of `s` whose key is `k`, in their order in `s`.
pub open spec fn with_key<T: Keyed>(s: Seq<T>, k: Seq<char>) -> Seq<T> {
    s.filter(key_is::<T>(k))
}

/// An element whose key is not `k` is dropped by `with_key`; one whose key is
/// `k` is kept.
proof fn lemma_with_key_single<T: Keyed>(x: T, k: Seq<char>)
    ensures
        with_key(seq![x], k) == (if x.key() == k {
            seq![x]
        } else {
            Seq::<T>::empty()
        }),
{
    reveal_with_fuel(Seq::filter, 2);
    assert(seq![x].drop_last() =~= Seq::<T>::empty());
    if x.key() == k {
        assert(with_key(seq![x], k) =~= seq![x]);
    } else {
        assert(with_key(seq![x], k) =~= Seq::<T>::empty());
    }
}

/// When no element has key `k`, none is kept.
proof fn lemma_with_key_none<T: Keyed>(s: Seq<T>, k: Seq<char>)
    requires
        forall|i: int| 0 <= i < s.len() ==> (#[trigger] s[i]).key() != k,
    ensures
        with_key(s, k) == Seq::<T>::empty(),
{
    broadcast use vstd::seq_lib::group_filter_ensures;

    let pred = key_is::<T>(k);
    if with_key(s, k).len() > 0 {
        let first = s.filter(pred)[0];
        assert(s.filter(pred).contains(first));
        s.lemma_filter_contains_rev(pred, first);
        assert(pred(first));
    }
    assert(with_key(s, k) =~= Seq::<T>::empty());
}

/// Sorts `items` by key, keeping the order of items with equal keys.
pub fn sort_by_key<T: Keyed>(items: Vec<T>) -> (sorted: Vec<T>)
    ensures
        sorted_by_key(sorted@),
        forall|k: Seq<char>| #[trigger] with_key(sorted@, k) == with_key(items@, k),
        sorted@.to_multiset() == items@.to_multiset(),
{
    broadcast use vstd::seq_lib::group_to_multiset_ensures;

    let ghost original = items@;
    let mut rest = items;
    let mut sorted: Vec<T> = Vec::new();
    proof {
        assert forall|k: Seq<char>| #[trigger]
            with_key(original, k) == with_key(sorted@, k) + with_key(rest@, k) by {
            lemma_with_key_none(sorted@, k);
            assert(with_key(sorted@, k) + with_key(rest@, k) =~= with_key(rest@, k));
        }
    }
    while rest.len() > 0
        invariant
            sorted_by_key(sorted@),
            sorted@.to_multiset().add(rest@.to_multiset()) == original.to_multiset(),
            forall|k: Seq<char>|
                #[trigger] with_key(original, k) == with_key(sorted@, k) + with_key(rest@, k),
        decreases rest.len(),
    {
        let ghost before_rest = rest@;
        let ghost before = sorted@;
        let item = rest.remove(0);
        proof {
            vstd::seq_lib::to_multiset_remove(before_rest, 0);
        }
        let mut p: usize = 0;
        while p < sorted.len() && !key_precedes(item.key_text(), sorted[p].key_text())
            invariant
                p <= sorted@.len(),
                sorted@ == before,
                forall|i: int| 0 <= i < p ==> !key_lt(item.key(), #[trigger] sorted@[i].key()),
            decreases sorted.len() - p,
        {
            p = p + 1;
        }
        proof {
            assert forall|j: int| p <= j < sorted@.len() implies key_lt(
                item.key(),
                #[trigger] sorted@[j].key(),
            ) by {
                if j > p {
                    lemma_key_lt_total(sorted@[p as int].key(), sorted@[j].key());
                    if sorted@[p as int].key() != sorted@[j].key() {
                        if key_lt(sorted@[j].key(), sorted@[p as int].key()) {
                        } else {
                            lemma_key_lt_transitive(
                                item.key(),
                                sorted@[p as int].key(),
                                sorted@[j].key(),
                            );
                        }
                    }
                }
            }
            vstd::seq_lib::to_multiset_insert(before, p as int, item);
        }
        sorted.insert(p, item);
        proof {
            let s = sorted@;
            assert forall|i: int, j: int| 0 <= i < j < s.len() implies !key_lt(
                #[trigger] s[j].key(),
                #[trigger] s[i].key(),
            ) by {
                if j == p as int {
                    assert(s[i] == before[i]);
                } else if i == p as int {
                    assert(s[j] == before[j - 1]);
                    lemma_key_lt_asymmetric(item.key(), before[j - 1].key());
                } else if i < p && j > p {
                    assert(s[i] == before[i] && s[j] == before[j - 1]);
                } else if i > p {
                    assert(s[i] == before[i - 1] && s[j] == before[j - 1]);
                } else {
                    assert(s[i] == before[i] && s[j] == before[j]);
                }
            }
            broadcast use vstd::multiset::group_multiset_axioms;

            assert(before_rest[0] == item);
            assert(before_rest.contains(item));
            vstd::seq_lib::to_multiset_contains(before_rest, item);
            assert(sorted@.to_multiset().add(rest@.to_multiset()) =~= original.to_multiset());
            assert forall|k: Seq<char>| #[trigger]
                with_key(original, k) == with_key(sorted@, k) + with_key(rest@, k) by {
                let front = before.take(p as int);
                let back = before.skip(p as int);
                assert(before =~= front + back);
                assert(s =~= front + seq![item] + back);
                assert(before_rest =~= seq![item] + rest@);
                Seq::filter_distributes_over_add(front, back, key_is::<T>(k));
                Seq::filter_distributes_over_add(front + seq![item], back, key_is::<T>(k));
                Seq::filter_distributes_over_add(front, seq![item], key_is::<T>(k));
                Seq::filter_distributes_over_add(seq![item], rest@, key_is::<T>(k));
                lemma_with_key_single(item, k);
                if item.key() == k {
                    assert forall|i: int| 0 <= i < back.len() implies (#[trigger] back[i]).key()
                        != k by {
                        assert(back[i] == before[p + i]);
                        lemma_key_lt_irreflexive(k);
                    }
                    lemma_with_key_none(back, k);
                    assert(with_key(s, k) =~= with_key(front, k) + seq![item]);
                    assert(with_key(before, k) =~= with_key(front, k));
                    assert(with_key(original, k) =~= with_key(s, k) + with_key(rest@, k));
                } else {
                    assert(with_key(s, k) =~= with_key(front, k) + with_key(back, k));
                    assert(with_key(before_rest, k) =~= with_key(rest@, k));
                }
            }
        }
    }
    proof {
        assert(rest@ =~= Seq::<T>::empty());
        assert forall|k: Seq<char>| #[trigger] with_key(sorted@, k) == with_key(original, k) by {
            lemma_with_key_none(rest@, k);
            assert(with_key(sorted@, k) + with_key(rest@, k) =~= with_key(sorted@, k));
        }
        assert(rest@.to_multiset() =~= vstd::multiset::Multiset::empty());
        assert(sorted@.to_multiset().add(vstd::multiset::Multiset::empty()) =~= sorted@.to_multiset());
    }
    sorted
}

} // verus!
