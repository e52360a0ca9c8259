//! Walking a `BTreeMap` keyed by ids in the order of its keys.

use std::collections::BTreeMap;

use vstd::prelude::*;

verus! {

/// `s` lists ids in strictly ascending order.
pub open spec fn ascending(s: Seq<u64>) -> bool {
    forall|i: int, j: int| 0 <= i < j < s.len() ==> s[i] < s[j]
}

/// `s` lists exactly the ids of `ids`, in ascending order.
pub open spec fn lists_in_order(s: Seq<u64>, ids: Set<u64>) -> bool {
    &&& ascending(s)
    &&& forall|id: u64| s.contains(id) <==> ids.contains(id)
}

/// The ids of `ids` in ascending order.
pub open spec fn in_order(ids: Set<u64>) -> Seq<u64> {
    choose|s: Seq<u64>| lists_in_order(s, ids)
}

/// Two lists of the same members that are sorted by the same strict order are one list.
pub proof fn sorted_lists_agree<T>(a: Seq<T>, b: Seq<T>, before: spec_fn(T, T) -> bool)
    requires
        forall|x: T, y: T| #[trigger] before(x, y) ==> !before(y, x),
        forall|i: int, j: int| 0 <= i < j < a.len() ==> before(a[i], a[j]),
        forall|i: int, j: int| 0 <= i < j < b.len() ==> before(b[i], b[j]),
        forall|x: T| a.contains(x) <==> b.contains(x),
    ensures
        a == b,
    decreases a.len(),
{
    if a.len() == 0 {
        if b.len() > 0 {
            assert(b.contains(b[0]));
        }
        assert(a =~= b);
    } else {
        assert(a.contains(a[0]));
        assert(b.contains(a[0]));
        let i = choose|i: int| 0 <= i < b.len() && b[i] == a[0];
        assert(b.contains(b[0]));
        let j = choose|j: int| 0 <= j < a.len() && a[j] == b[0];
        assert(a[0] == b[0]) by {
            if i > 0 && j > 0 {
                assert(before(b[0], b[i]));
                assert(before(a[0], a[j]));
            }
        }
        let (a1, b1) = (a.drop_first(), b.drop_first());
        assert forall|x: T| a1.contains(x) <==> b1.contains(x) by {
            if a1.contains(x) {
                let k = choose|k: int| 0 <= k < a1.len() && a1[k] == x;
                assert(a[k + 1] == x);
                assert(b.contains(x));
                let l = choose|l: int| 0 <= l < b.len() && b[l] == x;
                assert(before(a[0], a[k + 1]));
                assert(l > 0);
                assert(b1[l - 1] == x);
            }
            if b1.contains(x) {
                let k = choose|k: int| 0 <= k < b1.len() && b1[k] == x;
                assert(b[k + 1] == x);
                assert(a.contains(x));
                let l = choose|l: int| 0 <= l < a.len() && a[l] == x;
                assert(before(b[0], b[k + 1]));
                assert(l > 0);
                assert(a1[l - 1] == x);
            }
        }
        sorted_lists_agree(a1, b1, before);
        assert(a =~= seq![a[0]] + a1);
        assert(b =~= seq![b[0]] + b1);
    }
}

/// Whether `before` puts any two different values in one order.
pub open spec fn is_strict_order<T>(before: spec_fn(T, T) -> bool) -> bool {
    &&& forall|x: T, y: T| #[trigger] before(x, y) ==> !before(y, x)
    &&& forall|x: T, y: T, z: T| #[trigger]
        before(x, y) && #[trigger] before(y, z) ==> before(x, z)
    &&& forall|x: T, y: T| x != y ==> #[trigger] before(x, y) || before(y, x)
}

proof fn lemma_first_of<T>(members: Set<T>, before: spec_fn(T, T) -> bool) -> (first: T)
    requires
        is_strict_order(before),
        members.finite(),
        members.len() > 0,
    ensures
        members.contains(first),
        forall|x: T| members.contains(x) && x != first ==> before(first, x),
    decreases members.len(),
{
    let a = members.choose();
    let rest = members.remove(a);
    assert(members.contains(a)) by {
        vstd::set::axiom_set_choose_len(members);
    }
    if rest.len() == 0 {
        assert forall|x: T| members.contains(x) && x != a implies before(a, x) by {
            assert(rest.contains(x));
        }
        a
    } else {
        let b = lemma_first_of(rest, before);
        if before(a, b) {
            a
        } else {
            b
        }
    }
}

/// The members of a finite set can be listed in any strict order.
pub proof fn sorted_list_exists<T>(members: Set<T>, before: spec_fn(T, T) -> bool) -> (list: Seq<T>)
    requires
        is_strict_order(before),
        members.finite(),
    ensures
        forall|x: T| list.contains(x) <==> members.contains(x),
        forall|i: int, j: int| 0 <= i < j < list.len() ==> before(list[i], list[j]),
    decreases members.len(),
{
    if members.len() == 0 {
        let list = Seq::<T>::empty();
        assert forall|x: T| members.contains(x) implies list.contains(x) by {
            assert(members.remove(x).len() < members.len());
        }
        list
    } else {
        let first = lemma_first_of(members, before);
        let rest = sorted_list_exists(members.remove(first), before);
        let list = seq![first] + rest;
        assert forall|x: T| list.contains(x) <==> members.contains(x) by {
            if list.contains(x) {
                let i = choose|i: int| 0 <= i < list.len() && list[i] == x;
                if i > 0 {
                    assert(rest[i - 1] == x);
                    assert(rest.contains(x));
                }
            }
            if members.contains(x) {
                if x == first {
                    assert(list[0] == x);
                } else {
                    assert(members.remove(first).contains(x));
                    assert(rest.contains(x));
                    let i = choose|i: int| 0 <= i < rest.len() && rest[i] == x;
                    assert(list[i + 1] == x);
                }
            }
        }
        assert forall|i: int, j: int| 0 <= i < j < list.len() implies before(list[i], list[j]) by {
            assert(rest.contains(rest[j - 1]));
            assert(list[j] == rest[j - 1]);
            if i > 0 {
                assert(list[i] == rest[i - 1]);
                assert(before(rest[i - 1], rest[j - 1]));
            }
        }
        list
    }
}

/// A finite set of ids is listed by `in_order`.
pub proof fn lemma_in_order_lists(ids: Set<u64>)
    requires
        ids.finite(),
    ensures
        lists_in_order(in_order(ids), ids),
{
    let before = |a: u64, b: u64| a < b;
    let list = sorted_list_exists(ids, before);
    assert forall|i: int, j: int| 0 <= i < j < list.len() implies list[i] < list[j] by {
        assert(before(list[i], list[j]));
    }
    assert(lists_in_order(list, ids));
}

/// `in_order` gives the one list that `lists_in_order` admits.
pub proof fn lemma_in_order(s: Seq<u64>, ids: Set<u64>)
    requires
        lists_in_order(s, ids),
    ensures
        s == in_order(ids),
{
    sorted_lists_agree(s, in_order(ids), |a: u64, b: u64| a < b);
}

/// The keys of `m` in ascending order, as `BTreeMap::iter` visits them.
pub fn ordered_keys<V>(m: &BTreeMap<u64, V>) -> (keys: Vec<u64>)
    ensures
        lists_in_order(keys@, m@.dom()),
{
    broadcast use vstd::laws_cmp::group_laws_cmp;
    broadcast use vstd::std_specs::btree::group_btree_axioms;

    let mut keys: Vec<u64> = Vec::new();
    let entries = m.iter();
    let ghost visited = vstd::std_specs::iter::IteratorSpec::remaining(&entries);
    for kv in it: entries
        invariant
            it.seq() == visited,
            keys@.len() == it.index(),
            forall|i: int| 0 <= i < keys@.len() ==> keys@[i] == *visited[i].0,
    {
        keys.push(*kv.0);
    }
    proof {
        let order = visited.map_values(|kv: (&u64, &V)| *kv.0);
        assert(keys@ =~= order);
        assert(vstd::std_specs::btree::increasing_seq(order));
        assert forall|i: int, j: int| 0 <= i < j < keys@.len() implies keys@[i] < keys@[j] by {
            assert(vstd::std_specs::cmp::OrdSpec::cmp_spec(&order[i], &order[j]) is Less);
        }
        assert forall|id: u64| keys@.contains(id) implies m@.dom().contains(id) by {
            let i = choose|i: int| 0 <= i < keys@.len() && keys@[i] == id;
            assert(m@.contains_key(*visited[i].0));
        }
        assert forall|id: u64| m@.dom().contains(id) implies keys@.contains(id) by {
            assert(m@.contains_key(id));
            let i = visited.index_of((&id, &m@[id]));
            assert(keys@[i] == id);
        }
    }
    keys
}

} // verus!
