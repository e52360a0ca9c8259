//! Searching a table of nodes.

use std::collections::BTreeMap;

use vstd::prelude::*;

use crate::model::{ancestor, is_at, is_first_at, is_within, node_at, subtree, NodePlace};
use crate::ordered::{ascending, lists_in_order, ordered_keys};
use crate::path::paths_equal;
use crate::state::places;

verus! {

/// A table of nodes: the parent and the name of each.
pub type NodeTable = BTreeMap<u64, (u64, Vec<u8>)>;

/// The parent of the node `id`.
pub(crate) fn parent_of(table: &NodeTable, id: u64) -> (parent: u64)
    requires
        table@.contains_key(id),
    ensures
        parent == places(table@)[id].parent,
{
    broadcast use vstd::laws_cmp::group_laws_cmp;

    match table.get(&id) {
        Some(place) => place.0,
        None => 0,
    }
}

/// Whether the node `id` is called `name` in `parent`.
pub(crate) fn stands_at(table: &NodeTable, id: u64, parent: u64, name: &[u8]) -> (found: bool)
    requires
        table@.contains_key(id),
    ensures
        found == is_at(places(table@)[id], parent, name@),
{
    broadcast use vstd::laws_cmp::group_laws_cmp;

    match table.get(&id) {
        Some(place) => place.0 == parent && paths_equal(place.1.as_slice(), name),
        None => false,
    }
}

/// The lowest node called `name` in `parent`, if there is one.
pub fn find_node(table: &NodeTable, parent: u64, name: &[u8]) -> (found: Option<u64>)
    ensures
        found == node_at(places(table@), parent, name@),
{
    let ids = ordered_keys(table);
    let ghost nodes = places(table@);
    let mut i: usize = 0;
    while i < ids.len()
        invariant
            nodes == places(table@),
            lists_in_order(ids@, table@.dom()),
            i <= ids@.len(),
            forall|j: int| 0 <= j < i ==> !is_at(nodes[#[trigger] ids@[j]], parent, name@),
        decreases ids@.len() - i,
    {
        proof {
            assert(ids@.contains(ids@[i as int]));
        }
        if stands_at(table, ids[i], parent, name) {
            let id = ids[i];
            proof {
                assert forall|other: u64| #[trigger]
                    nodes.contains_key(other) && is_at(nodes[other], parent, name@) implies id
                    <= other by {
                    assert(table@.dom().contains(other));
                    assert(ids@.contains(other));
                    let j = choose|j: int| 0 <= j < ids@.len() && ids@[j] == other;
                    assert(ids@[j] == other);
                }
                assert(is_first_at(nodes, parent, name@, id));
                let chosen = choose|id: u64| is_first_at(nodes, parent, name@, id);
                assert(is_first_at(nodes, parent, name@, chosen));
                assert(nodes.contains_key(chosen) && nodes.contains_key(id));
            }
            return Some(id);
        }
        i = i + 1;
    }
    proof {
        assert forall|id: u64| !is_first_at(nodes, parent, name@, id) by {
            if nodes.contains_key(id) {
                assert(table@.dom().contains(id));
                assert(ids@.contains(id));
                let j = choose|j: int| 0 <= j < ids@.len() && ids@[j] == id;
                assert(ids@[j] == id);
            }
        }
    }
    None
}

/// A set of known nodes that holds `top`, and every child of what it holds, holds all that lies
/// in `top`.
pub(crate) proof fn lemma_closed_set_holds_subtree(
    nodes: Map<u64, NodePlace>,
    top: u64,
    held: Set<u64>,
    id: u64,
    steps: nat,
)
    requires
        held.contains(top),
        forall|child: u64| #[trigger]
            nodes.contains_key(child) && held.contains(nodes[child].parent) ==> held.contains(
                child,
            ),
        ancestor(nodes, id, steps) == Some(top),
    ensures
        held.contains(id),
    decreases steps,
{
    if steps > 0 {
        lemma_closed_set_holds_subtree(nodes, top, held, nodes[id].parent, (steps - 1) as nat);
    }
}

/// `top` and the nodes that lie in it.
pub fn collect_subtree(table: &NodeTable, top: u64) -> (found: Vec<u64>)
    requires
        table@.contains_key(top),
    ensures
        found@.no_duplicates(),
        forall|id: u64| found@.contains(id) <==> subtree(places(table@), top).contains(id),
{
    let ids = ordered_keys(table);
    let ghost nodes = places(table@);
    let mut found: Vec<u64> = Vec::new();
    found.push(top);
    proof {
        assert(found@ =~= seq![top]);
        assert(found@[0] == top);
        assert(ancestor(nodes, top, 0) == Some(top));
        assert(is_within(nodes, top, top));
    }
    let mut next: usize = 0;
    while next < found.len()
        invariant
            nodes == places(table@),
            lists_in_order(ids@, table@.dom()),
            next <= found@.len(),
            found@.no_duplicates(),
            found@.contains(top),
            forall|i: int| 0 <= i < found@.len() ==> ids@.contains(#[trigger] found@[i]),
            forall|i: int|
                0 <= i < found@.len() ==> is_within(nodes, top, #[trigger] found@[i]),
            // Whatever has been visited has all its children on the list.
            forall|i: int, j: int|
                #![trigger found@[i], ids@[j]]
                0 <= i < next && 0 <= j < ids@.len() && nodes[ids@[j]].parent == found@[i]
                    ==> found@.contains(ids@[j]),
        decreases ids@.len() - next,
    {
        proof {
            lemma_distinct_within(found@, ids@);
        }
        let pid = found[next];
        let mut k: usize = 0;
        while k < ids.len()
            invariant
                nodes == places(table@),
                lists_in_order(ids@, table@.dom()),
                k <= ids@.len(),
                next < found@.len(),
                pid == found@[next as int],
                found@.no_duplicates(),
                found@.contains(top),
                forall|i: int| 0 <= i < found@.len() ==> ids@.contains(#[trigger] found@[i]),
                forall|i: int|
                    0 <= i < found@.len() ==> is_within(nodes, top, #[trigger] found@[i]),
                forall|i: int, j: int|
                    #![trigger found@[i], ids@[j]]
                    0 <= i < next && 0 <= j < ids@.len() && nodes[ids@[j]].parent == found@[i]
                        ==> found@.contains(ids@[j]),
                forall|j: int|
                    0 <= j < k && nodes[#[trigger] ids@[j]].parent == pid ==> found@.contains(
                        ids@[j],
                    ),
            decreases ids@.len() - k,
        {
            let id = ids[k];
            proof {
                assert(ids@.contains(id));
                assert(table@.contains_key(id));
            }
            if parent_of(table, id) == pid && !list_holds(&found, id) {
                let ghost before = found@;
                found.push(id);
                proof {
                    assert(is_within(nodes, top, id)) by {
                        let steps = choose|steps: nat| ancestor(nodes, pid, steps) == Some(top);
                        assert(ancestor(nodes, id, steps + 1) == Some(top));
                    }
                    assert forall|x: u64| before.contains(x) implies found@.contains(x) by {
                        let i = choose|i: int| 0 <= i < before.len() && before[i] == x;
                        assert(found@[i] == x);
                    }
                    assert(found@[before.len() as int] == id);
                    assert forall|i: int, j: int|
                        #![trigger found@[i], ids@[j]]
                        0 <= i < next && 0 <= j < ids@.len() && nodes[ids@[j]].parent
                            == found@[i] implies found@.contains(ids@[j]) by {
                        assert(before[i] == found@[i]);
                    }
                }
            }
            k = k + 1;
        }
        next = next + 1;
    }
    proof {
        let held = found@.to_set();
        assert forall|child: u64| #[trigger]
            nodes.contains_key(child) && held.contains(nodes[child].parent) implies held.contains(
            child,
        ) by {
            assert(table@.dom().contains(child));
            assert(ids@.contains(child));
            let j = choose|j: int| 0 <= j < ids@.len() && ids@[j] == child;
            let p = nodes[child].parent;
            let i = choose|i: int| 0 <= i < found@.len() && found@[i] == p;
            assert(found@[i] == nodes[ids@[j]].parent);
        }
        assert forall|id: u64| subtree(nodes, top).contains(id) implies found@.contains(id) by {
            let steps = choose|steps: nat| ancestor(nodes, id, steps) == Some(top);
            lemma_closed_set_holds_subtree(nodes, top, held, id, steps);
        }
        assert forall|id: u64| found@.contains(id) implies subtree(nodes, top).contains(id) by {
            let i = choose|i: int| 0 <= i < found@.len() && found@[i] == id;
            assert(ids@.contains(found@[i]));
            assert(table@.dom().contains(id));
        }
    }
    found
}

/// Whether `list` holds `id`.
pub(crate) fn list_holds(list: &Vec<u64>, id: u64) -> (held: bool)
    ensures
        held == list@.contains(id),
{
    let mut i: usize = 0;
    while i < list.len()
        invariant
            i <= list@.len(),
            forall|j: int| 0 <= j < i ==> list@[j] != id,
        decreases list@.len() - i,
    {
        if list[i] == id {
            return true;
        }
        i = i + 1;
    }
    false
}

/// A list of distinct members of `all` is no longer than `all`.
pub(crate) proof fn lemma_distinct_within(list: Seq<u64>, all: Seq<u64>)
    requires
        list.no_duplicates(),
        ascending(all),
        forall|i: int| 0 <= i < list.len() ==> all.contains(#[trigger] list[i]),
    ensures
        list.len() <= all.len(),
{
    broadcast use vstd::set_lib::group_set_properties;

    list.unique_seq_to_set();
    assert(all.no_duplicates());
    all.unique_seq_to_set();
    assert(list.to_set().subset_of(all.to_set()));
    vstd::set_lib::lemma_len_subset(list.to_set(), all.to_set());
}

} // verus!
