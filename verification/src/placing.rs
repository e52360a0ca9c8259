//! Giving nodes their places in a table.
//!
//! A place holds one file or directory: where another comes to stand there, what stood there before
//! leaves the table with all that lies in it. Only nodes that are spared stay.

use vstd::prelude::*;
use vstd::slice::slice_to_vec;

use crate::laws::node_at_finds_the_lowest;
use crate::model::{
    ancestor, called, cleared, displaced, exchanged, is_at, is_within, moved, node_at, others,
    placed, relabelled, standing_at, stands_in, subtree, NodePlace, ROOT_ID,
};
use crate::nodes::{collect_subtree, find_node, list_holds, stands_at, NodeTable};
use crate::ordered::{lists_in_order, ordered_keys};
use crate::state::places;

verus! {

/// A chain of parents that misses `gone` is the same without it.
pub(crate) proof fn lemma_chain_without(
    nodes: Map<u64, NodePlace>,
    gone: Set<u64>,
    top: u64,
    id: u64,
    steps: nat,
)
    requires
        ancestor(nodes, id, steps) == Some(top),
        forall|below: u64| #[trigger]
            nodes.contains_key(below) && gone.contains(nodes[below].parent) ==> gone.contains(
                below,
            ),
        !gone.contains(id),
    ensures
        ancestor(nodes.remove_keys(gone), id, steps) == Some(top),
    decreases steps,
{
    if steps > 0 {
        assert(nodes.contains_key(id));
        lemma_chain_without(nodes, gone, top, nodes[id].parent, (steps - 1) as nat);
        assert(nodes.remove_keys(gone).contains_key(id));
    }
}

/// A chain of parents in a part of the nodes is one in all of them.
pub(crate) proof fn lemma_chain_within(
    nodes: Map<u64, NodePlace>,
    gone: Set<u64>,
    top: u64,
    id: u64,
    steps: nat,
)
    requires
        ancestor(nodes.remove_keys(gone), id, steps) == Some(top),
    ensures
        ancestor(nodes, id, steps) == Some(top),
    decreases steps,
{
    if steps > 0 {
        assert(nodes.remove_keys(gone).contains_key(id));
        lemma_chain_within(nodes, gone, top, nodes[id].parent, (steps - 1) as nat);
    }
}

/// What lies in a child lies in its parent.
pub(crate) proof fn lemma_child_within(nodes: Map<u64, NodePlace>, top: u64, id: u64)
    requires
        nodes.contains_key(id),
        is_within(nodes, top, nodes[id].parent),
    ensures
        is_within(nodes, top, id),
{
    let above = choose|above: nat| ancestor(nodes, nodes[id].parent, above) == Some(top);
    assert(ancestor(nodes, id, above + 1) == Some(top));
}

/// What stands at a place is what stands in one of its nodes, and what stands there without that.
proof fn lemma_standing_splits(
    nodes: Map<u64, NodePlace>,
    parent: u64,
    name: Seq<u8>,
    top: u64,
)
    requires
        called(nodes, parent, name).contains(top),
    ensures
        standing_at(nodes, parent, name) == subtree(nodes, top) + standing_at(
            nodes.remove_keys(subtree(nodes, top)),
            parent,
            name,
        ),
{
    let first = subtree(nodes, top);
    let rest = nodes.remove_keys(first);
    assert forall|below: u64| #[trigger]
        nodes.contains_key(below) && first.contains(nodes[below].parent) implies first.contains(
        below,
    ) by {
        lemma_child_within(nodes, top, below);
    }
    assert forall|id: u64| standing_at(nodes, parent, name).contains(id) implies first.contains(id)
        || standing_at(rest, parent, name).contains(id) by {
        let other = choose|other: u64| stands_in(nodes, parent, name, other, id);
        if !first.contains(id) {
            let steps = choose|steps: nat| ancestor(nodes, id, steps) == Some(other);
            lemma_chain_without(nodes, first, other, id, steps);
            assert(is_within(rest, other, id));
            assert(!first.contains(other)) by {
                if first.contains(other) {
                    lemma_within_joins(nodes, top, other, id);
                }
            }
            assert(stands_in(rest, parent, name, other, id));
        }
    }
    assert forall|id: u64|
        first.contains(id) || standing_at(rest, parent, name).contains(id) implies standing_at(
        nodes,
        parent,
        name,
    ).contains(id) by {
        if first.contains(id) {
            assert(stands_in(nodes, parent, name, top, id));
        } else {
            let other = choose|other: u64| stands_in(rest, parent, name, other, id);
            let steps = choose|steps: nat| ancestor(rest, id, steps) == Some(other);
            lemma_chain_within(nodes, first, other, id, steps);
            assert(is_within(nodes, other, id));
            assert(stands_in(nodes, parent, name, other, id));
        }
    }
    assert(standing_at(nodes, parent, name) =~= first + standing_at(rest, parent, name));
}

/// What lies in a node lies in all that the node lies in.
proof fn lemma_within_joins(nodes: Map<u64, NodePlace>, top: u64, middle: u64, id: u64)
    requires
        is_within(nodes, top, middle),
        is_within(nodes, middle, id),
    ensures
        is_within(nodes, top, id),
{
    let steps = choose|steps: nat| ancestor(nodes, id, steps) == Some(middle);
    lemma_within_joins_from(nodes, top, middle, id, steps);
}

proof fn lemma_within_joins_from(
    nodes: Map<u64, NodePlace>,
    top: u64,
    middle: u64,
    id: u64,
    steps: nat,
)
    requires
        is_within(nodes, top, middle),
        ancestor(nodes, id, steps) == Some(middle),
    ensures
        is_within(nodes, top, id),
    decreases steps,
{
    if steps > 0 {
        lemma_within_joins_from(nodes, top, middle, nodes[id].parent, (steps - 1) as nat);
        lemma_child_within(nodes, top, id);
    }
}

/// Takes the node `id` out of the table.
fn remove_one(table: &mut NodeTable, id: u64)
    ensures
        places(final(table)@) == places(old(table)@).remove(id),
{
    broadcast use vstd::laws_cmp::group_laws_cmp;

    let ghost before = places(table@);
    table.remove(&id);
    proof {
        assert(places(table@) =~= before.remove(id));
    }
}

/// Takes the nodes in `ids` out of the table.
fn remove_all(table: &mut NodeTable, ids: &Vec<u64>)
    ensures
        places(final(table)@) == places(old(table)@).remove_keys(ids@.to_set()),
{
    let ghost before = places(table@);
    let mut i: usize = 0;
    proof {
        assert(places(table@) =~= before.remove_keys(ids@.take(0).to_set()));
    }
    while i < ids.len()
        invariant
            i <= ids@.len(),
            places(table@) == before.remove_keys(ids@.take(i as int).to_set()),
        decreases ids@.len() - i,
    {
        let id = ids[i];
        remove_one(table, id);
        proof {
            lemma_take_one_more(ids@, i as int);
            assert(places(table@) =~= before.remove_keys(ids@.take(i + 1).to_set()));
        }
        i = i + 1;
    }
    proof {
        assert(ids@.take(i as int) =~= ids@);
    }
}

/// The first `i + 1` of a list are the first `i` and one more.
pub(crate) proof fn lemma_take_one_more(list: Seq<u64>, i: int)
    requires
        0 <= i < list.len(),
    ensures
        list.take(i + 1).to_set() == list.take(i).to_set().insert(list[i]),
{
    let longer = list.take(i + 1);
    let shorter = list.take(i);
    assert forall|x: u64| shorter.to_set().insert(list[i]).contains(x) implies longer.contains(
        x,
    ) by {
        if x == list[i] {
            assert(longer[i] == x);
        } else {
            let j = choose|j: int| 0 <= j < i && shorter[j] == x;
            assert(longer[j] == x);
        }
    }
    assert forall|x: u64| longer.contains(x) implies shorter.to_set().insert(list[i]).contains(
        x,
    ) by {
        let j = choose|j: int| 0 <= j < i + 1 && longer[j] == x;
        if j < i {
            assert(shorter[j] == x);
        }
    }
    assert(longer.to_set() =~= shorter.to_set().insert(list[i]));
}

/// A list holds one thing more once it is pushed.
pub(crate) proof fn lemma_pushed(list: Seq<u64>, id: u64)
    ensures
        forall|x: u64| #[trigger] list.push(id).contains(x) <==> list.contains(x) || x == id,
{
    assert forall|x: u64| #[trigger] list.push(id).contains(x) <==> list.contains(x) || x == id by {
        if list.contains(x) {
            let j = choose|j: int| 0 <= j < list.len() && list[j] == x;
            assert(list.push(id)[j] == x);
        }
        if x == id {
            assert(list.push(id)[list.len() as int] == x);
        }
    }
}

/// The nodes called `name` in `parent`.
pub(crate) fn nodes_at(table: &NodeTable, parent: u64, name: &[u8]) -> (found: Vec<u64>)
    ensures
        found@.to_set() == called(places(table@), parent, name@),
{
    let ids = ordered_keys(table);
    let ghost nodes = places(table@);
    let mut found: Vec<u64> = Vec::new();
    let mut i: usize = 0;
    while i < ids.len()
        invariant
            nodes == places(table@),
            lists_in_order(ids@, table@.dom()),
            i <= ids@.len(),
            forall|x: u64| #[trigger]
                found@.contains(x) <==> ids@.take(i as int).contains(x) && is_at(
                    nodes[x],
                    parent,
                    name@,
                ),
        decreases ids@.len() - i,
    {
        let id = ids[i];
        proof {
            assert(ids@.contains(id));
            lemma_take_one_more(ids@, i as int);
            assert(forall|x: u64| #[trigger]
                ids@.take(i + 1).contains(x) <==> ids@.take(i + 1).to_set().contains(x));
            assert(forall|x: u64| #[trigger]
                ids@.take(i as int).contains(x) <==> ids@.take(i as int).to_set().contains(x));
        }
        if stands_at(table, id, parent, name) {
            let ghost before = found@;
            found.push(id);
            proof {
                lemma_pushed(before, id);
            }
        }
        i = i + 1;
    }
    proof {
        assert(ids@.take(i as int) =~= ids@);
        assert forall|x: u64| found@.to_set().contains(x) <==> called(
            nodes,
            parent,
            name@,
        ).contains(x) by {
            assert(found@.to_set().contains(x) <==> found@.contains(x));
            assert(ids@.contains(x) <==> table@.dom().contains(x));
        }
        assert(found@.to_set() =~= called(nodes, parent, name@));
    }
    found
}

proof fn lemma_nothing_stands(nodes: Map<u64, NodePlace>, parent: u64, name: Seq<u8>)
    requires
        called(nodes, parent, name) == Set::<u64>::empty(),
    ensures
        standing_at(nodes, parent, name) == Set::<u64>::empty(),
{
    assert forall|id: u64| !standing_at(nodes, parent, name).contains(id) by {
        if standing_at(nodes, parent, name).contains(id) {
            let top = choose|top: u64| stands_in(nodes, parent, name, top, id);
            assert(called(nodes, parent, name).contains(top));
        }
    }
    assert(standing_at(nodes, parent, name) =~= Set::empty());
}

/// Where nobody but `spared` and the root stands, nothing has to leave.
pub(crate) proof fn lemma_free_place_displaces_none(
    nodes: Map<u64, NodePlace>,
    spared: Set<u64>,
    parent: u64,
    name: Seq<u8>,
)
    requires
        called(nodes, parent, name).subset_of(spared.insert(ROOT_ID)),
    ensures
        displaced(nodes, spared, parent, name) == Set::<u64>::empty(),
        cleared(nodes, spared, parent, name) == nodes,
{
    assert forall|id: u64| !called(others(nodes, spared), parent, name).contains(id) by {
        assert(called(nodes, parent, name).contains(id) ==> spared.insert(ROOT_ID).contains(id));
    }
    assert(called(others(nodes, spared), parent, name) =~= Set::empty());
    lemma_nothing_stands(others(nodes, spared), parent, name);
    assert(cleared(nodes, spared, parent, name) =~= nodes);
}

/// Whether nobody but `spared` and the root is called `name` in `parent`.
fn place_is_free(table: &NodeTable, spared: &Vec<u64>, parent: u64, name: &[u8]) -> (free: bool)
    ensures
        free == called(places(table@), parent, name@).subset_of(spared@.to_set().insert(ROOT_ID)),
{
    let standing = nodes_at(table, parent, name);
    let ghost here = called(places(table@), parent, name@);
    let ghost kept = spared@.to_set().insert(ROOT_ID);
    let mut i: usize = 0;
    while i < standing.len()
        invariant
            here == called(places(table@), parent, name@),
            standing@.to_set() == here,
            kept == spared@.to_set().insert(ROOT_ID),
            i <= standing@.len(),
            forall|j: int| 0 <= j < i ==> kept.contains(#[trigger] standing@[j]),
        decreases standing@.len() - i,
    {
        let id = standing[i];
        if id != ROOT_ID && !list_holds(spared, id) {
            proof {
                assert(standing@.contains(id));
                assert(here.contains(id) && !kept.contains(id));
            }
            return false;
        }
        i = i + 1;
    }
    proof {
        assert forall|id: u64| here.contains(id) implies kept.contains(id) by {
            assert(standing@.to_set().contains(id));
            let j = choose|j: int| 0 <= j < standing@.len() && standing@[j] == id;
            assert(standing@[j] == id);
        }
    }
    true
}

/// Takes what has to leave out of the table, so that only `spared` are called `name` in `parent`.
fn clear_place(table: &mut NodeTable, spared: &Vec<u64>, parent: u64, name: &[u8])
    ensures
        places(final(table)@) == cleared(
            places(old(table)@),
            spared@.to_set(),
            parent,
            name@,
        ),
{
    if place_is_free(table, spared, parent, name) {
        proof {
            lemma_free_place_displaces_none(places(table@), spared@.to_set(), parent, name@);
        }
        return;
    }
    let ghost nodes = places(table@);
    let ghost part = others(nodes, spared@.to_set());
    let ghost goal = standing_at(part, parent, name@);
    let keys = ordered_keys(table);
    let mut rest = table.clone();
    remove_all(&mut rest, spared);
    remove_one(&mut rest, ROOT_ID);
    let ghost mut gone: Set<u64> = Set::empty();
    proof {
        assert(places(rest@) =~= part);
        assert(places(rest@) =~= part.remove_keys(gone));
        assert(places(table@) =~= nodes.remove_keys(gone));
        assert(goal =~= gone + goal);
        assert(nodes.dom() =~= keys@.to_set()) by {
            assert forall|x: u64| nodes.dom().contains(x) <==> keys@.to_set().contains(x) by {
                assert(keys@.contains(x) <==> table@.dom().contains(x));
            }
        }
        assert(part.dom().subset_of(nodes.dom()));
        vstd::set_lib::lemma_len_subset(part.dom(), nodes.dom());
    }
    let mut found = find_node(&rest, parent, name);
    while found.is_some()
        invariant
            part.dom().finite(),
            places(rest@) == part.remove_keys(gone),
            places(table@) == nodes.remove_keys(gone),
            goal == gone + standing_at(places(rest@), parent, name@),
            found == node_at(places(rest@), parent, name@),
        decreases places(rest@).dom().len(),
    {
        let top = match found {
            Some(top) => top,
            None => ROOT_ID,
        };
        let ghost left = places(rest@);
        proof {
            node_at_finds_the_lowest(left, parent, name@);
            assert(called(left, parent, name@).contains(top));
        }
        let doomed = collect_subtree(&rest, top);
        remove_all(&mut rest, &doomed);
        remove_all(table, &doomed);
        proof {
            let first = subtree(left, top);
            assert(doomed@.to_set() =~= first);
            lemma_standing_splits(left, parent, name@, top);
            assert(places(rest@) =~= part.remove_keys(gone + first));
            assert(places(table@) =~= nodes.remove_keys(gone + first));
            assert(goal =~= (gone + first) + standing_at(places(rest@), parent, name@));
            gone = gone + first;
            assert(ancestor(left, top, 0) == Some(top));
            assert(is_within(left, top, top));
            assert(first.contains(top));
            assert(left.dom().subset_of(part.dom()));
            vstd::set_lib::lemma_len_subset(left.dom(), part.dom());
            assert(places(rest@).dom().subset_of(left.dom().remove(top)));
            vstd::set_lib::lemma_len_subset(places(rest@).dom(), left.dom().remove(top));
        }
        found = find_node(&rest, parent, name);
    }
    proof {
        let left = places(rest@);
        node_at_finds_the_lowest(left, parent, name@);
        assert(called(left, parent, name@) =~= Set::empty());
        lemma_nothing_stands(left, parent, name@);
        assert(goal =~= gone);
    }
}

/// Calls the node `id` by `name` in `parent`; what else stood there leaves the table, but for
/// `spared`.
pub fn place_node(table: &mut NodeTable, spared: &Vec<u64>, id: u64, parent: u64, name: &[u8])
    ensures
        places(final(table)@) == placed(
            places(old(table)@),
            spared@.to_set(),
            id,
            parent,
            name@,
        ),
{
    broadcast use vstd::laws_cmp::group_laws_cmp;

    clear_place(table, spared, parent, name);
    let ghost rest = places(table@);
    let component = slice_to_vec(name);
    table.insert(id, (parent, component));
    proof {
        assert(places(table@) =~= rest.insert(id, NodePlace { parent, name: name@ }));
    }
}

/// Moves every node called `old_name` in `old_parent` to `new_name` in `new_parent`; what else
/// stood there leaves the table, but for `spared`.
pub fn move_nodes(
    table: &mut NodeTable,
    spared: &Vec<u64>,
    old_parent: u64,
    old_name: &[u8],
    new_parent: u64,
    new_name: &[u8],
)
    ensures
        places(final(table)@) == moved(
            places(old(table)@),
            spared@.to_set(),
            old_parent,
            old_name@,
            new_parent,
            new_name@,
        ),
{
    clear_place(table, spared, new_parent, new_name);
    relabel_nodes(table, old_parent, old_name, new_parent, new_name);
}

/// Calls every node that is called `old_name` in `old_parent` by `new_name` in `new_parent`.
fn relabel_nodes(
    table: &mut NodeTable,
    old_parent: u64,
    old_name: &[u8],
    new_parent: u64,
    new_name: &[u8],
)
    ensures
        places(final(table)@) == relabelled(
            places(old(table)@),
            old_parent,
            old_name@,
            new_parent,
            new_name@,
        ),
{
    broadcast use vstd::laws_cmp::group_laws_cmp;

    let ids = ordered_keys(table);
    let ghost before = places(table@);
    let ghost after = relabelled(before, old_parent, old_name@, new_parent, new_name@);
    let mut i: usize = 0;
    while i < ids.len()
        invariant
            vstd::laws_cmp::obeys_cmp::<u64>(),
            after == relabelled(before, old_parent, old_name@, new_parent, new_name@),
            lists_in_order(ids@, before.dom()),
            i <= ids@.len(),
            places(table@).dom() == before.dom(),
            forall|j: int|
                0 <= j < i ==> places(table@)[#[trigger] ids@[j]] == after[ids@[j]],
            forall|j: int|
                i <= j < ids@.len() ==> places(table@)[#[trigger] ids@[j]] == before[ids@[j]],
        decreases ids@.len() - i,
    {
        let id = ids[i];
        proof {
            assert(ids@.contains(id));
            assert(before.dom().contains(id));
            assert(places(table@).contains_key(id));
        }
        if stands_at(table, id, old_parent, old_name) {
            let ghost earlier = places(table@);
            let name = slice_to_vec(new_name);
            table.insert(id, (new_parent, name));
            proof {
                assert(places(table@) =~= earlier.insert(
                    id,
                    NodePlace { parent: new_parent, name: new_name@ },
                ));
                assert(places(table@).dom() =~= before.dom());
            }
        }
        i = i + 1;
    }
    proof {
        assert forall|id: u64| before.contains_key(id) implies places(table@)[id] == after[id] by {
            assert(before.dom().contains(id));
            assert(ids@.contains(id));
            let j = choose|j: int| 0 <= j < ids@.len() && ids@[j] == id;
            assert(ids@[j] == id);
        }
        assert(places(table@).dom() == after.dom());
        assert(places(table@) =~= after);
    }
}

/// Lets what is called `old_name` in `old_parent` and what is called `new_name` in `new_parent`
/// change places.
pub fn exchange_nodes(
    table: &mut NodeTable,
    old_parent: u64,
    old_name: &[u8],
    new_parent: u64,
    new_name: &[u8],
)
    ensures
        places(final(table)@) == exchanged(
            places(old(table)@),
            old_parent,
            old_name@,
            new_parent,
            new_name@,
        ),
{
    broadcast use vstd::laws_cmp::group_laws_cmp;

    let ids = ordered_keys(table);
    let ghost before = places(table@);
    let ghost after = exchanged(before, old_parent, old_name@, new_parent, new_name@);
    let mut i: usize = 0;
    while i < ids.len()
        invariant
            vstd::laws_cmp::obeys_cmp::<u64>(),
            after == exchanged(before, old_parent, old_name@, new_parent, new_name@),
            lists_in_order(ids@, before.dom()),
            i <= ids@.len(),
            places(table@).dom() == before.dom(),
            forall|j: int|
                0 <= j < i ==> places(table@)[#[trigger] ids@[j]] == after[ids@[j]],
            forall|j: int|
                i <= j < ids@.len() ==> places(table@)[#[trigger] ids@[j]] == before[ids@[j]],
        decreases ids@.len() - i,
    {
        let id = ids[i];
        proof {
            assert(ids@.contains(id));
            assert(before.dom().contains(id));
            assert(places(table@).contains_key(id));
        }
        if stands_at(table, id, old_parent, old_name) {
            let ghost earlier = places(table@);
            let name = slice_to_vec(new_name);
            table.insert(id, (new_parent, name));
            proof {
                assert(places(table@) =~= earlier.insert(
                    id,
                    NodePlace { parent: new_parent, name: new_name@ },
                ));
                assert(places(table@).dom() =~= before.dom());
            }
        } else if stands_at(table, id, new_parent, new_name) {
            let ghost earlier = places(table@);
            let name = slice_to_vec(old_name);
            table.insert(id, (old_parent, name));
            proof {
                assert(places(table@) =~= earlier.insert(
                    id,
                    NodePlace { parent: old_parent, name: old_name@ },
                ));
                assert(places(table@).dom() =~= before.dom());
            }
        }
        i = i + 1;
    }
    proof {
        assert forall|id: u64| before.contains_key(id) implies places(table@)[id] == after[id] by {
            assert(before.dom().contains(id));
            assert(ids@.contains(id));
            let j = choose|j: int| 0 <= j < ids@.len() && ids@[j] == id;
            assert(ids@[j] == id);
        }
        assert(places(table@).dom() == after.dom());
        assert(places(table@) =~= after);
    }
}

} // verus!
