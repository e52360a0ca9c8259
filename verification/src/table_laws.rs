//! What the searches in a table of nodes come to, said of the entries of the table.

use vstd::prelude::*;

use crate::laws::node_at_finds_the_lowest;
use crate::model::{
    ancestor, cleared, displaced, is_within, moved, others, placed, stands_in, subtree, NodePlace,
};
use crate::nodes::{collect_subtree, find_node, lemma_closed_set_holds_subtree, NodeTable};
use crate::ordered::{in_order, lemma_in_order_lists, ordered_keys};
use crate::path::same_path;
use crate::placing::{exchange_nodes, lemma_child_within, move_nodes, place_node};
use crate::state::places;
use crate::tracking_laws::is_exchanged;

verus! {

/// What lies in a directory is the directory itself and whatever has its parent there; and nothing
/// else: any set that holds the directory, and with a node its children, holds all of it.
pub proof fn a_subtree_hangs_on_its_top(nodes: Map<u64, NodePlace>, top: u64, held: Set<u64>)
    ensures
        ({
            let tree = subtree(nodes, top);
            &&& nodes.contains_key(top) ==> tree.contains(top)
            &&& forall|id: u64| #[trigger] tree.contains(id) ==> nodes.contains_key(id)
            &&& forall|id: u64| #[trigger]
                nodes.contains_key(id) && (nodes[id].parent == top || tree.contains(
                    nodes[id].parent,
                )) ==> tree.contains(id)
            &&& forall|id: u64| #[trigger]
                tree.contains(id) && id != top ==> nodes[id].parent == top || tree.contains(
                    nodes[id].parent,
                )
            &&& held.contains(top) && (forall|id: u64| #[trigger]
                nodes.contains_key(id) && held.contains(nodes[id].parent) ==> held.contains(id))
                ==> tree.subset_of(held)
        }),
{
    let tree = subtree(nodes, top);
    assert(ancestor(nodes, top, 0) == Some(top));
    assert(is_within(nodes, top, top));
    assert forall|id: u64| #[trigger]
        nodes.contains_key(id) && (nodes[id].parent == top || tree.contains(
            nodes[id].parent,
        )) implies tree.contains(id) by {
        lemma_child_within(nodes, top, id);
    }
    assert forall|id: u64| #[trigger] tree.contains(id) && id != top implies nodes[id].parent == top
        || tree.contains(nodes[id].parent) by {
        let steps = choose|steps: nat| ancestor(nodes, id, steps) == Some(top);
        let parent = nodes[id].parent;
        assert(ancestor(nodes, parent, (steps - 1) as nat) == Some(top));
        assert(is_within(nodes, top, parent));
    }
    if held.contains(top) && (forall|id: u64| #[trigger]
        nodes.contains_key(id) && held.contains(nodes[id].parent) ==> held.contains(id)) {
        assert forall|id: u64| tree.contains(id) implies held.contains(id) by {
            let steps = choose|steps: nat| ancestor(nodes, id, steps) == Some(top);
            lemma_closed_set_holds_subtree(nodes, top, held, id, steps);
        }
    }
}

/// A place is cleared of every node that stands there, but for `spared` and the root, and of every
/// node whose parent leaves, but for those; and of nothing else: any set that holds these holds
/// all that leaves.
pub proof fn a_cleared_place_loses_what_stood_there(
    nodes: Map<u64, NodePlace>,
    spared: Set<u64>,
    parent: u64,
    name: Seq<u8>,
    held: Set<u64>,
)
    ensures
        ({
            let rest = cleared(nodes, spared, parent, name);
            &&& forall|id: u64| #[trigger]
                rest.contains_key(id) ==> nodes.contains_key(id) && rest[id] == nodes[id]
            &&& forall|id: u64| #[trigger]
                nodes.contains_key(id) && (spared.contains(id) || id == 1) ==> rest.contains_key(id)
            &&& forall|id: u64| #[trigger]
                nodes.contains_key(id) && !spared.contains(id) && id != 1 && nodes[id].parent
                    == parent && same_path(nodes[id].name, name) ==> !rest.contains_key(id)
            &&& forall|id: u64| #[trigger]
                nodes.contains_key(id) && !spared.contains(id) && id != 1 && nodes.contains_key(
                    nodes[id].parent,
                ) && !rest.contains_key(nodes[id].parent) ==> !rest.contains_key(id)
            &&& forall|id: u64| #[trigger]
                nodes.contains_key(id) && !rest.contains_key(id) ==> (nodes[id].parent == parent
                    && same_path(nodes[id].name, name)) || (nodes.contains_key(nodes[id].parent)
                    && !rest.contains_key(nodes[id].parent))
            &&& (forall|id: u64| #[trigger]
                nodes.contains_key(id) && !spared.contains(id) && id != 1 && ((nodes[id].parent
                    == parent && same_path(nodes[id].name, name)) || held.contains(
                    nodes[id].parent,
                )) ==> held.contains(id)) ==> forall|id: u64| #[trigger]
                nodes.contains_key(id) && !rest.contains_key(id) ==> held.contains(id)
        }),
{
    let part = others(nodes, spared);
    let gone = displaced(nodes, spared, parent, name);
    let rest = cleared(nodes, spared, parent, name);
    assert forall|id: u64| #[trigger]
        nodes.contains_key(id) && !spared.contains(id) && id != 1 && nodes[id].parent == parent
            && same_path(nodes[id].name, name) implies !rest.contains_key(id) by {
        assert(ancestor(part, id, 0) == Some(id));
        assert(is_within(part, id, id));
        assert(stands_in(part, parent, name, id, id));
    }
    assert forall|id: u64| #[trigger]
        nodes.contains_key(id) && !spared.contains(id) && id != 1 && nodes.contains_key(
            nodes[id].parent,
        ) && !rest.contains_key(nodes[id].parent) implies !rest.contains_key(id) by {
        let top = choose|top: u64| stands_in(part, parent, name, top, nodes[id].parent);
        lemma_child_within(part, top, id);
        assert(stands_in(part, parent, name, top, id));
    }
    assert forall|id: u64| #[trigger]
        nodes.contains_key(id) && !rest.contains_key(id) implies (nodes[id].parent == parent
        && same_path(nodes[id].name, name)) || (nodes.contains_key(nodes[id].parent)
        && !rest.contains_key(nodes[id].parent)) by {
        let top = choose|top: u64| stands_in(part, parent, name, top, id);
        let steps = choose|steps: nat| ancestor(part, id, steps) == Some(top);
        if steps > 0 {
            let above = nodes[id].parent;
            assert(ancestor(part, above, (steps - 1) as nat) == Some(top));
            assert(is_within(part, top, above));
            assert(part.contains_key(above));
            assert(stands_in(part, parent, name, top, above));
        }
    }
    if forall|id: u64| #[trigger]
        nodes.contains_key(id) && !spared.contains(id) && id != 1 && ((nodes[id].parent == parent
            && same_path(nodes[id].name, name)) || held.contains(nodes[id].parent))
            ==> held.contains(id) {
        assert forall|id: u64| #[trigger]
            nodes.contains_key(id) && !rest.contains_key(id) implies held.contains(id) by {
            let top = choose|top: u64| stands_in(part, parent, name, top, id);
            let steps = choose|steps: nat| ancestor(part, id, steps) == Some(top);
            assert(nodes.contains_key(top));
            assert(held.contains(top));
            assert forall|child: u64| #[trigger]
                part.contains_key(child) && held.contains(part[child].parent) implies held.contains(
                child,
            ) by {
                assert(nodes.contains_key(child));
            }
            lemma_closed_set_holds_subtree(part, top, held, id, steps);
        }
    }
}

/// Whether `held` holds every node that stands at a place, and with a node its children, as far as
/// they are neither in `stays` nor the root.
pub open spec fn holds_what_leaves(
    nodes: Map<u64, NodePlace>,
    stays: Set<u64>,
    parent: u64,
    name: Seq<u8>,
    held: Set<u64>,
) -> bool {
    forall|id: u64| #[trigger]
        nodes.contains_key(id) && !stays.contains(id) && id != 1 && ((nodes[id].parent == parent
            && same_path(nodes[id].name, name)) || held.contains(nodes[id].parent))
            ==> held.contains(id)
}

/// Whether nothing but `stays` and the root is left at a place from `before` to `after`: these
/// stay; what else stood there has left, and so has what else had its parent in something that has
/// left; and nothing more has.
#[verifier::opaque]
pub open spec fn makes_room(
    before: Map<u64, NodePlace>,
    after: Map<u64, NodePlace>,
    stays: Set<u64>,
    parent: u64,
    name: Seq<u8>,
) -> bool {
    &&& forall|id: u64| #[trigger]
        before.contains_key(id) && (stays.contains(id) || id == 1) ==> after.contains_key(id)
    &&& forall|id: u64| #[trigger]
        before.contains_key(id) && !stays.contains(id) && id != 1 && before[id].parent == parent
            && same_path(before[id].name, name) ==> !after.contains_key(id)
    &&& forall|id: u64| #[trigger]
        before.contains_key(id) && !stays.contains(id) && id != 1 && before.contains_key(
            before[id].parent,
        ) && !after.contains_key(before[id].parent) ==> !after.contains_key(id)
    &&& forall|held: Set<u64>| #[trigger]
        holds_what_leaves(before, stays, parent, name, held) ==> forall|id: u64| #[trigger]
            before.contains_key(id) && !after.contains_key(id) ==> held.contains(id)
}

/// A place that is cleared has room.
pub proof fn a_cleared_place_has_room(
    nodes: Map<u64, NodePlace>,
    spared: Set<u64>,
    parent: u64,
    name: Seq<u8>,
)
    ensures
        makes_room(nodes, cleared(nodes, spared, parent, name), spared, parent, name),
{
    reveal(makes_room);
    let rest = cleared(nodes, spared, parent, name);
    a_cleared_place_loses_what_stood_there(nodes, spared, parent, name, Set::empty());
    assert forall|held: Set<u64>| #[trigger]
        holds_what_leaves(nodes, spared, parent, name, held) implies forall|id: u64| #[trigger]
        nodes.contains_key(id) && !rest.contains_key(id) ==> held.contains(id) by {
        a_cleared_place_loses_what_stood_there(nodes, spared, parent, name, held);
    }
}

/// A node that is placed has room, where it is spared itself.
pub proof fn a_placed_node_has_room(
    nodes: Map<u64, NodePlace>,
    spared: Set<u64>,
    id: u64,
    parent: u64,
    name: Seq<u8>,
)
    requires
        spared.contains(id),
    ensures
        makes_room(nodes, placed(nodes, spared, id, parent, name), spared, parent, name),
{
    reveal(makes_room);
    let rest = cleared(nodes, spared, parent, name);
    let after = placed(nodes, spared, id, parent, name);
    a_cleared_place_has_room(nodes, spared, parent, name);
    assert forall|other: u64| #[trigger] nodes.contains_key(other) implies rest.contains_key(other)
        == after.contains_key(other) by {}
}

/// Nodes that move have room at their new place.
pub proof fn moved_nodes_have_room(
    nodes: Map<u64, NodePlace>,
    spared: Set<u64>,
    old_parent: u64,
    old_name: Seq<u8>,
    new_parent: u64,
    new_name: Seq<u8>,
)
    ensures
        makes_room(
            nodes,
            moved(nodes, spared, old_parent, old_name, new_parent, new_name),
            spared,
            new_parent,
            new_name,
        ),
{
    reveal(makes_room);
    let rest = cleared(nodes, spared, new_parent, new_name);
    let after = moved(nodes, spared, old_parent, old_name, new_parent, new_name);
    a_cleared_place_has_room(nodes, spared, new_parent, new_name);
    assert forall|id: u64| #[trigger] nodes.contains_key(id) implies rest.contains_key(id)
        == after.contains_key(id) by {}
}

/// A search by place gives the lowest node that has the parent and, as a path, the name; and it
/// gives none only where no node has them.
pub proof fn the_lowest_node_is_found(
    table: NodeTable,
    parent: u64,
    name: &[u8],
    found: Option<u64>,
)
    requires
        call_ensures(find_node, (&table, parent, name), found),
    ensures
        ({
            let nodes = places(table@);
            match found {
                Some(id) => {
                    &&& table@.contains_key(id)
                    &&& table@[id].0 == parent
                    &&& same_path(table@[id].1@, name@)
                    &&& forall|other: u64| #[trigger]
                        table@.contains_key(other) && table@[other].0 == parent && same_path(
                            table@[other].1@,
                            name@,
                        ) ==> id <= other
                },
                None => forall|other: u64| #[trigger]
                    table@.contains_key(other) && table@[other].0 == parent ==> !same_path(
                        table@[other].1@,
                        name@,
                    ),
            }
        }),
{
    let nodes = places(table@);
    node_at_finds_the_lowest(nodes, parent, name@);
    assert forall|other: u64| #[trigger] table@.contains_key(other) implies nodes.contains_key(
        other,
    ) && nodes[other].parent == table@[other].0 && nodes[other].name == table@[other].1@ by {}
}

/// The nodes that a search from `top` gives are `top`, and whatever has its parent among them.
pub proof fn a_search_gives_the_whole_subtree(
    table: NodeTable,
    top: u64,
    found: Vec<u64>,
    held: Set<u64>,
)
    requires
        table@.contains_key(top),
        call_ensures(collect_subtree, (&table, top), found),
    ensures
        found@.no_duplicates(),
        found@.contains(top),
        forall|id: u64| #[trigger] found@.contains(id) ==> table@.contains_key(id),
        forall|id: u64| #[trigger]
            table@.contains_key(id) && found@.contains(table@[id].0) ==> found@.contains(id),
        held.contains(top) && (forall|id: u64| #[trigger]
            table@.contains_key(id) && held.contains(table@[id].0) ==> held.contains(id))
            ==> forall|id: u64| #[trigger] found@.contains(id) ==> held.contains(id),
{
    let nodes = places(table@);
    let tree = subtree(nodes, top);
    a_subtree_hangs_on_its_top(nodes, top, held);
    assert forall|id: u64| #[trigger] found@.contains(id) implies table@.contains_key(id) by {
        assert(tree.contains(id));
        assert(nodes.contains_key(id));
    }
    assert forall|id: u64| #[trigger]
        table@.contains_key(id) && found@.contains(table@[id].0) implies found@.contains(id) by {
        assert(nodes.contains_key(id));
        assert(tree.contains(nodes[id].parent));
    }
    if held.contains(top) && (forall|id: u64| #[trigger]
        table@.contains_key(id) && held.contains(table@[id].0) ==> held.contains(id)) {
        assert forall|id: u64| #[trigger]
            nodes.contains_key(id) && held.contains(nodes[id].parent) implies held.contains(id) by {
            assert(table@.contains_key(id));
        }
    }
}

/// The keys of a map are walked from the lowest up, each once and none left out.
pub proof fn keys_are_walked_upwards<V>(m: std::collections::BTreeMap<u64, V>, keys: Vec<u64>)
    requires
        call_ensures(ordered_keys::<V>, (&m,), keys),
    ensures
        forall|i: int, j: int| 0 <= i < j < keys@.len() ==> keys@[i] < keys@[j],
        forall|key: u64| keys@.contains(key) <==> m@.contains_key(key),
{
    assert forall|key: u64| keys@.contains(key) <==> m@.contains_key(key) by {
        assert(keys@.contains(key) <==> m@.dom().contains(key));
    }
}

/// A finite set of numbers is listed from the lowest up, each once and none left out.
pub proof fn numbers_are_listed_upwards(ids: Set<u64>)
    requires
        ids.finite(),
    ensures
        forall|i: int, j: int|
            0 <= i < j < in_order(ids).len() ==> in_order(ids)[i] < in_order(ids)[j],
        forall|id: u64| in_order(ids).contains(id) <==> ids.contains(id),
{
    lemma_in_order_lists(ids);
}

/// A node that is placed stands there; all others that stay are where they were, and those that
/// leave stood there or lay in what left.
pub proof fn a_placed_node_stands_at_its_place(
    table: &mut NodeTable,
    spared: Vec<u64>,
    id: u64,
    parent: u64,
    name: &[u8],
)
    requires
        call_ensures(place_node, (table, &spared, id, parent, name), ()),
    ensures
        ({
            let before = places(old(table)@);
            let after = places(final(table)@);
            &&& after.contains_key(id)
            &&& after[id] == (NodePlace { parent, name: name@ })
            &&& forall|other: u64| #[trigger]
                after.contains_key(other) && other != id ==> before.contains_key(other)
                    && after[other] == before[other]
            &&& forall|other: u64| #[trigger]
                before.contains_key(other) && (spared@.contains(other) || other == 1)
                    ==> after.contains_key(other)
            &&& forall|other: u64| #[trigger]
                after.contains_key(other) && other != id && other != 1 && !spared@.contains(other)
                    ==> !(after[other].parent == parent && same_path(after[other].name, name@))
            &&& forall|other: u64| #[trigger]
                before.contains_key(other) && !after.contains_key(other) ==> (before[other].parent
                    == parent && same_path(before[other].name, name@)) || before.contains_key(
                    before[other].parent,
                ) && (before[other].parent == id || !after.contains_key(before[other].parent))
            &&& spared@.contains(id) ==> makes_room(
                before,
                after,
                spared@.to_set(),
                parent,
                name@,
            )
        }),
{
    let before = places(old(table)@);
    if spared@.contains(id) {
        a_placed_node_has_room(before, spared@.to_set(), id, parent, name@);
    }
    a_cleared_place_loses_what_stood_there(
        before,
        spared@.to_set(),
        parent,
        name@,
        Set::empty(),
    );
}

/// A move gives the nodes of a place another one, makes room there for all but `spared`, and leaves
/// every other node where it was.
pub proof fn moved_nodes_stand_at_their_new_place(
    table: &mut NodeTable,
    spared: Vec<u64>,
    old_parent: u64,
    old_name: &[u8],
    new_parent: u64,
    new_name: &[u8],
)
    requires
        call_ensures(
            move_nodes,
            (table, &spared, old_parent, old_name, new_parent, new_name),
            (),
        ),
    ensures
        ({
            let before = places(old(table)@);
            let after = places(final(table)@);
            &&& makes_room(before, after, spared@.to_set(), new_parent, new_name@)
            &&& forall|id: u64| #[trigger] after.contains_key(id) ==> before.contains_key(id)
            &&& forall|id: u64| #[trigger]
                after.contains_key(id) && before[id].parent == old_parent && same_path(
                    before[id].name,
                    old_name@,
                ) ==> after[id].parent == new_parent && after[id].name == new_name@
            &&& forall|id: u64| #[trigger]
                after.contains_key(id) && !(before[id].parent == old_parent && same_path(
                    before[id].name,
                    old_name@,
                )) ==> after[id] == before[id]
        }),
{
    let before = places(old(table)@);
    moved_nodes_have_room(
        before,
        spared@.to_set(),
        old_parent,
        old_name@,
        new_parent,
        new_name@,
    );
}

/// An exchange lets the nodes of two places change them, and leaves every other node where it was.
pub proof fn exchanged_nodes_change_places(
    table: &mut NodeTable,
    old_parent: u64,
    old_name: &[u8],
    new_parent: u64,
    new_name: &[u8],
)
    requires
        call_ensures(exchange_nodes, (table, old_parent, old_name, new_parent, new_name), ()),
    ensures
        is_exchanged(
            places(old(table)@),
            places(final(table)@),
            old_parent,
            old_name@,
            new_parent,
            new_name@,
        ),
{
}

} // verus!
