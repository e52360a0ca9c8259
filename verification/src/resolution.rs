//! The order in which the nodes of a snapshot are found again.
//!
//! A node can be looked up once its parent has been. So the nodes are taken in rounds, from the
//! root down, and in the order of their ids within a round.

use vstd::prelude::*;

use crate::model::{ancestor, is_within, NodePlace, ROOT_ID};
use crate::nodes::{lemma_distinct_within, list_holds, parent_of, NodeTable};
use crate::ordered::{
    lists_in_order, ordered_keys, sorted_list_exists, sorted_lists_agree,
};
use crate::state::places;

verus! {

/// Whether the chain of parents of `id` comes to the root for the first time after `rounds` steps.
pub open spec fn resolves_in(nodes: Map<u64, NodePlace>, id: u64, rounds: nat) -> bool {
    &&& ancestor(nodes, id, rounds) == Some(ROOT_ID)
    &&& forall|fewer: nat| fewer < rounds ==> ancestor(nodes, id, fewer) != Some(ROOT_ID)
}

/// The round in which `id` can be looked up: how far it lies below the root.
pub open spec fn round_of(nodes: Map<u64, NodePlace>, id: u64) -> nat {
    choose|rounds: nat| resolves_in(nodes, id, rounds)
}

/// Whether `a` is looked up before `b`.
pub open spec fn comes_before(nodes: Map<u64, NodePlace>, a: u64, b: u64) -> bool {
    ||| round_of(nodes, a) < round_of(nodes, b)
    ||| round_of(nodes, a) == round_of(nodes, b) && a < b
}

/// Whether the node `id` has to be, and can be, looked up: it is not the root, and it lies in it.
pub open spec fn is_resolvable(nodes: Map<u64, NodePlace>, id: u64) -> bool {
    nodes.contains_key(id) && id != ROOT_ID && is_within(nodes, ROOT_ID, id)
}

/// Whether `order` lists every node that can be looked up, in the order of the lookups.
pub open spec fn is_resolution_order(nodes: Map<u64, NodePlace>, order: Seq<u64>) -> bool {
    &&& forall|id: u64| order.contains(id) <==> is_resolvable(nodes, id)
    &&& forall|i: int, j: int|
        0 <= i < j < order.len() ==> comes_before(nodes, order[i], order[j])
}

/// The nodes that can be looked up, in the order of the lookups.
pub open spec fn resolution_sequence(nodes: Map<u64, NodePlace>) -> Seq<u64> {
    choose|order: Seq<u64>| is_resolution_order(nodes, order)
}

/// `resolution_sequence` gives the one list that `is_resolution_order` admits.
pub proof fn lemma_resolution_sequence(nodes: Map<u64, NodePlace>, order: Seq<u64>)
    requires
        is_resolution_order(nodes, order),
    ensures
        order == resolution_sequence(nodes),
{
    let chosen = resolution_sequence(nodes);
    assert(is_resolution_order(nodes, chosen));
    assert forall|id: u64| order.contains(id) <==> chosen.contains(id) by {
        assert(order.contains(id) <==> is_resolvable(nodes, id));
        assert(chosen.contains(id) <==> is_resolvable(nodes, id));
    }
    sorted_lists_agree(order, chosen, |a: u64, b: u64| comes_before(nodes, a, b));
}

/// The nodes of a finite table have a resolution order.
pub proof fn lemma_resolution_exists(nodes: Map<u64, NodePlace>)
    requires
        nodes.dom().finite(),
    ensures
        is_resolution_order(nodes, resolution_sequence(nodes)),
{
    let members = Set::new(|id: u64| is_resolvable(nodes, id));
    assert(members.subset_of(nodes.dom()));
    vstd::set_lib::lemma_len_subset(members, nodes.dom());
    let before = |a: u64, b: u64| comes_before(nodes, a, b);
    let list = sorted_list_exists(members, before);
    assert forall|i: int, j: int| 0 <= i < j < list.len() implies comes_before(
        nodes,
        list[i],
        list[j],
    ) by {
        assert(before(list[i], list[j]));
    }
    assert forall|id: u64| list.contains(id) <==> is_resolvable(nodes, id) by {
        assert(list.contains(id) <==> members.contains(id));
    }
    assert(is_resolution_order(nodes, list));
}

/// Whether every node but the root lies in the root.
pub open spec fn all_resolvable(nodes: Map<u64, NodePlace>) -> bool {
    forall|id: u64| nodes.contains_key(id) && id != ROOT_ID ==> is_within(nodes, ROOT_ID, id)
}

pub(crate) proof fn lemma_round_unique(nodes: Map<u64, NodePlace>, id: u64, rounds: nat)
    requires
        resolves_in(nodes, id, rounds),
    ensures
        round_of(nodes, id) == rounds,
{
    let chosen = round_of(nodes, id);
    assert(resolves_in(nodes, id, chosen));
    if chosen < rounds {
        assert(ancestor(nodes, id, chosen) != Some(ROOT_ID));
    }
    if rounds < chosen {
        assert(ancestor(nodes, id, rounds) != Some(ROOT_ID));
    }
}

/// A node that reaches the root reaches it for a first time.
pub(crate) proof fn lemma_first_time(nodes: Map<u64, NodePlace>, id: u64, steps: nat) -> (rounds:
    nat)
    requires
        ancestor(nodes, id, steps) == Some(ROOT_ID),
    ensures
        resolves_in(nodes, id, rounds),
        rounds <= steps,
    decreases steps,
{
    if exists|fewer: nat| fewer < steps && ancestor(nodes, id, fewer) == Some(ROOT_ID) {
        let fewer = choose|fewer: nat|
            fewer < steps && ancestor(nodes, id, fewer) == Some(ROOT_ID);
        lemma_first_time(nodes, id, fewer)
    } else {
        steps
    }
}

pub(crate) proof fn lemma_within_has_round(nodes: Map<u64, NodePlace>, id: u64)
    requires
        is_within(nodes, ROOT_ID, id),
    ensures
        resolves_in(nodes, id, round_of(nodes, id)),
{
    let steps = choose|steps: nat| ancestor(nodes, id, steps) == Some(ROOT_ID);
    let rounds = lemma_first_time(nodes, id, steps);
    lemma_round_unique(nodes, id, rounds);
}

/// A node below the root is one round later than its parent.
pub(crate) proof fn lemma_round_of_child(nodes: Map<u64, NodePlace>, id: u64, rounds: nat)
    requires
        id != ROOT_ID,
    ensures
        resolves_in(nodes, id, rounds + 1) <==> nodes.contains_key(id) && resolves_in(
            nodes,
            nodes[id].parent,
            rounds,
        ),
{
    if nodes.contains_key(id) {
        let parent = nodes[id].parent;
        assert forall|n: nat| ancestor(nodes, id, n + 1) == ancestor(nodes, parent, n) by {}
        if resolves_in(nodes, parent, rounds) {
            assert forall|fewer: nat| fewer < rounds + 1 implies ancestor(nodes, id, fewer) != Some(
                ROOT_ID,
            ) by {
                if fewer > 0 {
                    assert(ancestor(nodes, parent, (fewer - 1) as nat) != Some(ROOT_ID));
                }
            }
        }
        if resolves_in(nodes, id, rounds + 1) {
            assert forall|fewer: nat| fewer < rounds implies ancestor(nodes, parent, fewer) != Some(
                ROOT_ID,
            ) by {
                assert(ancestor(nodes, id, fewer + 1) != Some(ROOT_ID));
            }
        }
    }
}

/// Below a round without nodes there are none.
proof fn lemma_no_deeper_round(nodes: Map<u64, NodePlace>, empty: nat, id: u64, rounds: nat)
    requires
        empty > 0,
        forall|other: u64| nodes.contains_key(other) ==> !resolves_in(nodes, other, empty),
        nodes.contains_key(id),
        rounds >= empty,
    ensures
        !resolves_in(nodes, id, rounds),
    decreases rounds,
{
    if resolves_in(nodes, id, rounds) && rounds > empty {
        assert(id != ROOT_ID) by {
            assert(ancestor(nodes, id, 0) != Some(ROOT_ID));
        }
        lemma_round_of_child(nodes, id, (rounds - 1) as nat);
        let parent = nodes[id].parent;
        assert(nodes.contains_key(parent));
        lemma_no_deeper_round(nodes, empty, parent, (rounds - 1) as nat);
    }
}

/// Whether one of the first `count` members of `list` is `id`.
fn prefix_holds(list: &Vec<u64>, count: usize, id: u64) -> (held: bool)
    requires
        count <= list@.len(),
    ensures
        held == list@.take(count as int).contains(id),
{
    let mut i: usize = 0;
    while i < count
        invariant
            i <= count <= list@.len(),
            forall|j: int| 0 <= j < i ==> list@[j] != id,
        decreases count - i,
    {
        if list[i] == id {
            proof {
                assert(list@.take(count as int)[i as int] == id);
            }
            return true;
        }
        i = i + 1;
    }
    false
}

/// Whether `list` holds the root and the nodes of the rounds up to `rounds`, in order.
spec fn holds_rounds(nodes: Map<u64, NodePlace>, list: Seq<u64>, rounds: nat) -> bool {
    &&& list.len() > 0
    &&& list[0] == ROOT_ID
    &&& forall|id: u64|
        list.contains(id) <==> id == ROOT_ID || is_resolvable(nodes, id) && round_of(nodes, id)
            <= rounds
    &&& forall|i: int, j: int| 0 <= i < j < list.len() ==> comes_before(nodes, list[i], list[j])
}

proof fn lemma_root_round(nodes: Map<u64, NodePlace>)
    ensures
        resolves_in(nodes, ROOT_ID, 0),
        round_of(nodes, ROOT_ID) == 0,
{
    lemma_round_unique(nodes, ROOT_ID, 0);
}

/// Where the rounds up to `rounds` are resolved, those that can be looked up next are the nodes
/// of the next round.
proof fn lemma_next_round(nodes: Map<u64, NodePlace>, list: Seq<u64>, rounds: nat, id: u64)
    requires
        holds_rounds(nodes, list, rounds),
        nodes.contains_key(id),
    ensures
        !list.contains(id) && list.contains(nodes[id].parent) <==> resolves_in(
            nodes,
            id,
            rounds + 1,
        ),
{
    let parent = nodes[id].parent;
    lemma_root_round(nodes);
    if id == ROOT_ID {
        assert(ancestor(nodes, id, 0) == Some(ROOT_ID));
        assert(list[0] == id);
    } else {
        lemma_round_of_child(nodes, id, rounds);
        if resolves_in(nodes, id, rounds + 1) {
            lemma_round_unique(nodes, id, rounds + 1);
            lemma_round_unique(nodes, parent, rounds);
            if parent != ROOT_ID {
                assert(rounds > 0);
                assert(nodes.contains_key(parent));
                assert(is_within(nodes, ROOT_ID, parent));
            }
        }
        if !list.contains(id) && list.contains(parent) {
            if parent != ROOT_ID {
                lemma_within_has_round(nodes, parent);
            }
            let earlier = round_of(nodes, parent);
            lemma_round_of_child(nodes, id, earlier);
            assert(resolves_in(nodes, id, earlier + 1));
            lemma_round_unique(nodes, id, earlier + 1);
            assert(is_within(nodes, ROOT_ID, id));
        }
    }
}

/// The members of a list of rounds are distinct, so there are no more of them than nodes and root.
proof fn lemma_rounds_bounded(
    nodes: Map<u64, NodePlace>,
    list: Seq<u64>,
    rounds: nat,
    ids: Seq<u64>,
)
    requires
        holds_rounds(nodes, list, rounds),
        lists_in_order(ids, nodes.dom()),
    ensures
        list.len() <= ids.len() + 1,
{
    let rest = list.drop_first();
    assert forall|i: int| 0 <= i < rest.len() implies ids.contains(#[trigger] rest[i]) by {
        assert(list[i + 1] == rest[i]);
        assert(list.contains(rest[i]));
        assert(comes_before(nodes, list[0], list[i + 1]));
        assert(nodes.dom().contains(rest[i]));
    }
    assert forall|i: int, j: int| 0 <= i < j < rest.len() implies rest[i] != rest[j] by {
        assert(comes_before(nodes, list[i + 1], list[j + 1]));
    }
    lemma_distinct_within(rest, ids);
}

/// The nodes in the order in which they are looked up, and whether that is all of them.
pub fn resolution_order(table: &NodeTable) -> (resolved: (Vec<u64>, bool))
    ensures
        resolved.0@ == resolution_sequence(places(table@)),
        is_resolution_order(places(table@), resolved.0@),
        resolved.1 == all_resolvable(places(table@)),
{
    let ids = ordered_keys(table);
    let ghost nodes = places(table@);
    proof {
        assert(nodes.dom() =~= table@.dom());
    }
    let mut list: Vec<u64> = Vec::new();
    list.push(ROOT_ID);
    let ghost mut rounds: nat = 0;
    proof {
        lemma_root_round(nodes);
        assert(list@ =~= seq![ROOT_ID]);
        assert forall|id: u64| is_resolvable(nodes, id) implies round_of(nodes, id) > 0 by {
            lemma_within_has_round(nodes, id);
            assert(ancestor(nodes, id, 0) == Some(id));
        }
        assert(list@[0] == ROOT_ID);
        assert(holds_rounds(nodes, list@, 0));
    }
    let mut progress: bool = true;
    while progress
        invariant
            nodes == places(table@),
            nodes.dom() == table@.dom(),
            lists_in_order(ids@, table@.dom()),
            holds_rounds(nodes, list@, rounds),
            !progress ==> forall|id: u64|
                nodes.contains_key(id) ==> !resolves_in(nodes, id, rounds + 1),
        decreases (if progress { 1int } else { 0 }) + ids@.len() + 1 - list@.len(),
    {
        let count = list.len();
        let ghost start = list@;
        let mut k: usize = 0;
        while k < ids.len()
            invariant
                nodes == places(table@),
                nodes.dom() == table@.dom(),
                lists_in_order(ids@, table@.dom()),
                holds_rounds(nodes, start, rounds),
                count == start.len(),
                count <= list@.len(),
                k <= ids@.len(),
                list@.take(count as int) == start,
                forall|i: int|
                    count <= i < list@.len() ==> nodes.contains_key(#[trigger] list@[i])
                        && resolves_in(nodes, list@[i], rounds + 1),
                forall|i: int, j: int|
                    #![trigger list@[i], ids@[j]]
                    count <= i < list@.len() && k <= j < ids@.len() ==> list@[i] < ids@[j],
                forall|i: int, j: int| count <= i < j < list@.len() ==> list@[i] < list@[j],
                forall|j: int|
                    0 <= j < k && resolves_in(nodes, #[trigger] ids@[j], rounds + 1)
                        ==> list@.contains(ids@[j]),
            decreases ids@.len() - k,
        {
            let id = ids[k];
            let ghost before = list@;
            proof {
                assert(ids@.contains(id));
                assert(table@.dom().contains(id));
                lemma_next_round(nodes, start, rounds, id);
            }
            if !prefix_holds(&list, count, id) && prefix_holds(&list, count, parent_of(table, id)) {
                list.push(id);
                proof {
                    assert(list@.take(count as int) =~= start);
                    assert(list@[before.len() as int] == id);
                    assert forall|j: int|
                        0 <= j < k + 1 && resolves_in(
                            nodes,
                            #[trigger] ids@[j],
                            rounds + 1,
                        ) implies list@.contains(ids@[j]) by {
                        if j < k {
                            let i = choose|i: int| 0 <= i < before.len() && before[i] == ids@[j];
                            assert(list@[i] == ids@[j]);
                        }
                    }
                }
            }
            k = k + 1;
        }
        proof {
            assert forall|i: int| 0 <= i < count implies list@[i] == start[i] by {
                assert(list@.take(count as int)[i] == start[i]);
            }
            assert forall|id: u64|
                list@.contains(id) <==> id == ROOT_ID || is_resolvable(nodes, id) && round_of(
                    nodes,
                    id,
                ) <= rounds + 1 by {
                if list@.contains(id) {
                    let i = choose|i: int| 0 <= i < list@.len() && list@[i] == id;
                    if i < count {
                        assert(start[i] == id);
                        assert(start.contains(id));
                    } else {
                        assert(resolves_in(nodes, list@[i], rounds + 1));
                        lemma_round_unique(nodes, id, rounds + 1);
                        assert(ancestor(nodes, id, 0) != Some(ROOT_ID));
                    }
                }
                if id == ROOT_ID || is_resolvable(nodes, id) && round_of(nodes, id) <= rounds {
                    assert(start.contains(id));
                    let i = choose|i: int| 0 <= i < start.len() && start[i] == id;
                    assert(list@[i] == id);
                } else if is_resolvable(nodes, id) && round_of(nodes, id) == rounds + 1 {
                    lemma_within_has_round(nodes, id);
                    assert(table@.dom().contains(id));
                    assert(ids@.contains(id));
                    let j = choose|j: int| 0 <= j < ids@.len() && ids@[j] == id;
                    assert(list@.contains(ids@[j]));
                }
            }
            assert forall|i: int, j: int| 0 <= i < j < list@.len() implies comes_before(
                nodes,
                list@[i],
                list@[j],
            ) by {
                if j < count {
                    assert(comes_before(nodes, start[i], start[j]));
                } else {
                    lemma_round_unique(nodes, list@[j], rounds + 1);
                    if i < count {
                        assert(start.contains(start[i]));
                        lemma_root_round(nodes);
                    } else {
                        lemma_round_unique(nodes, list@[i], rounds + 1);
                    }
                }
            }
            assert(list@[0] == start[0]);
            assert(holds_rounds(nodes, list@, rounds + 1));
            lemma_rounds_bounded(nodes, list@, rounds + 1, ids@);
        }
        if list.len() == count {
            progress = false;
            proof {
                assert(list@ =~= start);
                assert forall|id: u64| nodes.contains_key(id) implies !resolves_in(
                    nodes,
                    id,
                    rounds + 1,
                ) by {
                    if resolves_in(nodes, id, rounds + 1) {
                        lemma_next_round(nodes, start, rounds, id);
                        assert(table@.dom().contains(id));
                        assert(ids@.contains(id));
                        let j = choose|j: int| 0 <= j < ids@.len() && ids@[j] == id;
                        assert(list@.contains(ids@[j]));
                    }
                }
            }
        } else {
            proof {
                rounds = rounds + 1;
            }
        }
    }
    let mut order: Vec<u64> = Vec::new();
    let mut i: usize = 1;
    while i < list.len()
        invariant
            list@.len() > 0,
            1 <= i <= list@.len(),
            order@ == list@.subrange(1, i as int),
        decreases list@.len() - i,
    {
        order.push(list[i]);
        i = i + 1;
        proof {
            assert(order@ =~= list@.subrange(1, i as int));
        }
    }
    let complete = all_listed(&ids, &list);
    proof {
        assert forall|id: u64| is_resolvable(nodes, id) implies list@.contains(id) by {
            lemma_within_has_round(nodes, id);
            if round_of(nodes, id) > rounds {
                lemma_no_deeper_round(nodes, rounds + 1, id, round_of(nodes, id));
            }
        }
        assert forall|id: u64| order@.contains(id) <==> is_resolvable(nodes, id) by {
            if is_resolvable(nodes, id) {
                let i = choose|i: int| 0 <= i < list@.len() && list@[i] == id;
                assert(order@[i - 1] == id);
            }
            if order@.contains(id) {
                let i = choose|i: int| 0 <= i < order@.len() && order@[i] == id;
                assert(list@[i + 1] == id);
                assert(comes_before(nodes, list@[0], list@[i + 1]));
            }
        }
        assert forall|i: int, j: int| 0 <= i < j < order@.len() implies comes_before(
            nodes,
            order@[i],
            order@[j],
        ) by {
            assert(comes_before(nodes, list@[i + 1], list@[j + 1]));
        }
        if complete {
            assert forall|id: u64| nodes.contains_key(id) && id != ROOT_ID implies is_within(
                nodes,
                ROOT_ID,
                id,
            ) by {
                assert(table@.dom().contains(id));
                assert(ids@.contains(id));
                assert(list@.contains(id));
            }
        } else if all_resolvable(nodes) {
            let missing = choose|id: u64| ids@.contains(id) && !list@.contains(id);
            assert(table@.dom().contains(missing));
            assert(list@[0] == ROOT_ID);
            assert(list@.contains(ROOT_ID));
            assert(nodes.contains_key(missing) && missing != ROOT_ID);
            assert(is_within(nodes, ROOT_ID, missing));
            assert(is_resolvable(nodes, missing));
            assert(false);
        }
        assert(complete == all_resolvable(nodes));
    }
    proof {
        lemma_resolution_sequence(nodes, order@);
    }
    (order, complete)
}

/// Whether every member of `ids` is a member of `list`.
fn all_listed(ids: &Vec<u64>, list: &Vec<u64>) -> (all: bool)
    ensures
        all <==> forall|id: u64| ids@.contains(id) ==> list@.contains(id),
{
    let mut i: usize = 0;
    while i < ids.len()
        invariant
            i <= ids@.len(),
            forall|j: int| 0 <= j < i ==> list@.contains(#[trigger] ids@[j]),
        decreases ids@.len() - i,
    {
        if !list_holds(list, ids[i]) {
            proof {
                assert(ids@.contains(ids@[i as int]));
            }
            return false;
        }
        i = i + 1;
    }
    true
}

} // verus!
