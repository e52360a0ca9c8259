use std::collections::BTreeMap;

use virtiofs::nodes::{collect_subtree, find_node};
use virtiofs::ordered::ordered_keys;
use virtiofs::placing::{exchange_nodes, move_nodes, place_node};
use virtiofs::resolution::resolution_order;

fn table(entries: &[(u64, u64, &str)]) -> BTreeMap<u64, (u64, Vec<u8>)> {
    let mut table = BTreeMap::new();
    for (id, parent, name) in entries {
        table.insert(*id, (*parent, name.as_bytes().to_vec()));
    }
    table
}

#[test]
fn keys_come_in_ascending_order() {
    let mut m: BTreeMap<u64, bool> = BTreeMap::new();
    m.insert(9, true);
    m.insert(2, false);
    m.insert(u64::MAX, true);
    assert_eq!(ordered_keys(&m), vec![2, 9, u64::MAX]);
}

#[test]
fn the_lowest_node_of_a_name_is_found() {
    let t = table(&[(4, 1, "a"), (3, 1, "a"), (5, 2, "a"), (2, 1, "b")]);
    assert_eq!(find_node(&t, 1, b"a"), Some(3));
    assert_eq!(find_node(&t, 2, b"a"), Some(5));
    assert_eq!(find_node(&t, 1, b"c"), None);
}

#[test]
fn a_subtree_holds_all_descendants() {
    let t = table(&[(2, 1, "d"), (3, 2, "e"), (4, 3, "f"), (5, 1, "g")]);
    let mut found = collect_subtree(&t, 2);
    found.sort();
    assert_eq!(found, vec![2, 3, 4]);
    assert_eq!(collect_subtree(&t, 5), vec![5]);
}

#[test]
fn a_circle_is_collected_once() {
    let t = table(&[(2, 3, "a"), (3, 2, "b"), (4, 3, "c")]);
    let mut found = collect_subtree(&t, 2);
    found.sort();
    assert_eq!(found, vec![2, 3, 4]);
}

#[test]
fn every_node_of_the_old_name_moves() {
    let mut t = table(&[(2, 1, "a"), (3, 1, "a"), (4, 2, "a"), (5, 1, "b")]);
    move_nodes(&mut t, &vec![2, 3], 1, b"a", 7, b"z");
    assert_eq!(t, table(&[(2, 7, "z"), (3, 7, "z"), (4, 2, "a"), (5, 1, "b")]));
}

#[test]
fn a_move_drops_what_stood_at_the_new_place() {
    let mut t = table(&[(2, 1, "x"), (3, 1, "y"), (4, 3, "in"), (5, 4, "deep"), (6, 2, "own")]);
    move_nodes(&mut t, &vec![2], 1, b"x", 1, b"y");
    assert_eq!(t, table(&[(2, 1, "y"), (6, 2, "own")]));
}

#[test]
fn a_move_out_of_what_it_replaces_keeps_what_moves() {
    let mut t = table(&[(2, 1, "d"), (3, 2, "x"), (4, 3, "own"), (5, 2, "other")]);
    move_nodes(&mut t, &vec![3], 2, b"x", 1, b"d");
    assert_eq!(t, table(&[(3, 1, "d"), (4, 3, "own")]));
}

#[test]
fn a_move_to_the_same_place_drops_nothing() {
    let mut t = table(&[(2, 1, "a"), (3, 2, "b")]);
    move_nodes(&mut t, &vec![2], 1, b"a", 1, b"a/");
    assert_eq!(t, table(&[(2, 1, "a/"), (3, 2, "b")]));
}

#[test]
fn a_placed_node_takes_the_place_of_another() {
    let mut t = table(&[(2, 1, "a"), (3, 2, "b"), (4, 1, "c")]);
    place_node(&mut t, &vec![9], 9, 1, b"a");
    assert_eq!(t, table(&[(9, 1, "a"), (4, 1, "c")]));
    place_node(&mut t, &vec![9], 9, 4, b"a");
    assert_eq!(t, table(&[(9, 4, "a"), (4, 1, "c")]));
}

#[test]
fn spared_nodes_stay_where_another_is_placed() {
    let mut t = table(&[(2, 1, "a"), (3, 2, "in"), (4, 1, "a"), (5, 4, "in")]);
    place_node(&mut t, &vec![9, 2], 9, 1, b"a");
    assert_eq!(t, table(&[(2, 1, "a"), (3, 2, "in"), (9, 1, "a")]));
}

#[test]
fn the_root_is_never_dropped() {
    let mut t = table(&[(1, 2, ".."), (2, 1, "d"), (3, 1, "f")]);
    place_node(&mut t, &vec![9], 9, 1, b"d");
    assert_eq!(t, table(&[(1, 2, ".."), (9, 1, "d"), (3, 1, "f")]));
    place_node(&mut t, &vec![8], 8, 2, b"..");
    assert_eq!(t, table(&[(1, 2, ".."), (8, 2, ".."), (9, 1, "d"), (3, 1, "f")]));
}

#[test]
fn exchanged_nodes_change_places() {
    let mut t = table(&[(2, 1, "x"), (3, 7, "y"), (4, 3, "in"), (5, 1, "z")]);
    exchange_nodes(&mut t, 1, b"x", 7, b"y");
    assert_eq!(t, table(&[(2, 7, "y"), (3, 1, "x"), (4, 3, "in"), (5, 1, "z")]));
    exchange_nodes(&mut t, 1, b"x", 7, b"y");
    assert_eq!(t, table(&[(2, 1, "x"), (3, 7, "y"), (4, 3, "in"), (5, 1, "z")]));
}

#[test]
fn nodes_resolve_in_rounds_from_the_root() {
    let t = table(&[(2, 9, "deep"), (9, 5, "mid"), (5, 1, "top"), (7, 1, "other")]);
    assert_eq!(resolution_order(&t), (vec![5, 7, 9, 2], true));
}

#[test]
fn the_root_itself_is_not_looked_up() {
    let t = table(&[(1, 1, "."), (2, 1, "a")]);
    assert_eq!(resolution_order(&t), (vec![2], true));
}

#[test]
fn circles_and_strays_do_not_resolve() {
    let t = table(&[(2, 1, "a"), (3, 4, "b"), (4, 3, "c")]);
    assert_eq!(resolution_order(&t), (vec![2], false));
    let t = table(&[(2, 8, "a")]);
    assert_eq!(resolution_order(&t), (vec![], false));
    assert_eq!(resolution_order(&table(&[])), (vec![], true));
}
