use std::collections::BTreeMap;

use virtiofs::calls::{HandleCall, HandlePlan, OpenCall, ReleaseCall, TransientOpen};
use virtiofs::requests::{
    CreateRequest, LookupRequest, MkdirRequest, OpenRequest, ReleaseRequest, RemoveRequest,
    RenameRequest,
};
use virtiofs::state::{BackendState, HandleState};
use virtiofs::tracking::TrackingFileSystem;

const ENOENT: i32 = 2;

fn tracker() -> TrackingFileSystem {
    TrackingFileSystem::new(BackendState::default())
}

fn places(entries: &[(u64, u64, &str)]) -> BTreeMap<u64, (u64, Vec<u8>)> {
    let mut table = BTreeMap::new();
    for (id, parent, name) in entries {
        table.insert(*id, (*parent, name.as_bytes().to_vec()));
    }
    table
}

fn found(t: &mut TrackingFileSystem, parent: u64, name: &str, host: u64) -> u64 {
    let request = t.lookup(parent, name.as_bytes()).unwrap();
    request.finish::<i32>(t, Ok(host)).unwrap()
}

fn opened(t: &mut TrackingFileSystem, inode: u64, flags: u32, handle: u64) {
    let request = t.open(inode, flags, 0).unwrap();
    assert_eq!(request.finish::<i32>(t, Ok(Some(handle))), Ok(Some(handle)));
}

#[test]
fn a_new_tracker_knows_the_root_only() {
    let t = tracker();
    assert_eq!(t.map_guest_inode(1), Ok(1));
    assert_eq!(t.map_guest_inode(2), Err(libc::ENOENT));
    assert_eq!(libc::ENOENT, ENOENT);
    assert_eq!(t.map_guest_handle(7), 7);
    assert!(t.state().node_mappings.is_empty());
    assert!(t.state().handles.is_empty());
}

#[test]
fn inodes_are_mapped_both_ways() {
    let mut t = tracker();
    t.map_host_inode(9, 5);
    assert_eq!(t.map_guest_inode(5), Ok(9));
    assert_eq!(t.register_host_inode(9), 5);
    assert_eq!(t.map_guest_inode(9), Err(ENOENT));
}

#[test]
fn handles_are_mapped_and_dropped() {
    let mut t = tracker();
    t.map_host_handle(30, 3);
    assert_eq!(t.map_guest_handle(3), 30);
    t.remove_handle_mapping(4);
    assert_eq!(t.map_guest_handle(3), 30);
    t.remove_handle_mapping(3);
    assert_eq!(t.map_guest_handle(3), 3);
}

#[test]
fn requests_on_unknown_inodes_are_refused() {
    let t = tracker();
    assert_eq!(t.lookup(2, b"a"), Err(ENOENT));
    assert_eq!(t.forget(2), None);
    assert_eq!(t.open(2, 0, 0), Err(ENOENT));
    assert_eq!(t.opendir(2, 0), Err(ENOENT));
    assert_eq!(t.release(2, 0, 5, false, false, None), Err(ENOENT));
    assert_eq!(t.releasedir(2, 0, 5), Err(ENOENT));
    assert_eq!(t.create(2, b"a", 0), Err(ENOENT));
    assert_eq!(t.mkdir(2, b"a"), Err(ENOENT));
    assert_eq!(t.unlink(2, b"a"), Err(ENOENT));
    assert_eq!(t.rmdir(2, b"a"), Err(ENOENT));
    assert_eq!(t.rename(2, b"a", 1, b"b", 0), Err(ENOENT));
    assert_eq!(t.rename(1, b"a", 2, b"b", 0), Err(ENOENT));
    assert_eq!(t.getattr(2, None), Err(ENOENT));
    assert_eq!(t.setattr(2, None), Err(ENOENT));
    assert_eq!(t.read(2, 5), Err(ENOENT));
    assert_eq!(t.write(2, 5), Err(ENOENT));
    assert_eq!(t.fsync(2, 5), Err(ENOENT));
    assert_eq!(t.readdir(2, 5), Err(ENOENT));
    assert_eq!(t.readdirplus(2, 5), Err(ENOENT));
}

#[test]
fn requests_carry_the_numbers_of_the_backend() {
    let mut t = tracker();
    t.map_host_inode(50, 5);
    t.map_host_inode(60, 6);
    t.map_host_handle(30, 3);
    assert_eq!(t.lookup(5, b"a"), Ok(LookupRequest { host_parent: 50, parent: 5, name: b"a" }));
    assert_eq!(t.forget(5), Some(50));
    assert_eq!(
        t.open(5, 2, 9),
        Ok(OpenRequest { call: OpenCall::File { inode: 50, flags: 2, fuse_flags: 9 }, inode: 5 })
    );
    assert_eq!(
        t.opendir(5, 4),
        Ok(OpenRequest { call: OpenCall::Dir { inode: 50, flags: 4 }, inode: 5 })
    );
    assert_eq!(
        t.release(5, 2, 3, true, false, Some(8)),
        Ok(ReleaseRequest {
            call: ReleaseCall::File {
                inode: 50,
                flags: 2,
                handle: 30,
                flush: true,
                flock: false,
                lock_owner: Some(8),
            },
            handle: 3,
        })
    );
    assert_eq!(
        t.releasedir(5, 2, 3),
        Ok(ReleaseRequest {
            call: ReleaseCall::Dir { inode: 50, flags: 2, handle: 30 },
            handle: 3,
        })
    );
    assert_eq!(
        t.create(5, b"a", 1),
        Ok(CreateRequest { host_parent: 50, parent: 5, name: b"a", flags: 1 })
    );
    assert_eq!(t.mkdir(5, b"a"), Ok(MkdirRequest { host_parent: 50, parent: 5, name: b"a" }));
    assert_eq!(t.unlink(5, b"a"), Ok(RemoveRequest { host_parent: 50, parent: 5, name: b"a" }));
    assert_eq!(t.rmdir(5, b"a"), Ok(RemoveRequest { host_parent: 50, parent: 5, name: b"a" }));
    assert_eq!(
        t.rename(5, b"a", 6, b"b", 0),
        Ok(RenameRequest {
            host_olddir: 50,
            host_newdir: 60,
            olddir: 5,
            oldname: b"a",
            newdir: 6,
            newname: b"b",
            flags: 0,
        })
    );
}

#[test]
fn attributes_are_read_and_changed_on_host_numbers() {
    let mut t = tracker();
    t.map_host_inode(50, 5);
    t.map_host_handle(30, 3);
    assert_eq!(t.getattr(5, None), Ok((50, None)));
    assert_eq!(t.getattr(5, Some(3)), Ok((50, Some(30))));
    assert_eq!(t.getattr(5, Some(0)), Ok((50, Some(0))));
    assert_eq!(t.setattr(5, None), Ok((50, None)));
    assert_eq!(t.setattr(5, Some(3)), Ok((50, Some(30))));
    assert_eq!(t.setattr(5, Some(0)), Ok((50, None)));
}

#[test]
fn failed_replies_are_answers_and_change_nothing() {
    let mut t = tracker();
    assert_eq!(t.lookup(1, b"a").unwrap().finish(&mut t, Err(13)), Err(13));
    assert_eq!(t.open(1, 0, 0).unwrap().finish(&mut t, Err(13)), Err(13));
    assert_eq!(t.opendir(1, 0).unwrap().finish(&mut t, Err(13)), Err(13));
    assert_eq!(t.create(1, b"a", 0).unwrap().finish(&mut t, Err(13)), Err(13));
    assert_eq!(t.mkdir(1, b"a").unwrap().finish(&mut t, Err(13)), Err(13));
    assert!(t.state().node_mappings.is_empty());
    assert!(t.state().handles.is_empty());

    found(&mut t, 1, "a", 2);
    opened(&mut t, 2, 0, 9);
    assert_eq!(t.unlink(1, b"a").unwrap().finish(&mut t, Err(13)), Err(13));
    assert_eq!(t.rmdir(1, b"a").unwrap().finish(&mut t, Err(13)), Err(13));
    assert_eq!(t.rename(1, b"a", 1, b"b", 0).unwrap().finish(&mut t, Err(13)), Err(13));
    let release = t.release(2, 0, 9, false, false, None).unwrap();
    assert_eq!(release.finish(&mut t, Err(13)), Err(13));
    assert_eq!(t.releasedir(2, 0, 9).unwrap().finish(&mut t, Err(13)), Err(13));
    assert_eq!(t.state().node_mappings, places(&[(2, 1, "a")]));
    assert!(t.state().handles.contains_key(&9));
}

#[test]
fn lookups_give_stable_numbers_that_lead_back() {
    let mut t = tracker();
    assert_eq!(found(&mut t, 1, "a", 12), 12);
    assert_eq!(found(&mut t, 1, "a", 12), 12);
    assert_eq!(t.map_guest_inode(12), Ok(12));
    t.map_host_inode(40, 4);
    assert_eq!(found(&mut t, 12, "b", 40), 4);
    assert_eq!(t.map_guest_inode(4), Ok(40));
    assert_eq!(t.state().node_mappings, places(&[(12, 1, "a"), (4, 12, "b")]));
}

#[test]
fn numbers_are_shared_until_something_is_restored() {
    let mut t = tracker();
    found(&mut t, 1, "a", 2);
    assert_eq!(t.mkdir(1, b"d").unwrap().finish::<i32>(&mut t, Ok(3)), Ok(3));
    let create = t.create(3, b"f", 2).unwrap();
    assert_eq!(create.finish::<i32>(&mut t, Ok((4, Some(6)))), Ok((4, Some(6))));
    assert_eq!(t.readdir_entry(8), 8);
    assert_eq!(t.readdirplus_entry(9), (9, 9));
    for n in [1, 2, 3, 4, 8, 9] {
        assert_eq!(t.map_guest_inode(n), Ok(n));
    }
    assert_eq!(t.map_guest_handle(6), 6);
}

#[test]
fn listed_entries_get_numbers_but_no_node() {
    let mut t = tracker();
    t.map_host_inode(40, 4);
    assert_eq!(t.readdir_entry(40), 4);
    assert_eq!(t.readdirplus_entry(40), (4, 4));
    assert_eq!(t.readdir_entry(41), 41);
    assert_eq!(t.map_guest_inode(41), Ok(41));
    assert!(t.state().node_mappings.is_empty());
}

#[test]
fn opened_handles_are_recorded_and_used() {
    let mut t = tracker();
    found(&mut t, 1, "f", 2);
    found(&mut t, 1, "d", 3);
    opened(&mut t, 2, 0o2, 10);
    let request = t.opendir(3, 0o200000).unwrap();
    assert_eq!(request.finish::<i32>(&mut t, Ok(Some(11))), Ok(Some(11)));
    let request = t.open(2, 0, 0).unwrap();
    assert_eq!(request.finish::<i32>(&mut t, Ok(None)), Ok(None));
    assert_eq!(t.state().handles.len(), 2);
    assert_eq!(
        t.state().handles.get(&10),
        Some(&HandleState { nodeid: 2, flags: 0o2, is_dir: false })
    );
    assert_eq!(
        t.state().handles.get(&11),
        Some(&HandleState { nodeid: 3, flags: 0o200000, is_dir: true })
    );
    assert_eq!(t.map_guest_handle(10), 10);
    assert_eq!(
        t.read(2, 10),
        Ok(HandlePlan::Ready(HandleCall { inode: 2, handle: 10, release: None }))
    );
}

#[test]
fn a_release_undoes_an_open() {
    let mut t = tracker();
    found(&mut t, 1, "f", 2);
    opened(&mut t, 2, 0, 10);
    let request = t.release(2, 0, 10, false, false, None).unwrap();
    assert_eq!(request.finish::<i32>(&mut t, Ok(())), Ok(()));
    assert!(t.state().handles.is_empty());
    t.map_host_handle(99, 10);
    t.remove_handle_mapping(10);
    assert_eq!(t.map_guest_handle(10), 10);
    assert_eq!(t.state().node_mappings, places(&[(2, 1, "f")]));

    let request = t.opendir(1, 0).unwrap();
    assert_eq!(request.finish::<i32>(&mut t, Ok(Some(12))), Ok(Some(12)));
    assert_eq!(t.releasedir(1, 0, 12).unwrap().finish::<i32>(&mut t, Ok(())), Ok(()));
    assert!(t.state().handles.is_empty());
}

#[test]
fn created_files_are_recorded_with_their_handle() {
    let mut t = tracker();
    let request = t.create(1, b"new", 0o102).unwrap();
    assert_eq!(request.finish::<i32>(&mut t, Ok((5, Some(7)))), Ok((5, Some(7))));
    assert_eq!(t.state().node_mappings, places(&[(5, 1, "new")]));
    assert_eq!(
        t.state().handles.get(&7),
        Some(&HandleState { nodeid: 5, flags: 0o102, is_dir: false })
    );
    let request = t.create(1, b"other", 0).unwrap();
    assert_eq!(request.finish::<i32>(&mut t, Ok((6, None))), Ok((6, None)));
    assert_eq!(t.state().handles.len(), 1);
}

#[test]
fn removed_directories_are_gone_with_their_contents() {
    let mut t = tracker();
    found(&mut t, 1, "d", 2);
    found(&mut t, 2, "e", 3);
    found(&mut t, 3, "f", 4);
    found(&mut t, 1, "g", 5);
    assert_eq!(t.rmdir(1, b"d").unwrap().finish::<i32>(&mut t, Ok(())), Ok(()));
    assert_eq!(t.state().node_mappings, places(&[(5, 1, "g")]));
    for gone in [2, 3, 4] {
        assert_eq!(t.map_guest_inode(gone), Err(ENOENT));
    }
    assert_eq!(t.map_guest_inode(5), Ok(5));
    assert_eq!(t.map_guest_inode(1), Ok(1));
}

#[test]
fn only_the_lowest_node_of_a_name_is_removed() {
    let mut kept = BackendState::default();
    kept.node_mappings = places(&[(7, 1, "a"), (3, 1, "a")]);
    let mut t = TrackingFileSystem::new(kept);
    t.remove_node_mapping(1, b"a");
    assert_eq!(t.state().node_mappings, places(&[(7, 1, "a")]));
    assert_eq!(t.unlink(1, b"zzz").unwrap().finish::<i32>(&mut t, Ok(())), Ok(()));
    assert_eq!(t.state().node_mappings, places(&[(7, 1, "a")]));
}

#[test]
fn removal_cleans_both_sides_of_the_translation() {
    let mut t = tracker();
    t.insert_node_mapping(5, 1, b"f");
    t.map_host_inode(9, 5);
    t.remove_node_mapping(1, b"f");
    assert_eq!(t.map_guest_inode(5), Err(ENOENT));
    assert_eq!(t.map_guest_inode(1), Ok(1));
    // The host inode is new again, and so it is registered under its own number.
    assert_eq!(t.register_host_inode(9), 9);
    assert_eq!(t.map_guest_inode(9), Ok(9));
}

#[test]
fn removal_leaves_other_inodes_with_their_numbers() {
    let mut t = tracker();
    t.map_host_inode(9, 5);
    t.map_host_inode(5, 8);
    t.insert_node_mapping(5, 1, b"f");
    t.insert_node_mapping(8, 1, b"g");
    assert_eq!(t.unlink(1, b"f").unwrap().finish::<i32>(&mut t, Ok(())), Ok(()));
    assert_eq!(found(&mut t, 1, "g", 5), 8);
    assert_eq!(t.map_guest_inode(8), Ok(5));
    assert_eq!(found(&mut t, 1, "link", 9), 9);
    assert!(t.open(9, 0, 0).is_ok());
}

#[test]
fn a_lookup_that_finds_another_inode_takes_its_place() {
    let mut t = tracker();
    found(&mut t, 1, "a", 7);
    found(&mut t, 7, "in", 8);
    found(&mut t, 1, "a", 3);
    assert_eq!(t.state().node_mappings, places(&[(3, 1, "a")]));
    // The guest may go on with the inode that it holds.
    assert_eq!(t.map_guest_inode(7), Ok(7));
    assert_eq!(t.unlink(1, b"a").unwrap().finish::<i32>(&mut t, Ok(())), Ok(()));
    assert!(t.state().node_mappings.is_empty());

    found(&mut t, 1, "b", 20);
    assert_eq!(t.mkdir(1, b"b").unwrap().finish::<i32>(&mut t, Ok(21)), Ok(21));
    assert_eq!(t.state().node_mappings, places(&[(21, 1, "b")]));
    let create = t.create(1, b"b", 0).unwrap();
    assert_eq!(create.finish::<i32>(&mut t, Ok((22, None))), Ok((22, None)));
    assert_eq!(t.state().node_mappings, places(&[(22, 1, "b")]));
}

#[test]
fn removing_a_circle_ends() {
    let mut t = tracker();
    t.insert_node_mapping(2, 3, b"a");
    t.insert_node_mapping(3, 2, b"b");
    t.remove_node_mapping(3, b"a");
    assert!(t.state().node_mappings.is_empty());
}

#[test]
fn a_rename_moves_nodes_and_back() {
    let mut t = tracker();
    found(&mut t, 1, "d", 2);
    found(&mut t, 1, "f", 3);
    found(&mut t, 2, "x", 4);
    let request = t.rename(1, b"f", 2, b"h", 0).unwrap();
    assert_eq!(request.finish::<i32>(&mut t, Ok(())), Ok(()));
    assert_eq!(t.state().node_mappings, places(&[(2, 1, "d"), (3, 2, "h"), (4, 2, "x")]));
    let request = t.rename(2, b"h", 1, b"f", 0).unwrap();
    assert_eq!(request.finish::<i32>(&mut t, Ok(())), Ok(()));
    assert_eq!(t.state().node_mappings, places(&[(2, 1, "d"), (3, 1, "f"), (4, 2, "x")]));
}

#[test]
fn other_numbers_of_an_inode_stay_with_it() {
    let mut t = tracker();
    t.map_host_inode(12, 7);
    t.insert_node_mapping(7, 1, b"f");
    let create = t.create(1, b"f", 0).unwrap();
    assert_eq!(create.finish::<i32>(&mut t, Ok((12, None))), Ok((12, None)));
    assert_eq!(t.state().node_mappings, places(&[(7, 1, "f"), (12, 1, "f")]));
    assert_eq!(found(&mut t, 1, "f", 12), 12);
    assert_eq!(t.state().node_mappings, places(&[(7, 1, "f"), (12, 1, "f")]));
    // A rename takes both along, and spares both where they stand.
    let request = t.rename(1, b"f", 1, b"g", 0).unwrap();
    assert_eq!(request.finish::<i32>(&mut t, Ok(())), Ok(()));
    assert_eq!(t.state().node_mappings, places(&[(7, 1, "g"), (12, 1, "g")]));
    t.map_host_inode(12, 30);
    t.insert_node_mapping(30, 1, b"h");
    let request = t.rename(1, b"h", 1, b"g", 0).unwrap();
    assert_eq!(request.finish::<i32>(&mut t, Ok(())), Ok(()));
    assert_eq!(t.state().node_mappings, places(&[(7, 1, "g"), (12, 1, "g"), (30, 1, "g")]));
    // Another file takes the place of all of them.
    found(&mut t, 1, "g", 40);
    assert_eq!(t.state().node_mappings, places(&[(40, 1, "g")]));
}

#[test]
fn a_rename_takes_the_place_of_what_it_replaces() {
    let mut t = tracker();
    found(&mut t, 1, "x", 2);
    found(&mut t, 1, "y", 3);
    found(&mut t, 3, "in", 4);
    let request = t.rename(1, b"x", 1, b"y", 0).unwrap();
    assert_eq!(request.finish::<i32>(&mut t, Ok(())), Ok(()));
    assert_eq!(t.state().node_mappings, places(&[(2, 1, "y")]));
    assert_eq!(t.map_guest_inode(3), Ok(3));
}

#[test]
fn an_exchange_swaps_the_two_places() {
    let mut t = tracker();
    found(&mut t, 1, "x", 2);
    found(&mut t, 1, "y", 3);
    found(&mut t, 3, "in", 4);
    let request = t.rename(1, b"x", 1, b"y", libc::RENAME_EXCHANGE).unwrap();
    assert_eq!(request.flags, 2);
    assert_eq!(request.finish::<i32>(&mut t, Ok(())), Ok(()));
    assert_eq!(t.state().node_mappings, places(&[(2, 1, "y"), (3, 1, "x"), (4, 3, "in")]));
    let request = t.rename(1, b"x", 1, b"z", libc::RENAME_NOREPLACE).unwrap();
    assert_eq!(request.finish::<i32>(&mut t, Ok(())), Ok(()));
    assert_eq!(t.state().node_mappings, places(&[(2, 1, "y"), (3, 1, "z"), (4, 3, "in")]));
}

#[test]
fn renaming_back_brings_the_path_back() {
    let mut t = tracker();
    found(&mut t, 1, "f/", 3);
    for (old, new) in [("f", "g"), ("g", "f")] {
        let request = t.rename(1, old.as_bytes(), 1, new.as_bytes(), 0).unwrap();
        assert_eq!(request.finish::<i32>(&mut t, Ok(())), Ok(()));
    }
    assert_eq!(t.state().node_mappings, places(&[(3, 1, "f")]));
}

#[test]
fn requests_without_a_handle_open_one_first() {
    let mut t = tracker();
    t.map_host_inode(50, 5);
    let read = TransientOpen {
        call: OpenCall::File { inode: 50, flags: libc::O_RDONLY as u32, fuse_flags: 0 },
        flush: false,
    };
    let write = TransientOpen {
        call: OpenCall::File { inode: 50, flags: libc::O_RDWR as u32, fuse_flags: 0 },
        flush: true,
    };
    let dir = TransientOpen { call: OpenCall::Dir { inode: 50, flags: 0 }, flush: false };
    assert_eq!(t.read(5, 0), Ok(HandlePlan::OpenFirst(read)));
    assert_eq!(t.fsync(5, 0), Ok(HandlePlan::OpenFirst(read)));
    assert_eq!(t.write(5, 0), Ok(HandlePlan::OpenFirst(write)));
    assert_eq!(t.readdir(5, 0), Ok(HandlePlan::OpenFirst(dir)));
    assert_eq!(t.readdirplus(5, 0), Ok(HandlePlan::OpenFirst(dir)));
    assert_eq!(libc::O_RDWR, 2);
    assert_eq!(libc::O_RDONLY, 0);
}

#[test]
fn transient_handles_are_released_as_they_were_opened() {
    let write =
        TransientOpen { call: OpenCall::File { inode: 50, flags: 2, fuse_flags: 0 }, flush: true };
    let release = ReleaseCall::File {
        inode: 50,
        flags: 2,
        handle: 7,
        flush: true,
        flock: false,
        lock_owner: None,
    };
    let call = write.opened::<i32>(Ok(Some(7))).unwrap();
    assert_eq!(call, HandleCall { inode: 50, handle: 7, release: Some(release) });
    assert_eq!(call.served(Ok::<usize, i32>(3)), (Some(release), Ok(3)));

    let dir = TransientOpen { call: OpenCall::Dir { inode: 50, flags: 0 }, flush: false };
    let call = dir.opened::<i32>(Ok(Some(8))).unwrap();
    assert_eq!(call.release, Some(ReleaseCall::Dir { inode: 50, flags: 0, handle: 8 }));

    assert_eq!(
        write.opened::<i32>(Ok(None)),
        Ok(HandleCall { inode: 50, handle: 0, release: None })
    );
    assert_eq!(write.opened(Err(13)), Err(13));
}
