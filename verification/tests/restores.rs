use std::collections::BTreeMap;

use virtiofs::calls::OpenCall;
use virtiofs::errno::FsError;
use virtiofs::restore::RestoreStep;
use virtiofs::state::{BackendState, HandleState};
use virtiofs::tracking::TrackingFileSystem;

/// The calls that a restore made, and what the backing file system replies to them.
struct Backing {
    inodes: BTreeMap<(u64, Vec<u8>), Result<u64, i32>>,
    handles: Vec<Result<Option<u64>, i32>>,
    lookups: Vec<(u64, Vec<u8>)>,
    opens: Vec<OpenCall>,
}

impl Backing {
    fn new(inodes: &[(u64, &str, u64)], handles: &[Result<Option<u64>, i32>]) -> Self {
        let mut table = BTreeMap::new();
        for (parent, name, inode) in inodes {
            table.insert((*parent, name.as_bytes().to_vec()), Ok(*inode));
        }
        Backing { inodes: table, handles: handles.to_vec(), lookups: Vec::new(), opens: Vec::new() }
    }

    fn restore(&mut self, tracker: &mut TrackingFileSystem) -> Result<(), FsError<i32>> {
        let mut step = tracker.restore_state::<i32>();
        loop {
            step = match step {
                RestoreStep::Lookup(pending) => {
                    let key = (pending.host_parent, pending.name.clone());
                    let reply = match self.inodes.get(&key) {
                        Some(reply) => *reply,
                        None => Err(20),
                    };
                    self.lookups.push(key);
                    pending.resume(tracker, reply)
                }
                RestoreStep::Open(pending) => {
                    let reply = self.handles[self.opens.len()];
                    self.opens.push(pending.call);
                    pending.resume(tracker, reply)
                }
                RestoreStep::Done(outcome) => return outcome,
            };
        }
    }
}

fn snapshot(nodes: &[(u64, u64, &str)], handles: &[(u64, u64, u32, bool)]) -> BackendState {
    let mut state = BackendState::default();
    for (id, parent, name) in nodes {
        state.node_mappings.insert(*id, (*parent, name.as_bytes().to_vec()));
    }
    for (handle, nodeid, flags, is_dir) in handles {
        let kept = HandleState { nodeid: *nodeid, flags: *flags, is_dir: *is_dir };
        state.handles.insert(*handle, kept);
    }
    state
}

#[test]
fn an_empty_snapshot_is_restored_without_a_call() {
    let mut t = TrackingFileSystem::new(snapshot(&[], &[]));
    let mut backing = Backing::new(&[], &[]);
    assert_eq!(backing.restore(&mut t), Ok(()));
    assert!(backing.lookups.is_empty());
    assert!(backing.opens.is_empty());
    assert_eq!(t.map_guest_inode(1), Ok(1));
}

#[test]
fn nodes_are_found_by_their_paths_parents_first() {
    let mut t = TrackingFileSystem::new(snapshot(&[(2, 9, "f"), (9, 1, "d"), (4, 1, "g")], &[]));
    let mut backing = Backing::new(&[(1, "d", 70), (1, "g", 71), (70, "f", 72)], &[]);
    assert_eq!(backing.restore(&mut t), Ok(()));
    assert_eq!(
        backing.lookups,
        vec![(1, b"g".to_vec()), (1, b"d".to_vec()), (70, b"f".to_vec())]
    );
    assert_eq!(t.map_guest_inode(9), Ok(70));
    assert_eq!(t.map_guest_inode(4), Ok(71));
    assert_eq!(t.map_guest_inode(2), Ok(72));
    assert_eq!(t.map_guest_inode(1), Ok(1));
}

#[test]
fn open_files_are_opened_again() {
    let kept = snapshot(&[(2, 1, "d"), (3, 2, "f")], &[(8, 2, 0o200000, true), (5, 3, 2, false)]);
    let mut t = TrackingFileSystem::new(kept);
    let mut backing =
        Backing::new(&[(1, "d", 20), (20, "f", 30)], &[Ok(Some(90)), Ok(Some(91))]);
    assert_eq!(backing.restore(&mut t), Ok(()));
    assert_eq!(
        backing.opens,
        vec![
            OpenCall::File { inode: 30, flags: 2, fuse_flags: 0 },
            OpenCall::Dir { inode: 20, flags: 0o200000 },
        ]
    );
    assert_eq!(t.map_guest_handle(5), 90);
    assert_eq!(t.map_guest_handle(8), 91);
}

#[test]
fn restored_numbers_lead_back_to_their_inodes() {
    let mut t = TrackingFileSystem::new(snapshot(&[(2, 1, "a"), (3, 1, "b")], &[]));
    let mut backing = Backing::new(&[(1, "a", 20), (1, "b", 30)], &[]);
    assert_eq!(backing.restore(&mut t), Ok(()));
    for (guest, host) in [(2, 20), (3, 30)] {
        assert_eq!(t.register_host_inode(host), guest);
        assert_eq!(t.map_guest_inode(guest), Ok(host));
    }
    assert_eq!(t.lookup(1, b"a").unwrap().finish::<i32>(&mut t, Ok(20)), Ok(2));
}

#[test]
fn a_missing_path_ends_the_restore_with_its_error() {
    let mut t = TrackingFileSystem::new(snapshot(&[(2, 1, "a"), (3, 1, "b"), (4, 1, "c")], &[]));
    let mut backing = Backing::new(&[(1, "a", 20), (1, "c", 40)], &[]);
    assert_eq!(backing.restore(&mut t), Err(FsError::Backend(20)));
    assert_eq!(backing.lookups.len(), 2);
}

#[test]
fn circular_and_dangling_nodes_are_invalid() {
    let mut t = TrackingFileSystem::new(snapshot(&[(2, 3, "a"), (3, 2, "b"), (4, 1, "c")], &[]));
    let mut backing = Backing::new(&[(1, "c", 40)], &[]);
    assert_eq!(backing.restore(&mut t), Err(FsError::Os(libc::EINVAL)));
    assert_eq!(backing.lookups, vec![(1, b"c".to_vec())]);
    let mut t = TrackingFileSystem::new(snapshot(&[(2, 77, "a")], &[(5, 1, 0, true)]));
    let mut backing = Backing::new(&[], &[Ok(Some(1))]);
    assert_eq!(backing.restore(&mut t), Err(FsError::Os(22)));
    assert!(backing.opens.is_empty());
}

#[test]
fn a_handle_that_cannot_be_opened_ends_the_restore() {
    let kept = [(5, 2, 0, false), (6, 1, 0, true)];
    let mut t = TrackingFileSystem::new(snapshot(&[(2, 1, "a")], &kept));
    let mut backing = Backing::new(&[(1, "a", 20)], &[Err(13), Ok(Some(1))]);
    assert_eq!(backing.restore(&mut t), Err(FsError::Backend(13)));
    assert_eq!(backing.opens.len(), 1);

    let mut t = TrackingFileSystem::new(snapshot(&[(2, 1, "a")], &kept));
    let mut backing = Backing::new(&[(1, "a", 20)], &[Ok(Some(90)), Ok(None)]);
    assert_eq!(backing.restore(&mut t), Err(FsError::Os(libc::EIO)));
    assert_eq!(libc::EIO, 5);
}

#[test]
fn an_open_unlinked_file_fails_the_restore() {
    let mut t = TrackingFileSystem::new(BackendState::default());
    assert_eq!(t.lookup(1, b"f").unwrap().finish::<i32>(&mut t, Ok(2)), Ok(2));
    assert_eq!(t.open(2, 0, 0).unwrap().finish::<i32>(&mut t, Ok(Some(7))), Ok(Some(7)));
    assert_eq!(t.unlink(1, b"f").unwrap().finish::<i32>(&mut t, Ok(())), Ok(()));

    let mut restored = TrackingFileSystem::new(t.state().clone());
    let mut backing = Backing::new(&[(1, "f", 20)], &[Ok(Some(90))]);
    assert_eq!(backing.restore(&mut restored), Err(FsError::Os(libc::ENOENT)));
    assert!(backing.opens.is_empty());
}

#[test]
fn an_open_replaced_file_fails_the_restore() {
    let mut t = TrackingFileSystem::new(BackendState::default());
    assert_eq!(t.lookup(1, b"x").unwrap().finish::<i32>(&mut t, Ok(2)), Ok(2));
    assert_eq!(t.lookup(1, b"y").unwrap().finish::<i32>(&mut t, Ok(3)), Ok(3));
    assert_eq!(t.open(3, 0, 0).unwrap().finish::<i32>(&mut t, Ok(Some(7))), Ok(Some(7)));
    let rename = t.rename(1, b"x", 1, b"y", 0).unwrap();
    assert_eq!(rename.finish::<i32>(&mut t, Ok(())), Ok(()));

    let mut restored = TrackingFileSystem::new(t.state().clone());
    let mut backing = Backing::new(&[(1, "y", 20)], &[Ok(Some(90))]);
    assert_eq!(backing.restore(&mut restored), Err(FsError::Os(libc::ENOENT)));
    assert_eq!(backing.lookups, vec![(1, b"y".to_vec())]);
    assert!(backing.opens.is_empty());
}

#[test]
fn a_replaced_file_that_was_closed_is_not_missed() {
    let mut t = TrackingFileSystem::new(BackendState::default());
    assert_eq!(t.lookup(1, b"x").unwrap().finish::<i32>(&mut t, Ok(2)), Ok(2));
    assert_eq!(t.lookup(1, b"y").unwrap().finish::<i32>(&mut t, Ok(3)), Ok(3));
    assert_eq!(t.open(2, 0, 0).unwrap().finish::<i32>(&mut t, Ok(Some(7))), Ok(Some(7)));
    let rename = t.rename(1, b"x", 1, b"y", 0).unwrap();
    assert_eq!(rename.finish::<i32>(&mut t, Ok(())), Ok(()));

    let mut restored = TrackingFileSystem::new(t.state().clone());
    let mut backing = Backing::new(&[(1, "y", 20)], &[Ok(Some(90))]);
    assert_eq!(backing.restore(&mut restored), Ok(()));
    assert_eq!(restored.map_guest_inode(2), Ok(20));
    assert_eq!(restored.map_guest_inode(3), Err(libc::ENOENT));
    assert_eq!(restored.map_guest_handle(7), 90);
}

#[test]
fn two_numbers_of_one_open_file_are_restored() {
    let mut t = TrackingFileSystem::new(snapshot(&[(7, 1, "f")], &[]));
    let mut backing = Backing::new(&[(1, "f", 12)], &[]);
    assert_eq!(backing.restore(&mut t), Ok(()));
    assert_eq!(t.open(7, 0, 0).unwrap().finish::<i32>(&mut t, Ok(Some(3))), Ok(Some(3)));
    let create = t.create(1, b"f", 0).unwrap();
    assert_eq!(create.finish::<i32>(&mut t, Ok((12, None))), Ok((12, None)));
    assert_eq!(t.lookup(1, b"f").unwrap().finish::<i32>(&mut t, Ok(12)), Ok(12));
    let kept = snapshot(&[(7, 1, "f"), (12, 1, "f")], &[(3, 7, 0, false)]);
    assert_eq!(t.state().node_mappings, kept.node_mappings);
    assert_eq!(t.state().handles, kept.handles);

    let mut restored = TrackingFileSystem::new(t.state().clone());
    let mut backing = Backing::new(&[(1, "f", 50)], &[Ok(Some(90))]);
    assert_eq!(backing.restore(&mut restored), Ok(()));
    assert_eq!(restored.map_guest_inode(7), Ok(50));
    assert_eq!(restored.map_guest_inode(12), Ok(50));
    assert_eq!(restored.map_guest_handle(3), 90);
}

#[test]
fn only_what_was_kept_is_known_after_a_restore() {
    let mut t = TrackingFileSystem::new(snapshot(&[(2, 1, "a"), (3, 2, "b")], &[]));
    let mut backing = Backing::new(&[(1, "a", 20), (20, "b", 30)], &[]);
    assert_eq!(backing.restore(&mut t), Ok(()));
    for unknown in [0, 4, 20, 30] {
        assert_eq!(t.map_guest_inode(unknown), Err(libc::ENOENT));
    }
    assert_eq!(t.register_host_inode(30), 3);
    assert_eq!(t.register_host_inode(20), 2);
    assert_eq!(t.register_host_inode(1), 1);
}

#[test]
fn path_stable_work_is_restored() {
    let mut t = TrackingFileSystem::new(BackendState::default());
    assert_eq!(t.mkdir(1, b"d").unwrap().finish::<i32>(&mut t, Ok(2)), Ok(2));
    let create = t.create(2, b"f", 2).unwrap();
    assert_eq!(create.finish::<i32>(&mut t, Ok((3, Some(7)))), Ok((3, Some(7))));
    assert_eq!(t.lookup(1, b"gone").unwrap().finish::<i32>(&mut t, Ok(4)), Ok(4));
    assert_eq!(t.unlink(1, b"gone").unwrap().finish::<i32>(&mut t, Ok(())), Ok(()));
    let rename = t.rename(2, b"f", 1, b"g", 0).unwrap();
    assert_eq!(rename.finish::<i32>(&mut t, Ok(())), Ok(()));

    let mut restored = TrackingFileSystem::new(t.state().clone());
    let mut backing = Backing::new(&[(1, "d", 20), (1, "g", 30)], &[Ok(Some(90))]);
    assert_eq!(backing.restore(&mut restored), Ok(()));
    assert_eq!(restored.map_guest_inode(2), Ok(20));
    assert_eq!(restored.map_guest_inode(3), Ok(30));
    assert_eq!(restored.map_guest_handle(7), 90);
    assert_eq!(restored.state().node_mappings, t.state().node_mappings);
    assert_eq!(restored.state().handles, t.state().handles);
}

#[test]
fn a_failed_restore_leaves_the_snapshot_as_it_was() {
    let mut t = TrackingFileSystem::new(snapshot(&[(2, 1, "a")], &[(5, 2, 0, false)]));
    let mut backing = Backing::new(&[], &[]);
    assert_eq!(backing.restore(&mut t), Err(FsError::Backend(20)));
    let kept = snapshot(&[(2, 1, "a")], &[(5, 2, 0, false)]);
    assert_eq!(t.state().node_mappings, kept.node_mappings);
    assert_eq!(t.state().handles, kept.handles);
}

#[test]
fn a_directory_moved_into_itself_is_not_restored() {
    let mut t = TrackingFileSystem::new(snapshot(&[(2, 1, "d")], &[]));
    t.update_node_mapping(1, b"d", 2, b"d");
    let mut backing = Backing::new(&[], &[]);
    assert_eq!(backing.restore(&mut t), Err(FsError::Os(libc::EINVAL)));
}
