# virtiofs

The state of a virtio-fs device that serves a shared directory from within the VMM, verified with
Verus.

The device tracks the nodes and handles that a guest uses. A snapshot keeps them by their paths, and
a device that is set up from the snapshot finds them again in a fresh file system, or fails.

- `src/` is the library: the tracker, the requests of the guest, the restore, the configuration
  space, and the serving of the queues. It makes no call to a file system or a queue; it hands out
  the next thing to do and takes what came of it. `laws.rs`, `restore_laws.rs` and
  `snapshot_laws.rs` state what holds over all of it.
- `tests/` run the library on concrete values.
- `app/` makes the calls, with `fuse_backend_rs` for the file system and `virtio_queue` for the
  queues. What it needs of the VMM around it is in `app/vmm.rs`.
