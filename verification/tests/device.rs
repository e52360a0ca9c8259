use virtiofs::config::{CachePolicy, VirtioFsConfig, VIRTIO_FS_TAG_LEN};
use virtiofs::device::{Fs, FsSetup, MountOptions};
use virtiofs::state::{BackendState, FsState, HandleState};

fn new_device(cache_policy: &str, state: Option<FsState>) -> Result<FsSetup, &'static str> {
    Fs::new("fs0".to_string(), "share", 2, 128, cache_policy, true, state)
}

#[test]
fn a_default_configuration_is_all_zero() {
    let config = VirtioFsConfig::default();
    assert_eq!(config.tag, [0u8; VIRTIO_FS_TAG_LEN]);
    assert_eq!(config.num_request_queues, 0);
}

#[test]
fn a_tag_is_filled_or_cut() {
    let config = VirtioFsConfig::new("myfs", 1);
    assert_eq!(&config.tag[..4], b"myfs");
    assert_eq!(&config.tag[4..], &[0u8; 32]);
    let long = "0123456789abcdefghijklmnopqrstuvwxyzTAIL";
    let config = VirtioFsConfig::new(long, 1);
    assert_eq!(&config.tag[..], b"0123456789abcdefghijklmnopqrstuvwxyz");
    let exact = VirtioFsConfig::new(&long[..36], 1);
    assert_eq!(exact.tag, config.tag);
    assert_eq!(VirtioFsConfig::new("", 1).tag, [0u8; 36]);
    assert_eq!(&VirtioFsConfig::new("\u{e9}", 1).tag[..3], &[0xc3, 0xa9, 0]);
}

#[test]
fn the_queue_count_is_cut_to_32_bits() {
    assert_eq!(VirtioFsConfig::new("t", 0x1_0000_0003).num_request_queues, 3);
}

#[test]
fn the_configuration_space_is_tag_then_count() {
    let bytes = VirtioFsConfig::new("ab", 0x0403_0201).to_bytes();
    assert_eq!(bytes.len(), 40);
    assert_eq!(&bytes[..3], b"ab\0");
    assert_eq!(&bytes[36..], &[1, 2, 3, 4]);
}

#[test]
fn a_new_device_offers_version_1() {
    let setup = new_device("auto", None).unwrap();
    assert_eq!(setup.fs.device_type(), 26);
    assert_eq!(setup.fs.features(), 1u64 << 32);
    assert_eq!(setup.fs.features(), 1u64 << virtio_bindings::virtio_config::VIRTIO_F_VERSION_1);
    assert_eq!(setup.fs.common.acked_features, 0);
    assert_eq!(setup.fs.common.min_queues, 1);
    assert!(!setup.fs.common.paused);
    assert_eq!(setup.fs.queue_max_sizes(), &[128u16, 128, 128][..]);
    assert_eq!(setup.fs.id(), "fs0");
    assert_eq!(&setup.fs.config.tag[..6], b"share\0");
    assert_eq!(setup.fs.config.num_request_queues, 2);
    assert!(!setup.is_restore);
    assert!(setup.tracker.state().node_mappings.is_empty());
    assert_eq!(
        setup.mount,
        MountOptions {
            cache_policy: CachePolicy::Auto,
            writeback: true,
            no_writeback: false,
            inode_file_handles: false,
        }
    );
}

#[test]
fn write_back_is_off_where_it_is_not_asked_for() {
    let setup = Fs::new("x".to_string(), "t", 1, 8, "never", false, None).unwrap();
    assert!(setup.mount.no_writeback);
    assert!(!setup.mount.writeback);
}

#[test]
fn cache_policies_are_known_by_their_names() {
    let names = [
        ("never", CachePolicy::Never),
        ("Never", CachePolicy::Never),
        ("NEVER", CachePolicy::Never),
        ("none", CachePolicy::Never),
        ("None", CachePolicy::Never),
        ("NONE", CachePolicy::Never),
        ("metadata", CachePolicy::Metadata),
        ("auto", CachePolicy::Auto),
        ("Auto", CachePolicy::Auto),
        ("AUTO", CachePolicy::Auto),
        ("always", CachePolicy::Always),
        ("Always", CachePolicy::Always),
        ("ALWAYS", CachePolicy::Always),
    ];
    for (name, policy) in names {
        assert_eq!(new_device(name, None).ok().unwrap().mount.cache_policy, policy);
    }
}

#[test]
fn an_unknown_cache_policy_is_refused() {
    for name in ["", "Metadata", "METADATA", "sometimes", " auto"] {
        assert_eq!(new_device(name, None).err(), Some("invalid cache policy"));
    }
}

#[test]
fn a_restored_device_keeps_what_was_negotiated() {
    let mut backend = BackendState::default();
    backend.node_mappings.insert(5, (1, b"f".to_vec()));
    backend.handles.insert(9, HandleState { nodeid: 5, flags: 2, is_dir: false });
    let kept = FsState {
        avail_features: 0x1_0000_0001,
        acked_features: 0x1_0000_0000,
        queue_sizes: vec![64, 256],
        backend,
    };
    let setup = new_device("always", Some(kept)).unwrap();
    assert!(setup.is_restore);
    assert!(setup.fs.common.paused);
    assert_eq!(setup.fs.features(), 0x1_0000_0001);
    assert_eq!(setup.fs.common.acked_features, 0x1_0000_0000);
    assert_eq!(setup.fs.queue_max_sizes(), &[64u16, 256][..]);
    assert_eq!(setup.fs.config.num_request_queues, 2);

    let again = setup.fs.state(&setup.tracker);
    assert_eq!(again.avail_features, 0x1_0000_0001);
    assert_eq!(again.acked_features, 0x1_0000_0000);
    assert_eq!(again.queue_sizes, vec![64, 256]);
    assert_eq!(again.backend.node_mappings.get(&5), Some(&(1, b"f".to_vec())));
    assert_eq!(
        again.backend.handles.get(&9),
        Some(&HandleState { nodeid: 5, flags: 2, is_dir: false })
    );
}
