//! The device: how it is set up, and what a snapshot keeps of it.

use vstd::prelude::*;
use vstd::string::*;

use crate::config::{
    cache_policy_named, padded_tag, parse_cache_policy, CachePolicy, VirtioFsConfig,
};
use crate::model::{BackendModel, FsStateModel, TrackerModel};
use crate::state::{BackendState, FsState};
use crate::tracking::TrackingFileSystem;

verus! {

/// The queues that the device has besides its request queues.
pub const NUM_QUEUE_OFFSET: usize = 1;

/// The feature bit that tells a device of version 1 of the virtio standard.
pub const VERSION_1_BIT: u32 = 32;

/// The features that a new device offers: version 1 and no other.
pub const VERSION_1_FEATURE: u64 = 0x1_0000_0000;

/// The number by which the virtio standard calls a file system device.
pub const FS_DEVICE_TYPE: u32 = 26;

/// Reads `virtio_bindings::virtio_config::VIRTIO_F_VERSION_1`, which is 32.
#[verifier::external_body]
fn virtio_f_version_1() -> (bit: u32)
    ensures
        bit == VERSION_1_BIT,
{
    virtio_bindings::virtio_config::VIRTIO_F_VERSION_1
}

/// Reads `virtio_bindings::virtio_ids::VIRTIO_ID_FS`, which is 26.
#[verifier::external_body]
fn virtio_id_fs() -> (id: u32)
    ensures
        id == FS_DEVICE_TYPE,
{
    virtio_bindings::virtio_ids::VIRTIO_ID_FS
}

/// What the device shares with every other virtio device.
pub struct VirtioCommon {
    /// What kind of device it is.
    pub device_type: u32,
    /// The features that it offers.
    pub avail_features: u64,
    /// The features that the driver has accepted.
    pub acked_features: u64,
    /// How many queues the driver has to use at least.
    pub min_queues: u16,
    /// The size of each queue.
    pub queue_sizes: Vec<u16>,
    /// Whether it starts paused.
    pub paused: bool,
}

/// How the shared directory is served.
#[derive(Debug, PartialEq, Eq, Clone, Copy)]
pub struct MountOptions {
    /// How much the guest may cache.
    pub cache_policy: CachePolicy,
    /// Whether the shared directory is served with a write-back cache.
    pub writeback: bool,
    /// Whether the guest is kept from writing back.
    pub no_writeback: bool,
    /// Whether inodes are reached by file handles of the operating system.
    pub inode_file_handles: bool,
}

/// A virtio-fs device.
pub struct Fs {
    /// What it shares with every other virtio device.
    pub common: VirtioCommon,
    /// The name of the device.
    pub id: String,
    /// Its configuration space.
    pub config: VirtioFsConfig,
}

/// All that comes of setting up a device.
pub struct FsSetup {
    /// The device.
    pub fs: Fs,
    /// What it tracks.
    pub tracker: TrackingFileSystem,
    /// How the shared directory is to be served.
    pub mount: MountOptions,
    /// Whether the tracked nodes and handles have to be restored first.
    pub is_restore: bool,
}

/// What a device starts from: what a snapshot kept, or where there is none, version 1 on offer,
/// one queue more than there are request queues, and nothing tracked.
pub open spec fn initial_state(
    state: Option<FsState>,
    req_num_queues: usize,
    queue_size: u16,
) -> FsStateModel {
    match state {
        Some(kept) => kept@,
        None => FsStateModel {
            avail_features: VERSION_1_FEATURE,
            acked_features: 0,
            queue_sizes: Seq::new((NUM_QUEUE_OFFSET + req_num_queues) as nat, |i: int| queue_size),
            backend: BackendModel::empty(),
        },
    }
}

impl Fs {
    /// What a snapshot would keep of the device where `backend` is tracked.
    pub open spec fn snapshot_model(&self, backend: BackendModel) -> FsStateModel {
        FsStateModel {
            avail_features: self.common.avail_features,
            acked_features: self.common.acked_features,
            queue_sizes: self.common.queue_sizes@,
            backend,
        }
    }

    /// Sets up a device, new or from what a snapshot kept.
    ///
    /// It fails where the cache policy is not known, with a message that says so.
    pub fn new(
        id: String,
        tag: &str,
        req_num_queues: usize,
        queue_size: u16,
        cache_policy: &str,
        writeback: bool,
        state: Option<FsState>,
    ) -> (setup: Result<FsSetup, &'static str>)
        requires
            NUM_QUEUE_OFFSET + req_num_queues <= usize::MAX,
            state is None && cache_policy_named(cache_policy@) is Some ==> 2 * (NUM_QUEUE_OFFSET
                + req_num_queues) <= isize::MAX,
        ensures
            match cache_policy_named(cache_policy@) {
                Some(policy) => {
                    let kept = initial_state(state, req_num_queues, queue_size);
                    &&& setup matches Ok(made)
                    &&& made.fs.snapshot_model(made.tracker@.backend) == kept
                    &&& made.fs.common.device_type == FS_DEVICE_TYPE
                    &&& made.fs.common.min_queues == 1
                    &&& made.fs.common.paused == state is Some
                    &&& made.fs.id == id
                    &&& made.fs.config.tag@ == padded_tag(tag.spec_bytes())
                    &&& made.fs.config.num_request_queues == req_num_queues as int % 0x1_0000_0000
                    &&& made.tracker@ == TrackerModel::fresh(kept.backend)
                    &&& made.mount == (MountOptions {
                        cache_policy: policy,
                        writeback,
                        no_writeback: !writeback,
                        inode_file_handles: false,
                    })
                    &&& made.is_restore == state is Some
                },
                None => setup matches Err(message) && message@ == "invalid cache policy"@,
            },
    {
        let num_queues = NUM_QUEUE_OFFSET + req_num_queues;
        let config = VirtioFsConfig::new(tag, req_num_queues);
        let policy = match parse_cache_policy(cache_policy) {
            Ok(policy) => policy,
            Err(message) => return Err(message),
        };
        let is_restore = state.is_some();
        let kept = match state {
            Some(kept) => kept,
            None => {
                proof {
                    assert(1u64 << 32u32 == 0x1_0000_0000u64) by (bit_vector);
                }
                let queue_sizes = vec![queue_size; num_queues];
                proof {
                    assert(queue_sizes@ =~= Seq::new(num_queues as nat, |i: int| queue_size));
                }
                FsState {
                    avail_features: 1u64 << virtio_f_version_1(),
                    acked_features: 0,
                    queue_sizes,
                    backend: BackendState::default(),
                }
            },
        };
        let common = VirtioCommon {
            device_type: virtio_id_fs(),
            avail_features: kept.avail_features,
            acked_features: kept.acked_features,
            min_queues: 1,
            queue_sizes: kept.queue_sizes,
            paused: is_restore,
        };
        let mount = MountOptions {
            cache_policy: policy,
            writeback,
            no_writeback: !writeback,
            inode_file_handles: false,
        };
        let tracker = TrackingFileSystem::new(kept.backend);
        Ok(FsSetup { fs: Fs { common, id, config }, tracker, mount, is_restore })
    }

    /// What a snapshot keeps of the device and of what it tracks.
    pub fn state(&self, tracker: &TrackingFileSystem) -> (state: FsState)
        ensures
            state@ == self.snapshot_model(tracker@.backend),
    {
        let mut queue_sizes: Vec<u16> = Vec::new();
        queue_sizes.extend_from_slice(self.common.queue_sizes.as_slice());
        proof {
            assert(queue_sizes@ =~= self.common.queue_sizes@);
        }
        FsState {
            avail_features: self.common.avail_features,
            acked_features: self.common.acked_features,
            queue_sizes,
            backend: tracker.state().clone(),
        }
    }

    /// What kind of device it is.
    pub fn device_type(&self) -> (device_type: u32)
        ensures
            device_type == self.common.device_type,
    {
        self.common.device_type
    }

    /// The largest size of each queue.
    pub fn queue_max_sizes(&self) -> (sizes: &[u16])
        ensures
            sizes@ == self.common.queue_sizes@,
    {
        self.common.queue_sizes.as_slice()
    }

    /// The features that the device offers.
    pub fn features(&self) -> (features: u64)
        ensures
            features == self.common.avail_features,
    {
        self.common.avail_features
    }

    /// The name of the device.
    pub fn id(&self) -> (id: String)
        ensures
            id@ == self.id@,
    {
        self.id.clone()
    }
}

} // verus!
