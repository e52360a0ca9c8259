//! The configuration space of the device, and what its options mean.

use vstd::prelude::*;
use vstd::string::*;

verus! {

/// The length of the tag in the configuration space.
pub const VIRTIO_FS_TAG_LEN: usize = 36;

/// The configuration space of the device.
#[derive(Copy, Clone, Debug)]
pub struct VirtioFsConfig {
    /// The name that the guest mounts the file system by.
    pub tag: [u8; VIRTIO_FS_TAG_LEN],
    /// The number of request queues.
    pub num_request_queues: u32,
}

impl Default for VirtioFsConfig {
    fn default() -> (config: Self)
        ensures
            config.tag@ == Seq::new(VIRTIO_FS_TAG_LEN as nat, |i: int| 0u8),
            config.num_request_queues == 0,
    {
        let config = VirtioFsConfig { tag: [0u8; 36], num_request_queues: 0 };
        proof {
            assert(config.tag@ =~= Seq::new(VIRTIO_FS_TAG_LEN as nat, |i: int| 0u8));
        }
        config
    }
}

/// `name` cut, or filled with zeros, to the length of a tag.
pub open spec fn padded_tag(name: Seq<u8>) -> Seq<u8> {
    Seq::new(
        VIRTIO_FS_TAG_LEN as nat,
        |i: int|
            if i < name.len() {
                name[i]
            } else {
                0
            },
    )
}

/// The bytes of `n`, the lowest first.
pub open spec fn le_bytes(n: u32) -> Seq<u8> {
    seq![
        (n % 256) as u8,
        (n / 256 % 256) as u8,
        (n / 65536 % 256) as u8,
        (n / 16777216) as u8,
    ]
}

/// The configuration space has 40 bytes, and the last four of them give the number of request
/// queues.
pub proof fn config_space_layout(tag: [u8; 36], n: u32)
    ensures
        ({
            let bytes = tag@ + le_bytes(n);
            &&& bytes.len() == 40
            &&& bytes.take(36) == tag@
            &&& bytes[36] + 256 * bytes[37] + 65536 * bytes[38] + 16777216 * bytes[39] == n
        }),
{
    let bytes = tag@ + le_bytes(n);
    assert(bytes.take(36) =~= tag@);
}

impl VirtioFsConfig {
    /// The configuration of a device that is mounted by `tag`; a longer tag is cut.
    pub fn new(tag: &str, req_num_queues: usize) -> (config: Self)
        ensures
            config.tag@ == padded_tag(tag.spec_bytes()),
            config.num_request_queues == req_num_queues as int % 0x1_0000_0000,
    {
        let tag_bytes = tag.as_bytes();
        let len = if tag_bytes.len() < VIRTIO_FS_TAG_LEN {
            tag_bytes.len()
        } else {
            VIRTIO_FS_TAG_LEN
        };
        let mut fs_tag: [u8; 36] = [0u8; 36];
        let mut i: usize = 0;
        while i < len
            invariant
                len <= VIRTIO_FS_TAG_LEN,
                len <= tag_bytes@.len(),
                i <= len,
                fs_tag@.len() == VIRTIO_FS_TAG_LEN,
                forall|j: int| 0 <= j < i ==> fs_tag@[j] == tag_bytes@[j],
                forall|j: int| i <= j < VIRTIO_FS_TAG_LEN ==> fs_tag@[j] == 0,
            decreases len - i,
        {
            fs_tag[i] = tag_bytes[i];
            i = i + 1;
        }
        proof {
            assert(fs_tag@ =~= padded_tag(tag.spec_bytes()));
            let n = req_num_queues as u64;
            assert((n as u32) as u64 == n % 0x1_0000_0000) by (bit_vector);
        }
        VirtioFsConfig {
            tag: fs_tag,
            num_request_queues: req_num_queues as u32,
        }
    }

    /// The configuration space as the guest reads it: the tag, then the number of request queues.
    pub fn to_bytes(&self) -> (bytes: Vec<u8>)
        ensures
            bytes@ == self.tag@ + le_bytes(self.num_request_queues),
    {
        let mut bytes: Vec<u8> = Vec::new();
        let mut i: usize = 0;
        while i < VIRTIO_FS_TAG_LEN
            invariant
                i <= VIRTIO_FS_TAG_LEN,
                self.tag@.len() == VIRTIO_FS_TAG_LEN,
                bytes@ == self.tag@.take(i as int),
            decreases VIRTIO_FS_TAG_LEN - i,
        {
            bytes.push(self.tag[i]);
            i = i + 1;
            proof {
                assert(bytes@ =~= self.tag@.take(i as int));
            }
        }
        let n = self.num_request_queues;
        bytes.push((n % 256) as u8);
        bytes.push((n / 256 % 256) as u8);
        bytes.push((n / 65536 % 256) as u8);
        bytes.push((n / 16777216) as u8);
        proof {
            assert(bytes@ =~= self.tag@ + le_bytes(n));
        }
        bytes
    }
}

/// How much the guest may cache.
#[derive(Debug, PartialEq, Eq, Clone, Copy)]
pub enum CachePolicy {
    Never,
    Metadata,
    Auto,
    Always,
}

/// The policy that is called `name`.
pub open spec fn cache_policy_named(name: Seq<char>) -> Option<CachePolicy> {
    if name == "never"@ || name == "Never"@ || name == "NEVER"@ || name == "none"@ || name
        == "None"@ || name == "NONE"@ {
        Some(CachePolicy::Never)
    } else if name == "metadata"@ {
        Some(CachePolicy::Metadata)
    } else if name == "auto"@ || name == "Auto"@ || name == "AUTO"@ {
        Some(CachePolicy::Auto)
    } else if name == "always"@ || name == "Always"@ || name == "ALWAYS"@ {
        Some(CachePolicy::Always)
    } else {
        None
    }
}

/// Calls `<fuse_backend_rs::passthrough::CachePolicy as FromStr>::from_str`, which knows each
/// policy by the names that [`cache_policy_named`] lists and answers any other name with the
/// message "invalid cache policy".
#[verifier::external_body]
pub(crate) fn parse_cache_policy(name: &str) -> (policy: Result<CachePolicy, &'static str>)
    ensures
        match cache_policy_named(name@) {
            Some(known) => policy == Ok::<CachePolicy, &'static str>(known),
            None => policy matches Err(message) && message@ == "invalid cache policy"@,
        },
{
    match name.parse::<fuse_backend_rs::passthrough::CachePolicy>() {
        Ok(fuse_backend_rs::passthrough::CachePolicy::Never) => Ok(CachePolicy::Never),
        Ok(fuse_backend_rs::passthrough::CachePolicy::Metadata) => Ok(CachePolicy::Metadata),
        Ok(fuse_backend_rs::passthrough::CachePolicy::Auto) => Ok(CachePolicy::Auto),
        Ok(fuse_backend_rs::passthrough::CachePolicy::Always) => Ok(CachePolicy::Always),
        Err(message) => Err(message),
    }
}

} // verus!
