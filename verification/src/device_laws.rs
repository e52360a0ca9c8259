//! What a device is set up with, what a snapshot takes of it, and what its configuration space and
//! its queues come to.

use vstd::prelude::*;
use vstd::string::*;

use crate::config::{le_bytes, padded_tag, CachePolicy, VirtioFsConfig};
use crate::device::{Fs, FsSetup};
use crate::handler::{
    process_queue, split_queues, worker_name, AddUsed, AskNotification, EventError, EventStep,
    PopChain, QueueError, QueueEvents, QueueStep, ServeChain, ServeQueue,
};
use crate::restore_laws::restored;
use crate::snapshot_laws::restore_keeps_the_snapshot;
use crate::state::{BackendState, FsState, HandleState};
use crate::tracking::TrackingFileSystem;

verus! {

/// A snapshot takes the features and the queue sizes of the device, and every node and handle that
/// the tracker keeps, whether the device is new or restored, paused or not.
pub proof fn snapshots_take_what_is_tracked(fs: Fs, tracker: TrackingFileSystem, state: FsState)
    requires
        call_ensures(Fs::state, (&fs, &tracker), state),
    ensures
        state.avail_features == fs.common.avail_features,
        state.acked_features == fs.common.acked_features,
        state.queue_sizes@ == fs.common.queue_sizes@,
        state.backend@.nodes == tracker@.backend.nodes,
        state.backend@.handles == tracker@.backend.handles,
        state.backend.handles@ == tracker@.backend.handles,
        state.backend.node_mappings@.dom() == tracker@.backend.nodes.dom(),
        forall|id: u64| #[trigger]
            tracker@.backend.nodes.contains_key(id) ==> state.backend.node_mappings@[id].0
                == tracker@.backend.nodes[id].parent && state.backend.node_mappings@[id].1@
                == tracker@.backend.nodes[id].name,
{
    assert(state@.backend.nodes.dom() =~= state.backend.node_mappings@.dom());
}

/// The model of a snapshot has the features and the queue sizes of the device, and the backend that
/// it is given.
pub proof fn snapshot_models_have_every_field(fs: Fs, tracker: TrackingFileSystem)
    ensures
        ({
            let kept = fs.snapshot_model(tracker@.backend);
            &&& kept.avail_features == fs.common.avail_features
            &&& kept.acked_features == fs.common.acked_features
            &&& kept.queue_sizes == fs.common.queue_sizes@
            &&& kept.backend.nodes == tracker@.backend.nodes
            &&& kept.backend.handles == tracker@.backend.handles
        }),
{
}

/// A device that is set up new offers the feature of bit 32 and no other, has accepted none, has
/// one queue more than request queues, all of the given size, runs, and tracks nothing but the
/// root.
pub proof fn new_devices_start_empty(
    id: String,
    tag: &str,
    req_num_queues: usize,
    queue_size: u16,
    cache_policy: &str,
    writeback: bool,
    setup: Result<FsSetup, &'static str>,
)
    requires
        call_ensures(
            Fs::new,
            (id, tag, req_num_queues, queue_size, cache_policy, writeback, None::<FsState>),
            setup,
        ),
        setup is Ok,
    ensures
        ({
            let made = setup->Ok_0;
            &&& made.fs.common.avail_features == 0x1_0000_0000
            &&& made.fs.common.acked_features == 0
            &&& made.fs.common.queue_sizes@.len() == 1 + req_num_queues
            &&& forall|i: int|
                0 <= i < 1 + req_num_queues ==> made.fs.common.queue_sizes@[i] == queue_size
            &&& !made.fs.common.paused
            &&& !made.is_restore
            &&& forall|n: u64| !(#[trigger] made.tracker@.backend.nodes.contains_key(n))
            &&& forall|h: u64| !(#[trigger] made.tracker@.backend.handles.contains_key(h))
        }),
{
}

/// A device that is set up from a snapshot has its features, its queue sizes, its nodes and its
/// handles, is paused, and has to be restored.
pub proof fn restored_devices_start_from_the_snapshot(
    id: String,
    tag: &str,
    req_num_queues: usize,
    queue_size: u16,
    cache_policy: &str,
    writeback: bool,
    kept: FsState,
    setup: Result<FsSetup, &'static str>,
)
    requires
        call_ensures(
            Fs::new,
            (id, tag, req_num_queues, queue_size, cache_policy, writeback, Some(kept)),
            setup,
        ),
        setup is Ok,
    ensures
        ({
            let made = setup->Ok_0;
            &&& made.fs.common.avail_features == kept.avail_features
            &&& made.fs.common.acked_features == kept.acked_features
            &&& made.fs.common.queue_sizes@ == kept.queue_sizes@
            &&& made.tracker@.backend.nodes == kept.backend@.nodes
            &&& made.tracker@.backend.handles == kept.backend@.handles
            &&& made.fs.common.paused
            &&& made.is_restore
        }),
{
}

/// The snapshot of a device that was set up new has the one feature on offer, none accepted, every
/// queue with its size, and no node and no handle.
pub proof fn new_devices_give_an_empty_snapshot(
    id: String,
    tag: &str,
    req_num_queues: usize,
    queue_size: u16,
    cache_policy: &str,
    writeback: bool,
    setup: Result<FsSetup, &'static str>,
    state: FsState,
)
    requires
        call_ensures(
            Fs::new,
            (id, tag, req_num_queues, queue_size, cache_policy, writeback, None::<FsState>),
            setup,
        ),
        setup is Ok,
        call_ensures(Fs::state, (&setup->Ok_0.fs, &setup->Ok_0.tracker), state),
    ensures
        state.avail_features == 0x1_0000_0000,
        state.acked_features == 0,
        state.queue_sizes@.len() == 1 + req_num_queues,
        forall|i: int| 0 <= i < 1 + req_num_queues ==> state.queue_sizes@[i] == queue_size,
        forall|n: u64| !(#[trigger] state.backend.node_mappings@.contains_key(n)),
        forall|h: u64| !(#[trigger] state.backend.handles@.contains_key(h)),
{
    snapshots_take_what_is_tracked(setup->Ok_0.fs, setup->Ok_0.tracker, state);
    assert forall|n: u64| !(#[trigger] state.backend.node_mappings@.contains_key(n)) by {
        assert(!setup->Ok_0.tracker@.backend.nodes.dom().contains(n));
    }
}

/// The snapshot of a device that was set up from a snapshot, and not restored yet, is that
/// snapshot.
pub proof fn unrestored_devices_give_their_snapshot(
    id: String,
    tag: &str,
    req_num_queues: usize,
    queue_size: u16,
    cache_policy: &str,
    writeback: bool,
    kept: FsState,
    setup: Result<FsSetup, &'static str>,
    again: FsState,
)
    requires
        call_ensures(
            Fs::new,
            (id, tag, req_num_queues, queue_size, cache_policy, writeback, Some(kept)),
            setup,
        ),
        setup is Ok,
        call_ensures(Fs::state, (&setup->Ok_0.fs, &setup->Ok_0.tracker), again),
    ensures
        again.avail_features == kept.avail_features,
        again.acked_features == kept.acked_features,
        again.queue_sizes@ == kept.queue_sizes@,
        again.backend@.nodes == kept.backend@.nodes,
        again.backend.handles@ == kept.backend.handles@,
{
}

/// A device has what it was given: its kind 26, its name, at least one queue, its tag and its
/// number of request queues, and a shared directory that is served with write-back as asked and
/// without file handles of the operating system. Nothing is translated yet but the root.
pub proof fn devices_are_set_up_as_asked(
    id: String,
    tag: &str,
    req_num_queues: usize,
    queue_size: u16,
    cache_policy: &str,
    writeback: bool,
    state: Option<FsState>,
    setup: Result<FsSetup, &'static str>,
)
    requires
        call_ensures(
            Fs::new,
            (id, tag, req_num_queues, queue_size, cache_policy, writeback, state),
            setup,
        ),
        setup is Ok,
    ensures
        ({
            let made = setup->Ok_0;
            &&& made.fs.common.device_type == 26
            &&& made.fs.common.min_queues == 1
            &&& made.fs.id == id
            &&& forall|i: int|
                0 <= i < 36 ==> #[trigger] made.fs.config.tag@[i] == if i
                    < tag.spec_bytes().len() {
                    tag.spec_bytes()[i]
                } else {
                    0
                }
            &&& (req_num_queues - made.fs.config.num_request_queues) % 0x1_0000_0000 == 0
            &&& made.mount.writeback == writeback
            &&& made.mount.no_writeback == !writeback
            &&& !made.mount.inode_file_handles
            &&& forall|n: u64| #[trigger]
                made.tracker@.guest_to_host_inodes.contains_key(n) <==> n == 1
            &&& made.tracker@.guest_to_host_inodes[1] == 1
            &&& forall|n: u64| #[trigger]
                made.tracker@.host_to_guest_inodes.contains_key(n) <==> n == 1
            &&& made.tracker@.host_to_guest_inodes[1] == 1
            &&& made.tracker@.guest_to_host_handles == Map::<u64, u64>::empty()
            &&& made.tracker@.host_to_guest_handles == Map::<u64, u64>::empty()
        }),
{
}

/// Each cache policy goes by its own names and by no others; a name of none fails with a message
/// that says so.
pub proof fn cache_policies_go_by_their_names(
    id: String,
    tag: &str,
    req_num_queues: usize,
    queue_size: u16,
    cache_policy: &str,
    writeback: bool,
    state: Option<FsState>,
    setup: Result<FsSetup, &'static str>,
)
    requires
        call_ensures(
            Fs::new,
            (id, tag, req_num_queues, queue_size, cache_policy, writeback, state),
            setup,
        ),
    ensures
        ({
            let name = cache_policy@;
            let never = name == "never"@ || name == "Never"@ || name == "NEVER"@ || name == "none"@
                || name == "None"@ || name == "NONE"@;
            let metadata = name == "metadata"@;
            let auto = name == "auto"@ || name == "Auto"@ || name == "AUTO"@;
            let always = name == "always"@ || name == "Always"@ || name == "ALWAYS"@;
            &&& setup is Ok <==> never || metadata || auto || always
            &&& setup matches Ok(made) ==> {
                &&& made.mount.cache_policy == CachePolicy::Never <==> never
                &&& made.mount.cache_policy == CachePolicy::Metadata <==> metadata
                &&& made.mount.cache_policy == CachePolicy::Auto <==> auto
                &&& made.mount.cache_policy == CachePolicy::Always <==> always
            }
            &&& setup matches Err(message) ==> message@ == "invalid cache policy"@
        }),
{
    reveal_strlit("never");
    reveal_strlit("Never");
    reveal_strlit("NEVER");
    reveal_strlit("none");
    reveal_strlit("None");
    reveal_strlit("NONE");
    reveal_strlit("metadata");
    reveal_strlit("auto");
    reveal_strlit("Auto");
    reveal_strlit("AUTO");
    reveal_strlit("always");
    reveal_strlit("Always");
    reveal_strlit("ALWAYS");
    let name = cache_policy@;
    assert((name == "never"@ || name == "none"@) ==> name[0] == 'n');
    assert((name == "Never"@ || name == "NEVER"@ || name == "None"@ || name == "NONE"@) ==> name[0]
        == 'N');
    assert(name == "metadata"@ ==> name[0] == 'm');
    assert((name == "auto"@ || name == "always"@) ==> name[0] == 'a');
    assert((name == "Auto"@ || name == "AUTO"@ || name == "Always"@ || name == "ALWAYS"@)
        ==> name[0] == 'A');
    assert((name == "auto"@ || name == "Auto"@ || name == "AUTO"@) ==> name.len() == 4);
    assert((name == "always"@ || name == "Always"@ || name == "ALWAYS"@) ==> name.len() == 6);
}

/// A device that was set up from a snapshot gives that snapshot again, also while and after it is
/// restored and whatever the backing file system replies.
pub proof fn snapshots_survive_a_restore<E>(
    id: String,
    tag: &str,
    req_num_queues: usize,
    queue_size: u16,
    cache_policy: &str,
    writeback: bool,
    kept: FsState,
    setup: Result<FsSetup, &'static str>,
    lookups: Seq<Result<u64, E>>,
    opens: Seq<Result<Option<u64>, E>>,
    tracker: TrackingFileSystem,
    again: FsState,
)
    requires
        call_ensures(
            Fs::new,
            (id, tag, req_num_queues, queue_size, cache_policy, writeback, Some(kept)),
            setup,
        ),
        setup is Ok,
        tracker@ == restored(kept.backend@, lookups, opens).0,
        call_ensures(Fs::state, (&setup->Ok_0.fs, &tracker), again),
    ensures
        again.avail_features == kept.avail_features,
        again.acked_features == kept.acked_features,
        again.queue_sizes@ == kept.queue_sizes@,
        again.backend@.nodes == kept.backend@.nodes,
        again.backend@.handles == kept.backend@.handles,
{
    restore_keeps_the_snapshot(setup->Ok_0.fs, kept@, lookups, opens);
}

/// A copy of what is kept of a handle, or of all nodes and handles, has all that is kept.
pub proof fn copies_keep_everything(
    handle: HandleState,
    handle_copy: HandleState,
    backend: BackendState,
    backend_copy: BackendState,
)
    requires
        call_ensures(HandleState::clone, (&handle,), handle_copy),
        call_ensures(BackendState::clone, (&backend,), backend_copy),
    ensures
        handle_copy.nodeid == handle.nodeid,
        handle_copy.flags == handle.flags,
        handle_copy.is_dir == handle.is_dir,
        backend_copy.handles@ == backend.handles@,
        backend_copy.node_mappings@.dom() == backend.node_mappings@.dom(),
        forall|id: u64| #[trigger]
            backend.node_mappings@.contains_key(id) ==> backend_copy.node_mappings@[id].0
                == backend.node_mappings@[id].0 && backend_copy.node_mappings@[id].1@
                == backend.node_mappings@[id].1@,
{
    assert(backend_copy@.nodes.dom() =~= backend_copy.node_mappings@.dom());
    assert(backend@.nodes.dom() =~= backend.node_mappings@.dom());
    assert forall|id: u64| #[trigger]
        backend.node_mappings@.contains_key(id) implies backend_copy.node_mappings@[id].0
        == backend.node_mappings@[id].0 && backend_copy.node_mappings@[id].1@
        == backend.node_mappings@[id].1@ by {
        assert(backend@.nodes[id] == backend_copy@.nodes[id]);
    }
}

/// The device tells its kind, its features, its queue sizes and its name.
pub proof fn devices_tell_what_they_are(
    fs: Fs,
    device_type: u32,
    features: u64,
    sizes: &[u16],
    id: String,
)
    requires
        call_ensures(Fs::device_type, (&fs,), device_type),
        call_ensures(Fs::features, (&fs,), features),
        call_ensures(Fs::queue_max_sizes, (&fs,), sizes),
        call_ensures(Fs::id, (&fs,), id),
    ensures
        device_type == fs.common.device_type,
        features == fs.common.avail_features,
        sizes@ == fs.common.queue_sizes@,
        id@ == fs.id@,
{
}

/// A tag has 36 bytes: those of the name as far as they go, and zeros after them.
pub proof fn tags_are_cut_or_filled(name: Seq<u8>)
    ensures
        padded_tag(name).len() == 36,
        forall|i: int| 0 <= i < 36 && i < name.len() ==> padded_tag(name)[i] == name[i],
        forall|i: int| name.len() <= i < 36 ==> padded_tag(name)[i] == 0,
{
}

/// A configuration has the tag, cut or filled to 36 bytes, and the number of request queues as far
/// as 32 bits hold it.
pub proof fn configurations_have_tag_and_count(
    tag: &str,
    req_num_queues: usize,
    config: VirtioFsConfig,
)
    requires
        call_ensures(VirtioFsConfig::new, (tag, req_num_queues), config),
    ensures
        forall|i: int|
            0 <= i < 36 ==> #[trigger] config.tag@[i] == if i < tag.spec_bytes().len() {
                tag.spec_bytes()[i]
            } else {
                0
            },
        (req_num_queues - config.num_request_queues) % 0x1_0000_0000 == 0,
        req_num_queues < 0x1_0000_0000 ==> config.num_request_queues == req_num_queues,
{
}

/// The guest reads the 36 bytes of the tag, and then the number of request queues with its lowest
/// byte first.
pub proof fn the_configuration_space_is_read(config: VirtioFsConfig, bytes: Vec<u8>)
    requires
        call_ensures(VirtioFsConfig::to_bytes, (&config,), bytes),
    ensures
        bytes@.len() == 40,
        forall|i: int| 0 <= i < 36 ==> bytes@[i] == config.tag@[i],
        bytes@[36] + 256 * bytes@[37] + 65536 * bytes@[38] + 16777216 * bytes@[39]
            == config.num_request_queues,
{
    assert(le_bytes(config.num_request_queues).len() == 4);
}

/// The default configuration is all zeros.
pub proof fn the_default_configuration_is_zero(config: VirtioFsConfig)
    requires
        call_ensures(VirtioFsConfig::default, (), config),
    ensures
        config.num_request_queues == 0,
        forall|i: int| 0 <= i < 36 ==> config.tag@[i] == 0,
{
}

/// A queue is served from its first chain on, with none returned yet.
pub proof fn serving_starts_with_a_chain<I, Q>(step: QueueStep<I, Q>)
    requires
        call_ensures(process_queue::<I, Q>, (), step),
    ensures
        step matches QueueStep::Pop(pop) && !pop.used_descs,
{
}

/// A chain that was there is served under its head. Where there is none, the guest's wish is asked
/// for if a chain was returned before, and else the queue is done without a notification.
pub proof fn chains_are_served_until_none_is_left<I, Q>(
    pop: PopChain,
    head_index: Option<u16>,
    step: QueueStep<I, Q>,
)
    requires
        call_ensures(PopChain::popped::<I, Q>, (pop, head_index), step),
    ensures
        head_index matches Some(head) ==> step matches QueueStep::Serve(serve) && serve.head_index
            == head,
        head_index is None && pop.used_descs ==> step is Ask,
        head_index is None && !pop.used_descs ==> step == QueueStep::<I, Q>::Done(Ok(false)),
{
}

/// A chain that was served is returned under its head with the number of bytes written, as far as
/// 32 bits hold it; one that was not ends the serving with its error.
pub proof fn served_chains_are_returned<I, Q>(
    serve: ServeChain,
    reply: Result<usize, I>,
    step: QueueStep<I, Q>,
)
    requires
        call_ensures(ServeChain::served::<I, Q>, (serve, reply), step),
    ensures
        reply matches Ok(n) ==> step matches QueueStep::Add(add) && add.head_index
            == serve.head_index && (n - add.len) % 0x1_0000_0000 == 0 && (n < 0x1_0000_0000
            ==> add.len == n),
        reply matches Err(e) ==> step == QueueStep::<I, Q>::Done(Err(QueueError::Io(e))),
{
}

/// Once a chain was returned the next is taken, with one returned; where it was not, the serving
/// ends with the error.
pub proof fn returned_chains_make_way<I, Q>(
    add: AddUsed,
    reply: Result<(), Q>,
    step: QueueStep<I, Q>,
)
    requires
        call_ensures(AddUsed::added::<I, Q>, (add, reply), step),
    ensures
        reply is Ok ==> (step matches QueueStep::Pop(pop) && pop.used_descs),
        reply matches Err(e) ==> step == QueueStep::<I, Q>::Done(Err(QueueError::QueueAddUsed(e))),
{
}

/// The guest is notified as it wishes; where its wish is not known, the serving ends with the
/// error.
pub proof fn the_guest_is_notified_as_it_wishes<I, Q>(
    ask: AskNotification,
    reply: Result<bool, Q>,
    step: QueueStep<I, Q>,
)
    requires
        call_ensures(AskNotification::answered::<I, Q>, (ask, reply), step),
    ensures
        reply matches Ok(wanted) ==> step == QueueStep::<I, Q>::Done(Ok(wanted)),
        reply matches Err(e) ==> step == QueueStep::<I, Q>::Done(
            Err(QueueError::QueueIterator(e)),
        ),
{
}

/// The events of the queues come after the last that is taken otherwise.
pub proof fn queue_events_come_after_the_others(helper_event_last: u16, events: QueueEvents)
    requires
        call_ensures(QueueEvents::new, (helper_event_last,), events),
    ensures
        events.queue_avail_event == helper_event_last + 1,
{
}

/// The events of the queues follow that of the first in the order of the queues, and start over
/// after 65536 of them.
pub proof fn queue_events_follow_the_first(events: QueueEvents, queue_index: usize, event: u16)
    requires
        call_ensures(QueueEvents::event_of, (&events, queue_index), event),
    ensures
        event >= events.queue_avail_event,
        (queue_index - (event - events.queue_avail_event)) % 65536 == 0,
        queue_index < 65536 ==> event == events.queue_avail_event + queue_index,
{
}

/// The low 16 bits of an event tell its queue by how far they are past the event of the first
/// queue; an event before that leads to no queue.
pub proof fn events_tell_their_queue<E>(events: QueueEvents, data: u64, step: EventStep<E>)
    requires
        call_ensures(QueueEvents::handle_event::<E>, (&events, data), step),
    ensures
        data % 65536 >= events.queue_avail_event ==> (step matches EventStep::Serve(serve)
            && events.queue_avail_event + serve.queue_index == data % 65536),
        data % 65536 < events.queue_avail_event ==> step == EventStep::<E>::Done(
            Err(EventError::UnknownEvent),
        ),
{
}

/// An event leads to a queue exactly when it is the event of that queue.
pub proof fn events_and_queues_belong_together<E>(
    events: QueueEvents,
    queue_index: usize,
    event: u16,
    data: u64,
    step: EventStep<E>,
)
    requires
        queue_index < 65536,
        call_ensures(QueueEvents::event_of, (&events, queue_index), event),
        call_ensures(QueueEvents::handle_event::<E>, (&events, data), step),
    ensures
        step == EventStep::<E>::Serve(ServeQueue { queue_index }) <==> data % 65536 == event,
{
}

/// A queue that was served is signalled where the guest is to be notified, by its own number as far
/// as 16 bits hold it; an error is handed on.
pub proof fn served_queues_are_signalled<E>(
    serve: ServeQueue,
    reply: Result<bool, E>,
    step: EventStep<E>,
)
    requires
        call_ensures(ServeQueue::processed::<E>, (serve, reply), step),
    ensures
        reply == Ok::<bool, E>(true) ==> (step matches EventStep::Signal { queue_index } && (
        serve.queue_index - queue_index) % 65536 == 0 && (serve.queue_index < 65536 ==> queue_index
            == serve.queue_index)),
        reply == Ok::<bool, E>(false) ==> step == EventStep::<E>::Done(Ok(())),
        reply matches Err(e) ==> step == EventStep::<E>::Done(Err(EventError::Queue(e))),
{
}

/// The queues and their events are parted in their order, none left out.
pub proof fn queues_keep_their_events<N, Q, V>(
    queues: Vec<(N, Q, V)>,
    parts: (Vec<Q>, Vec<V>),
)
    requires
        call_ensures(split_queues::<N, Q, V>, (queues,), parts),
    ensures
        parts.0@.len() == queues@.len(),
        parts.1@.len() == queues@.len(),
        forall|i: int| 0 <= i < queues@.len() ==> #[trigger] parts.0@[i] == queues@[i].1,
        forall|i: int| 0 <= i < queues@.len() ==> #[trigger] parts.1@[i] == queues@[i].2,
{
}

/// The worker has the name of the device, and then `_worker`.
pub proof fn workers_are_named_after_their_device(id: &str, name: String)
    requires
        call_ensures(worker_name, (id,), name),
    ensures
        name@.len() == id@.len() + 7,
        name@.take(id@.len() as int) == id@,
        name@.skip(id@.len() as int) == seq!['_', 'w', 'o', 'r', 'k', 'e', 'r'],
{
    reveal_strlit("_worker");
    assert(name@.take(id@.len() as int) =~= id@);
    assert(name@.skip(id@.len() as int) =~= seq!['_', 'w', 'o', 'r', 'k', 'e', 'r']);
}

} // verus!
