//! Serving the queues of the device.
//!
//! Each step names the next thing to do with a queue. What came of it is handed back to the step,
//! which gives the one after it.

use vstd::prelude::*;
use vstd::string::*;

verus! {

/// Why serving a queue failed.
#[derive(Debug, PartialEq, Eq)]
pub enum QueueError<I, Q> {
    /// A descriptor chain could not be read or written, or its message not be handled.
    Io(I),
    /// A descriptor chain could not be returned to the guest.
    QueueAddUsed(Q),
    /// Whether the guest wants to be notified could not be found out.
    QueueIterator(Q),
}

/// The next available descriptor chain is to be taken from the queue.
#[derive(Debug, PartialEq, Eq, Clone, Copy)]
pub struct PopChain {
    /// Whether a chain has been returned to the guest before.
    pub used_descs: bool,
}

/// The message in a descriptor chain is to be handled.
#[derive(Debug, PartialEq, Eq, Clone, Copy)]
pub struct ServeChain {
    /// The index of the head of the chain.
    pub head_index: u16,
}

/// A descriptor chain is to be returned to the guest.
#[derive(Debug, PartialEq, Eq, Clone, Copy)]
pub struct AddUsed {
    /// The index of the head of the chain.
    pub head_index: u16,
    /// How many bytes were written to it.
    pub len: u32,
}

/// Whether the guest wants to be notified is to be found out.
#[derive(Debug, PartialEq, Eq, Clone, Copy)]
pub struct AskNotification;

/// The next step of serving a queue.
#[derive(Debug, PartialEq, Eq)]
pub enum QueueStep<I, Q> {
    Pop(PopChain),
    Serve(ServeChain),
    Add(AddUsed),
    Ask(AskNotification),
    /// The queue is served; the guest is to be notified where the answer is `true`.
    Done(Result<bool, QueueError<I, Q>>),
}

/// What follows once a chain was looked for: it is served, or, where there is none, the guest is
/// notified only if a chain was returned to it and it wants to be.
pub open spec fn after_pop<I, Q>(pop: PopChain, head_index: Option<u16>) -> QueueStep<I, Q> {
    match head_index {
        Some(head_index) => QueueStep::Serve(ServeChain { head_index }),
        None => if pop.used_descs {
            QueueStep::Ask(AskNotification)
        } else {
            QueueStep::Done(Ok(false))
        },
    }
}

/// What follows once a chain was served: it is returned with the number of bytes written, as far
/// as 32 bits hold it.
pub open spec fn after_serve<I, Q>(serve: ServeChain, reply: Result<usize, I>) -> QueueStep<I, Q> {
    match reply {
        Ok(bytes_written) => QueueStep::Add(
            AddUsed {
                head_index: serve.head_index,
                len: (bytes_written as int % 0x1_0000_0000) as u32,
            },
        ),
        Err(e) => QueueStep::Done(Err(QueueError::Io(e))),
    }
}

/// What follows once a chain was returned: the next one is taken.
pub open spec fn after_add<I, Q>(reply: Result<(), Q>) -> QueueStep<I, Q> {
    match reply {
        Ok(_) => QueueStep::Pop(PopChain { used_descs: true }),
        Err(e) => QueueStep::Done(Err(QueueError::QueueAddUsed(e))),
    }
}

/// What follows once the guest's wish is known.
pub open spec fn after_ask<I, Q>(reply: Result<bool, Q>) -> QueueStep<I, Q> {
    match reply {
        Ok(wanted) => QueueStep::Done(Ok(wanted)),
        Err(e) => QueueStep::Done(Err(QueueError::QueueIterator(e))),
    }
}

/// What came of one descriptor chain: its head, the reply to its message, and whether it was
/// returned to the guest.
pub struct ChainReplies<I, Q> {
    pub head_index: u16,
    pub served: Result<usize, I>,
    pub added: Result<(), Q>,
}

/// What serving a queue comes to where it holds `chains`, and `asked` is the guest's wish: where it
/// ends, and the chains that were returned to the guest.
pub open spec fn run_queue<I, Q>(
    pop: PopChain,
    chains: Seq<ChainReplies<I, Q>>,
    asked: Result<bool, Q>,
) -> (QueueStep<I, Q>, Seq<AddUsed>)
    decreases chains.len(),
{
    if chains.len() == 0 {
        match after_pop::<I, Q>(pop, None) {
            QueueStep::Ask(_) => (after_ask(asked), Seq::empty()),
            step => (step, Seq::empty()),
        }
    } else {
        match after_pop::<I, Q>(pop, Some(chains[0].head_index)) {
            QueueStep::Serve(serve) => match after_serve::<I, Q>(serve, chains[0].served) {
                QueueStep::Add(add) => match after_add::<I, Q>(chains[0].added) {
                    QueueStep::Pop(next) => {
                        let (step, used) = run_queue(next, chains.drop_first(), asked);
                        (step, seq![add] + used)
                    },
                    step => (step, Seq::empty()),
                },
                step => (step, Seq::empty()),
            },
            step => (step, Seq::empty()),
        }
    }
}

/// Whether a chain was served and returned.
pub open spec fn went_well<I, Q>(chain: ChainReplies<I, Q>) -> bool {
    chain.served is Ok && chain.added is Ok
}

/// How a chain that was served is returned: with its head and the number of bytes written, as far
/// as 32 bits hold it.
pub open spec fn returned<I, Q>(chain: ChainReplies<I, Q>) -> AddUsed {
    AddUsed {
        head_index: chain.head_index,
        len: (chain.served->Ok_0 as int % 0x1_0000_0000) as u32,
    }
}

/// Whether `used` is how `chain` is returned: with its head, and the low 32 bits of the number of
/// bytes written.
pub open spec fn is_returned<I, Q>(chain: ChainReplies<I, Q>, used: AddUsed) -> bool {
    &&& used.head_index == chain.head_index
    &&& chain.served matches Ok(n) && (n - used.len) % 0x1_0000_0000 == 0
}

/// A queue that holds nothing needs no notification; one whose chains are all served leads to one
/// as the guest wishes. The chains are returned in their order, each with what was written to it.
pub proof fn served_queue_notifies_on_wish<I, Q>(
    pop: PopChain,
    chains: Seq<ChainReplies<I, Q>>,
    asked: Result<bool, Q>,
)
    requires
        forall|i: int| 0 <= i < chains.len() ==> went_well(#[trigger] chains[i]),
    ensures
        run_queue(pop, chains, asked).0 == if pop.used_descs || chains.len() > 0 {
            after_ask::<I, Q>(asked)
        } else {
            QueueStep::<I, Q>::Done(Ok(false))
        },
        run_queue(pop, chains, asked).1 == chains.map_values(
            |chain: ChainReplies<I, Q>| returned(chain),
        ),
        pop.used_descs || chains.len() > 0 ==> run_queue(pop, chains, asked).0 == match asked {
            Ok(wanted) => QueueStep::<I, Q>::Done(Ok(wanted)),
            Err(e) => QueueStep::<I, Q>::Done(Err(QueueError::QueueIterator(e))),
        },
        run_queue(pop, chains, asked).1.len() == chains.len(),
        forall|i: int|
            0 <= i < chains.len() ==> is_returned(
                chains[i],
                #[trigger] run_queue(pop, chains, asked).1[i],
            ),
    decreases chains.len(),
{
    let all = chains.map_values(|chain: ChainReplies<I, Q>| returned(chain));
    if chains.len() > 0 {
        assert(went_well(chains[0]));
        assert forall|i: int| 0 <= i < chains.drop_first().len() implies went_well(
            #[trigger] chains.drop_first()[i],
        ) by {
            assert(went_well(chains[i + 1]));
        }
        served_queue_notifies_on_wish(
            PopChain { used_descs: true },
            chains.drop_first(),
            asked,
        );
        assert(all =~= seq![returned(chains[0])] + chains.drop_first().map_values(
            |chain: ChainReplies<I, Q>| returned(chain),
        ));
    } else {
        assert(all =~= Seq::empty());
    }
}

/// The first chain that fails ends the serving of its queue with its error; those before it were
/// returned in their order, each with what was written to it.
pub proof fn failed_chain_ends_queue<I, Q>(
    pop: PopChain,
    chains: Seq<ChainReplies<I, Q>>,
    asked: Result<bool, Q>,
    k: int,
)
    requires
        0 <= k < chains.len(),
        forall|i: int| 0 <= i < k ==> went_well(#[trigger] chains[i]),
        !went_well(chains[k]),
    ensures
        run_queue(pop, chains, asked).0 == match chains[k].served {
            Err(e) => QueueStep::<I, Q>::Done(Err(QueueError::Io(e))),
            Ok(_) => QueueStep::<I, Q>::Done(
                Err(QueueError::QueueAddUsed(chains[k].added->Err_0)),
            ),
        },
        run_queue(pop, chains, asked).1 == chains.take(k).map_values(
            |chain: ChainReplies<I, Q>| returned(chain),
        ),
        run_queue(pop, chains, asked).1.len() == k,
        forall|i: int|
            0 <= i < k ==> is_returned(
                chains[i],
                #[trigger] run_queue(pop, chains, asked).1[i],
            ),
    decreases k,
{
    let before = chains.take(k).map_values(|chain: ChainReplies<I, Q>| returned(chain));
    if k > 0 {
        assert(went_well(chains[0]));
        assert forall|i: int| 0 <= i < k - 1 implies went_well(
            #[trigger] chains.drop_first()[i],
        ) by {
            assert(went_well(chains[i + 1]));
        }
        assert(chains.drop_first()[k - 1] == chains[k]);
        failed_chain_ends_queue(
            PopChain { used_descs: true },
            chains.drop_first(),
            asked,
            k - 1,
        );
        assert(before =~= seq![returned(chains[0])] + chains.drop_first().take(k - 1).map_values(
            |chain: ChainReplies<I, Q>| returned(chain),
        ));
    } else {
        assert(before =~= Seq::empty());
    }
}

/// Starts to serve a queue.
pub fn process_queue<I, Q>() -> (step: QueueStep<I, Q>)
    ensures
        step == QueueStep::<I, Q>::Pop(PopChain { used_descs: false }),
{
    QueueStep::Pop(PopChain { used_descs: false })
}

impl PopChain {
    /// Takes the head of the chain that was there. Once there is none, the guest is notified only
    /// if a chain was returned to it and it wants to be.
    pub fn popped<I, Q>(self, head_index: Option<u16>) -> (step: QueueStep<I, Q>)
        ensures
            step == after_pop::<I, Q>(self, head_index),
    {
        match head_index {
            Some(head_index) => QueueStep::Serve(ServeChain { head_index }),
            None => {
                if self.used_descs {
                    QueueStep::Ask(AskNotification)
                } else {
                    QueueStep::Done(Ok(false))
                }
            },
        }
    }
}

impl ServeChain {
    /// Takes the number of bytes that the answer to the message has.
    pub fn served<I, Q>(self, reply: Result<usize, I>) -> (step: QueueStep<I, Q>)
        ensures
            step == after_serve::<I, Q>(self, reply),
    {
        match reply {
            Ok(bytes_written) => {
                proof {
                    let n = bytes_written as u64;
                    assert((n as u32) as u64 == n % 0x1_0000_0000) by (bit_vector);
                }
                QueueStep::Add(
                    AddUsed { head_index: self.head_index, len: bytes_written as u32 },
                )
            },
            Err(e) => QueueStep::Done(Err(QueueError::Io(e))),
        }
    }
}

impl AddUsed {
    /// Takes whether the chain was returned to the guest; then the next one is taken.
    pub fn added<I, Q>(self, reply: Result<(), Q>) -> (step: QueueStep<I, Q>)
        ensures
            step == after_add::<I, Q>(reply),
    {
        match reply {
            Ok(_) => QueueStep::Pop(PopChain { used_descs: true }),
            Err(e) => QueueStep::Done(Err(QueueError::QueueAddUsed(e))),
        }
    }
}

impl AskNotification {
    /// Takes whether the guest wants to be notified.
    pub fn answered<I, Q>(self, reply: Result<bool, Q>) -> (step: QueueStep<I, Q>)
        ensures
            step == after_ask::<I, Q>(reply),
    {
        match reply {
            Ok(wanted) => QueueStep::Done(Ok(wanted)),
            Err(e) => QueueStep::Done(Err(QueueError::QueueIterator(e))),
        }
    }
}

/// Why an event could not be handled.
#[derive(Debug, PartialEq, Eq)]
pub enum EventError<E> {
    /// The event belongs to no queue.
    UnknownEvent,
    /// Its queue could not be served.
    Queue(E),
}

/// The numbers of the events by which the guest tells that a queue has something for the device.
#[derive(Debug, PartialEq, Eq, Clone, Copy)]
pub struct QueueEvents {
    /// The event of the first queue; those of the others follow it.
    pub queue_avail_event: u16,
}

/// The event of a queue is to be read, whatever comes of that, and the queue is to be served.
#[derive(Debug, PartialEq, Eq, Clone, Copy)]
pub struct ServeQueue {
    pub queue_index: usize,
}

/// The next step of handling an event.
#[derive(Debug, PartialEq, Eq)]
pub enum EventStep<E> {
    Serve(ServeQueue),
    /// The guest is to be told that the queue was served. With that the event is handled,
    /// whatever comes of it.
    Signal { queue_index: u16 },
    /// The event is handled.
    Done(Result<(), EventError<E>>),
}

impl QueueEvents {
    /// What an event leads to: the low 16 bits of `data` are its number, and a number from that of
    /// the first queue on belongs to a queue.
    pub open spec fn first_step<E>(self, data: u64) -> EventStep<E> {
        if data % 65536 >= self.queue_avail_event {
            EventStep::Serve(
                ServeQueue { queue_index: (data % 65536 - self.queue_avail_event) as usize },
            )
        } else {
            EventStep::Done(Err(EventError::UnknownEvent))
        }
    }

    /// The event of a queue leads to that queue.
    pub proof fn events_lead_to_their_queue<E>(self, queue_index: usize)
        requires
            self.queue_avail_event + queue_index <= u16::MAX,
        ensures
            self.first_step::<E>((self.queue_avail_event + queue_index) as u64)
                == EventStep::<E>::Serve(ServeQueue { queue_index }),
    {
    }

    /// The events of the queues follow `helper_event_last`, the last that is taken otherwise.
    pub fn new(helper_event_last: u16) -> (events: Self)
        requires
            helper_event_last < u16::MAX,
        ensures
            events.queue_avail_event == helper_event_last + 1,
    {
        QueueEvents { queue_avail_event: helper_event_last + 1 }
    }

    /// The event of the queue `queue_index`; there are no more than 65536 numbers for them.
    pub fn event_of(&self, queue_index: usize) -> (event: u16)
        requires
            self.queue_avail_event + queue_index as int % 65536 <= u16::MAX,
        ensures
            event == self.queue_avail_event + queue_index as int % 65536,
    {
        proof {
            let n = queue_index as u64;
            assert((n as u16) as u64 == n % 65536) by (bit_vector);
        }
        self.queue_avail_event + queue_index as u16
    }

    /// Starts to handle an event, whose number is in the low bits of `data`.
    pub fn handle_event<E>(&self, data: u64) -> (step: EventStep<E>)
        ensures
            step == self.first_step::<E>(data),
    {
        proof {
            assert((data as u16) as u64 == data % 65536) by (bit_vector);
        }
        let ev_type = data as u16;
        if ev_type >= self.queue_avail_event {
            let queue_index = (ev_type - self.queue_avail_event) as usize;
            EventStep::Serve(ServeQueue { queue_index })
        } else {
            EventStep::Done(Err(EventError::UnknownEvent))
        }
    }
}

impl ServeQueue {
    /// Takes what came of serving the queue: whether the guest is to be notified.
    pub fn processed<E>(self, reply: Result<bool, E>) -> (step: EventStep<E>)
        ensures
            step == match reply {
                Ok(used) => if used {
                    EventStep::<E>::Signal {
                        queue_index: (self.queue_index as int % 65536) as u16,
                    }
                } else {
                    EventStep::Done(Ok(()))
                },
                Err(e) => EventStep::Done(Err(EventError::Queue(e))),
            },
    {
        match reply {
            Ok(used) => {
                if used {
                    proof {
                        let n = self.queue_index as u64;
                        assert((n as u16) as u64 == n % 65536) by (bit_vector);
                    }
                    EventStep::Signal { queue_index: self.queue_index as u16 }
                } else {
                    EventStep::Done(Ok(()))
                }
            },
            Err(e) => EventStep::Done(Err(EventError::Queue(e))),
        }
    }
}

/// The queues that the driver has set up, apart from the events that belong to them.
pub fn split_queues<N, Q, V>(queues: Vec<(N, Q, V)>) -> (parts: (Vec<Q>, Vec<V>))
    ensures
        parts.0@ == queues@.map_values(|entry: (N, Q, V)| entry.1),
        parts.1@ == queues@.map_values(|entry: (N, Q, V)| entry.2),
{
    let ghost all = queues@;
    let mut handler_queues: Vec<Q> = Vec::new();
    let mut queue_evts: Vec<V> = Vec::new();
    for entry in it: queues
        invariant
            it.seq() == all,
            handler_queues@ == all.take(it.index()).map_values(|entry: (N, Q, V)| entry.1),
            queue_evts@ == all.take(it.index()).map_values(|entry: (N, Q, V)| entry.2),
    {
        let (_, queue, queue_evt) = entry;
        handler_queues.push(queue);
        queue_evts.push(queue_evt);
        proof {
            let n = it.index();
            assert(all.take(n + 1) =~= all.take(n).push(all[n]));
        }
    }
    proof {
        assert(all.take(all.len() as int) =~= all);
    }
    (handler_queues, queue_evts)
}

/// The name of the thread that serves the queues of the device `id`.
pub fn worker_name(id: &str) -> (name: String)
    ensures
        name@ == id@ + "_worker"@,
{
    let mut name = id.to_owned();
    name.append("_worker");
    name
}

} // verus!
