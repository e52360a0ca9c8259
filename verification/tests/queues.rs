use virtiofs::handler::{
    process_queue, split_queues, worker_name, EventError, EventStep, QueueError, QueueEvents,
    QueueStep, ServeQueue,
};

/// What a queue holds: for each chain its head, the reply to it, and whether it can be returned.
type Chains = Vec<(u16, Result<usize, i32>, Result<(), u8>)>;

/// What serving came to, and the chains that were returned with their lengths.
type Served = (Result<bool, QueueError<i32, u8>>, Vec<(u16, u32)>);

fn serve(chains: Chains, asked: Result<bool, u8>) -> Served {
    let mut used = Vec::new();
    let mut next: usize = 0;
    let mut step: QueueStep<i32, u8> = process_queue();
    loop {
        step = match step {
            QueueStep::Pop(pop) => {
                if next < chains.len() {
                    pop.popped(Some(chains[next].0))
                } else {
                    pop.popped(None)
                }
            }
            QueueStep::Serve(serve) => serve.served(chains[next].1),
            QueueStep::Add(add) => {
                used.push((add.head_index, add.len));
                next += 1;
                add.added(chains[next - 1].2)
            }
            QueueStep::Ask(ask) => ask.answered(asked),
            QueueStep::Done(outcome) => return (outcome, used),
        };
    }
}

#[test]
fn an_empty_queue_needs_no_notification() {
    assert_eq!(serve(vec![], Ok(true)), (Ok(false), vec![]));
}

#[test]
fn a_served_queue_notifies_as_the_guest_wishes() {
    let chains: Chains = vec![(3, Ok(16), Ok(())), (7, Ok(0), Ok(()))];
    assert_eq!(serve(chains.clone(), Ok(true)), (Ok(true), vec![(3, 16), (7, 0)]));
    assert_eq!(serve(chains.clone(), Ok(false)), (Ok(false), vec![(3, 16), (7, 0)]));
    assert_eq!(serve(chains, Err(4)), (Err(QueueError::QueueIterator(4)), vec![(3, 16), (7, 0)]));
}

#[test]
fn a_failed_message_ends_the_queue() {
    let chains: Chains = vec![(3, Ok(16), Ok(())), (7, Err(5), Ok(())), (8, Ok(1), Ok(()))];
    assert_eq!(serve(chains, Ok(true)), (Err(QueueError::Io(5)), vec![(3, 16)]));
}

#[test]
fn a_chain_that_cannot_be_returned_ends_the_queue() {
    let chains: Chains = vec![(3, Ok(16), Err(9)), (8, Ok(1), Ok(()))];
    assert_eq!(serve(chains, Ok(true)), (Err(QueueError::QueueAddUsed(9)), vec![(3, 16)]));
}

#[test]
fn written_bytes_are_cut_to_32_bits() {
    let chains: Chains = vec![(3, Ok(0x1_0000_0005), Ok(()))];
    assert_eq!(serve(chains, Ok(false)), (Ok(false), vec![(3, 5)]));
}

#[test]
fn events_lead_to_their_queues() {
    let events = QueueEvents::new(15);
    assert_eq!(events.queue_avail_event, 16);
    assert_eq!(events.event_of(0), 16);
    assert_eq!(events.event_of(2), 18);
    for i in 0..5 {
        let data = u64::from(events.event_of(i));
        assert_eq!(
            events.handle_event::<i32>(data),
            EventStep::Serve(ServeQueue { queue_index: i })
        );
    }
    assert_eq!(
        events.handle_event::<i32>(0xab_0000 + 17),
        EventStep::Serve(ServeQueue { queue_index: 1 })
    );
}

#[test]
fn an_event_below_the_queues_is_unknown() {
    let events = QueueEvents::new(15);
    let unknown: EventStep<i32> = EventStep::Done(Err(EventError::UnknownEvent));
    assert_eq!(events.handle_event(15), unknown);
    assert_eq!(events.handle_event(0x1_0000), unknown);
}

#[test]
fn a_served_queue_is_signalled_where_it_was_used() {
    let queue = ServeQueue { queue_index: 3 };
    assert_eq!(queue.processed::<i32>(Ok(true)), EventStep::Signal { queue_index: 3 });
    assert_eq!(queue.processed::<i32>(Ok(false)), EventStep::Done(Ok(())));
    assert_eq!(queue.processed(Err(5)), EventStep::Done(Err(EventError::Queue(5))));
}

#[test]
fn queues_are_parted_from_their_events() {
    let (queues, events) = split_queues(vec![(0u8, 'a', true), (1, 'b', false)]);
    assert_eq!(queues, vec!['a', 'b']);
    assert_eq!(events, vec![true, false]);
}

#[test]
fn the_worker_is_named_after_the_device() {
    assert_eq!(worker_name("fs0"), "fs0_worker");
    assert_eq!(worker_name(""), "_worker");
}
