//! The broker: records each event in the retention queue and fans it out to
//! every registered client.
use vstd::prelude::*;
use crate::codec::{encode_frame, frame_of};
use crate::registry::{unique, ClientHandle, ClientRegistry, Outbox};
use crate::retention::{copy_bytes, push_ephemeral, total_bytes, views, MessageQueue, RetentionClass};

verus! {

/// The process-wide broker state: the retention queue and the client
/// registry, handed to every session.
pub struct ServerState<C> {
    message_queue: MessageQueue,
    clients: ClientRegistry<C>,
}

impl<C: Outbox> ServerState<C> {
    pub closed spec fn queue(&self) -> MessageQueue {
        self.message_queue
    }

    pub closed spec fn registry(&self) -> ClientRegistry<C> {
        self.clients
    }

    pub open spec fn wf(&self) -> bool {
        self.queue().wf() && self.registry().wf()
    }

    /// Whether `send` accepts an event of `len` bytes in `class`: its frame
    /// fits in memory, and an unbounded evictable partition stays countable.
    pub open spec fn fits(&self, len: nat, class: RetentionClass) -> bool {
        &&& len + 4 <= usize::MAX
        &&& (class == RetentionClass::Ephemeral && self.queue().budget() is None)
            ==> total_bytes(self.queue().ephemeral()) + len + 4 <= u64::MAX
    }

    /// A broker with no history and no clients.
    pub fn new(memory_limit: Option<u64>) -> (r: Self)
        ensures
            r.wf(),
            r.queue().budget() == memory_limit,
            r.queue().ephemeral() == Seq::<Seq<u8>>::empty(),
            r.queue().permanent() == Seq::<Seq<u8>>::empty(),
            r.registry().handles() == Seq::<u64>::empty(),
    {
        ServerState { message_queue: MessageQueue::new(memory_limit), clients: ClientRegistry::new() }
    }

    /// Whether `send` can take `event` in `class` now.
    pub fn can_send(&self, event: &[u8], class: RetentionClass) -> (r: bool)
        requires
            self.wf(),
        ensures
            r == self.fits(event@.len(), class),
    {
        if event.len() > usize::MAX - 4 {
            return false;
        }
        match class {
            RetentionClass::Permanent => true,
            RetentionClass::Ephemeral => {
                if self.message_queue.budget_is_set() {
                    true
                } else {
                    let used = self.message_queue.ephemeral_bytes();
                    (event.len() as u64) <= u64::MAX - 4 && used <= u64::MAX - 4 - (event.len() as u64)
                }
            },
        }
    }

    /// Intake of one event: frames it once, records the frame in the
    /// partition of its class, then hands that same frame to every registered
    /// channel once. A full or closed channel loses it alone.
    pub fn send(&mut self, event: &[u8], class: RetentionClass)
        requires
            old(self).wf(),
            old(self).fits(event@.len(), class),
        ensures
            final(self).wf(),
            final(self).queue().budget() == old(self).queue().budget(),
            class == RetentionClass::Ephemeral ==> final(self).queue().ephemeral() == push_ephemeral(
                old(self).queue().ephemeral(),
                old(self).queue().budget(),
                frame_of(event@),
            ) && final(self).queue().permanent() == old(self).queue().permanent(),
            class == RetentionClass::Permanent ==> final(self).queue().permanent()
                == old(self).queue().permanent().push(frame_of(event@))
                && final(self).queue().ephemeral() == old(self).queue().ephemeral(),
            final(self).registry().handles() == old(self).registry().handles(),
            final(self).registry().next_id() == old(self).registry().next_id(),
            final(self).registry().channels().len() == old(self).registry().channels().len(),
            forall|k: int| 0 <= k < old(self).registry().channels().len()
                ==> (#[trigger] final(self).registry().channels()[k]).offered()
                == old(self).registry().channels()[k].offered().push(frame_of(event@)),
    {
        let data = encode_frame(event);
        let kept = copy_bytes(&data);
        match class {
            RetentionClass::Ephemeral => self.message_queue.push(kept),
            RetentionClass::Permanent => self.message_queue.push_static(kept),
        }
        self.clients.broadcast(&data);
    }

    /// Registers a new client and, in the same step, takes its backlog: every
    /// permanent frame, then every evictable frame, each in arrival order.
    /// No frame is both in the backlog and offered to the new channel later.
    pub fn connect(&mut self, channel: C) -> (r: (ClientHandle, Vec<Vec<u8>>))
        requires
            old(self).wf(),
            old(self).registry().next_id() < u64::MAX,
        ensures
            final(self).wf(),
            final(self).queue() == old(self).queue(),
            views(r.1@) == old(self).queue().permanent() + old(self).queue().ephemeral(),
            !old(self).registry().handles().contains(r.0.id),
            final(self).registry().handles() == old(self).registry().handles().push(r.0.id),
            final(self).registry().channels() == old(self).registry().channels().push(channel),
            final(self).registry().next_id() == old(self).registry().next_id() + 1,
    {
        let handle = self.clients.register(channel);
        let (mut backlog, mut ephemeral) = self.message_queue.snapshot();
        let ghost p = backlog@;
        let ghost e = ephemeral@;
        backlog.append(&mut ephemeral);
        assert(views(backlog@) =~= views(p) + views(e));
        (handle, backlog)
    }

    /// Removes a client's channel from the registry and hands it back;
    /// nothing is offered to it afterwards.
    pub fn disconnect(&mut self, handle: ClientHandle) -> (r: Option<C>)
        requires
            old(self).wf(),
        ensures
            final(self).wf(),
            final(self).queue() == old(self).queue(),
            !final(self).registry().handles().contains(handle.id),
            final(self).registry().next_id() == old(self).registry().next_id(),
            r is Some == old(self).registry().handles().contains(handle.id),
            old(self).registry().handles().contains(handle.id) ==> exists|i: int|
                0 <= i < old(self).registry().handles().len()
                && old(self).registry().handles()[i] == handle.id
                && final(self).registry().handles() == old(self).registry().handles().remove(i)
                && final(self).registry().channels() == old(self).registry().channels().remove(i)
                && r == Some(old(self).registry().channels()[i]),
            !old(self).registry().handles().contains(handle.id) ==> final(self).registry().handles()
                == old(self).registry().handles()
                && final(self).registry().channels() == old(self).registry().channels(),
    {
        self.clients.deregister(handle)
    }

    /// Number of registered clients.
    pub fn client_count(&self) -> (r: usize)
        ensures
            r == self.registry().handles().len(),
    {
        self.clients.len()
    }

    /// Whether another client can be registered.
    pub fn can_connect(&self) -> (r: bool)
        ensures
            r == (self.registry().next_id() < u64::MAX),
    {
        self.clients.has_capacity()
    }
}

/// A channel's record across a run of intakes: `logs[k + 1]` is `logs[k]`
/// with the frame of `events[k]` handed to it, as `ServerState::send` states
/// for every channel registered at that moment.
pub open spec fn handed_each_frame(logs: Seq<Seq<Seq<u8>>>, events: Seq<Seq<u8>>) -> bool {
    &&& logs.len() == events.len() + 1
    &&& forall|k: int| 0 <= k < events.len() ==> #[trigger] logs[k + 1] == logs[k].push(frame_of(events[k]))
}

/// A client that stays registered through a run of intakes is handed
/// exactly the frames of those events, in the order they were taken in.
pub proof fn lemma_intake_order(logs: Seq<Seq<Seq<u8>>>, events: Seq<Seq<u8>>)
    requires
        handed_each_frame(logs, events),
    ensures
        logs.last() == logs[0] + events.map_values(|e: Seq<u8>| frame_of(e)),
    decreases events.len(),
{
    if events.len() == 0 {
        assert(events.map_values(|e: Seq<u8>| frame_of(e)) =~= Seq::<Seq<u8>>::empty());
        assert(logs[0] + Seq::<Seq<u8>>::empty() =~= logs[0]);
    } else {
        let n = events.len() - 1;
        let shorter = logs.drop_last();
        assert forall|k: int| 0 <= k < events.drop_last().len() implies #[trigger] shorter[k + 1]
            == shorter[k].push(frame_of(events.drop_last()[k])) by {
            assert(logs[k + 1] == logs[k].push(frame_of(events[k])));
        }
        lemma_intake_order(shorter, events.drop_last());
        assert(logs[n + 1] == logs[n].push(frame_of(events[n])));
        assert(events.map_values(|e: Seq<u8>| frame_of(e)) =~= events.drop_last().map_values(|e: Seq<u8>| frame_of(e)).push(
            frame_of(events.last()),
        ));
    }
}

/// Once a client is removed from the registry, the registry is one shorter
/// and no handle left in it is the removed one, so no later broadcast, which
/// hands frames only to registered channels, reaches it.
pub proof fn lemma_removed_client_not_offered(handles: Seq<u64>, i: int)
    requires
        unique(handles),
        0 <= i < handles.len(),
    ensures
        !handles.remove(i).contains(handles[i]),
        handles.remove(i).len() == handles.len() - 1,
{
    let rest = handles.remove(i);
    if rest.contains(handles[i]) {
        let j = choose|j: int| 0 <= j < rest.len() && rest[j] == handles[i];
        if j < i {
            assert(handles[j] == handles[i]);
        } else {
            assert(handles[j + 1] == handles[i]);
        }
    }
}

} // verus!
