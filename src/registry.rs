//! The set of connected clients' delivery channels.
use tokio::sync::mpsc::Sender;
use vstd::prelude::*;

verus! {

/// The sending side of one client's bounded delivery channel.
pub trait Outbox {
    /// Every frame handed to this channel so far, in order, whether or not
    /// the channel took it.
    spec fn offered(&self) -> Seq<Seq<u8>>;

    /// Enqueues a frame without waiting; `false` when the channel is full or
    /// its receiver is gone, in which case the frame is dropped for this
    /// client only.
    fn offer(&mut self, frame: Vec<u8>) -> (accepted: bool)
        ensures
            final(self).offered() == old(self).offered().push(frame@),
    ;
}

#[verifier::external_type_specification]
#[verifier::external_body]
#[verifier::reject_recursive_types(T)]
pub struct ExSender<T>(Sender<T>);

/// Relies on tokio's `mpsc::Sender::try_send`: it enqueues without waiting,
/// and fails when the channel is full or its receiver is gone.
#[verifier::external_body]
fn try_send(tx: &Sender<Vec<u8>>, frame: Vec<u8>) -> (accepted: bool) {
    tx.try_send(frame).is_ok()
}

/// A client's tokio channel, with the record of what was handed to it.
pub struct ChannelOutbox {
    tx: Sender<Vec<u8>>,
    offered: Ghost<Seq<Seq<u8>>>,
}

impl ChannelOutbox {
    pub fn new(tx: Sender<Vec<u8>>) -> (r: Self)
        ensures
            r.offered() == Seq::<Seq<u8>>::empty(),
    {
        ChannelOutbox { tx, offered: Ghost(Seq::empty()) }
    }
}

impl Outbox for ChannelOutbox {
    closed spec fn offered(&self) -> Seq<Seq<u8>> {
        self.offered@
    }

    fn offer(&mut self, frame: Vec<u8>) -> (accepted: bool) {
        let ghost f = frame@;
        let accepted = try_send(&self.tx, frame);
        self.offered = Ghost(self.offered@.push(f));
        accepted
    }
}

/// Identifies one registration; two registrations never share a handle, even
/// when their channels hold the same content.
#[derive(Clone, Copy, Debug, PartialEq, Eq, Structural)]
pub struct ClientHandle {
    pub id: u64,
}

pub struct Registration<C> {
    pub handle: ClientHandle,
    pub channel: C,
}

/// Whether no handle occurs twice.
pub open spec fn unique(handles: Seq<u64>) -> bool {
    forall|i: int, j: int| 0 <= i < j < handles.len() ==> handles[i] != handles[j]
}

pub struct ClientRegistry<C> {
    entries: Vec<Registration<C>>,
    next_id: u64,
}

impl<C: Outbox> ClientRegistry<C> {
    /// Registered handles, in registration order.
    pub closed spec fn handles(&self) -> Seq<u64> {
        self.entries@.map_values(|e: Registration<C>| e.handle.id)
    }

    /// Registered channels, aligned with `handles`.
    pub closed spec fn channels(&self) -> Seq<C> {
        self.entries@.map_values(|e: Registration<C>| e.channel)
    }

    pub closed spec fn next_id(&self) -> u64 {
        self.next_id
    }

    pub closed spec fn wf(&self) -> bool {
        &&& unique(self.handles())
        &&& forall|i: int| 0 <= i < self.handles().len() ==> #[trigger] self.handles()[i] < self.next_id
        &&& self.channels().len() == self.handles().len()
    }

    pub fn new() -> (r: Self)
        ensures
            r.wf(),
            r.handles() == Seq::<u64>::empty(),
            r.channels() == Seq::<C>::empty(),
            r.next_id() == 0,
    {
        let r = ClientRegistry { entries: Vec::new(), next_id: 0 };
        assert(r.handles() =~= Seq::<u64>::empty());
        assert(r.channels() =~= Seq::<C>::empty());
        r
    }

    /// Number of registered clients.
    pub fn len(&self) -> (r: usize)
        ensures
            r == self.handles().len(),
    {
        self.entries.len()
    }

    /// Whether another client can still be given a fresh handle.
    pub fn has_capacity(&self) -> (r: bool)
        ensures
            r == (self.next_id() < u64::MAX),
    {
        self.next_id < u64::MAX
    }

    /// Adds a channel under a handle that no earlier registration had.
    pub fn register(&mut self, channel: C) -> (r: ClientHandle)
        requires
            old(self).wf(),
            old(self).next_id() < u64::MAX,
        ensures
            final(self).wf(),
            !old(self).handles().contains(r.id),
            final(self).handles() == old(self).handles().push(r.id),
            final(self).channels() == old(self).channels().push(channel),
            final(self).next_id() == old(self).next_id() + 1,
    {
        let handle = ClientHandle { id: self.next_id };
        let ghost ch = channel;
        let ghost hs = self.handles();
        let ghost cs = self.channels();
        proof {
            if hs.contains(handle.id) {
                let i = choose|i: int| 0 <= i < hs.len() && hs[i] == handle.id;
                assert(hs[i] < self.next_id);
            }
        }
        self.entries.push(Registration { handle, channel });
        self.next_id = self.next_id + 1;
        assert(self.handles() =~= hs.push(handle.id));
        assert(self.channels() =~= cs.push(ch));
        handle
    }

    /// Removes the channel registered under `handle`, if it is still there,
    /// and hands it back: no later broadcast can reach it.
    pub fn deregister(&mut self, handle: ClientHandle) -> (r: Option<C>)
        requires
            old(self).wf(),
        ensures
            final(self).wf(),
            !final(self).handles().contains(handle.id),
            final(self).next_id() == old(self).next_id(),
            r is Some == old(self).handles().contains(handle.id),
            old(self).handles().contains(handle.id) ==> exists|i: int|
                0 <= i < old(self).handles().len()
                && old(self).handles()[i] == handle.id
                && final(self).handles() == old(self).handles().remove(i)
                && final(self).channels() == old(self).channels().remove(i)
                && r == Some(old(self).channels()[i]),
            !old(self).handles().contains(handle.id) ==> final(self).handles() == old(self).handles()
                && final(self).channels() == old(self).channels(),
    {
        let mut i: usize = 0;
        while i < self.entries.len()
            invariant
                i <= self.handles().len(),
                self.entries@.len() == self.handles().len(),
                self.wf(),
                self.next_id == old(self).next_id,
                self.handles() == old(self).handles(),
                self.channels() == old(self).channels(),
                forall|k: int| 0 <= k < i ==> self.handles()[k] != handle.id,
            decreases self.entries@.len() - i,
        {
            if self.entries[i].handle.id == handle.id {
                let ghost hs = self.handles();
                let ghost cs = self.channels();
                let removed = self.entries.remove(i);
                proof {
                    assert(hs[i as int] == handle.id);
                    assert(cs[i as int] == removed.channel);
                    assert(self.handles() =~= hs.remove(i as int));
                    assert(self.channels() =~= cs.remove(i as int));
                    if self.handles().contains(handle.id) {
                        let j = choose|j: int| 0 <= j < self.handles().len() && self.handles()[j] == handle.id;
                        if j < i {
                            assert(hs[j] == handle.id);
                        } else {
                            assert(hs[j + 1] == hs[i as int]);
                        }
                    }
                    assert forall|a: int, b: int| 0 <= a < b < self.handles().len() implies
                        self.handles()[a] != self.handles()[b] by {
                        let a2 = if a < i { a } else { a + 1 };
                        let b2 = if b < i { b } else { b + 1 };
                        assert(hs[a2] != hs[b2]);
                    }
                    assert forall|k: int| 0 <= k < self.handles().len() implies #[trigger] self.handles()[k] < self.next_id by {
                        let k2 = if k < i { k } else { k + 1 };
                        assert(hs[k2] < self.next_id);
                    }
                }
                return Some(removed.channel);
            }
            i += 1;
        }
        proof {
            if self.handles().contains(handle.id) {
                let j = choose|j: int| 0 <= j < self.handles().len() && self.handles()[j] == handle.id;
                assert(self.handles()[j] != handle.id);
            }
        }
        None
    }

    /// Hands `frame` to every registered channel, once each; a channel that
    /// refuses it loses that frame alone and is left for its own session to
    /// notice.
    pub fn broadcast(&mut self, frame: &Vec<u8>)
        requires
            old(self).wf(),
        ensures
            final(self).wf(),
            final(self).handles() == old(self).handles(),
            final(self).next_id() == old(self).next_id(),
            final(self).channels().len() == old(self).channels().len(),
            forall|k: int| 0 <= k < old(self).channels().len() ==> (#[trigger] final(self).channels()[k]).offered()
                == old(self).channels()[k].offered().push(frame@),
    {
        let mut i: usize = 0;
        while i < self.entries.len()
            invariant
                i <= self.entries@.len(),
                self.entries@.len() == old(self).entries@.len(),
                self.handles() == old(self).handles(),
                self.next_id == old(self).next_id,
                self.wf(),
                forall|k: int| 0 <= k < i ==> (#[trigger] self.channels()[k]).offered()
                    == old(self).channels()[k].offered().push(frame@),
                forall|k: int| i <= k < self.entries@.len() ==> #[trigger] self.channels()[k] == old(self).channels()[k],
            decreases self.entries@.len() - i,
        {
            let ghost before = self.entries@;
            let ghost old_channels = self.channels();
            let copy = frame.clone();
            proof {
                assert(copy@ =~= frame@);
            }
            let _accepted = self.entries[i].channel.offer(copy);
            proof {
                assert(self.entries@.len() == before.len());
                assert(self.entries@[i as int].channel.offered() == before[i as int].channel.offered().push(frame@));
                assert(self.entries@[i as int].handle == before[i as int].handle);
                assert forall|k: int| 0 <= k < self.entries@.len() && k != i implies self.entries@[k] == before[k] by {}
                assert(self.handles() =~= old(self).handles());
            }
            i += 1;
            proof {
                assert forall|k: int| 0 <= k < i implies (#[trigger] self.channels()[k]).offered()
                    == old(self).channels()[k].offered().push(frame@) by {
                    assert(self.channels()[k] == self.entries@[k].channel);
                    assert(old_channels[k] == before[k].channel);
                    if k < i - 1 {
                        assert(before[k] == self.entries@[k]);
                        assert(old_channels[k].offered() == old(self).channels()[k].offered().push(frame@));
                    } else {
                        assert(old_channels[k] == old(self).channels()[k]);
                    }
                }
                assert forall|k: int| i <= k < self.entries@.len() implies #[trigger] self.channels()[k]
                    == old(self).channels()[k] by {
                    assert(self.channels()[k] == self.entries@[k].channel);
                    assert(before[k] == self.entries@[k]);
                    assert(old_channels[k] == before[k].channel);
                    assert(old_channels[k] == old(self).channels()[k]);
                }
            }
        }
    }
}

} // verus!
