//! The retention queue: an evictable partition bounded by a byte budget and a
//! permanent partition that is never evicted.
use std::collections::VecDeque;
use vstd::prelude::*;

verus! {

/// Whether an event may be evicted under memory pressure.
#[derive(Clone, Copy, Debug, PartialEq, Eq, Structural)]
pub enum RetentionClass {
    Ephemeral,
    Permanent,
}

/// The class of a log message: data of a recording is evictable; anything
/// else (store and blueprint set-up, blueprint data) is kept for good.
pub fn retention_class(is_data_msg: bool, is_blueprint_store: bool) -> (r: RetentionClass)
    ensures
        r == if is_data_msg && !is_blueprint_store {
            RetentionClass::Ephemeral
        } else {
            RetentionClass::Permanent
        },
{
    if is_data_msg && !is_blueprint_store {
        RetentionClass::Ephemeral
    } else {
        RetentionClass::Permanent
    }
}

/// The byte contents of a sequence of buffers.
pub open spec fn views(bufs: Seq<Vec<u8>>) -> Seq<Seq<u8>> {
    bufs.map_values(|m: Vec<u8>| m@)
}

/// Total number of bytes held by a sequence of frames.
pub open spec fn total_bytes(frames: Seq<Seq<u8>>) -> nat
    decreases frames.len(),
{
    if frames.len() == 0 {
        0
    } else {
        frames[0].len() + total_bytes(frames.drop_first())
    }
}

/// What is left of `frames` once the oldest ones are dropped until `incoming`
/// more bytes fit within `budget`, or nothing is left.
pub open spec fn evict_for(frames: Seq<Seq<u8>>, budget: nat, incoming: nat) -> Seq<Seq<u8>>
    decreases frames.len(),
{
    if frames.len() > 0 && total_bytes(frames) + incoming > budget {
        evict_for(frames.drop_first(), budget, incoming)
    } else {
        frames
    }
}

/// The evictable partition after appending `frame` under an optional budget.
pub open spec fn push_ephemeral(frames: Seq<Seq<u8>>, budget: Option<u64>, frame: Seq<u8>) -> Seq<Seq<u8>> {
    match budget {
        Some(b) => evict_for(frames, b as nat, frame.len()).push(frame),
        None => frames.push(frame),
    }
}

pub proof fn lemma_total_push(frames: Seq<Seq<u8>>, frame: Seq<u8>)
    ensures
        total_bytes(frames.push(frame)) == total_bytes(frames) + frame.len(),
    decreases frames.len(),
{
    if frames.len() == 0 {
        assert(frames.push(frame).drop_first() =~= Seq::<Seq<u8>>::empty());
        assert(total_bytes(Seq::<Seq<u8>>::empty()) == 0);
    } else {
        assert(frames.push(frame).drop_first() =~= frames.drop_first().push(frame));
        assert(frames.push(frame)[0] == frames[0]);
        lemma_total_push(frames.drop_first(), frame);
    }
}

/// `evict_for` leaves a suffix of its input that either fits `incoming` more
/// bytes within the budget or is empty.
pub proof fn lemma_evict_for(frames: Seq<Seq<u8>>, budget: nat, incoming: nat)
    ensures
        ({
            let kept = evict_for(frames, budget, incoming);
            &&& kept.len() <= frames.len()
            &&& kept == frames.subrange(frames.len() - kept.len(), frames.len() as int)
            &&& kept.len() == 0 || total_bytes(kept) + incoming <= budget
        }),
    decreases frames.len(),
{
    if frames.len() > 0 && total_bytes(frames) + incoming > budget {
        lemma_evict_for(frames.drop_first(), budget, incoming);
        let kept = evict_for(frames, budget, incoming);
        assert(kept == frames.subrange(frames.len() - kept.len(), frames.len() as int));
    } else {
        assert(frames == frames.subrange(0, frames.len() as int));
    }
}

/// Both partitions, evictable then permanent, after a run of appends.
pub open spec fn after_appends(
    ephemeral: Seq<Seq<u8>>,
    permanent: Seq<Seq<u8>>,
    budget: Option<u64>,
    appends: Seq<(RetentionClass, Seq<u8>)>,
) -> (Seq<Seq<u8>>, Seq<Seq<u8>>)
    decreases appends.len(),
{
    if appends.len() == 0 {
        (ephemeral, permanent)
    } else {
        let (e, p) = after_appends(ephemeral, permanent, budget, appends.drop_last());
        let (class, frame) = appends.last();
        match class {
            RetentionClass::Ephemeral => (push_ephemeral(e, budget, frame), p),
            RetentionClass::Permanent => (e, p.push(frame)),
        }
    }
}

/// The permanent frames of a run of appends, in order.
pub open spec fn permanent_of(appends: Seq<(RetentionClass, Seq<u8>)>) -> Seq<Seq<u8>>
    decreases appends.len(),
{
    if appends.len() == 0 {
        Seq::empty()
    } else {
        let (class, frame) = appends.last();
        match class {
            RetentionClass::Permanent => permanent_of(appends.drop_last()).push(frame),
            RetentionClass::Ephemeral => permanent_of(appends.drop_last()),
        }
    }
}

/// However many evictable frames arrive, every permanent frame ever appended
/// is still held, in the order of appending.
pub proof fn lemma_permanent_kept(
    ephemeral: Seq<Seq<u8>>,
    permanent: Seq<Seq<u8>>,
    budget: Option<u64>,
    appends: Seq<(RetentionClass, Seq<u8>)>,
)
    ensures
        after_appends(ephemeral, permanent, budget, appends).1 == permanent + permanent_of(appends),
    decreases appends.len(),
{
    if appends.len() == 0 {
        assert(permanent + Seq::<Seq<u8>>::empty() =~= permanent);
    } else {
        lemma_permanent_kept(ephemeral, permanent, budget, appends.drop_last());
        let (class, frame) = appends.last();
        if class == RetentionClass::Permanent {
            assert(permanent + permanent_of(appends.drop_last()).push(frame)
                =~= (permanent + permanent_of(appends.drop_last())).push(frame));
        }
    }
}

/// After an evictable frame is appended under budget `b`, the evictable
/// partition holds at most `b` bytes; only a frame larger than `b` on its own
/// can exceed it, and then it is the only frame left.
pub proof fn lemma_memory_bound(frames: Seq<Seq<u8>>, b: u64, frame: Seq<u8>)
    ensures
        ({
            let after = push_ephemeral(frames, Some(b), frame);
            total_bytes(after) <= b || (after == seq![frame] && frame.len() > b)
        }),
{
    let kept = evict_for(frames, b as nat, frame.len());
    lemma_evict_for(frames, b as nat, frame.len());
    lemma_total_push(kept, frame);
    if kept.len() == 0 {
        assert(kept.push(frame) =~= seq![frame]);
        assert(total_bytes(kept) == 0);
    }
}

/// Held frames: the evictable ones in arrival order, oldest first, and the
/// permanent ones in arrival order.
pub struct MessageQueue {
    server_memory_limit: Option<u64>,
    messages: VecDeque<Vec<u8>>,
    messages_static: Vec<Vec<u8>>,
    bytes_used: u64,
}

impl MessageQueue {
    pub closed spec fn budget(&self) -> Option<u64> {
        self.server_memory_limit
    }

    /// The evictable frames, oldest first.
    pub closed spec fn ephemeral(&self) -> Seq<Seq<u8>> {
        views(self.messages@)
    }

    /// The permanent frames, in the order they were appended.
    pub closed spec fn permanent(&self) -> Seq<Seq<u8>> {
        views(self.messages_static@)
    }

    pub closed spec fn wf(&self) -> bool {
        self.bytes_used as nat == total_bytes(self.ephemeral())
    }

    /// An empty queue; `memory_limit` bounds the evictable partition's bytes,
    /// `None` leaves it unbounded.
    pub fn new(memory_limit: Option<u64>) -> (r: Self)
        ensures
            r.wf(),
            r.budget() == memory_limit,
            r.ephemeral() == Seq::<Seq<u8>>::empty(),
            r.permanent() == Seq::<Seq<u8>>::empty(),
    {
        let r = MessageQueue {
            server_memory_limit: memory_limit,
            messages: VecDeque::new(),
            messages_static: Vec::new(),
            bytes_used: 0,
        };
        assert(r.ephemeral() =~= Seq::<Seq<u8>>::empty());
        assert(r.permanent() =~= Seq::<Seq<u8>>::empty());
        r
    }

    /// Whether the evictable partition is bounded.
    pub fn budget_is_set(&self) -> (r: bool)
        ensures
            r == self.budget() is Some,
    {
        self.server_memory_limit.is_some()
    }

    /// Bytes held by the evictable partition.
    pub fn ephemeral_bytes(&self) -> (r: u64)
        requires
            self.wf(),
        ensures
            r as nat == total_bytes(self.ephemeral()),
    {
        self.bytes_used
    }

    /// Drops the oldest evictable frames until `incoming` more bytes fit within
    /// the budget, or none is left; does nothing without a budget.
    fn gc_if_using_too_much_ram(&mut self, incoming: usize)
        requires
            old(self).wf(),
        ensures
            final(self).wf(),
            final(self).budget() == old(self).budget(),
            final(self).permanent() == old(self).permanent(),
            final(self).ephemeral() == match old(self).budget() {
                Some(b) => evict_for(old(self).ephemeral(), b as nat, incoming as nat),
                None => old(self).ephemeral(),
            },
    {
        if let Some(max_bytes) = self.server_memory_limit {
            while self.messages.len() > 0 && (self.bytes_used as u128) + (incoming as u128) > (max_bytes as u128)
                invariant
                    self.wf(),
                    self.server_memory_limit == Some(max_bytes),
                    self.permanent() == old(self).permanent(),
                    evict_for(self.ephemeral(), max_bytes as nat, incoming as nat)
                        == evict_for(old(self).ephemeral(), max_bytes as nat, incoming as nat),
                decreases self.messages@.len(),
            {
                let ghost before = self.ephemeral();
                let front = self.messages.pop_front().unwrap();
                proof {
                    assert(self.ephemeral() =~= before.drop_first());
                }
                self.bytes_used = self.bytes_used - front.len() as u64;
            }
            proof {
                assert(self.messages@.len() == 0 ==> self.ephemeral() =~= Seq::<Seq<u8>>::empty());
            }
        }
    }

    /// Appends an evictable frame, first dropping the oldest evictable frames
    /// until the new one fits within the budget.
    pub fn push(&mut self, msg: Vec<u8>)
        requires
            old(self).wf(),
            old(self).budget() is None ==> total_bytes(old(self).ephemeral()) + msg@.len() <= u64::MAX,
        ensures
            final(self).wf(),
            final(self).budget() == old(self).budget(),
            final(self).permanent() == old(self).permanent(),
            final(self).ephemeral() == push_ephemeral(old(self).ephemeral(), old(self).budget(), msg@),
            final(self).budget() matches Some(b) ==> total_bytes(final(self).ephemeral()) <= b
                || (final(self).ephemeral() == seq![msg@] && msg@.len() > b),
    {
        let ghost m = msg@;
        self.gc_if_using_too_much_ram(msg.len());
        proof {
            if let Some(b) = old(self).budget() {
                lemma_evict_for(old(self).ephemeral(), b as nat, m.len());
            }
            lemma_total_push(self.ephemeral(), m);
        }
        let ghost before = self.ephemeral();
        self.bytes_used = self.bytes_used + msg.len() as u64;
        self.messages.push_back(msg);
        proof {
            assert(self.ephemeral() =~= before.push(m));
            if let Some(b) = old(self).budget() {
                lemma_memory_bound(old(self).ephemeral(), b, m);
            }
        }
    }

    /// Appends a permanent frame; it is never evicted and never counted
    /// against the budget.
    pub fn push_static(&mut self, msg: Vec<u8>)
        requires
            old(self).wf(),
        ensures
            final(self).wf(),
            final(self).budget() == old(self).budget(),
            final(self).ephemeral() == old(self).ephemeral(),
            final(self).permanent() == old(self).permanent().push(msg@),
    {
        let ghost m = msg@;
        self.messages_static.push(msg);
        assert(self.permanent() =~= old(self).permanent().push(m));
    }

    /// A copy of both partitions: the permanent frames, then the evictable
    /// ones, each in arrival order.
    pub fn snapshot(&self) -> (r: (Vec<Vec<u8>>, Vec<Vec<u8>>))
        ensures
            views(r.0@) == self.permanent(),
            views(r.1@) == self.ephemeral(),
    {
        let mut permanent: Vec<Vec<u8>> = Vec::new();
        let mut i: usize = 0;
        while i < self.messages_static.len()
            invariant
                i <= self.messages_static@.len(),
                permanent@.len() == i,
                views(permanent@) == self.permanent().subrange(0, i as int),
            decreases self.messages_static@.len() - i,
        {
            let ghost prev = permanent@;
            let c = copy_bytes(&self.messages_static[i]);
            assert(c@ == self.permanent()[i as int]);
            permanent.push(c);
            assert(permanent@ == prev.push(c));
            i += 1;
            proof {
                assert forall|k: int| 0 <= k < i implies #[trigger] views(permanent@)[k] == self.permanent()[k] by {
                    assert(views(permanent@)[k] == permanent@[k]@);
                    if k < i - 1 {
                        assert(permanent@[k] == prev[k]);
                        assert(views(prev)[k] == prev[k]@);
                        assert(views(prev)[k] == self.permanent().subrange(0, i - 1)[k]);
                    }
                }
                assert(views(permanent@) =~= self.permanent().subrange(0, i as int));
            }
        }
        let mut ephemeral: Vec<Vec<u8>> = Vec::new();
        let mut j: usize = 0;
        while j < self.messages.len()
            invariant
                j <= self.messages@.len(),
                ephemeral@.len() == j,
                views(ephemeral@) == self.ephemeral().subrange(0, j as int),
            decreases self.messages@.len() - j,
        {
            let ghost prev = ephemeral@;
            let c = copy_bytes(&self.messages[j]);
            assert(c@ == self.ephemeral()[j as int]);
            ephemeral.push(c);
            assert(ephemeral@ == prev.push(c));
            j += 1;
            proof {
                assert forall|k: int| 0 <= k < j implies #[trigger] views(ephemeral@)[k] == self.ephemeral()[k] by {
                    assert(views(ephemeral@)[k] == ephemeral@[k]@);
                    if k < j - 1 {
                        assert(ephemeral@[k] == prev[k]);
                        assert(views(prev)[k] == prev[k]@);
                        assert(views(prev)[k] == self.ephemeral().subrange(0, j - 1)[k]);
                    }
                }
                assert(views(ephemeral@) =~= self.ephemeral().subrange(0, j as int));
            }
        }
        assert(self.permanent().subrange(0, i as int) =~= self.permanent());
        assert(self.ephemeral().subrange(0, j as int) =~= self.ephemeral());
        (permanent, ephemeral)
    }
}

/// A copy of a byte buffer.
pub(crate) fn copy_bytes(b: &Vec<u8>) -> (r: Vec<u8>)
    ensures
        r@ == b@,
{
    let r = b.clone();
    assert(r@ =~= b@);
    r
}

} // verus!
