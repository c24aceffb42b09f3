//! One client's session after it has connected: replay the backlog, then
//! stream live frames until a write fails or the channel closes. The caller
//! performs each action and reports its outcome back.
use vstd::prelude::*;
use crate::registry::ClientHandle;
use crate::retention::{copy_bytes, views};

verus! {

#[derive(Clone, Copy, Debug, PartialEq, Eq, Structural)]
pub enum SessionPhase {
    Replaying,
    Streaming,
    Disconnected,
}

/// What the caller must do next.
pub enum SessionAction {
    /// Write this frame to the socket and report the outcome.
    Write(Vec<u8>),
    /// Wait for the next frame on the delivery channel and report it.
    AwaitFrame,
    /// Remove this handle from the registry; the session is over.
    Deregister(ClientHandle),
    /// Ask `poll` for the next step.
    Continue,
    /// Nothing more to do.
    Stop,
}

pub struct Session {
    handle: ClientHandle,
    backlog: Vec<Vec<u8>>,
    next: usize,
    phase: SessionPhase,
    written: Ghost<Seq<Seq<u8>>>,
}

impl Session {
    pub closed spec fn handle(&self) -> ClientHandle {
        self.handle
    }

    pub closed spec fn phase(&self) -> SessionPhase {
        self.phase
    }

    /// The frames to replay, in order.
    pub closed spec fn backlog(&self) -> Seq<Seq<u8>> {
        views(self.backlog@)
    }

    /// How many backlog frames have been handed out for writing.
    pub closed spec fn replayed(&self) -> nat {
        self.next as nat
    }

    /// Every frame handed out for writing so far, in order.
    pub closed spec fn written(&self) -> Seq<Seq<u8>> {
        self.written@
    }

    pub closed spec fn wf(&self) -> bool {
        &&& self.next <= self.backlog@.len()
        &&& self.phase == SessionPhase::Replaying ==> self.written@ == self.backlog().subrange(0, self.next as int)
        &&& self.phase != SessionPhase::Replaying ==> self.next == self.backlog@.len()
            && self.backlog().is_prefix_of(self.written@)
    }

    /// A session that has registered under `handle` and took `backlog`.
    pub fn new(handle: ClientHandle, backlog: Vec<Vec<u8>>) -> (r: Self)
        ensures
            r.wf(),
            r.handle() == handle,
            r.phase() == SessionPhase::Replaying,
            r.backlog() == views(backlog@),
            r.replayed() == 0,
            r.written() == Seq::<Seq<u8>>::empty(),
    {
        let r = Session { handle, backlog, next: 0, phase: SessionPhase::Replaying, written: Ghost(Seq::empty()) };
        assert(r.backlog().subrange(0, 0) =~= Seq::<Seq<u8>>::empty());
        r
    }

    /// Where the session stands.
    pub fn current_phase(&self) -> (r: SessionPhase)
        ensures
            r == self.phase(),
    {
        self.phase
    }

    /// The next step when the caller is idle: the next backlog frame while
    /// replaying, then waiting for live frames.
    pub fn poll(&mut self) -> (r: SessionAction)
        requires
            old(self).wf(),
        ensures
            final(self).wf(),
            final(self).handle() == old(self).handle(),
            final(self).backlog() == old(self).backlog(),
            old(self).phase() == SessionPhase::Replaying && old(self).replayed() < old(self).backlog().len() ==> (r matches SessionAction::Write(f)
                && f@ == old(self).backlog()[old(self).replayed() as int]
                && final(self).written() == old(self).written().push(f@)
                && final(self).phase() == SessionPhase::Replaying
                && final(self).replayed() == old(self).replayed() + 1),
            old(self).phase() == SessionPhase::Replaying && old(self).replayed() == old(self).backlog().len() ==> {
                &&& r is AwaitFrame
                &&& final(self).phase() == SessionPhase::Streaming
                &&& final(self).written() == old(self).backlog()
            },
            old(self).phase() == SessionPhase::Streaming ==> r is AwaitFrame && *final(self) == *old(self),
            old(self).phase() == SessionPhase::Disconnected ==> r is Stop && *final(self) == *old(self),
    {
        match self.phase {
            SessionPhase::Replaying => {
                if self.next < self.backlog.len() {
                    let f = copy_bytes(&self.backlog[self.next]);
                    let ghost w = self.written@;
                    self.written = Ghost(w.push(f@));
                    self.next = self.next + 1;
                    assert(self.backlog().subrange(0, self.next as int) =~= w.push(f@));
                    SessionAction::Write(f)
                } else {
                    self.phase = SessionPhase::Streaming;
                    assert(self.backlog().subrange(0, self.next as int) =~= self.backlog());
                    assert(self.backlog().is_prefix_of(self.written@));
                    SessionAction::AwaitFrame
                }
            },
            SessionPhase::Streaming => SessionAction::AwaitFrame,
            SessionPhase::Disconnected => SessionAction::Stop,
        }
    }

    /// The outcome of the last write. A failed replay write is passed over;
    /// a failed live write ends the session.
    pub fn write_done(&mut self, ok: bool) -> (r: SessionAction)
        requires
            old(self).wf(),
        ensures
            final(self).wf(),
            final(self).handle() == old(self).handle(),
            final(self).backlog() == old(self).backlog(),
            final(self).written() == old(self).written(),
            final(self).replayed() == old(self).replayed(),
            old(self).phase() == SessionPhase::Streaming && !ok ==> final(self).phase() == SessionPhase::Disconnected
                && r == SessionAction::Deregister(old(self).handle()),
            old(self).phase() == SessionPhase::Streaming && ok ==> final(self).phase() == SessionPhase::Streaming
                && r is Continue,
            old(self).phase() == SessionPhase::Replaying ==> final(self).phase() == SessionPhase::Replaying
                && r is Continue,
            old(self).phase() == SessionPhase::Disconnected ==> final(self).phase() == SessionPhase::Disconnected
                && r is Stop,
    {
        match self.phase {
            SessionPhase::Streaming => {
                if ok {
                    SessionAction::Continue
                } else {
                    self.phase = SessionPhase::Disconnected;
                    SessionAction::Deregister(self.handle)
                }
            },
            SessionPhase::Replaying => SessionAction::Continue,
            SessionPhase::Disconnected => SessionAction::Stop,
        }
    }

    /// What arrived on the delivery channel while streaming: a frame to
    /// write, or `None` once the channel is closed, which ends the session.
    pub fn received(&mut self, frame: Option<Vec<u8>>) -> (r: SessionAction)
        requires
            old(self).wf(),
            old(self).phase() == SessionPhase::Streaming,
        ensures
            final(self).wf(),
            final(self).handle() == old(self).handle(),
            final(self).backlog() == old(self).backlog(),
            final(self).replayed() == old(self).replayed(),
            frame matches Some(f) ==> (r matches SessionAction::Write(w) && w@ == f@
                && final(self).phase() == SessionPhase::Streaming
                && final(self).written() == old(self).written().push(f@)),
            frame is None ==> r == SessionAction::Deregister(old(self).handle())
                && final(self).phase() == SessionPhase::Disconnected
                && final(self).written() == old(self).written(),
    {
        match frame {
            Some(f) => {
                let ghost w = self.written@;
                self.written = Ghost(w.push(f@));
                proof {
                    assert(self.backlog().is_prefix_of(w));
                    assert forall|k: int| 0 <= k < self.backlog().len() implies self.backlog()[k] == self.written@[k] by {
                        assert(self.backlog()[k] == w[k]);
                    }
                }
                SessionAction::Write(f)
            },
            None => {
                self.phase = SessionPhase::Disconnected;
                SessionAction::Deregister(self.handle)
            },
        }
    }
}

/// What a session writes once streaming: it starts from the whole backlog (as
/// `poll` states when replay ends), and each frame `received` then appends
/// its frame. After frames `live` arrive, the session has written exactly the
/// backlog followed by `live`, in arrival order.
pub proof fn lemma_replay_then_live(backlog: Seq<Seq<u8>>, written: Seq<Seq<Seq<u8>>>, live: Seq<Seq<u8>>)
    requires
        written.len() == live.len() + 1,
        written[0] == backlog,
        forall|k: int| 0 <= k < live.len() ==> #[trigger] written[k + 1] == written[k].push(live[k]),
    ensures
        written.last() == backlog + live,
    decreases live.len(),
{
    if live.len() == 0 {
        assert(backlog + live =~= backlog);
    } else {
        let n = live.len() - 1;
        let shorter = written.drop_last();
        assert forall|k: int| 0 <= k < live.drop_last().len() implies #[trigger] shorter[k + 1]
            == shorter[k].push(live.drop_last()[k]) by {
            assert(written[k + 1] == written[k].push(live[k]));
        }
        lemma_replay_then_live(backlog, shorter, live.drop_last());
        assert(written[n + 1] == written[n].push(live[n]));
        assert(backlog + live =~= (backlog + live.drop_last()).push(live[n]));
    }
}

} // verus!
