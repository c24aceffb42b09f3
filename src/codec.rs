//! The wire frame: a fixed four-byte marker followed by the event's bytes.
use vstd::prelude::*;

verus! {

/// The protocol marker, the ASCII text `RR00`.
pub open spec fn magic() -> Seq<u8> {
    seq![82u8, 82u8, 48u8, 48u8]
}

/// The frame that carries an event body.
pub open spec fn frame_of(event: Seq<u8>) -> Seq<u8> {
    magic() + event
}

/// Whether a byte sequence starts with the protocol marker.
pub open spec fn has_magic(frame: Seq<u8>) -> bool {
    frame.len() >= 4 && frame.subrange(0, 4) == magic()
}

/// The event body carried by a frame, when it carries one.
pub open spec fn body_of(frame: Seq<u8>) -> Option<Seq<u8>> {
    if has_magic(frame) {
        Some(frame.subrange(4, frame.len() as int))
    } else {
        None
    }
}

/// Frames one event: the marker, then the event's bytes unchanged.
pub fn encode_frame(event: &[u8]) -> (r: Vec<u8>)
    requires
        event@.len() + 4 <= usize::MAX,
    ensures
        r@ == frame_of(event@),
{
    let mut r: Vec<u8> = Vec::with_capacity(event.len() + 4);
    r.push(82u8);
    r.push(82u8);
    r.push(48u8);
    r.push(48u8);
    let mut i: usize = 0;
    while i < event.len()
        invariant
            i <= event@.len(),
            r@ == magic() + event@.subrange(0, i as int),
        decreases event@.len() - i,
    {
        r.push(event[i]);
        i += 1;
        proof {
            assert(event@.subrange(0, i as int) == event@.subrange(0, i - 1) + seq![event@[i - 1]]);
        }
    }
    proof {
        assert(event@.subrange(0, event@.len() as int) == event@);
    }
    r
}

/// Reads the event body out of a frame; `None` when the frame does not start
/// with the marker.
pub fn decode_frame(frame: &[u8]) -> (r: Option<Vec<u8>>)
    ensures
        r matches Some(b) ==> body_of(frame@) == Some(b@),
        r is None ==> body_of(frame@) is None,
{
    if frame.len() < 4 || frame[0] != 82u8 || frame[1] != 82u8 || frame[2] != 48u8 || frame[3] != 48u8 {
        proof {
            if frame@.len() >= 4 {
                assert(frame@.subrange(0, 4)[0] == frame@[0]);
                assert(frame@.subrange(0, 4)[1] == frame@[1]);
                assert(frame@.subrange(0, 4)[2] == frame@[2]);
                assert(frame@.subrange(0, 4)[3] == frame@[3]);
            }
        }
        return None;
    }
    proof {
        assert(frame@.subrange(0, 4) =~= magic());
    }
    let mut body: Vec<u8> = Vec::with_capacity(frame.len() - 4);
    let mut i: usize = 4;
    while i < frame.len()
        invariant
            4 <= i <= frame@.len(),
            body@ == frame@.subrange(4, i as int),
        decreases frame@.len() - i,
    {
        body.push(frame[i]);
        i += 1;
        proof {
            assert(frame@.subrange(4, i as int) == frame@.subrange(4, i - 1) + seq![frame@[i - 1]]);
        }
    }
    Some(body)
}

/// Decoding a frame gives back exactly the event that was encoded into it.
pub proof fn lemma_frame_round_trip(event: Seq<u8>)
    ensures
        body_of(frame_of(event)) == Some(event),
{
    let f = frame_of(event);
    assert(f.subrange(0, 4) =~= magic());
    assert(f.subrange(4, f.len() as int) =~= event);
}

} // verus!
