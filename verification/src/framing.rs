//! The wire format: each message travels as a frame, a four-byte big-endian
//! length followed by exactly that many bytes of payload.

use vstd::prelude::*;
use vstd::slice::slice_subrange;

verus! {

/// How many bytes the length in front of a payload takes.
pub const HEADER_BYTES: usize = 4;

/// The longest payload that a frame may carry: eight mebibytes.
pub const MAX_FRAME_BYTES: usize = 8_388_608;

/// Why a frame was refused.
#[derive(Debug, Clone, Copy, PartialEq, Eq, Structural)]
pub enum FrameError {
    /// The payload is longer than [`MAX_FRAME_BYTES`].
    TooLong,
}

/// The four bytes that announce a payload of `length` bytes.
pub open spec fn header_of(length: nat) -> Seq<u8> {
    seq![
        (length / 0x100_0000 % 0x100) as u8,
        (length / 0x1_0000 % 0x100) as u8,
        (length / 0x100 % 0x100) as u8,
        (length % 0x100) as u8,
    ]
}

/// The length that the first four bytes of `bytes` announce.
pub open spec fn announced_length(bytes: Seq<u8>) -> nat
    recommends
        bytes.len() >= HEADER_BYTES,
{
    (bytes[0] * 0x100_0000 + bytes[1] * 0x1_0000 + bytes[2] * 0x100 + bytes[3]) as nat
}

/// The frame that carries `payload`.
pub open spec fn frame_of(payload: Seq<u8>) -> Seq<u8> {
    header_of(payload.len()) + payload
}

/// What stands at the front of received bytes.
pub enum FrameStatus {
    /// Not yet a whole frame: more bytes have to arrive.
    Incomplete,
    /// A header that announces more than a frame may carry.
    TooLong,
    /// A whole frame with this payload.
    Whole { payload: Seq<u8> },
}

/// What stands at the front of `bytes`.
pub open spec fn first_frame(bytes: Seq<u8>) -> FrameStatus {
    if bytes.len() < HEADER_BYTES {
        FrameStatus::Incomplete
    } else if announced_length(bytes) > MAX_FRAME_BYTES {
        FrameStatus::TooLong
    } else if bytes.len() < HEADER_BYTES + announced_length(bytes) {
        FrameStatus::Incomplete
    } else {
        FrameStatus::Whole {
            payload: bytes.subrange(
                HEADER_BYTES as int,
                HEADER_BYTES + announced_length(bytes),
            ),
        }
    }
}

/// The frames that carry `payloads`, one after the other.
pub open spec fn frames_of(payloads: Seq<Seq<u8>>) -> Seq<u8>
    decreases payloads.len(),
{
    if payloads.len() == 0 {
        Seq::empty()
    } else {
        frame_of(payloads[0]) + frames_of(payloads.drop_first())
    }
}

/// Puts `payload` into a frame.
pub fn encode_frame(payload: &[u8]) -> (frame: Result<Vec<u8>, FrameError>)
    ensures
        payload@.len() <= MAX_FRAME_BYTES ==> (frame matches Ok(bytes) && bytes@ == frame_of(
            payload@,
        )),
        payload@.len() > MAX_FRAME_BYTES ==> frame == Err::<Vec<u8>, FrameError>(
            FrameError::TooLong,
        ),
{
    let length = payload.len();
    if length > MAX_FRAME_BYTES {
        return Err(FrameError::TooLong);
    }
    let mut bytes: Vec<u8> = Vec::new();
    bytes.push((length / 0x100_0000 % 0x100) as u8);
    bytes.push((length / 0x1_0000 % 0x100) as u8);
    bytes.push((length / 0x100 % 0x100) as u8);
    bytes.push((length % 0x100) as u8);
    bytes.extend_from_slice(payload);
    assert(bytes@ =~= frame_of(payload@));
    Ok(bytes)
}

/// The bytes that have arrived from a peer and belong to no frame handed
/// out yet.
pub struct FrameDecoder {
    /// What arrived. The first `consumed` bytes have been handed out.
    received: Vec<u8>,
    consumed: usize,
}

impl View for FrameDecoder {
    type V = Seq<u8>;

    closed spec fn view(&self) -> Seq<u8> {
        self.received@.skip(self.consumed as int)
    }
}

impl FrameDecoder {
    #[verifier::type_invariant]
    spec fn in_bounds(&self) -> bool {
        self.consumed <= self.received@.len()
    }

    /// A decoder that has received nothing.
    pub fn new() -> (decoder: FrameDecoder)
        ensures
            decoder@ == Seq::<u8>::empty(),
    {
        let decoder = FrameDecoder { received: Vec::new(), consumed: 0 };
        assert(decoder@ =~= Seq::<u8>::empty());
        decoder
    }

    /// Takes `bytes` as they arrived, behind what is pending already.
    pub fn feed(&mut self, bytes: &[u8])
        ensures
            final(self)@ == old(self)@ + bytes@,
    {
        proof {
            use_type_invariant(&*self);
        }
        let mut taken = FrameDecoder::new();
        std::mem::swap(self, &mut taken);
        let FrameDecoder { mut received, consumed } = taken;
        if consumed > 0 && consumed >= received.len() - consumed {
            // More than half is handed out already: keep the rest only
            let mut pending = received.split_off(consumed);
            pending.extend_from_slice(bytes);
            *self = FrameDecoder { received: pending, consumed: 0 };
        } else {
            received.extend_from_slice(bytes);
            *self = FrameDecoder { received, consumed };
        }
        assert(self@ =~= old(self)@ + bytes@);
    }

    /// How many bytes are pending.
    pub fn pending_bytes(&self) -> (n: usize)
        ensures
            n == self@.len(),
    {
        proof {
            use_type_invariant(self);
        }
        self.received.len() - self.consumed
    }

    /// Hands out the payload of the frame at the front, where a whole frame
    /// is there, and drops that frame from what is pending.
    pub fn next_frame(&mut self) -> (outcome: Result<Option<Vec<u8>>, FrameError>)
        ensures
            match first_frame(old(self)@) {
                FrameStatus::Incomplete => {
                    &&& outcome == Ok::<Option<Vec<u8>>, FrameError>(None)
                    &&& final(self)@ == old(self)@
                },
                FrameStatus::TooLong => {
                    &&& outcome == Err::<Option<Vec<u8>>, FrameError>(FrameError::TooLong)
                    &&& final(self)@ == old(self)@
                },
                FrameStatus::Whole { payload } => {
                    &&& outcome matches Ok(Some(bytes)) && bytes@ == payload
                    &&& final(self)@ == old(self)@.skip(HEADER_BYTES + payload.len())
                },
            },
    {
        proof {
            use_type_invariant(&*self);
        }
        let start = self.consumed;
        let available = self.received.len() - start;
        if available < HEADER_BYTES {
            return Ok(None);
        }
        let length: usize = (self.received[start] as usize) * 0x100_0000 + (self.received[start
            + 1] as usize) * 0x1_0000 + (self.received[start + 2] as usize) * 0x100
            + (self.received[start + 3] as usize);
        assert(length == announced_length(self@));
        if length > MAX_FRAME_BYTES {
            return Err(FrameError::TooLong);
        }
        if available - HEADER_BYTES < length {
            return Ok(None);
        }
        let from = start + HEADER_BYTES;
        let mut payload: Vec<u8> = Vec::new();
        payload.extend_from_slice(slice_subrange(self.received.as_slice(), from, from + length));
        assert(payload@ =~= old(self)@.subrange(HEADER_BYTES as int, HEADER_BYTES + length));
        let consumed = from + length;
        if consumed == self.received.len() {
            *self = FrameDecoder { received: Vec::new(), consumed: 0 };
        } else {
            self.consumed = consumed;
        }
        assert(self@ =~= old(self)@.skip(HEADER_BYTES + length));
        Ok(Some(payload))
    }
}

/// The header of a frame announces the length that it was made for.
pub proof fn lemma_header_round_trip(length: nat)
    requires
        length < 0x1_0000_0000,
    ensures
        header_of(length).len() == HEADER_BYTES,
        announced_length(header_of(length)) == length,
{
}

/// A frame comes back as the payload that went into it, whatever follows
/// it, and what follows it is left over.
pub proof fn lemma_frame_round_trip(payload: Seq<u8>, rest: Seq<u8>)
    requires
        payload.len() <= MAX_FRAME_BYTES,
    ensures
        first_frame(frame_of(payload) + rest) == (FrameStatus::Whole { payload }),
        (frame_of(payload) + rest).skip(HEADER_BYTES + payload.len()) == rest,
{
    lemma_header_round_trip(payload.len());
    let bytes = frame_of(payload) + rest;
    assert(bytes[0] == header_of(payload.len())[0]);
    assert(bytes[1] == header_of(payload.len())[1]);
    assert(bytes[2] == header_of(payload.len())[2]);
    assert(bytes[3] == header_of(payload.len())[3]);
    assert(announced_length(bytes) == payload.len());
    assert(bytes.subrange(HEADER_BYTES as int, HEADER_BYTES + payload.len()) =~= payload);
    assert(bytes.skip(HEADER_BYTES + payload.len()) =~= rest);
}

/// A frame of which a byte is still missing is not yet handed out.
pub proof fn lemma_short_frame_is_incomplete(payload: Seq<u8>, received: int)
    requires
        payload.len() <= MAX_FRAME_BYTES,
        0 <= received < frame_of(payload).len(),
    ensures
        first_frame(frame_of(payload).take(received)) == FrameStatus::Incomplete,
{
    lemma_header_round_trip(payload.len());
    let whole = frame_of(payload);
    let bytes = whole.take(received);
    if received >= HEADER_BYTES {
        assert(bytes[0] == header_of(payload.len())[0]);
        assert(bytes[1] == header_of(payload.len())[1]);
        assert(bytes[2] == header_of(payload.len())[2]);
        assert(bytes[3] == header_of(payload.len())[3]);
        assert(announced_length(bytes) == payload.len());
    }
}

/// Frames sent one after the other come back one by one: the first payload
/// is at the front, and the frames of the others are what is left.
pub proof fn lemma_frames_come_back_in_order(payloads: Seq<Seq<u8>>)
    requires
        payloads.len() > 0,
        payloads[0].len() <= MAX_FRAME_BYTES,
    ensures
        first_frame(frames_of(payloads)) == (FrameStatus::Whole { payload: payloads[0] }),
        frames_of(payloads).skip(HEADER_BYTES + payloads[0].len()) == frames_of(
            payloads.drop_first(),
        ),
{
    lemma_frame_round_trip(payloads[0], frames_of(payloads.drop_first()));
}

} // verus!
