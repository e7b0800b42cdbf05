//! Framing: cutting the byte stream of a connection into packets.
//!
//! A frame is a variable-length byte count, then that many bytes; these begin
//! with the packet id, again variable-length, and the rest is the body.

use bytes::BytesMut;
use vstd::prelude::*;
use crate::buffer::advance;
use crate::buffer::contents;
use crate::error::InvalidData;
use crate::error::ProtocolError;
use crate::reader::read_varint;
use crate::reader::read_varint_without_cursor;
use crate::varint::continues;
use crate::varint::lemma_varint_window;
use crate::varint::lemma_varint_cut_short;
use crate::varint::lemma_varint_overlong;
use crate::varint::lemma_varint_round_trip;
use crate::varint::varint_decoding;
use crate::varint::varint_encoding;

verus! {

/// Which set of packet ids a connection is speaking.
#[derive(Debug, Clone, Copy, PartialEq, Eq, Structural)]
pub enum State {
    Handshaking,
    Status,
    Login,
    Play,
}

impl State {
    /// The number that stands for the state on the wire.
    pub open spec fn spec_tag(self) -> u8 {
        match self {
            State::Handshaking => 0,
            State::Status => 1,
            State::Login => 2,
            State::Play => 3,
        }
    }

    /// The number that stands for the state on the wire.
    #[verifier::when_used_as_spec(spec_tag)]
    pub fn tag(self) -> (tag: u8)
        ensures
            tag == self.spec_tag(),
    {
        match self {
            State::Handshaking => 0,
            State::Status => 1,
            State::Login => 2,
            State::Play => 3,
        }
    }
}

/// One packet, cut out of the stream.
#[derive(Debug)]
pub struct Frame {
    /// What kind of packet this is.
    pub packet_id: i32,
    /// The body: the bytes of the frame after the packet id.
    pub payload: BytesMut,
}

/// A packet as a mathematical value: its id and the bytes of its body.
pub struct Packet {
    pub packet_id: i32,
    pub body: Seq<u8>,
}

impl View for Frame {
    type V = Packet;

    open spec fn view(&self) -> Packet {
        Packet { packet_id: self.packet_id, body: contents(self.payload) }
    }
}

impl Packet {
    /// The bytes that the length of a frame counts: packet id, then body.
    pub open spec fn content(self) -> Seq<u8> {
        varint_encoding(self.packet_id) + self.body
    }

    /// Whether the packet can be framed: its length must fit the 32 bits of
    /// the length prefix.
    pub open spec fn fits(self) -> bool {
        self.content().len() <= i32::MAX
    }

    /// The frame of the packet: length prefix, packet id, body.
    pub open spec fn framed(self) -> Seq<u8> {
        varint_encoding(self.content().len() as i32) + self.content()
    }
}

/// What one attempt to cut a frame makes of a buffer.
pub enum Step {
    /// No whole frame is there yet. The buffer stays as it is.
    Wait,
    /// A frame is cut off the front and `rest` stays in the buffer.
    Yield { packet: Packet, rest: Seq<u8> },
    /// The bytes are no frame. An unusable length takes nothing from the
    /// buffer; a frame without a readable packet id is taken and dropped.
    Fail { error: ProtocolError, rest: Seq<u8> },
}

/// What the decoder makes of a buffer that holds `s`.
pub open spec fn next_frame(s: Seq<u8>) -> Step {
    match varint_decoding(s) {
        Err(ProtocolError::Io(InvalidData::VarIntCutShort)) => Step::Wait,
        Err(e) => Step::Fail { error: e, rest: s },
        Ok((length, prefix)) => if length < 0 {
            Step::Fail { error: ProtocolError::Io(InvalidData::NegativeLength), rest: s }
        } else if s.len() - prefix < length {
            Step::Wait
        } else {
            let frame = s.subrange(prefix as int, prefix + length);
            let rest = s.skip(prefix + length);
            match varint_decoding(frame) {
                Ok((packet_id, id_len)) => Step::Yield {
                    packet: Packet { packet_id, body: frame.skip(id_len as int) },
                    rest,
                },
                Err(e) => Step::Fail { error: e, rest },
            }
        },
    }
}

/// The frame decoder of one connection.
#[derive(Debug)]
pub struct MinecraftCodec {
    state: State,
}

impl MinecraftCodec {
    /// The state the connection is in.
    pub closed spec fn spec_state(&self) -> State {
        self.state
    }

    /// A decoder for a connection that has just been opened.
    pub fn new() -> (codec: Self)
        ensures
            codec.spec_state() == State::Handshaking,
    {
        Self { state: State::Handshaking }
    }

    /// The state the connection is in.
    #[verifier::when_used_as_spec(spec_state)]
    pub fn state(&self) -> (state: State)
        ensures
            state == self.spec_state(),
    {
        self.state
    }

    /// Cuts the next frame off the front of `src`, if a whole one is there.
    ///
    /// With too few bytes for a frame it returns `None`, leaves `src` as it
    /// is and reserves room for the bytes that are missing; the caller reads
    /// more and calls again. A call without new bytes changes nothing.
    pub fn decode(&mut self, src: &mut BytesMut) -> (r: Result<Option<Frame>, ProtocolError>)
        ensures
            final(self).spec_state() == old(self).spec_state(),
            match next_frame(contents(*old(src))) {
                Step::Wait => r matches Ok(None) && contents(*final(src)) == contents(*old(src)),
                Step::Yield { packet, rest } => {
                    &&& r matches Ok(Some(frame))
                    &&& frame@ == packet
                    &&& contents(*final(src)) == rest
                },
                Step::Fail { error, rest } => r matches Err(e) && e == error && contents(
                    *final(src),
                ) == rest,
            },
    {
        let (packet_length, consumed): (i32, usize) = match read_varint_without_cursor(src) {
            Ok(found) => found,
            Err(ProtocolError::Io(InvalidData::VarIntCutShort)) => {
                return Ok(None);
            },
            Err(e) => {
                return Err(e);
            },
        };
        if packet_length < 0 {
            return Err(ProtocolError::Io(InvalidData::NegativeLength));
        }
        let length: usize = packet_length as usize;
        let held: usize = src.len();
        if held - consumed < length {
            // Room for the rest of the frame, unless the frame is larger than
            // any buffer can become.
            let needed: usize = length + consumed;
            if needed <= isize::MAX as usize {
                src.reserve(needed - held);
            }
            return Ok(None);
        }
        let ghost whole = contents(*src);
        advance(src, consumed);
        let mut payload = src.split_to(length);
        assert(contents(payload) =~= whole.subrange(consumed as int, consumed + length));
        assert(contents(*src) =~= whole.skip(consumed + length));
        match read_varint(&mut payload) {
            Ok(packet_id) => Ok(Some(Frame { packet_id, payload })),
            Err(e) => Err(e),
        }
    }
}

/// Whether `bytes` are exactly one frame that holds `packet`: a length
/// prefix that counts the bytes after it, and these are the packet id and
/// then the body. Prefix and id may each be spelled in more bytes than their
/// value needs.
pub open spec fn is_frame(bytes: Seq<u8>, packet: Packet) -> bool {
    &&& varint_decoding(bytes) matches Ok((length, prefix))
    &&& length >= 0
    &&& bytes.len() == prefix + length
    &&& varint_decoding(bytes.skip(prefix as int)) matches Ok((packet_id, id_len))
    &&& packet == Packet { packet_id, body: bytes.skip(prefix + id_len) }
}

/// The given frames, back to back.
pub open spec fn stream(frames: Seq<Seq<u8>>) -> Seq<u8>
    decreases frames.len(),
{
    if frames.len() == 0 {
        Seq::empty()
    } else {
        frames[0] + stream(frames.drop_first())
    }
}

/// What a buffer that held `s` holds after one attempt to cut a frame.
pub open spec fn left_by(step: Step, s: Seq<u8>) -> Seq<u8> {
    match step {
        Step::Wait => s,
        Step::Yield { rest, .. } => rest,
        Step::Fail { rest, .. } => rest,
    }
}

/// What a buffer that held `s` holds after `calls` attempts to cut a frame,
/// with nothing fed in between.
pub open spec fn left_after(s: Seq<u8>, calls: nat) -> Seq<u8>
    decreases calls,
{
    if calls == 0 {
        s
    } else {
        left_after(left_by(next_frame(s), s), (calls - 1) as nat)
    }
}

/// What a sender writes for a packet is a frame that holds it.
pub proof fn lemma_framed_is_frame(packet: Packet)
    requires
        packet.fits(),
    ensures
        is_frame(packet.framed(), packet),
{
    let content = packet.content();
    let length = content.len() as i32;
    let prefix = varint_encoding(length);
    lemma_varint_round_trip(length, content);
    assert(packet.framed().skip(prefix.len() as int) =~= content);
    lemma_varint_round_trip(packet.packet_id, packet.body);
    let id_len = varint_encoding(packet.packet_id).len();
    assert(packet.framed().skip((prefix.len() + id_len) as int) =~= packet.body);
}

/// A buffer that begins with a frame, however its prefix and id are spelled,
/// yields the packet of that frame and keeps exactly what follows it.
pub proof fn lemma_frame_is_yielded(frame: Seq<u8>, packet: Packet, tail: Seq<u8>)
    requires
        is_frame(frame, packet),
    ensures
        next_frame(frame + tail) == (Step::Yield { packet, rest: tail }),
{
    let s = frame + tail;
    if let Ok((length, prefix)) = varint_decoding(frame) {
        assert(s.take(prefix as int) =~= frame.take(prefix as int));
        lemma_varint_window(frame, s);
        assert(s.subrange(prefix as int, prefix + length) =~= frame.skip(prefix as int));
        assert(s.skip(prefix + length) =~= tail);
        if let Ok((packet_id, id_len)) = varint_decoding(frame.skip(prefix as int)) {
            assert(frame.skip(prefix as int).skip(id_len as int) =~= frame.skip(prefix + id_len));
        }
    }
}

/// An empty buffer yields nothing and stays empty.
pub proof fn lemma_empty_buffer_waits()
    ensures
        next_frame(Seq::empty()) == Step::Wait,
{
}

/// Liveness of framing. Let a buffer hold complete frames back to back,
/// frame `i` holding packet `i`. Then attempt number `k` (from 0) yields
/// packet `k` and leaves the frames after it, for every `k` below the number
/// of frames; and the attempt after the last frame finds the buffer empty and
/// yields nothing.
pub proof fn lemma_framing_liveness(frames: Seq<Seq<u8>>, packets: Seq<Packet>, k: int)
    requires
        frames.len() == packets.len(),
        forall|i: int| 0 <= i < frames.len() ==> is_frame(#[trigger] frames[i], packets[i]),
        0 <= k <= frames.len(),
    ensures
        left_after(stream(frames), k as nat) == stream(frames.skip(k)),
        k < frames.len() ==> next_frame(left_after(stream(frames), k as nat)) == (Step::Yield {
            packet: packets[k],
            rest: stream(frames.skip(k + 1)),
        }),
        k == frames.len() ==> left_after(stream(frames), k as nat) == Seq::<u8>::empty()
            && next_frame(left_after(stream(frames), k as nat)) == Step::Wait,
    decreases k,
{
    if k == 0 {
        assert(frames.skip(0) =~= frames);
    } else {
        let others = frames.drop_first();
        lemma_frame_is_yielded(frames[0], packets[0], stream(others));
        assert forall|i: int| 0 <= i < others.len() implies is_frame(
            #[trigger] others[i],
            packets.drop_first()[i],
        ) by {
            assert(others[i] == frames[i + 1]);
        }
        lemma_framing_liveness(others, packets.drop_first(), k - 1);
        assert(others.skip(k - 1) =~= frames.skip(k));
        if k < frames.len() {
            assert(others.skip(k) =~= frames.skip(k + 1));
        }
    }
    if k < frames.len() {
        let todo = frames.skip(k);
        lemma_frame_is_yielded(todo[0], packets[k], stream(todo.drop_first()));
        assert(todo.drop_first() =~= frames.skip(k + 1));
    }
}

/// Partiality of framing. A buffer that holds only the first `cut` bytes of
/// a frame, for any `cut` short of the whole, yields nothing and stays as it
/// is; once the remaining bytes are appended, it yields the packet and is
/// left empty.
pub proof fn lemma_framing_partiality(frame: Seq<u8>, packet: Packet, cut: int)
    requires
        is_frame(frame, packet),
        0 <= cut < frame.len(),
    ensures
        next_frame(frame.take(cut)) == Step::Wait,
        next_frame(frame.take(cut) + frame.skip(cut)) == (Step::Yield {
            packet,
            rest: Seq::empty(),
        }),
{
    let front = frame.take(cut);
    if let Ok((length, prefix)) = varint_decoding(frame) {
        if cut < prefix {
            lemma_varint_cut_short(frame, cut);
        } else {
            assert(front.take(prefix as int) =~= frame.take(prefix as int));
            lemma_varint_window(frame, front);
        }
    }
    lemma_frame_is_yielded(frame, packet, Seq::empty());
    assert(front + frame.skip(cut) =~= frame + Seq::<u8>::empty());
}

/// Nothing is dropped and nothing is made up: what a yield hands out and
/// what it leaves behind are, one after the other, the end of what the
/// buffer held. Before them stood only the length prefix and the packet id.
pub proof fn lemma_yield_drops_nothing(s: Seq<u8>)
    ensures
        next_frame(s) matches Step::Yield { packet, rest } ==> {
            &&& packet.body.len() + rest.len() <= s.len()
            &&& s.skip(s.len() - packet.body.len() - rest.len()) == packet.body + rest
        },
{
    if let Step::Yield { packet, rest } = next_frame(s) {
        assert(s.skip(s.len() - packet.body.len() - rest.len()) =~= packet.body + rest);
    }
}

/// Calling again without new bytes changes nothing: a buffer that yields
/// nothing still holds the same bytes after any number of attempts.
pub proof fn lemma_waiting_is_idempotent(s: Seq<u8>, calls: nat)
    requires
        next_frame(s) == Step::Wait,
    ensures
        left_after(s, calls) == s,
    decreases calls,
{
    if calls > 0 {
        lemma_waiting_is_idempotent(s, (calls - 1) as nat);
    }
}

/// A buffer that begins with five bytes in a row that announce a successor
/// is refused for good: its length prefix is malformed, and nothing is taken.
pub proof fn lemma_overlong_length_is_fatal(s: Seq<u8>)
    requires
        s.len() >= 5,
        forall|j: int| 0 <= j < 5 ==> continues(#[trigger] s[j]),
    ensures
        next_frame(s) == (Step::Fail {
            error: ProtocolError::Io(InvalidData::VarIntTooLong),
            rest: s,
        }),
{
    lemma_varint_overlong(s);
}

} // verus!
