//! The wire format: `varint(len(payload) + 1) payload 0x0A`.

use crate::error::Error;
use crate::varint::{
    decode_varint, encode_varint, parse_prefix, varint_bytes, varint_round_trip, Prefix,
};
use vstd::prelude::*;
use vstd::slice::{slice_subrange, slice_to_vec};

verus! {

/// The byte that closes every frame.
pub const NEWLINE: u8 = 0x0A;

/// The frame that carries `payload`: the length of payload and newline as a
/// varint, the payload, the newline.
pub open spec fn frame(payload: Seq<u8>) -> Seq<u8> {
    varint_bytes(payload.len() + 1) + payload + seq![NEWLINE]
}

/// The frames of `msgs`, one after the other.
pub open spec fn frames(msgs: Seq<Seq<u8>>) -> Seq<u8>
    decreases msgs.len(),
{
    if msgs.len() == 0 {
        Seq::empty()
    } else {
        frame(msgs[0]) + frames(msgs.drop_first())
    }
}

/// The frames of a sequence with one more message are those of the sequence,
/// then that of the message.
pub proof fn lemma_frames_push(msgs: Seq<Seq<u8>>, last: Seq<u8>)
    ensures
        frames(msgs.push(last)) == frames(msgs) + frame(last),
    decreases msgs.len(),
{
    let all = msgs.push(last);
    if msgs.len() == 0 {
        assert(all.drop_first() =~= Seq::<Seq<u8>>::empty());
        assert(frames(all.drop_first()) =~= Seq::<u8>::empty());
        assert(frames(all) =~= frames(msgs) + frame(last));
    } else {
        lemma_frames_push(msgs.drop_first(), last);
        assert(all.drop_first() =~= msgs.drop_first().push(last));
        assert(frames(all) =~= frames(msgs) + frame(last));
    }
}

/// What stands at the start of a buffer where a frame is expected.
pub enum Parsed {
    /// The buffer ends before the frame does.
    Incomplete,
    /// The first `consumed` bytes are a frame of the declared length that does
    /// not end in a newline.
    Malformed { consumed: nat },
    /// The first `consumed` bytes are a frame that carries `payload`.
    Message { payload: Seq<u8>, consumed: nat },
}

/// The frame at the start of `bytes`.
pub open spec fn parse_frame(bytes: Seq<u8>) -> Parsed {
    match parse_prefix(bytes) {
        Prefix::Incomplete => Parsed::Incomplete,
        Prefix::Length { value, width } => {
            let end = width + value;
            if bytes.len() < end {
                Parsed::Incomplete
            } else if value == 0 || bytes[end - 1] != NEWLINE {
                Parsed::Malformed { consumed: end }
            } else {
                Parsed::Message { payload: bytes.subrange(width as int, end - 1), consumed: end }
            }
        },
    }
}

/// The codec of the wire format: it turns messages into frames at the end of a
/// buffer, and frames at the start of a buffer into messages.
pub struct MsgCodec;

impl MsgCodec {
    /// Appends the frame for `msg` to `buf`. This never fails.
    pub fn encode(&mut self, msg: Vec<u8>, buf: &mut Vec<u8>) -> (r: Result<(), Error>)
        ensures
            r == Ok::<(), Error>(()),
            final(buf)@ == old(buf)@ + frame(msg@),
    {
        let length: u128 = msg.len() as u128 + 1;
        encode_varint(length, buf);
        buf.extend_from_slice(msg.as_slice());
        buf.push(NEWLINE);
        proof {
            assert(final(buf)@ =~= old(buf)@ + frame(msg@));
        }
        Ok(())
    }

    /// Takes the frame at the start of `buf` out of it and returns its message.
    /// While the buffer ends before the frame does, nothing is taken and the
    /// result is `None`; so it is for a length that no buffer can hold. A
    /// frame of the declared length without the closing newline is taken out
    /// and refused.
    pub fn decode(&mut self, buf: &mut Vec<u8>) -> (r: Result<Option<Vec<u8>>, Error>)
        ensures
            match parse_frame(old(buf)@) {
                Parsed::Incomplete => r == Ok::<Option<Vec<u8>>, Error>(None) && final(buf)@
                    == old(buf)@,
                Parsed::Malformed { consumed } => r == Err::<Option<Vec<u8>>, Error>(
                    Error::MalformedFrame,
                ) && final(buf)@ == old(buf)@.skip(consumed as int),
                Parsed::Message { payload, consumed } => r matches Ok(Some(msg)) && msg@ == payload
                    && final(buf)@ == old(buf)@.skip(consumed as int),
            },
    {
        let held = buf.len();
        let (length, width) = match decode_varint(buf.as_slice()) {
            None => {
                return Ok(None);
            },
            Some(prefix) => prefix,
        };
        if length > held - width {
            return Ok(None);
        }
        let end: usize = width + length;
        let rest = buf.split_off(end);
        let result = if length == 0 || buf[end - 1] != NEWLINE {
            Err(Error::MalformedFrame)
        } else {
            Ok(Some(slice_to_vec(slice_subrange(buf.as_slice(), width, end - 1))))
        };
        proof {
            assert(rest@ =~= old(buf)@.skip(end as int));
            if length > 0 {
                assert(buf@.subrange(width as int, end - 1) =~= old(buf)@.subrange(
                    width as int,
                    end - 1,
                ));
            }
        }
        *buf = rest;
        result
    }
}

/// Decoding undoes encoding: a buffer that starts with the frame of `payload`
/// holds, whatever follows, a frame that carries `payload` and is as long as
/// that frame.
pub proof fn frame_round_trip(payload: Seq<u8>, rest: Seq<u8>)
    ensures
        parse_frame(frame(payload) + rest) == (Parsed::Message {
            payload,
            consumed: frame(payload).len(),
        }),
        (frame(payload) + rest).skip(frame(payload).len() as int) == rest,
{
    let length = payload.len() + 1;
    let prefix = varint_bytes(length);
    let bytes = frame(payload) + rest;
    varint_round_trip(length, payload + seq![NEWLINE] + rest);
    assert(bytes =~= prefix + (payload + seq![NEWLINE] + rest));
    let end = prefix.len() + length;
    assert(bytes[end - 1] == NEWLINE);
    assert(bytes.subrange(prefix.len() as int, end - 1) =~= payload);
    assert(bytes.skip(frame(payload).len() as int) =~= rest);
}

/// A frame of the declared length that does not end in a newline is never
/// taken for a message: a length prefix for `body`, followed by a `body` that
/// is empty or ends in another byte, is malformed, whatever follows.
pub proof fn bad_terminator_is_malformed(body: Seq<u8>, rest: Seq<u8>)
    requires
        body.len() == 0 || body.last() != NEWLINE,
    ensures
        parse_frame(varint_bytes(body.len()) + body + rest) == (Parsed::Malformed {
            consumed: varint_bytes(body.len()).len() + body.len(),
        }),
{
    let prefix = varint_bytes(body.len());
    let bytes = prefix + body + rest;
    varint_round_trip(body.len(), body + rest);
    assert(bytes =~= prefix + (body + rest));
    if body.len() > 0 {
        assert(bytes[prefix.len() + body.len() - 1] == body.last());
    }
}

} // verus!
