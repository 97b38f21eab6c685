use vstd::prelude::*;
use crate::serialtrait::{SerialError, Sendable};
use crate::servo42::MotorError;

verus! {

/// Checksum of a frame body: the sum of its bytes, wrapping at 256.
pub open spec fn checksum(bytes: Seq<u8>) -> u8
    decreases bytes.len(),
{
    if bytes.len() == 0 {
        0
    } else {
        ((checksum(bytes.drop_last()) + bytes.last()) % 256) as u8
    }
}

/// The frame that carries command `code` with argument bytes `data` to the
/// driver at `address`: address, code, data, then the checksum of all of them.
pub open spec fn command_frame(address: u8, code: u8, data: Seq<u8>) -> Seq<u8> {
    let body = seq![address, code] + data;
    body.push(checksum(body))
}

/// The frame in which the driver at `address` answers with `payload`.
pub open spec fn reply_frame(address: u8, payload: Seq<u8>) -> Seq<u8> {
    let body = seq![address] + payload;
    body.push(checksum(body))
}

/// The last byte of `raw` is the checksum of the bytes before it.
pub open spec fn checksum_ok(raw: Seq<u8>) -> bool {
    raw.len() >= 1 && raw.last() == checksum(raw.drop_last())
}

/// The bytes of a reply between the address and the checksum.
pub open spec fn reply_payload(raw: Seq<u8>) -> Seq<u8> {
    raw.subrange(1, raw.len() - 1)
}

/// What a reply of the right length means to a driver at `address`: its
/// payload decoded, if the checksum holds and the reply comes from `address`;
/// an error otherwise.
pub open spec fn decode_reply<Res: Sendable>(address: u8, raw: Seq<u8>) -> Result<Res, MotorError> {
    if !checksum_ok(raw) || raw[0] != address {
        Err(MotorError::SerialError(SerialError::Undefined))
    } else {
        Ok(Res::decoding(reply_payload(raw)))
    }
}

/// Computes the checksum of `bytes`.
pub fn checksum_of(bytes: &[u8]) -> (c: u8)
    ensures
        c == checksum(bytes@),
{
    let len = bytes.len();
    let mut acc: u8 = 0;
    let mut i: usize = 0;
    while i < len
        invariant
            len == bytes@.len(),
            i <= len,
            acc == checksum(bytes@.subrange(0, i as int)),
        decreases len - i,
    {
        assert(bytes@.subrange(0, i + 1).drop_last() =~= bytes@.subrange(0, i as int));
        acc = ((acc as u16 + bytes[i] as u16) % 256) as u8;
        i += 1;
    }
    assert(bytes@.subrange(0, len as int) =~= bytes@);
    acc
}

/// Every command frame carries a valid checksum, starts with the address and
/// the code, and holds the argument bytes unchanged between them and the
/// checksum.
pub proof fn lemma_command_frame_valid(address: u8, code: u8, data: Seq<u8>)
    ensures
        checksum_ok(command_frame(address, code, data)),
        command_frame(address, code, data).len() == data.len() + 3,
        command_frame(address, code, data)[0] == address,
        command_frame(address, code, data)[1] == code,
        command_frame(address, code, data).subrange(2, data.len() + 2int) == data,
{
    let f = command_frame(address, code, data);
    assert(f.drop_last() =~= seq![address, code] + data);
    assert(f.subrange(2, data.len() + 2int) =~= data);
}

/// A reply that the driver at `address` frames around the encoding of `x`
/// is decoded back to `x`.
pub proof fn lemma_reply_roundtrip<Res: Sendable>(address: u8, x: Res)
    ensures
        reply_frame(address, x.encoding()).len() == Res::byte_size() + 2,
        decode_reply::<Res>(address, reply_frame(address, x.encoding())) == Ok::<Res, MotorError>(x),
{
    Res::lemma_encoding_len(x);
    Res::lemma_decode_encode(x);
    let f = reply_frame(address, x.encoding());
    assert(f.drop_last() =~= seq![address] + x.encoding());
    assert(reply_payload(f) =~= x.encoding());
}

/// A reply is accepted exactly when it is the frame that its own address
/// and payload make up, and that address is the driver's.
pub proof fn lemma_reply_accepted_iff_framed<Res: Sendable>(address: u8, raw: Seq<u8>)
    requires
        raw.len() == Res::byte_size() + 2,
    ensures
        decode_reply::<Res>(address, raw) is Ok <==> raw == reply_frame(address, reply_payload(raw)),
{
    let body = seq![address] + reply_payload(raw);
    if raw == reply_frame(address, reply_payload(raw)) {
        assert(raw.drop_last() =~= body);
    }
    if decode_reply::<Res>(address, raw) is Ok {
        assert(raw.drop_last() =~= body);
        assert(raw =~= reply_frame(address, reply_payload(raw)));
    }
}

} // verus!

verus! {

/// The plain sum of a run of bytes.
pub open spec fn byte_sum(bytes: Seq<u8>) -> int
    decreases bytes.len(),
{
    if bytes.len() == 0 {
        0
    } else {
        byte_sum(bytes.drop_last()) + bytes.last()
    }
}

/// The checksum is the byte sum taken modulo 256.
pub proof fn lemma_checksum_is_sum_mod(bytes: Seq<u8>)
    ensures
        checksum(bytes) == byte_sum(bytes) % 256,
    decreases bytes.len(),
{
    if bytes.len() > 0 {
        lemma_checksum_is_sum_mod(bytes.drop_last());
        let p = byte_sum(bytes.drop_last());
        let b = bytes.last() as int;
        assert((p % 256 + b) % 256 == (p + b) % 256) by (nonlinear_arith);
    }
}

/// Changing one byte changes the sum by the difference.
proof fn lemma_byte_sum_update(bytes: Seq<u8>, i: int, v: u8)
    requires
        0 <= i < bytes.len(),
    ensures
        byte_sum(bytes.update(i, v)) == byte_sum(bytes) - bytes[i] + v,
    decreases bytes.len(),
{
    let u = bytes.update(i, v);
    if i == bytes.len() - 1 {
        assert(u.drop_last() =~= bytes.drop_last());
    } else {
        lemma_byte_sum_update(bytes.drop_last(), i, v);
        assert(u.drop_last() =~= bytes.drop_last().update(i, v));
    }
}

/// A frame whose checksum holds fails the check once any single byte of
/// it is changed: the checksum catches every one-byte corruption.
pub proof fn lemma_single_byte_change_detected(frame: Seq<u8>, i: int, v: u8)
    requires
        checksum_ok(frame),
        0 <= i < frame.len(),
        v != frame[i],
    ensures
        !checksum_ok(frame.update(i, v)),
{
    let g = frame.update(i, v);
    if i == frame.len() - 1 {
        assert(g.drop_last() =~= frame.drop_last());
    } else {
        assert(g.drop_last() =~= frame.drop_last().update(i, v));
        lemma_byte_sum_update(frame.drop_last(), i, v);
        lemma_checksum_is_sum_mod(frame.drop_last());
        lemma_checksum_is_sum_mod(g.drop_last());
        let s = byte_sum(frame.drop_last());
        let d = v - frame[i];
        assert((s + d) % 256 != s % 256) by (nonlinear_arith)
            requires
                -256 < d < 256,
                d != 0,
        ;
    }
}

} // verus!

verus! {

/// Decodes a reply of type `Res` from the driver at `address`: the payload
/// when the checksum holds and the reply comes from `address`, an error
/// otherwise.
pub fn parse_reply<Res: Sendable>(address: u8, raw: &[u8]) -> (r: Result<Res, MotorError>)
    requires
        raw@.len() == Res::byte_size() + 2,
    ensures
        r == decode_reply::<Res>(address, raw@),
{
    let n = raw.len();
    let chcksm = checksum_of(vstd::slice::slice_subrange(raw, 0, n - 1));
    proof {
        assert(raw@.subrange(0, n - 1) =~= raw@.drop_last());
    }
    if raw[n - 1] != chcksm {
        return Err(MotorError::SerialError(SerialError::Undefined));
    }
    let result = <((u8, Res), u8)>::from_byte(raw);
    proof {
        let k = Res::byte_size() as int;
        assert(raw@.subrange(0, 1 + k).subrange(0, 1) =~= seq![raw@[0]]);
        assert(raw@.subrange(0, 1 + k).subrange(1, 1 + k) =~= reply_payload(raw@));
    }
    if result.0.0 != address {
        return Err(MotorError::SerialError(SerialError::Undefined));
    }
    Ok(result.0.1)
}

} // verus!
