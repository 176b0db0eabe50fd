//! The framing of metadata on a connection: four bytes of length, highest
//! first, then the payload.

use crate::model::MAX_METADATA_BYTES;
use vstd::prelude::*;

verus! {

/// The four bytes of a length, highest first.
pub open spec fn length_bytes(n: nat) -> Seq<u8> {
    seq![
        (n / 0x100_0000 % 256) as u8,
        (n / 0x1_0000 % 256) as u8,
        (n / 0x100 % 256) as u8,
        (n % 256) as u8,
    ]
}

/// The length that four bytes stand for, highest first.
pub open spec fn bytes_length(b: Seq<u8>) -> nat {
    (b[0] * 0x100_0000 + b[1] * 0x1_0000 + b[2] * 0x100 + b[3]) as nat
}

/// The frame of a payload.
pub open spec fn frame(payload: Seq<u8>) -> Seq<u8> {
    length_bytes(payload.len()) + payload
}

/// Whether a frame may declare this length.
pub open spec fn valid_length(n: nat) -> bool {
    0 < n <= MAX_METADATA_BYTES
}

/// The bytes to send for a metadata payload. A payload over the limit is
/// refused.
pub fn encode_frame(payload: &Vec<u8>) -> (r: Result<Vec<u8>, String>)
    ensures
        match r {
            Ok(bytes) => payload.len() <= MAX_METADATA_BYTES && bytes@ == frame(payload@),
            Err(e) => payload.len() > MAX_METADATA_BYTES && e@ == "传输元数据过大"@,
        },
{
    if payload.len() > MAX_METADATA_BYTES {
        return Err("传输元数据过大".to_owned());
    }
    let n: usize = payload.len();
    let mut bytes: Vec<u8> = Vec::new();
    bytes.push((n / 0x100_0000 % 256) as u8);
    bytes.push((n / 0x1_0000 % 256) as u8);
    bytes.push((n / 0x100 % 256) as u8);
    bytes.push((n % 256) as u8);
    assert(bytes@ =~= length_bytes(payload@.len()));
    for i in 0..payload.len()
        invariant
            bytes@ == length_bytes(payload@.len()) + payload@.take(i as int),
    {
        bytes.push(payload[i]);
        assert(bytes@ =~= length_bytes(payload@.len()) + payload@.take(i + 1));
    }
    assert(payload@.take(payload.len() as int) =~= payload@);
    Ok(bytes)
}

/// The length of the payload that follows a frame's first four bytes. An empty
/// payload and one over the limit are refused.
pub fn decode_length(header: [u8; 4]) -> (r: Result<usize, String>)
    ensures
        match r {
            Ok(n) => valid_length(bytes_length(header@)) && n == bytes_length(header@),
            Err(e) => !valid_length(bytes_length(header@)) && e@ == "传输元数据长度异常"@,
        },
{
    let n: u64 = header[0] as u64 * 0x100_0000 + header[1] as u64 * 0x1_0000 + header[2] as u64
        * 0x100 + header[3] as u64;
    if n == 0 || n > MAX_METADATA_BYTES as u64 {
        return Err("传输元数据长度异常".to_owned());
    }
    Ok(n as usize)
}

/// A frame is read back as it was written, whatever follows it on the
/// connection: its first four bytes declare the length of the payload, and the
/// payload is what comes next. Only an empty payload is written but not read.
pub proof fn lemma_frame_round_trip(payload: Seq<u8>, rest: Seq<u8>)
    requires
        0 < payload.len() <= MAX_METADATA_BYTES,
    ensures
        ({
            let stream = frame(payload) + rest;
            let declared = bytes_length(stream.take(4));
            &&& valid_length(declared)
            &&& declared == payload.len()
            &&& stream.subrange(4, 4 + declared as int) == payload
            &&& stream.skip(4 + declared as int) == rest
        }),
{
    let stream = frame(payload) + rest;
    let n = payload.len();
    assert(stream.take(4) =~= length_bytes(n));
    assert(bytes_length(length_bytes(n)) == n);
    assert(stream.subrange(4, 4 + n as int) =~= payload);
    assert(stream.skip(4 + n as int) =~= rest);
}

/// The first four bytes of a frame give the length of its payload, the highest
/// byte first, and the payload follows. What may be declared is from one byte to
/// sixteen mebibytes.
pub proof fn lemma_frames(payload: Seq<u8>, b: Seq<u8>, n: nat)
    requires
        payload.len() <= 0xffff_ffff,
        b.len() == 4,
    ensures
        ({
            let f = frame(payload);
            &&& f.len() == 4 + payload.len()
            &&& f[0] * 16777216 + f[1] * 65536 + f[2] * 256 + f[3] == payload.len()
            &&& f.skip(4) == payload
        }),
        bytes_length(b) == b[0] * 16777216 + b[1] * 65536 + b[2] * 256 + b[3],
        valid_length(n) == (1 <= n <= 16777216),
{
    let f = frame(payload);
    assert(f.skip(4) =~= payload);
}

} // verus!
