//! Frames on the wire: a payload behind its length.

use vstd::prelude::*;

verus! {

/// How many bytes the length takes.
pub const HEADER: usize = 4;

/// The number that four bytes stand for, the most significant one first.
pub open spec fn number(h: Seq<u8>) -> int {
    h[0] * 0x100_0000 + h[1] * 0x1_0000 + h[2] * 0x100 + h[3]
}

/// The four bytes that stand for a number, the most significant one first.
pub open spec fn header(n: int) -> Seq<u8> {
    seq![
        (n / 0x100_0000) as u8,
        (n / 0x1_0000 % 0x100) as u8,
        (n / 0x100 % 0x100) as u8,
        (n % 0x100) as u8,
    ]
}

/// A payload behind its length; none for a payload whose length does not fit.
pub open spec fn framed(payload: Seq<u8>) -> Option<Seq<u8>> {
    if payload.len() <= u32::MAX {
        Some(header(payload.len() as int) + payload)
    } else {
        None
    }
}

/// The payload length that a header announces.
pub fn decode_message_length(h: &[u8; 4]) -> (r: u32)
    ensures
        r == number(h@),
{
    h[0] as u32 * 0x100_0000 + h[1] as u32 * 0x1_0000 + h[2] as u32 * 0x100 + h[3] as u32
}

/// The frame of a payload; none if the payload is too long for the header.
pub fn encode_message(payload: &Vec<u8>) -> (r: Option<Vec<u8>>)
    ensures
        match (r, framed(payload@)) {
            (Some(f), Some(g)) => f@ == g,
            (None, None) => true,
            _ => false,
        },
{
    let n: u64 = payload.len() as u64;
    if n > 0xffff_ffff {
        return None;
    }
    let mut out: Vec<u8> = Vec::new();
    out.push((n / 0x100_0000) as u8);
    out.push((n / 0x1_0000 % 0x100) as u8);
    out.push((n / 0x100 % 0x100) as u8);
    out.push((n % 0x100) as u8);
    assert(out@ =~= header(payload@.len() as int));
    let mut i: usize = 0;
    assert(out@ =~= header(payload@.len() as int) + payload@.take(0));
    while i < payload.len()
        invariant
            i <= payload.len(),
            out@ == header(payload@.len() as int) + payload@.take(i as int),
        decreases payload.len() - i,
    {
        out.push(payload[i]);
        i += 1;
        assert(out@ =~= header(payload@.len() as int) + payload@.take(i as int));
    }
    assert(payload@.take(i as int) =~= payload@);
    Some(out)
}

/// Reading gives back what was written: the header of a frame announces exactly the bytes
/// behind it, and those are the payload.
pub proof fn law_a_frame_reads_back(payload: Seq<u8>)
    requires
        payload.len() <= u32::MAX,
    ensures
        framed(payload) is Some,
        number(framed(payload)->0.take(HEADER as int)) == payload.len(),
        framed(payload)->0.skip(HEADER as int) == payload,
{
    let n = payload.len() as int;
    let f = framed(payload)->0;
    assert(f.take(4) =~= header(n));
    assert(f.skip(4) =~= payload);
    assert(n == n / 0x100_0000 * 0x100_0000 + n / 0x1_0000 % 0x100 * 0x1_0000 + n / 0x100 % 0x100
        * 0x100 + n % 0x100);
}

/// Two payloads with the same frame are the same.
pub proof fn law_frames_tell_payloads_apart(a: Seq<u8>, b: Seq<u8>)
    requires
        framed(a) is Some,
        framed(a) == framed(b),
    ensures
        a == b,
{
    law_a_frame_reads_back(a);
    law_a_frame_reads_back(b);
}

} // verus!
