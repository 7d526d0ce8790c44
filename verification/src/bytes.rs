//! Big-endian integer encodings and length-prefixed framing.
//!
//! Every frame on any TCP connection used by the core is a big-endian
//! unsigned 32-bit length followed by that many payload bytes.

use vstd::prelude::*;

verus! {

/// Largest payload that fits behind a 32-bit length prefix.
pub const MAX_FRAME_PAYLOAD: usize = 0xffff_ffff;

/// The two bytes of `n` in big-endian order.
pub open spec fn spec_u16_be(n: u16) -> Seq<u8> {
    seq![((n >> 8) & 0xff) as u8, (n & 0xff) as u8]
}

/// The four bytes of `n` in big-endian order.
pub open spec fn spec_u32_be(n: u32) -> Seq<u8> {
    seq![
        ((n >> 24) & 0xff) as u8,
        ((n >> 16) & 0xff) as u8,
        ((n >> 8) & 0xff) as u8,
        (n & 0xff) as u8,
    ]
}

/// The value of four big-endian bytes.
pub open spec fn spec_u16_from_be(s: Seq<u8>) -> u16
    recommends
        s.len() == 2,
{
    (((s[0] as u16) << 8) | (s[1] as u16)) as u16
}

/// The value of four big-endian bytes.
pub open spec fn spec_u32_from_be(s: Seq<u8>) -> u32
    recommends
        s.len() == 4,
{
    (((s[0] as u32) << 24) | ((s[1] as u32) << 16) | ((s[2] as u32) << 8) | (s[3] as u32)) as u32
}

pub proof fn lemma_u16_be_round_trip(n: u16)
    ensures
        spec_u16_from_be(spec_u16_be(n)) == n,
{
    assert(((((((n >> 8) & 0xff) as u8) as u16) << 8) | (((n & 0xff) as u8) as u16)) as u16 == n)
        by (bit_vector);
}

pub proof fn lemma_u32_be_round_trip(n: u32)
    ensures
        spec_u32_from_be(spec_u32_be(n)) == n,
{
    assert((((((n >> 24) & 0xff) as u8) as u32) << 24 | ((((n >> 16) & 0xff) as u8) as u32) << 16
        | ((((n >> 8) & 0xff) as u8) as u32) << 8 | (((n & 0xff) as u8) as u32)) as u32 == n)
        by (bit_vector);
}

/// Appends the big-endian bytes of `n` to `out`.
pub fn push_u16_be(out: &mut Vec<u8>, n: u16)
    ensures
        final(out)@ == old(out)@ + spec_u16_be(n),
{
    proof {
        assert((n >> 8) & 0xff < 256 && n & 0xff < 256) by (bit_vector);
    }
    out.push(((n >> 8) & 0xff) as u8);
    out.push((n & 0xff) as u8);
    assert(out@ =~= old(out)@ + spec_u16_be(n));
}

/// Appends the big-endian bytes of `n` to `out`.
pub fn push_u32_be(out: &mut Vec<u8>, n: u32)
    ensures
        final(out)@ == old(out)@ + spec_u32_be(n),
{
    proof {
        assert((n >> 24) & 0xff < 256 && (n >> 16) & 0xff < 256 && (n >> 8) & 0xff < 256 && n & 0xff
            < 256) by (bit_vector);
    }
    out.push(((n >> 24) & 0xff) as u8);
    out.push(((n >> 16) & 0xff) as u8);
    out.push(((n >> 8) & 0xff) as u8);
    out.push((n & 0xff) as u8);
    assert(out@ =~= old(out)@ + spec_u32_be(n));
}

/// Reads a big-endian u16 at offset `off`.
pub fn read_u16_be(s: &[u8], off: usize) -> (n: u16)
    requires
        off + 2 <= s@.len(),
    ensures
        n == spec_u16_from_be(s@.subrange(off as int, off + 2)),
{
    let b0 = s[off];
    let b1 = s[off + 1];
    let ghost sub = s@.subrange(off as int, off + 2);
    assert(sub[0] == b0 && sub[1] == b1);
    ((b0 as u16) << 8) | (b1 as u16)
}

/// Reads a big-endian u32 at offset `off`.
pub fn read_u32_be(s: &[u8], off: usize) -> (n: u32)
    requires
        off + 4 <= s@.len(),
    ensures
        n == spec_u32_from_be(s@.subrange(off as int, off + 4)),
{
    let b0 = s[off];
    let b1 = s[off + 1];
    let b2 = s[off + 2];
    let b3 = s[off + 3];
    let ghost sub = s@.subrange(off as int, off + 4);
    assert(sub[0] == b0 && sub[1] == b1 && sub[2] == b2 && sub[3] == b3);
    ((b0 as u32) << 24) | ((b1 as u32) << 16) | ((b2 as u32) << 8) | (b3 as u32)
}

/// A payload as it appears on the wire: length prefix, then the bytes.
pub open spec fn spec_frame(p: Seq<u8>) -> Seq<u8>
    recommends
        p.len() <= MAX_FRAME_PAYLOAD,
{
    spec_u32_be(p.len() as u32) + p
}

/// Appends the frame carrying `payload` to `out`.
pub fn push_frame(out: &mut Vec<u8>, payload: &[u8])
    requires
        payload@.len() <= MAX_FRAME_PAYLOAD,
    ensures
        final(out)@ == old(out)@ + spec_frame(payload@),
{
    push_u32_be(out, payload.len() as u32);
    out.extend_from_slice(payload);
    assert(out@ =~= old(out)@ + spec_frame(payload@));
}

/// The first frame of `s`, with the number of bytes it occupies, or
/// `None` when `s` does not start with one complete frame.
pub open spec fn spec_take_frame(s: Seq<u8>) -> Option<(Seq<u8>, int)> {
    if s.len() < 4 {
        None
    } else {
        let n = spec_u32_from_be(s.subrange(0, 4)) as int;
        if s.len() < 4 + n {
            None
        } else {
            Some((s.subrange(4, 4 + n), 4 + n))
        }
    }
}

/// Splits one complete frame off the front of `buf`, returning its
/// payload and the number of bytes consumed.
pub fn take_frame(buf: &[u8]) -> (r: Option<(Vec<u8>, usize)>)
    ensures
        match r {
            Some(pc) => {
                &&& spec_take_frame(buf@) matches Some(sc)
                &&& pc.0@ == sc.0
                &&& pc.1 == sc.1
            },
            None => spec_take_frame(buf@) is None,
        },
{
    if buf.len() < 4 {
        return None;
    }
    let n = read_u32_be(buf, 0) as usize;
    if buf.len() - 4 < n {
        return None;
    }
    let payload = vstd::slice::slice_to_vec(&buf[4..4 + n]);
    Some((payload, 4 + n))
}

/// A frame followed by anything parses back to its own payload.
pub proof fn lemma_take_frame_of_frame(p: Seq<u8>, rest: Seq<u8>)
    requires
        p.len() <= MAX_FRAME_PAYLOAD,
    ensures
        spec_take_frame(spec_frame(p) + rest) == Some((p, 4 + p.len() as int)),
{
    let s = spec_frame(p) + rest;
    assert(s.subrange(0, 4) =~= spec_u32_be(p.len() as u32));
    lemma_u32_be_round_trip(p.len() as u32);
    assert(s.subrange(4, 4 + p.len() as int) =~= p);
}

/// Exactly one frame spanning the whole of `s`.
pub open spec fn spec_one_frame(s: Seq<u8>) -> Option<Seq<u8>> {
    match spec_take_frame(s) {
        Some(fc) => if fc.1 == s.len() {
            Some(fc.0)
        } else {
            None
        },
        None => None,
    }
}

/// Returns the payload of `buf` when `buf` is exactly one frame.
pub fn one_frame(buf: &[u8]) -> (r: Option<Vec<u8>>)
    ensures
        match r {
            Some(p) => {
                &&& spec_one_frame(buf@) matches Some(sp)
                &&& p@ == sp
            },
            None => spec_one_frame(buf@) is None,
        },
{
    match take_frame(buf) {
        Some((p, c)) => {
            if c == buf.len() {
                Some(p)
            } else {
                None
            }
        },
        None => None,
    }
}

/// A frame alone parses back to its own payload.
pub proof fn lemma_one_frame_of_frame(p: Seq<u8>)
    requires
        p.len() <= MAX_FRAME_PAYLOAD,
    ensures
        spec_one_frame(spec_frame(p)) == Some(p),
{
    lemma_take_frame_of_frame(p, Seq::<u8>::empty());
    assert(spec_frame(p) + Seq::<u8>::empty() =~= spec_frame(p));
}

/// Exactly two consecutive frames spanning the whole of `s`.
pub open spec fn spec_two_frames(s: Seq<u8>) -> Option<(Seq<u8>, Seq<u8>)> {
    match spec_take_frame(s) {
        Some(fc1) => match spec_take_frame(s.skip(fc1.1)) {
            Some(fc2) => if fc1.1 + fc2.1 == s.len() {
                Some((fc1.0, fc2.0))
            } else {
                None
            },
            None => None,
        },
        None => None,
    }
}

/// Splits `buf` into exactly two frames, or returns `None` when `buf` is
/// not exactly two frames.
pub fn two_frames(buf: &[u8]) -> (r: Option<(Vec<u8>, Vec<u8>)>)
    ensures
        match r {
            Some(ff) => {
                &&& spec_two_frames(buf@) matches Some(sf)
                &&& ff.0@ == sf.0
                &&& ff.1@ == sf.1
            },
            None => spec_two_frames(buf@) is None,
        },
{
    let r1 = take_frame(buf);
    match r1 {
        Some((f1, c1)) => {
            let rest = &buf[c1..buf.len()];
            assert(rest@ =~= buf@.skip(c1 as int));
            let r2 = take_frame(rest);
            match r2 {
                Some((f2, c2)) => {
                    if c1 == buf.len() - c2 {
                        Some((f1, f2))
                    } else {
                        None
                    }
                },
                None => None,
            }
        },
        None => None,
    }
}

/// Two concatenated frames split back into their two payloads.
pub proof fn lemma_two_frames_of_frames(a: Seq<u8>, b: Seq<u8>)
    requires
        a.len() <= MAX_FRAME_PAYLOAD,
        b.len() <= MAX_FRAME_PAYLOAD,
    ensures
        spec_two_frames(spec_frame(a) + spec_frame(b)) == Some((a, b)),
{
    let s = spec_frame(a) + spec_frame(b);
    let c1 = 4 + a.len() as int;
    lemma_take_frame_of_frame(a, spec_frame(b));
    assert(spec_take_frame(s) == Some((a, c1)));
    lemma_take_frame_of_frame(b, Seq::<u8>::empty());
    assert(s.skip(c1) =~= spec_frame(b) + Seq::<u8>::empty());
    assert(spec_take_frame(s.skip(c1)) == Some((b, 4 + b.len() as int)));
    assert(c1 + (4 + b.len() as int) == s.len());
}

} // verus!
