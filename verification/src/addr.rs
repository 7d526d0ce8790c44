//! IPv4 socket addresses as plain values, their wire encoding and their
//! textual `host:port` form.

use vstd::prelude::*;
use crate::bytes::{spec_u16_be, push_u16_be, spec_u16_from_be, read_u16_be};

verus! {

/// Wire tag for an IPv4 address.
pub const ADDR_FAMILY_V4: u8 = 4;

/// An IPv4 socket address: four octets and a port.
#[derive(Clone, Copy, Debug, PartialEq, Eq, Structural, Hash)]
pub struct Address {
    pub o0: u8,
    pub o1: u8,
    pub o2: u8,
    pub o3: u8,
    pub port: u16,
}

/// The 7-byte wire form: family tag, four octets, big-endian port.
pub open spec fn spec_address_bytes(a: Address) -> Seq<u8> {
    seq![ADDR_FAMILY_V4, a.o0, a.o1, a.o2, a.o3] + spec_u16_be(a.port)
}

/// The address whose 7-byte wire form is `s`, if `s` is one.
pub open spec fn spec_decode_address(s: Seq<u8>) -> Option<Address> {
    if s.len() == 7 && s[0] == ADDR_FAMILY_V4 {
        Some(
            Address {
                o0: s[1],
                o1: s[2],
                o2: s[3],
                o3: s[4],
                port: spec_u16_from_be(s.subrange(5, 7)),
            },
        )
    } else {
        None
    }
}

pub proof fn lemma_address_round_trip(a: Address)
    ensures
        spec_decode_address(spec_address_bytes(a)) == Some(a),
{
    let s = spec_address_bytes(a);
    assert(s.subrange(5, 7) =~= spec_u16_be(a.port));
    crate::bytes::lemma_u16_be_round_trip(a.port);
}

/// Appends the wire form of `a` to `out`.
pub fn push_address(out: &mut Vec<u8>, a: &Address)
    ensures
        final(out)@ == old(out)@ + spec_address_bytes(*a),
{
    out.push(ADDR_FAMILY_V4);
    out.push(a.o0);
    out.push(a.o1);
    out.push(a.o2);
    out.push(a.o3);
    push_u16_be(out, a.port);
    assert(out@ =~= old(out)@ + spec_address_bytes(*a));
}

/// Reads the 7-byte wire form of an address at offset `off`.
pub fn read_address(s: &[u8], off: usize) -> (r: Option<Address>)
    requires
        off + 7 <= s@.len(),
    ensures
        r == spec_decode_address(s@.subrange(off as int, off + 7)),
{
    let ghost sub = s@.subrange(off as int, off + 7);
    if s[off] != ADDR_FAMILY_V4 {
        return None;
    }
    let port = read_u16_be(s, off + 5);
    assert(sub.subrange(5, 7) =~= s@.subrange(off + 5, off + 7));
    let a = Address { o0: s[off + 1], o1: s[off + 2], o2: s[off + 3], o3: s[off + 4], port };
    assert(sub[1] == a.o0 && sub[2] == a.o1 && sub[3] == a.o2 && sub[4] == a.o3);
    Some(a)
}

/// The decimal digits of `n`, most significant first.
pub open spec fn spec_decimal(n: nat) -> Seq<u8>
    decreases n,
{
    if n < 10 {
        seq![(48 + n) as u8]
    } else {
        spec_decimal(n / 10) + seq![(48 + n % 10) as u8]
    }
}

/// A decimal rendering never exceeds one digit per factor of ten.
pub proof fn lemma_decimal_len(n: nat)
    ensures
        n < 10 ==> spec_decimal(n).len() == 1,
        n < 100 ==> spec_decimal(n).len() <= 2,
        n < 1000 ==> spec_decimal(n).len() <= 3,
        n < 10000 ==> spec_decimal(n).len() <= 4,
        n < 100000 ==> spec_decimal(n).len() <= 5,
    decreases n,
{
    if n >= 10 {
        lemma_decimal_len(n / 10);
    }
}

/// Longest possible textual form of an address.
pub const MAX_ADDRESS_TEXT_LEN: usize = 21;

/// The textual form of an address is at most 21 bytes: four octets of up
/// to three digits, a five-digit port, three dots and a colon.
pub proof fn lemma_address_text_len(a: Address)
    ensures
        spec_address_text(a).len() <= MAX_ADDRESS_TEXT_LEN,
{
    lemma_decimal_len(a.o0 as nat);
    lemma_decimal_len(a.o1 as nat);
    lemma_decimal_len(a.o2 as nat);
    lemma_decimal_len(a.o3 as nat);
    lemma_decimal_len(a.port as nat);
}

/// The textual `a.b.c.d:port` form of an address, as ASCII bytes.
pub open spec fn spec_address_text(a: Address) -> Seq<u8> {
    spec_decimal(a.o0 as nat) + seq![46u8] + spec_decimal(a.o1 as nat) + seq![46u8] + spec_decimal(
        a.o2 as nat,
    ) + seq![46u8] + spec_decimal(a.o3 as nat) + seq![58u8] + spec_decimal(a.port as nat)
}

/// Appends the decimal digits of `n` to `out`.
pub fn push_decimal(out: &mut Vec<u8>, n: u16)
    ensures
        final(out)@ == old(out)@ + spec_decimal(n as nat),
    decreases n,
{
    if n < 10 {
        out.push(48 + n as u8);
    } else {
        push_decimal(out, n / 10);
        out.push(48 + (n % 10) as u8);
        assert(out@ =~= old(out)@ + spec_decimal(n as nat));
    }
}

/// The textual `a.b.c.d:port` form of `a`.
pub fn address_to_text(a: &Address) -> (r: Vec<u8>)
    ensures
        r@ == spec_address_text(*a),
{
    let mut out: Vec<u8> = Vec::new();
    push_decimal(&mut out, a.o0 as u16);
    out.push(46);
    push_decimal(&mut out, a.o1 as u16);
    out.push(46);
    push_decimal(&mut out, a.o2 as u16);
    out.push(46);
    push_decimal(&mut out, a.o3 as u16);
    out.push(58);
    push_decimal(&mut out, a.port);
    assert(out@ =~= spec_address_text(*a));
    out
}

} // verus!
