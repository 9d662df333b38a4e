//! SCALE primitives: little-endian integers and compact lengths.

use parity_scale_codec::{Compact, Decode, Encode};
use vstd::arithmetic::div_mod::lemma_fundamental_div_mod_converse;
use vstd::prelude::*;

verus! {

/// Two bytes, least significant first.
pub open spec fn le_u16(v: nat) -> Seq<u8> {
    seq![(v % 0x100) as u8, (v / 0x100 % 0x100) as u8]
}

/// Four bytes, least significant first.
pub open spec fn le_u32(v: nat) -> Seq<u8> {
    seq![
        (v % 0x100) as u8,
        (v / 0x100 % 0x100) as u8,
        (v / 0x10000 % 0x100) as u8,
        (v / 0x1000000 % 0x100) as u8,
    ]
}

/// The compact (variable-width) encoding of a 32-bit count.
pub open spec fn compact_u32(n: nat) -> Seq<u8> {
    if n < 0x40 {
        seq![(n * 4) as u8]
    } else if n < 0x4000 {
        le_u16(n * 4 + 1)
    } else if n < 0x4000_0000 {
        le_u32(n * 4 + 2)
    } else {
        seq![3u8] + le_u32(n)
    }
}

/// A little-endian `u16` read at `p`.
pub open spec fn read_u16(s: Seq<u8>, p: int) -> Option<nat> {
    if 0 <= p && p + 2 <= s.len() {
        Some(s[p] as nat + 0x100 * (s[p + 1] as nat))
    } else {
        None
    }
}

/// A little-endian `u32` read at `p`.
pub open spec fn read_u32(s: Seq<u8>, p: int) -> Option<nat> {
    if 0 <= p && p + 4 <= s.len() {
        Some(
            s[p] as nat + 0x100 * (s[p + 1] as nat) + 0x10000 * (s[p + 2] as nat)
                + 0x1000000 * (s[p + 3] as nat),
        )
    } else {
        None
    }
}

/// A compact count read at `p`; non-canonical forms are refused.
pub open spec fn read_compact(s: Seq<u8>, p: int) -> Option<nat> {
    if p < 0 || p >= s.len() {
        None
    } else {
        let b = s[p] as nat;
        if b % 4 == 0 {
            Some(b / 4)
        } else if b % 4 == 1 {
            match read_u16(s, p) {
                Some(v) => if v / 4 >= 0x40 { Some(v / 4) } else { None },
                None => None,
            }
        } else if b % 4 == 2 {
            match read_u32(s, p) {
                Some(v) => if v / 4 >= 0x4000 { Some(v / 4) } else { None },
                None => None,
            }
        } else if b / 4 == 0 {
            match read_u32(s, p + 1) {
                Some(v) => if v >= 0x4000_0000 { Some(v) } else { None },
                None => None,
            }
        } else {
            None
        }
    }
}

/// Relies on parity_scale_codec's `Encode for u16`: appends its two little-endian bytes.
#[verifier::external_body]
pub(crate) fn push_u16(out: &mut Vec<u8>, v: u16)
    ensures
        final(out)@ == old(out)@ + le_u16(v as nat),
{
    v.encode_to(out)
}

/// Relies on parity_scale_codec's `Encode for u32`: appends its four little-endian bytes.
#[verifier::external_body]
pub(crate) fn push_u32(out: &mut Vec<u8>, v: u32)
    ensures
        final(out)@ == old(out)@ + le_u32(v as nat),
{
    v.encode_to(out)
}

/// Relies on parity_scale_codec's `Encode for Compact<u32>`: appends the compact form of `n`.
#[verifier::external_body]
pub(crate) fn push_compact(out: &mut Vec<u8>, n: u32)
    ensures
        final(out)@ == old(out)@ + compact_u32(n as nat),
{
    Compact(n).encode_to(out)
}

/// Relies on parity_scale_codec's `Decode for u16`: reads two little-endian bytes.
#[verifier::external_body]
pub(crate) fn take_u16(s: &[u8], p: usize) -> (r: Option<u16>)
    requires
        p <= s@.len(),
    ensures
        match r {
            Some(v) => read_u16(s@, p as int) == Some(v as nat),
            None => read_u16(s@, p as int) is None,
        },
{
    u16::decode(&mut &s[p..]).ok()
}

/// Relies on parity_scale_codec's `Decode for u32`: reads four little-endian bytes.
#[verifier::external_body]
pub(crate) fn take_u32(s: &[u8], p: usize) -> (r: Option<u32>)
    requires
        p <= s@.len(),
    ensures
        match r {
            Some(v) => read_u32(s@, p as int) == Some(v as nat),
            None => read_u32(s@, p as int) is None,
        },
{
    u32::decode(&mut &s[p..]).ok()
}

/// Relies on parity_scale_codec's `Decode for Compact<u32>`: reads a canonical compact count.
#[verifier::external_body]
pub(crate) fn take_compact(s: &[u8], p: usize) -> (r: Option<u32>)
    requires
        p <= s@.len(),
    ensures
        match r {
            Some(v) => read_compact(s@, p as int) == Some(v as nat),
            None => read_compact(s@, p as int) is None,
        },
{
    Compact::<u32>::decode(&mut &s[p..]).ok().map(|c| c.0)
}

/// The number of bytes in the compact form of `n`.
pub fn compact_len(n: u32) -> (r: usize)
    ensures
        r == compact_u32(n as nat).len(),
        1 <= r <= 5,
{
    if n < 0x40 {
        1
    } else if n < 0x4000 {
        2
    } else if n < 0x4000_0000 {
        4
    } else {
        5
    }
}

/// Reading back two little-endian bytes gives the value written.
pub proof fn lemma_read_u16(s: Seq<u8>, p: int, v: nat)
    requires
        v < 0x10000,
        0 <= p && p + 2 <= s.len(),
        s.subrange(p, p + 2) == le_u16(v),
    ensures
        read_u16(s, p) == Some(v),
{
    assert(s[p] == s.subrange(p, p + 2)[0]);
    assert(s[p + 1] == s.subrange(p, p + 2)[1]);
    assert(v % 0x100 + 0x100 * (v / 0x100 % 0x100) == v) by (nonlinear_arith)
        requires
            v < 0x10000,
    ;
}

/// Reading back four little-endian bytes gives the value written.
pub proof fn lemma_read_u32(s: Seq<u8>, p: int, v: nat)
    requires
        v < 0x1_0000_0000,
        0 <= p && p + 4 <= s.len(),
        s.subrange(p, p + 4) == le_u32(v),
    ensures
        read_u32(s, p) == Some(v),
{
    let t = s.subrange(p, p + 4);
    assert(s[p] == t[0]);
    assert(s[p + 1] == t[1]);
    assert(s[p + 2] == t[2]);
    assert(s[p + 3] == t[3]);
    let w = v as u32;
    assert(w % 0x100 + 0x100 * (w / 0x100 % 0x100) + 0x10000 * (w / 0x10000 % 0x100) + 0x1000000 * (
    w / 0x1000000 % 0x100) == w) by (bit_vector);
}

/// Reading back a compact count gives the value written.
pub proof fn lemma_read_compact(s: Seq<u8>, p: int, n: nat)
    requires
        n < 0x1_0000_0000,
        0 <= p && p + compact_u32(n).len() <= s.len(),
        s.subrange(p, p + compact_u32(n).len()) == compact_u32(n),
    ensures
        read_compact(s, p) == Some(n),
{
    let e = compact_u32(n);
    assert(s[p] == s.subrange(p, p + e.len())[0]);
    if n < 0x40 {
    } else if n < 0x4000 {
        let v = n * 4 + 1;
        lemma_read_u16(s, p, v);
        let w = v as u32;
        assert((w % 0x100) % 4 == w % 4) by (bit_vector);
        assert(w % 4 == 1 && w / 4 == n);
    } else if n < 0x4000_0000 {
        let v = n * 4 + 2;
        lemma_read_u32(s, p, v);
        let w = v as u32;
        assert((w % 0x100) % 4 == w % 4) by (bit_vector);
        assert(w % 4 == 2 && w / 4 == n);
    } else {
        assert(s.subrange(p + 1, p + 5) =~= le_u32(n)) by {
            assert(s.subrange(p + 1, p + 5) =~= s.subrange(p, p + 5).subrange(1, 5));
        }
        lemma_read_u32(s, p + 1, n);
    }
}

/// Two bytes read as a `u16` are the encoding of the value read.
pub proof fn lemma_u16_sound(s: Seq<u8>, p: int)
    requires
        read_u16(s, p) is Some,
    ensures
        read_u16(s, p)->0 < 0x10000,
        s.subrange(p, p + 2) == le_u16(read_u16(s, p)->0),
{
    let b0 = s[p] as nat;
    let b1 = s[p + 1] as nat;
    let v = b0 + 0x100 * b1;
    assert(v % 0x100 == b0 && v / 0x100 % 0x100 == b1 && v < 0x10000) by (nonlinear_arith)
        requires
            v == b0 + 0x100 * b1,
            b0 < 0x100,
            b1 < 0x100,
    ;
    assert(s.subrange(p, p + 2) =~= le_u16(v));
}

/// Four bytes read as a `u32` are the encoding of the value read.
pub proof fn lemma_u32_sound(s: Seq<u8>, p: int)
    requires
        read_u32(s, p) is Some,
    ensures
        read_u32(s, p)->0 < 0x1_0000_0000,
        s.subrange(p, p + 4) == le_u32(read_u32(s, p)->0),
{
    let b0 = s[p] as int;
    let b1 = s[p + 1] as int;
    let b2 = s[p + 2] as int;
    let b3 = s[p + 3] as int;
    let v = b0 + 0x100 * b1 + 0x10000 * b2 + 0x1000000 * b3;
    assert(v == read_u32(s, p)->0);
    lemma_fundamental_div_mod_converse(v, 0x100, b1 + 0x100 * b2 + 0x10000 * b3, b0);
    lemma_fundamental_div_mod_converse(b1 + 0x100 * b2 + 0x10000 * b3, 0x100, b2 + 0x100 * b3, b1);
    lemma_fundamental_div_mod_converse(v, 0x10000, b2 + 0x100 * b3, b0 + 0x100 * b1);
    lemma_fundamental_div_mod_converse(b2 + 0x100 * b3, 0x100, b3, b2);
    lemma_fundamental_div_mod_converse(v, 0x1000000, b3, b0 + 0x100 * b1 + 0x10000 * b2);
    lemma_fundamental_div_mod_converse(b3, 0x100, 0, b3);
    assert(s.subrange(p, p + 4) =~= le_u32(v as nat));
}

/// A compact count read at `p` stands there in its compact form.
pub proof fn lemma_compact_sound(s: Seq<u8>, p: int)
    requires
        read_compact(s, p) is Some,
    ensures
        read_compact(s, p)->0 < 0x1_0000_0000,
        p + compact_u32(read_compact(s, p)->0).len() <= s.len(),
        s.subrange(p, p + compact_u32(read_compact(s, p)->0).len()) == compact_u32(
            read_compact(s, p)->0,
        ),
{
    let b = s[p];
    let n = read_compact(s, p)->0;
    if b % 4 == 0 {
        assert((b / 4) * 4 == b && b / 4 < 0x40) by (bit_vector)
            requires
                b % 4 == 0,
        ;
        assert(s.subrange(p, p + 1) =~= seq![b]);
    } else if b % 4 == 1 {
        lemma_u16_sound(s, p);
        let v = read_u16(s, p)->0;
        assert(v % 4 == b % 4) by (nonlinear_arith)
            requires
                v == b as nat + 0x100 * (s[p + 1] as nat),
        ;
        assert(n * 4 + 1 == v);
    } else if b % 4 == 2 {
        lemma_u32_sound(s, p);
        let v = read_u32(s, p)->0;
        assert(v % 4 == b % 4) by (nonlinear_arith)
            requires
                v == b as nat + 0x100 * (s[p + 1] as nat) + 0x10000 * (s[p + 2] as nat)
                    + 0x1000000 * (s[p + 3] as nat),
        ;
        assert(n * 4 + 2 == v);
    } else {
        lemma_u32_sound(s, p + 1);
        assert(b == 3) by (bit_vector)
            requires
                b % 4 == 3,
                b / 4 == 0,
        ;
        assert(s.subrange(p, p + 5) =~= seq![3u8] + s.subrange(p + 1, p + 5));
    }
}

} // verus!
