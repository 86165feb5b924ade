//! Decimal text rendering for the report tables.

use vstd::prelude::*;

verus! {

/// The decimal digits of a nonnegative number, most significant first.
pub open spec fn spec_udec(n: nat) -> Seq<u8>
    decreases n,
{
    if n < 10 {
        seq![(48 + n) as u8]
    } else {
        spec_udec(n / 10) + seq![(48 + n % 10) as u8]
    }
}

/// The decimal text of a number: a minus sign for negatives, then digits.
pub open spec fn spec_dec(n: int) -> Seq<u8> {
    if n < 0 {
        seq![45u8] + spec_udec((-n) as nat)
    } else {
        spec_udec(n as nat)
    }
}

/// Renders a nonnegative number in decimal.
pub fn udec(n: u128) -> (r: Vec<u8>)
    ensures
        r@ == spec_udec(n as nat),
        r@.len() >= 1,
    decreases n,
{
    if n < 10 {
        let mut v: Vec<u8> = Vec::new();
        v.push(48 + n as u8);
        proof {
            assert(v@ =~= spec_udec(n as nat));
        }
        v
    } else {
        let mut v = udec(n / 10);
        v.push(48 + (n % 10) as u8);
        proof {
            assert(v@ =~= spec_udec(n as nat));
        }
        v
    }
}

/// Renders a number in decimal, with a minus sign when negative.
pub fn dec_i128(n: i128) -> (r: Vec<u8>)
    ensures
        r@ == spec_dec(n as int),
        r@.len() >= 1,
{
    if n < 0 {
        let mut v: Vec<u8> = Vec::new();
        v.push(45);
        let mag: u128 = if n == i128::MIN {
            0x8000_0000_0000_0000_0000_0000_0000_0000u128
        } else {
            (-n) as u128
        };
        let d = udec(mag);
        crate::entry::append_bytes(&mut v, &d);
        proof {
            assert(v@ =~= spec_dec(n as int));
        }
        v
    } else {
        udec(n as u128)
    }
}

/// Appends `b`, left-padded with the given byte to at least `width` bytes.
pub fn push_padded_left(out: &mut Vec<u8>, b: &Vec<u8>, width: usize, pad: u8)
    ensures
        final(out)@.len() >= old(out)@.len(),
{
    let mut i: usize = b.len();
    while i < width
        invariant
            out@.len() >= old(out)@.len(),
        decreases width - i,
    {
        out.push(pad);
        i = i + 1;
    }
    crate::entry::append_bytes(out, b);
}

/// Appends `b`, right-padded with spaces to at least `width` bytes.
pub fn push_padded_right(out: &mut Vec<u8>, b: &Vec<u8>, width: usize)
    ensures
        final(out)@.len() >= old(out)@.len(),
{
    crate::entry::append_bytes(out, b);
    let mut i: usize = b.len();
    while i < width
        invariant
            out@.len() >= old(out)@.len() + b@.len(),
        decreases width - i,
    {
        out.push(32);
        i = i + 1;
    }
}

/// Renders a year as at least four zero-padded digits.
pub fn year4(y: u16) -> (r: Vec<u8>)
{
    let mut out: Vec<u8> = Vec::new();
    let d = udec(y as u128);
    push_padded_left(&mut out, &d, 4, 48);
    out
}

/// Renders a number as two zero-padded digits.
pub fn two2(n: u8) -> (r: Vec<u8>)
    requires
        n < 100,
    ensures
        r@ == crate::entry::spec_two(n as int),
{
    let mut v: Vec<u8> = Vec::new();
    v.push(48 + n / 10);
    v.push(48 + n % 10);
    proof {
        assert(v@ =~= crate::entry::spec_two(n as int));
    }
    v
}

} // verus!
