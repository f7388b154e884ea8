//! CRC-16 in the fieldbus convention: reflected polynomial 0xA001, register
//! starting at 0xFFFF, computed bit by bit without a table.
use vstd::prelude::*;

verus! {

/// Register value before any byte has been absorbed.
pub const CRC_INIT: u16 = 0xFFFF;

/// Reflected generator polynomial.
pub const CRC_POLY: u16 = 0xA001;

/// One bit step of the register: shift right, folding in the polynomial when
/// the bit shifted out was set.
pub open spec fn crc_shift(c: u16) -> u16 {
    if c & 1 != 0 {
        (c >> 1u16) ^ CRC_POLY
    } else {
        c >> 1u16
    }
}

/// `n` bit steps applied to the register.
pub open spec fn crc_shifts(c: u16, n: nat) -> u16
    decreases n,
{
    if n == 0 {
        c
    } else {
        crc_shift(crc_shifts(c, (n - 1) as nat))
    }
}

/// Absorbing one byte: XOR it into the low byte, then eight bit steps.
pub open spec fn crc_update(c: u16, b: u8) -> u16 {
    crc_shifts(c ^ (b as u16), 8)
}

/// The checksum of a byte sequence.
pub open spec fn crc16_of(s: Seq<u8>) -> u16
    decreases s.len(),
{
    if s.len() == 0 {
        CRC_INIT
    } else {
        crc_update(crc16_of(s.drop_last()), s.last())
    }
}

/// Computes the CRC-16 (fieldbus convention) of `data`.
pub fn crc16_modbus(data: &[u8]) -> (r: u16)
    ensures
        r == crc16_of(data@),
{
    let mut crc: u16 = CRC_INIT;
    let mut i: usize = 0;
    while i < data.len()
        invariant
            i <= data@.len(),
            crc == crc16_of(data@.subrange(0, i as int)),
        decreases data@.len() - i,
    {
        let b: u8 = data[i];
        crc = crc ^ (b as u16);
        let ghost start = crc;
        let mut k: u32 = 0;
        while k < 8
            invariant
                k <= 8,
                crc == crc_shifts(start, k as nat),
            decreases 8 - k,
        {
            let lsb: bool = (crc & 0x0001) != 0;
            crc = crc >> 1;
            if lsb {
                crc = crc ^ CRC_POLY;
            }
            k = k + 1;
        }
        proof {
            assert(data@.subrange(0, i + 1).drop_last() =~= data@.subrange(0, i as int));
        }
        i = i + 1;
    }
    proof {
        assert(data@.subrange(0, data@.len() as int) =~= data@);
    }
    crc
}

/// One bit step never maps two registers to the same value.
pub proof fn lemma_crc_shift_injective(x: u16, y: u16)
    ensures
        crc_shift(x) == crc_shift(y) ==> x == y,
{
    assert(((x & 1 != 0) ==> ((x >> 1u16) ^ 0xA001u16) & 0x8000u16 != 0)
        && ((x & 1 == 0) ==> (x >> 1u16) & 0x8000u16 == 0)) by (bit_vector);
    assert(((y & 1 != 0) ==> ((y >> 1u16) ^ 0xA001u16) & 0x8000u16 != 0)
        && ((y & 1 == 0) ==> (y >> 1u16) & 0x8000u16 == 0)) by (bit_vector);
    assert(((x & 1 != 0) && (y & 1 != 0) && ((x >> 1u16) ^ 0xA001u16) == ((y >> 1u16) ^ 0xA001u16)) ==> x == y) by (bit_vector);
    assert(((x & 1 == 0) && (y & 1 == 0) && (x >> 1u16) == (y >> 1u16)) ==> x == y) by (bit_vector);
}

/// Any number of bit steps is injective.
pub proof fn lemma_crc_shifts_injective(x: u16, y: u16, n: nat)
    ensures
        crc_shifts(x, n) == crc_shifts(y, n) ==> x == y,
    decreases n,
{
    if n > 0 {
        lemma_crc_shift_injective(crc_shifts(x, (n - 1) as nat), crc_shifts(y, (n - 1) as nat));
        lemma_crc_shifts_injective(x, y, (n - 1) as nat);
    }
}

/// Absorbing a byte is injective in the register and in the byte.
pub proof fn lemma_crc_update_injective(c1: u16, b1: u8, c2: u16, b2: u8)
    requires
        c1 == c2 || b1 == b2,
    ensures
        crc_update(c1, b1) == crc_update(c2, b2) ==> c1 == c2 && b1 == b2,
{
    lemma_crc_shifts_injective(c1 ^ (b1 as u16), c2 ^ (b2 as u16), 8);
    assert((c1 == c2 && (c1 ^ (b1 as u16)) == (c2 ^ (b2 as u16))) ==> b1 == b2) by (bit_vector);
    assert((b1 == b2 && (c1 ^ (b1 as u16)) == (c2 ^ (b2 as u16))) ==> c1 == c2) by (bit_vector);
}

/// Two sequences of equal length that differ in exactly one byte have
/// different checksums: every error confined to a single byte is detected.
pub proof fn lemma_crc_detects_one_byte_change(s: Seq<u8>, k: int, x: u8)
    requires
        0 <= k < s.len(),
        x != s[k],
    ensures
        crc16_of(s.update(k, x)) != crc16_of(s),
    decreases s.len(),
{
    let t = s.update(k, x);
    if k == s.len() - 1 {
        assert(t.drop_last() =~= s.drop_last());
        lemma_crc_update_injective(crc16_of(t.drop_last()), t.last(), crc16_of(s.drop_last()), s.last());
    } else {
        assert(t.drop_last() =~= s.drop_last().update(k, x));
        lemma_crc_detects_one_byte_change(s.drop_last(), k, x);
        lemma_crc_update_injective(crc16_of(t.drop_last()), t.last(), crc16_of(s.drop_last()), s.last());
    }
}

} // verus!
