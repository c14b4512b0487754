//! Win test by parallel shifts within and across the four layers.

use vstd::prelude::*;
use crate::board::{is_win, line_mask, NUM_LINES};

verus! {

/// Whether one 16-cell layer holds a row, a column or a diagonal.
fn check_plane(m: u16) -> (r: bool)
    ensures
        r == ((m & (m >> 1u16)) & ((m & (m >> 1u16)) >> 2u16) & 0x1111u16 != 0u16
        || (m & (m >> 4u16)) & ((m & (m >> 4u16)) >> 8u16) & 0x000Fu16 != 0u16
        || (m & (m >> 5u16)) & ((m & (m >> 5u16)) >> 10u16) & 0x0001u16 != 0u16
        || (m & (m >> 3u16)) & ((m & (m >> 3u16)) >> 6u16) & 0x0008u16 != 0u16),
{
    let t_rows = m & (m >> 1u16);
    if t_rows & (t_rows >> 2u16) & 0x1111u16 != 0u16 {
        return true;
    }
    let t_cols = m & (m >> 4u16);
    if t_cols & (t_cols >> 8u16) & 0x000Fu16 != 0u16 {
        return true;
    }
    let t_d1 = m & (m >> 5u16);
    if t_d1 & (t_d1 >> 10u16) & 0x0001u16 != 0u16 {
        return true;
    }
    let t_d2 = m & (m >> 3u16);
    if t_d2 & (t_d2 >> 6u16) & 0x0008u16 != 0u16 {
        return true;
    }
    false
}

/// The shift tests on the four layers agree with the test of each line's mask.
proof fn lemma_layer_tests(mask: u64, p0: u16, p1: u16, p2: u16, p3: u16)
    by (bit_vector)
    requires
        p0 == mask as u16,
        p1 == (mask >> 16u64) as u16,
        p2 == (mask >> 32u64) as u16,
        p3 == (mask >> 48u64) as u16,
    ensures
        (((p0 & (p0 >> 1u16)) & ((p0 & (p0 >> 1u16)) >> 2u16) & 0x1111u16 != 0u16
        || (p0 & (p0 >> 4u16)) & ((p0 & (p0 >> 4u16)) >> 8u16) & 0x000Fu16 != 0u16
        || (p0 & (p0 >> 5u16)) & ((p0 & (p0 >> 5u16)) >> 10u16) & 0x0001u16 != 0u16
        || (p0 & (p0 >> 3u16)) & ((p0 & (p0 >> 3u16)) >> 6u16) & 0x0008u16 != 0u16)
        || ((p1 & (p1 >> 1u16)) & ((p1 & (p1 >> 1u16)) >> 2u16) & 0x1111u16 != 0u16
        || (p1 & (p1 >> 4u16)) & ((p1 & (p1 >> 4u16)) >> 8u16) & 0x000Fu16 != 0u16
        || (p1 & (p1 >> 5u16)) & ((p1 & (p1 >> 5u16)) >> 10u16) & 0x0001u16 != 0u16
        || (p1 & (p1 >> 3u16)) & ((p1 & (p1 >> 3u16)) >> 6u16) & 0x0008u16 != 0u16)
        || ((p2 & (p2 >> 1u16)) & ((p2 & (p2 >> 1u16)) >> 2u16) & 0x1111u16 != 0u16
        || (p2 & (p2 >> 4u16)) & ((p2 & (p2 >> 4u16)) >> 8u16) & 0x000Fu16 != 0u16
        || (p2 & (p2 >> 5u16)) & ((p2 & (p2 >> 5u16)) >> 10u16) & 0x0001u16 != 0u16
        || (p2 & (p2 >> 3u16)) & ((p2 & (p2 >> 3u16)) >> 6u16) & 0x0008u16 != 0u16)
        || ((p3 & (p3 >> 1u16)) & ((p3 & (p3 >> 1u16)) >> 2u16) & 0x1111u16 != 0u16
        || (p3 & (p3 >> 4u16)) & ((p3 & (p3 >> 4u16)) >> 8u16) & 0x000Fu16 != 0u16
        || (p3 & (p3 >> 5u16)) & ((p3 & (p3 >> 5u16)) >> 10u16) & 0x0001u16 != 0u16
        || (p3 & (p3 >> 3u16)) & ((p3 & (p3 >> 3u16)) >> 6u16) & 0x0008u16 != 0u16)
        || (p0 & p1 & p2 & p3 != 0u16)
        || (p0 & (p1 >> 1u16) & (p2 >> 2u16) & (p3 >> 3u16) & 0x1111u16 != 0u16)
        || (p0 & (p1 << 1u16) & (p2 << 2u16) & (p3 << 3u16) & 0x8888u16 != 0u16)
        || (p0 & (p1 >> 4u16) & (p2 >> 8u16) & (p3 >> 12u16) & 0x000Fu16 != 0u16)
        || (p0 & (p1 << 4u16) & (p2 << 8u16) & (p3 << 12u16) & 0xF000u16 != 0u16)
        || (p0 & (p1 >> 5u16) & (p2 >> 10u16) & (p3 >> 15u16) & 0x0001u16 != 0u16)
        || (p0 & (p1 >> 3u16) & (p2 >> 6u16) & (p3 >> 9u16) & 0x0008u16 != 0u16)
        || (p0 & (p1 << 3u16) & (p2 << 6u16) & (p3 << 9u16) & 0x1000u16 != 0u16)
        || (p0 & (p1 << 5u16) & (p2 << 10u16) & (p3 << 15u16) & 0x8000u16 != 0u16)) == (
        mask & 0x000000000000000fu64 == 0x000000000000000fu64
            || mask & 0x00000000000000f0u64 == 0x00000000000000f0u64
            || mask & 0x0000000000000f00u64 == 0x0000000000000f00u64
            || mask & 0x000000000000f000u64 == 0x000000000000f000u64
            || mask & 0x00000000000f0000u64 == 0x00000000000f0000u64
            || mask & 0x0000000000f00000u64 == 0x0000000000f00000u64
            || mask & 0x000000000f000000u64 == 0x000000000f000000u64
            || mask & 0x00000000f0000000u64 == 0x00000000f0000000u64
            || mask & 0x0000000f00000000u64 == 0x0000000f00000000u64
            || mask & 0x000000f000000000u64 == 0x000000f000000000u64
            || mask & 0x00000f0000000000u64 == 0x00000f0000000000u64
            || mask & 0x0000f00000000000u64 == 0x0000f00000000000u64
            || mask & 0x000f000000000000u64 == 0x000f000000000000u64
            || mask & 0x00f0000000000000u64 == 0x00f0000000000000u64
            || mask & 0x0f00000000000000u64 == 0x0f00000000000000u64
            || mask & 0xf000000000000000u64 == 0xf000000000000000u64
            || mask & 0x0000000000001111u64 == 0x0000000000001111u64
            || mask & 0x0000000000002222u64 == 0x0000000000002222u64
            || mask & 0x0000000000004444u64 == 0x0000000000004444u64
            || mask & 0x0000000000008888u64 == 0x0000000000008888u64
            || mask & 0x0000000011110000u64 == 0x0000000011110000u64
            || mask & 0x0000000022220000u64 == 0x0000000022220000u64
            || mask & 0x0000000044440000u64 == 0x0000000044440000u64
            || mask & 0x0000000088880000u64 == 0x0000000088880000u64
            || mask & 0x0000111100000000u64 == 0x0000111100000000u64
            || mask & 0x0000222200000000u64 == 0x0000222200000000u64
            || mask & 0x0000444400000000u64 == 0x0000444400000000u64
            || mask & 0x0000888800000000u64 == 0x0000888800000000u64
            || mask & 0x1111000000000000u64 == 0x1111000000000000u64
            || mask & 0x2222000000000000u64 == 0x2222000000000000u64
            || mask & 0x4444000000000000u64 == 0x4444000000000000u64
            || mask & 0x8888000000000000u64 == 0x8888000000000000u64
            || mask & 0x0001000100010001u64 == 0x0001000100010001u64
            || mask & 0x0010001000100010u64 == 0x0010001000100010u64
            || mask & 0x0100010001000100u64 == 0x0100010001000100u64
            || mask & 0x1000100010001000u64 == 0x1000100010001000u64
            || mask & 0x0002000200020002u64 == 0x0002000200020002u64
            || mask & 0x0020002000200020u64 == 0x0020002000200020u64
            || mask & 0x0200020002000200u64 == 0x0200020002000200u64
            || mask & 0x2000200020002000u64 == 0x2000200020002000u64
            || mask & 0x0004000400040004u64 == 0x0004000400040004u64
            || mask & 0x0040004000400040u64 == 0x0040004000400040u64
            || mask & 0x0400040004000400u64 == 0x0400040004000400u64
            || mask & 0x4000400040004000u64 == 0x4000400040004000u64
            || mask & 0x0008000800080008u64 == 0x0008000800080008u64
            || mask & 0x0080008000800080u64 == 0x0080008000800080u64
            || mask & 0x0800080008000800u64 == 0x0800080008000800u64
            || mask & 0x8000800080008000u64 == 0x8000800080008000u64
            || mask & 0x0000000000008421u64 == 0x0000000000008421u64
            || mask & 0x0000000000001248u64 == 0x0000000000001248u64
            || mask & 0x0000000084210000u64 == 0x0000000084210000u64
            || mask & 0x0000000012480000u64 == 0x0000000012480000u64
            || mask & 0x0000842100000000u64 == 0x0000842100000000u64
            || mask & 0x0000124800000000u64 == 0x0000124800000000u64
            || mask & 0x8421000000000000u64 == 0x8421000000000000u64
            || mask & 0x1248000000000000u64 == 0x1248000000000000u64
            || mask & 0x0008000400020001u64 == 0x0008000400020001u64
            || mask & 0x0001000200040008u64 == 0x0001000200040008u64
            || mask & 0x0080004000200010u64 == 0x0080004000200010u64
            || mask & 0x0010002000400080u64 == 0x0010002000400080u64
            || mask & 0x0800040002000100u64 == 0x0800040002000100u64
            || mask & 0x0100020004000800u64 == 0x0100020004000800u64
            || mask & 0x8000400020001000u64 == 0x8000400020001000u64
            || mask & 0x1000200040008000u64 == 0x1000200040008000u64
            || mask & 0x1000010000100001u64 == 0x1000010000100001u64
            || mask & 0x0001001001001000u64 == 0x0001001001001000u64
            || mask & 0x2000020000200002u64 == 0x2000020000200002u64
            || mask & 0x0002002002002000u64 == 0x0002002002002000u64
            || mask & 0x4000040000400004u64 == 0x4000040000400004u64
            || mask & 0x0004004004004000u64 == 0x0004004004004000u64
            || mask & 0x8000080000800008u64 == 0x8000080000800008u64
            || mask & 0x0008008008008000u64 == 0x0008008008008000u64
            || mask & 0x8000040000200001u64 == 0x8000040000200001u64
            || mask & 0x1000020000400008u64 == 0x1000020000400008u64
            || mask & 0x0008004002001000u64 == 0x0008004002001000u64
            || mask & 0x0001002004008000u64 == 0x0001002004008000u64
        ),
{
}

/// The masks of the lines, written out.
proof fn lemma_line_literals()
    ensures
        line_mask(0) == 0x000000000000000fu64,
        line_mask(1) == 0x00000000000000f0u64,
        line_mask(2) == 0x0000000000000f00u64,
        line_mask(3) == 0x000000000000f000u64,
        line_mask(4) == 0x00000000000f0000u64,
        line_mask(5) == 0x0000000000f00000u64,
        line_mask(6) == 0x000000000f000000u64,
        line_mask(7) == 0x00000000f0000000u64,
        line_mask(8) == 0x0000000f00000000u64,
        line_mask(9) == 0x000000f000000000u64,
        line_mask(10) == 0x00000f0000000000u64,
        line_mask(11) == 0x0000f00000000000u64,
        line_mask(12) == 0x000f000000000000u64,
        line_mask(13) == 0x00f0000000000000u64,
        line_mask(14) == 0x0f00000000000000u64,
        line_mask(15) == 0xf000000000000000u64,
        line_mask(16) == 0x0000000000001111u64,
        line_mask(17) == 0x0000000000002222u64,
        line_mask(18) == 0x0000000000004444u64,
        line_mask(19) == 0x0000000000008888u64,
        line_mask(20) == 0x0000000011110000u64,
        line_mask(21) == 0x0000000022220000u64,
        line_mask(22) == 0x0000000044440000u64,
        line_mask(23) == 0x0000000088880000u64,
        line_mask(24) == 0x0000111100000000u64,
        line_mask(25) == 0x0000222200000000u64,
        line_mask(26) == 0x0000444400000000u64,
        line_mask(27) == 0x0000888800000000u64,
        line_mask(28) == 0x1111000000000000u64,
        line_mask(29) == 0x2222000000000000u64,
        line_mask(30) == 0x4444000000000000u64,
        line_mask(31) == 0x8888000000000000u64,
        line_mask(32) == 0x0001000100010001u64,
        line_mask(33) == 0x0010001000100010u64,
        line_mask(34) == 0x0100010001000100u64,
        line_mask(35) == 0x1000100010001000u64,
        line_mask(36) == 0x0002000200020002u64,
        line_mask(37) == 0x0020002000200020u64,
        line_mask(38) == 0x0200020002000200u64,
        line_mask(39) == 0x2000200020002000u64,
        line_mask(40) == 0x0004000400040004u64,
        line_mask(41) == 0x0040004000400040u64,
        line_mask(42) == 0x0400040004000400u64,
        line_mask(43) == 0x4000400040004000u64,
        line_mask(44) == 0x0008000800080008u64,
        line_mask(45) == 0x0080008000800080u64,
        line_mask(46) == 0x0800080008000800u64,
        line_mask(47) == 0x8000800080008000u64,
        line_mask(48) == 0x0000000000008421u64,
        line_mask(49) == 0x0000000000001248u64,
        line_mask(50) == 0x0000000084210000u64,
        line_mask(51) == 0x0000000012480000u64,
        line_mask(52) == 0x0000842100000000u64,
        line_mask(53) == 0x0000124800000000u64,
        line_mask(54) == 0x8421000000000000u64,
        line_mask(55) == 0x1248000000000000u64,
        line_mask(56) == 0x0008000400020001u64,
        line_mask(57) == 0x0001000200040008u64,
        line_mask(58) == 0x0080004000200010u64,
        line_mask(59) == 0x0010002000400080u64,
        line_mask(60) == 0x0800040002000100u64,
        line_mask(61) == 0x0100020004000800u64,
        line_mask(62) == 0x8000400020001000u64,
        line_mask(63) == 0x1000200040008000u64,
        line_mask(64) == 0x1000010000100001u64,
        line_mask(65) == 0x0001001001001000u64,
        line_mask(66) == 0x2000020000200002u64,
        line_mask(67) == 0x0002002002002000u64,
        line_mask(68) == 0x4000040000400004u64,
        line_mask(69) == 0x0004004004004000u64,
        line_mask(70) == 0x8000080000800008u64,
        line_mask(71) == 0x0008008008008000u64,
        line_mask(72) == 0x8000040000200001u64,
        line_mask(73) == 0x1000020000400008u64,
        line_mask(74) == 0x0008004002001000u64,
        line_mask(75) == 0x0001002004008000u64,
{
    assert(
        ((1u64 << 0u64) | (1u64 << 1u64) | (1u64 << 2u64) | (1u64 << 3u64)) == 0x000000000000000fu64
        && ((1u64 << 4u64) | (1u64 << 5u64) | (1u64 << 6u64) | (1u64 << 7u64)) == 0x00000000000000f0u64
        && ((1u64 << 8u64) | (1u64 << 9u64) | (1u64 << 10u64) | (1u64 << 11u64)) == 0x0000000000000f00u64
        && ((1u64 << 12u64) | (1u64 << 13u64) | (1u64 << 14u64) | (1u64 << 15u64)) == 0x000000000000f000u64
        && ((1u64 << 16u64) | (1u64 << 17u64) | (1u64 << 18u64) | (1u64 << 19u64)) == 0x00000000000f0000u64
        && ((1u64 << 20u64) | (1u64 << 21u64) | (1u64 << 22u64) | (1u64 << 23u64)) == 0x0000000000f00000u64
        && ((1u64 << 24u64) | (1u64 << 25u64) | (1u64 << 26u64) | (1u64 << 27u64)) == 0x000000000f000000u64
        && ((1u64 << 28u64) | (1u64 << 29u64) | (1u64 << 30u64) | (1u64 << 31u64)) == 0x00000000f0000000u64
        && ((1u64 << 32u64) | (1u64 << 33u64) | (1u64 << 34u64) | (1u64 << 35u64)) == 0x0000000f00000000u64
        && ((1u64 << 36u64) | (1u64 << 37u64) | (1u64 << 38u64) | (1u64 << 39u64)) == 0x000000f000000000u64
        && ((1u64 << 40u64) | (1u64 << 41u64) | (1u64 << 42u64) | (1u64 << 43u64)) == 0x00000f0000000000u64
        && ((1u64 << 44u64) | (1u64 << 45u64) | (1u64 << 46u64) | (1u64 << 47u64)) == 0x0000f00000000000u64
        && ((1u64 << 48u64) | (1u64 << 49u64) | (1u64 << 50u64) | (1u64 << 51u64)) == 0x000f000000000000u64
        && ((1u64 << 52u64) | (1u64 << 53u64) | (1u64 << 54u64) | (1u64 << 55u64)) == 0x00f0000000000000u64
        && ((1u64 << 56u64) | (1u64 << 57u64) | (1u64 << 58u64) | (1u64 << 59u64)) == 0x0f00000000000000u64
        && ((1u64 << 60u64) | (1u64 << 61u64) | (1u64 << 62u64) | (1u64 << 63u64)) == 0xf000000000000000u64
        && ((1u64 << 0u64) | (1u64 << 4u64) | (1u64 << 8u64) | (1u64 << 12u64)) == 0x0000000000001111u64
        && ((1u64 << 1u64) | (1u64 << 5u64) | (1u64 << 9u64) | (1u64 << 13u64)) == 0x0000000000002222u64
        && ((1u64 << 2u64) | (1u64 << 6u64) | (1u64 << 10u64) | (1u64 << 14u64)) == 0x0000000000004444u64
        && ((1u64 << 3u64) | (1u64 << 7u64) | (1u64 << 11u64) | (1u64 << 15u64)) == 0x0000000000008888u64
        && ((1u64 << 16u64) | (1u64 << 20u64) | (1u64 << 24u64) | (1u64 << 28u64)) == 0x0000000011110000u64
        && ((1u64 << 17u64) | (1u64 << 21u64) | (1u64 << 25u64) | (1u64 << 29u64)) == 0x0000000022220000u64
        && ((1u64 << 18u64) | (1u64 << 22u64) | (1u64 << 26u64) | (1u64 << 30u64)) == 0x0000000044440000u64
        && ((1u64 << 19u64) | (1u64 << 23u64) | (1u64 << 27u64) | (1u64 << 31u64)) == 0x0000000088880000u64
        && ((1u64 << 32u64) | (1u64 << 36u64) | (1u64 << 40u64) | (1u64 << 44u64)) == 0x0000111100000000u64
        && ((1u64 << 33u64) | (1u64 << 37u64) | (1u64 << 41u64) | (1u64 << 45u64)) == 0x0000222200000000u64
        && ((1u64 << 34u64) | (1u64 << 38u64) | (1u64 << 42u64) | (1u64 << 46u64)) == 0x0000444400000000u64
        && ((1u64 << 35u64) | (1u64 << 39u64) | (1u64 << 43u64) | (1u64 << 47u64)) == 0x0000888800000000u64
        && ((1u64 << 48u64) | (1u64 << 52u64) | (1u64 << 56u64) | (1u64 << 60u64)) == 0x1111000000000000u64
        && ((1u64 << 49u64) | (1u64 << 53u64) | (1u64 << 57u64) | (1u64 << 61u64)) == 0x2222000000000000u64
        && ((1u64 << 50u64) | (1u64 << 54u64) | (1u64 << 58u64) | (1u64 << 62u64)) == 0x4444000000000000u64
        && ((1u64 << 51u64) | (1u64 << 55u64) | (1u64 << 59u64) | (1u64 << 63u64)) == 0x8888000000000000u64
        && ((1u64 << 0u64) | (1u64 << 16u64) | (1u64 << 32u64) | (1u64 << 48u64)) == 0x0001000100010001u64
        && ((1u64 << 4u64) | (1u64 << 20u64) | (1u64 << 36u64) | (1u64 << 52u64)) == 0x0010001000100010u64
        && ((1u64 << 8u64) | (1u64 << 24u64) | (1u64 << 40u64) | (1u64 << 56u64)) == 0x0100010001000100u64
        && ((1u64 << 12u64) | (1u64 << 28u64) | (1u64 << 44u64) | (1u64 << 60u64)) == 0x1000100010001000u64
        && ((1u64 << 1u64) | (1u64 << 17u64) | (1u64 << 33u64) | (1u64 << 49u64)) == 0x0002000200020002u64
        && ((1u64 << 5u64) | (1u64 << 21u64) | (1u64 << 37u64) | (1u64 << 53u64)) == 0x0020002000200020u64
        && ((1u64 << 9u64) | (1u64 << 25u64) | (1u64 << 41u64) | (1u64 << 57u64)) == 0x0200020002000200u64
        && ((1u64 << 13u64) | (1u64 << 29u64) | (1u64 << 45u64) | (1u64 << 61u64)) == 0x2000200020002000u64
        && ((1u64 << 2u64) | (1u64 << 18u64) | (1u64 << 34u64) | (1u64 << 50u64)) == 0x0004000400040004u64
        && ((1u64 << 6u64) | (1u64 << 22u64) | (1u64 << 38u64) | (1u64 << 54u64)) == 0x0040004000400040u64
        && ((1u64 << 10u64) | (1u64 << 26u64) | (1u64 << 42u64) | (1u64 << 58u64)) == 0x0400040004000400u64
        && ((1u64 << 14u64) | (1u64 << 30u64) | (1u64 << 46u64) | (1u64 << 62u64)) == 0x4000400040004000u64
        && ((1u64 << 3u64) | (1u64 << 19u64) | (1u64 << 35u64) | (1u64 << 51u64)) == 0x0008000800080008u64
        && ((1u64 << 7u64) | (1u64 << 23u64) | (1u64 << 39u64) | (1u64 << 55u64)) == 0x0080008000800080u64
        && ((1u64 << 11u64) | (1u64 << 27u64) | (1u64 << 43u64) | (1u64 << 59u64)) == 0x0800080008000800u64
        && ((1u64 << 15u64) | (1u64 << 31u64) | (1u64 << 47u64) | (1u64 << 63u64)) == 0x8000800080008000u64
        && ((1u64 << 0u64) | (1u64 << 5u64) | (1u64 << 10u64) | (1u64 << 15u64)) == 0x0000000000008421u64
        && ((1u64 << 3u64) | (1u64 << 6u64) | (1u64 << 9u64) | (1u64 << 12u64)) == 0x0000000000001248u64
        && ((1u64 << 16u64) | (1u64 << 21u64) | (1u64 << 26u64) | (1u64 << 31u64)) == 0x0000000084210000u64
        && ((1u64 << 19u64) | (1u64 << 22u64) | (1u64 << 25u64) | (1u64 << 28u64)) == 0x0000000012480000u64
        && ((1u64 << 32u64) | (1u64 << 37u64) | (1u64 << 42u64) | (1u64 << 47u64)) == 0x0000842100000000u64
        && ((1u64 << 35u64) | (1u64 << 38u64) | (1u64 << 41u64) | (1u64 << 44u64)) == 0x0000124800000000u64
        && ((1u64 << 48u64) | (1u64 << 53u64) | (1u64 << 58u64) | (1u64 << 63u64)) == 0x8421000000000000u64
        && ((1u64 << 51u64) | (1u64 << 54u64) | (1u64 << 57u64) | (1u64 << 60u64)) == 0x1248000000000000u64
        && ((1u64 << 0u64) | (1u64 << 17u64) | (1u64 << 34u64) | (1u64 << 51u64)) == 0x0008000400020001u64
        && ((1u64 << 3u64) | (1u64 << 18u64) | (1u64 << 33u64) | (1u64 << 48u64)) == 0x0001000200040008u64
        && ((1u64 << 4u64) | (1u64 << 21u64) | (1u64 << 38u64) | (1u64 << 55u64)) == 0x0080004000200010u64
        && ((1u64 << 7u64) | (1u64 << 22u64) | (1u64 << 37u64) | (1u64 << 52u64)) == 0x0010002000400080u64
        && ((1u64 << 8u64) | (1u64 << 25u64) | (1u64 << 42u64) | (1u64 << 59u64)) == 0x0800040002000100u64
        && ((1u64 << 11u64) | (1u64 << 26u64) | (1u64 << 41u64) | (1u64 << 56u64)) == 0x0100020004000800u64
        && ((1u64 << 12u64) | (1u64 << 29u64) | (1u64 << 46u64) | (1u64 << 63u64)) == 0x8000400020001000u64
        && ((1u64 << 15u64) | (1u64 << 30u64) | (1u64 << 45u64) | (1u64 << 60u64)) == 0x1000200040008000u64
        && ((1u64 << 0u64) | (1u64 << 20u64) | (1u64 << 40u64) | (1u64 << 60u64)) == 0x1000010000100001u64
        && ((1u64 << 12u64) | (1u64 << 24u64) | (1u64 << 36u64) | (1u64 << 48u64)) == 0x0001001001001000u64
        && ((1u64 << 1u64) | (1u64 << 21u64) | (1u64 << 41u64) | (1u64 << 61u64)) == 0x2000020000200002u64
        && ((1u64 << 13u64) | (1u64 << 25u64) | (1u64 << 37u64) | (1u64 << 49u64)) == 0x0002002002002000u64
        && ((1u64 << 2u64) | (1u64 << 22u64) | (1u64 << 42u64) | (1u64 << 62u64)) == 0x4000040000400004u64
        && ((1u64 << 14u64) | (1u64 << 26u64) | (1u64 << 38u64) | (1u64 << 50u64)) == 0x0004004004004000u64
        && ((1u64 << 3u64) | (1u64 << 23u64) | (1u64 << 43u64) | (1u64 << 63u64)) == 0x8000080000800008u64
        && ((1u64 << 15u64) | (1u64 << 27u64) | (1u64 << 39u64) | (1u64 << 51u64)) == 0x0008008008008000u64
        && ((1u64 << 0u64) | (1u64 << 21u64) | (1u64 << 42u64) | (1u64 << 63u64)) == 0x8000040000200001u64
        && ((1u64 << 3u64) | (1u64 << 22u64) | (1u64 << 41u64) | (1u64 << 60u64)) == 0x1000020000400008u64
        && ((1u64 << 12u64) | (1u64 << 25u64) | (1u64 << 38u64) | (1u64 << 51u64)) == 0x0008004002001000u64
        && ((1u64 << 15u64) | (1u64 << 26u64) | (1u64 << 37u64) | (1u64 << 48u64)) == 0x0001002004008000u64
    ) by (bit_vector);
}

/// `is_win` is the disjunction of the 76 line tests.
proof fn lemma_is_win_unrolled(mask: u64)
    ensures
        is_win(mask) == (
        mask & line_mask(0) == line_mask(0)
            || mask & line_mask(1) == line_mask(1)
            || mask & line_mask(2) == line_mask(2)
            || mask & line_mask(3) == line_mask(3)
            || mask & line_mask(4) == line_mask(4)
            || mask & line_mask(5) == line_mask(5)
            || mask & line_mask(6) == line_mask(6)
            || mask & line_mask(7) == line_mask(7)
            || mask & line_mask(8) == line_mask(8)
            || mask & line_mask(9) == line_mask(9)
            || mask & line_mask(10) == line_mask(10)
            || mask & line_mask(11) == line_mask(11)
            || mask & line_mask(12) == line_mask(12)
            || mask & line_mask(13) == line_mask(13)
            || mask & line_mask(14) == line_mask(14)
            || mask & line_mask(15) == line_mask(15)
            || mask & line_mask(16) == line_mask(16)
            || mask & line_mask(17) == line_mask(17)
            || mask & line_mask(18) == line_mask(18)
            || mask & line_mask(19) == line_mask(19)
            || mask & line_mask(20) == line_mask(20)
            || mask & line_mask(21) == line_mask(21)
            || mask & line_mask(22) == line_mask(22)
            || mask & line_mask(23) == line_mask(23)
            || mask & line_mask(24) == line_mask(24)
            || mask & line_mask(25) == line_mask(25)
            || mask & line_mask(26) == line_mask(26)
            || mask & line_mask(27) == line_mask(27)
            || mask & line_mask(28) == line_mask(28)
            || mask & line_mask(29) == line_mask(29)
            || mask & line_mask(30) == line_mask(30)
            || mask & line_mask(31) == line_mask(31)
            || mask & line_mask(32) == line_mask(32)
            || mask & line_mask(33) == line_mask(33)
            || mask & line_mask(34) == line_mask(34)
            || mask & line_mask(35) == line_mask(35)
            || mask & line_mask(36) == line_mask(36)
            || mask & line_mask(37) == line_mask(37)
            || mask & line_mask(38) == line_mask(38)
            || mask & line_mask(39) == line_mask(39)
            || mask & line_mask(40) == line_mask(40)
            || mask & line_mask(41) == line_mask(41)
            || mask & line_mask(42) == line_mask(42)
            || mask & line_mask(43) == line_mask(43)
            || mask & line_mask(44) == line_mask(44)
            || mask & line_mask(45) == line_mask(45)
            || mask & line_mask(46) == line_mask(46)
            || mask & line_mask(47) == line_mask(47)
            || mask & line_mask(48) == line_mask(48)
            || mask & line_mask(49) == line_mask(49)
            || mask & line_mask(50) == line_mask(50)
            || mask & line_mask(51) == line_mask(51)
            || mask & line_mask(52) == line_mask(52)
            || mask & line_mask(53) == line_mask(53)
            || mask & line_mask(54) == line_mask(54)
            || mask & line_mask(55) == line_mask(55)
            || mask & line_mask(56) == line_mask(56)
            || mask & line_mask(57) == line_mask(57)
            || mask & line_mask(58) == line_mask(58)
            || mask & line_mask(59) == line_mask(59)
            || mask & line_mask(60) == line_mask(60)
            || mask & line_mask(61) == line_mask(61)
            || mask & line_mask(62) == line_mask(62)
            || mask & line_mask(63) == line_mask(63)
            || mask & line_mask(64) == line_mask(64)
            || mask & line_mask(65) == line_mask(65)
            || mask & line_mask(66) == line_mask(66)
            || mask & line_mask(67) == line_mask(67)
            || mask & line_mask(68) == line_mask(68)
            || mask & line_mask(69) == line_mask(69)
            || mask & line_mask(70) == line_mask(70)
            || mask & line_mask(71) == line_mask(71)
            || mask & line_mask(72) == line_mask(72)
            || mask & line_mask(73) == line_mask(73)
            || mask & line_mask(74) == line_mask(74)
            || mask & line_mask(75) == line_mask(75)
        ),
{
    if is_win(mask) {
        let k = choose|k: int| 0 <= k < NUM_LINES && #[trigger] (mask & line_mask(k)) == line_mask(k);
        assert(k == 0 || k == 1 || k == 2 || k == 3 || k == 4 || k == 5 || k == 6 || k == 7 || k == 8 || k == 9 || k == 10 || k == 11 || k == 12 || k == 13 || k == 14 || k == 15 || k == 16 || k == 17 || k == 18 || k == 19 || k == 20 || k == 21 || k == 22 || k == 23 || k == 24 || k == 25 || k == 26 || k == 27 || k == 28 || k == 29 || k == 30 || k == 31 || k == 32 || k == 33 || k == 34 || k == 35 || k == 36 || k == 37 || k == 38 || k == 39 || k == 40 || k == 41 || k == 42 || k == 43 || k == 44 || k == 45 || k == 46 || k == 47 || k == 48 || k == 49 || k == 50 || k == 51 || k == 52 || k == 53 || k == 54 || k == 55 || k == 56 || k == 57 || k == 58 || k == 59 || k == 60 || k == 61 || k == 62 || k == 63 || k == 64 || k == 65 || k == 66 || k == 67 || k == 68 || k == 69 || k == 70 || k == 71 || k == 72 || k == 73 || k == 74 || k == 75);
    }
}

/// Whether `mask` holds a complete winning line, tested layer by layer with shifts:
/// rows, columns and diagonals inside each layer, then pillars and the diagonals that
/// cross the layers.
pub fn check_win_optimized(mask: u64) -> (r: bool)
    ensures
        r == is_win(mask),
{
    let p0 = mask as u16;
    let p1 = (mask >> 16u64) as u16;
    let p2 = (mask >> 32u64) as u16;
    let p3 = (mask >> 48u64) as u16;
    proof {
        lemma_layer_tests(mask, p0, p1, p2, p3);
        lemma_line_literals();
        lemma_is_win_unrolled(mask);
    }
    if check_plane(p0) {
        return true;
    }
    if check_plane(p1) {
        return true;
    }
    if check_plane(p2) {
        return true;
    }
    if check_plane(p3) {
        return true;
    }
    if p0 & p1 & p2 & p3 != 0u16 {
        return true;
    }
    if p0 & (p1 >> 1u16) & (p2 >> 2u16) & (p3 >> 3u16) & 0x1111u16 != 0u16 {
        return true;
    }
    if p0 & (p1 << 1u16) & (p2 << 2u16) & (p3 << 3u16) & 0x8888u16 != 0u16 {
        return true;
    }
    if p0 & (p1 >> 4u16) & (p2 >> 8u16) & (p3 >> 12u16) & 0x000Fu16 != 0u16 {
        return true;
    }
    if p0 & (p1 << 4u16) & (p2 << 8u16) & (p3 << 12u16) & 0xF000u16 != 0u16 {
        return true;
    }
    if p0 & (p1 >> 5u16) & (p2 >> 10u16) & (p3 >> 15u16) & 0x0001u16 != 0u16 {
        return true;
    }
    if p0 & (p1 >> 3u16) & (p2 >> 6u16) & (p3 >> 9u16) & 0x0008u16 != 0u16 {
        return true;
    }
    if p0 & (p1 << 3u16) & (p2 << 6u16) & (p3 << 9u16) & 0x1000u16 != 0u16 {
        return true;
    }
    if p0 & (p1 << 5u16) & (p2 << 10u16) & (p3 << 15u16) & 0x8000u16 != 0u16 {
        return true;
    }
    false
}

} // verus!
