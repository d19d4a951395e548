//! Field codec behaviour: masking, packing and byte emission.

use nma::codec::emit_word;
use nma::codec::mask_u32;
use nma::codec::mask_u8;
use nma::codec::pack_i;
use nma::codec::pack_j;
use nma::codec::pack_r;
use nma::errors::AsmError;

#[test]
fn mask_accepts_values_in_range() {
    assert_eq!(mask_u8(31, 5), Ok(31));
    assert_eq!(mask_u8(0, 5), Ok(0));
    assert_eq!(mask_u8(63, 6), Ok(63));
    assert_eq!(mask_u32(0x0FFF_FFFF, 28), Ok(0x0FFF_FFFF));
}

#[test]
fn mask_rejects_values_out_of_range() {
    assert_eq!(mask_u8(32, 5), Err(AsmError::Overflow));
    assert_eq!(mask_u8(64, 6), Err(AsmError::Overflow));
    assert_eq!(mask_u32(0x1000_0000, 28), Err(AsmError::Overflow));
    assert_eq!(mask_u32(u32::MAX, 5), Err(AsmError::Overflow));
}

#[test]
fn mask_is_idempotent_on_samples() {
    for v in [0u32, 1, 31, 32, 100, u32::MAX] {
        if let Ok(m) = mask_u32(v, 5) {
            assert_eq!(mask_u32(m, 5), mask_u32(v, 5));
        }
    }
}

#[test]
fn pack_r_lays_fields_out_exactly() {
    // add $t0, $zero, $zero: rs=0 rt=0 rd=8 shamt=0 funct=0x20.
    assert_eq!(pack_r(0, 0, 8, 0, 0x20), 0x0000_4020);
    // Every field at once.
    assert_eq!(pack_r(1, 2, 3, 4, 5), (1 << 21) | (2 << 16) | (3 << 11) | (4 << 6) | 5);
}

#[test]
fn pack_i_lays_fields_out_exactly() {
    // ori $t1, $zero, 0xff.
    assert_eq!(pack_i(0xd, 0, 9, 0xff), 0x3409_00FF);
    // lui $t0, 0x1234.
    assert_eq!(pack_i(0xf, 0, 8, 0x1234), 0x3C08_1234);
}

#[test]
fn pack_j_lays_fields_out_exactly() {
    assert_eq!(pack_j(0x2, 0x0010_0000), (0x2 << 26) | 0x0010_0000);
}

#[test]
fn emit_word_is_little_endian() {
    assert_eq!(emit_word(0x1234_5678), vec![0x78, 0x56, 0x34, 0x12]);
    assert_eq!(emit_word(0), vec![0, 0, 0, 0]);
}

#[test]
fn encode_then_decode_recovers_fields() {
    // Round trip through the shared bit layout, for samples of each format.
    let w = pack_r(3, 7, 21, 9, 0x22);
    assert_eq!((w >> 26) & 0x3f, 0);
    assert_eq!((w >> 21) & 0x1f, 3);
    assert_eq!((w >> 16) & 0x1f, 7);
    assert_eq!((w >> 11) & 0x1f, 21);
    assert_eq!((w >> 6) & 0x1f, 9);
    assert_eq!(w & 0x3f, 0x22);

    let w = pack_i(0x23, 9, 8, 0xBEEF);
    assert_eq!((w >> 26) & 0x3f, 0x23);
    assert_eq!((w >> 21) & 0x1f, 9);
    assert_eq!((w >> 16) & 0x1f, 8);
    assert_eq!(w & 0xffff, 0xBEEF);

    let w = pack_j(0x3, 0x3FF_FFFF);
    assert_eq!((w >> 26) & 0x3f, 0x3);
    assert_eq!(w & 0x3FF_FFFF, 0x3FF_FFFF);
}
