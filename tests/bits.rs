use chess_engine::as_064b;
use chess_engine::bits::{count_bits, index_to_bitboard, pop_1st_bit, transform};
use chess_engine::rays::{bishop_attacks, king_attack, knight_attack, pawn_attack, rook_attacks, rook_mask};

#[test]
fn pop_and_count_bits() {
    let mut b: u64 = 0b1011_0000;
    assert_eq!(pop_1st_bit(&mut b), 4);
    assert_eq!(b, 0b1010_0000);
    assert_eq!(count_bits(0), 0);
    assert_eq!(count_bits(u64::MAX), 64);
    assert_eq!(count_bits(0x8100_0000_0000_0081), 4);
}

#[test]
fn magic_transform_wraps() {
    assert_eq!(transform(1, 1u64 << 63, 1), 1);
    assert_eq!(transform(3, 0x8000_0000_0000_0001, 12), 0x800);
    assert_eq!(transform(0xFFFF_FFFF, 0xFFFF_FFFF_FFFF_FFFF, 9), (0xFFFF_FFFFu64.wrapping_mul(u64::MAX)) >> 55);
}

#[test]
fn subsets_of_a_mask() {
    let mask = 0b1010_0100u64;
    assert_eq!(index_to_bitboard(0, 3, mask), 0);
    assert_eq!(index_to_bitboard(1, 3, mask), 0b0000_0100);
    assert_eq!(index_to_bitboard(2, 3, mask), 0b0010_0000);
    assert_eq!(index_to_bitboard(7, 3, mask), mask);
    assert_eq!(index_to_bitboard(7, 2, mask), 0b0010_0100);
}

#[test]
fn leaper_and_slider_masks() {
    assert_eq!(knight_attack(0), (1u64 << 10) | (1u64 << 17));
    assert_eq!(king_attack(0), (1u64 << 1) | (1u64 << 8) | (1u64 << 9));
    assert_eq!(pawn_attack(true, 12), (1u64 << 19) | (1u64 << 21));
    assert_eq!(pawn_attack(false, 8), 1u64 << 1);
    assert_eq!(rook_attacks(0, 0), 0x0101_0101_0101_01FE);
    assert_eq!(rook_attacks(0, 1u64 << 16), (1u64 << 8) | (1u64 << 16) | 0xFE);
    assert_eq!(bishop_attacks(27, 0) & (1u64 << 0), 1);
    assert_eq!(rook_mask(0), 0x0001_0101_0101_017E);
}

#[test]
fn bit_string() {
    let s = as_064b(5);
    assert_eq!(s.len(), 64);
    assert_eq!(&s[61..], b"101");
    assert!(s[..61].iter().all(|&c| c == b'0'));
}
