use kratos::util::bit_manipulation::{get_bit, get_bits, set_bit, set_bits};

#[test]
fn test_bit_manipulation() {
    assert_eq!(get_bits(0b111001, 2, 4), 14);
    assert_eq!(get_bit(0b111001, 1), 0);
    let mut input = 0b11001;
    set_bits(&mut input, 1, 3, 0b010);
    assert_eq!(input, 0b10101);
    set_bit(&mut input, 3, true);
    assert_eq!(input, 0b11101);
    set_bit(&mut input, 0, false);
    assert_eq!(input, 0b11100);
}

#[test]
fn get_bits_at_the_edges_of_the_word() {
    let word = 0x8000_0000_0000_0001u64;
    assert_eq!(get_bit(word, 0), 1);
    assert_eq!(get_bit(word, 63), 1);
    assert_eq!(get_bit(word, 62), 0);
    assert_eq!(get_bits(word, 60, 4), 0b1000);
    assert_eq!(get_bits(word, 0, 63), 1);
    assert_eq!(get_bits(u64::MAX, 1, 63), u64::MAX >> 1);
    assert_eq!(get_bits(u64::MAX, 17, 0), 0);
    assert_eq!(get_bit(0, 5), 0);
}

#[test]
fn set_bits_replaces_the_field_only() {
    let mut word = u64::MAX;
    set_bits(&mut word, 8, 8, 0);
    assert_eq!(word, 0xFFFF_FFFF_FFFF_00FF);
    set_bits(&mut word, 8, 8, 0x1A5);
    assert_eq!(word, 0xFFFF_FFFF_FFFF_A5FF);
    assert_eq!(get_bits(word, 8, 8), 0xA5);
    let mut zero = 0u64;
    set_bits(&mut zero, 60, 8, 0xFF);
    assert_eq!(zero, 0xF000_0000_0000_0000);
    let mut same = 0x1234u64;
    set_bits(&mut same, 4, 0, 0xF);
    assert_eq!(same, 0x1234);
}

#[test]
fn set_bit_on_zero() {
    let mut word = 0u64;
    set_bit(&mut word, 47, true);
    assert_eq!(word, 1 << 47);
    set_bit(&mut word, 47, false);
    assert_eq!(word, 0);
}

#[test]
fn test_clear_bit() {
    let mut input = 0xffu64;
    set_bit(&mut input, 4, false);
    assert_eq!(input, 0xef);
}

#[test]
fn test_set_bit() {
    let mut input = 0x00u64;
    set_bit(&mut input, 3, true);
    assert_eq!(input, 0x8);
}
