use rust_life::bits::{cleared, lower_all, read_bit, write_bit};

#[test]
fn cleared_field_has_a_word_for_every_sixty_four_flags() {
    assert_eq!(cleared(0).len(), 0);
    assert_eq!(cleared(1).len(), 1);
    assert_eq!(cleared(64).len(), 1);
    assert_eq!(cleared(65).len(), 2);
    assert_eq!(cleared(128), vec![0u64, 0u64]);
}

#[test]
fn write_bit_raises_one_flag() {
    let mut words = cleared(130);
    write_bit(&mut words, 0, true);
    write_bit(&mut words, 63, true);
    write_bit(&mut words, 64, true);
    write_bit(&mut words, 129, true);
    assert_eq!(words, vec![0x8000_0000_0000_0001u64, 1u64, 2u64]);
    for i in 0..192 {
        assert_eq!(read_bit(&words, i), i == 0 || i == 63 || i == 64 || i == 129);
    }
}

#[test]
fn write_bit_lowers_one_flag() {
    let mut words = vec![u64::MAX, u64::MAX];
    write_bit(&mut words, 5, false);
    write_bit(&mut words, 127, false);
    write_bit(&mut words, 5, false);
    assert_eq!(words, vec![u64::MAX - 32, u64::MAX >> 1]);
    for i in 0..128 {
        assert_eq!(read_bit(&words, i), i != 5 && i != 127);
    }
    write_bit(&mut words, 5, true);
    assert_eq!(words[0], u64::MAX);
}

#[test]
fn lower_all_clears_the_field() {
    let mut words = vec![u64::MAX, 7u64, 1u64 << 40];
    lower_all(&mut words);
    assert_eq!(words, vec![0u64, 0u64, 0u64]);
}
