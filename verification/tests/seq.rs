//! Sequence numbers.

use aggligator::seq::SeqNum;

#[test]
fn sequence_numbers_are_ordered() {
    assert!(SeqNum(0) < SeqNum(1));
    assert!(SeqNum(1) > SeqNum(0));
    assert!(SeqNum(5) <= SeqNum(5));
    assert!(SeqNum(0x3fff_ffff) < SeqNum(0x4000_0000));
}

#[test]
fn order_continues_after_wrap_around() {
    assert!(SeqNum(0xffff_ffff) < SeqNum(0));
    assert!(SeqNum(0xffff_fff0) < SeqNum(10));
    assert!(SeqNum(10) > SeqNum(0xffff_fff0));
    assert!(SeqNum(0xbfff_fffd) < SeqNum(0x3fff_fffe));
    assert!(SeqNum(0xbfff_fffc) > SeqNum(0x3fff_fffe));
}

#[test]
fn steps_wrap_around() {
    assert_eq!(SeqNum(0xffff_ffff) + 1u32, SeqNum(0));
    assert_eq!(SeqNum(3) + -5i32, SeqNum(0xffff_fffe));
    assert_eq!(SeqNum(0) - 1u32, SeqNum(0xffff_ffff));
    assert_eq!(SeqNum(0) - -2i32, SeqNum(2));
    assert_eq!(SeqNum(7) - 9usize, SeqNum(0xffff_fffe));
    assert_eq!(SeqNum::zero(), SeqNum(0));
    assert_eq!(SeqNum::minus_one(), SeqNum(0xffff_ffff));
}

#[test]
fn distance_is_signed() {
    assert_eq!(SeqNum(5) - SeqNum(3), 2);
    assert_eq!(SeqNum(3) - SeqNum(5), -2);
    assert_eq!(SeqNum(1) - SeqNum(0xffff_ffff), 2);
    assert_eq!(SeqNum(0xffff_ffff) - SeqNum(1), -2);
    assert_eq!(SeqNum(2).steps_from(SeqNum(0xffff_ffff)), 3);
}

#[test]
fn numbers_convert() {
    assert_eq!(u32::from(SeqNum::from(77u32)), 77);
    assert_eq!(SeqNum::USABLE_INTERVAL, 0x3fff_ffff);
}
