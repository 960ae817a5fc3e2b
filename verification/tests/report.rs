use split_keyboard::report::{modifier_bit_of, HidReport};

const A: u8 = 0x04;
const G: u8 = 0x0A;
const LCTRL: u8 = 0xE0;
const LSHIFT: u8 = 0xE1;
const RGUI: u8 = 0xE7;

#[test]
fn seventh_key_is_dropped() {
    let codes = vec![LSHIFT, A, A + 1, A + 2, A + 3, A + 4, A + 5, G];
    let r = HidReport::build(&codes);
    assert_eq!(r.modifiers, 0x02);
    assert_eq!(r.keys, [0x04, 0x05, 0x06, 0x07, 0x08, 0x09]);
    assert!(!r.keys.contains(&G));
}

#[test]
fn empty_set_gives_empty_report() {
    let r = HidReport::build(&vec![]);
    assert_eq!(r, HidReport::empty());
    assert_eq!(r.modifiers, 0);
    assert_eq!(r.keys, [0; 6]);
    assert_eq!(r.as_bytes(), [0; 8]);
}

#[test]
fn keys_fill_slots_in_order_of_appearance() {
    let r = HidReport::build(&vec![0x1C, LCTRL, 0x04, RGUI, 0x2C]);
    assert_eq!(r.modifiers, 0x81);
    assert_eq!(r.keys, [0x1C, 0x04, 0x2C, 0, 0, 0]);
    assert_eq!(r.as_bytes(), [0x81, 0, 0x1C, 0x04, 0x2C, 0, 0, 0]);
}

#[test]
fn empty_usage_takes_no_slot() {
    let r = HidReport::build(&vec![0, 0x05, 0, 0x06]);
    assert_eq!(r.modifiers, 0);
    assert_eq!(r.keys, [0x05, 0x06, 0, 0, 0, 0]);
}

#[test]
fn every_modifier_has_its_bit() {
    let mut bit: u8 = 1;
    for code in 0xE0..=0xE7u8 {
        assert_eq!(modifier_bit_of(code), bit);
        assert_eq!(HidReport::build(&vec![code]).modifiers, bit);
        bit = bit.wrapping_shl(1);
    }
    assert_eq!(modifier_bit_of(0xDF), 0);
    assert_eq!(modifier_bit_of(0xE8), 0);
    let all: Vec<u8> = (0xE0..=0xE7u8).collect();
    let r = HidReport::build(&all);
    assert_eq!(r.modifiers, 0xFF);
    assert_eq!(r.keys, [0; 6]);
}

#[test]
fn modifiers_after_a_full_report_still_count() {
    let codes = vec![4, 5, 6, 7, 8, 9, 10, 11, LSHIFT];
    let r = HidReport::build(&codes);
    assert_eq!(r.modifiers, 0x02);
    assert_eq!(r.keys, [4, 5, 6, 7, 8, 9]);
}

#[test]
fn reports_compare_byte_for_byte() {
    let a = HidReport::build(&vec![4, 5]);
    let b = HidReport::build(&vec![4, 5]);
    let c = HidReport::build(&vec![5, 4]);
    let d = HidReport::build(&vec![4, 5, LSHIFT]);
    assert!(a == b);
    assert!(a != c);
    assert!(a != d);
}
