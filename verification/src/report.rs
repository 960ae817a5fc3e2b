//! Boot-keyboard HID report synthesis.

use vstd::prelude::*;
use vstd::std_specs::cmp::PartialEqSpecImpl;

verus! {

/// Number of key slots in a report.
pub const KEY_SLOTS: usize = 6;

/// Usage code of the first modifier, Left Control.
pub const FIRST_MODIFIER: u8 = 0xE0;

/// Usage code of the last modifier, Right GUI.
pub const LAST_MODIFIER: u8 = 0xE7;

/// A keyboard report: the modifier bitmask and the key slots, unused slots
/// holding zero.
#[derive(Clone, Copy, Debug, Eq)]
pub struct HidReport {
    pub modifiers: u8,
    pub keys: [u8; 6],
}

impl PartialEq for HidReport {
    /// Two reports are equal when they agree byte for byte.
    fn eq(&self, other: &HidReport) -> (same: bool) {
        let mut same: bool = self.modifiers == other.modifiers;
        let mut i: usize = 0;
        while i < 6
            invariant
                i <= 6,
                same == (self.modifiers == other.modifiers && forall|j: int|
                    0 <= j < i ==> self.keys@[j] == other.keys@[j]),
            decreases 6 - i,
        {
            if self.keys[i] != other.keys[i] {
                same = false;
            }
            i += 1;
        }
        proof {
            if same {
                assert(self.keys@ =~= other.keys@);
            }
        }
        same
    }
}

impl PartialEqSpecImpl for HidReport {
    open spec fn obeys_eq_spec() -> bool {
        true
    }

    open spec fn eq_spec(&self, other: &HidReport) -> bool {
        self.modifiers == other.modifiers && self.keys@ == other.keys@
    }
}

/// Whether `code` is one of the eight modifier usages.
pub open spec fn is_modifier(code: u8) -> bool {
    FIRST_MODIFIER <= code <= LAST_MODIFIER
}

/// Whether `code` takes a key slot: it is neither the empty usage nor a modifier.
pub open spec fn is_regular(code: u8) -> bool {
    code != 0 && !is_modifier(code)
}

/// The bit that `code` sets in the modifier byte, zero for any other usage.
pub open spec fn modifier_bit(code: u8) -> u8 {
    if code == 0xE0 {
        0x01
    } else if code == 0xE1 {
        0x02
    } else if code == 0xE2 {
        0x04
    } else if code == 0xE3 {
        0x08
    } else if code == 0xE4 {
        0x10
    } else if code == 0xE5 {
        0x20
    } else if code == 0xE6 {
        0x40
    } else if code == 0xE7 {
        0x80
    } else {
        0
    }
}

/// The modifier byte of `codes`: the union of their modifier bits.
pub open spec fn modifier_mask(codes: Seq<u8>) -> u8
    decreases codes.len(),
{
    if codes.len() == 0 {
        0
    } else {
        modifier_mask(codes.drop_last()) | modifier_bit(codes.last())
    }
}

/// The regular usages of `codes`, in order of appearance.
pub open spec fn regular_keys(codes: Seq<u8>) -> Seq<u8>
    decreases codes.len(),
{
    if codes.len() == 0 {
        Seq::empty()
    } else if is_regular(codes.last()) {
        regular_keys(codes.drop_last()).push(codes.last())
    } else {
        regular_keys(codes.drop_last())
    }
}

/// The key slots of `codes`: the first six regular usages, then zeros.
pub open spec fn key_slots(codes: Seq<u8>) -> Seq<u8> {
    let regular = regular_keys(codes);
    Seq::new(
        KEY_SLOTS as nat,
        |i: int|
            if i < regular.len() {
                regular[i]
            } else {
                0u8
            },
    )
}

/// The report that `codes` call for.
pub open spec fn report_of(codes: Seq<u8>) -> HidReport {
    HidReport { modifiers: modifier_mask(codes), keys: slots_array(key_slots(codes)) }
}

/// The array that holds the six slots `slots`.
pub open spec fn slots_array(slots: Seq<u8>) -> [u8; 6] {
    [slots[0], slots[1], slots[2], slots[3], slots[4], slots[5]]
}

/// The modifier bit of one usage.
pub fn modifier_bit_of(code: u8) -> (bit: u8)
    ensures
        bit == modifier_bit(code),
{
    if code == 0xE0 {
        0x01
    } else if code == 0xE1 {
        0x02
    } else if code == 0xE2 {
        0x04
    } else if code == 0xE3 {
        0x08
    } else if code == 0xE4 {
        0x10
    } else if code == 0xE5 {
        0x20
    } else if code == 0xE6 {
        0x40
    } else if code == 0xE7 {
        0x80
    } else {
        0
    }
}

impl HidReport {
    /// The report of a keyboard with nothing held.
    pub fn empty() -> (r: HidReport)
        ensures
            r == report_of(Seq::empty()),
            r.modifiers == 0,
            r.keys@ == Seq::new(6, |i: int| 0u8),
    {
        let r = HidReport { modifiers: 0, keys: [0u8; 6] };
        proof {
            assert(r.keys@ =~= Seq::new(6, |i: int| 0u8));
            assert(r.keys@ =~= slots_array(key_slots(Seq::empty()))@);
            assert(r.keys == slots_array(key_slots(Seq::empty())));
        }
        r
    }

    /// Builds the report of the active key codes. Modifiers set their bit;
    /// regular keys fill the slots in order of appearance, and those that
    /// find every slot taken are dropped.
    pub fn build(codes: &Vec<u8>) -> (r: HidReport)
        ensures
            r == report_of(codes@),
            r.modifiers == modifier_mask(codes@),
            r.keys@ == key_slots(codes@),
    {
        let mut modifiers: u8 = 0;
        let mut keys: [u8; 6] = [0u8; 6];
        let mut used: usize = 0;
        let mut i: usize = 0;
        while i < codes.len()
            invariant
                i <= codes.len(),
                modifiers == modifier_mask(codes@.take(i as int)),
                used <= 6,
                used == if regular_keys(codes@.take(i as int)).len() < 6 {
                    regular_keys(codes@.take(i as int)).len()
                } else {
                    6
                },
                keys@ =~= key_slots(codes@.take(i as int)),
            decreases codes.len() - i,
        {
            let code: u8 = codes[i];
            proof {
                assert(codes@.take(i + 1).drop_last() =~= codes@.take(i as int));
                assert(codes@.take(i + 1).last() == code);
            }
            if FIRST_MODIFIER <= code && code <= LAST_MODIFIER {
                modifiers = modifiers | modifier_bit_of(code);
            } else if code != 0 {
                if used < KEY_SLOTS {
                    keys[used] = code;
                    used += 1;
                }
                proof {
                    assert(modifier_bit(code) == 0);
                    assert(modifiers | 0u8 == modifiers) by (bit_vector);
                }
            } else {
                proof {
                    assert(modifiers | 0u8 == modifiers) by (bit_vector);
                }
            }
            i += 1;
        }
        proof {
            assert(codes@.take(codes@.len() as int) =~= codes@);
        }
        let r = HidReport { modifiers, keys };
        proof {
            assert(slots_array(key_slots(codes@))@ =~= key_slots(codes@));
            assert(r.keys@ =~= slots_array(key_slots(codes@))@);
            assert(r.keys == slots_array(key_slots(codes@)));
        }
        r
    }

    /// The eight bytes that go over the wire: the modifier byte, a reserved
    /// zero, and the six slots.
    pub fn as_bytes(&self) -> (bytes: [u8; 8])
        ensures
            bytes@ == seq![self.modifiers, 0u8] + self.keys@,
    {
        let bytes: [u8; 8] = [
            self.modifiers,
            0,
            self.keys[0],
            self.keys[1],
            self.keys[2],
            self.keys[3],
            self.keys[4],
            self.keys[5],
        ];
        proof {
            assert(bytes@ =~= seq![self.modifiers, 0u8] + self.keys@);
        }
        bytes
    }
}


/// Two modifier bits overlap only when they are the same bit.
proof fn lemma_bits_overlap(x: u8, y: u8)
    requires
        x == 0 || x == 1 || x == 2 || x == 4 || x == 8 || x == 16 || x == 32 || x == 64 || x == 128,
        y == 1 || y == 2 || y == 4 || y == 8 || y == 16 || y == 32 || y == 64 || y == 128,
    ensures
        (x & y != 0) == (x == y),
{
    assert((x & y != 0) == (x == y)) by (bit_vector)
        requires
            x == 0 || x == 1 || x == 2 || x == 4 || x == 8 || x == 16 || x == 32 || x == 64 || x
                == 128,
            y == 1 || y == 2 || y == 4 || y == 8 || y == 16 || y == 32 || y == 64 || y == 128,
    ;
}

/// The bit of a modifier is set in the modifier byte exactly when that
/// modifier is among the codes.
pub proof fn lemma_modifier_bit_is_set(codes: Seq<u8>, modifier: u8)
    requires
        is_modifier(modifier),
    ensures
        (modifier_mask(codes) & modifier_bit(modifier) != 0) == codes.contains(modifier),
    decreases codes.len(),
{
    let bit = modifier_bit(modifier);
    if codes.len() == 0 {
        assert(0u8 & bit == 0) by (bit_vector);
    } else {
        let init = codes.drop_last();
        let last = codes.last();
        let before = modifier_mask(init);
        let add = modifier_bit(last);
        lemma_modifier_bit_is_set(init, modifier);
        lemma_bits_overlap(add, bit);
        assert(((before | add) & bit != 0) == ((before & bit != 0) || (add & bit != 0)))
            by (bit_vector);
        if init.contains(modifier) {
            let i = choose|i: int| 0 <= i < init.len() && init[i] == modifier;
            assert(codes[i] == modifier);
        }
        if last == modifier {
            assert(codes[codes.len() - 1] == modifier);
        }
        if codes.contains(modifier) {
            let i = choose|i: int| 0 <= i < codes.len() && codes[i] == modifier;
            if i < codes.len() - 1 {
                assert(init[i] == modifier);
            }
        }
    }
}

/// A regular key sits in a slot exactly when it is among the first six
/// regular keys; with six or fewer regular keys, none is dropped.
pub proof fn lemma_slots_hold_first_six(codes: Seq<u8>, i: int)
    requires
        0 <= i < regular_keys(codes).len(),
    ensures
        is_regular(regular_keys(codes)[i]),
        codes.contains(regular_keys(codes)[i]),
        i < 6 ==> key_slots(codes)[i] == regular_keys(codes)[i],
        forall|j: int| regular_keys(codes).len() <= j < 6 ==> key_slots(codes)[j] == 0,
    decreases codes.len(),
{
    if codes.len() > 0 {
        let init = codes.drop_last();
        if i < regular_keys(init).len() {
            lemma_slots_hold_first_six(init, i);
            let code = regular_keys(init)[i];
            let k = choose|k: int| 0 <= k < init.len() && init[k] == code;
            assert(codes[k] == code);
        } else {
            assert(codes[codes.len() - 1] == codes.last());
        }
    }
}

} // verus!
