//! The closed set of keys on the machine, their bit positions inside a
//! stroke mask, their canonical characters, and the four zones that govern
//! the canonical text order.

use vstd::prelude::*;

verus! {

/// One physical key. The `Left`/`Right` prefixes disambiguate letters that
/// exist on both sides of the board; the `Control` keys are the prefix keys
/// written before the letter zones.
#[derive(Clone, Copy, Debug, PartialEq, Eq, Structural)]
pub enum Key {
    ControlNum,
    ControlLeft,
    ControlRight,

    LeftS,
    LeftT,
    LeftK,
    LeftP,
    LeftW,
    LeftH,
    LeftR,

    MiddleA,
    MiddleO,
    MiddleStar,
    MiddleE,
    MiddleU,

    RightF,
    RightR,
    RightP,
    RightB,
    RightL,
    RightG,
    RightT,
    RightS,
    RightD,
    RightZ,
}

/// Bit position of a key inside a stroke mask, in canonical zone order.
pub open spec fn spec_key_bit(k: Key) -> u32 {
    match k {
        Key::ControlNum => 0,
        Key::ControlLeft => 1,
        Key::ControlRight => 2,
        Key::LeftS => 3,
        Key::LeftT => 4,
        Key::LeftK => 5,
        Key::LeftP => 6,
        Key::LeftW => 7,
        Key::LeftH => 8,
        Key::LeftR => 9,
        Key::MiddleA => 10,
        Key::MiddleO => 11,
        Key::MiddleStar => 12,
        Key::MiddleE => 13,
        Key::MiddleU => 14,
        Key::RightF => 15,
        Key::RightR => 16,
        Key::RightP => 17,
        Key::RightB => 18,
        Key::RightL => 19,
        Key::RightG => 20,
        Key::RightT => 21,
        Key::RightS => 22,
        Key::RightD => 23,
        Key::RightZ => 24,
    }
}

#[verifier::when_used_as_spec(spec_key_bit)]
pub(crate) fn key_bit(k: Key) -> (r: u32)
    ensures
        r == spec_key_bit(k),
{
    match k {
        Key::ControlNum => 0,
        Key::ControlLeft => 1,
        Key::ControlRight => 2,
        Key::LeftS => 3,
        Key::LeftT => 4,
        Key::LeftK => 5,
        Key::LeftP => 6,
        Key::LeftW => 7,
        Key::LeftH => 8,
        Key::LeftR => 9,
        Key::MiddleA => 10,
        Key::MiddleO => 11,
        Key::MiddleStar => 12,
        Key::MiddleE => 13,
        Key::MiddleU => 14,
        Key::RightF => 15,
        Key::RightR => 16,
        Key::RightP => 17,
        Key::RightB => 18,
        Key::RightL => 19,
        Key::RightG => 20,
        Key::RightT => 21,
        Key::RightS => 22,
        Key::RightD => 23,
        Key::RightZ => 24,
    }
}

/// The single-bit mask of one key.
pub open spec fn key_mask(k: Key) -> u32 {
    1u32 << spec_key_bit(k)
}

/// The key whose bit position is `i`, if any: the inverse of `spec_key_bit`.
pub open spec fn bit_key(i: u32) -> Option<Key> {
    if i == 0 {
        Some(Key::ControlNum)
    } else if i == 1 {
        Some(Key::ControlLeft)
    } else if i == 2 {
        Some(Key::ControlRight)
    } else if i == 3 {
        Some(Key::LeftS)
    } else if i == 4 {
        Some(Key::LeftT)
    } else if i == 5 {
        Some(Key::LeftK)
    } else if i == 6 {
        Some(Key::LeftP)
    } else if i == 7 {
        Some(Key::LeftW)
    } else if i == 8 {
        Some(Key::LeftH)
    } else if i == 9 {
        Some(Key::LeftR)
    } else if i == 10 {
        Some(Key::MiddleA)
    } else if i == 11 {
        Some(Key::MiddleO)
    } else if i == 12 {
        Some(Key::MiddleStar)
    } else if i == 13 {
        Some(Key::MiddleE)
    } else if i == 14 {
        Some(Key::MiddleU)
    } else if i == 15 {
        Some(Key::RightF)
    } else if i == 16 {
        Some(Key::RightR)
    } else if i == 17 {
        Some(Key::RightP)
    } else if i == 18 {
        Some(Key::RightB)
    } else if i == 19 {
        Some(Key::RightL)
    } else if i == 20 {
        Some(Key::RightG)
    } else if i == 21 {
        Some(Key::RightT)
    } else if i == 22 {
        Some(Key::RightS)
    } else if i == 23 {
        Some(Key::RightD)
    } else if i == 24 {
        Some(Key::RightZ)
    } else {
        None
    }
}

/// Every key's bit position is in range and `bit_key` inverts `spec_key_bit`,
/// so distinct keys occupy distinct bits.
pub proof fn lemma_key_bits_distinct()
    ensures
        forall|k: Key| #[trigger] spec_key_bit(k) < 25,
        forall|k: Key| bit_key(#[trigger] spec_key_bit(k)) == Some(k),
        forall|k1: Key, k2: Key|
            #[trigger] spec_key_bit(k1) == #[trigger] spec_key_bit(k2) ==> k1 == k2,
{
    assert forall|k: Key| bit_key(#[trigger] spec_key_bit(k)) == Some(k) by {
        match k {
            Key::ControlNum => {},
            Key::ControlLeft => {},
            Key::ControlRight => {},
            Key::LeftS => {},
            Key::LeftT => {},
            Key::LeftK => {},
            Key::LeftP => {},
            Key::LeftW => {},
            Key::LeftH => {},
            Key::LeftR => {},
            Key::MiddleA => {},
            Key::MiddleO => {},
            Key::MiddleStar => {},
            Key::MiddleE => {},
            Key::MiddleU => {},
            Key::RightF => {},
            Key::RightR => {},
            Key::RightP => {},
            Key::RightB => {},
            Key::RightL => {},
            Key::RightG => {},
            Key::RightT => {},
            Key::RightS => {},
            Key::RightD => {},
            Key::RightZ => {},
        }
    }
}

/// The canonical character of a key in stroke text.
pub open spec fn key_char(k: Key) -> char {
    match k {
        Key::ControlNum => '#',
        Key::ControlLeft => '^',
        Key::ControlRight => '+',
        Key::LeftS => 'S',
        Key::LeftT => 'T',
        Key::LeftK => 'K',
        Key::LeftP => 'P',
        Key::LeftW => 'W',
        Key::LeftH => 'H',
        Key::LeftR => 'R',
        Key::MiddleA => 'A',
        Key::MiddleO => 'O',
        Key::MiddleStar => '*',
        Key::MiddleE => 'E',
        Key::MiddleU => 'U',
        Key::RightF => 'F',
        Key::RightR => 'R',
        Key::RightP => 'P',
        Key::RightB => 'B',
        Key::RightL => 'L',
        Key::RightG => 'G',
        Key::RightT => 'T',
        Key::RightS => 'S',
        Key::RightD => 'D',
        Key::RightZ => 'Z',
    }
}

#[verifier::when_used_as_spec(key_char)]
pub(crate) fn key_char_exec(k: Key) -> (c: char)
    ensures
        c == key_char(k),
{
    match k {
        Key::ControlNum => '#',
        Key::ControlLeft => '^',
        Key::ControlRight => '+',
        Key::LeftS => 'S',
        Key::LeftT => 'T',
        Key::LeftK => 'K',
        Key::LeftP => 'P',
        Key::LeftW => 'W',
        Key::LeftH => 'H',
        Key::LeftR => 'R',
        Key::MiddleA => 'A',
        Key::MiddleO => 'O',
        Key::MiddleStar => '*',
        Key::MiddleE => 'E',
        Key::MiddleU => 'U',
        Key::RightF => 'F',
        Key::RightR => 'R',
        Key::RightP => 'P',
        Key::RightB => 'B',
        Key::RightL => 'L',
        Key::RightG => 'G',
        Key::RightT => 'T',
        Key::RightS => 'S',
        Key::RightD => 'D',
        Key::RightZ => 'Z',
    }
}

/// The control key written as `c`, if any.
pub open spec fn spec_control_key(c: char) -> Option<Key> {
    if c == '#' {
        Some(Key::ControlNum)
    } else if c == '^' {
        Some(Key::ControlLeft)
    } else if c == '+' {
        Some(Key::ControlRight)
    } else {
        None
    }
}

/// The left-bank key written as `c`, if any.
pub open spec fn spec_left_key(c: char) -> Option<Key> {
    if c == 'S' {
        Some(Key::LeftS)
    } else if c == 'T' {
        Some(Key::LeftT)
    } else if c == 'K' {
        Some(Key::LeftK)
    } else if c == 'P' {
        Some(Key::LeftP)
    } else if c == 'W' {
        Some(Key::LeftW)
    } else if c == 'H' {
        Some(Key::LeftH)
    } else if c == 'R' {
        Some(Key::LeftR)
    } else {
        None
    }
}

/// The middle (vowel) key written as `c`, if any. The `-` separator is not a
/// key and is handled by the middle-zone scanner itself.
pub open spec fn spec_middle_key(c: char) -> Option<Key> {
    if c == 'A' {
        Some(Key::MiddleA)
    } else if c == 'O' {
        Some(Key::MiddleO)
    } else if c == '*' {
        Some(Key::MiddleStar)
    } else if c == 'E' {
        Some(Key::MiddleE)
    } else if c == 'U' {
        Some(Key::MiddleU)
    } else {
        None
    }
}

/// The right-bank key written as `c`, if any.
pub open spec fn spec_right_key(c: char) -> Option<Key> {
    if c == 'F' {
        Some(Key::RightF)
    } else if c == 'R' {
        Some(Key::RightR)
    } else if c == 'P' {
        Some(Key::RightP)
    } else if c == 'B' {
        Some(Key::RightB)
    } else if c == 'L' {
        Some(Key::RightL)
    } else if c == 'G' {
        Some(Key::RightG)
    } else if c == 'T' {
        Some(Key::RightT)
    } else if c == 'S' {
        Some(Key::RightS)
    } else if c == 'D' {
        Some(Key::RightD)
    } else if c == 'Z' {
        Some(Key::RightZ)
    } else {
        None
    }
}

#[verifier::when_used_as_spec(spec_control_key)]
pub(crate) fn control_key(c: char) -> (r: Option<Key>)
    ensures
        r == spec_control_key(c),
{
    match c {
        '#' => Some(Key::ControlNum),
        '^' => Some(Key::ControlLeft),
        '+' => Some(Key::ControlRight),
        _ => None,
    }
}

#[verifier::when_used_as_spec(spec_left_key)]
pub(crate) fn left_key(c: char) -> (r: Option<Key>)
    ensures
        r == spec_left_key(c),
{
    match c {
        'S' => Some(Key::LeftS),
        'T' => Some(Key::LeftT),
        'K' => Some(Key::LeftK),
        'P' => Some(Key::LeftP),
        'W' => Some(Key::LeftW),
        'H' => Some(Key::LeftH),
        'R' => Some(Key::LeftR),
        _ => None,
    }
}

#[verifier::when_used_as_spec(spec_middle_key)]
pub(crate) fn middle_key(c: char) -> (r: Option<Key>)
    ensures
        r == spec_middle_key(c),
{
    match c {
        'A' => Some(Key::MiddleA),
        'O' => Some(Key::MiddleO),
        '*' => Some(Key::MiddleStar),
        'E' => Some(Key::MiddleE),
        'U' => Some(Key::MiddleU),
        _ => None,
    }
}

#[verifier::when_used_as_spec(spec_right_key)]
pub(crate) fn right_key(c: char) -> (r: Option<Key>)
    ensures
        r == spec_right_key(c),
{
    match c {
        'F' => Some(Key::RightF),
        'R' => Some(Key::RightR),
        'P' => Some(Key::RightP),
        'B' => Some(Key::RightB),
        'L' => Some(Key::RightL),
        'G' => Some(Key::RightG),
        'T' => Some(Key::RightT),
        'S' => Some(Key::RightS),
        'D' => Some(Key::RightD),
        'Z' => Some(Key::RightZ),
        _ => None,
    }
}

} // verus!
