//! The round-trip law of the stroke grammar: formatting a chord and parsing
//! the text again gives the chord back, so canonical stroke text is kept
//! unchanged by a parse followed by a format.

use vstd::prelude::*;

use crate::keys::{
    key_char, key_mask, lemma_key_bits_distinct, spec_control_key, spec_key_bit, spec_left_key,
    spec_middle_key, Key,
};
use crate::stroke::{
    control_list, emit_keys, format_mask, has_any, left_list, lemma_or_basics, lemma_shift_facts,
    lemma_shift_member, middle_list, parse_accepts, parse_mask, parse_zones, right_list, scan_zone,
    spec_zone_key, Stroke, Zone,
};

verus! {

/// The zone a key belongs to.
pub open spec fn key_zone(k: Key) -> Zone {
    match k {
        Key::ControlNum => Zone::Control,
        Key::ControlLeft => Zone::Control,
        Key::ControlRight => Zone::Control,
        Key::LeftS => Zone::Left,
        Key::LeftT => Zone::Left,
        Key::LeftK => Zone::Left,
        Key::LeftP => Zone::Left,
        Key::LeftW => Zone::Left,
        Key::LeftH => Zone::Left,
        Key::LeftR => Zone::Left,
        Key::MiddleA => Zone::Middle,
        Key::MiddleO => Zone::Middle,
        Key::MiddleStar => Zone::Middle,
        Key::MiddleE => Zone::Middle,
        Key::MiddleU => Zone::Middle,
        Key::RightF => Zone::Right,
        Key::RightR => Zone::Right,
        Key::RightP => Zone::Right,
        Key::RightB => Zone::Right,
        Key::RightL => Zone::Right,
        Key::RightG => Zone::Right,
        Key::RightT => Zone::Right,
        Key::RightS => Zone::Right,
        Key::RightD => Zone::Right,
        Key::RightZ => Zone::Right,
    }
}

/// The keys of one zone in canonical order.
pub open spec fn zone_list(z: Zone) -> Seq<Key> {
    match z {
        Zone::Control => control_list(),
        Zone::Left => left_list(),
        Zone::Middle => middle_list(),
        Zone::Right => right_list(),
    }
}

/// The bits of the keys of `keys` that are bound in `m`.
spec fn mask_of(m: u32, keys: Seq<Key>) -> u32
    decreases keys.len(),
{
    if keys.len() == 0 {
        0u32
    } else {
        (if m & key_mask(keys[0]) != 0 {
            key_mask(keys[0])
        } else {
            0u32
        }) | mask_of(m, keys.drop_first())
    }
}

/// Facts about one key: its character maps back to it in its own zone, its
/// zone's list holds it, its character is claimed by no earlier zone's
/// scanner, and it is never the bare separator.
proof fn lemma_key_facts(k: Key)
    ensures
        spec_key_bit(k) < 25,
        key_char(k) != '-',
        spec_zone_key(key_zone(k), key_char(k)) == Some(k),
        zone_list(key_zone(k)).contains(k),
        key_zone(k) != Zone::Control ==> spec_control_key(key_char(k)) == None::<Key>,
        key_zone(k) == Zone::Middle ==> spec_left_key(key_char(k)) == None::<Key>,
        key_zone(k) == Zone::Right ==> spec_middle_key(key_char(k)) == None::<Key>,
{
    match k {
        Key::ControlNum => {
            assert(control_list()[0] == k);
        },
        Key::ControlLeft => {
            assert(control_list()[1] == k);
        },
        Key::ControlRight => {
            assert(control_list()[2] == k);
        },
        Key::LeftS => {
            assert(left_list()[0] == k);
        },
        Key::LeftT => {
            assert(left_list()[1] == k);
        },
        Key::LeftK => {
            assert(left_list()[2] == k);
        },
        Key::LeftP => {
            assert(left_list()[3] == k);
        },
        Key::LeftW => {
            assert(left_list()[4] == k);
        },
        Key::LeftH => {
            assert(left_list()[5] == k);
        },
        Key::LeftR => {
            assert(left_list()[6] == k);
        },
        Key::MiddleA => {
            assert(middle_list()[0] == k);
        },
        Key::MiddleO => {
            assert(middle_list()[1] == k);
        },
        Key::MiddleStar => {
            assert(middle_list()[2] == k);
        },
        Key::MiddleE => {
            assert(middle_list()[3] == k);
        },
        Key::MiddleU => {
            assert(middle_list()[4] == k);
        },
        Key::RightF => {
            assert(right_list()[0] == k);
        },
        Key::RightR => {
            assert(right_list()[1] == k);
        },
        Key::RightP => {
            assert(right_list()[2] == k);
        },
        Key::RightB => {
            assert(right_list()[3] == k);
        },
        Key::RightL => {
            assert(right_list()[4] == k);
        },
        Key::RightG => {
            assert(right_list()[5] == k);
        },
        Key::RightT => {
            assert(right_list()[6] == k);
        },
        Key::RightS => {
            assert(right_list()[7] == k);
        },
        Key::RightD => {
            assert(right_list()[8] == k);
        },
        Key::RightZ => {
            assert(right_list()[9] == k);
        },
    }
}

/// Every key of a zone's list is recognized by that zone's scanner, and
/// belongs to that zone.
proof fn lemma_zone_consistent(z: Zone)
    ensures
        forall|j: int|
            0 <= j < zone_list(z).len() ==> spec_zone_key(z, key_char(#[trigger] zone_list(z)[j]))
                == Some(zone_list(z)[j]),
        forall|j: int| 0 <= j < zone_list(z).len() ==> key_zone(#[trigger] zone_list(z)[j]) == z,
{
    assert forall|j: int| 0 <= j < zone_list(z).len() implies spec_zone_key(
        z,
        key_char(#[trigger] zone_list(z)[j]),
    ) == Some(zone_list(z)[j]) && key_zone(zone_list(z)[j]) == z by {
        let k = zone_list(z)[j];
        lemma_key_facts(k);
        match z {
            Zone::Control => {
                if j == 0 {
                    assert(k == Key::ControlNum);
                } else if j == 1 {
                    assert(k == Key::ControlLeft);
                } else {
                    assert(k == Key::ControlRight);
                }
            },
            Zone::Left => {
                if j == 0 {
                    assert(k == Key::LeftS);
                } else if j == 1 {
                    assert(k == Key::LeftT);
                } else if j == 2 {
                    assert(k == Key::LeftK);
                } else if j == 3 {
                    assert(k == Key::LeftP);
                } else if j == 4 {
                    assert(k == Key::LeftW);
                } else if j == 5 {
                    assert(k == Key::LeftH);
                } else {
                    assert(k == Key::LeftR);
                }
            },
            Zone::Middle => {
                if j == 0 {
                    assert(k == Key::MiddleA);
                } else if j == 1 {
                    assert(k == Key::MiddleO);
                } else if j == 2 {
                    assert(k == Key::MiddleStar);
                } else if j == 3 {
                    assert(k == Key::MiddleE);
                } else {
                    assert(k == Key::MiddleU);
                }
            },
            Zone::Right => {
                if j == 0 {
                    assert(k == Key::RightF);
                } else if j == 1 {
                    assert(k == Key::RightR);
                } else if j == 2 {
                    assert(k == Key::RightP);
                } else if j == 3 {
                    assert(k == Key::RightB);
                } else if j == 4 {
                    assert(k == Key::RightL);
                } else if j == 5 {
                    assert(k == Key::RightG);
                } else if j == 6 {
                    assert(k == Key::RightT);
                } else if j == 7 {
                    assert(k == Key::RightS);
                } else if j == 8 {
                    assert(k == Key::RightD);
                } else {
                    assert(k == Key::RightZ);
                }
            },
        }
    }
}

/// Membership in a non-empty list is membership at its head or in its tail.
proof fn lemma_contains_unfold(keys: Seq<Key>, k: Key)
    requires
        keys.len() > 0,
    ensures
        keys.contains(k) == (keys[0] == k || keys.drop_first().contains(k)),
{
    if keys.contains(k) {
        let i = choose|i: int| 0 <= i < keys.len() && keys[i] == k;
        if i > 0 {
            assert(keys.drop_first()[i - 1] == k);
            assert(keys.drop_first().contains(k));
        }
    }
    if keys.drop_first().contains(k) {
        let i = choose|i: int| 0 <= i < keys.drop_first().len() && keys.drop_first()[i] == k;
        assert(keys[i + 1] == k);
        assert(keys.contains(k));
    }
    if keys[0] == k {
        assert(keys.contains(k));
    }
}

/// `mask_of` binds exactly the listed keys that are bound in `m`, and stays
/// inside the key bits.
proof fn lemma_mask_of_has(m: u32, keys: Seq<Key>, k: Key)
    ensures
        (mask_of(m, keys) & key_mask(k) != 0) == (keys.contains(k) && m & key_mask(k) != 0),
        mask_of(m, keys) < 0x2000000,
    decreases keys.len(),
{
    lemma_key_facts(k);
    lemma_shift_member(0, spec_key_bit(k), spec_key_bit(k));
    if keys.len() == 0 {
        assert(!keys.contains(k));
    } else {
        let k0 = keys[0];
        let head: u32 = if m & key_mask(k0) != 0 {
            key_mask(k0)
        } else {
            0u32
        };
        lemma_key_facts(k0);
        lemma_shift_facts(spec_key_bit(k0));
        lemma_mask_of_has(m, keys.drop_first(), k);
        lemma_contains_unfold(keys, k);
        lemma_or_basics(head, mask_of(m, keys.drop_first()), key_mask(k));
        lemma_key_bits_distinct();
        lemma_shift_member(0, spec_key_bit(k0), spec_key_bit(k));
        lemma_or_basics(0, key_mask(k0), key_mask(k));
    }
}

/// A zone's emitted block is empty exactly when the zone binds no key.
proof fn lemma_emit_len(m: u32, keys: Seq<Key>)
    ensures
        (emit_keys(m, keys).len() == 0) == !has_any(m, keys),
    decreases keys.len(),
{
    if keys.len() > 0 {
        lemma_emit_len(m, keys.drop_first());
    }
}

/// Every character of an emitted block is the character of a listed key.
proof fn lemma_emit_chars(m: u32, keys: Seq<Key>, i: int)
    requires
        0 <= i < emit_keys(m, keys).len(),
    ensures
        exists|k: Key| #[trigger] keys.contains(k) && emit_keys(m, keys)[i] == key_char(k),
    decreases keys.len(),
{
    let k0 = keys[0];
    let head: Seq<char> = if m & key_mask(k0) != 0 {
        seq![key_char(k0)]
    } else {
        Seq::<char>::empty()
    };
    if i < head.len() {
        assert(keys[0] == k0);
        assert(keys.contains(k0));
        assert(emit_keys(m, keys)[i] == key_char(k0));
    } else {
        lemma_emit_chars(m, keys.drop_first(), i - head.len());
        let k = choose|k: Key|
            #[trigger] keys.drop_first().contains(k) && emit_keys(m, keys.drop_first())[i
                - head.len()] == key_char(k);
        lemma_contains_unfold(keys, k);
        assert(emit_keys(m, keys)[i] == key_char(k));
        assert(keys.contains(k) && emit_keys(m, keys)[i] == key_char(k));
    }
}

/// Scanning a zone's own emitted block binds exactly the block's keys and
/// hands the rest of the text on unchanged.
proof fn lemma_scan_emit(z: Zone, m: u32, keys: Seq<Key>, rest: Seq<char>, m0: u32)
    requires
        forall|j: int|
            0 <= j < keys.len() ==> spec_zone_key(z, key_char(#[trigger] keys[j])) == Some(
                keys[j],
            ),
    ensures
        scan_zone(z, emit_keys(m, keys) + rest, m0) == scan_zone(z, rest, m0 | mask_of(m, keys)),
    decreases keys.len(),
{
    if keys.len() == 0 {
        assert(emit_keys(m, keys) + rest =~= rest);
        lemma_or_basics(m0, 0, 0);
    } else {
        let k0 = keys[0];
        let tail = keys.drop_first();
        assert forall|j: int| 0 <= j < tail.len() implies spec_zone_key(
            z,
            key_char(#[trigger] tail[j]),
        ) == Some(tail[j]) by {
            assert(tail[j] == keys[j + 1]);
        }
        if m & key_mask(k0) != 0 {
            let s = emit_keys(m, keys) + rest;
            assert(emit_keys(m, keys) == seq![key_char(k0)] + emit_keys(m, tail));
            assert(s.len() > 0);
            assert(s[0] == key_char(k0));
            assert(s.drop_first() =~= emit_keys(m, tail) + rest);
            assert(spec_zone_key(z, s[0]) == Some(k0));
            lemma_scan_emit(z, m, tail, rest, m0 | key_mask(k0));
            lemma_or_basics(m0, key_mask(k0), mask_of(m, tail));
            assert(mask_of(m, keys) == key_mask(k0) | mask_of(m, tail));
        } else {
            assert(emit_keys(m, keys) == Seq::<char>::empty() + emit_keys(m, tail));
            assert(Seq::<char>::empty() + emit_keys(m, tail) =~= emit_keys(m, tail));
            lemma_scan_emit(z, m, tail, rest, m0);
            lemma_or_basics(mask_of(m, tail), 0, 0);
            assert(mask_of(m, keys) == 0u32 | mask_of(m, tail));
        }
    }
}

/// A zone's scan stops at once on text whose first character it does not
/// recognize (and, in the middle zone, that is no separator).
proof fn lemma_scan_stop(z: Zone, s: Seq<char>, m: u32)
    requires
        s.len() > 0 ==> spec_zone_key(z, s[0]) == None::<Key> && !(z == Zone::Middle && s[0]
            == '-'),
    ensures
        scan_zone(z, s, m) == (s, m),
{
}

/// Two masks inside the key bits that agree bit by bit are equal.
proof fn lemma_mask_ext(a: u32, b: u32)
    by (bit_vector)
    requires
        a < 0x2000000,
        b < 0x2000000,
        (a & (1u32 << 0) != 0) == (b & (1u32 << 0) != 0),
        (a & (1u32 << 1) != 0) == (b & (1u32 << 1) != 0),
        (a & (1u32 << 2) != 0) == (b & (1u32 << 2) != 0),
        (a & (1u32 << 3) != 0) == (b & (1u32 << 3) != 0),
        (a & (1u32 << 4) != 0) == (b & (1u32 << 4) != 0),
        (a & (1u32 << 5) != 0) == (b & (1u32 << 5) != 0),
        (a & (1u32 << 6) != 0) == (b & (1u32 << 6) != 0),
        (a & (1u32 << 7) != 0) == (b & (1u32 << 7) != 0),
        (a & (1u32 << 8) != 0) == (b & (1u32 << 8) != 0),
        (a & (1u32 << 9) != 0) == (b & (1u32 << 9) != 0),
        (a & (1u32 << 10) != 0) == (b & (1u32 << 10) != 0),
        (a & (1u32 << 11) != 0) == (b & (1u32 << 11) != 0),
        (a & (1u32 << 12) != 0) == (b & (1u32 << 12) != 0),
        (a & (1u32 << 13) != 0) == (b & (1u32 << 13) != 0),
        (a & (1u32 << 14) != 0) == (b & (1u32 << 14) != 0),
        (a & (1u32 << 15) != 0) == (b & (1u32 << 15) != 0),
        (a & (1u32 << 16) != 0) == (b & (1u32 << 16) != 0),
        (a & (1u32 << 17) != 0) == (b & (1u32 << 17) != 0),
        (a & (1u32 << 18) != 0) == (b & (1u32 << 18) != 0),
        (a & (1u32 << 19) != 0) == (b & (1u32 << 19) != 0),
        (a & (1u32 << 20) != 0) == (b & (1u32 << 20) != 0),
        (a & (1u32 << 21) != 0) == (b & (1u32 << 21) != 0),
        (a & (1u32 << 22) != 0) == (b & (1u32 << 22) != 0),
        (a & (1u32 << 23) != 0) == (b & (1u32 << 23) != 0),
        (a & (1u32 << 24) != 0) == (b & (1u32 << 24) != 0),
    ensures
        a == b,
{
}

/// Masks inside the key bits that bind the same keys are equal.
proof fn lemma_same_keys_same_mask(a: u32, b: u32)
    requires
        a < 0x2000000,
        b < 0x2000000,
        forall|k: Key| (a & #[trigger] key_mask(k) != 0) == (b & key_mask(k) != 0),
    ensures
        a == b,
{
    assert(a & key_mask(Key::ControlNum) != 0 == (b & key_mask(Key::ControlNum) != 0));
    assert(a & key_mask(Key::ControlLeft) != 0 == (b & key_mask(Key::ControlLeft) != 0));
    assert(a & key_mask(Key::ControlRight) != 0 == (b & key_mask(Key::ControlRight) != 0));
    assert(a & key_mask(Key::LeftS) != 0 == (b & key_mask(Key::LeftS) != 0));
    assert(a & key_mask(Key::LeftT) != 0 == (b & key_mask(Key::LeftT) != 0));
    assert(a & key_mask(Key::LeftK) != 0 == (b & key_mask(Key::LeftK) != 0));
    assert(a & key_mask(Key::LeftP) != 0 == (b & key_mask(Key::LeftP) != 0));
    assert(a & key_mask(Key::LeftW) != 0 == (b & key_mask(Key::LeftW) != 0));
    assert(a & key_mask(Key::LeftH) != 0 == (b & key_mask(Key::LeftH) != 0));
    assert(a & key_mask(Key::LeftR) != 0 == (b & key_mask(Key::LeftR) != 0));
    assert(a & key_mask(Key::MiddleA) != 0 == (b & key_mask(Key::MiddleA) != 0));
    assert(a & key_mask(Key::MiddleO) != 0 == (b & key_mask(Key::MiddleO) != 0));
    assert(a & key_mask(Key::MiddleStar) != 0 == (b & key_mask(Key::MiddleStar) != 0));
    assert(a & key_mask(Key::MiddleE) != 0 == (b & key_mask(Key::MiddleE) != 0));
    assert(a & key_mask(Key::MiddleU) != 0 == (b & key_mask(Key::MiddleU) != 0));
    assert(a & key_mask(Key::RightF) != 0 == (b & key_mask(Key::RightF) != 0));
    assert(a & key_mask(Key::RightR) != 0 == (b & key_mask(Key::RightR) != 0));
    assert(a & key_mask(Key::RightP) != 0 == (b & key_mask(Key::RightP) != 0));
    assert(a & key_mask(Key::RightB) != 0 == (b & key_mask(Key::RightB) != 0));
    assert(a & key_mask(Key::RightL) != 0 == (b & key_mask(Key::RightL) != 0));
    assert(a & key_mask(Key::RightG) != 0 == (b & key_mask(Key::RightG) != 0));
    assert(a & key_mask(Key::RightT) != 0 == (b & key_mask(Key::RightT) != 0));
    assert(a & key_mask(Key::RightS) != 0 == (b & key_mask(Key::RightS) != 0));
    assert(a & key_mask(Key::RightD) != 0 == (b & key_mask(Key::RightD) != 0));
    assert(a & key_mask(Key::RightZ) != 0 == (b & key_mask(Key::RightZ) != 0));
    lemma_mask_ext(a, b);
}

/// A key on a zone's list belongs to that zone.
proof fn lemma_list_member_zone(z: Zone, k: Key)
    requires
        zone_list(z).contains(k),
    ensures
        key_zone(k) == z,
{
    lemma_zone_consistent(z);
    let i = choose|i: int| 0 <= i < zone_list(z).len() && zone_list(z)[i] == k;
    assert(key_zone(zone_list(z)[i]) == z);
}

/// No character of a non-control zone's block is a control character.
proof fn lemma_emit_char_not_control(m: u32, z: Zone, i: int)
    requires
        z != Zone::Control,
        0 <= i < emit_keys(m, zone_list(z)).len(),
    ensures
        spec_control_key(emit_keys(m, zone_list(z))[i]) == None::<Key>,
{
    lemma_emit_chars(m, zone_list(z), i);
    let k = choose|k: Key|
        #[trigger] zone_list(z).contains(k) && emit_keys(m, zone_list(z))[i] == key_char(k);
    lemma_list_member_zone(z, k);
    lemma_key_facts(k);
}

/// No character of the middle block is a left-bank character.
proof fn lemma_emit_char_middle(m: u32, i: int)
    requires
        0 <= i < emit_keys(m, middle_list()).len(),
    ensures
        spec_left_key(emit_keys(m, middle_list())[i]) == None::<Key>,
{
    assert(zone_list(Zone::Middle) == middle_list());
    lemma_emit_chars(m, middle_list(), i);
    let k = choose|k: Key|
        #[trigger] middle_list().contains(k) && emit_keys(m, middle_list())[i] == key_char(k);
    lemma_list_member_zone(Zone::Middle, k);
    lemma_key_facts(k);
}

/// No character of the right block is a middle character or the separator.
proof fn lemma_emit_char_right(m: u32, i: int)
    requires
        0 <= i < emit_keys(m, right_list()).len(),
    ensures
        spec_middle_key(emit_keys(m, right_list())[i]) == None::<Key>,
        emit_keys(m, right_list())[i] != '-',
{
    assert(zone_list(Zone::Right) == right_list());
    lemma_emit_chars(m, right_list(), i);
    let k = choose|k: Key|
        #[trigger] right_list().contains(k) && emit_keys(m, right_list())[i] == key_char(k);
    lemma_list_member_zone(Zone::Right, k);
    lemma_key_facts(k);
}

/// Parsing the canonical text of a well-formed non-empty mask consumes the
/// whole text and binds exactly the mask back.
pub proof fn lemma_roundtrip_mask(m: u32)
    requires
        m < 0x2000000,
        m != 0,
    ensures
        parse_accepts(format_mask(m)),
        parse_mask(format_mask(m)) == m,
{
    let cb = emit_keys(m, control_list());
    let lb = emit_keys(m, left_list());
    let mb = emit_keys(m, middle_list());
    let db: Seq<char> = if has_any(m, right_list()) && !has_any(m, middle_list()) {
        seq!['-']
    } else {
        Seq::<char>::empty()
    };
    let rb = emit_keys(m, right_list());
    let s = format_mask(m);
    let t3 = db + rb;
    let t2 = mb + t3;
    let t1 = lb + t2;
    assert(s =~= cb + t1);

    lemma_zone_consistent(Zone::Control);
    lemma_zone_consistent(Zone::Left);
    lemma_zone_consistent(Zone::Middle);
    lemma_zone_consistent(Zone::Right);

    let mc = mask_of(m, control_list());
    let ml = mask_of(m, left_list());
    let mm = mask_of(m, middle_list());
    let mr = mask_of(m, right_list());
    let m1 = 0u32 | mc;
    let m2 = m1 | ml;
    let m3 = m2 | mm;
    let m4 = m3 | mr;

    // The control scan consumes the control block and stops at the head of
    // the rest, which no control character begins.
    lemma_scan_emit(Zone::Control, m, control_list(), t1, 0u32);
    assert(t1.len() > 0 ==> spec_control_key(t1[0]) == None::<Key>) by {
        if t1.len() > 0 {
            if lb.len() > 0 {
                assert(t1[0] == lb[0]);
                assert(zone_list(Zone::Left) == left_list());
                lemma_emit_char_not_control(m, Zone::Left, 0);
            } else if mb.len() > 0 {
                assert(t1[0] == t2[0]);
                assert(t2[0] == mb[0]);
                assert(zone_list(Zone::Middle) == middle_list());
                lemma_emit_char_not_control(m, Zone::Middle, 0);
            } else if db.len() > 0 {
                assert(t1[0] == t3[0]);
                assert(t3[0] == '-');
            } else {
                assert(t1[0] == rb[0]);
                assert(zone_list(Zone::Right) == right_list());
                lemma_emit_char_not_control(m, Zone::Right, 0);
            }
        }
    }
    lemma_scan_stop(Zone::Control, t1, m1);
    assert(scan_zone(Zone::Control, s, 0u32) == (t1, m1));

    // The left scan consumes the left block; what follows begins with a
    // middle character or the separator, never with a left character.
    lemma_scan_emit(Zone::Left, m, left_list(), t2, m1);
    assert(t2.len() > 0 ==> spec_left_key(t2[0]) == None::<Key>) by {
        if t2.len() > 0 {
            if mb.len() > 0 {
                assert(t2[0] == mb[0]);
                lemma_emit_char_middle(m, 0);
            } else if db.len() > 0 {
                assert(t2[0] == t3[0]);
                assert(t3[0] == '-');
            } else {
                assert(rb.len() > 0);
                lemma_emit_len(m, middle_list());
                lemma_emit_len(m, right_list());
                assert(false);
            }
        }
    }
    lemma_scan_stop(Zone::Left, t2, m2);
    assert(scan_zone(Zone::Left, t1, m1) == (t2, m2));

    // The middle scan consumes the middle block, then either consumes the
    // bare separator or stops at the first right-bank character.
    lemma_scan_emit(Zone::Middle, m, middle_list(), t3, m2);
    if db.len() > 0 {
        assert(t3[0] == '-');
        assert(t3.drop_first() =~= rb);
        assert(scan_zone(Zone::Middle, t3, m3) == (rb, m3));
    } else {
        assert(t3 =~= rb);
        assert(rb.len() > 0 ==> spec_middle_key(rb[0]) == None::<Key> && rb[0] != '-') by {
            if rb.len() > 0 {
                lemma_emit_char_right(m, 0);
            }
        }
        lemma_scan_stop(Zone::Middle, rb, m3);
    }
    assert(scan_zone(Zone::Middle, t2, m2) == (rb, m3));

    // The right scan consumes the right block and ends at the end of text.
    lemma_scan_emit(Zone::Right, m, right_list(), Seq::<char>::empty(), m3);
    assert(rb + Seq::<char>::empty() =~= rb);
    lemma_scan_stop(Zone::Right, Seq::<char>::empty(), m4);
    assert(scan_zone(Zone::Right, rb, m3) == (Seq::<char>::empty(), m4));

    assert(parse_zones(s) == (Seq::<char>::empty(), m4));

    // The accumulated mask binds exactly the keys of `m`.
    assert forall|k: Key| (m4 & #[trigger] key_mask(k) != 0) == (m & key_mask(k) != 0) by {
        lemma_mask_of_has(m, control_list(), k);
        lemma_mask_of_has(m, left_list(), k);
        lemma_mask_of_has(m, middle_list(), k);
        lemma_mask_of_has(m, right_list(), k);
        lemma_or_basics(0u32, mc, key_mask(k));
        lemma_or_basics(m1, ml, key_mask(k));
        lemma_or_basics(m2, mm, key_mask(k));
        lemma_or_basics(m3, mr, key_mask(k));
        lemma_key_facts(k);
        lemma_shift_member(0u32, spec_key_bit(k), spec_key_bit(k));
        match key_zone(k) {
            Zone::Control => {
                assert(control_list().contains(k));
            },
            Zone::Left => {
                assert(left_list().contains(k));
            },
            Zone::Middle => {
                assert(middle_list().contains(k));
            },
            Zone::Right => {
                assert(right_list().contains(k));
            },
        }
    }
    lemma_mask_of_has(m, control_list(), Key::ControlNum);
    lemma_mask_of_has(m, left_list(), Key::ControlNum);
    lemma_mask_of_has(m, middle_list(), Key::ControlNum);
    lemma_mask_of_has(m, right_list(), Key::ControlNum);
    lemma_or_basics(0u32, mc, 0u32);
    lemma_or_basics(m1, ml, 0u32);
    lemma_or_basics(m2, mm, 0u32);
    lemma_or_basics(m3, mr, 0u32);
    lemma_same_keys_same_mask(m4, m);
}

/// Round trip of the grammar: formatting a valid chord and parsing the text
/// again accepts the text and gives the chord back.
pub proof fn lemma_parse_of_format(st: Stroke)
    requires
        st.wf(),
        st.mask() != 0,
    ensures
        parse_accepts(format_mask(st.mask())),
        parse_mask(format_mask(st.mask())) == st.mask(),
{
    lemma_roundtrip_mask(st.mask());
}

/// Round trip of canonical text: a string that is the canonical text of some
/// valid chord, once parsed, formats back to itself.
pub proof fn lemma_format_of_parse(s: Seq<char>)
    requires
        exists|st: Stroke| st.wf() && (#[trigger] st.mask()) != 0 && s == format_mask(st.mask()),
    ensures
        parse_accepts(s),
        format_mask(parse_mask(s)) == s,
{
    let st = choose|st: Stroke| st.wf() && (#[trigger] st.mask()) != 0 && s == format_mask(
        st.mask(),
    );
    lemma_roundtrip_mask(st.mask());
}

} // verus!
