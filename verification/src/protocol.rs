//! The device protocol decoder: one fixed six-byte little-endian frame is
//! read as a 48-bit value and matched against the hardware code table.

use vstd::prelude::*;

use crate::keys::{key_mask, lemma_key_bits_distinct, spec_key_bit, Key};
use crate::stroke::{key_mask_exec, lemma_or_basics, lemma_shift_facts, stroke_of_mask, Stroke};

verus! {

/// The hardware code table: each entry pairs a key with the 48-bit pattern
/// of the switches that signal it. Several patterns may signal the same key,
/// as more than one physical switch can stand for one logical key.
pub open spec fn key_code_list() -> Seq<(Key, u64)> {
    seq![
        (Key::LeftS, 0x000000002080u64),
        (Key::LeftT, 0x000000001080u64),
        (Key::LeftK, 0x000000000880u64),
        (Key::LeftP, 0x000000000480u64),
        (Key::LeftW, 0x000000000280u64),
        (Key::LeftH, 0x000000000180u64),
        (Key::LeftR, 0x000000400080u64),
        (Key::MiddleA, 0x000000200080u64),
        (Key::MiddleO, 0x000000100080u64),
        (Key::MiddleStar, 0x000000080080u64),
        (Key::MiddleStar, 0x000020000080u64),
        (Key::MiddleStar, 0x000000040080u64),
        (Key::MiddleStar, 0x000010000080u64),
        (Key::MiddleE, 0x000008000080u64),
        (Key::MiddleU, 0x000004000080u64),
        (Key::RightF, 0x000002000080u64),
        (Key::RightR, 0x000001000080u64),
        (Key::RightP, 0x004000000080u64),
        (Key::RightB, 0x002000000080u64),
        (Key::RightL, 0x001000000080u64),
        (Key::RightG, 0x000800000080u64),
        (Key::RightT, 0x000400000080u64),
        (Key::RightS, 0x000200000080u64),
        (Key::RightD, 0x000100000080u64),
        (Key::RightZ, 0x010000000080u64),
    ]
}

/// The 48-bit value of one frame: byte `i` holds bits `8 i` to `8 i + 7`.
pub open spec fn frame_value(bytes: Seq<u8>) -> u64
    recommends
        bytes.len() >= 6,
{
    (bytes[0] as u64) | ((bytes[1] as u64) << 8) | ((bytes[2] as u64) << 16) | ((bytes[3] as u64)
        << 24) | ((bytes[4] as u64) << 32) | ((bytes[5] as u64) << 40)
}

/// The mask bound by the entries of `entries` whose pattern is in `value`.
pub open spec fn decode_rec(value: u64, entries: Seq<(Key, u64)>) -> u32
    decreases entries.len(),
{
    if entries.len() == 0 {
        0u32
    } else {
        (if value & entries[0].1 == entries[0].1 {
            key_mask(entries[0].0)
        } else {
            0u32
        }) | decode_rec(value, entries.drop_first())
    }
}

/// The mask of the keys whose full switch pattern is present in `value`.
pub open spec fn decode_mask(value: u64) -> u32 {
    decode_rec(value, key_code_list())
}

fn key_codes() -> (v: Vec<(Key, u64)>)
    ensures
        v@ == key_code_list(),
{
    let mut v: Vec<(Key, u64)> = Vec::new();
    v.push((Key::LeftS, 0x000000002080u64));
    v.push((Key::LeftT, 0x000000001080u64));
    v.push((Key::LeftK, 0x000000000880u64));
    v.push((Key::LeftP, 0x000000000480u64));
    v.push((Key::LeftW, 0x000000000280u64));
    v.push((Key::LeftH, 0x000000000180u64));
    v.push((Key::LeftR, 0x000000400080u64));
    v.push((Key::MiddleA, 0x000000200080u64));
    v.push((Key::MiddleO, 0x000000100080u64));
    v.push((Key::MiddleStar, 0x000000080080u64));
    v.push((Key::MiddleStar, 0x000020000080u64));
    v.push((Key::MiddleStar, 0x000000040080u64));
    v.push((Key::MiddleStar, 0x000010000080u64));
    v.push((Key::MiddleE, 0x000008000080u64));
    v.push((Key::MiddleU, 0x000004000080u64));
    v.push((Key::RightF, 0x000002000080u64));
    v.push((Key::RightR, 0x000001000080u64));
    v.push((Key::RightP, 0x004000000080u64));
    v.push((Key::RightB, 0x002000000080u64));
    v.push((Key::RightL, 0x001000000080u64));
    v.push((Key::RightG, 0x000800000080u64));
    v.push((Key::RightT, 0x000400000080u64));
    v.push((Key::RightS, 0x000200000080u64));
    v.push((Key::RightD, 0x000100000080u64));
    v.push((Key::RightZ, 0x010000000080u64));
    proof {
        assert(v@ =~= key_code_list());
    }
    v
}

/// Decode one six-byte frame. A frame whose value matches no table entry
/// represents no pressed stroke and yields nothing.
pub fn decode_frame(frame: &[u8; 6]) -> (r: Option<Stroke>)
    ensures
        r is Some <==> decode_mask(frame_value(frame@)) != 0,
        r matches Some(st) ==> st.mask() == decode_mask(frame_value(frame@)) && st.wf(),
{
    let value: u64 = (frame[0] as u64) | ((frame[1] as u64) << 8) | ((frame[2] as u64) << 16) | ((
    frame[3] as u64) << 24) | ((frame[4] as u64) << 32) | ((frame[5] as u64) << 40);
    proof {
        assert(value == frame_value(frame@));
    }
    let codes = key_codes();
    let mut m: u32 = 0;
    let mut i: usize = 0;
    proof {
        assert(codes@.skip(0) =~= codes@);
        lemma_or_basics(decode_rec(value, codes@), 0, 0);
    }
    while i < codes.len()
        invariant
            i <= codes@.len(),
            codes@ == key_code_list(),
            value == frame_value(frame@),
            m < 0x2000000,
            decode_mask(frame_value(frame@)) == m | decode_rec(value, codes@.skip(i as int)),
        decreases codes@.len() - i,
    {
        proof {
            assert(codes@.skip(i as int)[0] == codes@[i as int]);
            assert(codes@.skip(i as int).drop_first() =~= codes@.skip(i as int + 1));
        }
        let entry = codes[i];
        let ghost h: u32 = if value & entry.1 == entry.1 {
            key_mask(entry.0)
        } else {
            0u32
        };
        proof {
            lemma_key_bits_distinct();
            lemma_shift_facts(spec_key_bit(entry.0));
            lemma_or_basics(m, h, decode_rec(value, codes@.skip(i as int + 1)));
        }
        if value & entry.1 == entry.1 {
            m = m | key_mask_exec(entry.0);
        } else {
            proof {
                lemma_or_basics(m, 0, decode_rec(value, codes@.skip(i as int + 1)));
            }
        }
        i = i + 1;
    }
    proof {
        lemma_or_basics(m, 0, 0);
    }
    if m != 0 {
        Some(stroke_of_mask(m))
    } else {
        None
    }
}

} // verus!
