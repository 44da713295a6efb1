//! Strokes: chords of simultaneously pressed keys, stored as a bit mask,
//! with the canonical text grammar that parses and formats them.

use vstd::prelude::*;

use crate::keys::{
    key_char, key_mask, spec_control_key, spec_key_bit, spec_left_key, spec_middle_key,
    spec_right_key, control_key, key_bit, left_key, middle_key, right_key, lemma_key_bits_distinct,
    Key,
};

verus! {

/// A chord: the set of keys pressed at once. Equality is mask equality.
#[derive(Clone, Copy, Debug, PartialEq, Eq, Structural)]
pub struct Stroke(u32);

/// Why a stroke string is rejected: it binds no key at all, either because it
/// is empty or because some character is recognized by no remaining zone.
#[derive(Clone, Copy, Debug, PartialEq, Eq, Structural)]
pub enum ParseError {
    EmptyStroke,
}

impl Stroke {
    /// The raw bit mask, one bit per key in canonical order.
    pub closed spec fn mask(self) -> u32 {
        self.0
    }

    /// Membership of one key in the chord.
    pub open spec fn has(self, k: Key) -> bool {
        self.mask() & key_mask(k) != 0
    }

    /// Only bits that stand for keys are set.
    pub open spec fn wf(self) -> bool {
        self.mask() < 0x2000000
    }
}

pub(crate) proof fn lemma_or_basics(a: u32, b: u32, c: u32)
    by (bit_vector)
    ensures
        a | 0 == a,
        0 | a == a,
        (a | b) | c == a | (b | c),
        a | b == b | a,
        a < 0x2000000 && b < 0x2000000 ==> (a | b) < 0x2000000,
        ((a | b) == 0) == (a == 0 && b == 0),
        ((a | b) & c != 0) == ((a & c != 0) || (b & c != 0)),
{
}

pub(crate) proof fn lemma_shift_facts(i: u32)
    by (bit_vector)
    requires
        i < 25,
    ensures
        (1u32 << i) < 0x2000000,
        (1u32 << i) != 0,
        (1u32 << i) & (1u32 << i) != 0,
{
}

pub(crate) proof fn lemma_shift_member(m: u32, i: u32, j: u32)
    by (bit_vector)
    requires
        i < 32,
        j < 32,
    ensures
        ((m | (1u32 << i)) & (1u32 << j) != 0) == ((m & (1u32 << j) != 0) || i == j),
        (0u32 & (1u32 << j)) == 0,
{
}

/// Adding one key's bit to a mask adds exactly that key.
proof fn lemma_mask_union_key(m: u32, k: Key)
    ensures
        forall|k2: Key| (((m | key_mask(k)) & key_mask(k2)) != 0)
            == ((m & key_mask(k2) != 0) || k2 == k),
{
    lemma_key_bits_distinct();
    assert forall|k2: Key| (((m | key_mask(k)) & key_mask(k2)) != 0)
        == ((m & key_mask(k2) != 0) || k2 == k) by {
        lemma_shift_member(m, spec_key_bit(k), spec_key_bit(k2));
    }
}

/// A stroke from a raw mask.
pub(crate) fn stroke_of_mask(m: u32) -> (r: Stroke)
    ensures
        r.mask() == m,
{
    Stroke(m)
}

/// The single-bit mask of one key, as executable code.
pub(crate) fn key_mask_exec(k: Key) -> (r: u32)
    ensures
        r == key_mask(k),
{
    proof {
        lemma_key_bits_distinct();
    }
    1u32 << key_bit(k)
}

impl Stroke {
    /// Whether the chord contains `key`.
    pub fn contains(&self, key: Key) -> (r: bool)
        ensures
            r == self.has(key),
    {
        self.0 & key_mask_exec(key) != 0
    }

    /// The chord of the keys of both strokes: independently pressed keys
    /// merge into one chord.
    pub fn union(self, other: Stroke) -> (r: Stroke)
        ensures
            r.mask() == self.mask() | other.mask(),
            forall|k: Key| #[trigger] r.has(k) == (self.has(k) || other.has(k)),
            self.wf() && other.wf() ==> r.wf(),
    {
        proof {
            assert forall|k: Key| ((self.mask() | other.mask()) & key_mask(k) != 0)
                == (self.has(k) || other.has(k)) by {
                lemma_or_basics(self.mask(), other.mask(), key_mask(k));
            }
            lemma_or_basics(self.mask(), other.mask(), 0);
        }
        Stroke(self.0 | other.0)
    }

    /// The chord extended by one more key.
    pub fn union_key(self, key: Key) -> (r: Stroke)
        ensures
            r.mask() == self.mask() | key_mask(key),
            forall|k: Key| #[trigger] r.has(k) == (self.has(k) || k == key),
            self.wf() ==> r.wf(),
    {
        let m = key_mask_exec(key);
        proof {
            lemma_mask_union_key(self.mask(), key);
            lemma_key_bits_distinct();
            lemma_shift_facts(spec_key_bit(key));
            lemma_or_basics(self.mask(), key_mask(key), 0);
        }
        Stroke(self.0 | m)
    }
}

impl Key {
    /// The chord of exactly two pressed keys.
    pub fn union(self, other: Key) -> (r: Stroke)
        ensures
            r.mask() == key_mask(self) | key_mask(other),
            r.has(self),
            r.has(other),
            forall|k: Key| #[trigger] r.has(k) == (k == self || k == other),
            r.wf(),
    {
        proof {
            Stroke::lemma_from_key(self);
        }
        Stroke::from(self).union_key(other)
    }
}

impl From<Key> for Stroke {
    /// The chord of exactly one pressed key.
    fn from(key: Key) -> (r: Stroke) {
        Stroke(key_mask_exec(key))
    }
}

impl vstd::std_specs::convert::FromSpecImpl<Key> for Stroke {
    open spec fn obeys_from_spec() -> bool {
        true
    }

    closed spec fn from_spec(key: Key) -> Stroke {
        Stroke(key_mask(key))
    }
}

impl Stroke {
    /// What `Stroke::from` returns: the chord of exactly `key`.
    pub proof fn lemma_from_key(key: Key)
        ensures
            (<Stroke as vstd::std_specs::convert::FromSpec<Key>>::from_spec(key)).mask()
                == key_mask(key),
            forall|k: Key|
                #[trigger] (<Stroke as vstd::std_specs::convert::FromSpec<Key>>::from_spec(
                    key,
                )).has(k) == (k == key),
            (<Stroke as vstd::std_specs::convert::FromSpec<Key>>::from_spec(key)).wf(),
    {
        lemma_key_bits_distinct();
        lemma_shift_facts(spec_key_bit(key));
        assert forall|k: Key|
            #[trigger] (<Stroke as vstd::std_specs::convert::FromSpec<Key>>::from_spec(key)).has(
                k,
            ) == (k == key) by {
            lemma_shift_member(0, spec_key_bit(key), spec_key_bit(k));
            lemma_or_basics(0, key_mask(key), key_mask(k));
        }
    }
}

/// One of the four zones of a stroke, in canonical text order.
#[derive(Clone, Copy, Debug, PartialEq, Eq, Structural)]
pub enum Zone {
    Control,
    Left,
    Middle,
    Right,
}

/// The key written as `c` in zone `z`, if any.
pub open spec fn spec_zone_key(z: Zone, c: char) -> Option<Key> {
    match z {
        Zone::Control => spec_control_key(c),
        Zone::Left => spec_left_key(c),
        Zone::Middle => spec_middle_key(c),
        Zone::Right => spec_right_key(c),
    }
}

#[verifier::when_used_as_spec(spec_zone_key)]
fn zone_key(z: Zone, c: char) -> (r: Option<Key>)
    ensures
        r == spec_zone_key(z, c),
{
    match z {
        Zone::Control => control_key(c),
        Zone::Left => left_key(c),
        Zone::Middle => middle_key(c),
        Zone::Right => right_key(c),
    }
}

/// One zone's greedy scan: every character the zone recognizes is consumed
/// and its key's bit is bound into the mask; the first other character stops
/// the zone. A `-` met in the middle zone is consumed as a bare separator
/// and stops the zone, binding nothing.
pub open spec fn scan_zone(z: Zone, s: Seq<char>, m: u32) -> (Seq<char>, u32)
    decreases s.len(),
{
    if s.len() == 0 {
        (s, m)
    } else {
        match spec_zone_key(z, s[0]) {
            Some(k) => scan_zone(z, s.drop_first(), m | key_mask(k)),
            None => if z == Zone::Middle && s[0] == '-' {
                (s.drop_first(), m)
            } else {
                (s, m)
            },
        }
    }
}

/// The four zone scans, each handing its remainder to the next: the final
/// remainder and the accumulated mask.
pub open spec fn parse_zones(s: Seq<char>) -> (Seq<char>, u32) {
    let (s1, m1) = scan_zone(Zone::Control, s, 0);
    let (s2, m2) = scan_zone(Zone::Left, s1, m1);
    let (s3, m3) = scan_zone(Zone::Middle, s2, m2);
    scan_zone(Zone::Right, s3, m3)
}

/// The mask of keys a stroke string binds.
pub open spec fn parse_mask(s: Seq<char>) -> u32 {
    parse_zones(s).1
}

/// A stroke string is accepted when the four zones consume all of it and it
/// binds at least one key.
pub open spec fn parse_accepts(s: Seq<char>) -> bool {
    parse_zones(s).0.len() == 0 && parse_zones(s).1 != 0
}

/// The greedy scan of one zone over `v` from index `start`.
fn scan_zone_exec(v: &Vec<char>, start: usize, z: Zone, m0: u32) -> (r: (usize, u32))
    requires
        start <= v@.len(),
    ensures
        start <= r.0 <= v@.len(),
        scan_zone(z, v@.skip(start as int), m0) == (v@.skip(r.0 as int), r.1),
        m0 < 0x2000000 ==> r.1 < 0x2000000,
{
    let mut i: usize = start;
    let mut m: u32 = m0;
    loop
        invariant_except_break
            scan_zone(z, v@.skip(start as int), m0) == scan_zone(z, v@.skip(i as int), m),
        invariant
            start <= i <= v@.len(),
            m0 < 0x2000000 ==> m < 0x2000000,
        ensures
            start <= i <= v@.len(),
            scan_zone(z, v@.skip(start as int), m0) == (v@.skip(i as int), m),
            m0 < 0x2000000 ==> m < 0x2000000,
        decreases v@.len() - i,
    {
        if i == v.len() {
            break;
        }
        let c = v[i];
        proof {
            assert(v@.skip(i as int)[0] == c);
            assert(v@.skip(i as int).drop_first() =~= v@.skip(i as int + 1));
        }
        match zone_key(z, c) {
            Some(k) => {
                proof {
                    lemma_key_bits_distinct();
                    lemma_shift_facts(spec_key_bit(k));
                    lemma_or_basics(m, key_mask(k), 0);
                }
                m = m | key_mask_exec(k);
                i = i + 1;
            },
            None => {
                if z == Zone::Middle && c == '-' {
                    i = i + 1;
                }
                break;
            },
        }
    }
    (i, m)
}

impl Stroke {
    /// Whether the chord holds any key at all; an empty chord is not a
    /// valid parsed stroke.
    fn is_valid(&self) -> (r: bool)
        ensures
            r == (self.mask() != 0),
    {
        self.0 != 0
    }

    /// Parse stroke text through the four zone scans. Accepted exactly when
    /// the zones consume the whole text and at least one key is bound; any
    /// other text, the empty one included, is rejected.
    pub(crate) fn parse_chars(v: &Vec<char>) -> (r: Result<Stroke, ParseError>)
        ensures
            r is Ok <==> parse_accepts(v@),
            r matches Ok(st) ==> st.mask() == parse_mask(v@) && st.wf(),
            r matches Err(e) ==> e == ParseError::EmptyStroke,
    {
        proof {
            assert(v@.skip(0) =~= v@);
        }
        let (i1, m1) = scan_zone_exec(v, 0, Zone::Control, 0);
        let (i2, m2) = scan_zone_exec(v, i1, Zone::Left, m1);
        let (i3, m3) = scan_zone_exec(v, i2, Zone::Middle, m2);
        let (i4, m4) = scan_zone_exec(v, i3, Zone::Right, m3);
        let result = Stroke(m4);
        if i4 == v.len() && result.is_valid() {
            Ok(result)
        } else {
            Err(ParseError::EmptyStroke)
        }
    }

    /// Parse canonical stroke text.
    pub fn parse(stroke: &str) -> (r: Result<Stroke, ParseError>)
        ensures
            r is Ok <==> parse_accepts(stroke@),
            r matches Ok(st) ==> st.mask() == parse_mask(stroke@) && st.wf(),
            r matches Err(e) ==> e == ParseError::EmptyStroke,
    {
        let v = crate::text::str_to_chars(stroke);
        Stroke::parse_chars(&v)
    }
}

/// The control keys in canonical order.
pub open spec fn control_list() -> Seq<Key> {
    seq![Key::ControlNum, Key::ControlLeft, Key::ControlRight]
}

/// The left-bank keys in canonical order.
pub open spec fn left_list() -> Seq<Key> {
    seq![Key::LeftS, Key::LeftT, Key::LeftK, Key::LeftP, Key::LeftW, Key::LeftH, Key::LeftR]
}

/// The middle keys in canonical order.
pub open spec fn middle_list() -> Seq<Key> {
    seq![Key::MiddleA, Key::MiddleO, Key::MiddleStar, Key::MiddleE, Key::MiddleU]
}

/// The right-bank keys in canonical order.
pub open spec fn right_list() -> Seq<Key> {
    seq![
        Key::RightF,
        Key::RightR,
        Key::RightP,
        Key::RightB,
        Key::RightL,
        Key::RightG,
        Key::RightT,
        Key::RightS,
        Key::RightD,
        Key::RightZ,
    ]
}

/// The canonical characters of the keys of `keys` that are bound in `m`,
/// in the order of `keys`.
pub open spec fn emit_keys(m: u32, keys: Seq<Key>) -> Seq<char>
    decreases keys.len(),
{
    if keys.len() == 0 {
        Seq::<char>::empty()
    } else {
        (if m & key_mask(keys[0]) != 0 {
            seq![key_char(keys[0])]
        } else {
            Seq::<char>::empty()
        }) + emit_keys(m, keys.drop_first())
    }
}

/// Whether any key of `keys` is bound in `m`.
pub open spec fn has_any(m: u32, keys: Seq<Key>) -> bool
    decreases keys.len(),
{
    keys.len() > 0 && (m & key_mask(keys[0]) != 0 || has_any(m, keys.drop_first()))
}

/// The canonical text of the mask `m`: the zones in order, with a `-`
/// before the right bank exactly when a right key is bound and no middle
/// key is.
pub open spec fn format_mask(m: u32) -> Seq<char> {
    emit_keys(m, control_list()) + emit_keys(m, left_list()) + emit_keys(m, middle_list()) + (if has_any(
        m,
        right_list(),
    ) && !has_any(m, middle_list()) {
        seq!['-']
    } else {
        Seq::<char>::empty()
    }) + emit_keys(m, right_list())
}

/// Emitting one more key at the end of the list appends its character when
/// it is bound and nothing otherwise.
proof fn lemma_emit_snoc(m: u32, keys: Seq<Key>, k: Key)
    ensures
        emit_keys(m, keys.push(k)) == emit_keys(m, keys) + (if m & key_mask(k) != 0 {
            seq![key_char(k)]
        } else {
            Seq::<char>::empty()
        }),
    decreases keys.len(),
{
    if keys.len() == 0 {
        assert(keys.push(k).drop_first() =~= keys);
        assert(emit_keys(m, keys.push(k)) =~= emit_keys(m, keys) + (if m & key_mask(k) != 0 {
            seq![key_char(k)]
        } else {
            Seq::<char>::empty()
        }));
    } else {
        assert(keys.push(k).drop_first() =~= keys.drop_first().push(k));
        lemma_emit_snoc(m, keys.drop_first(), k);
        assert(emit_keys(m, keys.push(k)) =~= emit_keys(m, keys) + (if m & key_mask(k) != 0 {
            seq![key_char(k)]
        } else {
            Seq::<char>::empty()
        }));
    }
}

fn control_keys_vec() -> (v: Vec<Key>)
    ensures
        v@ == control_list(),
{
    let mut v: Vec<Key> = Vec::new();
    v.push(Key::ControlNum);
    v.push(Key::ControlLeft);
    v.push(Key::ControlRight);
    proof {
        assert(v@ =~= control_list());
    }
    v
}

fn left_keys_vec() -> (v: Vec<Key>)
    ensures
        v@ == left_list(),
{
    let mut v: Vec<Key> = Vec::new();
    v.push(Key::LeftS);
    v.push(Key::LeftT);
    v.push(Key::LeftK);
    v.push(Key::LeftP);
    v.push(Key::LeftW);
    v.push(Key::LeftH);
    v.push(Key::LeftR);
    proof {
        assert(v@ =~= left_list());
    }
    v
}

fn middle_keys_vec() -> (v: Vec<Key>)
    ensures
        v@ == middle_list(),
{
    let mut v: Vec<Key> = Vec::new();
    v.push(Key::MiddleA);
    v.push(Key::MiddleO);
    v.push(Key::MiddleStar);
    v.push(Key::MiddleE);
    v.push(Key::MiddleU);
    proof {
        assert(v@ =~= middle_list());
    }
    v
}

fn right_keys_vec() -> (v: Vec<Key>)
    ensures
        v@ == right_list(),
{
    let mut v: Vec<Key> = Vec::new();
    v.push(Key::RightF);
    v.push(Key::RightR);
    v.push(Key::RightP);
    v.push(Key::RightB);
    v.push(Key::RightL);
    v.push(Key::RightG);
    v.push(Key::RightT);
    v.push(Key::RightS);
    v.push(Key::RightD);
    v.push(Key::RightZ);
    proof {
        assert(v@ =~= right_list());
    }
    v
}

/// Append to `out` the characters of the keys of `keys` bound in `st`.
fn push_zone(out: &mut Vec<char>, st: Stroke, keys: &Vec<Key>)
    ensures
        final(out)@ == old(out)@ + emit_keys(st.mask(), keys@),
{
    let mut i: usize = 0;
    while i < keys.len()
        invariant
            i <= keys@.len(),
            out@ == old(out)@ + emit_keys(st.mask(), keys@.take(i as int)),
        decreases keys@.len() - i,
    {
        let k = keys[i];
        if st.contains(k) {
            out.push(crate::keys::key_char_exec(k));
        }
        proof {
            lemma_emit_snoc(st.mask(), keys@.take(i as int), keys@[i as int]);
            assert(keys@.take(i as int).push(keys@[i as int]) =~= keys@.take(i as int + 1));
            assert(out@ =~= old(out)@ + emit_keys(st.mask(), keys@.take(i as int + 1)));
        }
        i = i + 1;
    }
    proof {
        assert(keys@.take(keys@.len() as int) =~= keys@);
    }
}

/// Whether any key of `keys` is in the chord `st`.
fn has_any_key(st: Stroke, keys: &Vec<Key>) -> (r: bool)
    ensures
        r == has_any(st.mask(), keys@),
{
    let mut i: usize = 0;
    proof {
        assert(keys@.skip(0) =~= keys@);
    }
    while i < keys.len()
        invariant
            i <= keys@.len(),
            has_any(st.mask(), keys@) == has_any(st.mask(), keys@.skip(i as int)),
        decreases keys@.len() - i,
    {
        proof {
            assert(keys@.skip(i as int)[0] == keys@[i as int]);
            assert(keys@.skip(i as int).drop_first() =~= keys@.skip(i as int + 1));
        }
        if st.contains(keys[i]) {
            return true;
        }
        i = i + 1;
    }
    false
}

impl Stroke {
    /// The canonical text of the chord, as characters.
    pub(crate) fn format_chars(&self) -> (out: Vec<char>)
        ensures
            out@ == format_mask(self.mask()),
    {
        let mut out: Vec<char> = Vec::new();
        let control = control_keys_vec();
        let left = left_keys_vec();
        let middle = middle_keys_vec();
        let right = right_keys_vec();
        push_zone(&mut out, *self, &control);
        push_zone(&mut out, *self, &left);
        push_zone(&mut out, *self, &middle);
        if has_any_key(*self, &right) && !has_any_key(*self, &middle) {
            out.push('-');
        }
        push_zone(&mut out, *self, &right);
        proof {
            assert(out@ =~= format_mask(self.mask()));
        }
        out
    }

    /// The canonical text of the chord: keys strictly in zone order, a `-`
    /// inserted before the first right-bank key exactly when no middle key
    /// was emitted.
    pub fn format(&self) -> (r: String)
        ensures
            r@ == format_mask(self.mask()),
    {
        let out = self.format_chars();
        crate::text::chars_to_string(&out)
    }
}

/// Empty stroke text binds no key and is rejected.
pub proof fn lemma_empty_rejected()
    ensures
        parse_mask(Seq::<char>::empty()) == 0,
        !parse_accepts(Seq::<char>::empty()),
{
    let e = Seq::<char>::empty();
    assert(scan_zone(Zone::Control, e, 0u32) == (e, 0u32));
    assert(scan_zone(Zone::Left, e, 0u32) == (e, 0u32));
    assert(scan_zone(Zone::Middle, e, 0u32) == (e, 0u32));
    assert(scan_zone(Zone::Right, e, 0u32) == (e, 0u32));
}

/// Text that the four zones do not consume wholly — some character of it is
/// recognized by no remaining zone — is rejected, whatever keys it bound.
pub proof fn lemma_leftover_rejected(s: Seq<char>)
    requires
        parse_zones(s).0.len() != 0,
    ensures
        !parse_accepts(s),
{
}

/// A chord built from two keys contains each of them: the union of two keys,
/// looked at through `contains`, holds both.
pub proof fn lemma_union_contains(k1: Key, k2: Key, st: Stroke)
    requires
        st.mask() == key_mask(k1) | key_mask(k2),
    ensures
        st.has(k1),
        st.has(k2),
{
    lemma_key_bits_distinct();
    lemma_shift_facts(spec_key_bit(k1));
    lemma_shift_facts(spec_key_bit(k2));
    lemma_or_basics(key_mask(k1), key_mask(k2), key_mask(k1));
    lemma_or_basics(key_mask(k1), key_mask(k2), key_mask(k2));
}

} // verus!
