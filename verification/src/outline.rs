//! Outlines: ordered sequences of strokes, written as the strokes' canonical
//! texts joined by `/`.

use vstd::prelude::*;

use crate::stroke::{format_mask, parse_accepts, parse_mask, ParseError, Stroke};
use crate::text::{chars_to_string, copy_range, push_all, str_to_chars};

verus! {

/// An ordered sequence of strokes, one dictionary key.
#[derive(Clone, Debug, PartialEq)]
pub struct Outline(Vec<Stroke>);

impl Outline {
    /// The strokes of the outline, in order.
    pub closed spec fn strokes(self) -> Seq<Stroke> {
        self.0@
    }

    /// Every stroke keeps to the key bits.
    pub open spec fn wf(self) -> bool {
        forall|i: int| 0 <= i < self.strokes().len() ==> (#[trigger] self.strokes()[i]).wf()
    }
}

/// The index of the first `/` of `s`, or the length of `s` if it has none.
pub open spec fn find_slash(s: Seq<char>) -> int
    decreases s.len(),
{
    if s.len() == 0 {
        0
    } else if s[0] == '/' {
        0
    } else {
        1 + find_slash(s.drop_first())
    }
}

proof fn lemma_find_slash(s: Seq<char>)
    ensures
        0 <= find_slash(s) <= s.len(),
        find_slash(s) < s.len() ==> s[find_slash(s)] == '/',
        forall|j: int| 0 <= j < find_slash(s) ==> s[j] != '/',
    decreases s.len(),
{
    if s.len() > 0 && s[0] != '/' {
        lemma_find_slash(s.drop_first());
        assert forall|j: int| 0 <= j < find_slash(s) implies s[j] != '/' by {
            if j > 0 {
                assert(s.drop_first()[j - 1] == s[j]);
            }
        }
    }
}

/// The segments of `s` between its `/` separators, in order. Text without
/// a separator is one segment, even when it is empty.
pub open spec fn split_outline(s: Seq<char>) -> Seq<Seq<char>>
    decreases s.len(),
{
    let i = find_slash(s);
    if 0 <= i < s.len() {
        seq![s.subrange(0, i)] + split_outline(s.subrange(i + 1, s.len() as int))
    } else {
        seq![s]
    }
}

/// Outline text is accepted when each of its segments is an accepted stroke.
pub open spec fn outline_accepts(s: Seq<char>) -> bool {
    forall|i: int| 0 <= i < split_outline(s).len() ==> parse_accepts(#[trigger] split_outline(s)[i])
}

/// The canonical text of a sequence of strokes: their texts joined by `/`.
pub open spec fn outline_text(strokes: Seq<Stroke>) -> Seq<char>
    decreases strokes.len(),
{
    if strokes.len() == 0 {
        Seq::<char>::empty()
    } else if strokes.len() == 1 {
        format_mask(strokes[0].mask())
    } else {
        format_mask(strokes[0].mask()) + seq!['/'] + outline_text(strokes.drop_first())
    }
}

/// Joining one more stroke appends a separator (except to an empty outline)
/// and the stroke's text.
proof fn lemma_outline_text_snoc(ss: Seq<Stroke>, st: Stroke)
    ensures
        ss.len() == 0 ==> outline_text(ss.push(st)) == format_mask(st.mask()),
        ss.len() > 0 ==> outline_text(ss.push(st)) == outline_text(ss) + seq!['/'] + format_mask(
            st.mask(),
        ),
    decreases ss.len(),
{
    if ss.len() == 0 {
        assert(ss.push(st)[0] == st);
    } else {
        lemma_outline_text_snoc(ss.drop_first(), st);
        assert(ss.push(st).drop_first() =~= ss.drop_first().push(st));
        assert(ss.push(st)[0] == ss[0]);
        assert(outline_text(ss.push(st)) =~= outline_text(ss) + seq!['/'] + format_mask(
            st.mask(),
        ));
    }
}

/// Splitting at a first `/` takes the text before it as one segment and
/// splits the rest.
proof fn lemma_split_step(s: Seq<char>, i: int)
    requires
        0 <= i < s.len(),
        s[i] == '/',
        forall|j: int| 0 <= j < i ==> s[j] != '/',
    ensures
        split_outline(s) == seq![s.subrange(0, i)] + split_outline(
            s.subrange(i + 1, s.len() as int),
        ),
{
    lemma_find_slash(s);
    let f = find_slash(s);
    if f < i {
        assert(s[f] == '/');
        assert(false);
    }
    if f > i {
        assert(s[i] != '/');
        assert(false);
    }
}

/// Text without a `/` is a single segment.
proof fn lemma_split_whole(s: Seq<char>)
    requires
        forall|j: int| 0 <= j < s.len() ==> s[j] != '/',
    ensures
        split_outline(s) == seq![s],
{
    lemma_find_slash(s);
    if find_slash(s) < s.len() {
        assert(false);
    }
}

impl Outline {
    /// Parse outline text: split on `/`, parse every segment as a stroke,
    /// and fail on the first segment that is rejected.
    pub fn parse(outline: &str) -> (r: Result<Outline, ParseError>)
        ensures
            r is Ok <==> outline_accepts(outline@),
            r matches Ok(o) ==> {
                &&& o.strokes().len() == split_outline(outline@).len()
                &&& forall|i: int|
                    0 <= i < o.strokes().len() ==> (#[trigger] o.strokes()[i]).mask() == parse_mask(
                        split_outline(outline@)[i],
                    )
                &&& o.wf()
            },
            r matches Err(e) ==> e == ParseError::EmptyStroke,
    {
        let v = str_to_chars(outline);
        let ghost splits = split_outline(v@);
        let mut strokes: Vec<Stroke> = Vec::new();
        let mut start: usize = 0;
        let mut i: usize = 0;
        proof {
            assert(v@.skip(0) =~= v@);
        }
        loop
            invariant_except_break
                strokes@.len() < splits.len(),
                split_outline(v@.skip(start as int)) =~= splits.skip(strokes@.len() as int),
            invariant
                start <= i <= v@.len(),
                v@ == outline@,
                splits == split_outline(v@),
                forall|j: int| start <= j < i ==> v@[j] != '/',
                forall|j: int|
                    0 <= j < strokes@.len() ==> parse_accepts(#[trigger] splits[j]) && strokes@[
                        j].mask() == parse_mask(splits[j]) && strokes@[j].wf(),
            ensures
                strokes@.len() == splits.len(),
                forall|j: int|
                    0 <= j < strokes@.len() ==> parse_accepts(#[trigger] splits[j]) && strokes@[
                        j].mask() == parse_mask(splits[j]) && strokes@[j].wf(),
            decreases v@.len() + 1 - i,
        {
            if i == v.len() || v[i] == '/' {
                let seg = copy_range(&v, start, i);
                let ghost rest = v@.skip(start as int);
                proof {
                    let n = strokes@.len() as int;
                    assert forall|j: int| 0 <= j < i - start implies rest[j] != '/' by {
                        assert(rest[j] == v@[start + j]);
                    }
                    if i < v@.len() {
                        assert(rest[i - start] == v@[i as int]);
                        lemma_split_step(rest, i - start);
                        assert(rest.subrange(0, i - start) =~= v@.subrange(
                            start as int,
                            i as int,
                        ));
                        assert(rest.subrange(i - start + 1, rest.len() as int) =~= v@.skip(
                            i as int + 1,
                        ));
                        assert(splits.skip(n)[0] == splits[n]);
                        assert(splits.skip(n).drop_first() =~= splits.skip(n + 1));
                        assert(seq![rest.subrange(0, i - start)] + split_outline(
                            rest.subrange(i - start + 1, rest.len() as int),
                        ) == splits.skip(n));
                        assert(splits[n] == v@.subrange(start as int, i as int));
                        assert(split_outline(v@.skip(i as int + 1)) =~= splits.skip(n + 1));
                    } else {
                        assert(rest.len() == i - start);
                        lemma_split_whole(rest);
                        assert(rest =~= v@.subrange(start as int, i as int));
                        assert(splits.skip(n) =~= seq![rest]);
                        assert(splits.skip(n)[0] == splits[n]);
                        assert(splits[n] == v@.subrange(start as int, i as int));
                        assert(splits.len() == n + 1);
                    }
                }
                let st = match Stroke::parse_chars(&seg) {
                    Ok(st) => st,
                    Err(e) => {
                        proof {
                            let n = strokes@.len() as int;
                            assert(0 <= n < split_outline(v@).len());
                            assert(!parse_accepts(split_outline(v@)[n]));
                            assert(!outline_accepts(v@));
                        }
                        return Err(e);
                    },
                };
                strokes.push(st);
                if i == v.len() {
                    break;
                }
                start = i + 1;
            }
            i = i + 1;
        }
        let result = Outline(strokes);
        proof {
            assert(result.strokes() == strokes@);
            assert forall|j: int| 0 <= j < split_outline(outline@).len() implies parse_accepts(
                #[trigger] split_outline(outline@)[j],
            ) by {
                assert(parse_accepts(splits[j]));
            }
            assert(outline_accepts(outline@));
            assert forall|j: int| 0 <= j < result.strokes().len() implies (#[trigger] result
                .strokes()[j]).mask() == parse_mask(split_outline(outline@)[j]) && result.strokes()[
                j].wf() by {
                assert(strokes@[j].mask() == parse_mask(splits[j]));
                assert(strokes@[j].wf());
            }
        }
        Ok(result)
    }

    /// The canonical text of the outline: the strokes' texts joined by `/`.
    pub fn format(&self) -> (r: String)
        ensures
            r@ == outline_text(self.strokes()),
    {
        let mut out: Vec<char> = Vec::new();
        let mut i: usize = 0;
        while i < self.0.len()
            invariant
                i <= self.0@.len(),
                out@ == outline_text(self.0@.take(i as int)),
            decreases self.0@.len() - i,
        {
            if i > 0 {
                out.push('/');
            }
            let cs = self.0[i].format_chars();
            push_all(&mut out, &cs);
            proof {
                lemma_outline_text_snoc(self.0@.take(i as int), self.0@[i as int]);
                assert(self.0@.take(i as int).push(self.0@[i as int]) =~= self.0@.take(
                    i as int + 1,
                ));
                assert(out@ =~= outline_text(self.0@.take(i as int + 1)));
            }
            i = i + 1;
        }
        proof {
            assert(self.0@.take(self.0@.len() as int) =~= self.0@);
        }
        chars_to_string(&out)
    }

    /// The outline extended by one more stroke, as the device emits them.
    pub fn join(self, stroke: Stroke) -> (r: Outline)
        ensures
            r.strokes() == self.strokes().push(stroke),
    {
        let Outline(mut strokes) = self;
        strokes.push(stroke);
        Outline(strokes)
    }
}

impl Stroke {
    /// The two-stroke outline of `self` followed by `stroke`.
    pub fn join(self, stroke: Stroke) -> (r: Outline)
        ensures
            r.strokes() == seq![self, stroke],
    {
        let mut strokes: Vec<Stroke> = Vec::new();
        strokes.push(self);
        strokes.push(stroke);
        proof {
            assert(strokes@ =~= seq![self, stroke]);
        }
        Outline(strokes)
    }
}

impl Outline {
    /// The one-stroke outline.
    pub fn from_stroke(stroke: Stroke) -> (r: Outline)
        ensures
            r.strokes() == seq![stroke],
    {
        let mut strokes: Vec<Stroke> = Vec::new();
        strokes.push(stroke);
        proof {
            assert(strokes@ =~= seq![stroke]);
        }
        Outline(strokes)
    }
}

} // verus!
