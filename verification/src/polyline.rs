//! Piecewise-constant segments rendered as a polyline with gaps.
//!
//! Each segment contributes three points: its level at the first covered position,
//! its level at the last covered position, and a NaN ordinate at that same last
//! position, which makes a line plot lift the pen before the next segment.
//!
//! Ordinates are carried as IEEE-754 binary64 bit patterns (`f64::to_bits` on the
//! way in, `f64::from_bits` on the way out), so that levels pass through untouched.

use vstd::prelude::*;

verus! {

/// Bit pattern of the quiet NaN that separates two segments of a polyline.
pub const NAN_BITS: u64 = 0x7ff8_0000_0000_0000;

/// Whether `bits` encodes an IEEE-754 binary64 NaN: all exponent bits set and a
/// non-zero significand.
pub open spec fn is_nan_bits(bits: u64) -> bool {
    (bits & 0x7ff0_0000_0000_0000) == 0x7ff0_0000_0000_0000 && (bits & 0x000f_ffff_ffff_ffff) != 0
}

/// Tells whether `bits` encodes a NaN, that is, whether a line plot breaks at an
/// ordinate with this bit pattern.
pub fn is_nan(bits: u64) -> (nan: bool)
    ensures
        nan == is_nan_bits(bits),
{
    (bits & 0x7ff0_0000_0000_0000) == 0x7ff0_0000_0000_0000 && (bits & 0x000f_ffff_ffff_ffff) != 0
}

/// A half-open interval `[start, end)` of position indices together with the level
/// that holds on it.
#[derive(Clone, Copy, Debug, PartialEq, Eq)]
pub struct Segment {
    /// Index of the first covered position.
    pub start: usize,
    /// One past the index of the last covered position.
    pub end: usize,
    /// The level on the interval, as the bit pattern of an `f64`.
    pub value: u64,
}

impl Segment {
    /// The interval is non-empty and lies within `len` positions.
    pub open spec fn fits(self, len: nat) -> bool {
        self.start < self.end && self.end <= len
    }
}

/// Every segment is non-empty and lies within `len` positions.
pub open spec fn all_fit(segments: Seq<Segment>, len: nat) -> bool {
    forall|i: int| 0 <= i < segments.len() ==> (#[trigger] segments[i]).fits(len)
}

/// The three abscissae that one segment contributes.
pub open spec fn segment_xs(segment: Segment, positions: Seq<u32>) -> Seq<u32> {
    seq![
        positions[segment.start as int],
        positions[segment.end - 1],
        positions[segment.end - 1],
    ]
}

/// The three ordinates that one segment contributes.
pub open spec fn segment_ys(segment: Segment) -> Seq<u64> {
    seq![segment.value, segment.value, NAN_BITS]
}

/// Abscissae of the whole polyline: the contributions of the segments, in order.
pub open spec fn polyline_xs(segments: Seq<Segment>, positions: Seq<u32>) -> Seq<u32>
    decreases segments.len(),
{
    if segments.len() == 0 {
        Seq::empty()
    } else {
        polyline_xs(segments.drop_last(), positions) + segment_xs(segments.last(), positions)
    }
}

/// Ordinates of the whole polyline: the contributions of the segments, in order.
pub open spec fn polyline_ys(segments: Seq<Segment>) -> Seq<u64>
    decreases segments.len(),
{
    if segments.len() == 0 {
        Seq::empty()
    } else {
        polyline_ys(segments.drop_last()) + segment_ys(segments.last())
    }
}

/// Points `3 * i` to `3 * i + 2` of `(xs, ys)` draw segment `i`: its level from the
/// position at its start to the position at its last covered index, then a gap.
pub open spec fn draws_segment(
    xs: Seq<u32>,
    ys: Seq<u64>,
    segments: Seq<Segment>,
    positions: Seq<u32>,
    i: int,
) -> bool {
    &&& xs[3 * i] == positions[segments[i].start as int]
    &&& xs[3 * i + 1] == positions[segments[i].end - 1]
    &&& xs[3 * i + 2] == positions[segments[i].end - 1]
    &&& ys[3 * i] == segments[i].value
    &&& ys[3 * i + 1] == segments[i].value
    &&& is_nan_bits(ys[3 * i + 2])
}

/// The separator really is a NaN.
pub proof fn lemma_nan_bits_is_nan()
    ensures
        is_nan_bits(NAN_BITS),
{
    assert(is_nan_bits(0x7ff8_0000_0000_0000u64)) by (bit_vector);
}

/// A polyline has three points per segment, in both coordinates; in particular no
/// segments give no points.
pub proof fn lemma_polyline_len(segments: Seq<Segment>, positions: Seq<u32>)
    ensures
        polyline_xs(segments, positions).len() == 3 * segments.len(),
        polyline_ys(segments).len() == 3 * segments.len(),
        segments.len() == 0 ==> polyline_xs(segments, positions) == Seq::<u32>::empty()
            && polyline_ys(segments) == Seq::<u64>::empty(),
    decreases segments.len(),
{
    if segments.len() > 0 {
        lemma_polyline_len(segments.drop_last(), positions);
    }
}

/// The abscissae of segment `i` are the position at its start, then twice the position
/// at its last covered index.
pub proof fn lemma_polyline_xs_at(segments: Seq<Segment>, positions: Seq<u32>, i: int)
    requires
        0 <= i < segments.len(),
    ensures
        polyline_xs(segments, positions)[3 * i] == positions[segments[i].start as int],
        polyline_xs(segments, positions)[3 * i + 1] == positions[segments[i].end - 1],
        polyline_xs(segments, positions)[3 * i + 2] == positions[segments[i].end - 1],
    decreases segments.len(),
{
    let front = segments.drop_last();
    lemma_polyline_len(front, positions);
    if i < front.len() {
        lemma_polyline_xs_at(front, positions, i);
    }
}

/// The ordinates of segment `i` are twice its level, then a NaN.
pub proof fn lemma_polyline_ys_at(segments: Seq<Segment>, i: int)
    requires
        0 <= i < segments.len(),
    ensures
        polyline_ys(segments)[3 * i] == segments[i].value,
        polyline_ys(segments)[3 * i + 1] == segments[i].value,
        polyline_ys(segments)[3 * i + 2] == NAN_BITS,
        is_nan_bits(polyline_ys(segments)[3 * i + 2]),
    decreases segments.len(),
{
    let front = segments.drop_last();
    lemma_polyline_len(front, Seq::empty());
    lemma_nan_bits_is_nan();
    if i < front.len() {
        lemma_polyline_ys_at(front, i);
    }
}

/// `itertools::repeat_n`, collected: `n` items, each a clone of `element` (the crate
/// clones for all but the last item, which is `element` itself).
#[verifier::external_body]
fn repeat_n<A: Clone>(element: A, n: usize) -> (items: Vec<A>)
    ensures
        items@.len() == n,
        forall|i: int| 0 <= i < n ==> cloned(element, #[trigger] items@[i]),
{
    itertools::repeat_n(element, n).collect()
}

/// A segment that does not address valid positions.
#[derive(Clone, Copy, Debug, PartialEq, Eq)]
pub struct IndexError {
    /// Index of the offending segment in the segment list.
    pub segment: usize,
    /// The segment's `start`.
    pub start: usize,
    /// The segment's `end`.
    pub end: usize,
    /// Number of positions that were supplied.
    pub len: usize,
}

impl IndexError {
    /// The error that reports segment `i` of `segments` against `len` positions.
    pub open spec fn reports(self, segments: Seq<Segment>, len: nat, i: int) -> bool {
        &&& self.segment == i
        &&& self.start == segments[i].start
        &&& self.end == segments[i].end
        &&& self.len == len
    }
}

/// Segment `i` is the first one that is empty or reaches outside `len` positions.
pub open spec fn is_first_misfit(segments: Seq<Segment>, len: nat, i: int) -> bool {
    &&& 0 <= i < segments.len()
    &&& !segments[i].fits(len)
    &&& forall|j: int| 0 <= j < i ==> (#[trigger] segments[j]).fits(len)
}

/// The abscissae of a polyline that have not been taken yet, computed on demand.
///
/// Copying the value gives an independent sequence that resumes at the same point.
#[derive(Clone, Copy, Debug)]
pub struct PolylineXs<'a> {
    segments: &'a [Segment],
    positions: &'a [u32],
    /// Segments before this index have given all their points.
    segment: usize,
    /// Points that segment `segment` has already given.
    point: u8,
}

impl<'a> View for PolylineXs<'a> {
    type V = Seq<u32>;

    closed spec fn view(&self) -> Seq<u32> {
        polyline_xs(self.segments@, self.positions@).skip(3 * self.segment + self.point)
    }
}

impl<'a> PolylineXs<'a> {
    #[verifier::type_invariant]
    spec fn inv(self) -> bool {
        &&& all_fit(self.segments@, self.positions@.len())
        &&& self.segment <= self.segments@.len()
        &&& self.point < 3
        &&& self.segment == self.segments@.len() ==> self.point == 0
    }

    /// Takes the next abscissa, if any is left.
    pub fn next(&mut self) -> (item: Option<u32>)
        ensures
            old(self)@.len() == 0 ==> item.is_none() && final(self)@ == old(self)@,
            old(self)@.len() > 0 ==> item == Some(old(self)@[0]) && final(self)@ == old(
                self,
            )@.skip(1),
    {
        proof {
            use_type_invariant(&*self);
            lemma_polyline_len(self.segments@, self.positions@);
        }
        if self.segment >= self.segments.len() {
            return None;
        }
        proof {
            lemma_polyline_xs_at(self.segments@, self.positions@, self.segment as int);
        }
        let current = self.segments[self.segment];
        let x = if self.point == 0 {
            self.positions[current.start]
        } else {
            self.positions[current.end - 1]
        };
        let ghost before = self@;
        if self.point == 2 {
            *self = PolylineXs {
                segments: self.segments,
                positions: self.positions,
                segment: self.segment + 1,
                point: 0,
            };
        } else {
            *self = PolylineXs {
                segments: self.segments,
                positions: self.positions,
                segment: self.segment,
                point: self.point + 1,
            };
        }
        assert(self@ =~= before.skip(1));
        Some(x)
    }

    /// Collects the abscissae that are left, without consuming them.
    pub fn to_vec(&self) -> (items: Vec<u32>)
        ensures
            items@ == self@,
    {
        proof {
            use_type_invariant(self);
            lemma_polyline_len(self.segments@, self.positions@);
        }
        let ghost all = polyline_xs(self.segments@, self.positions@);
        let ghost from = 3 * self.segment + self.point;
        let mut items: Vec<u32> = Vec::new();
        let mut i: usize = self.segment;
        if self.point != 0 {
            // What is left of a segment under way is its closing position only.
            let current = self.segments[i];
            let mut closing = repeat_n(self.positions[current.end - 1], (3 - self.point) as usize);
            proof {
                lemma_polyline_xs_at(self.segments@, self.positions@, i as int);
                assert(closing@ =~= all.subrange(from, 3 * i + 3));
            }
            items.append(&mut closing);
            i = i + 1;
        }
        while i < self.segments.len()
            invariant
                all == polyline_xs(self.segments@, self.positions@),
                all.len() == 3 * self.segments@.len(),
                all_fit(self.segments@, self.positions@.len()),
                0 <= from <= 3 * i <= all.len(),
                items@ == all.subrange(from, 3 * i),
            decreases self.segments.len() - i,
        {
            let current = self.segments[i];
            let mut closing = repeat_n(self.positions[current.end - 1], 2);
            proof {
                lemma_polyline_xs_at(self.segments@, self.positions@, i as int);
                assert(items@.push(self.positions@[current.start as int]) + closing@ =~= all.subrange(
                    from,
                    3 * i + 3,
                ));
            }
            items.push(self.positions[current.start]);
            items.append(&mut closing);
            i = i + 1;
        }
        assert(items@ =~= self@);
        items
    }
}

/// The ordinates of a polyline that have not been taken yet, computed on demand.
///
/// Copying the value gives an independent sequence that resumes at the same point.
#[derive(Clone, Copy, Debug)]
pub struct PolylineYs<'a> {
    segments: &'a [Segment],
    /// Segments before this index have given all their points.
    segment: usize,
    /// Points that segment `segment` has already given.
    point: u8,
}

impl<'a> View for PolylineYs<'a> {
    type V = Seq<u64>;

    closed spec fn view(&self) -> Seq<u64> {
        polyline_ys(self.segments@).skip(3 * self.segment + self.point)
    }
}

impl<'a> PolylineYs<'a> {
    #[verifier::type_invariant]
    spec fn inv(self) -> bool {
        &&& self.segment <= self.segments@.len()
        &&& self.point < 3
        &&& self.segment == self.segments@.len() ==> self.point == 0
    }

    /// Takes the next ordinate, if any is left.
    pub fn next(&mut self) -> (item: Option<u64>)
        ensures
            old(self)@.len() == 0 ==> item.is_none() && final(self)@ == old(self)@,
            old(self)@.len() > 0 ==> item == Some(old(self)@[0]) && final(self)@ == old(
                self,
            )@.skip(1),
    {
        proof {
            use_type_invariant(&*self);
            lemma_polyline_len(self.segments@, Seq::empty());
        }
        if self.segment >= self.segments.len() {
            return None;
        }
        proof {
            lemma_polyline_ys_at(self.segments@, self.segment as int);
        }
        let y = if self.point == 2 {
            NAN_BITS
        } else {
            self.segments[self.segment].value
        };
        let ghost before = self@;
        if self.point == 2 {
            *self = PolylineYs { segments: self.segments, segment: self.segment + 1, point: 0 };
        } else {
            *self = PolylineYs {
                segments: self.segments,
                segment: self.segment,
                point: self.point + 1,
            };
        }
        assert(self@ =~= before.skip(1));
        Some(y)
    }

    /// Collects the ordinates that are left, without consuming them.
    pub fn to_vec(&self) -> (items: Vec<u64>)
        ensures
            items@ == self@,
    {
        proof {
            use_type_invariant(self);
            lemma_polyline_len(self.segments@, Seq::empty());
        }
        let ghost all = polyline_ys(self.segments@);
        let ghost from = 3 * self.segment + self.point;
        let mut items: Vec<u64> = Vec::new();
        let mut i: usize = self.segment;
        if self.point != 0 {
            // What is left of a segment under way ends with the separator.
            let mut level = repeat_n(self.segments[i].value, (2 - self.point) as usize);
            proof {
                lemma_polyline_ys_at(self.segments@, i as int);
                assert(level@.push(NAN_BITS) =~= all.subrange(from, 3 * i + 3));
            }
            items.append(&mut level);
            items.push(NAN_BITS);
            i = i + 1;
        }
        while i < self.segments.len()
            invariant
                all == polyline_ys(self.segments@),
                all.len() == 3 * self.segments@.len(),
                0 <= from <= 3 * i <= all.len(),
                items@ == all.subrange(from, 3 * i),
            decreases self.segments.len() - i,
        {
            let mut level = repeat_n(self.segments[i].value, 2);
            proof {
                lemma_polyline_ys_at(self.segments@, i as int);
                assert((items@ + level@).push(NAN_BITS) =~= all.subrange(from, 3 * i + 3));
            }
            items.append(&mut level);
            items.push(NAN_BITS);
            i = i + 1;
        }
        assert(items@ =~= self@);
        items
    }
}

/// Turns `segments` over `positions` into the two coordinate sequences of a polyline
/// with gaps.
///
/// Every segment must be non-empty and lie within `positions`; otherwise the first
/// segment that does not is reported and no point is produced.
pub fn segments_to_points<'a>(segments: &'a [Segment], positions: &'a [u32]) -> (result: Result<
    (PolylineXs<'a>, PolylineYs<'a>),
    IndexError,
>)
    ensures
        result.is_ok() <==> all_fit(segments@, positions@.len()),
        result matches Ok((xs, ys)) ==> xs@ == polyline_xs(segments@, positions@) && ys@
            == polyline_ys(segments@),
        result matches Ok((xs, ys)) ==> xs@.len() == 3 * segments@.len() && ys@.len() == 3
            * segments@.len(),
        result matches Ok((xs, ys)) ==> forall|i: int|
            0 <= i < segments@.len() ==> #[trigger] draws_segment(
                xs@,
                ys@,
                segments@,
                positions@,
                i,
            ),
        result matches Err(e) ==> is_first_misfit(segments@, positions@.len(), e.segment as int)
            && e.reports(segments@, positions@.len(), e.segment as int),
{
    let mut i: usize = 0;
    while i < segments.len()
        invariant
            i <= segments.len(),
            forall|j: int| 0 <= j < i ==> (#[trigger] segments@[j]).fits(positions@.len()),
        decreases segments.len() - i,
    {
        let current = segments[i];
        if current.start >= current.end || current.end > positions.len() {
            return Err(
                IndexError {
                    segment: i,
                    start: current.start,
                    end: current.end,
                    len: positions.len(),
                },
            );
        }
        i = i + 1;
    }
    proof {
        lemma_polyline_len(segments@, positions@);
        assert forall|i: int| 0 <= i < segments@.len() implies #[trigger] draws_segment(
            polyline_xs(segments@, positions@),
            polyline_ys(segments@),
            segments@,
            positions@,
            i,
        ) by {
            lemma_polyline_xs_at(segments@, positions@, i);
            lemma_polyline_ys_at(segments@, i);
        }
    }
    let xs = PolylineXs { segments, positions, segment: 0, point: 0 };
    let ys = PolylineYs { segments, segment: 0, point: 0 };
    assert(xs@ =~= polyline_xs(segments@, positions@));
    assert(ys@ =~= polyline_ys(segments@));
    Ok((xs, ys))
}

/// What `segments_to_points` returns on success, as plain sequences.
pub open spec fn is_polyline(
    segments: Seq<Segment>,
    positions: Seq<u32>,
    points: (Seq<u32>, Seq<u64>),
) -> bool {
    points.0 == polyline_xs(segments, positions) && points.1 == polyline_ys(segments)
}

/// Transforming the same input twice gives the same polyline: the same abscissae, and
/// ordinates that agree point by point, a NaN in one being a NaN in the other.
pub proof fn lemma_transform_repeatable(
    segments: Seq<Segment>,
    positions: Seq<u32>,
    first: (Seq<u32>, Seq<u64>),
    second: (Seq<u32>, Seq<u64>),
)
    requires
        is_polyline(segments, positions, first),
        is_polyline(segments, positions, second),
    ensures
        first.0 == second.0,
        first.1.len() == second.1.len(),
        forall|k: int|
            0 <= k < first.1.len() ==> (is_nan_bits(#[trigger] first.1[k]) <==> is_nan_bits(
                second.1[k],
            )),
        forall|k: int|
            0 <= k < first.1.len() && !is_nan_bits(#[trigger] first.1[k]) ==> first.1[k]
                == second.1[k],
{
}

} // verus!
