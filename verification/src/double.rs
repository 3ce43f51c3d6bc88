//! Double-precision numbers by their bit patterns.
//!
//! The geometry of a page is measured in IEEE 754 doubles. Only their order
//! matters here, and the bit pattern alone decides that.
use vstd::prelude::*;

verus! {

/// The pattern of negative zero: the sign bit.
pub const SIGN: u64 = 0x8000_0000_0000_0000;

/// The pattern of positive infinity. A larger magnitude is no number.
pub const INFINITY: u64 = 0x7ff0_0000_0000_0000;

/// The pattern of 1.0.
pub const ONE: u64 = 0x3ff0_0000_0000_0000;

/// A double, held as `f64::to_bits` gives it.
#[derive(Debug, Clone, Copy)]
pub struct Double {
    pub bits: u64,
}

/// Doubles are equal as numbers: both zeros are the same, and a pattern for no
/// number does not even equal itself.
impl PartialEq for Double {
    fn eq(&self, other: &Double) -> (r: bool) {
        self.equals(*other)
    }
}

impl vstd::std_specs::cmp::PartialEqSpecImpl for Double {
    open spec fn obeys_eq_spec() -> bool {
        true
    }

    open spec fn eq_spec(&self, other: &Double) -> bool {
        self.same(*other)
    }
}

impl Double {
    /// Whether the pattern stands for no number.
    pub open spec fn is_nan(self) -> bool {
        self.bits % SIGN > INFINITY
    }

    /// A number that orders the patterns as the doubles they stand for:
    /// both zeros have rank 0.
    pub open spec fn rank(self) -> int {
        if self.bits >= SIGN {
            SIGN - self.bits
        } else {
            self.bits as int
        }
    }

    /// `self < other`, which never holds of a pattern for no number.
    pub open spec fn lt(self, other: Double) -> bool {
        !self.is_nan() && !other.is_nan() && self.rank() < other.rank()
    }

    /// `self <= other`, which never holds of a pattern for no number.
    pub open spec fn le(self, other: Double) -> bool {
        !self.is_nan() && !other.is_nan() && self.rank() <= other.rank()
    }

    /// `self == other`, which never holds of a pattern for no number.
    pub open spec fn same(self, other: Double) -> bool {
        !self.is_nan() && !other.is_nan() && self.rank() == other.rank()
    }

    /// Whether the pattern stands for no number.
    pub fn nan(self) -> (r: bool)
        ensures
            r == self.is_nan(),
    {
        self.bits % SIGN > INFINITY
    }

    /// The rank of the pattern.
    pub fn place(self) -> (r: i64)
        ensures
            r == self.rank(),
    {
        if self.bits >= SIGN {
            -((self.bits - SIGN) as i64)
        } else {
            self.bits as i64
        }
    }

    /// Whether `self < other`.
    pub fn before(self, other: Double) -> (r: bool)
        ensures
            r == self.lt(other),
    {
        !self.nan() && !other.nan() && self.place() < other.place()
    }

    /// Whether `self <= other`.
    pub fn at_most(self, other: Double) -> (r: bool)
        ensures
            r == self.le(other),
    {
        !self.nan() && !other.nan() && self.place() <= other.place()
    }

    /// Whether `self == other`.
    pub fn equals(self, other: Double) -> (r: bool)
        ensures
            r == self.same(other),
    {
        !self.nan() && !other.nan() && self.place() == other.place()
    }
}

/// Where a scrolled view may go: `target`, but neither before `lower` nor
/// past `end`, where `end` counts for no less than `lower`.
pub open spec fn held(target: Double, lower: Double, end: Double) -> Double {
    let most = if lower.lt(end) {
        end
    } else {
        lower
    };
    if target.lt(lower) {
        lower
    } else if most.lt(target) {
        most
    } else {
        target
    }
}

/// The scroll position for `target`: held between `lower` and `end`. A
/// document shorter than the view has `end` below `lower`; it stays at
/// `lower`.
pub fn scroll_target(target: Double, lower: Double, end: Double) -> (r: Double)
    requires
        !lower.is_nan(),
    ensures
        r == held(target, lower, end),
        !target.is_nan() ==> lower.le(r),
        !target.is_nan() && lower.le(end) ==> r.le(end),
        lower.le(target) && target.le(end) ==> r == target,
{
    let most = if lower.before(end) {
        end
    } else {
        lower
    };
    if target.before(lower) {
        lower
    } else if most.before(target) {
        most
    } else {
        target
    }
}

/// Where a list goes so that a row shows: to the upper edge of a row above the
/// view, to `aligned` for one below, and nowhere for one that shows.
pub open spec fn revealed(
    top: Double,
    bottom: Double,
    value: Double,
    view_end: Double,
    aligned: Double,
    lower: Double,
    end: Double,
) -> Double {
    let target = if top.lt(value) {
        top
    } else if view_end.lt(bottom) {
        aligned
    } else {
        value
    };
    held(target, lower, end)
}

/// Where a list is scrolled to so that a row shows. `top` and `bottom` are the
/// edges of the row, `value` and `view_end` those of what shows now, and
/// `aligned` is the position that puts the row at the bottom of the view.
pub fn reveal_target(
    top: Double,
    bottom: Double,
    value: Double,
    view_end: Double,
    aligned: Double,
    lower: Double,
    end: Double,
) -> (r: Double)
    requires
        !lower.is_nan(),
    ensures
        r == revealed(top, bottom, value, view_end, aligned, lower, end),
        r == held(
            if top.lt(value) {
                top
            } else if view_end.lt(bottom) {
                aligned
            } else {
                value
            },
            lower,
            end,
        ),
{
    let target = if top.before(value) {
        top
    } else if view_end.before(bottom) {
        aligned
    } else {
        value
    };
    scroll_target(target, lower, end)
}

/// Every pattern for a number is comparable with every other, and the order
/// is a total one: patterns that are ordered both ways are equal numbers.
pub proof fn law_order_is_total(a: Double, b: Double, c: Double)
    requires
        !a.is_nan(),
        !b.is_nan(),
        !c.is_nan(),
    ensures
        a.le(b) || b.le(a),
        a.le(b) && b.le(a) ==> a.same(b),
        a.le(b) && b.le(c) ==> a.le(c),
        a.lt(b) <==> a.le(b) && !a.same(b),
{
}

/// A pattern for no number is neither before, after nor equal to any.
pub proof fn law_nan_is_unordered(a: Double, b: Double)
    requires
        a.is_nan(),
    ensures
        !a.le(b),
        !b.le(a),
        !a.same(b),
        !a.same(a),
{
}

/// Whether a page that starts at `start` comes before the edge: below it, or,
/// with `closed`, not past it.
pub open spec fn starts_before(start: Double, edge: Double, closed: bool) -> bool {
    if closed {
        start.le(edge)
    } else {
        start.lt(edge)
    }
}

/// How many of `starts` come before the edge, up to the first that does not.
pub open spec fn lead(starts: Seq<Double>, edge: Double, closed: bool) -> int
    decreases starts.len(),
{
    if starts.len() == 0 || !starts_before(starts[0], edge, closed) {
        0
    } else {
        1 + lead(starts.skip(1), edge, closed)
    }
}

pub proof fn lemma_lead(starts: Seq<Double>, edge: Double, closed: bool)
    ensures
        0 <= lead(starts, edge, closed) <= starts.len(),
        forall|i: int|
            0 <= i < lead(starts, edge, closed) ==> starts_before(
                #[trigger] starts[i],
                edge,
                closed,
            ),
        lead(starts, edge, closed) < starts.len() ==> !starts_before(
            starts[lead(starts, edge, closed)],
            edge,
            closed,
        ),
    decreases starts.len(),
{
    if starts.len() > 0 && starts_before(starts[0], edge, closed) {
        lemma_lead(starts.skip(1), edge, closed);
        assert forall|i: int| 0 <= i < lead(starts, edge, closed) implies starts_before(
            #[trigger] starts[i],
            edge,
            closed,
        ) by {
            if i > 0 {
                assert(starts[i] == starts.skip(1)[i - 1]);
            }
        }
    }
}

/// How many of `starts`, the offsets of the pages from top to bottom, come
/// before the edge.
pub fn count_before(starts: &[Double], edge: Double, closed: bool) -> (r: usize)
    ensures
        r == lead(starts@, edge, closed),
        r <= starts@.len(),
{
    let mut i: usize = 0;
    assert(starts@.skip(0) =~= starts@);
    while i < starts.len()
        invariant
            i <= starts@.len(),
            lead(starts@, edge, closed) == i + lead(starts@.skip(i as int), edge, closed),
        decreases starts@.len() - i,
    {
        assert(starts@.skip(i as int)[0] == starts@[i as int]);
        assert(starts@.skip(i as int).skip(1) =~= starts@.skip(i + 1));
        let start = starts[i];
        let inside = if closed {
            start.at_most(edge)
        } else {
            start.before(edge)
        };
        if !inside {
            return i;
        }
        i += 1;
    }
    i
}

/// Of pages in ascending order, those counted are all that come before the
/// edge.
pub proof fn law_count_splits_the_pages(starts: Seq<Double>, edge: Double, closed: bool)
    requires
        forall|i: int, j: int| 0 <= i < j < starts.len() ==> starts[i].le(starts[j]),
    ensures
        forall|i: int|
            0 <= i < starts.len() ==> (starts_before(#[trigger] starts[i], edge, closed) <==> i
                < lead(starts, edge, closed)),
{
    lemma_lead(starts, edge, closed);
    let n = lead(starts, edge, closed);
    assert forall|i: int| n <= i < starts.len() implies !starts_before(
        #[trigger] starts[i],
        edge,
        closed,
    ) by {
        if n < i {
            assert(starts[n].le(starts[i]));
        }
    }
}

/// The lesser of two doubles; a pattern for no number does not count.
pub open spec fn least(a: Double, b: Double) -> Double {
    if a.is_nan() || b.lt(a) {
        b
    } else {
        a
    }
}

/// The greater of two doubles; a pattern for no number does not count.
pub open spec fn greatest(a: Double, b: Double) -> Double {
    if a.is_nan() || a.lt(b) {
        b
    } else {
        a
    }
}

/// The lesser of two doubles.
pub fn lesser(a: Double, b: Double) -> (r: Double)
    ensures
        r == least(a, b),
{
    if a.nan() || b.before(a) {
        b
    } else {
        a
    }
}

/// The greater of two doubles.
pub fn greater(a: Double, b: Double) -> (r: Double)
    ensures
        r == greatest(a, b),
{
    if a.nan() || a.before(b) {
        b
    } else {
        a
    }
}

/// The greatest of 1 and the widths.
pub open spec fn widest(widths: Seq<Double>) -> Double
    decreases widths.len(),
{
    if widths.len() == 0 {
        Double { bits: ONE }
    } else {
        greatest(widest(widths.drop_last()), widths.last())
    }
}

/// The width that a document is fitted by: that of its widest page, but 1 at
/// least.
pub fn widest_page(widths: &[Double]) -> (r: Double)
    ensures
        r == widest(widths@),
{
    let mut most = Double { bits: ONE };
    let mut i: usize = 0;
    assert(widths@.take(0) =~= Seq::empty());
    while i < widths.len()
        invariant
            i <= widths@.len(),
            most == widest(widths@.take(i as int)),
        decreases widths@.len() - i,
    {
        assert(widths@.take(i + 1).drop_last() =~= widths@.take(i as int));
        most = greater(most, widths[i]);
        i += 1;
    }
    assert(widths@.take(i as int) =~= widths@);
    most
}

/// No page is wider than the width that the document is fitted by, and that
/// is 1 at least.
pub proof fn law_no_page_is_wider(widths: Seq<Double>, i: int)
    requires
        0 <= i < widths.len(),
    ensures
        (Double { bits: ONE }).le(widest(widths)),
        !widths[i].is_nan() ==> widths[i].le(widest(widths)),
    decreases widths.len(),
{
    lemma_widest(widths.drop_last());
    if i < widths.len() - 1 {
        law_no_page_is_wider(widths.drop_last(), i);
        assert(widths.drop_last()[i] == widths[i]);
    }
}

proof fn lemma_widest(widths: Seq<Double>)
    ensures
        (Double { bits: ONE }).le(widest(widths)),
    decreases widths.len(),
{
    if widths.len() > 0 {
        lemma_widest(widths.drop_last());
    }
}

/// The order of the patterns is that of the numbers: those without a sign by
/// their bits, those with one the other way round and before the others, and
/// both zeros alike. What lies past infinity stands for no number.
pub proof fn law_patterns_are_ordered_as_numbers(a: u64, b: u64)
    requires
        a <= 0x7ff0_0000_0000_0000,
        b <= 0x7ff0_0000_0000_0000,
    ensures
        ({
            let sign: int = 0x8000_0000_0000_0000;
            let (x, y) = (Double { bits: a }, Double { bits: b });
            let (minus_x, minus_y) = (
                Double { bits: (a + sign) as u64 },
                Double { bits: (b + sign) as u64 },
            );
            &&& x.lt(y) <==> a < b
            &&& x.le(y) <==> a <= b
            &&& x.same(y) <==> a == b
            &&& minus_x.lt(minus_y) <==> b < a
            &&& minus_x.le(minus_y) <==> b <= a
            &&& minus_x.le(y)
            &&& minus_x.lt(y) <==> a > 0 || b > 0
            &&& minus_x.same(y) <==> a == 0 && b == 0
        }),
{
}

/// A pattern past infinity, with or without a sign, stands for no number.
pub proof fn law_no_number_past_infinity(a: u64)
    requires
        a < 0x8000_0000_0000_0000,
    ensures
        (Double { bits: a }).is_nan() <==> a > 0x7ff0_0000_0000_0000,
        (Double { bits: (a + 0x8000_0000_0000_0000) as u64 }).is_nan() <==> a
            > 0x7ff0_0000_0000_0000,
{
}

/// A scrolled view goes where it is asked to, if that lies between the ends;
/// before the lower end it stops there, and so past the upper one. Where the
/// upper end comes before the lower, it stays at the lower.
pub proof fn law_view_is_held_at_the_nearer_end(target: Double, lower: Double, end: Double)
    requires
        !target.is_nan(),
        !lower.is_nan(),
        !end.is_nan(),
    ensures
        lower.le(target) && target.le(end) ==> held(target, lower, end) == target,
        target.lt(lower) ==> held(target, lower, end) == lower,
        lower.lt(end) && end.lt(target) ==> held(target, lower, end) == end,
        end.lt(lower) ==> held(target, lower, end).same(lower),
{
}

/// The lesser of two numbers is one of them and not past either; so is the
/// greater, not before either. What is no number does not count.
pub proof fn law_lesser_and_greater(a: Double, b: Double)
    ensures
        least(a, b) == a || least(a, b) == b,
        greatest(a, b) == a || greatest(a, b) == b,
        !a.is_nan() && !b.is_nan() ==> least(a, b).le(a) && least(a, b).le(b) && a.le(
            greatest(a, b),
        ) && b.le(greatest(a, b)),
        a.is_nan() ==> least(a, b) == b && greatest(a, b) == b,
        b.is_nan() && !a.is_nan() ==> least(a, b) == a && greatest(a, b) == a,
{
}

/// The width that a document is fitted by is 1 or that of one of its pages.
pub proof fn law_fitted_width_is_that_of_a_page(widths: Seq<Double>)
    ensures
        widest(widths) == (Double { bits: 0x3ff0_0000_0000_0000 }) || widths.contains(
            widest(widths),
        ),
    decreases widths.len(),
{
    if widths.len() > 0 {
        let front = widths.drop_last();
        law_fitted_width_is_that_of_a_page(front);
        if front.contains(widest(front)) {
            let i = choose|i: int| 0 <= i < front.len() && front[i] == widest(front);
            assert(widths[i] == widest(front));
        }
        assert(widths[widths.len() - 1] == widths.last());
    }
}

/// A row that shows as a whole does not move the list; one that starts above
/// the view is put at its top, and one that ends below it at its bottom. The
/// positions lie between the ends of the list.
pub proof fn law_row_is_revealed(
    top: Double,
    bottom: Double,
    value: Double,
    view_end: Double,
    aligned: Double,
    lower: Double,
    end: Double,
)
    requires
        lower.le(top) && top.le(end),
        lower.le(value) && value.le(end),
        lower.le(aligned) && aligned.le(end),
        !bottom.is_nan(),
        !view_end.is_nan(),
    ensures
        value.le(top) && bottom.le(view_end) ==> revealed(
            top,
            bottom,
            value,
            view_end,
            aligned,
            lower,
            end,
        ) == value,
        top.lt(value) ==> revealed(top, bottom, value, view_end, aligned, lower, end) == top,
        value.le(top) && view_end.lt(bottom) ==> revealed(
            top,
            bottom,
            value,
            view_end,
            aligned,
            lower,
            end,
        ) == aligned,
{
}

} // verus!
