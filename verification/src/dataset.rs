//! Measured points: what an experimenter reads off at the screen plane, laid
//! over the model's amplitude curve.
use vstd::prelude::*;
use vstd::seq_lib::lemma_multiset_commutative;
use crate::fixed::ONE;
use crate::optics::{normalized, spec_u, K_MAX};

verus! {

/// A data set holds at most this many points.
pub const MAX_POINTS: usize = 50;

/// Whether a point is the empty row `(0, 0)` that a table keeps at its end
/// for the next entry.
pub open spec fn is_sentinel(p: (i32, i32)) -> bool {
    p.0 == 0 && p.1 == 0
}

/// The test "lies at position `x`".
pub open spec fn has_position(x: i32) -> spec_fn((i32, i32)) -> bool {
    |p: (i32, i32)| p.0 == x
}

/// The points of `s` at position `x`, in the order they have in `s`.
pub open spec fn at_position(s: Seq<(i32, i32)>, x: i32) -> Seq<(i32, i32)> {
    s.filter(has_position(x))
}

/// Whether positions ascend along `s`.
pub open spec fn sorted_by_position(s: Seq<(i32, i32)>) -> bool {
    forall|i: int, j: int| 0 <= i <= j < s.len() ==> s[i].0 <= s[j].0
}

/// Whether `b` holds the points of `a` in ascending order of position, those
/// at one position in the order they have in `a`.
pub open spec fn is_stable_sort_of(a: Seq<(i32, i32)>, b: Seq<(i32, i32)>) -> bool {
    &&& sorted_by_position(b)
    &&& b.to_multiset() == a.to_multiset()
    &&& forall|x: i32| at_position(b, x) == at_position(a, x)
}

/// Whether `i` is the index of the first sentinel of `s`, or the length of `s`
/// where it holds none.
pub open spec fn is_first_sentinel(s: Seq<(i32, i32)>, i: int) -> bool {
    &&& 0 <= i <= s.len()
    &&& forall|k: int| 0 <= k < i ==> !is_sentinel(#[trigger] s[k])
    &&& i < s.len() ==> is_sentinel(s[i])
}

/// The index of the first sentinel of `s`, or the length of `s` where it holds
/// none.
pub open spec fn first_sentinel(s: Seq<(i32, i32)>) -> int {
    choose|i: int| is_first_sentinel(s, i)
}

/// The first step of keeping the table in shape: a sentinel is appended
/// unless the last point is one already or the set is full.
pub open spec fn with_trailing_sentinel(s: Seq<(i32, i32)>) -> Seq<(i32, i32)> {
    if s.len() == 0 || (!is_sentinel(s.last()) && s.len() < MAX_POINTS) {
        s.push((0i32, 0i32))
    } else {
        s
    }
}

/// The second step: the first sentinel leaves unless it is the last point.
pub open spec fn without_interior_sentinel(s: Seq<(i32, i32)>) -> Seq<(i32, i32)> {
    if first_sentinel(s) < s.len() - 1 {
        s.remove(first_sentinel(s))
    } else {
        s
    }
}

/// The points after both steps.
pub open spec fn spec_maintained(s: Seq<(i32, i32)>) -> Seq<(i32, i32)> {
    without_interior_sentinel(with_trailing_sentinel(s))
}

/// Whether `s` holds no sentinel but, at most, one as its last point.
pub open spec fn sentinel_only_last(s: Seq<(i32, i32)>) -> bool {
    forall|i: int| 0 <= i < s.len() && is_sentinel(#[trigger] s[i]) ==> i == s.len() - 1
}

/// Whether `s` holds at most one sentinel.
pub open spec fn at_most_one_sentinel(s: Seq<(i32, i32)>) -> bool {
    forall|i: int, j: int|
        0 <= i < s.len() && 0 <= j < s.len() && is_sentinel(#[trigger] s[i]) && is_sentinel(
            #[trigger] s[j],
        ) ==> i == j
}

/// The test "is a measured point": every point but the sentinel.
pub open spec fn is_measured() -> spec_fn((i32, i32)) -> bool {
    |p: (i32, i32)| !is_sentinel(p)
}

/// The quotient `current / reference` in billionths, rounded towards zero.
/// Without a reference there is no quotient, and the value is zero.
pub open spec fn spec_ratio(current: int, reference: int) -> int {
    if reference == 0 {
        0
    } else {
        spec_ratio_of(current, reference)
    }
}

/// The quotient `current / reference` in billionths, rounded towards zero,
/// where the reference is not zero.
pub open spec fn spec_ratio_of(current: int, reference: int) -> int {
    let size = (if current < 0 {
        -current
    } else {
        current
    }) * ONE as int / (if reference < 0 {
        -reference
    } else {
        reference
    });
    if (current < 0) != (reference < 0) {
        -size
    } else {
        size
    }
}

/// What becomes of a measured point when it is laid over the amplitude curve:
/// its position becomes the Fresnel parameter `u = x * k`, its current the
/// quotient of it and the reference current.
pub open spec fn normalize_with(reference: int, k: int) -> spec_fn((i32, i32)) -> (i64, i64) {
    |p: (i32, i32)| (spec_u(p.0 as int, k) as i64, spec_ratio(p.1 as int, reference) as i64)
}

/// The measured points laid over the amplitude curve, in their order. Without
/// a reference current there is nothing to lay over it.
pub open spec fn spec_normalized_points(
    points: Seq<(i32, i32)>,
    reference: int,
    k: int,
) -> Seq<(i64, i64)> {
    if reference == 0 {
        Seq::empty()
    } else {
        points.filter(is_measured()).map_values(normalize_with(reference, k))
    }
}

/// Every sequence has a first sentinel or none, and only one index is it.
pub proof fn lemma_first_sentinel(s: Seq<(i32, i32)>, i: int)
    requires
        is_first_sentinel(s, i),
    ensures
        first_sentinel(s) == i,
{
    let f = first_sentinel(s);
    assert(is_first_sentinel(s, f));
    if f < i {
        assert(!is_sentinel(s[f]));
    } else if i < f {
        assert(!is_sentinel(s[i]));
    }
}

/// Keeping the table in shape restores its rule: from a set with at most one
/// sentinel it makes a set whose only sentinel, if any, is the last point, and
/// unless the set was full there is one.
pub proof fn lemma_maintained_restores_rule(s: Seq<(i32, i32)>)
    requires
        s.len() <= MAX_POINTS,
        at_most_one_sentinel(s),
    ensures
        sentinel_only_last(spec_maintained(s)),
        spec_maintained(s).len() <= MAX_POINTS,
        s.len() < MAX_POINTS ==> spec_maintained(s).len() >= 1 && is_sentinel(
            spec_maintained(s).last(),
        ),
{
    let t = with_trailing_sentinel(s);
    let m = spec_maintained(s);
    let f = first_sentinel(t);
    lemma_first_sentinel_exists(t);
    if f < t.len() - 1 {
        assert(m == t.remove(f));
        assert(is_sentinel(t[f]));
        if t.len() == s.len() {
            // the last point of `s` is a sentinel too, or `s` is full
            if is_sentinel(s.last()) {
                assert(s[f] == t[f]);
                assert(s[s.len() - 1] == s.last());
                assert(false);
            }
            assert forall|i: int| 0 <= i < m.len() && is_sentinel(#[trigger] m[i]) implies i
                == m.len() - 1 by {
                if i < f {
                    assert(m[i] == s[i]);
                    assert(is_sentinel(s[f]));
                } else {
                    assert(m[i] == s[i + 1]);
                    assert(is_sentinel(s[f]));
                }
            }
        } else {
            assert(t == s.push((0i32, 0i32)));
            assert forall|i: int| 0 <= i < m.len() && is_sentinel(#[trigger] m[i]) implies i
                == m.len() - 1 by {
                if i < f {
                    assert(m[i] == t[i]);
                    assert(!is_sentinel(t[i]));
                } else if i < m.len() - 1 {
                    assert(m[i] == s[i + 1]);
                    assert(s[f] == t[f]);
                    assert(is_sentinel(s[f]));
                }
            }
            assert(m.last() == t.last());
        }
    } else {
        assert(m == t);
        assert forall|i: int| 0 <= i < m.len() && is_sentinel(#[trigger] m[i]) implies i
            == m.len() - 1 by {
            if i < f {
                assert(!is_sentinel(t[i]));
            }
        }
        if s.len() < MAX_POINTS {
            assert(is_sentinel(t.last()));
        }
    }
}

/// Keeping the table in shape touches sentinels only: the measured points
/// stay, in their order.
pub proof fn lemma_maintained_keeps_measured(s: Seq<(i32, i32)>)
    ensures
        spec_maintained(s).filter(is_measured()) == s.filter(is_measured()),
{
    let keep = is_measured();
    let t = with_trailing_sentinel(s);
    assert(t.filter(keep) == s.filter(keep)) by {
        if t != s {
            assert(t.drop_last() =~= s);
            reveal_with_fuel(Seq::filter, 1);
        }
    }
    let f = first_sentinel(t);
    lemma_first_sentinel_exists(t);
    if f < t.len() - 1 {
        let head = t.subrange(0, f);
        let tail = t.subrange(f + 1, t.len() as int);
        let one = seq![t[f]];
        assert(t =~= head + one + tail);
        assert(t.remove(f) =~= head + tail);
        Seq::filter_distributes_over_add(head + one, tail, keep);
        Seq::filter_distributes_over_add(head, one, keep);
        Seq::filter_distributes_over_add(head, tail, keep);
        assert(one.filter(keep) =~= Seq::<(i32, i32)>::empty()) by {
            reveal_with_fuel(Seq::filter, 2);
            assert(one.drop_last() =~= Seq::<(i32, i32)>::empty());
        }
        assert(head.filter(keep) + one.filter(keep) =~= head.filter(keep));
    }
}

/// Every sequence has a first sentinel or none.
pub proof fn lemma_first_sentinel_exists(s: Seq<(i32, i32)>)
    ensures
        is_first_sentinel(s, first_sentinel(s)),
    decreases s.len(),
{
    if s.len() == 0 {
        assert(is_first_sentinel(s, 0));
    } else {
        let rest = s.drop_last();
        lemma_first_sentinel_exists(rest);
        let f = first_sentinel(rest);
        if f < rest.len() {
            assert(s[f] == rest[f]);
            assert forall|k: int| 0 <= k < f implies !is_sentinel(#[trigger] s[k]) by {
                assert(s[k] == rest[k]);
            }
            assert(is_first_sentinel(s, f));
        } else {
            assert forall|k: int| 0 <= k < rest.len() implies !is_sentinel(#[trigger] s[k]) by {
                assert(s[k] == rest[k]);
            }
            if is_sentinel(s.last()) {
                assert(is_first_sentinel(s, s.len() - 1));
            } else {
                assert(is_first_sentinel(s, s.len() as int));
            }
        }
    }
}

/// Filtering two points of which the test lets at most one through gives the
/// same in either order.
proof fn lemma_filter_two(a: (i32, i32), b: (i32, i32), keep: spec_fn((i32, i32)) -> bool)
    requires
        !(keep(a) && keep(b)),
    ensures
        seq![a, b].filter(keep) == seq![b, a].filter(keep),
{
    reveal_with_fuel(Seq::filter, 3);
    assert(seq![a, b].drop_last() =~= seq![a]);
    assert(seq![b, a].drop_last() =~= seq![b]);
    assert(seq![a].drop_last() =~= Seq::<(i32, i32)>::empty());
    assert(seq![b].drop_last() =~= Seq::<(i32, i32)>::empty());
    assert(seq![a, b].filter(keep) =~= seq![b, a].filter(keep));
}

/// `s` with the points at `j - 1` and `j` in each other's place.
spec fn swapped(s: Seq<(i32, i32)>, j: int) -> Seq<(i32, i32)> {
    s.update(j - 1, s[j]).update(j, s[j - 1])
}

/// Two neighbours at different positions may change places: the set keeps its
/// points, and the points at any one position keep their order.
proof fn lemma_swap_neighbours(s: Seq<(i32, i32)>, j: int)
    requires
        0 < j < s.len(),
        s[j - 1].0 != s[j].0,
    ensures
        swapped(s, j).to_multiset() == s.to_multiset(),
        forall|x: i32| at_position(swapped(s, j), x) == at_position(s, x),
{
    let t = swapped(s, j);
    let head = s.subrange(0, j - 1);
    let tail = s.subrange(j + 1, s.len() as int);
    let pair = seq![s[j - 1], s[j]];
    let riap = seq![s[j], s[j - 1]];
    assert(s =~= head + pair + tail);
    assert(t =~= head + riap + tail);
    assert(t.to_multiset() == s.to_multiset()) by {
        broadcast use vstd::multiset::group_multiset_axioms;

        lemma_multiset_commutative(head + pair, tail);
        lemma_multiset_commutative(head, pair);
        lemma_multiset_commutative(head + riap, tail);
        lemma_multiset_commutative(head, riap);
        lemma_multiset_commutative(seq![s[j - 1]], seq![s[j]]);
        lemma_multiset_commutative(seq![s[j]], seq![s[j - 1]]);
        assert(pair =~= seq![s[j - 1]] + seq![s[j]]);
        assert(riap =~= seq![s[j]] + seq![s[j - 1]]);
        assert(pair.to_multiset() =~= riap.to_multiset());
        assert(t.to_multiset() =~= s.to_multiset());
    }
    assert forall|x: i32| at_position(t, x) == at_position(s, x) by {
        let keep = has_position(x);
        Seq::filter_distributes_over_add(head + pair, tail, keep);
        Seq::filter_distributes_over_add(head, pair, keep);
        Seq::filter_distributes_over_add(head + riap, tail, keep);
        Seq::filter_distributes_over_add(head, riap, keep);
        lemma_filter_two(s[j - 1], s[j], keep);
    }
}

/// Taking the last point away takes it away from the points at its position
/// and leaves the points at every other position as they are.
proof fn lemma_at_position_of_last(s: Seq<(i32, i32)>, x: i32)
    requires
        s.len() > 0,
    ensures
        at_position(s, x) == (if s.last().0 == x {
            at_position(s.drop_last(), x).push(s.last())
        } else {
            at_position(s.drop_last(), x)
        }),
{
    reveal_with_fuel(Seq::filter, 1);
}

/// Where `s` has points at position `x`, one of its points lies there.
proof fn lemma_some_at_position(s: Seq<(i32, i32)>, x: i32)
    requires
        at_position(s, x).len() > 0,
    ensures
        exists|j: int| 0 <= j < s.len() && (#[trigger] s[j]).0 == x,
{
    let found = at_position(s, x)[0];
    s.lemma_filter_pred(has_position(x), 0);
    assert(at_position(s, x).contains(found));
    s.lemma_filter_contains_rev(has_position(x), found);
    let j = choose|j: int| 0 <= j < s.len() && s[j] == found;
    assert(s[j].0 == x);
}

/// Two sorted sequences of one length with the same points at every position,
/// in the same order, are the same sequence.
proof fn lemma_sorted_same_positions(b: Seq<(i32, i32)>, c: Seq<(i32, i32)>)
    requires
        sorted_by_position(b),
        sorted_by_position(c),
        b.len() == c.len(),
        forall|x: i32| at_position(b, x) == at_position(c, x),
    ensures
        b == c,
    decreases b.len(),
{
    if b.len() == 0 {
        assert(b =~= c);
    } else {
        let last_b = b.last();
        let last_c = c.last();
        let rest_b = b.drop_last();
        let rest_c = c.drop_last();
        lemma_at_position_of_last(b, last_b.0);
        lemma_at_position_of_last(c, last_c.0);
        assert(last_b.0 == last_c.0) by {
            assert(at_position(b, last_c.0) == at_position(c, last_c.0));
            lemma_some_at_position(b, last_c.0);
            assert(at_position(c, last_b.0) == at_position(b, last_b.0));
            lemma_some_at_position(c, last_b.0);
        }
        let m = last_b.0;
        assert(at_position(b, m) == at_position(c, m));
        assert(at_position(rest_b, m).push(last_b).last() == last_b);
        assert(at_position(rest_c, m).push(last_c).last() == last_c);
        assert(last_b == last_c);
        assert forall|x: i32| at_position(rest_b, x) == at_position(rest_c, x) by {
            lemma_at_position_of_last(b, x);
            lemma_at_position_of_last(c, x);
            assert(at_position(b, x) == at_position(c, x));
            if x == m {
                assert(at_position(rest_b, x).push(last_b).drop_last() =~= at_position(rest_b, x));
                assert(at_position(rest_c, x).push(last_c).drop_last() =~= at_position(rest_c, x));
            }
        }
        assert(sorted_by_position(rest_b)) by {
            assert forall|i: int, j: int| 0 <= i <= j < rest_b.len() implies rest_b[i].0
                <= rest_b[j].0 by {
                assert(rest_b[i] == b[i] && rest_b[j] == b[j]);
            }
        }
        assert(sorted_by_position(rest_c)) by {
            assert forall|i: int, j: int| 0 <= i <= j < rest_c.len() implies rest_c[i].0
                <= rest_c[j].0 by {
                assert(rest_c[i] == c[i] && rest_c[j] == c[j]);
            }
        }
        lemma_sorted_same_positions(rest_b, rest_c);
        assert(b =~= rest_b.push(last_b));
        assert(c =~= rest_c.push(last_c));
    }
}

/// Sorting leaves no choice: a sequence has one stable sort only.
pub proof fn lemma_stable_sort_unique(
    a: Seq<(i32, i32)>,
    b: Seq<(i32, i32)>,
    c: Seq<(i32, i32)>,
)
    requires
        is_stable_sort_of(a, b),
        is_stable_sort_of(a, c),
    ensures
        b == c,
{
    a.to_multiset_ensures();
    b.to_multiset_ensures();
    c.to_multiset_ensures();
    lemma_sorted_same_positions(b, c);
}

/// Sorts points by ascending position and keeps the order of points at one
/// position.
pub fn sort_by_position(points: &mut Vec<(i32, i32)>)
    ensures
        is_stable_sort_of(old(points)@, final(points)@),
        final(points)@.len() == old(points)@.len(),
{
    let n: usize = points.len();
    let ghost start: Seq<(i32, i32)> = points@;
    proof {
        start.to_multiset_ensures();
    }
    let mut i: usize = 1;
    while i < n
        invariant
            1 <= i,
            points@.len() == n,
            n == start.len(),
            points@.to_multiset() == start.to_multiset(),
            forall|x: i32| at_position(points@, x) == at_position(start, x),
            forall|a: int, b: int| 0 <= a <= b < i && b < n ==> points@[a].0 <= points@[b].0,
        decreases n - i,
    {
        let mut j: usize = i;
        while j > 0 && points[j - 1].0 > points[j].0
            invariant
                j <= i < n,
                points@.len() == n,
                n == start.len(),
                points@.to_multiset() == start.to_multiset(),
                forall|x: i32| at_position(points@, x) == at_position(start, x),
                forall|a: int, b: int|
                    0 <= a <= b <= i && a != j && b != j ==> points@[a].0 <= points@[b].0,
                forall|b: int| j < b <= i ==> points@[j as int].0 < points@[b].0,
            decreases j,
        {
            let ghost before: Seq<(i32, i32)> = points@;
            let left: (i32, i32) = points[j - 1];
            let right: (i32, i32) = points[j];
            points[j - 1] = right;
            points[j] = left;
            proof {
                assert(points@ =~= swapped(before, j as int));
                lemma_swap_neighbours(before, j as int);
            }
            j = j - 1;
        }
        i = i + 1;
    }
    proof {
        points@.to_multiset_ensures();
    }
}

/// The size of `x`.
fn size(x: i32) -> (r: i64)
    ensures
        r == (if x < 0 {
            -x
        } else {
            x as int
        }),
{
    if x < 0 {
        -(x as i64)
    } else {
        x as i64
    }
}

/// Computes the quotient `current / reference` in billionths. Without a
/// reference there is no quotient, and zero comes back.
pub fn ratio(current: i32, reference: i32) -> (r: i64)
    ensures
        r == spec_ratio(current as int, reference as int),
{
    if reference == 0 {
        return 0;
    }
    let top: i64 = size(current) * ONE;
    let bottom: i64 = size(reference);
    let part: i64 = top / bottom;
    assert(0 <= part <= top) by (nonlinear_arith)
        requires
            top >= 0,
            bottom > 0,
            part == top / bottom,
    ;
    if (current < 0) != (reference < 0) {
        -part
    } else {
        part
    }
}

/// The measured points in front of one arrangement of screens, and the
/// current measured with no screen at all, to which they are referred.
///
/// A point is a position in length units and the current measured there.
pub struct ExperimentalDataSet {
    points: Vec<(i32, i32)>,
    reference_current: i32,
}

impl View for ExperimentalDataSet {
    type V = Seq<(i32, i32)>;

    /// The points in their order.
    closed spec fn view(&self) -> Seq<(i32, i32)> {
        self.points@
    }
}

impl ExperimentalDataSet {
    /// The rule of the type: a set never holds more than `MAX_POINTS` points.
    pub open spec fn wf(&self) -> bool {
        self@.len() <= MAX_POINTS
    }

    /// The current measured with no screen.
    pub closed spec fn reference(&self) -> i32 {
        self.reference_current
    }

    /// A set without points, with the reference current zero.
    pub fn new() -> (r: Self)
        ensures
            r.wf(),
            r@ == Seq::<(i32, i32)>::empty(),
            r.reference() == 0,
    {
        ExperimentalDataSet { points: Vec::new(), reference_current: 0 }
    }

    /// The number of points.
    pub fn len(&self) -> (r: usize)
        ensures
            r == self@.len(),
    {
        self.points.len()
    }

    /// The points in their order.
    pub fn points(&self) -> (r: &Vec<(i32, i32)>)
        ensures
            r@ == self@,
    {
        &self.points
    }

    /// The current measured with no screen.
    pub fn reference_current(&self) -> (r: i32)
        ensures
            r == self.reference(),
    {
        self.reference_current
    }

    /// The current measured with no screen, to be read and written in place.
    pub fn reference_current_mut(&mut self) -> (r: &mut i32)
        ensures
            *r == old(self).reference(),
            final(self).reference() == *final(r),
            final(self)@ == old(self)@,
    {
        &mut self.reference_current
    }

    /// Sets the current measured with no screen.
    pub fn set_reference_current(&mut self, current: i32)
        ensures
            final(self).reference() == current,
            final(self)@ == old(self)@,
            final(self).wf() == old(self).wf(),
    {
        self.reference_current = current;
    }

    /// Appends a point, unless the set is full: then the point is rejected and
    /// the set stays as it is.
    pub fn insert(&mut self, position: i32, current: i32) -> (accepted: bool)
        ensures
            accepted == (old(self)@.len() < MAX_POINTS),
            accepted ==> final(self)@ == old(self)@.push((position, current)),
            !accepted ==> final(self)@ == old(self)@,
            final(self).reference() == old(self).reference(),
            old(self).wf() ==> final(self).wf(),
    {
        if self.points.len() < MAX_POINTS {
            self.points.push((position, current));
            true
        } else {
            false
        }
    }

    /// Moves the point at `index` to another position; the set is not sorted
    /// again. There has to be a point at `index`.
    pub fn set_position(&mut self, index: usize, position: i32)
        requires
            index < old(self)@.len(),
        ensures
            final(self)@ == old(self)@.update(
                index as int,
                (position, old(self)@[index as int].1),
            ),
            final(self).reference() == old(self).reference(),
    {
        let current: i32 = self.points[index].1;
        self.points[index] = (position, current);
    }

    /// Replaces the current measured at the point at `index`. There has to be a
    /// point at `index`.
    pub fn set_current(&mut self, index: usize, current: i32)
        requires
            index < old(self)@.len(),
        ensures
            final(self)@ == old(self)@.update(
                index as int,
                (old(self)@[index as int].0, current),
            ),
            final(self).reference() == old(self).reference(),
    {
        let position: i32 = self.points[index].0;
        self.points[index] = (position, current);
    }

    /// Sorts the points by ascending position; points at one position keep
    /// their order.
    pub fn resort(&mut self)
        ensures
            is_stable_sort_of(old(self)@, final(self)@),
            final(self)@.len() == old(self)@.len(),
            final(self).reference() == old(self).reference(),
    {
        sort_by_position(&mut self.points);
    }

    /// Lays the measured points over the amplitude curve of scale factor `k`:
    /// for every point but the sentinel, in their order, the Fresnel parameter
    /// of its position and the quotient of its current and the reference
    /// current. Without a reference current the result is empty.
    pub fn normalized_points(&self, k: i64) -> (r: Vec<(i64, i64)>)
        requires
            0 <= k <= K_MAX,
        ensures
            r@ == spec_normalized_points(self@, self.reference() as int, k as int),
    {
        let mut r: Vec<(i64, i64)> = Vec::new();
        let reference: i32 = self.reference_current;
        if reference == 0 {
            return r;
        }
        let n: usize = self.points.len();
        let mut i: usize = 0;
        assert(self.points@.take(0) =~= Seq::<(i32, i32)>::empty());
        proof {
            reveal_with_fuel(Seq::filter, 1);
        }
        while i < n
            invariant
                0 <= k <= K_MAX,
                reference != 0,
                reference == self.reference_current,
                n == self.points@.len(),
                i <= n,
                r@ == self.points@.take(i as int).filter(is_measured()).map_values(
                    normalize_with(reference as int, k as int),
                ),
            decreases n - i,
        {
            let p: (i32, i32) = self.points[i];
            proof {
                let before = self.points@.take(i as int);
                let after = self.points@.take(i + 1);
                assert(after =~= before.push(p));
                assert(after.drop_last() =~= before);
                reveal_with_fuel(Seq::filter, 1);
                if is_measured()(p) {
                    assert(after.filter(is_measured()) == before.filter(is_measured()).push(p));
                    assert(after.filter(is_measured()).map_values(
                        normalize_with(reference as int, k as int),
                    ) =~= r@.push(normalize_with(reference as int, k as int)(p)));
                } else {
                    assert(after.filter(is_measured()) == before.filter(is_measured()));
                }
            }
            if p.0 != 0 || p.1 != 0 {
                r.push((normalized(p.0, k), ratio(p.1, reference)));
            }
            i = i + 1;
        }
        assert(self.points@.take(n as int) =~= self.points@);
        r
    }

    /// Keeps the table in shape: appends a sentinel unless the last point is
    /// one or the set is full, then removes the first sentinel unless it is the
    /// last point.
    pub fn maintain_sentinel(&mut self)
        ensures
            final(self)@ == spec_maintained(old(self)@),
            final(self).reference() == old(self).reference(),
            old(self).wf() ==> final(self).wf(),
    {
        let n: usize = self.points.len();
        if n == 0 {
            self.points.push((0, 0));
        } else {
            let last: (i32, i32) = self.points[n - 1];
            if (last.0 != 0 || last.1 != 0) && n < MAX_POINTS {
                self.points.push((0, 0));
            }
        }
        assert(self.points@ == with_trailing_sentinel(old(self)@));
        let m: usize = self.points.len();
        let mut i: usize = 0;
        while i < m && !(self.points[i].0 == 0 && self.points[i].1 == 0)
            invariant
                i <= m,
                m == self.points@.len(),
                self.points@ == with_trailing_sentinel(old(self)@),
                self.reference_current == old(self).reference_current,
                forall|k: int| 0 <= k < i ==> !is_sentinel(#[trigger] self.points@[k]),
            decreases m - i,
        {
            i = i + 1;
        }
        proof {
            lemma_first_sentinel(self.points@, i as int);
        }
        if m > 0 && i < m - 1 {
            self.points.remove(i);
        }
    }
}

impl Default for ExperimentalDataSet {
    fn default() -> (r: Self)
        ensures
            r.wf(),
            r@ == Seq::<(i32, i32)>::empty(),
            r.reference() == 0,
    {
        ExperimentalDataSet::new()
    }
}

} // verus!
