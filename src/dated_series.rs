//! A sparse series of dated prices, kept sorted by date, with exact lookup
//! and linear interpolation between neighbouring points.
use vstd::prelude::*;
use crate::calendar::Date;
use vstd::math::{max, min};

verus! {

/// A price known on one day. Prices are fixed-point amounts in units of
/// `AMOUNT_UNIT` per whole unit (see `crate::text`).
#[derive(Clone, Copy, Debug, PartialEq, Eq, Structural)]
pub struct PricePoint {
    pub date: Date,
    pub price: u64,
}

impl PricePoint {
    pub open spec fn day(self) -> int {
        self.date.number()
    }
}

/// Every point lies on a later day than the ones before it.
pub open spec fn strictly_ascending(s: Seq<PricePoint>) -> bool {
    forall|i: int, j: int| #![trigger s[i], s[j]] 0 <= i < j < s.len() ==> s[i].day() < s[j].day()
}

/// Some point of `pts` lies on day `d`.
pub open spec fn has_day(pts: Seq<PricePoint>, d: int) -> bool {
    exists|k: int| 0 <= k < pts.len() && #[trigger] pts[k].day() == d
}

/// No point after `pts[k]` lies on its day.
pub open spec fn is_last_of_day(pts: Seq<PricePoint>, k: int) -> bool {
    forall|m: int| k < m < pts.len() ==> #[trigger] pts[m].day() != pts[k].day()
}

/// No two points of `pts` share a day.
pub open spec fn unique_days(pts: Seq<PricePoint>) -> bool {
    forall|i: int, j: int| #![trigger pts[i], pts[j]]
        0 <= i < pts.len() && 0 <= j < pts.len() && i != j ==> pts[i].day() != pts[j].day()
}

/// How many distinct days the points of `pts` fall on.
pub open spec fn distinct_days(pts: Seq<PricePoint>) -> nat
    decreases pts.len(),
{
    if pts.len() == 0 {
        0
    } else {
        let init = pts.drop_last();
        distinct_days(init) + if has_day(init, pts.last().day()) { 0nat } else { 1nat }
    }
}

/// `v` is what a series built from the unordered points `pts` holds: one point
/// per distinct day, ascending, each the last point given for its day.
pub open spec fn built_from(v: Seq<PricePoint>, pts: Seq<PricePoint>) -> bool {
    &&& strictly_ascending(v)
    &&& forall|i: int| #![trigger v[i]] 0 <= i < v.len() ==> exists|k: int|
        0 <= k < pts.len() && #[trigger] pts[k] == v[i] && is_last_of_day(pts, k)
    &&& forall|k: int| 0 <= k < pts.len() ==> has_day(v, #[trigger] pts[k].day())
    &&& v.len() == distinct_days(pts)
}

/// The price on day `d` on the straight line from `lo` to `hi`, rounded down
/// to a whole unit.
pub open spec fn lerp(lo: PricePoint, hi: PricePoint, d: int) -> int {
    let span = hi.day() - lo.day();
    let elapsed = d - lo.day();
    (lo.price * (span - elapsed) + hi.price * elapsed) / span
}

/// The price of series `s` on day `d`: the stored one where a point lies on
/// `d`, the interpolated one where `d` falls strictly between two neighbours,
/// and none outside the series.
pub open spec fn interpolated(s: Seq<PricePoint>, d: int) -> Option<u64> {
    if has_day(s, d) {
        let i = choose|i: int| 0 <= i < s.len() && #[trigger] s[i].day() == d;
        Some(s[i].price)
    } else if exists|i: int| 0 <= i < s.len() - 1 && #[trigger] s[i].day() < d < s[i + 1].day() {
        let i = choose|i: int| 0 <= i < s.len() - 1 && #[trigger] s[i].day() < d < s[i + 1].day();
        Some(lerp(s[i], s[i + 1], d) as u64)
    } else {
        None
    }
}

/// Where a search for a day ends.
enum BinarySearchResult {
    ExactResult(usize),
    ClosestLowerAndUpperPoints(usize, usize),
    MissingData,
}

/// The number of points of `items` that lie before day `d`.
fn lower_bound(items: &Vec<PricePoint>, d: i32) -> (r: usize)
    requires
        strictly_ascending(items@),
    ensures
        r <= items.len(),
        forall|i: int| 0 <= i < r ==> #[trigger] items@[i].day() < d,
        forall|i: int| r <= i < items.len() ==> #[trigger] items@[i].day() >= d,
{
    let mut lo: usize = 0;
    let mut hi: usize = items.len();
    while lo < hi
        invariant
            lo <= hi <= items.len(),
            strictly_ascending(items@),
            forall|i: int| 0 <= i < lo ==> #[trigger] items@[i].day() < d,
            forall|i: int| hi <= i < items.len() ==> #[trigger] items@[i].day() >= d,
        decreases hi - lo,
    {
        let mid = lo + (hi - lo) / 2;
        if items[mid].date.day_number() < d {
            lo = mid + 1;
        } else {
            hi = mid;
        }
    }
    lo
}

/// The interpolated price on day `d` between `a` and `b`.
fn lerp_price(a: PricePoint, b: PricePoint, date: Date) -> (r: u64)
    requires
        a.day() < date.number() < b.day(),
    ensures
        r == lerp(a, b, date.number()),
{
    let span = (b.date.day_number() as i64 - a.date.day_number() as i64) as u128;
    let elapsed = (date.day_number() as i64 - a.date.day_number() as i64) as u128;
    let pa = a.price as u128;
    let pb = b.price as u128;
    proof {
        lemma_weighted_mean_bound(pa as int, pb as int, span as int, elapsed as int);
    }
    let total = pa * (span - elapsed) + pb * elapsed;
    (total / span) as u64
}

/// A weighted mean of two `u64` values, rounded down, is again a `u64`, and
/// its weighted sum fits in a `u128`.
proof fn lemma_weighted_mean_bound(pa: int, pb: int, span: int, elapsed: int)
    requires
        0 <= pa <= u64::MAX,
        0 <= pb <= u64::MAX,
        0 < elapsed < span <= 0x1_0000_0000,
    ensures
        0 <= pa * (span - elapsed) <= u64::MAX * (span - elapsed),
        0 <= pb * elapsed <= u64::MAX * elapsed,
        pa * (span - elapsed) + pb * elapsed <= u64::MAX * span,
        u64::MAX * span < u128::MAX,
        (pa * (span - elapsed) + pb * elapsed) / span <= u64::MAX,
{
    assert(0 <= pa * (span - elapsed) <= u64::MAX * (span - elapsed)) by (nonlinear_arith)
        requires 0 <= pa <= u64::MAX, elapsed < span;
    assert(0 <= pb * elapsed <= u64::MAX * elapsed) by (nonlinear_arith)
        requires 0 <= pb <= u64::MAX, 0 < elapsed;
    assert(u64::MAX * (span - elapsed) + u64::MAX * elapsed == u64::MAX * span) by (nonlinear_arith);
    assert(u64::MAX * span <= u64::MAX * 0x1_0000_0000) by (nonlinear_arith)
        requires span <= 0x1_0000_0000;
    let t = pa * (span - elapsed) + pb * elapsed;
    assert(t / span <= u64::MAX) by (nonlinear_arith)
        requires 0 <= t <= u64::MAX * span, span > 0;
}

/// On the day of a stored point, the series gives that point's price.
pub proof fn lemma_interpolated_at_point(s: Seq<PricePoint>, i: int)
    requires
        strictly_ascending(s),
        0 <= i < s.len(),
    ensures
        interpolated(s, s[i].day()) == Some(s[i].price),
{
    let d = s[i].day();
    assert(has_day(s, d));
    let c = choose|c: int| 0 <= c < s.len() && #[trigger] s[c].day() == d;
    assert(c == i) by {
        if c < i { assert(s[c].day() < s[i].day()); }
        if c > i { assert(s[i].day() < s[c].day()); }
    }
}

/// Strictly between two neighbouring points, the series gives the line
/// between them.
pub proof fn lemma_interpolated_between(s: Seq<PricePoint>, i: int, d: int)
    requires
        strictly_ascending(s),
        0 <= i < s.len() - 1,
        s[i].day() < d < s[i + 1].day(),
    ensures
        interpolated(s, d) == Some(lerp(s[i], s[i + 1], d) as u64),
{
    assert(!has_day(s, d)) by {
        if has_day(s, d) {
            let c = choose|c: int| 0 <= c < s.len() && #[trigger] s[c].day() == d;
            if c <= i { assert(s[c].day() <= s[i].day()); }
            if c >= i + 1 { assert(s[i + 1].day() <= s[c].day()); }
        }
    }
    let c = choose|c: int| 0 <= c < s.len() - 1 && #[trigger] s[c].day() < d < s[c + 1].day();
    assert(c == i) by {
        if c < i { assert(s[c + 1].day() <= s[i].day()); }
        if c > i { assert(s[i + 1].day() <= s[c].day()); }
    }
}

/// The series gives a price exactly on the days from its first point to its
/// last.
pub proof fn lemma_interpolated_in_range(s: Seq<PricePoint>, d: int)
    requires
        strictly_ascending(s),
    ensures
        interpolated(s, d) is Some <==> s.len() > 0 && s[0].day() <= d <= s.last().day(),
{
    if has_day(s, d) {
        let c = choose|c: int| 0 <= c < s.len() && #[trigger] s[c].day() == d;
        if c > 0 { assert(s[0].day() < s[c].day()); }
        if c < s.len() - 1 { assert(s[c].day() < s[s.len() - 1].day()); }
    } else if exists|i: int| 0 <= i < s.len() - 1 && #[trigger] s[i].day() < d < s[i + 1].day() {
        let c = choose|c: int| 0 <= c < s.len() - 1 && #[trigger] s[c].day() < d < s[c + 1].day();
        if c > 0 { assert(s[0].day() < s[c].day()); }
        if c + 1 < s.len() - 1 { assert(s[c + 1].day() < s[s.len() - 1].day()); }
    } else if s.len() > 0 && s[0].day() <= d <= s.last().day() {
        // The last point before or on `d` either lies on it or has a neighbour after it.
        let k = lemma_last_point_not_after(s, d);
        if s[k].day() == d {
            assert(has_day(s, d));
        } else {
            assert(s[k + 1].day() > d);
            assert(s[k].day() < d < s[k + 1].day());
        }
    }
}

/// Index of the last point of `s` on or before day `d`.
proof fn lemma_last_point_not_after(s: Seq<PricePoint>, d: int) -> (k: int)
    requires
        strictly_ascending(s),
        s.len() > 0,
        s[0].day() <= d <= s.last().day(),
    ensures
        0 <= k < s.len(),
        s[k].day() <= d,
        k == s.len() - 1 || s[k + 1].day() > d,
    decreases s.len(),
{
    if s.len() == 1 || s[s.len() - 2].day() <= d {
        if s.len() > 1 && s.last().day() > d {
            (s.len() - 2) as int
        } else {
            (s.len() - 1) as int
        }
    } else {
        let t = s.drop_last();
        assert(strictly_ascending(t));
        let k = lemma_last_point_not_after(t, d);
        assert(t[k] == s[k]);
        if k + 1 < t.len() {
            assert(t[k + 1] == s[k + 1]);
        }
        k
    }
}

/// Points never fall on more distinct days than there are points.
pub proof fn lemma_distinct_days_at_most_len(pts: Seq<PricePoint>)
    ensures
        distinct_days(pts) <= pts.len(),
    decreases pts.len(),
{
    if pts.len() > 0 {
        lemma_distinct_days_at_most_len(pts.drop_last());
    }
}

/// Points on distinct days count one each.
proof fn lemma_distinct_days_of_unique(pts: Seq<PricePoint>)
    requires
        unique_days(pts),
    ensures
        distinct_days(pts) == pts.len(),
    decreases pts.len(),
{
    if pts.len() > 0 {
        let init = pts.drop_last();
        assert(unique_days(init)) by {
            assert forall|i: int, j: int| #![trigger init[i], init[j]]
                0 <= i < init.len() && 0 <= j < init.len() && i != j implies init[i].day() != init[j].day() by {
                assert(init[i] == pts[i] && init[j] == pts[j]);
            }
        }
        lemma_distinct_days_of_unique(init);
        assert(!has_day(init, pts.last().day())) by {
            if has_day(init, pts.last().day()) {
                let k = choose|k: int| 0 <= k < init.len() && #[trigger] init[k].day() == pts.last().day();
                assert(pts[k] == init[k]);
                assert(pts[k].day() != pts[pts.len() - 1].day());
            }
        }
    }
}

/// A series built from points on distinct days holds every one of them, in
/// strictly ascending order of date.
pub proof fn law_series_keeps_unique_points(pts: Seq<PricePoint>, stored: Seq<PricePoint>)
    requires
        unique_days(pts),
        built_from(stored, pts),
    ensures
        stored.len() == pts.len(),
        strictly_ascending(stored),
        forall|k: int| 0 <= k < pts.len() ==> stored.contains(#[trigger] pts[k]),
{
    lemma_distinct_days_of_unique(pts);
    assert forall|k: int| 0 <= k < pts.len() implies stored.contains(#[trigger] pts[k]) by {
        let i = choose|i: int| 0 <= i < stored.len() && #[trigger] stored[i].day() == pts[k].day();
        let w = choose|w: int| 0 <= w < pts.len() && #[trigger] pts[w] == stored[i] && is_last_of_day(pts, w);
        assert(w == k) by {
            if w != k {
                assert(pts[w].day() != pts[k].day());
            }
        }
        assert(stored[i] == pts[k]);
    }
}

pub struct DatedSeries {
    /// Price points, sorted by date from earliest to latest.
    sorted_series_items: Vec<PricePoint>,
}

impl View for DatedSeries {
    type V = Seq<PricePoint>;

    closed spec fn view(&self) -> Seq<PricePoint> {
        self.sorted_series_items@
    }
}

impl DatedSeries {
    pub open spec fn wf(&self) -> bool {
        strictly_ascending(self@)
    }

    /// Builds a series from points in any order; where several points share a
    /// day, the last one given wins.
    #[verifier::rlimit(40)]
    pub fn new(data: Vec<PricePoint>) -> (r: DatedSeries)
        ensures
            r.wf(),
            built_from(r@, data@),
    {
        let mut items: Vec<PricePoint> = Vec::new();
        let n = data.len();
        let mut j: usize = 0;
        while j < n
            invariant
                n == data.len(),
                j <= n,
                strictly_ascending(items@),
                forall|i: int| #![trigger items@[i]] 0 <= i < items.len() ==> exists|k: int|
                    0 <= k < j && #[trigger] data@[k] == items@[i] && forall|m: int|
                        k < m < j ==> #[trigger] data@[m].day() != data@[k].day(),
                forall|k: int| 0 <= k < j ==> has_day(items@, #[trigger] data@[k].day()),
                items.len() == distinct_days(data@.subrange(0, j as int)),
            decreases n - j,
        {
            let p = data[j];
            let d = p.date.day_number();
            let idx = lower_bound(&items, d);
            let ghost old_items = items@;
            let ghost prefix = data@.subrange(0, j as int);
            assert(data@.subrange(0, j + 1).drop_last() =~= prefix);
            if idx < items.len() && items[idx].date.day_number() == d {
                items.set(idx, p);
                proof {
                    let w = choose|k: int|
                        0 <= k < j && #[trigger] data@[k] == old_items[idx as int] && forall|m: int|
                            k < m < j ==> #[trigger] data@[m].day() != data@[k].day();
                    assert(prefix[w].day() == d);
                    assert(has_day(prefix, d as int));
                    assert forall|i: int| #![trigger items@[i]] 0 <= i < items.len() implies exists|k: int|
                        0 <= k < j + 1 && #[trigger] data@[k] == items@[i] && forall|m: int|
                            k < m < j + 1 ==> #[trigger] data@[m].day() != data@[k].day() by {
                        if i == idx {
                            assert(data@[j as int] == items@[i]);
                        } else {
                            let k = choose|k: int|
                                0 <= k < j && #[trigger] data@[k] == old_items[i] && forall|m: int|
                                    k < m < j ==> #[trigger] data@[m].day() != data@[k].day();
                            assert(data@[k] == items@[i]);
                            assert(old_items[i].day() != d);
                        }
                    }
                    assert forall|k: int| 0 <= k < j + 1 implies has_day(items@, #[trigger] data@[k].day()) by {
                        if k == j {
                            assert(items@[idx as int].day() == d);
                        } else {
                            let i = choose|i: int| 0 <= i < old_items.len() && #[trigger] old_items[i].day() == data@[k].day();
                            assert(items@[i].day() == data@[k].day());
                        }
                    }
                }
            } else {
                items.insert(idx, p);
                proof {
                    assert(!has_day(old_items, d as int));
                    assert(!has_day(prefix, d as int)) by {
                        if has_day(prefix, d as int) {
                            let k = choose|k: int| 0 <= k < prefix.len() && #[trigger] prefix[k].day() == d;
                            assert(data@[k].day() == d);
                        }
                    }
                    assert forall|i: int| #![trigger items@[i]] 0 <= i < items.len() implies exists|k: int|
                        0 <= k < j + 1 && #[trigger] data@[k] == items@[i] && forall|m: int|
                            k < m < j + 1 ==> #[trigger] data@[m].day() != data@[k].day() by {
                        if i == idx {
                            assert(data@[j as int] == items@[i]);
                        } else {
                            let oi = if i < idx { i } else { i - 1 };
                            assert(items@[i] == old_items[oi]);
                            let k = choose|k: int|
                                0 <= k < j && #[trigger] data@[k] == old_items[oi] && forall|m: int|
                                    k < m < j ==> #[trigger] data@[m].day() != data@[k].day();
                            assert(data@[k] == items@[i]);
                        }
                    }
                    assert forall|k: int| 0 <= k < j + 1 implies has_day(items@, #[trigger] data@[k].day()) by {
                        if k == j {
                            assert(items@[idx as int].day() == d);
                        } else {
                            let i = choose|i: int| 0 <= i < old_items.len() && #[trigger] old_items[i].day() == data@[k].day();
                            if i < idx {
                                assert(items@[i].day() == data@[k].day());
                            } else {
                                assert(items@[i + 1].day() == data@[k].day());
                            }
                        }
                    }
                }
            }
            j = j + 1;
        }
        assert(data@.subrange(0, n as int) =~= data@);
        DatedSeries { sorted_series_items: items }
    }

    /// Finds the point on `target`, or the two points around it.
    fn binary_search_sorted_price_point_vec_by_date(&self, target: Date) -> (r: BinarySearchResult)
        requires
            self.wf(),
        ensures
            r matches BinarySearchResult::ExactResult(i) ==> i < self@.len() && self@[i as int].day()
                == target.number(),
            r matches BinarySearchResult::ClosestLowerAndUpperPoints(lo, hi) ==> hi == lo + 1 && hi
                < self@.len() && self@[lo as int].day() < target.number() < self@[hi as int].day(),
            r is MissingData ==> self@.len() == 0 || target.number() < self@[0].day()
                || target.number() > self@.last().day(),
    {
        let items = &self.sorted_series_items;
        let d = target.day_number();
        let idx = lower_bound(items, d);
        if idx < items.len() && items[idx].date.day_number() == d {
            BinarySearchResult::ExactResult(idx)
        } else if idx == 0 || idx == items.len() {
            BinarySearchResult::MissingData
        } else {
            BinarySearchResult::ClosestLowerAndUpperPoints(idx - 1, idx)
        }
    }

    /// The price on `date`: the stored one if a point lies on it, else the
    /// linear interpolation between the nearest points before and after it;
    /// none before the first point or after the last.
    pub fn get_interpolated_price(&self, date: Date) -> (r: Option<u64>)
        requires
            self.wf(),
        ensures
            r == interpolated(self@, date.number()),
            r is Some <==> self@.len() > 0 && self@[0].day() <= date.number() <= self@.last().day(),
            forall|i: int| 0 <= i < self@.len() && #[trigger] self@[i].day() == date.number()
                ==> r == Some(self@[i].price),
    {
        let ghost s = self@;
        let ghost d = date.number();
        proof {
            lemma_interpolated_in_range(s, d);
            assert forall|i: int| 0 <= i < s.len() && #[trigger] s[i].day() == d implies interpolated(s, d)
                == Some(s[i].price) by {
                lemma_interpolated_at_point(s, i);
            }
        }
        match self.binary_search_sorted_price_point_vec_by_date(date) {
            BinarySearchResult::ExactResult(i) => {
                proof {
                    lemma_interpolated_at_point(s, i as int);
                }
                Some(self.sorted_series_items[i].price)
            },
            BinarySearchResult::ClosestLowerAndUpperPoints(lo, hi) => {
                proof {
                    lemma_interpolated_between(s, lo as int, d);
                }
                Some(lerp_price(self.sorted_series_items[lo], self.sorted_series_items[hi], date))
            },
            BinarySearchResult::MissingData => None,
        }
    }

    /// The price stored on exactly `date`, without interpolation.
    pub fn lookup_exact(&self, date: Date) -> (r: Option<u64>)
        requires
            self.wf(),
        ensures
            r is Some <==> has_day(self@, date.number()),
            forall|i: int| 0 <= i < self@.len() && #[trigger] self@[i].day() == date.number() ==> r == Some(
                self@[i].price,
            ),
    {
        let items = &self.sorted_series_items;
        let d = date.day_number();
        let idx = lower_bound(items, d);
        if idx < items.len() && items[idx].date.day_number() == d {
            proof {
                assert forall|i: int| 0 <= i < self@.len() && #[trigger] self@[i].day() == date.number() implies i == idx by {
                    if i < idx { assert(self@[i].day() < d); }
                    if i > idx { assert(self@[idx as int].day() < self@[i].day()); }
                }
            }
            assert(self@[idx as int].day() == d);
            Some(items[idx].price)
        } else {
            proof {
                if has_day(self@, d as int) {
                    let c = choose|c: int| 0 <= c < self@.len() && #[trigger] self@[c].day() == d;
                    if c < idx { assert(self@[c].day() < d); }
                    if c > idx { assert(self@[idx as int].day() < self@[c].day()); }
                }
            }
            None
        }
    }

    /// The date of the earliest point; none for an empty series.
    pub fn get_first_entry_date(&self) -> (r: Option<Date>)
        ensures
            r is Some <==> self@.len() > 0,
            r is Some ==> r->0 == self@[0].date,
    {
        if self.sorted_series_items.len() == 0 {
            None
        } else {
            Some(self.sorted_series_items[0].date)
        }
    }

    /// The date of the latest point; none for an empty series.
    pub fn get_last_entry_date(&self) -> (r: Option<Date>)
        ensures
            r is Some <==> self@.len() > 0,
            r is Some ==> r->0 == self@.last().date,
    {
        let n = self.sorted_series_items.len();
        if n == 0 {
            None
        } else {
            Some(self.sorted_series_items[n - 1].date)
        }
    }

    /// The later of the two series' first dates; none if either is empty.
    pub fn get_first_shared_date(&self, other_series: &Self) -> (r: Option<Date>)
        ensures
            r is Some <==> self@.len() > 0 && other_series@.len() > 0,
            r is Some ==> r->0.number() == max(self@[0].day(), other_series@[0].day()),
    {
        let first_date_one = match self.get_first_entry_date() {
            Some(d) => d,
            None => return None,
        };
        let first_date_two = match other_series.get_first_entry_date() {
            Some(d) => d,
            None => return None,
        };
        if first_date_one.day_number() >= first_date_two.day_number() {
            Some(first_date_one)
        } else {
            Some(first_date_two)
        }
    }

    /// The earlier of the two series' last dates; none if either is empty.
    pub fn get_last_shared_date(&self, other_series: &Self) -> (r: Option<Date>)
        ensures
            r is Some <==> self@.len() > 0 && other_series@.len() > 0,
            r is Some ==> r->0.number() == min(self@.last().day(), other_series@.last().day()),
    {
        let last_date_one = match self.get_last_entry_date() {
            Some(d) => d,
            None => return None,
        };
        let last_date_two = match other_series.get_last_entry_date() {
            Some(d) => d,
            None => return None,
        };
        if last_date_one.day_number() <= last_date_two.day_number() {
            Some(last_date_one)
        } else {
            Some(last_date_two)
        }
    }

    /// The number of points held.
    pub fn len(&self) -> (r: usize)
        ensures
            r == self@.len(),
    {
        self.sorted_series_items.len()
    }

    /// The point at position `i`, counted from the earliest.
    pub fn point(&self, i: usize) -> (r: PricePoint)
        requires
            i < self@.len(),
        ensures
            r == self@[i as int],
    {
        self.sorted_series_items[i]
    }
}

} // verus!
