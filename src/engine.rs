//! Joins an index series against the price series: the shared window, one
//! record per day of it, and the months each index series covers.
use vstd::prelude::*;
use vstd::math::{max, min};
use crate::calendar::{civil_of, Date};
use crate::btc_price_history::BTCPriceHistory;
use crate::cpi_ap::{Area, AreaCode, Item, ItemCode};
use crate::cpi_query_engine::CpiQueryEngine;
use crate::dated_series::{interpolated, lemma_interpolated_in_range, DatedSeries, PricePoint};

verus! {

/// Scale of a derived value: units of the denominator's smallest part
/// (satoshis per bitcoin).
pub const SATS_PER_COIN: u64 = 100_000_000;

/// One derived record: a calendar day and the index value on it, expressed
/// in satoshis.
#[derive(Clone, Copy, Debug, PartialEq, Eq, Structural)]
pub struct BPISeriesEntry {
    pub year: i32,
    pub month: u32,
    pub day: u32,
    pub value_sats: i64,
}

/// The step at which a window is walked.
#[derive(Clone, Copy, Debug, PartialEq, Eq, Structural)]
pub enum InterpolationInterval {
    Daily,
}

/// `numerator / denominator * SATS_PER_COIN`, truncated toward zero and
/// saturated at `i64::MAX`; a zero denominator saturates unless the numerator
/// is zero too.
pub open spec fn sats_value(numerator: int, denominator: int) -> int {
    if denominator == 0 {
        if numerator == 0 { 0 } else { i64::MAX as int }
    } else {
        min(numerator * SATS_PER_COIN / denominator, i64::MAX as int)
    }
}

/// The window that two series share, narrowed by the optional bounds: its
/// first and last day. None when either series is empty.
pub open spec fn shared_window(
    num: Seq<PricePoint>,
    den: Seq<PricePoint>,
    start_or: Option<Date>,
    end_or: Option<Date>,
) -> Option<(int, int)> {
    if num.len() == 0 || den.len() == 0 {
        None
    } else {
        let first = max(num[0].day(), den[0].day());
        let last = min(num.last().day(), den.last().day());
        let start = match start_or {
            Some(b) => max(first, b.number()),
            None => first,
        };
        let end = match end_or {
            Some(b) => min(last, b.number()),
            None => last,
        };
        Some((start, end))
    }
}

/// The record for day `d`, if both series give a price on it.
pub open spec fn entry_on(num: Seq<PricePoint>, den: Seq<PricePoint>, d: int) -> Option<BPISeriesEntry> {
    match (interpolated(num, d), interpolated(den, d)) {
        (Some(a), Some(b)) => Some(
            BPISeriesEntry {
                year: civil_of(d).0 as i32,
                month: civil_of(d).1 as u32,
                day: civil_of(d).2 as u32,
                value_sats: sats_value(a as int, b as int) as i64,
            },
        ),
        _ => None,
    }
}

/// The records for the days `lo` to `hi`, in order, skipping days without one.
pub open spec fn entries_between(num: Seq<PricePoint>, den: Seq<PricePoint>, lo: int, hi: int) -> Seq<
    BPISeriesEntry,
>
    decreases hi - lo + 1,
{
    if hi < lo {
        Seq::empty()
    } else {
        let prev = entries_between(num, den, lo, hi - 1);
        match entry_on(num, den, hi) {
            Some(e) => prev.push(e),
            None => prev,
        }
    }
}

/// What slicing returns: the records of every day of the shared window.
pub open spec fn sliced(
    num: Seq<PricePoint>,
    den: Seq<PricePoint>,
    start_or: Option<Date>,
    end_or: Option<Date>,
) -> Seq<BPISeriesEntry> {
    match shared_window(num, den, start_or, end_or) {
        Some((start, end)) => entries_between(num, den, start, end),
        None => Seq::empty(),
    }
}

/// Where every day from `lo` to `hi` has a record, there are `hi - lo + 1`
/// of them, the k-th for day `lo + k`.
proof fn lemma_entries_every_day(num: Seq<PricePoint>, den: Seq<PricePoint>, lo: int, hi: int)
    requires
        lo <= hi + 1,
        forall|d: int| lo <= d <= hi ==> (#[trigger] entry_on(num, den, d)) is Some,
    ensures
        entries_between(num, den, lo, hi).len() == hi - lo + 1,
        forall|k: int| 0 <= k <= hi - lo ==> entry_on(num, den, lo + k) == Some(
            #[trigger] entries_between(num, den, lo, hi)[k],
        ),
    decreases hi - lo + 1,
{
    if lo <= hi {
        lemma_entries_every_day(num, den, lo, hi - 1);
        assert(entry_on(num, den, hi) is Some);
        let prev = entries_between(num, den, lo, hi - 1);
        let all = entries_between(num, den, lo, hi);
        assert forall|k: int| 0 <= k <= hi - lo implies entry_on(num, den, lo + k) == Some(#[trigger] all[k]) by {
            if k < hi - lo {
                assert(all[k] == prev[k]);
            }
        }
    }
}

/// Slicing gives exactly one record for each day of the shared window, in
/// order and without gaps: the k-th record is the one for the window's first
/// day plus k.
pub proof fn law_slice_one_record_per_day(
    num: Seq<PricePoint>,
    den: Seq<PricePoint>,
    start_or: Option<Date>,
    end_or: Option<Date>,
    start: int,
    end: int,
)
    requires
        crate::dated_series::strictly_ascending(num),
        crate::dated_series::strictly_ascending(den),
        shared_window(num, den, start_or, end_or) == Some((start, end)),
        start <= end,
    ensures
        sliced(num, den, start_or, end_or).len() == end - start + 1,
        forall|k: int| 0 <= k <= end - start ==> entry_on(num, den, start + k) == Some(
            #[trigger] sliced(num, den, start_or, end_or)[k],
        ),
{
    assert forall|d: int| start <= d <= end implies (#[trigger] entry_on(num, den, d)) is Some by {
        lemma_interpolated_in_range(num, d);
        lemma_interpolated_in_range(den, d);
    }
    lemma_entries_every_day(num, den, start, end);
}

/// Slicing depends on its arguments alone: two slices of the same series
/// with the same bounds are equal.
pub proof fn law_slice_deterministic(
    num: Seq<PricePoint>,
    den: Seq<PricePoint>,
    start_or: Option<Date>,
    end_or: Option<Date>,
    first: Seq<BPISeriesEntry>,
    second: Seq<BPISeriesEntry>,
)
    requires
        first == sliced(num, den, start_or, end_or),
        second == sliced(num, den, start_or, end_or),
    ensures
        first == second,
{
}

/// The derived value of `numerator` in units of `denominator`.
fn compute_value_sats(numerator: u64, denominator: u64) -> (r: i64)
    ensures
        r == sats_value(numerator as int, denominator as int),
{
    if denominator == 0 {
        if numerator == 0 {
            0
        } else {
            i64::MAX
        }
    } else {
        assert(numerator * SATS_PER_COIN <= u64::MAX * SATS_PER_COIN) by (nonlinear_arith)
            requires numerator <= u64::MAX;
        let q = numerator as u128 * SATS_PER_COIN as u128 / denominator as u128;
        if q > i64::MAX as u128 {
            i64::MAX
        } else {
            q as i64
        }
    }
}

/// Every day from `start_date` to `end_date`, both included, at the given step.
pub fn interpolate_dates(start_date: &Date, end_date: &Date, interval: InterpolationInterval) -> (r: Vec<
    Date,
>)
    ensures
        r.len() == if start_date.number() <= end_date.number() {
            end_date.number() - start_date.number() + 1
        } else {
            0
        },
        forall|k: int| 0 <= k < r.len() ==> #[trigger] r@[k].number() == start_date.number() + k,
{
    match interval {
        InterpolationInterval::Daily => {
            let mut dates: Vec<Date> = Vec::new();
            let first = start_date.day_number();
            let last = end_date.day_number();
            if first > last {
                return dates;
            }
            let mut d: i32 = first;
            while d <= last
                invariant
                    first == start_date.number(),
                    last == end_date.number(),
                    first <= d <= last + 1,
                    crate::calendar::MIN_DAY <= first,
                    last <= crate::calendar::MAX_DAY,
                    dates.len() == d - first,
                    forall|k: int| 0 <= k < dates.len() ==> #[trigger] dates@[k].number() == first + k,
                decreases last + 1 - d,
            {
                match Date::from_day_number(d) {
                    Some(date) => dates.push(date),
                    None => {},
                }
                d = d + 1;
            }
            dates
        },
    }
}

/// The derived records of `cpi_item_price_series` against
/// `bitcoin_price_series`, one per day of their shared window narrowed by the
/// optional bounds, in ascending order of date.
pub fn slice_bpi_series(
    cpi_item_price_series: &DatedSeries,
    bitcoin_price_series: &DatedSeries,
    start_or: Option<Date>,
    end_or: Option<Date>,
    interpolation_interval: InterpolationInterval,
) -> (r: Vec<BPISeriesEntry>)
    requires
        cpi_item_price_series.wf(),
        bitcoin_price_series.wf(),
    ensures
        r@ == sliced(cpi_item_price_series@, bitcoin_price_series@, start_or, end_or),
{
    let ghost num = cpi_item_price_series@;
    let ghost den = bitcoin_price_series@;
    let mut start = match cpi_item_price_series.get_first_shared_date(bitcoin_price_series) {
        Some(start) => start,
        None => return Vec::new(),
    };
    if let Some(start_override) = start_or {
        if start_override.day_number() > start.day_number() {
            start = start_override;
        }
    }
    let mut end = match cpi_item_price_series.get_last_shared_date(bitcoin_price_series) {
        Some(end) => end,
        None => return Vec::new(),
    };
    if let Some(end_override) = end_or {
        if end_override.day_number() < end.day_number() {
            end = end_override;
        }
    }
    let ghost lo = start.number();
    let ghost hi = end.number();
    assert(shared_window(num, den, start_or, end_or) == Some((lo, hi)));
    if start.day_number() > end.day_number() {
        return Vec::new();
    }
    let dates = interpolate_dates(&start, &end, interpolation_interval);
    let mut entries: Vec<BPISeriesEntry> = Vec::new();
    let mut k: usize = 0;
    while k < dates.len()
        invariant
            cpi_item_price_series.wf(),
            bitcoin_price_series.wf(),
            num == cpi_item_price_series@,
            den == bitcoin_price_series@,
            dates.len() == hi - lo + 1,
            forall|i: int| 0 <= i < dates.len() ==> #[trigger] dates@[i].number() == lo + i,
            k <= dates.len(),
            entries@ == entries_between(num, den, lo, lo + k - 1),
        decreases dates.len() - k,
    {
        let date = dates[k];
        let ghost d = date.number();
        assert(d == lo + k);
        let a = cpi_item_price_series.get_interpolated_price(date);
        let b = bitcoin_price_series.get_interpolated_price(date);
        match (a, b) {
            (Some(a), Some(b)) => {
                let (year, month, day) = date.ymd();
                entries.push(BPISeriesEntry { year, month, day, value_sats: compute_value_sats(a, b) });
            },
            _ => {},
        }
        k = k + 1;
    }
    entries
}

/// The months that one (item, area) series covers once joined.
pub struct BPISeriesRange {
    pub item_code: ItemCode,
    pub area_code: AreaCode,
    pub start_year: i32,
    pub start_month: u32,
    pub end_year: i32,
    pub end_month: u32,
}

/// What a `BPISeriesRange` holds, as plain values.
pub struct BPISeriesRangeView {
    pub item_code: Seq<char>,
    pub area_code: Seq<char>,
    pub start_year: i32,
    pub start_month: u32,
    pub end_year: i32,
    pub end_month: u32,
}

impl View for BPISeriesRange {
    type V = BPISeriesRangeView;

    open spec fn view(&self) -> BPISeriesRangeView {
        BPISeriesRangeView {
            item_code: self.item_code@,
            area_code: self.area_code@,
            start_year: self.start_year,
            start_month: self.start_month,
            end_year: self.end_year,
            end_month: self.end_month,
        }
    }
}

/// The records of (`item`, `area`) against `prices` over their whole shared
/// window; none for an unknown pair.
pub open spec fn full_slice(cpi: CpiQueryEngine, prices: Seq<PricePoint>, item: Seq<char>, area: Seq<char>) -> Seq<
    BPISeriesEntry,
> {
    match cpi.series_for(item, area) {
        Some(s) => sliced(s, prices, None, None),
        None => Seq::empty(),
    }
}

/// The range that (`item`, `area`) covers: the months of its first and last
/// record; none where it has no record.
pub open spec fn range_of(cpi: CpiQueryEngine, prices: Seq<PricePoint>, item: Seq<char>, area: Seq<char>) -> Option<
    BPISeriesRangeView,
> {
    let records = full_slice(cpi, prices, item, area);
    if records.len() > 0 {
        Some(
            BPISeriesRangeView {
                item_code: item,
                area_code: area,
                start_year: records[0].year,
                start_month: records[0].month,
                end_year: records.last().year,
                end_month: records.last().month,
            },
        )
    } else {
        None
    }
}

/// The ranges of `item` with each of `areas`, in order.
pub open spec fn area_ranges(cpi: CpiQueryEngine, prices: Seq<PricePoint>, item: Seq<char>, areas: Seq<Area>) -> Seq<
    BPISeriesRangeView,
>
    decreases areas.len(),
{
    if areas.len() == 0 {
        Seq::empty()
    } else {
        let prev = area_ranges(cpi, prices, item, areas.drop_last());
        match range_of(cpi, prices, item, areas.last().area_code@) {
            Some(x) => prev.push(x),
            None => prev,
        }
    }
}

/// The ranges of every item with every area, items outermost.
pub open spec fn all_ranges(cpi: CpiQueryEngine, prices: Seq<PricePoint>, items: Seq<Item>, areas: Seq<Area>) -> Seq<
    BPISeriesRangeView,
>
    decreases items.len(),
{
    if items.len() == 0 {
        Seq::empty()
    } else {
        all_ranges(cpi, prices, items.drop_last(), areas) + area_ranges(
            cpi,
            prices,
            items.last().item_code@,
            areas,
        )
    }
}

pub open spec fn ranges_view(ranges: Seq<BPISeriesRange>) -> Seq<BPISeriesRangeView> {
    ranges.map_values(|x: BPISeriesRange| x@)
}

/// The service state: the index catalog, the price history and the ranges
/// computed from them once.
pub struct BPIEngine {
    cpi_query_engine: CpiQueryEngine,
    btc_price_history: BTCPriceHistory,
    computed_valid_series_ranges: Vec<BPISeriesRange>,
}

impl BPIEngine {
    pub closed spec fn wf(&self) -> bool {
        self.cpi_query_engine.wf() && self.btc_price_history.wf()
    }

    pub closed spec fn catalog(&self) -> CpiQueryEngine {
        self.cpi_query_engine
    }

    /// The price series that every index series is divided by.
    pub closed spec fn prices(&self) -> Seq<PricePoint> {
        self.btc_price_history.best()
    }

    pub closed spec fn ranges(&self) -> Seq<BPISeriesRangeView> {
        ranges_view(self.computed_valid_series_ranges@)
    }

    /// Puts the engine together and computes the covered ranges.
    pub fn new(cpi_query_engine: CpiQueryEngine, btc_price_history: BTCPriceHistory) -> (r: BPIEngine)
        requires
            cpi_query_engine.wf(),
            btc_price_history.wf(),
        ensures
            r.wf(),
            r.catalog() == cpi_query_engine,
            r.prices() == btc_price_history.best(),
            r.ranges() == all_ranges(
                cpi_query_engine,
                btc_price_history.best(),
                cpi_query_engine.items_view(),
                cpi_query_engine.areas_view(),
            ),
    {
        let mut bpi_engine = BPIEngine {
            cpi_query_engine,
            btc_price_history,
            computed_valid_series_ranges: Vec::new(),
        };
        bpi_engine.compute_valid_series_ranges();
        bpi_engine
    }

    pub fn get_areas(&self) -> (r: &Vec<Area>)
        ensures
            r@ == self.catalog().areas_view(),
    {
        self.cpi_query_engine.get_areas()
    }

    pub fn get_items(&self) -> (r: &Vec<Item>)
        ensures
            r@ == self.catalog().items_view(),
    {
        self.cpi_query_engine.get_items()
    }

    /// The derived records of (`item_code`, `area_code`) within the optional
    /// bounds; none for an unknown pair.
    pub fn get_series_data(
        &self,
        item_code: ItemCode,
        area_code: AreaCode,
        start_or: Option<Date>,
        end_or: Option<Date>,
        interpolation_interval: InterpolationInterval,
    ) -> (r: Vec<BPISeriesEntry>)
        requires
            self.wf(),
        ensures
            r@ == match self.catalog().series_for(item_code@, area_code@) {
                Some(s) => sliced(s, self.prices(), start_or, end_or),
                None => Seq::empty(),
            },
    {
        let cpi_item_price_series = match self.cpi_query_engine.get_series_data(item_code, area_code) {
            Some(cpi_series) => cpi_series,
            None => return Vec::new(),
        };
        let bitcoin_price_series = self.btc_price_history.get_best_dataset();
        slice_bpi_series(cpi_item_price_series, bitcoin_price_series, start_or, end_or, interpolation_interval)
    }

    pub fn get_valid_series_ranges(&self) -> (r: &Vec<BPISeriesRange>)
        ensures
            ranges_view(r@) == self.ranges(),
    {
        &self.computed_valid_series_ranges
    }

    /// Records, for every item and area, the months its joined series covers.
    fn compute_valid_series_ranges(&mut self)
        requires
            old(self).wf(),
        ensures
            final(self).wf(),
            final(self).catalog() == old(self).catalog(),
            final(self).prices() == old(self).prices(),
            final(self).ranges() == all_ranges(
                old(self).catalog(),
                old(self).prices(),
                old(self).catalog().items_view(),
                old(self).catalog().areas_view(),
            ),
    {
        let ghost cpi = self.cpi_query_engine;
        let ghost prices = self.prices();
        let items = self.get_items();
        let areas = self.get_areas();
        let ghost its = items@;
        let ghost ars = areas@;
        let mut series_ranges: Vec<BPISeriesRange> = Vec::new();
        let mut i: usize = 0;
        while i < items.len()
            invariant
                self.wf(),
                cpi == self.cpi_query_engine,
                prices == self.prices(),
                its == items@,
                ars == areas@,
                i <= its.len(),
                ranges_view(series_ranges@) == all_ranges(cpi, prices, its.take(i as int), ars),
            decreases its.len() - i,
        {
            let item = &items[i];
            let ghost before = ranges_view(series_ranges@);
            let mut a: usize = 0;
            while a < areas.len()
                invariant
                    self.wf(),
                    cpi == self.cpi_query_engine,
                    prices == self.prices(),
                    its == items@,
                    ars == areas@,
                    i < its.len(),
                    *item == its[i as int],
                    a <= ars.len(),
                    ranges_view(series_ranges@) == before + area_ranges(cpi, prices, item.item_code@, ars.take(a as int)),
                decreases ars.len() - a,
            {
                let area = &areas[a];
                assert(ars.take(a + 1).drop_last() =~= ars.take(a as int));
                assert(ars.take(a + 1).last() == *area);
                let series_entries = self.get_series_data(
                    item.get_item_code().duplicate(),
                    area.get_area_code().duplicate(),
                    None,
                    None,
                    InterpolationInterval::Daily,
                );
                let n = series_entries.len();
                let ghost prev = series_ranges@;
                if n > 0 {
                    let first_entry = series_entries[0];
                    let last_entry = series_entries[n - 1];
                    series_ranges.push(
                        BPISeriesRange {
                            item_code: item.get_item_code().duplicate(),
                            area_code: area.get_area_code().duplicate(),
                            start_year: first_entry.year,
                            start_month: first_entry.month,
                            end_year: last_entry.year,
                            end_month: last_entry.month,
                        },
                    );
                    assert(ranges_view(series_ranges@) =~= ranges_view(prev).push(series_ranges@.last()@));
                }
                a = a + 1;
            }
            assert(ars.take(ars.len() as int) =~= ars);
            assert(its.take(i + 1).drop_last() =~= its.take(i as int));
            assert(its.take(i + 1).last() == *item);
            i = i + 1;
        }
        assert(its.take(its.len() as int) =~= its);
        self.computed_valid_series_ranges = series_ranges;
    }
}

} // verus!
