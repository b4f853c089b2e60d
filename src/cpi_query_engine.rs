//! The index series of every (item, area) pair, built once from the monthly
//! entries.
use vstd::prelude::*;
use crate::calendar::{date_of_civil, Date};
use crate::cpi_ap::{entries_of_raw, raw_entry_outcome, Area, AreaCode, Item, ItemCode, MalformedRecord, RawSeriesEntry, SeriesEntry, SeriesEntryView};
use crate::dated_series::{built_from, lemma_distinct_days_at_most_len, DatedSeries, PricePoint};

verus! {

/// The point an entry stands for: its value on the first day of its month.
/// None where that day does not exist.
pub open spec fn entry_point(e: SeriesEntryView) -> Option<PricePoint> {
    match date_of_civil(e.year, e.month, 1) {
        Some(d) => Some(PricePoint { date: d, price: e.value as u64 }),
        None => None,
    }
}

/// The points of the entries of one (item, area) pair, in order.
pub open spec fn key_points(entries: Seq<SeriesEntryView>, item: Seq<char>, area: Seq<char>) -> Seq<
    PricePoint,
>
    decreases entries.len(),
{
    if entries.len() == 0 {
        Seq::empty()
    } else {
        let prev = key_points(entries.drop_last(), item, area);
        let e = entries.last();
        if e.item_code == item && e.area_code == area && entry_point(e) is Some {
            prev.push(entry_point(e)->0)
        } else {
            prev
        }
    }
}

pub open spec fn entries_view(entries: Seq<SeriesEntry>) -> Seq<SeriesEntryView> {
    entries.map_values(|e: SeriesEntry| e@)
}

/// The series id of `raw` names (`item`, `area`).
pub open spec fn names_key(raw: RawSeriesEntry, item: Seq<char>, area: Seq<char>) -> bool {
    &&& raw.series_id@.len() >= 7
    &&& raw.series_id@.subrange(3, 7) == area
    &&& raw.series_id@.skip(7) == item
}

/// How many raw rows name (`item`, `area`).
pub open spec fn key_row_count(raws: Seq<RawSeriesEntry>, item: Seq<char>, area: Seq<char>) -> nat
    decreases raws.len(),
{
    if raws.len() == 0 {
        0
    } else {
        key_row_count(raws.drop_last(), item, area) + if names_key(raws.last(), item, area) { 1nat } else { 0nat }
    }
}

/// A row without data names its key but gives none of its points.
pub open spec fn is_no_data_row_of(raw: RawSeriesEntry, item: Seq<char>, area: Seq<char>) -> bool {
    names_key(raw, item, area) && raw_entry_outcome(raw) == Ok::<Option<SeriesEntryView>, MalformedRecord>(None)
}

proof fn lemma_key_points_of_raw(raws: Seq<RawSeriesEntry>, item: Seq<char>, area: Seq<char>)
    ensures
        key_points(entries_of_raw(raws), item, area).len() <= key_row_count(raws, item, area),
        (exists|k: int| 0 <= k < raws.len() && #[trigger] is_no_data_row_of(raws[k], item, area))
            ==> key_points(entries_of_raw(raws), item, area).len() < key_row_count(raws, item, area),
    decreases raws.len(),
{
    if raws.len() > 0 {
        let init = raws.drop_last();
        lemma_key_points_of_raw(init, item, area);
        let prev = entries_of_raw(init);
        match raw_entry_outcome(raws.last()) {
            Ok(Some(e)) => {
                assert(prev.push(e).drop_last() =~= prev);
            },
            _ => {},
        }
        if exists|k: int| 0 <= k < raws.len() && #[trigger] is_no_data_row_of(raws[k], item, area) {
            let k = choose|k: int| 0 <= k < raws.len() && #[trigger] is_no_data_row_of(raws[k], item, area);
            if k < raws.len() - 1 {
                assert(init[k] == raws[k]);
                assert(is_no_data_row_of(init[k], item, area));
            }
        }
    }
}

/// Rows that mark a month without data are never stored: where a key has
/// one, its series holds fewer points than rows named the key.
pub proof fn law_no_data_rows_shrink_series(
    raws: Seq<RawSeriesEntry>,
    item: Seq<char>,
    area: Seq<char>,
    k: int,
    stored: Seq<PricePoint>,
)
    requires
        0 <= k < raws.len(),
        is_no_data_row_of(raws[k], item, area),
        built_from(stored, key_points(entries_of_raw(raws), item, area)),
    ensures
        stored.len() < key_row_count(raws, item, area),
{
    lemma_key_points_of_raw(raws, item, area);
    lemma_distinct_days_at_most_len(key_points(entries_of_raw(raws), item, area));
}

pub struct CpiQueryEngine {
    areas: Vec<Area>,
    items: Vec<Item>,
    /// The key of each series: its item code and area code.
    item_codes: Vec<ItemCode>,
    area_codes: Vec<AreaCode>,
    /// One series per key, each sorted chronologically.
    series: Vec<DatedSeries>,
}

/// The position of key (`item`, `area`) among the keys, if it is there.
fn find_key(item_codes: &Vec<ItemCode>, area_codes: &Vec<AreaCode>, item: &ItemCode, area: &AreaCode) -> (r: Option<usize>)
    requires
        item_codes.len() == area_codes.len(),
    ensures
        r matches Some(g) ==> g < item_codes.len() && item_codes@[g as int]@ == item@ && area_codes@[g as int]@ == area@,
        r is None ==> forall|g: int| 0 <= g < item_codes.len() ==> !(#[trigger] item_codes@[g]@ == item@ && area_codes@[g]@ == area@),
{
    let n = item_codes.len();
    // Entries of one series usually come together: try the newest key first.
    if n > 0 && item_codes[n - 1].same_as(item) && area_codes[n - 1].same_as(area) {
        return Some(n - 1);
    }
    let mut g: usize = 0;
    while g < n
        invariant
            n == item_codes.len() == area_codes.len(),
            g <= n,
            forall|h: int| 0 <= h < g ==> !(#[trigger] item_codes@[h]@ == item@ && area_codes@[h]@ == area@),
        decreases n - g,
    {
        if item_codes[g].same_as(item) && area_codes[g].same_as(area) {
            return Some(g);
        }
        g = g + 1;
    }
    None
}

impl CpiQueryEngine {
    pub closed spec fn wf(&self) -> bool {
        &&& self.item_codes.len() == self.area_codes.len() == self.series.len()
        &&& forall|g: int, h: int| #![trigger self.item_codes@[g], self.item_codes@[h]]
            0 <= g < h < self.item_codes.len() ==> !(self.item_codes@[g]@ == self.item_codes@[h]@
                && self.area_codes@[g]@ == self.area_codes@[h]@)
        &&& forall|g: int| 0 <= g < self.series.len() ==> (#[trigger] self.series@[g]).wf()
    }

    /// The series held for (`item`, `area`), if any.
    pub closed spec fn series_for(&self, item: Seq<char>, area: Seq<char>) -> Option<Seq<PricePoint>> {
        if exists|g: int| 0 <= g < self.item_codes.len() && #[trigger] self.item_codes@[g]@ == item
            && self.area_codes@[g]@ == area {
            let g = choose|g: int| 0 <= g < self.item_codes.len() && #[trigger] self.item_codes@[g]@ == item
                && self.area_codes@[g]@ == area;
            Some(self.series@[g]@)
        } else {
            None
        }
    }

    pub closed spec fn areas_view(&self) -> Seq<Area> {
        self.areas@
    }

    pub closed spec fn items_view(&self) -> Seq<Item> {
        self.items@
    }

    /// Groups the entries by (item, area) and builds one series per pair,
    /// dating each entry on the first day of its month. An entry whose month
    /// does not name a day of the calendar is left out.
    pub fn new(series_entries: &Vec<SeriesEntry>, areas: Vec<Area>, items: Vec<Item>) -> (r: CpiQueryEngine)
        ensures
            r.wf(),
            r.areas_view() == areas@,
            r.items_view() == items@,
            forall|item: Seq<char>, area: Seq<char>| #[trigger] r.series_for(item, area) is Some
                <==> key_points(entries_view(series_entries@), item, area).len() > 0,
            forall|item: Seq<char>, area: Seq<char>| #[trigger] r.series_for(item, area) is Some
                ==> built_from(r.series_for(item, area)->0, key_points(entries_view(series_entries@), item, area)),
    {
        let ghost es = entries_view(series_entries@);
        let mut item_codes: Vec<ItemCode> = Vec::new();
        let mut area_codes: Vec<AreaCode> = Vec::new();
        let mut points: Vec<Vec<PricePoint>> = Vec::new();
        let n = series_entries.len();
        let mut j: usize = 0;
        while j < n
            invariant
                n == series_entries.len(),
                es == entries_view(series_entries@),
                j <= n,
                item_codes.len() == area_codes.len() == points.len(),
                forall|g: int, h: int| #![trigger item_codes@[g], item_codes@[h]]
                    0 <= g < h < item_codes.len() ==> !(item_codes@[g]@ == item_codes@[h]@
                        && area_codes@[g]@ == area_codes@[h]@),
                forall|g: int| 0 <= g < points.len() ==> (#[trigger] points@[g])@ == key_points(
                    es.take(j as int), item_codes@[g]@, area_codes@[g]@),
                forall|g: int| 0 <= g < points.len() ==> (#[trigger] points@[g])@.len() > 0,
                forall|item: Seq<char>, area: Seq<char>| #[trigger] key_points(es.take(j as int), item, area).len() > 0
                    ==> exists|g: int| 0 <= g < item_codes.len() && #[trigger] item_codes@[g]@ == item
                    && area_codes@[g]@ == area,
            decreases n - j,
        {
            let e = &series_entries[j];
            let ghost ev = es[j as int];
            assert(ev == e@);
            assert(es.take(j + 1).drop_last() =~= es.take(j as int));
            assert(es.take(j + 1).last() == ev);
            let ghost old_codes_i = item_codes@;
            let ghost old_codes_a = area_codes@;
            let ghost old_points = points@;
            match Date::from_ymd(e.year, e.month, 1) {
                None => {
                    assert forall|h: int| 0 <= h < points.len() implies (#[trigger] points@[h])@ == key_points(
                        es.take(j + 1), item_codes@[h]@, area_codes@[h]@) by {
                        assert(key_points(es.take(j + 1), item_codes@[h]@, area_codes@[h]@)
                            == key_points(es.take(j as int), item_codes@[h]@, area_codes@[h]@));
                    }
                    assert forall|item: Seq<char>, area: Seq<char>| #[trigger] key_points(es.take(j + 1), item, area).len() > 0
                        implies exists|h: int| 0 <= h < item_codes.len() && #[trigger] item_codes@[h]@ == item
                        && area_codes@[h]@ == area by {
                        assert(key_points(es.take(j + 1), item, area) == key_points(es.take(j as int), item, area));
                    }
                },
                Some(date) => {
                    let p = PricePoint { date, price: e.value };
                    assert(entry_point(ev) == Some(p));
                    match find_key(&item_codes, &area_codes, &e.item_code, &e.area_code) {
                        Some(g) => {
                            let mut tmp: Vec<PricePoint> = Vec::new();
                            points.set_and_swap(g, &mut tmp);
                            tmp.push(p);
                            points.set_and_swap(g, &mut tmp);
                            assert(points@[g as int]@ =~= old_points[g as int]@.push(p));
                            assert forall|h: int| 0 <= h < points.len() implies (#[trigger] points@[h])@ == key_points(
                                es.take(j + 1), item_codes@[h]@, area_codes@[h]@) by {
                                if h != g {
                                    assert(old_points[h] == points@[h]);
                                }
                            }
                            assert forall|item: Seq<char>, area: Seq<char>| #[trigger] key_points(es.take(j + 1), item, area).len() > 0
                                implies exists|h: int| 0 <= h < item_codes.len() && #[trigger] item_codes@[h]@ == item
                                && area_codes@[h]@ == area by {
                                if !(item == ev.item_code && area == ev.area_code) {
                                    assert(key_points(es.take(j + 1), item, area) == key_points(es.take(j as int), item, area));
                                    let h = choose|h: int| 0 <= h < old_codes_i.len() && #[trigger] old_codes_i[h]@ == item
                                        && old_codes_a[h]@ == area;
                                    assert(item_codes@[h]@ == item);
                                } else {
                                    assert(item_codes@[g as int]@ == item);
                                }
                            }
                        },
                        None => {
                            assert(key_points(es.take(j as int), ev.item_code, ev.area_code).len() == 0);
                            item_codes.push(e.item_code.duplicate());
                            area_codes.push(e.area_code.duplicate());
                            let mut fresh: Vec<PricePoint> = Vec::new();
                            fresh.push(p);
                            points.push(fresh);
                            let ghost last = (points.len() - 1) as int;
                            assert(key_points(es.take(j + 1), ev.item_code, ev.area_code) =~= seq![p]);
                            assert forall|g: int, h: int| #![trigger item_codes@[g], item_codes@[h]]
                                0 <= g < h < item_codes.len() implies !(item_codes@[g]@ == item_codes@[h]@
                                    && area_codes@[g]@ == area_codes@[h]@) by {
                                if h == last {
                                    assert(old_codes_i[g] == item_codes@[g]);
                                    assert(old_codes_a[g] == area_codes@[g]);
                                } else {
                                    assert(old_codes_i[g] == item_codes@[g] && old_codes_i[h] == item_codes@[h]);
                                }
                            }
                            assert forall|h: int| 0 <= h < points.len() implies (#[trigger] points@[h])@ == key_points(
                                es.take(j + 1), item_codes@[h]@, area_codes@[h]@) by {
                                if h != last {
                                    assert(old_points[h] == points@[h]);
                                    assert(old_codes_i[h] == item_codes@[h]);
                                    assert(old_codes_a[h] == area_codes@[h]);
                                }
                            }
                            assert forall|item: Seq<char>, area: Seq<char>| #[trigger] key_points(es.take(j + 1), item, area).len() > 0
                                implies exists|h: int| 0 <= h < item_codes.len() && #[trigger] item_codes@[h]@ == item
                                && area_codes@[h]@ == area by {
                                if !(item == ev.item_code && area == ev.area_code) {
                                    assert(key_points(es.take(j + 1), item, area) == key_points(es.take(j as int), item, area));
                                    let h = choose|h: int| 0 <= h < old_codes_i.len() && #[trigger] old_codes_i[h]@ == item
                                        && old_codes_a[h]@ == area;
                                    assert(item_codes@[h] == old_codes_i[h]);
                                    assert(area_codes@[h] == old_codes_a[h]);
                                } else {
                                    assert(item_codes@[last]@ == item);
                                }
                            }
                        },
                    }
                },
            }
            j = j + 1;
        }
        assert(es.take(n as int) =~= es);
        assert forall|h: int| 0 <= h < points.len() implies key_points(es, (#[trigger] item_codes@[h])@, area_codes@[h]@).len() > 0 by {
            assert(points@[h]@.len() > 0);
        }
        let mut series: Vec<DatedSeries> = Vec::new();
        let mut g: usize = 0;
        let m = points.len();
        while g < m
            invariant
                m == points.len() == item_codes.len() == area_codes.len(),
                g <= m,
                series.len() == g,
                forall|h: int| g <= h < m ==> (#[trigger] points@[h])@ == key_points(es, item_codes@[h]@, area_codes@[h]@),
                forall|h: int| 0 <= h < m ==> key_points(es, (#[trigger] item_codes@[h])@, area_codes@[h]@).len() > 0,
                forall|h: int| 0 <= h < g ==> (#[trigger] series@[h]).wf() && built_from(
                    series@[h]@, key_points(es, item_codes@[h]@, area_codes@[h]@)),
            decreases m - g,
        {
            let mut tmp: Vec<PricePoint> = Vec::new();
            let ghost before = points@;
            points.set_and_swap(g, &mut tmp);
            assert forall|h: int| g < h < m implies #[trigger] points@[h] == before[h] by {}
            series.push(DatedSeries::new(tmp));
            g = g + 1;
        }
        let r = CpiQueryEngine { areas, items, item_codes, area_codes, series };
        proof {
            assert forall|item: Seq<char>, area: Seq<char>| #[trigger] r.series_for(item, area) is Some
                <==> key_points(es, item, area).len() > 0 by {
                if r.series_for(item, area) is Some {
                    let g = choose|g: int| 0 <= g < r.item_codes.len() && #[trigger] r.item_codes@[g]@ == item
                        && r.area_codes@[g]@ == area;
                    assert(key_points(es, r.item_codes@[g]@, r.area_codes@[g]@).len() > 0);
                }
            }
            assert forall|item: Seq<char>, area: Seq<char>| #[trigger] r.series_for(item, area) is Some
                implies built_from(r.series_for(item, area)->0, key_points(es, item, area)) by {
                let g = choose|g: int| 0 <= g < r.item_codes.len() && #[trigger] r.item_codes@[g]@ == item
                    && r.area_codes@[g]@ == area;
            }
        }
        r
    }

    pub fn get_areas(&self) -> (r: &Vec<Area>)
        ensures
            r@ == self.areas_view(),
    {
        &self.areas
    }

    pub fn get_items(&self) -> (r: &Vec<Item>)
        ensures
            r@ == self.items_view(),
    {
        &self.items
    }

    /// The series of (`item_code`, `area_code`), if entries existed for it.
    pub fn get_series_data(&self, item_code: ItemCode, area_code: AreaCode) -> (r: Option<&DatedSeries>)
        requires
            self.wf(),
        ensures
            r is Some <==> self.series_for(item_code@, area_code@) is Some,
            r is Some ==> r->0.wf() && self.series_for(item_code@, area_code@) == Some(r->0@),
    {
        match find_key(&self.item_codes, &self.area_codes, &item_code, &area_code) {
            Some(g) => {
                proof {
                    let c = choose|c: int| 0 <= c < self.item_codes.len() && #[trigger] self.item_codes@[c]@
                        == item_code@ && self.area_codes@[c]@ == area_code@;
                    assert(c == g) by {
                        if c < g {
                            assert(!(self.item_codes@[c]@ == self.item_codes@[g as int]@
                                && self.area_codes@[c]@ == self.area_codes@[g as int]@));
                        }
                        if c > g {
                            assert(!(self.item_codes@[g as int]@ == self.item_codes@[c]@
                                && self.area_codes@[g as int]@ == self.area_codes@[c]@));
                        }
                    }
                }
                Some(&self.series[g])
            },
            None => None,
        }
    }

    /// The (item, area) keys of every series held, each once.
    pub fn all_keys(&self) -> (r: Vec<(ItemCode, AreaCode)>)
        requires
            self.wf(),
        ensures
            forall|item: Seq<char>, area: Seq<char>| #[trigger] self.series_for(item, area) is Some <==> exists|g: int|
                0 <= g < r.len() && #[trigger] r@[g].0@ == item && r@[g].1@ == area,
            forall|g: int, h: int| #![trigger r@[g], r@[h]] 0 <= g < h < r.len() ==> !(r@[g].0@ == r@[h].0@
                && r@[g].1@ == r@[h].1@),
    {
        let mut out: Vec<(ItemCode, AreaCode)> = Vec::new();
        let mut g: usize = 0;
        while g < self.item_codes.len()
            invariant
                self.wf(),
                g <= self.item_codes.len(),
                out.len() == g,
                forall|h: int| 0 <= h < g ==> (#[trigger] out@[h]).0@ == self.item_codes@[h]@ && out@[h].1@
                    == self.area_codes@[h]@,
            decreases self.item_codes.len() - g,
        {
            out.push((self.item_codes[g].duplicate(), self.area_codes[g].duplicate()));
            g = g + 1;
        }
        proof {
            assert forall|item: Seq<char>, area: Seq<char>| #[trigger] self.series_for(item, area) is Some <==> exists|h: int|
                0 <= h < out.len() && #[trigger] out@[h].0@ == item && out@[h].1@ == area by {
                if self.series_for(item, area) is Some {
                    let h = choose|h: int| 0 <= h < self.item_codes.len() && #[trigger] self.item_codes@[h]@ == item
                        && self.area_codes@[h]@ == area;
                    assert(out@[h].0@ == item);
                }
                if exists|h: int| 0 <= h < out.len() && #[trigger] out@[h].0@ == item && out@[h].1@ == area {
                    let h = choose|h: int| 0 <= h < out.len() && #[trigger] out@[h].0@ == item && out@[h].1@ == area;
                    assert(self.item_codes@[h]@ == item);
                }
            }
            assert forall|a: int, b: int| #![trigger out@[a], out@[b]] 0 <= a < b < out.len() implies !(out@[a].0@
                == out@[b].0@ && out@[a].1@ == out@[b].1@) by {
                assert(!(self.item_codes@[a]@ == self.item_codes@[b]@ && self.area_codes@[a]@ == self.area_codes@[b]@));
            }
        }
        out
    }
}

} // verus!
