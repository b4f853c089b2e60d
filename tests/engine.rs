use bpi::btc_price_history::{BTCPriceHistory, PriceRow, PriceTableError};
use bpi::calendar::Date;
use bpi::cpi_ap::{AreaCode, ItemCode, RawArea, RawItem, RawSeriesEntry};
use bpi::cpi_query_engine::CpiQueryEngine;
use bpi::dated_series::{DatedSeries, PricePoint};
use bpi::engine::{interpolate_dates, slice_bpi_series, BPIEngine, BPISeriesEntry, InterpolationInterval};
use bpi::text::AMOUNT_UNIT;

fn day(y: i32, m: u32, d: u32) -> Date {
    Date::from_ymd(y, m, d).unwrap()
}

fn series(points: &[(i32, u32, u32, u64)]) -> DatedSeries {
    DatedSeries::new(points.iter().map(|&(y, m, d, v)| PricePoint { date: day(y, m, d), price: v }).collect())
}

#[test]
fn single_shared_day_gives_one_record_in_satoshis() {
    let item = series(&[(2021, 1, 1, 10 * AMOUNT_UNIT)]);
    let btc = series(&[(2021, 1, 1, 50_000 * AMOUNT_UNIT)]);
    let r = slice_bpi_series(&item, &btc, None, None, InterpolationInterval::Daily);
    assert_eq!(r, vec![BPISeriesEntry { year: 2021, month: 1, day: 1, value_sats: 20_000 }]);
}

#[test]
fn five_day_window_gives_five_consecutive_records() {
    let item = series(&[(2021, 1, 30, 100 * AMOUNT_UNIT), (2021, 2, 10, 200 * AMOUNT_UNIT)]);
    let btc = series(&[(2021, 1, 1, AMOUNT_UNIT), (2021, 2, 3, AMOUNT_UNIT)]);
    let r = slice_bpi_series(&item, &btc, None, None, InterpolationInterval::Daily);
    assert_eq!(r.len(), 5);
    let days: Vec<(i32, u32, u32)> = r.iter().map(|e| (e.year, e.month, e.day)).collect();
    assert_eq!(days, vec![(2021, 1, 30), (2021, 1, 31), (2021, 2, 1), (2021, 2, 2), (2021, 2, 3)]);
}

#[test]
fn slicing_twice_gives_the_same_records() {
    let item = series(&[(2021, 1, 1, 3 * AMOUNT_UNIT), (2021, 3, 1, 7 * AMOUNT_UNIT)]);
    let btc = series(&[(2020, 12, 1, 30_000 * AMOUNT_UNIT), (2021, 2, 15, 45_000 * AMOUNT_UNIT)]);
    let a = slice_bpi_series(&item, &btc, None, None, InterpolationInterval::Daily);
    let b = slice_bpi_series(&item, &btc, None, None, InterpolationInterval::Daily);
    assert!(!a.is_empty());
    assert_eq!(a, b);
}

#[test]
fn bounds_narrow_the_window() {
    let item = series(&[(2021, 1, 1, AMOUNT_UNIT), (2021, 12, 31, AMOUNT_UNIT)]);
    let btc = series(&[(2021, 1, 1, AMOUNT_UNIT), (2021, 12, 31, AMOUNT_UNIT)]);
    let r = slice_bpi_series(&item, &btc, Some(day(2021, 3, 1)), Some(day(2021, 3, 10)), InterpolationInterval::Daily);
    assert_eq!(r.len(), 10);
    assert_eq!((r[0].year, r[0].month, r[0].day), (2021, 3, 1));
    assert_eq!((r[9].year, r[9].month, r[9].day), (2021, 3, 10));
    assert!(r.iter().all(|e| e.value_sats == 100_000_000));
    // A bound outside the window does not widen it.
    let wide = slice_bpi_series(&item, &btc, Some(day(2020, 1, 1)), Some(day(2022, 1, 1)), InterpolationInterval::Daily);
    assert_eq!(wide.len(), 365);
}

#[test]
fn disjoint_or_empty_series_give_nothing() {
    let a = series(&[(2021, 1, 1, AMOUNT_UNIT)]);
    let b = series(&[(2021, 2, 1, AMOUNT_UNIT)]);
    assert!(slice_bpi_series(&a, &b, None, None, InterpolationInterval::Daily).is_empty());
    let empty = series(&[]);
    assert!(slice_bpi_series(&a, &empty, None, None, InterpolationInterval::Daily).is_empty());
    let crossed = slice_bpi_series(&a, &a, Some(day(2021, 1, 2)), None, InterpolationInterval::Daily);
    assert!(crossed.is_empty());
}

#[test]
fn derived_values_truncate_and_saturate() {
    let item = series(&[(2021, 1, 1, 1)]);
    let btc = series(&[(2021, 1, 1, 3)]);
    let r = slice_bpi_series(&item, &btc, None, None, InterpolationInterval::Daily);
    assert_eq!(r[0].value_sats, 33_333_333);
    let huge = series(&[(2021, 1, 1, u64::MAX)]);
    let tiny = series(&[(2021, 1, 1, 1)]);
    let r = slice_bpi_series(&huge, &tiny, None, None, InterpolationInterval::Daily);
    assert_eq!(r[0].value_sats, i64::MAX);
    let zero = series(&[(2021, 1, 1, 0)]);
    let r = slice_bpi_series(&item, &zero, None, None, InterpolationInterval::Daily);
    assert_eq!(r[0].value_sats, i64::MAX);
    let r = slice_bpi_series(&zero, &zero, None, None, InterpolationInterval::Daily);
    assert_eq!(r[0].value_sats, 0);
}

#[test]
fn daily_dates_cover_both_ends() {
    let d = interpolate_dates(&day(2020, 2, 27), &day(2020, 3, 1), InterpolationInterval::Daily);
    let ymd: Vec<(i32, u32, u32)> = d.iter().map(|x| x.ymd()).collect();
    assert_eq!(ymd, vec![(2020, 2, 27), (2020, 2, 28), (2020, 2, 29), (2020, 3, 1)]);
    assert!(interpolate_dates(&day(2020, 3, 1), &day(2020, 2, 27), InterpolationInterval::Daily).is_empty());
}

fn raw(series_id: &str, year: &str, period: &str, value: &str) -> RawSeriesEntry {
    RawSeriesEntry {
        series_id: series_id.to_string(),
        year: year.to_string(),
        period: period.to_string(),
        value: value.to_string(),
    }
}

fn engine() -> BPIEngine {
    let raws = vec![
        raw("APU0000709111", "2021", "M01", "10"),
        raw("APU0000709111", "2021", "M02", "-"),
        raw("APU0000709111", "2021", "M03", "20"),
        raw("APU0300709111", "2021", "M01", "5"),
        raw("APU0000702111", "2021", "M13", "1.5"),
    ];
    let (entries, malformed) = bpi::cpi_ap::series_entries_from_raw(&raws);
    assert_eq!(entries.len(), 3);
    assert_eq!(malformed, 1);
    let areas = bpi::cpi_ap::areas_from_raw(&vec![
        RawArea { area_code: "0000".to_string(), area_name: "U.S. city average".to_string() },
        RawArea { area_code: "0300".to_string(), area_name: "South".to_string() },
    ]);
    let items = bpi::cpi_ap::items_from_raw(&vec![
        RawItem { item_code: "709111".to_string(), item_name: "Milk".to_string() },
        RawItem { item_code: "702111".to_string(), item_name: "Bread".to_string() },
    ]);
    let cpi = CpiQueryEngine::new(&entries, areas, items);
    let csv = b"date,open\n2021-01-01,40000\n2021-03-01,50000\n";
    let api = vec![
        PriceRow { date: "2020-12-01".to_string(), open: "20000".to_string() },
        PriceRow { date: "2021-02-01".to_string(), open: "40000.5".to_string() },
    ];
    let btc = BTCPriceHistory::new(csv, Some(api)).unwrap();
    BPIEngine::new(cpi, btc)
}

#[test]
fn engine_serves_known_pairs_against_live_prices() {
    let e = engine();
    let r = e.get_series_data(
        ItemCode("709111".to_string()),
        AreaCode("0000".to_string()),
        None,
        None,
        InterpolationInterval::Daily,
    );
    // Live prices end on 2021-02-01, so the window is January 1 to February 1.
    assert_eq!(r.len(), 32);
    assert_eq!((r[0].year, r[0].month, r[0].day), (2021, 1, 1));
    assert_eq!((r[31].year, r[31].month, r[31].day), (2021, 2, 1));
    let unknown = e.get_series_data(
        ItemCode("000000".to_string()),
        AreaCode("0000".to_string()),
        None,
        None,
        InterpolationInterval::Daily,
    );
    assert!(unknown.is_empty());
    assert_eq!(e.get_areas().len(), 2);
    assert_eq!(e.get_items().len(), 2);
}

#[test]
fn engine_lists_covered_ranges_items_first() {
    let e = engine();
    let ranges = e.get_valid_series_ranges();
    // Milk in the South has one point on 2021-01-01; bread has no entry.
    assert_eq!(ranges.len(), 2);
    assert_eq!(ranges[0].item_code.0, "709111");
    assert_eq!(ranges[0].area_code.0, "0000");
    assert_eq!((ranges[0].start_year, ranges[0].start_month), (2021, 1));
    assert_eq!((ranges[0].end_year, ranges[0].end_month), (2021, 2));
    assert_eq!(ranges[1].area_code.0, "0300");
    assert_eq!((ranges[1].start_year, ranges[1].start_month, ranges[1].end_month), (2021, 1, 1));
}

#[test]
fn bundled_prices_serve_when_live_rows_fail() {
    let csv = b"date,open\n2021-01-01,40000\n2021-03-01,50000\n";
    let bad = vec![PriceRow { date: "2021-02-30".to_string(), open: "1".to_string() }];
    let h = BTCPriceHistory::new(csv, Some(bad)).unwrap();
    let s = h.get_best_dataset();
    assert_eq!(s.len(), 2);
    assert_eq!(s.point(1).price, 50_000 * AMOUNT_UNIT);
    let none = BTCPriceHistory::new(csv, None).unwrap();
    assert_eq!(none.get_best_dataset().len(), 2);
}

#[test]
fn unreadable_bundled_prices_are_an_error() {
    assert_eq!(BTCPriceHistory::new(b"date,close\n2021-01-01,1\n", None).err(), Some(PriceTableError::MissingColumn));
    assert_eq!(BTCPriceHistory::new(b"date,open\n2021-01-01,abc\n", None).err(), Some(PriceTableError::BadRow));
    assert_eq!(BTCPriceHistory::new(b"date,open\n2021-01-01\n", None).err(), Some(PriceTableError::Csv));
}

#[test]
fn catalog_groups_entries_by_item_and_area() {
    let raws = vec![
        raw("APU0000709111", "2021", "M01", "10"),
        raw("APU0300709111", "2021", "M01", "5"),
        raw("APU0000709111", "2021", "M02", "11"),
        raw("APU0000709111", "2021", "M01", "12"),
    ];
    let (entries, _) = bpi::cpi_ap::series_entries_from_raw(&raws);
    let cpi = CpiQueryEngine::new(&entries, Vec::new(), Vec::new());
    let keys: Vec<(String, String)> = cpi.all_keys().into_iter().map(|(i, a)| (i.0, a.0)).collect();
    assert_eq!(keys, vec![("709111".to_string(), "0000".to_string()), ("709111".to_string(), "0300".to_string())]);
    let us = cpi.get_series_data(ItemCode("709111".to_string()), AreaCode("0000".to_string())).unwrap();
    assert_eq!(us.len(), 2);
    assert_eq!(us.point(0).date, day(2021, 1, 1));
    assert_eq!(us.point(0).price, 12 * AMOUNT_UNIT);
    assert_eq!(us.point(1).date, day(2021, 2, 1));
    assert!(cpi.get_series_data(ItemCode("709111".to_string()), AreaCode("0100".to_string())).is_none());
}

#[test]
fn no_data_rows_leave_a_series_shorter_than_its_rows() {
    let raws = vec![
        raw("APU0000709111", "2021", "M01", "1.5"),
        raw("APU0000709111", "2021", "M02", "-"),
        raw("APU0000709111", "2021", "M03", "1.7"),
    ];
    let (entries, _) = bpi::cpi_ap::series_entries_from_raw(&raws);
    let cpi = CpiQueryEngine::new(&entries, Vec::new(), Vec::new());
    let s = cpi.get_series_data(ItemCode("709111".to_string()), AreaCode("0000".to_string())).unwrap();
    assert_eq!(s.len(), 2);
    assert!(s.len() < raws.len());
    assert_eq!(s.lookup_exact(day(2021, 2, 1)), None);
}
