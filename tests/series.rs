use bpi::calendar::{Date, MAX_DAY, MAX_YEAR, MIN_DAY, MIN_YEAR};
use bpi::dated_series::{DatedSeries, PricePoint};
use bpi::text::AMOUNT_UNIT;

fn day(y: i32, m: u32, d: u32) -> Date {
    Date::from_ymd(y, m, d).unwrap()
}

fn point(y: i32, m: u32, d: u32, whole: u64) -> PricePoint {
    PricePoint { date: day(y, m, d), price: whole * AMOUNT_UNIT }
}

#[test]
fn calendar_day_numbers_follow_chrono() {
    assert_eq!(day(1970, 1, 1).day_number(), 719_163);
    assert_eq!(day(1, 1, 1).day_number(), 1);
    assert_eq!(day(2021, 1, 2).day_number() - day(2021, 1, 1).day_number(), 1);
    assert_eq!(day(2021, 3, 1).day_number() - day(2021, 2, 1).day_number(), 28);
    assert_eq!(day(2024, 2, 29).ymd(), (2024, 2, 29));
    assert!(Date::from_ymd(2023, 2, 29).is_none());
    assert!(Date::from_ymd(2021, 13, 1).is_none());
    assert!(Date::from_ymd(2021, 0, 1).is_none());
}

#[test]
fn calendar_range_ends_match_chrono() {
    assert_eq!(Date::from_ymd(MIN_YEAR, 1, 1).unwrap().day_number(), MIN_DAY);
    assert_eq!(Date::from_ymd(MAX_YEAR, 12, 31).unwrap().day_number(), MAX_DAY);
    assert_eq!(Date::from_day_number(MIN_DAY).unwrap().ymd(), (MIN_YEAR, 1, 1));
    assert_eq!(Date::from_day_number(MAX_DAY).unwrap().ymd(), (MAX_YEAR, 12, 31));
    assert!(Date::from_day_number(MIN_DAY - 1).is_none());
    assert!(Date::from_day_number(MAX_DAY + 1).is_none());
    assert!(Date::from_ymd(MIN_YEAR - 1, 12, 31).is_none());
    assert!(Date::from_ymd(MAX_YEAR + 1, 1, 1).is_none());
}

#[test]
fn unique_points_are_all_kept_in_ascending_order() {
    let pts = vec![point(2021, 3, 1, 3), point(2021, 1, 1, 1), point(2021, 2, 1, 2), point(2020, 12, 31, 9)];
    let s = DatedSeries::new(pts);
    assert_eq!(s.len(), 4);
    for i in 1..s.len() {
        assert!(s.point(i - 1).date.day_number() < s.point(i).date.day_number());
    }
    assert_eq!(s.point(0).price, 9 * AMOUNT_UNIT);
    assert_eq!(s.point(3).price, 3 * AMOUNT_UNIT);
}

#[test]
fn later_point_on_same_day_wins() {
    let pts = vec![point(2021, 1, 1, 1), point(2021, 1, 2, 5), point(2021, 1, 1, 7)];
    let s = DatedSeries::new(pts);
    assert_eq!(s.len(), 2);
    assert_eq!(s.get_interpolated_price(day(2021, 1, 1)), Some(7 * AMOUNT_UNIT));
}

#[test]
fn empty_series_has_no_dates_and_no_prices() {
    let s = DatedSeries::new(Vec::new());
    assert_eq!(s.len(), 0);
    assert_eq!(s.get_first_entry_date(), None);
    assert_eq!(s.get_last_entry_date(), None);
    assert_eq!(s.get_interpolated_price(day(2021, 1, 1)), None);
}

#[test]
fn exact_date_gives_stored_value() {
    let s = DatedSeries::new(vec![
        PricePoint { date: day(2021, 1, 1), price: 123_456_789 },
        PricePoint { date: day(2021, 1, 5), price: 1 },
        PricePoint { date: day(2021, 2, 1), price: 987_654_321 },
    ]);
    assert_eq!(s.get_interpolated_price(day(2021, 1, 1)), Some(123_456_789));
    assert_eq!(s.get_interpolated_price(day(2021, 1, 5)), Some(1));
    assert_eq!(s.get_interpolated_price(day(2021, 2, 1)), Some(987_654_321));
}

#[test]
fn midpoint_interpolates_linearly() {
    let s = DatedSeries::new(vec![point(2021, 1, 1, 100), point(2021, 1, 3, 200)]);
    assert_eq!(s.get_interpolated_price(day(2021, 1, 2)), Some(150 * AMOUNT_UNIT));
}

#[test]
fn interpolation_rounds_down_and_falls_too() {
    let s = DatedSeries::new(vec![
        PricePoint { date: day(2021, 1, 1), price: 0 },
        PricePoint { date: day(2021, 1, 4), price: 100 },
        PricePoint { date: day(2021, 1, 6), price: 0 },
    ]);
    assert_eq!(s.get_interpolated_price(day(2021, 1, 2)), Some(33));
    assert_eq!(s.get_interpolated_price(day(2021, 1, 3)), Some(66));
    assert_eq!(s.get_interpolated_price(day(2021, 1, 5)), Some(50));
}

#[test]
fn bracketing_at_search_boundaries() {
    let s = DatedSeries::new(vec![
        point(2021, 1, 1, 10),
        point(2021, 1, 3, 30),
        point(2021, 1, 5, 50),
        point(2021, 1, 7, 70),
    ]);
    assert_eq!(s.get_interpolated_price(day(2021, 1, 3)), Some(30 * AMOUNT_UNIT));
    assert_eq!(s.get_interpolated_price(day(2021, 1, 5)), Some(50 * AMOUNT_UNIT));
    assert_eq!(s.get_interpolated_price(day(2021, 1, 2)), Some(20 * AMOUNT_UNIT));
    assert_eq!(s.get_interpolated_price(day(2021, 1, 6)), Some(60 * AMOUNT_UNIT));
}

#[test]
fn no_value_outside_the_series() {
    let one = DatedSeries::new(vec![point(2021, 1, 10, 1)]);
    assert_eq!(one.get_interpolated_price(day(2021, 1, 9)), None);
    assert_eq!(one.get_interpolated_price(day(2021, 1, 10)), Some(AMOUNT_UNIT));
    assert_eq!(one.get_interpolated_price(day(2021, 1, 11)), None);
    let two = DatedSeries::new(vec![point(2021, 1, 10, 1), point(2021, 1, 20, 2)]);
    assert_eq!(two.get_interpolated_price(day(2021, 1, 9)), None);
    assert_eq!(two.get_interpolated_price(day(2021, 1, 21)), None);
    assert!(two.get_interpolated_price(day(2021, 1, 15)).is_some());
}

#[test]
fn shared_dates_are_max_of_firsts_and_min_of_lasts() {
    let a = DatedSeries::new(vec![point(2021, 1, 1, 1), point(2021, 6, 1, 1)]);
    let b = DatedSeries::new(vec![point(2021, 3, 1, 1), point(2021, 12, 1, 1)]);
    assert_eq!(a.get_first_shared_date(&b), Some(day(2021, 3, 1)));
    assert_eq!(b.get_first_shared_date(&a), Some(day(2021, 3, 1)));
    assert_eq!(a.get_last_shared_date(&b), Some(day(2021, 6, 1)));
    assert_eq!(b.get_last_shared_date(&a), Some(day(2021, 6, 1)));
    let empty = DatedSeries::new(Vec::new());
    assert_eq!(a.get_first_shared_date(&empty), None);
    assert_eq!(empty.get_last_shared_date(&a), None);
}

#[test]
fn exact_lookup_does_not_interpolate() {
    let s = DatedSeries::new(vec![point(2021, 1, 1, 100), point(2021, 1, 3, 200)]);
    assert_eq!(s.lookup_exact(day(2021, 1, 1)), Some(100 * AMOUNT_UNIT));
    assert_eq!(s.lookup_exact(day(2021, 1, 2)), None);
    assert_eq!(s.lookup_exact(day(2021, 1, 3)), Some(200 * AMOUNT_UNIT));
    assert_eq!(s.lookup_exact(day(2021, 1, 4)), None);
}
