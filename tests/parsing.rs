use bpi::btc_csv;
use bpi::calendar::{convert_date_string_to_date, Date};
use bpi::cpi_ap::{series_entries_from_raw, MalformedRecord, RawSeriesEntry, SeriesEntry};
use bpi::data_sheet::{get_data_sheet, raw_areas_from_sheet, raw_items_from_sheet, raw_series_entries_from_sheet, trim};
use bpi::routes::{month_bound, not_found_handler, InvalidBound, NotFoundResponse};
use bpi::text::{parse_amount, parse_i32, parse_u32};

fn raw(series_id: &str, year: &str, period: &str, value: &str) -> RawSeriesEntry {
    RawSeriesEntry {
        series_id: series_id.to_string(),
        year: year.to_string(),
        period: period.to_string(),
        value: value.to_string(),
    }
}

#[test]
fn amounts_keep_eight_places() {
    assert_eq!(parse_amount("2.345"), Some(234_500_000));
    assert_eq!(parse_amount("45123.456789123"), Some(4_512_345_678_912));
    assert_eq!(parse_amount("7"), Some(700_000_000));
    assert_eq!(parse_amount("+0.5"), Some(50_000_000));
    assert_eq!(parse_amount(".25"), Some(25_000_000));
    assert_eq!(parse_amount("3."), Some(300_000_000));
    assert_eq!(parse_amount("184467440737.09551615"), Some(u64::MAX));
    assert_eq!(parse_amount("184467440737.09551616"), None);
    assert_eq!(parse_amount("-"), None);
    assert_eq!(parse_amount("-1"), None);
    assert_eq!(parse_amount("."), None);
    assert_eq!(parse_amount(""), None);
    assert_eq!(parse_amount("1.2.3"), None);
    assert_eq!(parse_amount("12a"), None);
}

#[test]
fn integers_read_like_std() {
    assert_eq!(parse_u32("4294967295"), Some(u32::MAX));
    assert_eq!(parse_u32("4294967296"), None);
    assert_eq!(parse_u32("+12"), Some(12));
    assert_eq!(parse_u32(""), None);
    assert_eq!(parse_u32("+"), None);
    assert_eq!(parse_i32("-2147483648"), Some(i32::MIN));
    assert_eq!(parse_i32("2147483647"), Some(i32::MAX));
    assert_eq!(parse_i32("2147483648"), None);
    assert_eq!(parse_i32("-"), None);
    assert_eq!(parse_i32("007"), Some(7));
}

#[test]
fn dates_read_from_text() {
    assert_eq!(convert_date_string_to_date("2021-01-31"), Date::from_ymd(2021, 1, 31));
    assert_eq!(convert_date_string_to_date("2021-1-2-extra"), Date::from_ymd(2021, 1, 2));
    assert_eq!(convert_date_string_to_date("2021-02-30"), None);
    assert_eq!(convert_date_string_to_date("2021-02"), None);
    assert_eq!(convert_date_string_to_date("x-01-01"), None);
}

#[test]
fn raw_records_read_or_say_why_not() {
    let e = SeriesEntry::new_from_raw_or(&raw("APU0000709111", "2021", "M04", "3.5")).unwrap().unwrap();
    assert_eq!(e.get_area_code().0, "0000");
    assert_eq!(e.get_item_code().0, "709111");
    assert_eq!(e.get_year(), 2021);
    assert_eq!(e.get_month(), 4);
    assert_eq!(e.get_value(), 350_000_000);
    assert!(matches!(SeriesEntry::new_from_raw_or(&raw("APU0000709111", "2021", "M04", "-")), Ok(None)));
    assert!(matches!(
        SeriesEntry::new_from_raw_or(&raw("APU0000709111", "2021", "M13", "1")),
        Err(MalformedRecord::Period)
    ));
    assert!(matches!(
        SeriesEntry::new_from_raw_or(&raw("APU0000709111", "2021", "M00", "-")),
        Err(MalformedRecord::Period)
    ));
    assert!(matches!(SeriesEntry::new_from_raw_or(&raw("APU00", "2021", "M01", "1")), Err(MalformedRecord::SeriesId)));
    assert!(matches!(
        SeriesEntry::new_from_raw_or(&raw("APU0000709111", "20x1", "M01", "1")),
        Err(MalformedRecord::Year)
    ));
    assert!(matches!(
        SeriesEntry::new_from_raw_or(&raw("APU0000709111", "2021", "M01", "n/a")),
        Err(MalformedRecord::Value)
    ));
}

#[test]
fn no_data_rows_are_left_out() {
    let raws = vec![
        raw("APU0000709111", "2021", "M01", "1.0"),
        raw("APU0000709111", "2021", "M02", "-"),
        raw("APU0000709111", "2021", "M03", "1.2"),
    ];
    let (entries, malformed) = series_entries_from_raw(&raws);
    assert_eq!(entries.len(), 2);
    assert!(entries.len() < raws.len());
    assert_eq!(malformed, 0);
    assert_eq!(entries[1].get_month(), 3);
}

#[test]
fn raw_record_codes_come_from_the_series_id() {
    let r = raw("APU0300702111", "2021", "M07", "1");
    assert_eq!(r.get_area_code(), "0300");
    assert_eq!(r.get_item_code(), "702111");
    assert_eq!(r.get_period(), Some(7));
    assert_eq!(raw("x", "2021", "", "1").get_period(), None);
}

#[test]
fn sheets_split_into_trimmed_fields() {
    let text = "series_id        \tyear\tperiod\tvalue\tfootnote_codes\nAPU0000701111  \t1980\tM01\t      0.203\t\n";
    let (sheet, skipped) = get_data_sheet(text);
    assert!(skipped.is_empty());
    assert_eq!(sheet.column_names, vec!["series_id", "year", "period", "value", "footnote_codes"]);
    assert_eq!(sheet.rows.len(), 1);
    assert_eq!(sheet.rows[0], vec!["APU0000701111", "1980", "M01", "0.203", ""]);
    let raws = raw_series_entries_from_sheet(&sheet);
    assert_eq!(raws.len(), 1);
    assert_eq!(raws[0].series_id, "APU0000701111");
    assert_eq!(raws[0].value, "0.203");
    assert!(raw_areas_from_sheet(&sheet).is_empty());
}

#[test]
fn sheets_read_areas_and_items() {
    let areas = get_data_sheet("area_code\tarea_name\n0000\tU.S. city average\n0100\tNortheast\n").0;
    let a = raw_areas_from_sheet(&areas);
    assert_eq!(a.len(), 2);
    assert_eq!(a[1].area_code, "0100");
    assert_eq!(a[1].area_name, "Northeast");
    let items = get_data_sheet("item_code\titem_name\n709111\tMilk, whole\n").0;
    let i = raw_items_from_sheet(&items);
    assert_eq!(i.len(), 1);
    assert_eq!(i[0].item_name, "Milk, whole");
}

#[test]
fn ragged_rows_are_skipped_and_reported() {
    let (sheet, skipped) = get_data_sheet("a\tb\n1\t2\n3\n4\t5\n6\t7\t8\n");
    assert_eq!(skipped, vec![1, 3]);
    assert_eq!(sheet.rows, vec![vec!["1", "2"], vec!["4", "5"]]);
    let (header_only, none) = get_data_sheet("a\tb");
    assert!(header_only.rows.is_empty());
    assert!(none.is_empty());
}

#[test]
fn trimming_drops_unicode_white_space() {
    assert_eq!(trim("  a b \t\n"), "a b");
    assert_eq!(trim("\u{3000}x\u{a0}"), "x");
    assert_eq!(trim("   "), "");
}

#[test]
fn unknown_paths_pick_what_to_serve() {
    assert_eq!(
        not_found_handler("/api/nope"),
        NotFoundResponse::NotFound("404 - API path '/api/nope' does not exist!".to_string())
    );
    assert_eq!(not_found_handler("//api"), NotFoundResponse::NotFound("404 - API path '//api' does not exist!".to_string()));
    assert_eq!(not_found_handler("/static/bundle.js"), NotFoundResponse::JavaScript);
    assert_eq!(not_found_handler("/favicon.ico"), NotFoundResponse::Favicon);
    assert_eq!(not_found_handler("/apis/x"), NotFoundResponse::Html);
    assert_eq!(not_found_handler("/"), NotFoundResponse::Html);
}

#[test]
fn query_months_bound_the_window() {
    assert_eq!(month_bound(None, None, 2024, 1), Ok(None));
    assert_eq!(month_bound(Some(2021), None, 2024, 12), Ok(Date::from_ymd(2021, 12, 1)));
    assert_eq!(month_bound(None, Some(3), 2024, 1), Ok(Date::from_ymd(2024, 3, 1)));
    assert_eq!(month_bound(Some(2021), Some(13), 2024, 1), Err(InvalidBound));
}

#[test]
fn monthly_average_reads_days_one_to_thirty() {
    let h = btc_csv::BTCPriceHistory::new_from_reader(
        b"date,open\n2021-01-01,10\n2021-01-02,20\n2021-01-02,30\n2021-01-31,1000\n2021-02-01,5\n",
    )
    .ok()
    .unwrap();
    assert_eq!(h.get_average_price_for_month(2021, 1), Some(2_000_000_000));
    assert_eq!(h.get_average_price_for_month(2021, 2), Some(500_000_000));
    assert_eq!(h.get_average_price_for_month(2021, 3), None);
}

#[test]
fn years_outside_the_calendar_are_malformed() {
    assert!(matches!(
        SeriesEntry::new_from_raw_or(&raw("APU0000709111", "300000", "M01", "1")),
        Err(MalformedRecord::Year)
    ));
    assert!(matches!(
        SeriesEntry::new_from_raw_or(&raw("APU0000709111", "-262143", "M01", "1")),
        Ok(Some(_))
    ));
}
