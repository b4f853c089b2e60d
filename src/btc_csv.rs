//! A bitcoin price table keyed by (year, month, day) as written, with monthly
//! averages.
use vstd::prelude::*;
use crate::btc_price_history::{csv_records, csv_records_of, rows_from_records, rows_text, table_rows, PriceRow, PriceTableError};
use crate::calendar::{date_pieces, split_date_pieces};
use crate::text::{amount_text_value, parse_amount, parse_i32, signed_text_value};

verus! {

/// A (year, month, day) as written in a price row.
pub type DayKey = (i32, i32, i32);

pub open spec fn signed_i32(s: Seq<char>) -> Option<i32> {
    match signed_text_value(s) {
        Some(v) => if i32::MIN <= v <= i32::MAX { Some(v as i32) } else { None },
        None => None,
    }
}

/// The key that a `year-month-day` text reads as, each piece a signed number.
pub open spec fn day_key_of(date: Seq<char>) -> Option<DayKey> {
    match date_pieces(date) {
        Some((ys, ms, ds)) => match (signed_i32(ys), signed_i32(ms), signed_i32(ds)) {
            (Some(y), Some(m), Some(d)) => Some((y, m, d)),
            _ => None,
        },
        None => None,
    }
}

/// Whether a (date, open) row reads: its date as a key and its price as an
/// amount.
pub open spec fn row_reads(row: (Seq<char>, Seq<char>)) -> bool {
    &&& day_key_of(row.0) is Some
    &&& amount_text_value(row.1) is Some
    &&& amount_text_value(row.1)->0 <= u64::MAX
}

/// Whether every row reads.
pub open spec fn rows_read(rows: Seq<(Seq<char>, Seq<char>)>) -> bool {
    forall|k: int| 0 <= k < rows.len() ==> row_reads(#[trigger] rows[k])
}

/// The table that the rows fill, each row writing over any earlier one with
/// the same key.
pub open spec fn rows_table(rows: Seq<(Seq<char>, Seq<char>)>) -> Map<DayKey, u64>
    decreases rows.len(),
{
    if rows.len() == 0 {
        Map::empty()
    } else {
        let r = rows.last();
        rows_table(rows.drop_last()).insert(day_key_of(r.0)->0, amount_text_value(r.1)->0 as u64)
    }
}

/// The sum and the number of the prices that `table` holds for days 1 to
/// `last_day` of (`year`, `month`).
pub open spec fn month_totals(table: Map<DayKey, u64>, year: i32, month: i32, last_day: int) -> (int, int)
    decreases last_day,
{
    if last_day < 1 {
        (0, 0)
    } else {
        let (s, c) = month_totals(table, year, month, last_day - 1);
        let key = (year, month, last_day as i32);
        if table.contains_key(key) { (s + table[key], c + 1) } else { (s, c) }
    }
}

/// The last day of a month that the average reads.
pub const LAST_AVERAGED_DAY: i32 = 30;

pub struct BTCPriceHistory {
    price_by_date: Vec<(DayKey, u64)>,
}

impl BTCPriceHistory {
    pub closed spec fn wf(&self) -> bool {
        forall|i: int, j: int| #![trigger self.price_by_date@[i], self.price_by_date@[j]]
            0 <= i < j < self.price_by_date.len() ==> self.price_by_date@[i].0 != self.price_by_date@[j].0
    }

    /// The prices held, by key.
    pub closed spec fn table(&self) -> Map<DayKey, u64> {
        Map::new(
            |k: DayKey| exists|i: int| 0 <= i < self.price_by_date.len() && #[trigger] self.price_by_date@[i].0 == k,
            |k: DayKey|
                self.price_by_date@[choose|i: int| 0 <= i < self.price_by_date.len() && #[trigger] self.price_by_date@[i].0 == k].1,
        )
    }

    /// Position of `key`, if held.
    fn find(&self, key: DayKey) -> (r: Option<usize>)
        requires
            self.wf(),
        ensures
            r matches Some(i) ==> i < self.price_by_date.len() && self.price_by_date@[i as int].0 == key,
            r is None ==> !self.table().contains_key(key),
            r matches Some(i) ==> self.table().contains_key(key) && self.table()[key] == self.price_by_date@[i as int].1,
    {
        let mut i: usize = 0;
        while i < self.price_by_date.len()
            invariant
                self.wf(),
                i <= self.price_by_date.len(),
                forall|j: int| 0 <= j < i ==> (#[trigger] self.price_by_date@[j]).0 != key,
            decreases self.price_by_date.len() - i,
        {
            let k = self.price_by_date[i].0;
            if k.0 == key.0 && k.1 == key.1 && k.2 == key.2 {
                proof {
                    let c = choose|c: int| 0 <= c < self.price_by_date.len() && #[trigger] self.price_by_date@[c].0 == key;
                    assert(c == i) by {
                        if c < i { assert(self.price_by_date@[c].0 != key); }
                        if c > i { assert(self.price_by_date@[i as int].0 != self.price_by_date@[c].0); }
                    }
                }
                return Some(i);
            }
            i = i + 1;
        }
        None
    }

    /// Builds the table from price rows; none if any row does not read.
    pub fn from_rows(rows: &Vec<PriceRow>) -> (r: Option<BTCPriceHistory>)
        ensures
            r is Some <==> rows_read(rows_text(rows@)),
            r matches Some(h) ==> h.wf() && h.table() == rows_table(rows_text(rows@)),
    {
        let ghost rs = rows_text(rows@);
        let mut h = BTCPriceHistory { price_by_date: Vec::new() };
        assert(h.table() =~= Map::empty());
        let mut k: usize = 0;
        while k < rows.len()
            invariant
                rs == rows_text(rows@),
                k <= rs.len(),
                h.wf(),
                rows_read(rs.take(k as int)),
                h.table() == rows_table(rs.take(k as int)),
            decreases rs.len() - k,
        {
            assert(rs.take(k + 1).drop_last() =~= rs.take(k as int));
            let row = &rows[k];
            let (ys, ms, ds) = match split_date_pieces(row.date.as_str()) {
                Some(p) => p,
                None => {
                    assert(day_key_of(rs[k as int].0) is None);
                    return None;
                },
            };
            let year = match parse_i32(ys) {
                Some(v) => v,
                None => return None,
            };
            let month = match parse_i32(ms) {
                Some(v) => v,
                None => return None,
            };
            let day = match parse_i32(ds) {
                Some(v) => v,
                None => return None,
            };
            let price = match parse_amount(row.open.as_str()) {
                Some(v) => v,
                None => return None,
            };
            let key = (year, month, day);
            assert(day_key_of(rs[k as int].0) == Some(key));
            let ghost before = h.table();
            let ghost old_entries = h.price_by_date@;
            match h.find(key) {
                Some(i) => {
                    h.price_by_date.set(i, (key, price));
                    proof {
                        assert forall|a: int, b: int| #![trigger h.price_by_date@[a], h.price_by_date@[b]]
                            0 <= a < b < h.price_by_date.len() implies h.price_by_date@[a].0 != h.price_by_date@[b].0 by {
                            assert(old_entries[a].0 == h.price_by_date@[a].0);
                            assert(old_entries[b].0 == h.price_by_date@[b].0);
                        }
                        assert forall|q: DayKey| #[trigger] h.table().contains_key(q) == before.insert(key, price).contains_key(q)
                            && (h.table().contains_key(q) ==> h.table()[q] == before.insert(key, price)[q]) by {
                            if h.table().contains_key(q) {
                                let c = choose|c: int| 0 <= c < h.price_by_date.len() && #[trigger] h.price_by_date@[c].0 == q;
                                assert(old_entries[c].0 == q);
                                if q != key {
                                    let d = choose|d: int| 0 <= d < old_entries.len() && #[trigger] old_entries[d].0 == q;
                                    assert(d == c) by {
                                        if d < c { assert(old_entries[d].0 != old_entries[c].0); }
                                        if d > c { assert(old_entries[c].0 != old_entries[d].0); }
                                    }
                                }
                            }
                            if before.insert(key, price).contains_key(q) {
                                if q == key {
                                    assert(h.price_by_date@[i as int].0 == q);
                                } else {
                                    let d = choose|d: int| 0 <= d < old_entries.len() && #[trigger] old_entries[d].0 == q;
                                    assert(h.price_by_date@[d].0 == q);
                                }
                            }
                        }
                        assert(h.table() =~= before.insert(key, price));
                    }
                },
                None => {
                    h.price_by_date.push((key, price));
                    proof {
                        let last = old_entries.len() as int;
                        assert forall|a: int, b: int| #![trigger h.price_by_date@[a], h.price_by_date@[b]]
                            0 <= a < b < h.price_by_date.len() implies h.price_by_date@[a].0 != h.price_by_date@[b].0 by {
                            if b == last {
                                assert(old_entries[a] == h.price_by_date@[a]);
                                assert(old_entries[a].0 != key);
                            } else {
                                assert(old_entries[a] == h.price_by_date@[a]);
                                assert(old_entries[b] == h.price_by_date@[b]);
                            }
                        }
                        assert forall|q: DayKey| #[trigger] h.table().contains_key(q) == before.insert(key, price).contains_key(q)
                            && (h.table().contains_key(q) ==> h.table()[q] == before.insert(key, price)[q]) by {
                            if h.table().contains_key(q) {
                                let c = choose|c: int| 0 <= c < h.price_by_date.len() && #[trigger] h.price_by_date@[c].0 == q;
                                if c < last {
                                    assert(old_entries[c] == h.price_by_date@[c]);
                                    let d = choose|d: int| 0 <= d < old_entries.len() && #[trigger] old_entries[d].0 == q;
                                    assert(d == c) by {
                                        if d < c { assert(old_entries[d].0 != old_entries[c].0); }
                                        if d > c { assert(old_entries[c].0 != old_entries[d].0); }
                                    }
                                }
                            }
                            if before.insert(key, price).contains_key(q) {
                                if q == key {
                                    assert(h.price_by_date@[last].0 == q);
                                } else {
                                    let d = choose|d: int| 0 <= d < old_entries.len() && #[trigger] old_entries[d].0 == q;
                                    assert(h.price_by_date@[d] == old_entries[d]);
                                }
                            }
                        }
                        assert(h.table() =~= before.insert(key, price));
                    }
                },
            }
            proof {
                assert(rows_read(rs.take(k + 1))) by {
                    assert forall|j: int| 0 <= j < k + 1 implies row_reads(#[trigger] rs.take(k + 1)[j]) by {
                        if j < k {
                            assert(rs.take(k + 1)[j] == rs.take(k as int)[j]);
                        }
                    }
                }
            }
            k = k + 1;
        }
        assert(rs.take(rs.len() as int) =~= rs);
        Some(h)
    }

    /// Reads a price table in csv form, with `date` and `open` columns.
    pub fn new_from_reader(reader: &[u8]) -> (r: Result<BTCPriceHistory, PriceTableError>)
        ensures
            r matches Ok(h) ==> h.wf(),
            match csv_records_of(reader@) {
                None => r == Err::<BTCPriceHistory, PriceTableError>(PriceTableError::Csv),
                Some(records) => match table_rows(records) {
                    Ok(rows) => if rows_read(rows) {
                        r is Ok && r->Ok_0.table() == rows_table(rows)
                    } else {
                        r == Err::<BTCPriceHistory, PriceTableError>(PriceTableError::BadRow)
                    },
                    Err(e) => r == Err::<BTCPriceHistory, PriceTableError>(e),
                },
            },
    {
        let records = match csv_records(reader) {
            Ok(records) => records,
            Err(_) => return Err(PriceTableError::Csv),
        };
        let rows = match rows_from_records(&records) {
            Ok(rows) => rows,
            Err(e) => return Err(e),
        };
        match BTCPriceHistory::from_rows(&rows) {
            Some(h) => Ok(h),
            None => Err(PriceTableError::BadRow),
        }
    }

    /// The mean of the prices held for days 1 to 30 of (`year`, `month`),
    /// rounded down; none if there is none.
    pub fn get_average_price_for_month(&self, year: i32, month: i32) -> (r: Option<u64>)
        requires
            self.wf(),
        ensures
            ({
                let (sum, count) = month_totals(self.table(), year, month, LAST_AVERAGED_DAY as int);
                &&& count == 0 ==> r is None
                &&& count > 0 ==> r == Some((sum / count) as u64)
            }),
    {
        let mut price_sum: u128 = 0;
        let mut price_count: u64 = 0;
        let mut day: i32 = 1;
        while day <= LAST_AVERAGED_DAY
            invariant
                self.wf(),
                1 <= day <= LAST_AVERAGED_DAY + 1,
                (price_sum as int, price_count as int) == month_totals(self.table(), year, month, day - 1),
                price_sum <= price_count * u64::MAX,
                price_count <= day - 1,
            decreases LAST_AVERAGED_DAY + 1 - day,
        {
            match self.find((year, month, day)) {
                Some(i) => {
                    price_sum = price_sum + self.price_by_date[i].1 as u128;
                    price_count = price_count + 1;
                },
                None => {},
            }
            day = day + 1;
        }
        if price_count == 0 {
            return None;
        }
        let mean = price_sum / price_count as u128;
        assert(mean <= u64::MAX) by (nonlinear_arith)
            requires mean == price_sum / price_count as u128, price_sum <= price_count * u64::MAX, price_count > 0;
        Some(mean as u64)
    }
}

} // verus!
