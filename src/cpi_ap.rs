//! Areas, items and monthly records of the average-price index data.
use vstd::prelude::*;
use vstd::string::{StrSliceExecFns, StringExecFns};
use crate::calendar::{MAX_YEAR, MIN_YEAR};
use crate::text::{amount_text_value, parse_amount, parse_i32, parse_u32, signed_text_value, unsigned_text_value};

verus! {

/// The code of an area, such as `0000` for the whole country.
#[derive(Clone, Debug, PartialEq, Eq, Hash)]
pub struct AreaCode(pub String);

impl View for AreaCode {
    type V = Seq<char>;

    open spec fn view(&self) -> Seq<char> {
        self.0@
    }
}

impl AreaCode {
    /// A code with the same text.
    pub fn duplicate(&self) -> (r: AreaCode)
        ensures
            r@ == self@,
    {
        AreaCode(self.0.clone())
    }

    /// Whether two codes have the same text.
    pub fn same_as(&self, other: &AreaCode) -> (r: bool)
        ensures
            r == (self@ == other@),
    {
        self.0 == other.0
    }
}

/// An area as the index data lists it.
pub struct Area {
    pub area_code: AreaCode,
    pub area_name: String,
}

impl Area {
    pub fn new_from_raw(raw_item: RawArea) -> (r: Area)
        ensures
            r.area_code@ == raw_item.area_code@,
            r.area_name@ == raw_item.area_name@,
    {
        Area { area_code: AreaCode(raw_item.area_code), area_name: raw_item.area_name }
    }

    pub fn get_area_code(&self) -> (r: &AreaCode)
        ensures
            r == &self.area_code,
    {
        &self.area_code
    }
}

/// The code of an item, such as `709111` for a gallon of whole milk.
#[derive(Clone, Debug, PartialEq, Eq, Hash)]
pub struct ItemCode(pub String);

impl View for ItemCode {
    type V = Seq<char>;

    open spec fn view(&self) -> Seq<char> {
        self.0@
    }
}

impl ItemCode {
    /// A code with the same text.
    pub fn duplicate(&self) -> (r: ItemCode)
        ensures
            r@ == self@,
    {
        ItemCode(self.0.clone())
    }

    /// Whether two codes have the same text.
    pub fn same_as(&self, other: &ItemCode) -> (r: bool)
        ensures
            r == (self@ == other@),
    {
        self.0 == other.0
    }
}

/// An item as the index data lists it.
pub struct Item {
    pub item_code: ItemCode,
    pub item_name: String,
}

impl Item {
    pub fn new_from_raw(raw_item: RawItem) -> (r: Item)
        ensures
            r.item_code@ == raw_item.item_code@,
            r.item_name@ == raw_item.item_name@,
    {
        Item { item_code: ItemCode(raw_item.item_code), item_name: raw_item.item_name }
    }

    pub fn get_item_code(&self) -> (r: &ItemCode)
        ensures
            r == &self.item_code,
    {
        &self.item_code
    }
}

/// The areas of a list of raw area rows, in the same order.
pub fn areas_from_raw(raw_areas: &Vec<RawArea>) -> (r: Vec<Area>)
    ensures
        r.len() == raw_areas.len(),
        forall|i: int| 0 <= i < r.len() ==> #[trigger] r@[i].area_code@ == raw_areas@[i].area_code@
            && r@[i].area_name@ == raw_areas@[i].area_name@,
{
    let mut out: Vec<Area> = Vec::new();
    let mut i: usize = 0;
    while i < raw_areas.len()
        invariant
            i <= raw_areas.len(),
            out.len() == i,
            forall|k: int| 0 <= k < out.len() ==> #[trigger] out@[k].area_code@ == raw_areas@[k].area_code@
                && out@[k].area_name@ == raw_areas@[k].area_name@,
        decreases raw_areas.len() - i,
    {
        let raw = &raw_areas[i];
        out.push(Area { area_code: AreaCode(raw.area_code.clone()), area_name: raw.area_name.clone() });
        i = i + 1;
    }
    out
}

/// The items of a list of raw item rows, in the same order.
pub fn items_from_raw(raw_items: &Vec<RawItem>) -> (r: Vec<Item>)
    ensures
        r.len() == raw_items.len(),
        forall|i: int| 0 <= i < r.len() ==> #[trigger] r@[i].item_code@ == raw_items@[i].item_code@
            && r@[i].item_name@ == raw_items@[i].item_name@,
{
    let mut out: Vec<Item> = Vec::new();
    let mut i: usize = 0;
    while i < raw_items.len()
        invariant
            i <= raw_items.len(),
            out.len() == i,
            forall|k: int| 0 <= k < out.len() ==> #[trigger] out@[k].item_code@ == raw_items@[k].item_code@
                && out@[k].item_name@ == raw_items@[k].item_name@,
        decreases raw_items.len() - i,
    {
        let raw = &raw_items[i];
        out.push(Item { item_code: ItemCode(raw.item_code.clone()), item_name: raw.item_name.clone() });
        i = i + 1;
    }
    out
}

/// Why a raw record could not be read.
#[derive(Clone, Copy, Debug, PartialEq, Eq, Structural)]
pub enum MalformedRecord {
    /// The series id is too short to hold an area and an item code.
    SeriesId,
    /// The period is not `M` and a month number from 1 to 12.
    Period,
    /// The year is not an integer within the calendar's range.
    Year,
    /// The value is not a decimal amount.
    Value,
}

/// One month's value of one (item, area) series.
pub struct SeriesEntry {
    pub area_code: AreaCode,
    pub item_code: ItemCode,
    pub year: i32,
    pub month: u32,
    /// Fixed-point amount, see `crate::text::AMOUNT_UNIT`.
    pub value: u64,
}

/// What a `SeriesEntry` holds, as plain values.
pub struct SeriesEntryView {
    pub area_code: Seq<char>,
    pub item_code: Seq<char>,
    pub year: int,
    pub month: int,
    pub value: nat,
}

impl View for SeriesEntry {
    type V = SeriesEntryView;

    open spec fn view(&self) -> SeriesEntryView {
        SeriesEntryView {
            area_code: self.area_code@,
            item_code: self.item_code@,
            year: self.year as int,
            month: self.month as int,
            value: self.value as nat,
        }
    }
}

/// The month that a raw period gives: the text after its first character,
/// read as an unsigned number.
pub open spec fn period_month(period: Seq<char>) -> Option<nat> {
    if period.len() >= 1 {
        unsigned_text_value(period.skip(1))
    } else {
        None
    }
}

/// The text that marks a month without data.
pub open spec fn is_no_data(value: Seq<char>) -> bool {
    value == seq!['-']
}

/// What a raw record reads as: an error, nothing for a month without data,
/// or an entry.
pub open spec fn raw_entry_outcome(raw: RawSeriesEntry) -> Result<Option<SeriesEntryView>, MalformedRecord> {
    let id = raw.series_id@;
    if id.len() < 7 {
        Err(MalformedRecord::SeriesId)
    } else if !(period_month(raw.period@) matches Some(m) && 1 <= m <= 12) {
        Err(MalformedRecord::Period)
    } else if is_no_data(raw.value@) {
        Ok(None)
    } else if !(signed_text_value(raw.year@) matches Some(y) && MIN_YEAR <= y <= MAX_YEAR) {
        Err(MalformedRecord::Year)
    } else if !(amount_text_value(raw.value@) matches Some(v) && v <= u64::MAX) {
        Err(MalformedRecord::Value)
    } else {
        Ok(
            Some(
                SeriesEntryView {
                    area_code: id.subrange(3, 7),
                    item_code: id.skip(7),
                    year: signed_text_value(raw.year@)->0,
                    month: period_month(raw.period@)->0 as int,
                    value: amount_text_value(raw.value@)->0,
                },
            ),
        )
    }
}

/// The plain view of a read result.
pub open spec fn outcome_view(r: Result<Option<SeriesEntry>, MalformedRecord>) -> Result<
    Option<SeriesEntryView>,
    MalformedRecord,
> {
    match r {
        Ok(Some(e)) => Ok(Some(e@)),
        Ok(None) => Ok(None),
        Err(x) => Err(x),
    }
}

impl SeriesEntry {
    /// Reads a raw record. A value of `-` marks a month without data and
    /// gives no entry.
    pub fn new_from_raw_or(raw_series_entry: &RawSeriesEntry) -> (r: Result<Option<SeriesEntry>, MalformedRecord>)
        ensures
            outcome_view(r) == raw_entry_outcome(*raw_series_entry),
    {
        let raw = raw_series_entry;
        if raw.series_id.as_str().unicode_len() < 7 {
            return Err(MalformedRecord::SeriesId);
        }
        let area_code = raw.get_area_code().to_owned();
        let item_code = raw.get_item_code().to_owned();
        let month = match raw.get_period() {
            Some(m) => m,
            None => return Err(MalformedRecord::Period),
        };
        if !(1 <= month && month <= 12) {
            return Err(MalformedRecord::Period);
        }
        // A few entries have a '-' for their value, meaning that there is no
        // data for that month.
        let v = raw.value.as_str();
        if v.unicode_len() == 1 && v.get_char(0) == '-' {
            assert(raw.value@ =~= seq!['-']);
            return Ok(None);
        }
        assert(!is_no_data(raw.value@)) by {
            if is_no_data(raw.value@) {
                assert(raw.value@.len() == 1 && raw.value@[0] == '-');
            }
        }
        let year = match parse_i32(raw.year.as_str()) {
            Some(y) => y,
            None => return Err(MalformedRecord::Year),
        };
        if year < MIN_YEAR || year > MAX_YEAR {
            return Err(MalformedRecord::Year);
        }
        let value = match parse_amount(raw.value.as_str()) {
            Some(v) => v,
            None => return Err(MalformedRecord::Value),
        };
        Ok(Some(SeriesEntry { area_code: AreaCode(area_code), item_code: ItemCode(item_code), year, month, value }))
    }

    pub fn get_area_code(&self) -> (r: &AreaCode)
        ensures
            r == &self.area_code,
    {
        &self.area_code
    }

    pub fn get_item_code(&self) -> (r: &ItemCode)
        ensures
            r == &self.item_code,
    {
        &self.item_code
    }

    pub fn get_year(&self) -> (r: i32)
        ensures
            r == self.year,
    {
        self.year
    }

    pub fn get_month(&self) -> (r: u32)
        ensures
            r == self.month,
    {
        self.month
    }

    pub fn get_value(&self) -> (r: u64)
        ensures
            r == self.value,
    {
        self.value
    }
}

/// The entries that raw records read as, in order, with the number of records
/// that were malformed. Months without data are dropped silently.
pub open spec fn entries_of_raw(raws: Seq<RawSeriesEntry>) -> Seq<SeriesEntryView>
    decreases raws.len(),
{
    if raws.len() == 0 {
        Seq::empty()
    } else {
        let prev = entries_of_raw(raws.drop_last());
        match raw_entry_outcome(raws.last()) {
            Ok(Some(e)) => prev.push(e),
            _ => prev,
        }
    }
}

pub open spec fn malformed_count(raws: Seq<RawSeriesEntry>) -> nat
    decreases raws.len(),
{
    if raws.len() == 0 {
        0
    } else {
        malformed_count(raws.drop_last()) + if raw_entry_outcome(raws.last()) is Err { 1nat } else { 0nat }
    }
}

proof fn lemma_entries_of_raw_len(raws: Seq<RawSeriesEntry>)
    ensures
        entries_of_raw(raws).len() <= raws.len(),
        (exists|k: int| 0 <= k < raws.len() && #[trigger] raw_entry_outcome(raws[k]) is Ok
            && raw_entry_outcome(raws[k])->Ok_0 is None) ==> entries_of_raw(raws).len() < raws.len(),
    decreases raws.len(),
{
    if raws.len() > 0 {
        let init = raws.drop_last();
        lemma_entries_of_raw_len(init);
        if exists|k: int| 0 <= k < raws.len() && #[trigger] raw_entry_outcome(raws[k]) is Ok
            && raw_entry_outcome(raws[k])->Ok_0 is None {
            let k = choose|k: int| 0 <= k < raws.len() && #[trigger] raw_entry_outcome(raws[k]) is Ok
                && raw_entry_outcome(raws[k])->Ok_0 is None;
            if k < raws.len() - 1 {
                assert(init[k] == raws[k]);
            }
        }
    }
}

/// Rows that mark a month without data give no entry: where one is present,
/// fewer entries come out than rows went in.
pub proof fn law_no_data_rows_dropped(raws: Seq<RawSeriesEntry>, k: int)
    requires
        0 <= k < raws.len(),
        raw_entry_outcome(raws[k]) == Ok::<Option<SeriesEntryView>, MalformedRecord>(None),
    ensures
        entries_of_raw(raws).len() < raws.len(),
{
    assert(raw_entry_outcome(raws[k]) is Ok && raw_entry_outcome(raws[k])->Ok_0 is None);
    lemma_entries_of_raw_len(raws);
}

/// Reads every raw record; malformed ones are skipped and counted.
pub fn series_entries_from_raw(raw_series_entries: &Vec<RawSeriesEntry>) -> (r: (Vec<SeriesEntry>, usize))
    ensures
        r.0@.map_values(|e: SeriesEntry| e@) == entries_of_raw(raw_series_entries@),
        r.1 == malformed_count(raw_series_entries@),
{
    let ghost raws = raw_series_entries@;
    let mut out: Vec<SeriesEntry> = Vec::new();
    let mut malformed: usize = 0;
    let mut i: usize = 0;
    while i < raw_series_entries.len()
        invariant
            raws == raw_series_entries@,
            i <= raws.len(),
            out@.map_values(|e: SeriesEntry| e@) == entries_of_raw(raws.take(i as int)),
            malformed == malformed_count(raws.take(i as int)),
            malformed <= i,
        decreases raws.len() - i,
    {
        assert(raws.take(i + 1).drop_last() =~= raws.take(i as int));
        assert(raws.take(i + 1).last() == raws[i as int]);
        match SeriesEntry::new_from_raw_or(&raw_series_entries[i]) {
            Ok(Some(e)) => {
                out.push(e);
                assert(out@.map_values(|e: SeriesEntry| e@) =~= entries_of_raw(raws.take(i as int)).push(e@));
            },
            Ok(None) => {},
            Err(_) => {
                malformed = malformed + 1;
            },
        }
        i = i + 1;
    }
    assert(raws.take(raws.len() as int) =~= raws);
    (out, malformed)
}

/// A row of the area list.
pub struct RawArea {
    pub area_code: String,
    pub area_name: String,
}

/// A row of the item list.
pub struct RawItem {
    pub item_code: String,
    pub item_name: String,
}

/// A row of the data file, as text.
pub struct RawSeriesEntry {
    pub series_id: String,
    pub year: String,
    /// A calendar month written `Mxx`: January is `M01`, December `M12`; `M13`
    /// stands for a whole year.
    pub period: String,
    pub value: String,
}

impl RawSeriesEntry {
    /// The area code: characters 3 to 6 of the series id.
    pub fn get_area_code(&self) -> (r: &str)
        requires
            self.series_id@.len() >= 7,
        ensures
            r@ == self.series_id@.subrange(3, 7),
    {
        self.series_id.as_str().substring_char(3, 7)
    }

    /// The item code: the series id from its character 7 on.
    pub fn get_item_code(&self) -> (r: &str)
        requires
            self.series_id@.len() >= 7,
        ensures
            r@ == self.series_id@.skip(7),
    {
        let s = self.series_id.as_str();
        s.substring_char(7, s.unicode_len())
    }

    /// The month number that the period gives, if it reads as one.
    pub fn get_period(&self) -> (r: Option<u32>)
        ensures
            r is Some <==> period_month(self.period@) is Some && period_month(self.period@)->0 <= u32::MAX,
            r is Some ==> r->0 == period_month(self.period@)->0,
    {
        let s = self.period.as_str();
        let n = s.unicode_len();
        if n < 1 {
            return None;
        }
        parse_u32(s.substring_char(1, n))
    }
}

} // verus!
