//! The daily bitcoin price series: a live-loaded one when it could be had,
//! else the bundled one.
use vstd::prelude::*;
use crate::calendar::{convert_date_string_to_date, date_text_value};
use crate::dated_series::{built_from, DatedSeries, PricePoint};
use crate::text::{amount_text_value, parse_amount};
use vstd::string::StringExecFns;

verus! {

#[verifier::external_type_specification]
#[verifier::external_body]
pub struct ExCsvError(csv::Error);

/// The records that the csv crate reads from some bytes, each a list of
/// fields; none where it refuses the bytes.
pub uninterp spec fn csv_records_of(bytes: Seq<u8>) -> Option<Seq<Seq<Seq<char>>>>;

/// The text of each field of a record.
pub open spec fn fields_view(row: Vec<String>) -> Seq<Seq<char>> {
    row@.map_values(|f: String| f@)
}

pub open spec fn records_view(records: Seq<Vec<String>>) -> Seq<Seq<Seq<char>>> {
    records.map_values(|row: Vec<String>| fields_view(row))
}

/// Relies on `csv::ReaderBuilder` (with headers read as a record) and
/// `csv::Reader::records`: whether the bytes are accepted, and the fields of
/// every record in order, depend on the bytes alone.
#[verifier::external_body]
pub(crate) fn csv_records(bytes: &[u8]) -> (r: Result<Vec<Vec<String>>, csv::Error>)
    ensures
        r is Ok <==> csv_records_of(bytes@) is Some,
        r is Ok ==> records_view(r->Ok_0@) == csv_records_of(bytes@)->0,
{
    csv::ReaderBuilder::new()
        .has_headers(false)
        .from_reader(bytes)
        .records()
        .map(|rec| rec.map(|fields| fields.iter().map(|f| f.to_string()).collect()))
        .collect()
}

/// One price row as text: a `yyyy-mm-dd` date and an opening price.
pub struct PriceRow {
    pub date: String,
    pub open: String,
}

/// The date and price texts of each row.
pub open spec fn rows_text(rows: Seq<PriceRow>) -> Seq<(Seq<char>, Seq<char>)> {
    rows.map_values(|r: PriceRow| (r.date@, r.open@))
}

/// The point that a date text and a price text read as, if both read.
pub open spec fn row_point(date: Seq<char>, open: Seq<char>) -> Option<PricePoint> {
    match (date_text_value(date), amount_text_value(open)) {
        (Some(d), Some(v)) => if v <= u64::MAX {
            Some(PricePoint { date: d, price: v as u64 })
        } else {
            None
        },
        _ => None,
    }
}

/// The points of all rows, if every row reads.
pub open spec fn text_points(rows: Seq<(Seq<char>, Seq<char>)>) -> Option<Seq<PricePoint>>
    decreases rows.len(),
{
    if rows.len() == 0 {
        Some(Seq::empty())
    } else {
        match (text_points(rows.drop_last()), row_point(rows.last().0, rows.last().1)) {
            (Some(prev), Some(p)) => Some(prev.push(p)),
            _ => None,
        }
    }
}

/// Reads the points of price rows; none if any row does not read.
pub fn price_points_from_rows(rows: &Vec<PriceRow>) -> (r: Option<Vec<PricePoint>>)
    ensures
        r is Some <==> text_points(rows_text(rows@)) is Some,
        r is Some ==> r->0@ == text_points(rows_text(rows@))->0,
{
    let ghost rs = rows_text(rows@);
    let mut out: Vec<PricePoint> = Vec::new();
    let mut k: usize = 0;
    while k < rows.len()
        invariant
            rs == rows_text(rows@),
            k <= rs.len(),
            text_points(rs.take(k as int)) == Some(out@),
        decreases rs.len() - k,
    {
        assert(rs.take(k + 1).drop_last() =~= rs.take(k as int));
        assert(rs.take(k + 1).last() == rs[k as int]);
        let row = &rows[k];
        let date = match convert_date_string_to_date(row.date.as_str()) {
            Some(d) => d,
            None => {
                proof { lemma_text_points_prefix(rs, k as int + 1); }
                return None;
            },
        };
        let price = match parse_amount(row.open.as_str()) {
            Some(v) => v,
            None => {
                proof { lemma_text_points_prefix(rs, k as int + 1); }
                return None;
            },
        };
        out.push(PricePoint { date, price });
        k = k + 1;
    }
    assert(rs.take(rs.len() as int) =~= rs);
    Some(out)
}

/// Where some prefix of the rows does not read, neither do all of them.
proof fn lemma_text_points_prefix(rows: Seq<(Seq<char>, Seq<char>)>, k: int)
    requires
        0 <= k <= rows.len(),
        text_points(rows.take(k)) is None,
    ensures
        text_points(rows) is None,
    decreases rows.len() - k,
{
    if k < rows.len() {
        assert(rows.take(k + 1).drop_last() =~= rows.take(k));
        lemma_text_points_prefix(rows, k + 1);
    } else {
        assert(rows.take(k) =~= rows);
    }
}

/// The name of the column of dates.
pub open spec fn date_column() -> Seq<char> {
    seq!['d', 'a', 't', 'e']
}

/// The name of the column of opening prices.
pub open spec fn open_column() -> Seq<char> {
    seq!['o', 'p', 'e', 'n']
}

/// Field `i` is the first one named `name`.
pub open spec fn column_index(header: Seq<Seq<char>>, name: Seq<char>, i: int) -> bool {
    0 <= i < header.len() && header[i] == name && forall|j: int| 0 <= j < i ==> header[j] != name
}

/// The position of the first field named `name`, if any.
pub open spec fn first_column(header: Seq<Seq<char>>, name: Seq<char>) -> Option<int> {
    if exists|i: int| 0 <= i < header.len() && header[i] == name {
        Some(choose|i: int| column_index(header, name, i))
    } else {
        None
    }
}

/// Why a price table could not be read.
#[derive(Clone, Copy, Debug, PartialEq, Eq, Structural)]
pub enum PriceTableError {
    /// The csv crate refused the bytes.
    Csv,
    /// The header lacks a `date` or an `open` column.
    MissingColumn,
    /// A record is too short to hold the `date` or the `open` column.
    ShortRecord,
    /// A date or a price does not read.
    BadRow,
}

/// The (date, open) texts of csv records whose first record names the
/// columns. No records give no rows.
pub open spec fn table_rows(records: Seq<Seq<Seq<char>>>) -> Result<Seq<(Seq<char>, Seq<char>)>, PriceTableError> {
    if records.len() == 0 {
        Ok(Seq::empty())
    } else {
        match (first_column(records[0], date_column()), first_column(records[0], open_column())) {
            (Some(di), Some(oi)) => if forall|k: int| 1 <= k < records.len() ==> di < (#[trigger] records[k]).len()
                && oi < records[k].len() {
                Ok(Seq::new((records.len() - 1) as nat, |k: int| (records[k + 1][di], records[k + 1][oi])))
            } else {
                Err(PriceTableError::ShortRecord)
            },
            _ => Err(PriceTableError::MissingColumn),
        }
    }
}

/// The points that csv records give, or why they give none.
pub open spec fn table_points(records: Seq<Seq<Seq<char>>>) -> Result<Seq<PricePoint>, PriceTableError> {
    match table_rows(records) {
        Ok(rows) => match text_points(rows) {
            Some(points) => Ok(points),
            None => Err(PriceTableError::BadRow),
        },
        Err(e) => Err(e),
    }
}

fn find_column(header: &Vec<String>, name: &String) -> (r: Option<usize>)
    ensures
        r is Some <==> first_column(fields_view(*header), name@) is Some,
        r matches Some(i) ==> i < header.len() && first_column(fields_view(*header), name@) == Some(i as int),
{
    let ghost h = fields_view(*header);
    let mut i: usize = 0;
    while i < header.len()
        invariant
            i <= header.len(),
            h == fields_view(*header),
            forall|j: int| 0 <= j < i ==> h[j] != name@,
        decreases header.len() - i,
    {
        if header[i] == *name {
            proof {
                assert(h[i as int] == name@);
                let c = choose|c: int| column_index(h, name@, c);
                assert(column_index(h, name@, i as int));
                assert(c == i) by {
                    if c < i { assert(h[c] != name@); }
                    if c > i { assert(h[i as int] != name@); }
                }
            }
            return Some(i);
        }
        assert(h[i as int] == header@[i as int]@);
        i = i + 1;
    }
    None
}

/// The price rows of csv records whose first record names the columns.
pub fn rows_from_records(records: &Vec<Vec<String>>) -> (r: Result<Vec<PriceRow>, PriceTableError>)
    ensures
        match r {
            Ok(rows) => table_rows(records_view(records@)) == Ok::<_, PriceTableError>(rows_text(rows@)),
            Err(e) => table_rows(records_view(records@)) == Err::<Seq<(Seq<char>, Seq<char>)>, _>(e),
        },
{
    let ghost rv = records_view(records@);
    let mut rows: Vec<PriceRow> = Vec::new();
    if records.len() == 0 {
        assert(rows_text(rows@) =~= Seq::empty());
        return Ok(rows);
    }
    let header = &records[0];
    assert(rv[0] == fields_view(*header));
    let date_name = String::from_str("date");
    let open_name = String::from_str("open");
    proof {
        reveal_strlit("date");
        reveal_strlit("open");
    }
    assert(date_name@ =~= date_column());
    assert(open_name@ =~= open_column());
    let di = match find_column(header, &date_name) {
        Some(i) => i,
        None => return Err(PriceTableError::MissingColumn),
    };
    let oi = match find_column(header, &open_name) {
        Some(i) => i,
        None => return Err(PriceTableError::MissingColumn),
    };
    let mut k: usize = 1;
    while k < records.len()
        invariant
            1 <= k <= records.len(),
            rv == records_view(records@),
            first_column(rv[0], date_column()) == Some(di as int),
            first_column(rv[0], open_column()) == Some(oi as int),
            rows.len() == k - 1,
            forall|j: int| 1 <= j < k ==> di < (#[trigger] rv[j]).len() && oi < rv[j].len(),
            forall|j: int| 0 <= j < rows.len() ==> rows_text(rows@)[j] == (rv[j + 1][di as int], rv[j + 1][oi as int]),
        decreases records.len() - k,
    {
        let rec = &records[k];
        assert(rv[k as int] == fields_view(*rec));
        if di >= rec.len() || oi >= rec.len() {
            assert(!(di < rv[k as int].len() && oi < rv[k as int].len()));
            return Err(PriceTableError::ShortRecord);
        }
        let row = PriceRow { date: rec[di].clone(), open: rec[oi].clone() };
        assert(row.date@ == rv[k as int][di as int]);
        assert(row.open@ == rv[k as int][oi as int]);
        let ghost old_rows = rows@;
        rows.push(row);
        assert forall|j: int| 0 <= j < rows.len() implies rows_text(rows@)[j] == (rv[j + 1][di as int], rv[j + 1][oi as int]) by {
            if j < rows.len() - 1 {
                assert(rows@[j] == old_rows[j]);
                assert(rows_text(old_rows)[j] == (rv[j + 1][di as int], rv[j + 1][oi as int]));
            }
        }
        k = k + 1;
    }
    assert(rows_text(rows@) =~= Seq::new((rv.len() - 1) as nat, |j: int| (rv[j + 1][di as int], rv[j + 1][oi as int])));
    Ok(rows)
}

/// Reads a price table in csv form into its points.
pub fn price_points_from_csv(csv_bytes: &[u8]) -> (r: Result<Vec<PricePoint>, PriceTableError>)
    ensures
        match csv_records_of(csv_bytes@) {
            None => r == Err::<Vec<PricePoint>, PriceTableError>(PriceTableError::Csv),
            Some(records) => match table_points(records) {
                Ok(points) => r is Ok && r->Ok_0@ == points,
                Err(e) => r == Err::<Vec<PricePoint>, PriceTableError>(e),
            },
        },
{
    let records = match csv_records(csv_bytes) {
        Ok(records) => records,
        Err(_) => return Err(PriceTableError::Csv),
    };
    let rows = match rows_from_records(&records) {
        Ok(rows) => rows,
        Err(e) => return Err(e),
    };
    match price_points_from_rows(&rows) {
        Some(points) => Ok(points),
        None => Err(PriceTableError::BadRow),
    }
}

pub struct BTCPriceHistory {
    /// Bundled price data, used when live data could not be loaded.
    csv_price_by_date: DatedSeries,
    /// Live-loaded price data. Used by default.
    api_loaded_price_by_date_or: Option<DatedSeries>,
}

impl BTCPriceHistory {
    pub closed spec fn wf(&self) -> bool {
        &&& self.csv_price_by_date.wf()
        &&& self.api_loaded_price_by_date_or matches Some(s) ==> s.wf()
    }

    /// The bundled series.
    pub closed spec fn bundled(&self) -> Seq<PricePoint> {
        self.csv_price_by_date@
    }

    /// The series that `get_best_dataset` gives.
    pub closed spec fn best(&self) -> Seq<PricePoint> {
        match self.api_loaded_price_by_date_or {
            Some(s) => s@,
            None => self.csv_price_by_date@,
        }
    }

    /// Builds the history from the bundled table and, where it was loaded,
    /// the live rows. Live rows that do not all read are set aside, as a
    /// failed load would be; a bundled table that does not read is an error.
    pub fn new(csv_bytes: &[u8], api_rows_or: Option<Vec<PriceRow>>) -> (r: Result<BTCPriceHistory, PriceTableError>)
        ensures
            match csv_records_of(csv_bytes@) {
                None => r == Err::<BTCPriceHistory, PriceTableError>(PriceTableError::Csv),
                Some(records) => match table_points(records) {
                    Ok(points) => r is Ok && built_from(r->Ok_0.bundled(), points),
                    Err(e) => r == Err::<BTCPriceHistory, PriceTableError>(e),
                },
            },
            r matches Ok(h) ==> h.wf(),
            r matches Ok(h) ==> (api_rows_or matches Some(rows) && text_points(rows_text(rows@)) is Some)
                ==> built_from(h.best(), text_points(rows_text(api_rows_or->0@))->0),
            r matches Ok(h) ==> !(api_rows_or matches Some(rows) && text_points(rows_text(rows@)) is Some)
                ==> h.best() == h.bundled(),
    {
        let csv_points = match price_points_from_csv(csv_bytes) {
            Ok(points) => points,
            Err(e) => return Err(e),
        };
        let csv_price_by_date = DatedSeries::new(csv_points);
        let api_loaded_price_by_date_or = match api_rows_or {
            Some(rows) => match price_points_from_rows(&rows) {
                Some(points) => Some(DatedSeries::new(points)),
                None => None,
            },
            None => None,
        };
        Ok(BTCPriceHistory { csv_price_by_date, api_loaded_price_by_date_or })
    }

    /// Live price data where it was loaded, else the bundled data.
    pub fn get_best_dataset(&self) -> (r: &DatedSeries)
        requires
            self.wf(),
        ensures
            r.wf(),
            r@ == self.best(),
    {
        match &self.api_loaded_price_by_date_or {
            Some(api_loaded_price_by_date) => api_loaded_price_by_date,
            None => &self.csv_price_by_date,
        }
    }
}

} // verus!
