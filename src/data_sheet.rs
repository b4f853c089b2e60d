//! Tab-separated data sheets: a header line of column names, then one line
//! per row.
use vstd::prelude::*;
use vstd::string::{StrSliceExecFns, StringExecFns};
use crate::cpi_ap::{RawArea, RawItem, RawSeriesEntry};
use crate::text::chars_of;

verus! {

/// The pieces of `s` between the separators `sep`, in order; there is one
/// more piece than there are separators.
pub open spec fn split_pieces(s: Seq<char>, sep: char) -> Seq<Seq<char>>
    decreases s.len(),
{
    if s.len() == 0 {
        seq![Seq::empty()]
    } else {
        let rest = split_pieces(s.skip(1), sep);
        if s[0] == sep {
            seq![Seq::<char>::empty()] + rest
        } else {
            rest.update(0, seq![s[0]] + rest[0])
        }
    }
}

pub open spec fn strings_view(v: Seq<String>) -> Seq<Seq<char>> {
    v.map_values(|p: String| p@)
}

/// Relies on `str::split` with a `char` pattern: the substrings between the
/// matches of the separator, in order, including empty ones at either end.
#[verifier::external_body]
fn split_on(s: &str, sep: char) -> (r: Vec<String>)
    ensures
        strings_view(r@) == split_pieces(s@, sep),
{
    s.split(sep).map(|p| p.to_string()).collect()
}

/// White space as Unicode defines it.
pub open spec fn is_whitespace(c: char) -> bool {
    ||| '\u{9}' <= c <= '\u{d}'
    ||| c == ' '
    ||| c == '\u{85}'
    ||| c == '\u{a0}'
    ||| c == '\u{1680}'
    ||| '\u{2000}' <= c <= '\u{200a}'
    ||| c == '\u{2028}'
    ||| c == '\u{2029}'
    ||| c == '\u{202f}'
    ||| c == '\u{205f}'
    ||| c == '\u{3000}'
}

pub open spec fn trim_start(s: Seq<char>) -> Seq<char>
    decreases s.len(),
{
    if s.len() > 0 && is_whitespace(s[0]) { trim_start(s.skip(1)) } else { s }
}

pub open spec fn trim_end(s: Seq<char>) -> Seq<char>
    decreases s.len(),
{
    if s.len() > 0 && is_whitespace(s.last()) { trim_end(s.drop_last()) } else { s }
}

/// `s` without white space at either end.
pub open spec fn trimmed(s: Seq<char>) -> Seq<char> {
    trim_end(trim_start(s))
}

proof fn lemma_trim_start(s: Seq<char>, a: int)
    requires
        0 <= a <= s.len(),
        forall|j: int| 0 <= j < a ==> is_whitespace(s[j]),
        a == s.len() || !is_whitespace(s[a]),
    ensures
        trim_start(s) == s.skip(a),
    decreases a,
{
    if a == 0 {
        assert(s.skip(0) =~= s);
    } else {
        lemma_trim_start(s.skip(1), a - 1);
        assert(s.skip(1).skip(a - 1) =~= s.skip(a));
    }
}

proof fn lemma_trim_end(s: Seq<char>, b: int)
    requires
        0 <= b <= s.len(),
        forall|j: int| b <= j < s.len() ==> is_whitespace(s[j]),
        b == 0 || !is_whitespace(s[b - 1]),
    ensures
        trim_end(s) == s.take(b),
    decreases s.len() - b,
{
    if b == s.len() {
        assert(s.take(b) =~= s);
    } else {
        lemma_trim_end(s.drop_last(), b);
        assert(s.drop_last().take(b) =~= s.take(b));
    }
}

fn is_whitespace_char(c: char) -> (r: bool)
    ensures
        r == is_whitespace(c),
{
    ('\u{9}' <= c && c <= '\u{d}') || c == ' ' || c == '\u{85}' || c == '\u{a0}' || c == '\u{1680}'
        || ('\u{2000}' <= c && c <= '\u{200a}') || c == '\u{2028}' || c == '\u{2029}' || c == '\u{202f}'
        || c == '\u{205f}' || c == '\u{3000}'
}

/// `s` without white space at either end.
pub fn trim(s: &str) -> (r: String)
    ensures
        r@ == trimmed(s@),
{
    let cs = chars_of(s);
    let n = cs.len();
    let mut a: usize = 0;
    while a < n && is_whitespace_char(cs[a])
        invariant
            a <= n == cs.len(),
            forall|j: int| 0 <= j < a ==> is_whitespace(cs@[j]),
        decreases n - a,
    {
        a = a + 1;
    }
    proof {
        lemma_trim_start(s@, a as int);
    }
    let ghost t = s@.skip(a as int);
    let mut b: usize = n;
    while b > a && is_whitespace_char(cs[b - 1])
        invariant
            a <= b <= n == cs.len(),
            forall|j: int| b <= j < n ==> is_whitespace(cs@[j]),
        decreases b,
    {
        b = b - 1;
    }
    proof {
        assert forall|j: int| b - a <= j < t.len() implies is_whitespace(t[j]) by {
            assert(t[j] == cs@[a + j]);
        }
        if b > a {
            assert(t[b - a - 1] == cs@[b - 1]);
        }
        lemma_trim_end(t, b - a);
    }
    let r = s.substring_char(a, b).to_owned();
    assert(r@ =~= t.take(b - a));
    r
}

pub open spec fn trimmed_all(pieces: Seq<Seq<char>>) -> Seq<Seq<char>> {
    pieces.map_values(|p: Seq<char>| trimmed(p))
}

/// The trimmed fields of one line.
pub open spec fn line_fields(line: Seq<char>) -> Seq<Seq<char>> {
    trimmed_all(split_pieces(line, '\t'))
}

/// The lines of a sheet that hold rows: all but the first, which names the
/// columns, and the last, which is what follows the final line break.
pub open spec fn row_lines(text: Seq<char>) -> Seq<Seq<char>> {
    let lines = split_pieces(text, '\n');
    if lines.len() >= 2 { lines.subrange(1, lines.len() - 1) } else { Seq::empty() }
}

fn fields_of(line: &str) -> (r: Vec<String>)
    ensures
        strings_view(r@) == line_fields(line@),
{
    let pieces = split_on(line, '\t');
    let mut out: Vec<String> = Vec::new();
    let mut k: usize = 0;
    while k < pieces.len()
        invariant
            k <= pieces.len(),
            strings_view(pieces@) == split_pieces(line@, '\t'),
            out.len() == k,
            forall|j: int| 0 <= j < k ==> (#[trigger] out@[j])@ == trimmed(pieces@[j]@),
        decreases pieces.len() - k,
    {
        out.push(trim(pieces[k].as_str()));
        k = k + 1;
    }
    assert(strings_view(out@) =~= line_fields(line@)) by {
        assert forall|j: int| 0 <= j < out.len() implies strings_view(out@)[j] == line_fields(line@)[j] by {
            assert(split_pieces(line@, '\t')[j] == pieces@[j]@);
        }
    }
    out
}

/// A sheet: the names of its columns and the fields of each row.
pub struct DataSheet {
    pub column_names: Vec<String>,
    pub rows: Vec<Vec<String>>,
}

/// The fields of the row lines that have `count` fields, in order.
pub open spec fn kept_rows(lines: Seq<Seq<char>>, count: nat) -> Seq<Seq<Seq<char>>>
    decreases lines.len(),
{
    if lines.len() == 0 {
        Seq::empty()
    } else {
        let prev = kept_rows(lines.drop_last(), count);
        let f = line_fields(lines.last());
        if f.len() == count { prev.push(f) } else { prev }
    }
}

/// The positions, among the row lines, of those that do not have `count`
/// fields, in order.
pub open spec fn skipped_rows(lines: Seq<Seq<char>>, count: nat) -> Seq<int>
    decreases lines.len(),
{
    if lines.len() == 0 {
        Seq::empty()
    } else {
        let prev = skipped_rows(lines.drop_last(), count);
        if line_fields(lines.last()).len() == count { prev } else { prev.push(lines.len() - 1) }
    }
}

pub open spec fn rows_view(rows: Seq<Vec<String>>) -> Seq<Seq<Seq<char>>> {
    rows.map_values(|row: Vec<String>| strings_view(row@))
}

/// Reads a sheet. A row whose number of fields differs from the number of
/// columns is left out, and its position among the rows is reported.
pub fn get_data_sheet(text: &str) -> (r: (DataSheet, Vec<usize>))
    ensures
        r.0.wf(),
        strings_view(r.0.column_names@) == line_fields(split_pieces(text@, '\n')[0]),
        rows_view(r.0.rows@) == kept_rows(row_lines(text@), line_fields(split_pieces(text@, '\n')[0]).len()),
        r.1@.map_values(|k: usize| k as int) == skipped_rows(
            row_lines(text@),
            line_fields(split_pieces(text@, '\n')[0]).len(),
        ),
{
    let ghost all = split_pieces(text@, '\n');
    let ghost lines = row_lines(text@);
    let line_texts = split_on(text, '\n');
    proof {
        lemma_split_pieces_nonempty(text@, '\n');
    }
    let column_names = fields_of(line_texts[0].as_str());
    let ghost columns = line_fields(all[0]);
    let count = column_names.len();
    assert(strings_view(column_names@) == columns);
    let n = line_texts.len();
    let last = if n >= 2 { n - 1 } else { 1 };
    let mut rows: Vec<Vec<String>> = Vec::new();
    let mut skipped: Vec<usize> = Vec::new();
    let mut k: usize = 1;
    while k < last
        invariant
            n == line_texts.len() >= 1,
            strings_view(line_texts@) == all,
            lines == row_lines(text@),
            all == split_pieces(text@, '\n'),
            lines.len() == last - 1,
            forall|j: int| 0 <= j < lines.len() ==> lines[j] == all[j + 1],
            count == columns.len(),
            columns == line_fields(all[0]),
            1 <= k <= last <= n || (n == 1 && k == 1 && last == 1),
            rows_view(rows@) == kept_rows(lines.take(k - 1), count as nat),
            skipped@.map_values(|q: usize| q as int) == skipped_rows(lines.take(k - 1), count as nat),
            forall|j: int| 0 <= j < rows.len() ==> (#[trigger] rows@[j]).len() == count,
        decreases last - k,
    {
        let fields = fields_of(line_texts[k].as_str());
        assert(strings_view(line_texts@)[k as int] == line_texts@[k as int]@);
        assert(line_texts@[k as int]@ == lines[k - 1]);
        assert(lines.take(k as int).drop_last() =~= lines.take(k - 1));
        assert(lines.take(k as int).last() == lines[k - 1]);
        assert(line_fields(lines[k - 1]).len() == fields.len());
        if fields.len() != count {
            let ghost before = skipped@;
            skipped.push(k - 1);
            assert(skipped@.map_values(|q: usize| q as int) =~= before.map_values(|q: usize| q as int).push(k - 1));
        } else {
            let ghost before = rows@;
            rows.push(fields);
            assert(rows_view(rows@) =~= rows_view(before).push(line_fields(lines[k - 1])));
        }
        k = k + 1;
    }
    assert(lines.take(last - 1) =~= lines);
    (DataSheet { column_names, rows }, skipped)
}

proof fn lemma_split_pieces_nonempty(s: Seq<char>, sep: char)
    ensures
        split_pieces(s, sep).len() >= 1,
    decreases s.len(),
{
    if s.len() > 0 {
        lemma_split_pieces_nonempty(s.skip(1), sep);
    }
}

impl DataSheet {
    /// Every row has one field per column.
    pub open spec fn wf(&self) -> bool {
        forall|k: int| 0 <= k < self.rows.len() ==> (#[trigger] self.rows@[k]).len() == self.column_names.len()
    }

    pub open spec fn columns(&self) -> Seq<Seq<char>> {
        strings_view(self.column_names@)
    }

    pub open spec fn row(&self, k: int) -> Seq<Seq<char>> {
        strings_view(self.rows@[k]@)
    }
}

/// Column `i` is the last one named `name`.
pub open spec fn is_last_column(columns: Seq<Seq<char>>, name: Seq<char>, i: int) -> bool {
    &&& 0 <= i < columns.len()
    &&& columns[i] == name
    &&& forall|j: int| i < j < columns.len() ==> columns[j] != name
}

pub open spec fn has_column(columns: Seq<Seq<char>>, name: Seq<char>) -> bool {
    exists|i: int| 0 <= i < columns.len() && columns[i] == name
}

/// The field of `row` under the last column named `name`.
pub open spec fn column_value(columns: Seq<Seq<char>>, row: Seq<Seq<char>>, name: Seq<char>) -> Seq<char> {
    row[choose|i: int| is_last_column(columns, name, i)]
}

/// Position of the last column named `name`, if any.
fn last_column(columns: &Vec<String>, name: &String) -> (r: Option<usize>)
    ensures
        r is Some <==> has_column(strings_view(columns@), name@),
        r matches Some(i) ==> is_last_column(strings_view(columns@), name@, i as int),
{
    let ghost cols = strings_view(columns@);
    let mut i: usize = columns.len();
    while i > 0
        invariant
            i <= columns.len(),
            cols == strings_view(columns@),
            forall|j: int| i <= j < columns.len() ==> cols[j] != name@,
        decreases i,
    {
        if columns[i - 1] == *name {
            assert(cols[i - 1] == name@);
            return Some(i - 1);
        }
        assert(cols[i - 1] == columns@[i - 1]@);
        i = i - 1;
    }
    None
}

/// The fields of every row under the columns named `names`, in that order;
/// none if a name is missing from the columns.
fn pick_columns(sheet: &DataSheet, names: &Vec<String>) -> (r: Option<Vec<Vec<String>>>)
    requires
        sheet.wf(),
    ensures
        r is Some <==> forall|f: int| 0 <= f < names.len() ==> has_column(sheet.columns(), (#[trigger] names@[f])@),
        r matches Some(picked) ==> picked.len() == sheet.rows.len() && forall|k: int| 0 <= k < picked.len()
            ==> (#[trigger] picked@[k]).len() == names.len() && forall|f: int| 0 <= f < names.len()
            ==> (#[trigger] picked@[k]@[f])@ == column_value(sheet.columns(), sheet.row(k), names@[f]@),
{
    let mut idx: Vec<usize> = Vec::new();
    let mut f: usize = 0;
    while f < names.len()
        invariant
            f <= names.len(),
            idx.len() == f,
            forall|g: int| 0 <= g < f ==> is_last_column(sheet.columns(), names@[g]@, #[trigger] idx@[g] as int),
            forall|g: int| 0 <= g < f ==> has_column(sheet.columns(), (#[trigger] names@[g])@),
        decreases names.len() - f,
    {
        match last_column(&sheet.column_names, &names[f]) {
            Some(i) => idx.push(i),
            None => return None,
        }
        f = f + 1;
    }
    let mut picked: Vec<Vec<String>> = Vec::new();
    let mut k: usize = 0;
    while k < sheet.rows.len()
        invariant
            sheet.wf(),
            idx.len() == names.len(),
            forall|g: int| 0 <= g < names.len() ==> is_last_column(sheet.columns(), names@[g]@, #[trigger] idx@[g] as int),
            k <= sheet.rows.len(),
            picked.len() == k,
            forall|q: int| 0 <= q < k ==> (#[trigger] picked@[q]).len() == names.len() && forall|g: int| 0 <= g < names.len()
                ==> (#[trigger] picked@[q]@[g])@ == column_value(sheet.columns(), sheet.row(q), names@[g]@),
        decreases sheet.rows.len() - k,
    {
        let row = &sheet.rows[k];
        let mut fields: Vec<String> = Vec::new();
        let mut g: usize = 0;
        while g < idx.len()
            invariant
                sheet.wf(),
                k < sheet.rows.len(),
                *row == sheet.rows@[k as int],
                idx.len() == names.len(),
                forall|h: int| 0 <= h < names.len() ==> is_last_column(sheet.columns(), names@[h]@, #[trigger] idx@[h] as int),
                g <= idx.len(),
                fields.len() == g,
                forall|h: int| 0 <= h < g ==> (#[trigger] fields@[h])@ == column_value(sheet.columns(), sheet.row(k as int), names@[h]@),
            decreases idx.len() - g,
        {
            let i = idx[g];
            proof {
                let c = choose|c: int| is_last_column(sheet.columns(), names@[g as int]@, c);
                assert(is_last_column(sheet.columns(), names@[g as int]@, i as int));
                assert(c == i) by {
                    if c < i { assert(sheet.columns()[i as int] != names@[g as int]@); }
                    if c > i { assert(sheet.columns()[c] != names@[g as int]@); }
                }
                assert(sheet.rows@[k as int].len() == sheet.column_names.len());
            }
            fields.push(row[i].clone());
            g = g + 1;
        }
        picked.push(fields);
        k = k + 1;
    }
    Some(picked)
}

/// The area rows of a sheet with `area_code` and `area_name` columns; none
/// without them.
pub fn raw_areas_from_sheet(sheet: &DataSheet) -> (r: Vec<RawArea>)
    requires
        sheet.wf(),
    ensures
        !(has_column(sheet.columns(), "area_code"@) && has_column(sheet.columns(), "area_name"@)) ==> r.len() == 0,
        has_column(sheet.columns(), "area_code"@) && has_column(sheet.columns(), "area_name"@) ==> r.len()
            == sheet.rows.len() && forall|k: int| 0 <= k < r.len() ==> (#[trigger] r@[k]).area_code@ == column_value(
            sheet.columns(), sheet.row(k), "area_code"@) && r@[k].area_name@ == column_value(sheet.columns(), sheet.row(k), "area_name"@),
{
    let mut names: Vec<String> = Vec::new();
    names.push(String::from_str("area_code"));
    names.push(String::from_str("area_name"));
    let mut out: Vec<RawArea> = Vec::new();
    let picked = match pick_columns(sheet, &names) {
        Some(p) => p,
        None => {
            assert(!(has_column(sheet.columns(), names@[0]@) && has_column(sheet.columns(), names@[1]@)));
            return out;
        },
    };
    assert(has_column(sheet.columns(), names@[0]@) && has_column(sheet.columns(), names@[1]@));
    let mut k: usize = 0;
    while k < picked.len()
        invariant
            k <= picked.len(),
            names@[0]@ == "area_code"@,
            names@[1]@ == "area_name"@,
            names.len() == 2,
            picked.len() == sheet.rows.len(),
            forall|q: int| 0 <= q < picked.len() ==> (#[trigger] picked@[q]).len() == names.len() && forall|g: int| 0 <= g < names.len()
                ==> (#[trigger] picked@[q]@[g])@ == column_value(sheet.columns(), sheet.row(q), names@[g]@),
            out.len() == k,
            forall|q: int| 0 <= q < k ==> (#[trigger] out@[q]).area_code@ == column_value(sheet.columns(), sheet.row(q), "area_code"@)
                && out@[q].area_name@ == column_value(sheet.columns(), sheet.row(q), "area_name"@),
        decreases picked.len() - k,
    {
        assert(picked@[k as int]@[0]@ == column_value(sheet.columns(), sheet.row(k as int), names@[0]@));
        assert(picked@[k as int]@[1]@ == column_value(sheet.columns(), sheet.row(k as int), names@[1]@));
        out.push(RawArea { area_code: picked[k][0].clone(), area_name: picked[k][1].clone() });
        k = k + 1;
    }
    out
}

/// The item rows of a sheet with `item_code` and `item_name` columns; none
/// without them.
pub fn raw_items_from_sheet(sheet: &DataSheet) -> (r: Vec<RawItem>)
    requires
        sheet.wf(),
    ensures
        !(has_column(sheet.columns(), "item_code"@) && has_column(sheet.columns(), "item_name"@)) ==> r.len() == 0,
        has_column(sheet.columns(), "item_code"@) && has_column(sheet.columns(), "item_name"@) ==> r.len()
            == sheet.rows.len() && forall|k: int| 0 <= k < r.len() ==> (#[trigger] r@[k]).item_code@ == column_value(
            sheet.columns(), sheet.row(k), "item_code"@) && r@[k].item_name@ == column_value(sheet.columns(), sheet.row(k), "item_name"@),
{
    let mut names: Vec<String> = Vec::new();
    names.push(String::from_str("item_code"));
    names.push(String::from_str("item_name"));
    let mut out: Vec<RawItem> = Vec::new();
    let picked = match pick_columns(sheet, &names) {
        Some(p) => p,
        None => {
            assert(!(has_column(sheet.columns(), names@[0]@) && has_column(sheet.columns(), names@[1]@)));
            return out;
        },
    };
    assert(has_column(sheet.columns(), names@[0]@) && has_column(sheet.columns(), names@[1]@));
    let mut k: usize = 0;
    while k < picked.len()
        invariant
            k <= picked.len(),
            names@[0]@ == "item_code"@,
            names@[1]@ == "item_name"@,
            names.len() == 2,
            picked.len() == sheet.rows.len(),
            forall|q: int| 0 <= q < picked.len() ==> (#[trigger] picked@[q]).len() == names.len() && forall|g: int| 0 <= g < names.len()
                ==> (#[trigger] picked@[q]@[g])@ == column_value(sheet.columns(), sheet.row(q), names@[g]@),
            out.len() == k,
            forall|q: int| 0 <= q < k ==> (#[trigger] out@[q]).item_code@ == column_value(sheet.columns(), sheet.row(q), "item_code"@)
                && out@[q].item_name@ == column_value(sheet.columns(), sheet.row(q), "item_name"@),
        decreases picked.len() - k,
    {
        assert(picked@[k as int]@[0]@ == column_value(sheet.columns(), sheet.row(k as int), names@[0]@));
        assert(picked@[k as int]@[1]@ == column_value(sheet.columns(), sheet.row(k as int), names@[1]@));
        out.push(RawItem { item_code: picked[k][0].clone(), item_name: picked[k][1].clone() });
        k = k + 1;
    }
    out
}

/// The data rows of a sheet with `series_id`, `year`, `period` and `value`
/// columns; none without them.
pub fn raw_series_entries_from_sheet(sheet: &DataSheet) -> (r: Vec<RawSeriesEntry>)
    requires
        sheet.wf(),
    ensures
        !(has_column(sheet.columns(), "series_id"@) && has_column(sheet.columns(), "year"@) && has_column(
            sheet.columns(), "period"@) && has_column(sheet.columns(), "value"@)) ==> r.len() == 0,
        has_column(sheet.columns(), "series_id"@) && has_column(sheet.columns(), "year"@) && has_column(
            sheet.columns(), "period"@) && has_column(sheet.columns(), "value"@) ==> r.len() == sheet.rows.len()
            && forall|k: int| 0 <= k < r.len() ==> (#[trigger] r@[k]).series_id@ == column_value(sheet.columns(), sheet.row(k), "series_id"@)
            && r@[k].year@ == column_value(sheet.columns(), sheet.row(k), "year"@)
            && r@[k].period@ == column_value(sheet.columns(), sheet.row(k), "period"@)
            && r@[k].value@ == column_value(sheet.columns(), sheet.row(k), "value"@),
{
    let mut names: Vec<String> = Vec::new();
    names.push(String::from_str("series_id"));
    names.push(String::from_str("year"));
    names.push(String::from_str("period"));
    names.push(String::from_str("value"));
    let mut out: Vec<RawSeriesEntry> = Vec::new();
    let picked = match pick_columns(sheet, &names) {
        Some(p) => p,
        None => {
            assert(!(has_column(sheet.columns(), names@[0]@) && has_column(sheet.columns(), names@[1]@)
                && has_column(sheet.columns(), names@[2]@) && has_column(sheet.columns(), names@[3]@)));
            return out;
        },
    };
    assert(has_column(sheet.columns(), names@[0]@) && has_column(sheet.columns(), names@[1]@)
        && has_column(sheet.columns(), names@[2]@) && has_column(sheet.columns(), names@[3]@));
    let mut k: usize = 0;
    while k < picked.len()
        invariant
            k <= picked.len(),
            names@[0]@ == "series_id"@,
            names@[1]@ == "year"@,
            names@[2]@ == "period"@,
            names@[3]@ == "value"@,
            names.len() == 4,
            picked.len() == sheet.rows.len(),
            forall|q: int| 0 <= q < picked.len() ==> (#[trigger] picked@[q]).len() == names.len() && forall|g: int| 0 <= g < names.len()
                ==> (#[trigger] picked@[q]@[g])@ == column_value(sheet.columns(), sheet.row(q), names@[g]@),
            out.len() == k,
            forall|q: int| 0 <= q < k ==> (#[trigger] out@[q]).series_id@ == column_value(sheet.columns(), sheet.row(q), "series_id"@)
                && out@[q].year@ == column_value(sheet.columns(), sheet.row(q), "year"@)
                && out@[q].period@ == column_value(sheet.columns(), sheet.row(q), "period"@)
                && out@[q].value@ == column_value(sheet.columns(), sheet.row(q), "value"@),
        decreases picked.len() - k,
    {
        assert(picked@[k as int]@[0]@ == column_value(sheet.columns(), sheet.row(k as int), names@[0]@));
        assert(picked@[k as int]@[1]@ == column_value(sheet.columns(), sheet.row(k as int), names@[1]@));
        assert(picked@[k as int]@[2]@ == column_value(sheet.columns(), sheet.row(k as int), names@[2]@));
        assert(picked@[k as int]@[3]@ == column_value(sheet.columns(), sheet.row(k as int), names@[3]@));
        out.push(RawSeriesEntry {
            series_id: picked[k][0].clone(),
            year: picked[k][1].clone(),
            period: picked[k][2].clone(),
            value: picked[k][3].clone(),
        });
        k = k + 1;
    }
    out
}

} // verus!
