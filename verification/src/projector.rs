//! The row projector: renders one fetched row into a JSON object fragment
//! using the catalog's column metadata, one field per column in catalog
//! order, and assembles multi-row results into a bracketed array.
//!
//! String columns render as quoted text (a value that could not be read
//! renders as the empty string); integer and number columns as an unquoted
//! numeric literal, or `null` when absent; date-time columns as a quoted
//! RFC 3339 timestamp, or `null`; unsupported columns always render as a
//! fixed placeholder, never the real value.

use crate::catalog::{cols_v, Column, ColumnType, ColumnV};
use crate::numtext::{char_of_digit, digit_str};
use crate::query::{lemma_sep_join_push, sep_join, str_views, DynamicQuery};
use vstd::prelude::*;

verus! {

/// A wall-clock timestamp with a fixed offset from UTC, as the execution
/// layer decodes it from a fetched date-time value.
#[derive(Clone, Copy, Debug, PartialEq, Eq, Structural)]
pub struct Timestamp {
    pub year: u16,
    pub month: u8,
    pub day: u8,
    pub hour: u8,
    pub minute: u8,
    pub second: u8,
    /// Offset from UTC in minutes, negative west of UTC.
    pub tz_minutes: i16,
}

impl Timestamp {
    /// The fields form a renderable calendar timestamp.
    pub open spec fn wf(self) -> bool {
        &&& self.year <= 9999
        &&& 1 <= self.month <= 12
        &&& 1 <= self.day <= 31
        &&& self.hour < 24
        &&& self.minute < 60
        &&& self.second < 60
        &&& -1440 < self.tz_minutes < 1440
    }
}

/// One fetched cell: a value, or an explicit absent marker.  The execution
/// layer reads a string cell as `Text`, a numeric cell as its decimal text
/// form in `Num`, and a date-time cell as a decoded `Stamp`.
pub enum CellValue {
    Null,
    Text(String),
    Num(String),
    Stamp(Timestamp),
}

/// Mathematical value of a [`CellValue`].
pub enum CellValueV {
    Null,
    Text(Seq<char>),
    Num(Seq<char>),
    Stamp(Timestamp),
}

impl View for CellValue {
    type V = CellValueV;

    open spec fn view(&self) -> CellValueV {
        match self {
            CellValue::Null => CellValueV::Null,
            CellValue::Text(s) => CellValueV::Text(s@),
            CellValue::Num(s) => CellValueV::Num(s@),
            CellValue::Stamp(t) => CellValueV::Stamp(*t),
        }
    }
}

/// Views of a row of cells.
pub open spec fn cells_v(row: Seq<CellValue>) -> Seq<CellValueV> {
    row.map_values(|c: CellValue| c@)
}

/// Every timestamp in the row is renderable.
pub open spec fn cells_wf(row: Seq<CellValueV>) -> bool {
    forall|i: int|
        0 <= i < row.len() ==> match #[trigger] row[i] {
            CellValueV::Stamp(t) => t.wf(),
            _ => true,
        }
}

/// A number zero-padded to two decimal digits.
pub open spec fn dec2(n: int) -> Seq<char> {
    seq![char_of_digit(n / 10 % 10), char_of_digit(n % 10)]
}

/// A number zero-padded to four decimal digits.
pub open spec fn dec4(n: int) -> Seq<char> {
    seq![
        char_of_digit(n / 1000 % 10),
        char_of_digit(n / 100 % 10),
        char_of_digit(n / 10 % 10),
        char_of_digit(n % 10),
    ]
}

/// The RFC 3339 text of a timestamp: date and time zero-padded, followed by
/// the signed `HH:MM` offset from UTC.
pub open spec fn spec_rfc3339(t: Timestamp) -> Seq<char> {
    let tzabs = if t.tz_minutes < 0 {
        -(t.tz_minutes as int)
    } else {
        t.tz_minutes as int
    };
    dec4(t.year as int) + "-"@ + dec2(t.month as int) + "-"@ + dec2(t.day as int) + "T"@ + dec2(
        t.hour as int,
    ) + ":"@ + dec2(t.minute as int) + ":"@ + dec2(t.second as int) + (if t.tz_minutes < 0 {
        "-"@
    } else {
        "+"@
    }) + dec2(tzabs / 60) + ":"@ + dec2(tzabs % 60)
}

/// Append a number below one hundred as two zero-padded digits.
fn push_2digits(s: &mut String, n: u16)
    requires
        n < 100,
    ensures
        final (s)@ == old(s)@ + dec2(n as int),
{
    s.append(digit_str((n / 10) as u64));
    s.append(digit_str((n % 10) as u64));
    proof {
        assert(final (s)@ =~= old(s)@ + dec2(n as int));
    }
}

/// Render a timestamp as RFC 3339 text.
pub fn render_rfc3339(t: &Timestamp) -> (r: String)
    requires
        t.wf(),
    ensures
        r@ == spec_rfc3339(*t),
{
    let mut s = String::new();
    s.append(digit_str((t.year / 1000) as u64));
    s.append(digit_str((t.year / 100 % 10) as u64));
    s.append(digit_str((t.year / 10 % 10) as u64));
    s.append(digit_str((t.year % 10) as u64));
    proof {
        assert(s@ =~= dec4(t.year as int));
    }
    s.append("-");
    push_2digits(&mut s, t.month as u16);
    s.append("-");
    push_2digits(&mut s, t.day as u16);
    s.append("T");
    push_2digits(&mut s, t.hour as u16);
    s.append(":");
    push_2digits(&mut s, t.minute as u16);
    s.append(":");
    push_2digits(&mut s, t.second as u16);
    let tzabs: u16 = if t.tz_minutes < 0 {
        (-(t.tz_minutes as i32)) as u16
    } else {
        t.tz_minutes as u16
    };
    if t.tz_minutes < 0 {
        s.append("-");
    } else {
        s.append("+");
    }
    push_2digits(&mut s, tzabs / 60);
    s.append(":");
    push_2digits(&mut s, tzabs % 60);
    proof {
        assert(s@ =~= spec_rfc3339(*t));
    }
    s
}

/// The JSON text one cell renders to under its column's metadata.
pub open spec fn spec_render_cell(col: ColumnV, v: CellValueV) -> Seq<char> {
    match col.col_type {
        ColumnType::String => match v {
            CellValueV::Text(s) => "\""@ + s + "\""@,
            _ => "\""@ + "\""@,
        },
        ColumnType::Integer | ColumnType::Number => match v {
            CellValueV::Num(s) => s,
            _ => "null"@,
        },
        ColumnType::DateTime => match v {
            CellValueV::Stamp(t) => "\""@ + spec_rfc3339(t) + "\""@,
            _ => "null"@,
        },
        ColumnType::Unsupported => "\"not-implemented\""@,
    }
}

impl Column {
    /// Render one fetched cell of this column as JSON text, exactly as
    /// [`spec_render_cell`] prescribes.
    pub fn try_to_string(&self, v: &CellValue) -> (r: String)
        requires
            (v@ matches CellValueV::Stamp(t) ==> t.wf()),
        ensures
            r@ == spec_render_cell(self@, v@),
    {
        match self.col_type {
            ColumnType::String => {
                let mut s = String::from_str("\"");
                match v {
                    CellValue::Text(t) => {
                        s.append(t.as_str());
                    },
                    _ => {},
                }
                s.append("\"");
                proof {
                    assert(s@ =~= spec_render_cell(self@, v@));
                }
                s
            },
            ColumnType::Integer | ColumnType::Number => match v {
                CellValue::Num(s) => s.clone(),
                _ => String::from_str("null"),
            },
            ColumnType::DateTime => match v {
                CellValue::Stamp(t) => {
                    let mut s = String::from_str("\"");
                    let body = render_rfc3339(t);
                    s.append(body.as_str());
                    s.append("\"");
                    proof {
                        assert(s@ =~= spec_render_cell(self@, v@));
                    }
                    s
                },
                _ => String::from_str("null"),
            },
            ColumnType::Unsupported => String::from_str("\"not-implemented\""),
        }
    }
}

/// The JSON object fragment one row renders to: one `"name":value` field
/// per column, in catalog order, joined with commas inside braces.
pub open spec fn spec_row_json(cols: Seq<ColumnV>, row: Seq<CellValueV>) -> Seq<char> {
    "{ "@ + sep_join(
        Seq::new(
            cols.len(),
            |i: int| "\""@ + cols[i].name + "\":"@ + spec_render_cell(cols[i], row[i]),
        ),
        ","@,
    ) + " }"@
}

/// The JSON array a multi-row result renders to: per-row fragments joined
/// with commas inside brackets.
pub open spec fn spec_rows_json(cols: Seq<ColumnV>, rows: Seq<Seq<CellValueV>>) -> Seq<char> {
    "["@ + sep_join(Seq::new(rows.len(), |i: int| spec_row_json(cols, rows[i])), ","@) + "]"@
}

impl DynamicQuery {
    /// Render one fetched row against this query's projection list, exactly
    /// as [`spec_row_json`] prescribes.
    pub fn gen_result(&self, row: &Vec<CellValue>) -> (r: String)
        requires
            row@.len() == self.columns@.len(),
            cells_wf(cells_v(row@)),
        ensures
            r@ == spec_row_json(cols_v(self.columns@), cells_v(row@)),
    {
        let ghost cols = cols_v(self.columns@);
        let ghost cells = cells_v(row@);
        let ghost fields = Seq::new(
            cols.len(),
            |i: int| "\""@ + cols[i].name + "\":"@ + spec_render_cell(cols[i], cells[i]),
        );
        let mut parts: Vec<String> = Vec::new();
        let n = self.columns.len();
        let mut i: usize = 0;
        while i < n
            invariant
                n == self.columns.len(),
                row@.len() == n,
                cols == cols_v(self.columns@),
                cells == cells_v(row@),
                cells_wf(cells),
                fields == Seq::new(
                    cols.len(),
                    |i: int| "\""@ + cols[i].name + "\":"@ + spec_render_cell(cols[i], cells[i]),
                ),
                0 <= i <= n,
                parts@.len() == i,
                forall|j: int| 0 <= j < i ==> parts@[j]@ == fields[j],
            decreases n - i,
        {
            let col = &self.columns[i];
            let mut part = String::from_str("\"");
            part.append(col.name.as_str());
            part.append("\":");
            proof {
                assert(cells[i as int] == row@[i as int]@);
            }
            let rendered = col.try_to_string(&row[i]);
            part.append(rendered.as_str());
            proof {
                assert(cols[i as int] == self.columns@[i as int]@);
                assert(part@ =~= fields[i as int]);
            }
            parts.push(part);
            i = i + 1;
        }
        let mut out = String::from_str("{ ");
        proof {
            assert(str_views(parts@) =~= fields);
        }
        crate::query::append_join(&mut out, &parts, ",");
        out.append(" }");
        proof {
            assert(out@ =~= spec_row_json(cols, cells));
        }
        out
    }

    /// Render a whole fetched result against this query's projection list,
    /// exactly as [`spec_rows_json`] prescribes.
    pub fn gen_results(&self, rows: &Vec<Vec<CellValue>>) -> (r: String)
        requires
            forall|i: int|
                0 <= i < rows@.len() ==> (#[trigger] rows@[i])@.len() == self.columns@.len()
                    && cells_wf(cells_v(rows@[i]@)),
        ensures
            r@ == spec_rows_json(
                cols_v(self.columns@),
                Seq::new(rows@.len(), |i: int| cells_v(rows@[i]@)),
            ),
    {
        let ghost cols = cols_v(self.columns@);
        let ghost rowvs = Seq::new(rows@.len(), |i: int| cells_v(rows@[i]@));
        let ghost fragments = Seq::new(rowvs.len(), |i: int| spec_row_json(cols, rowvs[i]));
        let mut parts: Vec<String> = Vec::new();
        let n = rows.len();
        let mut i: usize = 0;
        while i < n
            invariant
                n == rows.len(),
                cols == cols_v(self.columns@),
                rowvs == Seq::new(rows@.len(), |i: int| cells_v(rows@[i]@)),
                fragments == Seq::new(rowvs.len(), |i: int| spec_row_json(cols, rowvs[i])),
                forall|j: int|
                    0 <= j < rows@.len() ==> (#[trigger] rows@[j])@.len() == self.columns@.len()
                        && cells_wf(cells_v(rows@[j]@)),
                0 <= i <= n,
                parts@.len() == i,
                forall|j: int| 0 <= j < i ==> parts@[j]@ == fragments[j],
            decreases n - i,
        {
            let part = self.gen_result(&rows[i]);
            proof {
                assert(rowvs[i as int] == cells_v(rows@[i as int]@));
            }
            parts.push(part);
            i = i + 1;
        }
        let mut out = String::from_str("[");
        proof {
            assert(str_views(parts@) =~= fragments);
        }
        crate::query::append_join(&mut out, &parts, ",");
        out.append("]");
        proof {
            assert(out@ =~= spec_rows_json(cols, rowvs));
        }
        out
    }
}

} // verus!
