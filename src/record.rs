use vstd::prelude::*;
use crate::cell::{Cell, Number, coerce_date, coerce_number, date_of, number_of, text_of};
use crate::date::CalendarDate;

verus! {

/// One normalized row.
#[derive(Clone, Debug)]
pub struct Record {
    pub location: String,
    pub metric: String,
    pub value: Option<Number>,
    pub date: CalendarDate,
}

/// A record as plain values.
pub ghost struct RecordModel {
    pub location: Seq<char>,
    pub metric: Seq<char>,
    pub value: Option<Seq<char>>,
    pub date: CalendarDate,
}

pub open spec fn opt_number_view(v: Option<Number>) -> Option<Seq<char>> {
    match v {
        Some(n) => Some(n@),
        None => None,
    }
}

impl View for Record {
    type V = RecordModel;

    open spec fn view(&self) -> RecordModel {
        RecordModel {
            location: self.location@,
            metric: self.metric@,
            value: opt_number_view(self.value),
            date: self.date,
        }
    }
}

impl Record {
    pub open spec fn wf(&self) -> bool {
        (self.value matches Some(n) ==> n.wf()) && self.date.wf()
    }
}

#[derive(Clone, Copy, Debug, PartialEq, Eq, Structural)]
pub enum DecodeErrorKind {
    /// `location` or `metric` is not a text cell.
    MissingField,
    /// The date cell does not hold a date.
    InvalidDate,
}

/// Why a row could not be decoded, with its row number in the worksheet
/// (1-based, the header being row 1).
#[derive(Clone, Copy, Debug, PartialEq, Eq, Structural)]
pub struct DecodeError {
    pub row: usize,
    pub kind: DecodeErrorKind,
}

/// The cell at column `i`, a missing cell counting as empty.
pub open spec fn cell_at(cells: Seq<Cell>, i: int) -> Cell {
    if 0 <= i < cells.len() {
        cells[i]
    } else {
        Cell::Empty
    }
}

/// What a row decodes to, in the column order `location, metric, value, date`.
pub open spec fn decode_spec(cells: Seq<Cell>, row: usize) -> Result<RecordModel, DecodeError> {
    let location = text_of(cell_at(cells, 0));
    let metric = text_of(cell_at(cells, 1));
    let date = date_of(cell_at(cells, 3));
    if location is None || metric is None {
        Err(DecodeError { row, kind: DecodeErrorKind::MissingField })
    } else if date is None {
        Err(DecodeError { row, kind: DecodeErrorKind::InvalidDate })
    } else {
        Ok(
            RecordModel {
                location: location->0,
                metric: metric->0,
                value: number_of(cell_at(cells, 2)),
                date: date->0,
            },
        )
    }
}

pub open spec fn cells_wf(cells: Seq<Cell>) -> bool {
    forall|i: int| 0 <= i < cells.len() ==> (#[trigger] cells[i]).wf()
}

fn text_cell(cells: &Vec<Cell>, i: usize) -> (r: Option<String>)
    ensures
        r matches Some(s) ==> text_of(cell_at(cells@, i as int)) == Some(s@),
        r is None ==> text_of(cell_at(cells@, i as int)) is None,
{
    if i < cells.len() {
        match &cells[i] {
            Cell::Text(s) => Some(s.clone()),
            _ => None,
        }
    } else {
        None
    }
}

/// Decodes one worksheet row; `row` is its row number, reported on failure.
pub fn decode_row(cells: &Vec<Cell>, row: usize) -> (r: Result<Record, DecodeError>)
    ensures
        r matches Ok(rec) ==> decode_spec(cells@, row) == Ok::<RecordModel, DecodeError>(rec@),
        r matches Err(e) ==> decode_spec(cells@, row) == Err::<RecordModel, DecodeError>(e),
        cells_wf(cells@) ==> (r matches Ok(rec) ==> rec.wf()),
{
    let location = text_cell(cells, 0);
    let metric = text_cell(cells, 1);
    let empty = Cell::Empty;
    let value_cell = if cells.len() > 2 { &cells[2] } else { &empty };
    let date_cell = if cells.len() > 3 { &cells[3] } else { &empty };
    match (location, metric) {
        (Some(location), Some(metric)) => match coerce_date(date_cell) {
            Some(date) => {
                let value = coerce_number(value_cell);
                Ok(Record { location, metric, value, date })
            },
            None => Err(DecodeError { row, kind: DecodeErrorKind::InvalidDate }),
        },
        _ => Err(DecodeError { row, kind: DecodeErrorKind::MissingField }),
    }
}

/// The name of column `k` in the order `location, metric, value, date`.
pub open spec fn column_name(k: int) -> Seq<char> {
    if k == 0 {
        "location"@
    } else if k == 1 {
        "metric"@
    } else if k == 2 {
        "value"@
    } else {
        "date"@
    }
}

/// Whether `p` is the first position of `name` in `header`.
pub open spec fn first_position(header: Seq<String>, name: Seq<char>, p: int) -> bool {
    &&& 0 <= p < header.len()
    &&& header[p]@ == name
    &&& forall|j: int| 0 <= j < p ==> (#[trigger] header[j])@ != name
}

pub open spec fn has_column(header: Seq<String>, name: Seq<char>) -> bool {
    exists|j: int| 0 <= j < header.len() && (#[trigger] header[j])@ == name
}

fn find_column(header: &Vec<String>, name: &str) -> (r: Option<usize>)
    ensures
        r matches Some(p) ==> first_position(header@, name@, p as int),
        r is None ==> !has_column(header@, name@),
{
    let target = name.to_owned();
    let mut j: usize = 0;
    while j < header.len()
        invariant
            j <= header@.len(),
            target@ == name@,
            forall|k: int| 0 <= k < j ==> (#[trigger] header@[k])@ != name@,
        decreases header@.len() - j,
    {
        if header[j] == target {
            return Some(j);
        }
        j = j + 1;
    }
    None
}

/// Where each column, in the order `location, metric, value, date`, stands in
/// a worksheet's header row: the first cell that names it. `None` when one is
/// missing.
pub fn header_positions(header: &Vec<String>) -> (r: Option<Vec<usize>>)
    ensures
        r is Some <==> forall|k: int| 0 <= k < 4 ==> has_column(header@, #[trigger] column_name(k)),
        r matches Some(p) ==> p@.len() == 4
            && forall|k: int| 0 <= k < 4 ==> first_position(header@, column_name(k), #[trigger] p@[k] as int),
{
    proof {
        reveal_strlit("location");
        reveal_strlit("metric");
        reveal_strlit("value");
        reveal_strlit("date");
    }
    let names = ["location", "metric", "value", "date"];
    let mut p: Vec<usize> = Vec::new();
    let mut k: usize = 0;
    while k < 4
        invariant
            k <= 4,
            p@.len() == k,
            names@ == seq!["location", "metric", "value", "date"],
            forall|i: int| 0 <= i < k ==> first_position(header@, column_name(i), #[trigger] p@[i] as int),
            forall|i: int| 0 <= i < k ==> has_column(header@, #[trigger] column_name(i)),
        decreases 4 - k,
    {
        assert(names@[k as int]@ == column_name(k as int));
        match find_column(header, names[k]) {
            Some(j) => {
                p.push(j);
                assert(header@[j as int]@ == column_name(k as int));
            },
            None => {
                return None;
            },
        }
        k = k + 1;
    }
    Some(p)
}

} // verus!
