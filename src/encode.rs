use vstd::prelude::*;
use crate::cell::{Cell, Number, date_of, is_number_text, number_of, text_of};
use crate::date::{CalendarDate, iso_text};
use crate::engine::{CanonicalBatch, models};
use crate::record::{Record, RecordModel};

verus! {

/// A field is quoted when it holds a delimiter, a quote or a line break.
pub open spec fn needs_quotes(f: Seq<char>) -> bool {
    exists|i: int| 0 <= i < f.len() && (f[i] == ',' || f[i] == '"' || f[i] == '\r' || f[i] == '\n')
}

/// `f` with each quote doubled.
pub open spec fn escape_quotes(f: Seq<char>) -> Seq<char>
    decreases f.len(),
{
    if f.len() == 0 {
        Seq::empty()
    } else {
        (if f[0] == '"' {
            seq!['"', '"']
        } else {
            seq![f[0]]
        }) + escape_quotes(f.drop_first())
    }
}

/// How one field is written.
pub open spec fn csv_field(f: Seq<char>) -> Seq<char> {
    if needs_quotes(f) {
        seq!['"'] + escape_quotes(f) + seq!['"']
    } else {
        f
    }
}

/// The written fields of a row, separated by commas.
pub open spec fn join_fields(fs: Seq<Seq<char>>) -> Seq<char>
    decreases fs.len(),
{
    if fs.len() == 0 {
        Seq::empty()
    } else if fs.len() == 1 {
        csv_field(fs[0])
    } else {
        csv_field(fs[0]) + seq![','] + join_fields(fs.drop_first())
    }
}

/// How one row is written: a row that would be blank is written as `""`, and
/// every row ends with a line feed.
pub open spec fn csv_line(fs: Seq<Seq<char>>) -> Seq<char> {
    (if join_fields(fs).len() == 0 {
        seq!['"', '"']
    } else {
        join_fields(fs)
    }) + seq!['\n']
}

/// The text that the csv crate writes for `table`, one line per row.
pub open spec fn csv_text_of(table: Seq<Seq<Seq<char>>>) -> Seq<char>
    decreases table.len(),
{
    if table.len() == 0 {
        Seq::empty()
    } else {
        csv_line(table[0]) + csv_text_of(table.drop_first())
    }
}

/// The header line's fields, in column order.
pub open spec fn header_spec() -> Seq<Seq<char>> {
    seq!["location"@, "metric"@, "value"@, "date"@]
}

/// An absent number is written as an empty field.
pub open spec fn value_field(v: Option<Seq<char>>) -> Seq<char> {
    match v {
        Some(t) => t,
        None => Seq::empty(),
    }
}

/// The fields a record is written as, in column order.
pub open spec fn fields_of(m: RecordModel) -> Seq<Seq<char>> {
    seq![m.location, m.metric, value_field(m.value), iso_text(m.date)]
}

/// The header followed by one row of fields per record.
pub open spec fn table_spec(recs: Seq<RecordModel>) -> Seq<Seq<Seq<char>>> {
    seq![header_spec()] + recs.map_values(|m: RecordModel| fields_of(m))
}

/// The text a sequence of records is encoded as.
pub open spec fn encoded_text(recs: Seq<RecordModel>) -> Seq<char> {
    csv_text_of(table_spec(recs))
}

pub open spec fn strings_view(v: Seq<String>) -> Seq<Seq<char>> {
    v.map_values(|s: String| s@)
}

pub open spec fn table_view(t: Seq<Vec<String>>) -> Seq<Seq<Seq<char>>> {
    t.map_values(|row: Vec<String>| strings_view(row@))
}

/// Relies on csv::Writer (default configuration: comma delimiter, `"` quotes
/// doubled inside quoted fields, necessary quoting, `\n` terminator) writing
/// each row with write_record into a `Vec<u8>`, then into_inner. Writing into a
/// `Vec` never fails, so the writer fails only on rows of unequal lengths.
#[verifier::external_body]
fn write_csv(table: &Vec<Vec<String>>) -> (r: Option<String>)
    ensures
        r matches Some(s) ==> s@ == csv_text_of(table_view(table@)),
        (forall|i: int| 0 <= i < table@.len() ==> (#[trigger] table@[i])@.len() == table@[0]@.len()) ==> r is Some,
{
    let mut wtr = csv::Writer::from_writer(Vec::new());
    for row in table.iter() {
        if wtr.write_record(row).is_err() {
            return None;
        }
    }
    let bytes = wtr.into_inner().ok()?;
    String::from_utf8(bytes).ok()
}

#[derive(Debug, Clone, Copy, PartialEq, Eq, Structural)]
pub enum EncodeError {
    /// The csv writer could not write the table.
    EncodingError,
}

pub fn header_fields() -> (r: Vec<String>)
    ensures
        strings_view(r@) == header_spec(),
{
    let mut r: Vec<String> = Vec::new();
    r.push("location".to_string());
    r.push("metric".to_string());
    r.push("value".to_string());
    r.push("date".to_string());
    assert(strings_view(r@) =~= header_spec());
    r
}

/// The fields `r` is written as, in column order.
pub fn record_fields(r: &Record) -> (f: Vec<String>)
    requires
        r.wf(),
    ensures
        strings_view(f@) == fields_of(r@),
{
    let mut f: Vec<String> = Vec::new();
    f.push(r.location.clone());
    f.push(r.metric.clone());
    let value = match &r.value {
        Some(n) => n.as_text().to_string(),
        None => String::new(),
    };
    f.push(value);
    f.push(r.date.to_iso_string());
    assert(strings_view(f@) =~= fields_of(r@));
    f
}

/// The header row followed by the fields of each record.
pub fn table_of(records: &Vec<Record>) -> (t: Vec<Vec<String>>)
    requires
        forall|k: int| 0 <= k < records@.len() ==> (#[trigger] records@[k]).wf(),
    ensures
        table_view(t@) == table_spec(models(records@)),
{
    let mut t: Vec<Vec<String>> = Vec::new();
    t.push(header_fields());
    let mut i: usize = 0;
    while i < records.len()
        invariant
            i <= records@.len(),
            forall|k: int| 0 <= k < records@.len() ==> (#[trigger] records@[k]).wf(),
            table_view(t@) == table_spec(models(records@.subrange(0, i as int))),
        decreases records@.len() - i,
    {
        let ghost old_t = t@;
        t.push(record_fields(&records[i]));
        proof {
            assert(records@.subrange(0, i + 1) =~= records@.subrange(0, i as int).push(records@[i as int]));
            assert(models(records@.subrange(0, i + 1)) =~= models(records@.subrange(0, i as int)).push(records@[i as int]@));
            assert(table_view(t@) =~= table_view(old_t).push(fields_of(records@[i as int]@)));
            assert(table_view(t@) =~= table_spec(models(records@.subrange(0, i + 1))));
        }
        i = i + 1;
    }
    assert(records@.subrange(0, records@.len() as int) =~= records@);
    t
}

impl CanonicalBatch {
    /// The batch's records as text: a header line, then one line per record,
    /// an absent number as an empty field and dates as `YYYY-MM-DD`.
    pub fn encode(&self) -> (r: Result<String, EncodeError>)
        requires
            self.wf(),
        ensures
            r is Ok,
            r matches Ok(s) ==> s@ == encoded_text(models(self.records@)),
    {
        let table = table_of(&self.records);
        proof {
            let tv = table_view(table@);
            let ms = models(self.records@);
            let ts = table_spec(ms);
            let rows = ms.map_values(|m: RecordModel| fields_of(m));
            assert(ts == seq![header_spec()] + rows);
            assert(tv.len() == table@.len());
            assert(ms.len() == self.records@.len());
            assert forall|i: int| 0 <= i < table@.len() implies (#[trigger] table@[i])@.len() == table@[0]@.len() by {
                assert(tv[i] == strings_view(table@[i]@));
                assert(tv[0] == strings_view(table@[0]@));
                assert(ts[0] == header_spec());
                if i > 0 {
                    assert(ts[i] == rows[i - 1]);
                    assert(rows[i - 1] == fields_of(ms[i - 1]));
                }
            }
        }
        match write_csv(&table) {
            Some(s) => Ok(s),
            None => Err(EncodeError::EncodingError),
        }
    }

    /// The identifier of the batch's artifact: `<label>_<YYYY-MM-DD>`.
    pub fn artifact_id(&self, label: &str) -> (r: String)
        requires
            self.wf(),
        ensures
            r@ == label@ + seq!['_'] + iso_text(self.canonical_date),
    {
        proof { reveal_strlit("_"); }
        let mut s = label.to_string();
        s.append("_");
        let d = self.canonical_date.to_iso_string();
        s.append(d.as_str());
        s
    }
}

/// The cell an encoded field reads back as, in column `col`.
pub open spec fn field_cell(c: Cell, col: int, f: Seq<char>) -> bool {
    if col == 2 {
        if f.len() == 0 {
            c is Empty
        } else if is_number_text(f) {
            number_of(c) == Some(f)
        } else {
            text_of(c) == Some(f)
        }
    } else if col == 3 {
        if exists|d: CalendarDate| d.wf() && iso_text(d) == f {
            date_of(c) matches Some(d) && d.wf() && iso_text(d) == f
        } else {
            text_of(c) == Some(f)
        }
    } else {
        text_of(c) == Some(f)
    }
}

/// The cells a row of encoded fields reads back as.
pub open spec fn fields_cells(cells: Seq<Cell>, fields: Seq<Seq<char>>) -> bool {
    &&& cells.len() == fields.len()
    &&& forall|i: int| 0 <= i < cells.len() ==> field_cell(#[trigger] cells[i], i, fields[i])
}

/// Reads a row of encoded fields back into cells: the value column as a number
/// (empty when blank), the date column as a date, everything else as text.
pub fn cells_from_fields(fields: &Vec<String>) -> (cells: Vec<Cell>)
    ensures
        fields_cells(cells@, strings_view(fields@)),
        forall|i: int| 0 <= i < cells@.len() ==> (#[trigger] cells@[i]).wf(),
{
    let mut cells: Vec<Cell> = Vec::new();
    let mut i: usize = 0;
    while i < fields.len()
        invariant
            i <= fields@.len(),
            cells@.len() == i,
            forall|k: int| 0 <= k < i ==> field_cell(#[trigger] cells@[k], k, fields@[k]@),
            forall|k: int| 0 <= k < i ==> (#[trigger] cells@[k]).wf(),
        decreases fields@.len() - i,
    {
        let f = fields[i].as_str();
        let c = if i == 2 {
            if f.unicode_len() == 0 {
                Cell::Empty
            } else {
                match Number::from_text(f) {
                    Some(n) => Cell::Number(n),
                    None => Cell::Text(f.to_string()),
                }
            }
        } else if i == 3 {
            match CalendarDate::parse_iso(f) {
                Some(d) => Cell::Date(d),
                None => Cell::Text(f.to_string()),
            }
        } else {
            Cell::Text(f.to_string())
        };
        cells.push(c);
        i = i + 1;
    }
    assert(fields_cells(cells@, strings_view(fields@)));
    cells
}

} // verus!
