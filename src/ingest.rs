use vstd::prelude::*;
use crate::cell::Cell;
use crate::date::CalendarDate;
use crate::record::DecodeError;
use crate::encode::{EncodeError, encoded_text};
use crate::engine::{
    BatchError, canonical_date_of, canonicalize, distinct_strings, failures, first_ok,
    location_set, retained, rows_wf, string_set,
};

verus! {

#[derive(Debug)]
pub enum IngestError {
    Batch(BatchError),
    Encode(EncodeError),
}

/// Turns the data rows of a worksheet (header excluded, columns `location,
/// metric, value, date`) into the encoded text of the rows of the canonical
/// date, the distinct locations among them, the canonical date, and the rows
/// that failed to decode.
pub fn excel_to_csv_string(rows: &Vec<Vec<Cell>>) -> (r: Result<(String, Vec<String>, CalendarDate, Vec<DecodeError>), IngestError>)
    requires
        rows@.len() + 2 <= usize::MAX,
        rows_wf(rows@),
    ensures
        first_ok(rows@, rows@.len() as int) is Some <==> r is Ok,
        r matches Err(e) ==> e is Batch,
        r matches Err(IngestError::Batch(BatchError::EmptyOrAllInvalid(errs))) ==> errs@ == failures(rows@, rows@.len() as int),
        r matches Ok((text, locations, date, errors)) ==> {
            let kept = retained(rows@, rows@.len() as int, date);
            &&& date.wf()
            &&& date == canonical_date_of(rows@)
            &&& text@ == encoded_text(kept)
            &&& distinct_strings(locations@)
            &&& string_set(locations@) == location_set(kept)
            &&& errors@ == failures(rows@, rows@.len() as int)
        },
{
    match canonicalize(rows) {
        Ok(batch) => match batch.encode() {
            Ok(text) => Ok((text, batch.locations, batch.canonical_date, batch.errors)),
            Err(e) => Err(IngestError::Encode(e)),
        },
        Err(e) => Err(IngestError::Batch(e)),
    }
}

} // verus!
