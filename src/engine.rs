use vstd::prelude::*;
use crate::cell::Cell;
use crate::date::CalendarDate;
use crate::record::{DecodeError, Record, RecordModel, cells_wf, decode_row, decode_spec};

verus! {

/// The worksheet row number of the data row at position `i` (the header is row 1).
pub open spec fn row_number(i: int) -> usize {
    (i + 2) as usize
}

/// What the data row at position `i` decodes to.
pub open spec fn decoded(rows: Seq<Vec<Cell>>, i: int) -> Result<RecordModel, DecodeError> {
    decode_spec(rows[i]@, row_number(i))
}

/// The position of the first row among the first `n` that decodes.
pub open spec fn first_ok(rows: Seq<Vec<Cell>>, n: int) -> Option<int>
    decreases n,
{
    if n <= 0 {
        None
    } else {
        match first_ok(rows, n - 1) {
            Some(i) => Some(i),
            None => if decoded(rows, n - 1) is Ok {
                Some(n - 1)
            } else {
                None
            },
        }
    }
}

/// The date of the first row that decodes, which the whole batch is keyed by.
pub open spec fn canonical_date_of(rows: Seq<Vec<Cell>>) -> CalendarDate {
    decoded(rows, first_ok(rows, rows.len() as int)->0)->Ok_0.date
}

/// Whether the row at position `i` decodes to a record dated `d`.
pub open spec fn kept(rows: Seq<Vec<Cell>>, i: int, d: CalendarDate) -> bool {
    decoded(rows, i) matches Ok(r) && r.date == d
}

/// The records of the first `n` rows that are dated `d`, in row order.
pub open spec fn retained(rows: Seq<Vec<Cell>>, n: int, d: CalendarDate) -> Seq<RecordModel>
    decreases n,
{
    if n <= 0 {
        Seq::empty()
    } else if kept(rows, n - 1, d) {
        retained(rows, n - 1, d).push(decoded(rows, n - 1)->Ok_0)
    } else {
        retained(rows, n - 1, d)
    }
}

/// The decode failures of the first `n` rows, in row order.
pub open spec fn failures(rows: Seq<Vec<Cell>>, n: int) -> Seq<DecodeError>
    decreases n,
{
    if n <= 0 {
        Seq::empty()
    } else if decoded(rows, n - 1) is Err {
        failures(rows, n - 1).push(decoded(rows, n - 1)->Err_0)
    } else {
        failures(rows, n - 1)
    }
}

pub open spec fn models(v: Seq<Record>) -> Seq<RecordModel> {
    v.map_values(|r: Record| r@)
}

/// The locations that occur among `s`.
pub open spec fn location_set(s: Seq<RecordModel>) -> Set<Seq<char>> {
    Set::new(|l: Seq<char>| exists|k: int| 0 <= k < s.len() && (#[trigger] s[k]).location == l)
}

/// The texts held in `v`.
pub open spec fn string_set(v: Seq<String>) -> Set<Seq<char>> {
    Set::new(|l: Seq<char>| exists|k: int| 0 <= k < v.len() && (#[trigger] v[k])@ == l)
}

pub open spec fn distinct_strings(v: Seq<String>) -> bool {
    forall|a: int, b: int| 0 <= a < b < v.len() ==> (#[trigger] v[a])@ != (#[trigger] v[b])@
}

pub open spec fn rows_wf(rows: Seq<Vec<Cell>>) -> bool {
    forall|i: int| 0 <= i < rows.len() ==> cells_wf((#[trigger] rows[i])@)
}

/// The records of one date, the locations they cover, and the rows that failed.
#[derive(Debug)]
pub struct CanonicalBatch {
    pub canonical_date: CalendarDate,
    pub locations: Vec<String>,
    pub records: Vec<Record>,
    pub errors: Vec<DecodeError>,
}

impl CanonicalBatch {
    pub open spec fn wf(&self) -> bool {
        &&& self.canonical_date.wf()
        &&& distinct_strings(self.locations@)
        &&& string_set(self.locations@) == location_set(models(self.records@))
        &&& forall|k: int| 0 <= k < self.records@.len() ==> (#[trigger] self.records@[k]).wf()
                && self.records@[k].date == self.canonical_date
    }
}

#[derive(Debug)]
pub enum BatchError {
    /// No row decodes, so no date can key the batch; the failures are listed.
    EmptyOrAllInvalid(Vec<DecodeError>),
}

proof fn lemma_nothing_before_first(rows: Seq<Vec<Cell>>, n: int, d: CalendarDate)
    requires
        0 <= n <= rows.len(),
        first_ok(rows, n) is None,
    ensures
        retained(rows, n, d) == Seq::<RecordModel>::empty(),
        forall|i: int| 0 <= i < n ==> (#[trigger] decoded(rows, i)) is Err,
    decreases n,
{
    if n > 0 {
        lemma_nothing_before_first(rows, n - 1, d);
    }
}

fn contains_string(v: &Vec<String>, s: &String) -> (r: bool)
    ensures
        r <==> string_set(v@).contains(s@),
{
    let mut j: usize = 0;
    while j < v.len()
        invariant
            j <= v@.len(),
            forall|k: int| 0 <= k < j ==> (#[trigger] v@[k])@ != s@,
        decreases v@.len() - j,
    {
        if v[j] == *s {
            assert(v@[j as int]@ == s@);
            return true;
        }
        j = j + 1;
    }
    false
}

/// Keys the batch by the date of the first row that decodes, keeps the rows of
/// that date in row order, collects their locations, and lists the rows that
/// failed to decode. Rows of other dates are left out without being reported.
pub fn canonicalize(rows: &Vec<Vec<Cell>>) -> (r: Result<CanonicalBatch, BatchError>)
    requires
        rows@.len() + 2 <= usize::MAX,
        rows_wf(rows@),
    ensures
        r is Err <==> first_ok(rows@, rows@.len() as int) is None,
        r matches Err(BatchError::EmptyOrAllInvalid(e)) ==> e@ == failures(rows@, rows@.len() as int),
        r matches Ok(b) ==> {
            &&& b.wf()
            &&& b.canonical_date == canonical_date_of(rows@)
            &&& models(b.records@) == retained(rows@, rows@.len() as int, b.canonical_date)
            &&& b.errors@ == failures(rows@, rows@.len() as int)
        },
{
    let mut canonical: Option<CalendarDate> = None;
    let mut records: Vec<Record> = Vec::new();
    let mut locations: Vec<String> = Vec::new();
    let mut errors: Vec<DecodeError> = Vec::new();
    let n = rows.len();
    let mut i: usize = 0;
    while i < n
        invariant
            n == rows@.len(),
            n + 2 <= usize::MAX,
            i <= n,
            rows_wf(rows@),
            canonical is None <==> first_ok(rows@, i as int) is None,
            canonical matches Some(d) ==> d == decoded(rows@, first_ok(rows@, i as int)->0)->Ok_0.date,
            canonical matches Some(d) ==> d.wf(),
            canonical matches Some(d) ==> models(records@) == retained(rows@, i as int, d),
            canonical is None ==> records@.len() == 0,
            errors@ == failures(rows@, i as int),
            distinct_strings(locations@),
            string_set(locations@) == location_set(models(records@)),
            forall|k: int| 0 <= k < records@.len() ==> (#[trigger] records@[k]).wf(),
            canonical is Some ==> forall|k: int| 0 <= k < records@.len() ==> (#[trigger] records@[k]).date == canonical->0,
        decreases n - i,
    {
        proof {
            assert(cells_wf(rows@[i as int]@));
        }
        match decode_row(&rows[i], i + 2) {
            Ok(rec) => {
                let d = match canonical {
                    Some(d) => d,
                    None => {
                        proof {
                            lemma_nothing_before_first(rows@, i as int, rec.date);
                        }
                        canonical = Some(rec.date);
                        rec.date
                    },
                };
                if rec.date == d {
                    let ghost old_records = records@;
                    let ghost old_locations = locations@;
                    if !contains_string(&locations, &rec.location) {
                        locations.push(rec.location.clone());
                        proof {
                            assert forall|a: int, b: int| 0 <= a < b < locations@.len() implies
                                (#[trigger] locations@[a])@ != (#[trigger] locations@[b])@ by {
                                if b == locations@.len() - 1 {
                                    assert(old_locations[a] == locations@[a]);
                                }
                            }
                        }
                    }
                    records.push(rec);
                    proof {
                        assert(models(records@) =~= models(old_records).push(rec@));
                        let m = models(records@);
                        assert forall|l: Seq<char>| string_set(locations@).contains(l) <==> location_set(m).contains(l) by {
                            if string_set(locations@).contains(l) {
                                let k = choose|k: int| 0 <= k < locations@.len() && (#[trigger] locations@[k])@ == l;
                                if k < old_locations.len() {
                                    assert(old_locations[k] == locations@[k]);
                                    assert(string_set(old_locations).contains(l));
                                    let k2 = choose|k2: int| 0 <= k2 < old_records.len() && (#[trigger] models(old_records)[k2]).location == l;
                                    assert(m[k2] == models(old_records)[k2]);
                                } else {
                                    assert(m[m.len() - 1].location == l);
                                }
                            }
                            if location_set(m).contains(l) {
                                let k = choose|k: int| 0 <= k < m.len() && (#[trigger] m[k]).location == l;
                                if k < old_records.len() {
                                    assert(models(old_records)[k] == m[k]);
                                    assert(location_set(models(old_records)).contains(l));
                                    let k2 = choose|k2: int| 0 <= k2 < old_locations.len() && (#[trigger] old_locations[k2])@ == l;
                                    assert(locations@[k2] == old_locations[k2]);
                                } else if string_set(old_locations).contains(l) {
                                    let k2 = choose|k2: int| 0 <= k2 < old_locations.len() && (#[trigger] old_locations[k2])@ == l;
                                    assert(locations@[k2] == old_locations[k2]);
                                } else {
                                    assert(locations@[locations@.len() - 1]@ == l);
                                }
                            }
                        }
                        assert(string_set(locations@) =~= location_set(m));
                    }
                }
            },
            Err(e) => {
                errors.push(e);
            },
        }
        i = i + 1;
    }
    match canonical {
        Some(d) => Ok(CanonicalBatch { canonical_date: d, locations, records, errors }),
        None => Err(BatchError::EmptyOrAllInvalid(errors)),
    }
}

} // verus!
