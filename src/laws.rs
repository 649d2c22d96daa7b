use vstd::prelude::*;
use crate::cell::{Cell, date_of, is_number_text};
use crate::date::{CalendarDate, iso_text, lemma_iso_text_injective};
use crate::encode::{encoded_text, field_cell, fields_cells, fields_of, header_spec, table_spec};
use crate::read::{lemma_read_written_table, read_table};
use crate::engine::{canonical_date_of, decoded, first_ok, kept, retained};
use crate::record::{DecodeError, RecordModel, decode_spec};

verus! {

/// The positions, among the first `n` rows, of the rows dated `d`.
pub open spec fn retained_positions(rows: Seq<Vec<Cell>>, n: int, d: CalendarDate) -> Seq<int>
    decreases n,
{
    if n <= 0 {
        Seq::empty()
    } else if kept(rows, n - 1, d) {
        retained_positions(rows, n - 1, d).push(n - 1)
    } else {
        retained_positions(rows, n - 1, d)
    }
}

/// The retained records are the kept rows in their worksheet order: their
/// positions strictly increase, each record is what its row decodes to, and no
/// kept row is missed.
pub proof fn lemma_stable_subsequence(rows: Seq<Vec<Cell>>, n: int, d: CalendarDate)
    requires
        0 <= n <= rows.len(),
    ensures
        ({
            let p = retained_positions(rows, n, d);
            let r = retained(rows, n, d);
            &&& p.len() == r.len()
            &&& forall|a: int, b: int| 0 <= a < b < p.len() ==> p[a] < p[b]
            &&& forall|k: int| 0 <= k < p.len() ==> 0 <= #[trigger] p[k] < n && kept(rows, p[k], d)
                && r[k] == decoded(rows, p[k])->Ok_0
            &&& forall|i: int| 0 <= i < n && #[trigger] kept(rows, i, d) ==> p.contains(i)
        }),
    decreases n,
{
    if n > 0 {
        lemma_stable_subsequence(rows, n - 1, d);
        let p = retained_positions(rows, n, d);
        let prev = retained_positions(rows, n - 1, d);
        if kept(rows, n - 1, d) {
            assert(p == prev.push(n - 1));
            assert forall|i: int| 0 <= i < n && kept(rows, i, d) implies p.contains(i) by {
                if i < n - 1 {
                    assert(prev.contains(i));
                    let k = choose|k: int| 0 <= k < prev.len() && prev[k] == i;
                    assert(p[k] == i);
                } else {
                    assert(p[p.len() - 1] == i);
                }
            }
        } else {
            assert(p == prev);
            assert forall|i: int| 0 <= i < n && kept(rows, i, d) implies p.contains(i) by {
                assert(i < n - 1);
                assert(prev.contains(i));
            }
        }
    }
}

/// Every record of rows dated `d` is dated `d`.
pub proof fn lemma_retained_dates(rows: Seq<Vec<Cell>>, n: int, d: CalendarDate)
    requires
        0 <= n <= rows.len(),
    ensures
        forall|k: int| 0 <= k < retained(rows, n, d).len() ==> (#[trigger] retained(rows, n, d)[k]).date == d,
    decreases n,
{
    if n > 0 {
        lemma_retained_dates(rows, n - 1, d);
    }
}

/// The canonical date is the date of the first row that decodes; that row's
/// record is the first one retained, and every retained record carries that date.
pub proof fn lemma_canonical_date(rows: Seq<Vec<Cell>>)
    requires
        first_ok(rows, rows.len() as int) is Some,
    ensures
        ({
            let i = first_ok(rows, rows.len() as int)->0;
            let d = canonical_date_of(rows);
            let r = retained(rows, rows.len() as int, d);
            &&& 0 <= i < rows.len()
            &&& decoded(rows, i) is Ok
            &&& forall|j: int| 0 <= j < i ==> (#[trigger] decoded(rows, j)) is Err
            &&& d == decoded(rows, i)->Ok_0.date
            &&& r.len() > 0 && r[0] == decoded(rows, i)->Ok_0
            &&& forall|k: int| 0 <= k < r.len() ==> (#[trigger] r[k]).date == d
        }),
{
    let n = rows.len() as int;
    lemma_first_ok_facts(rows, n);
    let i = first_ok(rows, n)->0;
    let d = canonical_date_of(rows);
    lemma_retained_dates(rows, n, d);
    lemma_stable_subsequence(rows, n, d);
    let p = retained_positions(rows, n, d);
    assert(kept(rows, i, d));
    assert(p.contains(i));
    let k0 = choose|k: int| 0 <= k < p.len() && p[k] == i;
    if k0 > 0 {
        assert(p[0] < p[k0]);
        assert(kept(rows, p[0], d));
    }
}

proof fn lemma_first_ok_facts(rows: Seq<Vec<Cell>>, n: int)
    requires
        0 <= n <= rows.len(),
    ensures
        first_ok(rows, n) matches Some(i) ==> 0 <= i < n && decoded(rows, i) is Ok
            && forall|j: int| 0 <= j < i ==> (#[trigger] decoded(rows, j)) is Err,
        first_ok(rows, n) is None ==> forall|j: int| 0 <= j < n ==> (#[trigger] decoded(rows, j)) is Err,
    decreases n,
{
    if n > 0 {
        lemma_first_ok_facts(rows, n - 1);
    }
}

/// A batch with no rows, or whose rows all fail to decode, has no canonical date.
pub proof fn lemma_no_date_without_valid_row(rows: Seq<Vec<Cell>>)
    requires
        forall|i: int| 0 <= i < rows.len() ==> (#[trigger] decoded(rows, i)) is Err,
    ensures
        first_ok(rows, rows.len() as int) is None,
{
    lemma_first_ok_facts(rows, rows.len() as int);
}

/// Reading a record's encoded fields back as cells and decoding them gives the
/// record again, an absent number included.
pub proof fn lemma_round_trip(m: RecordModel, cells: Seq<Cell>, row: usize)
    requires
        m.value matches Some(t) ==> is_number_text(t),
        m.date.wf(),
        fields_cells(cells, fields_of(m)),
    ensures
        decode_spec(cells, row) == Ok::<RecordModel, DecodeError>(m),
{
    let f = fields_of(m);
    assert(field_cell(cells[0], 0, f[0]));
    assert(field_cell(cells[1], 1, f[1]));
    assert(field_cell(cells[2], 2, f[2]));
    assert(field_cell(cells[3], 3, f[3]));
    assert(f[3] == iso_text(m.date));
    let d = date_of(cells[3])->0;
    lemma_iso_text_injective(d, m.date);
    if m.value is None {
        assert(f[2].len() == 0);
    }
}

/// Reading the encoded fields of a sequence of records back row by row gives
/// the same sequence of records.
pub proof fn lemma_round_trip_all(recs: Seq<RecordModel>, cells: Seq<Seq<Cell>>, row: usize)
    requires
        forall|k: int| 0 <= k < recs.len() ==> (#[trigger] recs[k]).date.wf()
            && (recs[k].value matches Some(t) ==> is_number_text(t)),
        cells.len() == recs.len(),
        forall|k: int| 0 <= k < recs.len() ==> fields_cells(#[trigger] cells[k], fields_of(recs[k])),
    ensures
        forall|k: int| 0 <= k < recs.len() ==> decode_spec(#[trigger] cells[k], row) == Ok::<RecordModel, DecodeError>(recs[k]),
{
    assert forall|k: int| 0 <= k < recs.len() implies decode_spec(#[trigger] cells[k], row) == Ok::<RecordModel, DecodeError>(recs[k]) by {
        assert(recs[k].date.wf());
        assert(fields_cells(cells[k], fields_of(recs[k])));
        lemma_round_trip(recs[k], cells[k], row);
    }
}

/// Equal sequences of records encode to identical text.
pub proof fn lemma_encoding_deterministic(a: Seq<RecordModel>, b: Seq<RecordModel>)
    requires
        a == b,
    ensures
        encoded_text(a) == encoded_text(b),
{
}

/// Reading back the text that a sequence of records is encoded as gives the
/// header row and then each record's fields, and decoding the cells those
/// fields read as gives each record again, an absent number included.
pub proof fn lemma_text_round_trip(recs: Seq<RecordModel>, cells: Seq<Seq<Cell>>, row: usize)
    requires
        forall|k: int| 0 <= k < recs.len() ==> (#[trigger] recs[k]).date.wf()
            && (recs[k].value matches Some(t) ==> is_number_text(t)),
        cells.len() == recs.len(),
        forall|k: int| 0 <= k < recs.len() ==> fields_cells(#[trigger] cells[k], read_table(encoded_text(recs))->0[k + 1]),
    ensures
        read_table(encoded_text(recs)) == Some(table_spec(recs)),
        forall|k: int| 0 <= k < recs.len() ==> decode_spec(#[trigger] cells[k], row) == Ok::<RecordModel, DecodeError>(recs[k]),
{
    let t = table_spec(recs);
    assert forall|i: int| 0 <= i < t.len() implies (#[trigger] t[i]).len() >= 1 by {
        if i == 0 {
            assert(t[0] == header_spec());
        } else {
            assert(t[i] == fields_of(recs[i - 1]));
        }
    }
    lemma_read_written_table(t);
    assert forall|k: int| 0 <= k < recs.len() implies fields_cells(#[trigger] cells[k], fields_of(recs[k])) by {
        assert(t[k + 1] == fields_of(recs[k]));
    }
    lemma_round_trip_all(recs, cells, row);
}

} // verus!
