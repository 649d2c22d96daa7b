use sheet_ingest::cell::{Cell, Number};
use sheet_ingest::date::CalendarDate;
use sheet_ingest::encode::{cells_from_fields, header_fields, record_fields};
use sheet_ingest::engine::{canonicalize, BatchError};
use sheet_ingest::ingest::{excel_to_csv_string, IngestError};
use sheet_ingest::read::{read_csv, rows_from_text};
use sheet_ingest::sql::sql_quote;
use sheet_ingest::record::{decode_row, header_positions, DecodeError, DecodeErrorKind};

fn text(s: &str) -> Cell {
    Cell::Text(String::from(s))
}

fn num(s: &str) -> Cell {
    Cell::Number(Number::from_text(s).unwrap())
}

fn day(y: u16, m: u8, d: u8) -> CalendarDate {
    CalendarDate::new(y, m, d).unwrap()
}

fn row(loc: &str, value: Cell, date: Cell) -> Vec<Cell> {
    vec![text(loc), text("sales"), value, date]
}

fn scenario_rows() -> Vec<Vec<Cell>> {
    vec![
        row("UK", num("10"), Cell::Date(day(2020, 2, 1))),
        row("FR", Cell::Error, Cell::Date(day(2020, 2, 1))),
        row("DE", num("5"), Cell::Date(day(2020, 2, 2))),
        row("US", num("7"), text("not-a-date")),
    ]
}

#[test]
fn scenario_keeps_canonical_date_rows() {
    let (data, mut locations, date, errors) = excel_to_csv_string(&scenario_rows()).unwrap();
    assert_eq!(errors, vec![DecodeError { row: 5, kind: DecodeErrorKind::InvalidDate }]);
    locations.sort();
    assert_eq!(locations, vec![String::from("FR"), String::from("UK")]);
    assert_eq!(date, day(2020, 2, 1));
    assert_eq!(
        data,
        "location,metric,value,date\nUK,sales,10,2020-02-01\nFR,sales,,2020-02-01\n"
    );
}

#[test]
fn scenario_reports_only_the_bad_row() {
    let batch = canonicalize(&scenario_rows()).unwrap();
    assert_eq!(
        batch.errors,
        vec![DecodeError { row: 5, kind: DecodeErrorKind::InvalidDate }]
    );
    assert_eq!(batch.records.len(), 2);
    assert_eq!(batch.records[0].location, "UK");
    assert_eq!(batch.records[1].location, "FR");
    assert!(batch.records[1].value.is_none());
}

#[test]
fn empty_input_fails() {
    match canonicalize(&Vec::new()) {
        Err(BatchError::EmptyOrAllInvalid(errors)) => assert!(errors.is_empty()),
        Ok(_) => panic!("an empty sheet has no canonical date"),
    }
    assert!(matches!(excel_to_csv_string(&Vec::new()), Err(IngestError::Batch(_))));
}

#[test]
fn all_malformed_input_fails() {
    let rows = vec![
        vec![Cell::Empty, text("sales"), num("1"), Cell::Date(day(2020, 1, 1))],
        row("UK", num("1"), num("43831")),
    ];
    match canonicalize(&rows) {
        Err(BatchError::EmptyOrAllInvalid(errors)) => assert_eq!(
            errors,
            vec![
                DecodeError { row: 2, kind: DecodeErrorKind::MissingField },
                DecodeError { row: 3, kind: DecodeErrorKind::InvalidDate },
            ]
        ),
        Ok(_) => panic!("no row decodes"),
    }
}

#[test]
fn first_valid_row_sets_the_date() {
    let rows = vec![
        row("XX", num("1"), Cell::Empty),
        row("DE", num("2"), Cell::Date(day(2021, 3, 4))),
        row("UK", num("3"), Cell::Date(day(2020, 2, 1))),
        row("FR", num("4"), Cell::Date(day(2021, 3, 4))),
    ];
    let batch = canonicalize(&rows).unwrap();
    assert_eq!(batch.canonical_date, day(2021, 3, 4));
    let locs: Vec<&str> = batch.records.iter().map(|r| r.location.as_str()).collect();
    assert_eq!(locs, vec!["DE", "FR"]);
    assert_eq!(batch.errors, vec![DecodeError { row: 2, kind: DecodeErrorKind::InvalidDate }]);
}

#[test]
fn locations_are_distinct() {
    let d = Cell::Date(day(2020, 2, 1));
    let rows = vec![
        row("UK", num("1"), d.clone()),
        row("FR", num("2"), d.clone()),
        row("UK", num("3"), d.clone()),
    ];
    let batch = canonicalize(&rows).unwrap();
    assert_eq!(batch.records.len(), 3);
    let mut locations = batch.locations.clone();
    locations.sort();
    assert_eq!(locations, vec![String::from("FR"), String::from("UK")]);
}

#[test]
fn encoding_twice_is_identical() {
    let batch = canonicalize(&scenario_rows()).unwrap();
    let a = batch.encode().unwrap();
    let b = batch.encode().unwrap();
    assert_eq!(a, b);
}

#[test]
fn encoding_quotes_fields_with_commas() {
    let rows = vec![row("A,B", num("-0.5"), Cell::Date(day(1999, 12, 31)))];
    let (data, _, _, _) = excel_to_csv_string(&rows).unwrap();
    assert_eq!(data, "location,metric,value,date\n\"A,B\",sales,-0.5,1999-12-31\n");
}

#[test]
fn decoded_record_round_trips_through_fields() {
    for value in [num("12.25"), Cell::Empty] {
        let cells = row("UK", value, Cell::Date(day(2024, 2, 29)));
        let rec = decode_row(&cells, 2).unwrap();
        let fields = record_fields(&rec);
        let back = decode_row(&cells_from_fields(&fields), 2).unwrap();
        assert_eq!(back.location, rec.location);
        assert_eq!(back.metric, rec.metric);
        assert_eq!(
            back.value.as_ref().map(|n| n.as_text().to_string()),
            rec.value.as_ref().map(|n| n.as_text().to_string())
        );
        assert_eq!(back.date, rec.date);
    }
}

#[test]
fn value_cells_read_as_numbers_or_absent() {
    let d = Cell::Date(day(2020, 2, 1));
    let rec = decode_row(&row("UK", num("3"), d.clone()), 2).unwrap();
    assert_eq!(rec.value.unwrap().as_text(), "3");
    for value in [Cell::Empty, Cell::Error, text("n/a")] {
        let rec = decode_row(&row("UK", value, d.clone()), 2).unwrap();
        assert!(rec.value.is_none());
    }
}

#[test]
fn short_row_is_missing_fields() {
    assert_eq!(
        decode_row(&vec![text("UK")], 7).unwrap_err(),
        DecodeError { row: 7, kind: DecodeErrorKind::MissingField }
    );
    assert_eq!(
        decode_row(&vec![text("UK"), text("sales")], 7).unwrap_err(),
        DecodeError { row: 7, kind: DecodeErrorKind::InvalidDate }
    );
}

#[test]
fn calendar_dates_are_checked() {
    assert!(CalendarDate::new(2020, 2, 29).is_some());
    assert!(CalendarDate::new(2019, 2, 29).is_none());
    assert!(CalendarDate::new(1900, 2, 29).is_none());
    assert!(CalendarDate::new(2000, 2, 29).is_some());
    assert!(CalendarDate::new(2020, 4, 31).is_none());
    assert!(CalendarDate::new(2020, 13, 1).is_none());
    assert!(CalendarDate::new(2020, 0, 1).is_none());
    assert!(CalendarDate::new(10000, 1, 1).is_none());
}

#[test]
fn dates_render_and_parse_iso() {
    assert_eq!(day(2020, 2, 1).to_iso_string(), "2020-02-01");
    assert_eq!(day(7, 11, 9).to_iso_string(), "0007-11-09");
    assert_eq!(CalendarDate::parse_iso("2020-02-01"), Some(day(2020, 2, 1)));
    assert_eq!(CalendarDate::parse_iso("2019-02-29"), None);
    assert_eq!(CalendarDate::parse_iso("2020/02/01"), None);
    assert_eq!(CalendarDate::parse_iso("2020-2-1"), None);
}

#[test]
fn number_text_is_checked() {
    assert_eq!(Number::from_text("-12.5").unwrap().as_text(), "-12.5");
    assert!(Number::from_text("").is_none());
    assert!(Number::from_text("1e5").is_none());
    assert_eq!(Number::from_text("10").unwrap().as_text(), "10");
    assert_eq!(Number::from_text("0.25").unwrap().as_text(), "0.25");
    for bad in ["-", ".", "1-2", "1.", ".5", "1.2.3", "--1", "-.5", "1,5"] {
        assert!(Number::from_text(bad).is_none(), "{}", bad);
    }
}

#[test]
fn header_and_record_fields() {
    assert_eq!(header_fields(), vec!["location", "metric", "value", "date"]);
    let rec = decode_row(&row("FR", Cell::Error, Cell::Date(day(2020, 2, 1))), 2).unwrap();
    assert_eq!(record_fields(&rec), vec!["FR", "sales", "", "2020-02-01"]);
}

#[test]
fn artifact_id_joins_label_and_date() {
    let batch = canonicalize(&scenario_rows()).unwrap();
    assert_eq!(batch.artifact_id("sales"), "sales_2020-02-01");
}

#[test]
fn header_positions_find_first_matching_cells() {
    let header: Vec<String> = ["date", "x", "metric", "location", "value", "date"]
        .iter()
        .map(|s| s.to_string())
        .collect();
    assert_eq!(header_positions(&header), Some(vec![3, 2, 4, 0]));
    let missing: Vec<String> = vec!["location".to_string(), "metric".to_string()];
    assert_eq!(header_positions(&missing), None);
}

#[test]
fn encoding_doubles_quotes_and_quotes_line_breaks() {
    let rows = vec![
        row("say \"hi\"", Cell::Empty, Cell::Date(day(2020, 2, 1))),
        row("two\nlines", num("1"), Cell::Date(day(2020, 2, 1))),
    ];
    let (data, _, _, _) = excel_to_csv_string(&rows).unwrap();
    assert_eq!(
        data,
        "location,metric,value,date\n\"say \"\"hi\"\"\",sales,,2020-02-01\n\"two\nlines\",sales,1,2020-02-01\n"
    );
}

#[test]
fn encoded_text_reads_back_to_the_same_records() {
    let d = Cell::Date(day(2020, 2, 1));
    let rows = vec![
        row("UK", num("10"), d.clone()),
        row("say \"hi\", twice", Cell::Error, d.clone()),
        row("two\nlines", num("-0.25"), d.clone()),
        row("", num("3"), d.clone()),
    ];
    let batch = canonicalize(&rows).unwrap();
    let text = batch.encode().unwrap();
    let back = rows_from_text(&text).unwrap();
    assert_eq!(back.len(), batch.records.len());
    for (cells, rec) in back.iter().zip(batch.records.iter()) {
        let again = decode_row(cells, 2).unwrap();
        assert_eq!(again.location, rec.location);
        assert_eq!(again.metric, rec.metric);
        assert_eq!(
            again.value.as_ref().map(|n| n.as_text().to_string()),
            rec.value.as_ref().map(|n| n.as_text().to_string())
        );
        assert_eq!(again.date, rec.date);
    }
}

#[test]
fn reader_handles_quotes_and_rejects_unfinished_text() {
    let t = read_csv("a,\"b,\"\"c\"\"\"\n\"\"\n,\n").unwrap();
    assert_eq!(
        t,
        vec![
            vec![String::from("a"), String::from("b,\"c\"")],
            vec![String::from("")],
            vec![String::from(""), String::from("")],
        ]
    );
    assert_eq!(read_csv(""), Some(Vec::new()));
    assert_eq!(read_csv("a,b"), None);
    assert_eq!(read_csv("\"open\n"), None);
    assert!(rows_from_text("").is_none());
}

#[test]
fn sql_literals_double_single_quotes() {
    assert_eq!(sql_quote("UK"), "'UK'");
    assert_eq!(sql_quote("O'Hare"), "'O''Hare'");
    assert_eq!(sql_quote(""), "''");
    let d = Cell::Date(day(2020, 2, 1));
    let rows = vec![row("UK", num("1"), d.clone()), row("Côte d'Or", num("2"), d.clone())];
    let batch = canonicalize(&rows).unwrap();
    assert_eq!(batch.location_list_sql(), "'UK','Côte d''Or'");
}
