use rabo2ynab::csvline::{format_record, parse_record};
use rabo2ynab::row::row_from_fields;

fn strings(xs: &[&str]) -> Vec<String> {
    xs.iter().map(|s| String::from(*s)).collect()
}

#[test]
fn format_plain_fields() {
    assert_eq!(format_record(&strings(&["a", "b", "c"])), "a,b,c");
    assert_eq!(format_record(&strings(&["Date", "Payee", "Memo", "Amount"])), "Date,Payee,Memo,Amount");
}

#[test]
fn format_quotes_when_needed() {
    assert_eq!(format_record(&strings(&["a,b", "x"])), "\"a,b\",x");
    assert_eq!(format_record(&strings(&["say \"hi\""])), "\"say \"\"hi\"\"\"");
    assert_eq!(format_record(&strings(&["line\nbreak", "cr\rhere"])), "\"line\nbreak\",\"cr\rhere\"");
    assert_eq!(format_record(&strings(&["", ""])), ",");
}

#[test]
fn parse_plain_record() {
    assert_eq!(parse_record("a,b,c"), Some(strings(&["a", "b", "c"])));
    assert_eq!(parse_record("a,,c"), Some(strings(&["a", "", "c"])));
    assert_eq!(parse_record(""), Some(strings(&[""])));
}

#[test]
fn parse_quoted_record() {
    assert_eq!(parse_record("\"a,b\",x"), Some(strings(&["a,b", "x"])));
    assert_eq!(parse_record("\"say \"\"hi\"\"\""), Some(strings(&["say \"hi\""])));
    assert_eq!(parse_record("\"\",\"\""), Some(strings(&["", ""])));
}

#[test]
fn parse_rejects_malformed_records() {
    assert_eq!(parse_record("a\"b"), None);
    assert_eq!(parse_record("\"abc"), None);
    assert_eq!(parse_record("\"a\"x"), None);
}

#[test]
fn format_then_parse_round_trips() {
    let fields = strings(&["plain", "a,b", "say \"hi\"", "", "mix,\"of\nall\r"]);
    let encoded = format_record(&fields);
    assert_eq!(parse_record(encoded.as_str()), Some(fields));
}

#[test]
fn row_from_fields_zips_header_and_values() {
    let header = strings(&["Datum", "Bedrag"]);
    let values = strings(&["2024-01-02", "-1,00"]);
    let row = row_from_fields(&header, &values).expect("same length must zip");
    assert_eq!(row.cols[0], (String::from("Datum"), String::from("2024-01-02")));
    assert_eq!(row.cols[1], (String::from("Bedrag"), String::from("-1,00")));
}

#[test]
fn row_from_fields_rejects_length_mismatch() {
    let header = strings(&["Datum", "Bedrag"]);
    let values = strings(&["2024-01-02"]);
    assert!(row_from_fields(&header, &values).is_none());
}
