use rabo2ynab::batch::{convert_batch, Converter, FileInput, RowIssue};
use rabo2ynab::mapping::rabo_card_spec;
use rabo2ynab::row::SourceRow;

fn pair(a: &str, b: &str) -> (String, String) {
    (String::from(a), String::from(b))
}

fn good_row(date: &str) -> SourceRow {
    SourceRow {
        cols: vec![
            pair("Datum", date),
            pair("Omschrijving", "Shop"),
            pair("Transactiereferentie", "R"),
            pair("Bedrag", "-1,00"),
        ],
    }
}

fn bad_row() -> SourceRow {
    SourceRow { cols: vec![pair("Datum", "2024-01-01")] }
}

#[test]
fn failing_row_is_dropped_order_kept() {
    let ms = rabo_card_spec();
    let files = vec![FileInput {
        name: String::from("a.csv"),
        rows: vec![good_row("d1"), bad_row(), good_row("d3")],
    }];
    let out = convert_batch(&ms, &files, 8);
    assert_eq!(out.rows.len(), 2);
    assert_eq!(out.rows[0].cells[0], pair("Date", "d1"));
    assert_eq!(out.rows[1].cells[0], pair("Date", "d3"));
    assert_eq!(out.stats.processed, 3);
    assert_eq!(out.stats.written, 2);
    assert_eq!(out.stats.failed, 1);
    assert_eq!(out.errors.total, 1);
    assert_eq!(out.errors.samples.len(), 1);
    assert_eq!(out.errors.samples[0].file, "a.csv");
    assert_eq!(out.errors.samples[0].row, 1);
    match &out.errors.samples[0].issue {
        RowIssue::MissingColumn(name) => assert_eq!(name, "Omschrijving"),
        RowIssue::Malformed => panic!("wrong issue kind"),
    }
}

#[test]
fn files_are_concatenated_in_order() {
    let ms = rabo_card_spec();
    let files = vec![
        FileInput {
            name: String::from("a.csv"),
            rows: vec![good_row("a1"), good_row("a2"), good_row("a3")],
        },
        FileInput {
            name: String::from("b.csv"),
            rows: vec![good_row("b1"), good_row("b2")],
        },
    ];
    let out = convert_batch(&ms, &files, 8);
    assert_eq!(out.rows.len(), 5);
    let dates: Vec<String> = out.rows.iter().map(|t| t.cells[0].1.clone()).collect();
    assert_eq!(dates, vec!["a1", "a2", "a3", "b1", "b2"]);
    assert_eq!(out.stats.processed, 5);
    assert_eq!(out.stats.failed, 0);
}

#[test]
fn error_log_keeps_last_samples_only() {
    let ms = rabo_card_spec();
    let files = vec![FileInput {
        name: String::from("a.csv"),
        rows: vec![bad_row(), bad_row(), bad_row()],
    }];
    let out = convert_batch(&ms, &files, 2);
    assert_eq!(out.errors.total, 3);
    assert_eq!(out.errors.samples.len(), 2);
    assert_eq!(out.errors.samples[0].row, 1);
    assert_eq!(out.errors.samples[1].row, 2);
}

#[test]
fn converter_streams_row_by_row() {
    let ms = rabo_card_spec();
    let mut conv = Converter::new(ms, 4);
    let file = String::from("x.csv");
    assert!(conv.process_row(&file, 0, &good_row("d1")).is_some());
    assert!(conv.process_row(&file, 1, &bad_row()).is_none());
    conv.note_malformed(&file, 2);
    assert_eq!(conv.stats.processed, 3);
    assert_eq!(conv.stats.written, 1);
    assert_eq!(conv.stats.failed, 2);
    assert_eq!(conv.errors.total, 2);
    match &conv.errors.samples[1].issue {
        RowIssue::Malformed => {}
        RowIssue::MissingColumn(_) => panic!("wrong issue kind"),
    }
}

#[test]
fn empty_batch_writes_nothing() {
    let ms = rabo_card_spec();
    let files: Vec<FileInput> = vec![];
    let out = convert_batch(&ms, &files, 4);
    assert_eq!(out.rows.len(), 0);
    assert_eq!(out.stats.processed, 0);
    assert_eq!(out.errors.total, 0);
}
