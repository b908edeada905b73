use rabo2ynab::outpath::{default_output_name, resolve_output_name};
use rabo2ynab::batch::{convert_batch, render_output, FileInput};
use rabo2ynab::mapping::{rabo_card_spec, rabo_card_memo_spec};
use rabo2ynab::row::SourceRow;

fn pair(a: &str, b: &str) -> (String, String) {
    (String::from(a), String::from(b))
}

#[test]
fn default_name_writes_the_timestamp() {
    assert_eq!(default_output_name(0), "rabocard_0_ynab.csv");
    assert_eq!(default_output_name(1700000000), "rabocard_1700000000_ynab.csv");
    assert_eq!(default_output_name(-5), "rabocard_-5_ynab.csv");
}

#[test]
fn names_one_second_apart_differ() {
    assert_ne!(default_output_name(1700000000), default_output_name(1700000001));
    assert_ne!(default_output_name(9), default_output_name(10));
}

#[test]
fn fresh_supplied_path_is_kept() {
    let user = Some(String::from("out/result.csv"));
    assert_eq!(resolve_output_name(&user, false, false, 42), "out/result.csv");
}

#[test]
fn existing_file_falls_back_to_generated_name() {
    let user = Some(String::from("already-there.csv"));
    assert_eq!(resolve_output_name(&user, true, false, 42), "rabocard_42_ynab.csv");
}

#[test]
fn directory_falls_back_to_generated_name() {
    let user = Some(String::from("somedir"));
    assert_eq!(resolve_output_name(&user, false, true, 42), "rabocard_42_ynab.csv");
}

#[test]
fn absent_path_gets_generated_name() {
    assert_eq!(resolve_output_name(&None, false, false, 42), "rabocard_42_ynab.csv");
}

fn sample_files() -> Vec<FileInput> {
    vec![
        FileInput {
            name: String::from("a.csv"),
            rows: vec![
                SourceRow {
                    cols: vec![
                        pair("Datum", "2024-01-02"),
                        pair("Omschrijving", "Coffee, \"the good\" one"),
                        pair("Transactiereferentie", "REF123"),
                        pair("Bedrag", "-12,34"),
                    ],
                },
                SourceRow { cols: vec![pair("Datum", "2024-01-03")] },
            ],
        },
        FileInput {
            name: String::from("b.csv"),
            rows: vec![SourceRow {
                cols: vec![
                    pair("Datum", "2024-01-04"),
                    pair("Omschrijving", "Bakery"),
                    pair("Transactiereferentie", "REF456"),
                    pair("Bedrag", "-5,00"),
                ],
            }],
        },
    ]
}

#[test]
fn rendered_output_is_exact() {
    let ms = rabo_card_spec();
    let out = convert_batch(&ms, &sample_files(), 8);
    let text = render_output(&ms, &out.rows);
    assert_eq!(
        text,
        "Date,Payee,Memo,Amount\n\
         2024-01-02,\"Coffee, \"\"the good\"\" one\",REF123,\"-12,34\"\n\
         2024-01-04,Bakery,REF456,\"-5,00\"\n"
    );
}

#[test]
fn rerun_on_same_input_is_byte_identical() {
    let ms1 = rabo_card_memo_spec();
    let out1 = convert_batch(&ms1, &sample_files(), 8);
    let text1 = render_output(&ms1, &out1.rows);
    let ms2 = rabo_card_memo_spec();
    let out2 = convert_batch(&ms2, &sample_files(), 8);
    let text2 = render_output(&ms2, &out2.rows);
    assert_eq!(text1, text2);
    assert_eq!(out1.stats, out2.stats);
}
