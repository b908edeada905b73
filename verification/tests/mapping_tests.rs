use rabo2ynab::mapping::{rabo_card_spec, rabo_card_memo_spec, map_row, MapError};
use rabo2ynab::row::SourceRow;

fn pair(a: &str, b: &str) -> (String, String) {
    (String::from(a), String::from(b))
}

fn full_row() -> SourceRow {
    SourceRow {
        cols: vec![
            pair("Datum", "2024-01-02"),
            pair("Omschrijving", "Coffee Corner"),
            pair("Transactiereferentie", "REF123"),
            pair("Bedrag", "-12,34"),
            pair("Munt", "EUR"),
        ],
    }
}

#[test]
fn pure_rename_maps_all_fields() {
    let ms = rabo_card_spec();
    let row = full_row();
    let t = map_row(&ms, &row).expect("row with every referenced column must map");
    let cells: Vec<(String, String)> = t.cells;
    assert_eq!(cells.len(), 4);
    assert_eq!(cells[0], pair("Date", "2024-01-02"));
    assert_eq!(cells[1], pair("Payee", "Coffee Corner"));
    assert_eq!(cells[2], pair("Memo", "REF123"));
    assert_eq!(cells[3], pair("Amount", "-12,34"));
}

#[test]
fn missing_column_fails_naming_it() {
    let ms = rabo_card_spec();
    let row = SourceRow {
        cols: vec![
            pair("Datum", "2024-01-02"),
            pair("Omschrijving", "Coffee Corner"),
            pair("Transactiereferentie", "REF123"),
        ],
    };
    match map_row(&ms, &row) {
        Ok(_) => panic!("a row without Bedrag must not map"),
        Err(MapError::MissingColumn(name)) => assert_eq!(name, "Bedrag"),
    }
}

#[test]
fn first_missing_column_in_table_order_is_named() {
    let ms = rabo_card_spec();
    let row = SourceRow { cols: vec![pair("Datum", "2024-01-02")] };
    match map_row(&ms, &row) {
        Ok(_) => panic!("must not map"),
        Err(MapError::MissingColumn(name)) => assert_eq!(name, "Omschrijving"),
    }
}

#[test]
fn memo_without_currency_is_plain_reference() {
    let ms = rabo_card_memo_spec();
    let row = SourceRow {
        cols: vec![
            pair("Datum", "2024-01-02"),
            pair("Omschrijving", "Coffee Corner"),
            pair("Transactiereferentie", "REF123"),
            pair("Bedrag", "-12,34"),
            pair("Oorspr bedrag", ""),
            pair("Oorspr munt", ""),
            pair("Koers", ""),
        ],
    };
    let t = map_row(&ms, &row).expect("must map");
    assert_eq!(t.cells[2], pair("Memo", "reference: REF123"));
}

#[test]
fn memo_with_currency_appends_whole_suffix() {
    let ms = rabo_card_memo_spec();
    let row = SourceRow {
        cols: vec![
            pair("Datum", "2024-01-02"),
            pair("Omschrijving", "Coffee Corner"),
            pair("Transactiereferentie", "REF123"),
            pair("Bedrag", "-12,34"),
            pair("Oorspr bedrag", "10.00"),
            pair("Oorspr munt", "USD"),
            pair("Koers", "0.92"),
        ],
    };
    let t = map_row(&ms, &row).expect("must map");
    assert_eq!(
        t.cells[2],
        pair("Memo", "reference: REF123, paid_amount: 10.00 USD, exchange_rate: 0.92")
    );
    assert_eq!(t.cells[0], pair("Date", "2024-01-02"));
    assert_eq!(t.cells[3], pair("Amount", "-12,34"));
}

#[test]
fn memo_missing_rate_fails_naming_it() {
    let ms = rabo_card_memo_spec();
    let row = SourceRow {
        cols: vec![
            pair("Datum", "2024-01-02"),
            pair("Omschrijving", "Coffee Corner"),
            pair("Transactiereferentie", "REF123"),
            pair("Bedrag", "-12,34"),
            pair("Oorspr bedrag", "10.00"),
            pair("Oorspr munt", "USD"),
        ],
    };
    match map_row(&ms, &row) {
        Ok(_) => panic!("must not map"),
        Err(MapError::MissingColumn(name)) => assert_eq!(name, "Koers"),
    }
}

#[test]
fn extra_columns_are_dropped() {
    let ms = rabo_card_spec();
    let row = full_row();
    let t = map_row(&ms, &row).expect("must map");
    assert!(t.cells.iter().all(|c| c.0 != "Munt"));
}
