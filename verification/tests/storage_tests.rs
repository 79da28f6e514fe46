use orderbook_imbalance::decimal::{DecimalError, SCALE};
use orderbook_imbalance::level::{LevelField, MalformedLevelError, Side};
use orderbook_imbalance::messages::{OrderBookSnapshot, OrderBookUpdate};
use orderbook_imbalance::storage::{
    archive_name, table_is_fit, table_rows, Cell, Column, ColumnData, NamedCell,
    ParquetWriter, Table,
};

fn pairs(levels: &[(&str, &str)]) -> Vec<[String; 2]> {
    levels.iter().map(|(p, q)| [p.to_string(), q.to_string()]).collect()
}

#[test]
fn columns_follow_the_snapshot() {
    let snapshot = OrderBookSnapshot {
        last_update_id: 42,
        bids: pairs(&[("100", "1"), ("99", "0.5")]),
        asks: pairs(&[("101", "2"), ("102", "3"), ("103", "0")]),
    };
    let c = ParquetWriter::prepare_columns(&snapshot, "btcusdt").unwrap();
    assert_eq!(c.symbols, vec!["btcusdt".to_string(), "btcusdt".to_string()]);
    assert_eq!(c.update_ids, vec![42, 42]);
    assert_eq!(c.bid_prices, vec![100 * SCALE, 99 * SCALE]);
    assert_eq!(c.bid_quantities, vec![SCALE, SCALE / 2]);
    assert_eq!(c.ask_prices, vec![101 * SCALE, 102 * SCALE, 103 * SCALE]);
    assert_eq!(c.ask_quantities, vec![2 * SCALE, 3 * SCALE, 0]);
}

#[test]
fn a_malformed_snapshot_has_no_columns() {
    let snapshot = OrderBookSnapshot {
        last_update_id: 42,
        bids: pairs(&[("100", "1")]),
        asks: pairs(&[("101", "2"), ("1e3", "3")]),
    };
    let r = ParquetWriter::prepare_columns(&snapshot, "btcusdt");
    assert_eq!(
        r.err(),
        Some(MalformedLevelError {
            side: Side::Ask,
            index: 1,
            field: LevelField::Price,
            reason: DecimalError::NotNumeric,
        })
    );
}

#[test]
fn an_archive_name_is_built_from_its_parts() {
    assert_eq!(
        archive_name("btcusdt", "20240102_030405", "parquet"),
        "orderbook_snapshot_btcusdt_20240102_030405.parquet"
    );
    assert_eq!(archive_name("", "", ""), "orderbook_snapshot__.");
}

#[test]
fn a_columnar_file_is_named_after_symbol_and_stamp() {
    assert_eq!(
        ParquetWriter::create_filename("btcusdt", "20240102_030405"),
        "orderbook_snapshot_btcusdt_20240102_030405.parquet"
    );
    assert_eq!(
        ParquetWriter::create_filename("ethusdt", ""),
        "orderbook_snapshot_ethusdt_.parquet"
    );
}

#[test]
fn messages_read_bids_before_asks() {
    let snapshot = OrderBookSnapshot {
        last_update_id: 1,
        bids: pairs(&[("1", "x")]),
        asks: pairs(&[("y", "1")]),
    };
    assert_eq!(snapshot.to_levels().err().map(|e| e.side), Some(Side::Bid));
    let update = OrderBookUpdate {
        event_type: String::new(),
        event_time: 0,
        symbol: String::new(),
        first_update_id: 5,
        final_update_id: 9,
        bids: pairs(&[("1", "2")]),
        asks: pairs(&[("y", "1")]),
    };
    assert_eq!(update.to_diff().err().map(|e| e.side), Some(Side::Ask));
    let update = OrderBookUpdate { asks: pairs(&[("3", "0")]), ..update };
    let diff = update.to_diff().unwrap();
    assert_eq!(diff.first_update_id, 5);
    assert_eq!(diff.final_update_id, 9);
    assert_eq!(diff.bid_changes.len(), 1);
    assert_eq!(diff.ask_changes[0].price, 3 * SCALE);
    assert_eq!(diff.ask_changes[0].quantity, 0);
}

fn sample_table() -> Table {
    Table {
        num_rows: 2,
        columns: vec![
            Column {
                name: "symbol".to_string(),
                data: ColumnData::Text(vec!["btcusdt".to_string(), "ethusdt".to_string()]),
            },
            Column { name: "update_id".to_string(), data: ColumnData::Unsigned(vec![7, 8]) },
            Column {
                name: "bid_price".to_string(),
                data: ColumnData::Float(vec![100.5f64.to_bits(), 99.25f64.to_bits()]),
            },
            Column { name: "flags".to_string(), data: ColumnData::Other },
        ],
    }
}

fn named(name: &str, cell: Cell) -> NamedCell {
    NamedCell { name: name.to_string(), cell }
}

#[test]
fn rows_hold_one_cell_for_each_column() {
    let table = sample_table();
    assert!(table_is_fit(&table));
    assert_eq!(
        table_rows(&table),
        vec![
            vec![
                named("symbol", Cell::Text("btcusdt".to_string())),
                named("update_id", Cell::Unsigned(7)),
                named("bid_price", Cell::Float(100.5f64.to_bits())),
                named("flags", Cell::Null),
            ],
            vec![
                named("symbol", Cell::Text("ethusdt".to_string())),
                named("update_id", Cell::Unsigned(8)),
                named("bid_price", Cell::Float(99.25f64.to_bits())),
                named("flags", Cell::Null),
            ],
        ]
    );
}

#[test]
fn a_table_without_rows_or_columns() {
    let empty = Table { num_rows: 0, columns: vec![] };
    assert!(table_is_fit(&empty));
    assert_eq!(table_rows(&empty), Vec::<Vec<NamedCell>>::new());
    let no_columns = Table { num_rows: 2, columns: vec![] };
    assert_eq!(table_rows(&no_columns), vec![vec![], vec![]]);
}

#[test]
fn a_short_column_does_not_fit() {
    let mut table = sample_table();
    table.columns[1].data = ColumnData::Unsigned(vec![7]);
    assert!(!table_is_fit(&table));
    table.columns[1].data = ColumnData::Unsigned(vec![7, 8, 9]);
    assert!(!table_is_fit(&table));
}
