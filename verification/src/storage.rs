//! What archiving a snapshot needs besides the reading and writing of
//! files: the columns of the table to write, the name of the file, and the
//! rows of a table that was read back.

use crate::level::{MalformedLevelError, PriceLevel};
use crate::messages::{read_snapshot, OrderBookSnapshot, SnapshotView};
use vstd::prelude::*;
use vstd::string::StringExecFns;

verus! {

/// A snapshot laid out in columns. There is one symbol and one update id
/// for each bid; amounts are in hundred-millionths.
#[derive(Debug)]
pub struct SnapshotColumns {
    pub symbols: Vec<String>,
    pub update_ids: Vec<u64>,
    pub bid_prices: Vec<u64>,
    pub bid_quantities: Vec<u64>,
    pub ask_prices: Vec<u64>,
    pub ask_quantities: Vec<u64>,
}

/// The prices of a list of levels, in order.
pub open spec fn prices_of(levels: Seq<PriceLevel>) -> Seq<u64> {
    levels.map_values(|l: PriceLevel| l.price)
}

/// The quantities of a list of levels, in order.
pub open spec fn quantities_of(levels: Seq<PriceLevel>) -> Seq<u64> {
    levels.map_values(|l: PriceLevel| l.quantity)
}

/// The columns hold the snapshot, for the symbol.
pub open spec fn columns_hold(c: SnapshotColumns, s: SnapshotView, symbol: Seq<char>) -> bool {
    &&& c.symbols@.len() == s.bids.len()
    &&& forall|i: int| 0 <= i < c.symbols@.len() ==> (#[trigger] c.symbols@[i])@ == symbol
    &&& c.update_ids@ == Seq::new(s.bids.len(), |i: int| s.last_update_id)
    &&& c.bid_prices@ == prices_of(s.bids)
    &&& c.bid_quantities@ == quantities_of(s.bids)
    &&& c.ask_prices@ == prices_of(s.asks)
    &&& c.ask_quantities@ == quantities_of(s.asks)
}

/// The name of the file that archives a snapshot of a symbol taken at the
/// time that the stamp tells.
pub open spec fn file_name(symbol: Seq<char>, stamp: Seq<char>, extension: Seq<char>) -> Seq<
    char,
> {
    "orderbook_snapshot_"@ + symbol + "_"@ + stamp + "."@ + extension
}

/// Splits a list of levels into its prices and its quantities.
fn split_levels(levels: &Vec<PriceLevel>) -> (r: (Vec<u64>, Vec<u64>))
    ensures
        r.0@ == prices_of(levels@),
        r.1@ == quantities_of(levels@),
{
    let mut prices: Vec<u64> = Vec::new();
    let mut quantities: Vec<u64> = Vec::new();
    let mut i: usize = 0;
    while i < levels.len()
        invariant
            i <= levels.len(),
            prices@ == prices_of(levels@.take(i as int)),
            quantities@ == quantities_of(levels@.take(i as int)),
        decreases levels.len() - i,
    {
        prices.push(levels[i].price);
        quantities.push(levels[i].quantity);
        assert(prices@ == prices_of(levels@.take(i + 1)));
        assert(quantities@ == quantities_of(levels@.take(i + 1)));
        i += 1;
    }
    assert(levels@.take(i as int) == levels@);
    (prices, quantities)
}

/// The name of an archive file, built from its parts.
pub fn archive_name(symbol: &str, stamp: &str, extension: &str) -> (r: String)
    ensures
        r@ == file_name(symbol@, stamp@, extension@),
{
    let mut name = String::from_str("orderbook_snapshot_");
    name.append(symbol);
    name.append("_");
    name.append(stamp);
    name.append(".");
    name.append(extension);
    name
}

/// Prepares a snapshot for a columnar file.
pub struct ParquetWriter;

impl ParquetWriter {
    /// Reads the snapshot and lays it out in columns; a snapshot with a
    /// malformed level has none.
    pub fn prepare_columns(snapshot: &OrderBookSnapshot, symbol: &str) -> (r: Result<
        SnapshotColumns,
        MalformedLevelError,
    >)
        ensures
            match r {
                Ok(columns) => read_snapshot(*snapshot) is Ok && columns_hold(
                    columns,
                    read_snapshot(*snapshot)->Ok_0,
                    symbol@,
                ),
                Err(e) => read_snapshot(*snapshot) == Err::<SnapshotView, MalformedLevelError>(e),
            },
    {
        let levels = match snapshot.to_levels() {
            Ok(levels) => levels,
            Err(e) => {
                return Err(e);
            },
        };
        let (bid_prices, bid_quantities) = split_levels(&levels.bids);
        let (ask_prices, ask_quantities) = split_levels(&levels.asks);
        let mut symbols: Vec<String> = Vec::new();
        let mut update_ids: Vec<u64> = Vec::new();
        let mut i: usize = 0;
        while i < levels.bids.len()
            invariant
                i <= levels.bids.len(),
                symbols@.len() == i,
                forall|j: int| 0 <= j < i ==> (#[trigger] symbols@[j])@ == symbol@,
                update_ids@ == Seq::new(i as nat, |j: int| levels.last_update_id),
            decreases levels.bids.len() - i,
        {
            symbols.push(String::from_str(symbol));
            update_ids.push(levels.last_update_id);
            assert(update_ids@ == Seq::new((i + 1) as nat, |j: int| levels.last_update_id));
            i += 1;
        }
        Ok(
            SnapshotColumns {
                symbols,
                update_ids,
                bid_prices,
                bid_quantities,
                ask_prices,
                ask_quantities,
            },
        )
    }

    /// The name of the columnar file for a snapshot of a symbol taken at the
    /// time that the stamp tells.
    pub fn create_filename(symbol: &str, stamp: &str) -> (r: String)
        ensures
            r@ == file_name(symbol@, stamp@, "parquet"@),
    {
        archive_name(symbol, stamp, "parquet")
    }
}

/// One cell of a table. A floating-point cell is carried as its bits and
/// never computed with.
#[derive(Debug, PartialEq, Eq)]
pub enum Cell {
    Float(u64),
    Unsigned(u64),
    Text(String),
    Null,
}

/// The cells of one column, top to bottom; `Other` stands for a column of a
/// type that is not shown.
#[derive(Debug)]
pub enum ColumnData {
    Float(Vec<u64>),
    Unsigned(Vec<u64>),
    Text(Vec<String>),
    Other,
}

/// A column and its name.
#[derive(Debug)]
pub struct Column {
    pub name: String,
    pub data: ColumnData,
}

/// A table as a columnar file holds it.
#[derive(Debug)]
pub struct Table {
    pub num_rows: usize,
    pub columns: Vec<Column>,
}

/// A cell together with the name of its column.
#[derive(Debug, PartialEq, Eq)]
pub struct NamedCell {
    pub name: String,
    pub cell: Cell,
}

/// A cell as a mathematical value.
pub enum CellView {
    Float(u64),
    Unsigned(u64),
    Text(Seq<char>),
    Null,
}

impl View for Cell {
    type V = CellView;

    open spec fn view(&self) -> CellView {
        match *self {
            Cell::Float(bits) => CellView::Float(bits),
            Cell::Unsigned(n) => CellView::Unsigned(n),
            Cell::Text(s) => CellView::Text(s@),
            Cell::Null => CellView::Null,
        }
    }
}

/// A column that is shown holds one cell for each row.
pub open spec fn column_fits(c: Column, num_rows: usize) -> bool {
    match c.data {
        ColumnData::Float(cells) => cells@.len() == num_rows,
        ColumnData::Unsigned(cells) => cells@.len() == num_rows,
        ColumnData::Text(cells) => cells@.len() == num_rows,
        ColumnData::Other => true,
    }
}

/// Every column that is shown holds one cell for each row.
pub open spec fn table_fits(t: Table) -> bool {
    forall|c: int| 0 <= c < t.columns@.len() ==> column_fits(#[trigger] t.columns@[c], t.num_rows)
}

/// The cell of a column in a row; a column that is not shown has null
/// cells.
pub open spec fn cell_at(c: Column, row: int) -> CellView {
    match c.data {
        ColumnData::Float(cells) => CellView::Float(cells@[row]),
        ColumnData::Unsigned(cells) => CellView::Unsigned(cells@[row]),
        ColumnData::Text(cells) => CellView::Text(cells@[row]@),
        ColumnData::Other => CellView::Null,
    }
}

/// `row` holds the cells of row `r` of the table, one for each column, in
/// the order of the columns and under their names.
pub open spec fn is_row(row: Seq<NamedCell>, t: Table, r: int) -> bool {
    &&& row.len() == t.columns@.len()
    &&& forall|c: int|
        0 <= c < row.len() ==> (#[trigger] row[c]).name@ == t.columns@[c].name@ && row[c].cell@
            == cell_at(t.columns@[c], r)
}

/// One row of a table.
fn table_row(table: &Table, r: usize) -> (row: Vec<NamedCell>)
    requires
        table_fits(*table),
        r < table.num_rows,
    ensures
        is_row(row@, *table, r as int),
{
    let mut row: Vec<NamedCell> = Vec::new();
    let mut c: usize = 0;
    while c < table.columns.len()
        invariant
            c <= table.columns.len(),
            table_fits(*table),
            r < table.num_rows,
            row@.len() == c,
            forall|k: int|
                0 <= k < c ==> (#[trigger] row@[k]).name@ == table.columns@[k].name@ && row@[k].cell@
                    == cell_at(table.columns@[k], r as int),
        decreases table.columns.len() - c,
    {
        let column = &table.columns[c];
        assert(column_fits(table.columns@[c as int], table.num_rows));
        let cell = match &column.data {
            ColumnData::Float(cells) => Cell::Float(cells[r]),
            ColumnData::Unsigned(cells) => Cell::Unsigned(cells[r]),
            ColumnData::Text(cells) => Cell::Text(cells[r].clone()),
            ColumnData::Other => Cell::Null,
        };
        row.push(NamedCell { name: column.name.clone(), cell });
        c += 1;
    }
    row
}

/// The rows of a table, top to bottom.
pub fn table_rows(table: &Table) -> (rows: Vec<Vec<NamedCell>>)
    requires
        table_fits(*table),
    ensures
        rows@.len() == table.num_rows,
        forall|r: int| 0 <= r < rows@.len() ==> is_row((#[trigger] rows@[r])@, *table, r),
{
    let mut rows: Vec<Vec<NamedCell>> = Vec::new();
    let mut r: usize = 0;
    while r < table.num_rows
        invariant
            r <= table.num_rows,
            table_fits(*table),
            rows@.len() == r,
            forall|k: int| 0 <= k < r ==> is_row((#[trigger] rows@[k])@, *table, k),
        decreases table.num_rows - r,
    {
        rows.push(table_row(table, r));
        r += 1;
    }
    rows
}

/// Whether every column that is shown holds one cell for each row.
pub fn table_is_fit(table: &Table) -> (r: bool)
    ensures
        r == table_fits(*table),
{
    let mut c: usize = 0;
    while c < table.columns.len()
        invariant
            c <= table.columns.len(),
            forall|k: int| 0 <= k < c ==> column_fits(#[trigger] table.columns@[k], table.num_rows),
        decreases table.columns.len() - c,
    {
        let len = match &table.columns[c].data {
            ColumnData::Float(cells) => cells.len(),
            ColumnData::Unsigned(cells) => cells.len(),
            ColumnData::Text(cells) => cells.len(),
            ColumnData::Other => table.num_rows,
        };
        if len != table.num_rows {
            assert(!column_fits(table.columns@[c as int], table.num_rows));
            return false;
        }
        c += 1;
    }
    true
}

} // verus!
