//! What a table holds, as mathematical values, and what an import does to it.

use crate::descriptor::{
    column_record, record_column, row_record, Column, ColumnView, RowInfo, DEFAULT_HEIGHT,
    DEFAULT_WIDTH,
};
use crate::key::{cell_key_spec, lemma_cell_key_injective};
use crate::scalar::{scalar_of, Value};
use vstd::prelude::*;

verus! {

/// What a transaction sees of a table: the records of its columns in display order, the
/// records of its rows in display order, and its cells by key.
pub struct TableView {
    pub columns: Seq<Map<Seq<char>, Value>>,
    pub rows: Seq<Map<Seq<char>, Value>>,
    pub cells: Map<Seq<char>, Value>,
}

/// The texts of a list of fields.
pub open spec fn texts(fields: Seq<String>) -> Seq<Seq<char>> {
    Seq::new(fields.len(), |j: int| fields[j]@)
}

/// The texts of a list of records, record by record.
pub open spec fn grid_of(records: Seq<Vec<String>>) -> Seq<Seq<Seq<char>>> {
    Seq::new(records.len(), |i: int| texts(records[i]@))
}

/// True where every record of `grid` has `width` fields.
pub open spec fn rectangular(grid: Seq<Seq<Seq<char>>>, width: nat) -> bool {
    forall|i: int| 0 <= i < grid.len() ==> (#[trigger] grid[i]).len() == width
}

/// True where a header and its records can be imported into a table that looks like
/// `view`: every record has one field for each header field, and the columns, the rows
/// and the cells written can each still be counted in 32 bits.
pub open spec fn importable(
    view: TableView,
    headers: Seq<Seq<char>>,
    grid: Seq<Seq<Seq<char>>>,
) -> bool {
    &&& rectangular(grid, headers.len())
    &&& view.columns.len() + headers.len() <= u32::MAX
    &&& view.rows.len() + grid.len() <= u32::MAX
    &&& grid.len() * headers.len() <= u32::MAX
}

/// True where no identifier occurs twice in `ids`.
pub open spec fn distinct(ids: Seq<u32>) -> bool {
    forall|a: int, b: int| 0 <= a < b < ids.len() ==> ids[a] != ids[b]
}

/// The records of columns with the identifiers `ids`, named by `names` in order, each of
/// the default width.
pub open spec fn column_records(ids: Seq<u32>, names: Seq<Seq<char>>) -> Seq<
    Map<Seq<char>, Value>,
> {
    Seq::new(
        ids.len(),
        |j: int|
            column_record(ColumnView { id: ids[j] as i64, name: names[j], width: DEFAULT_WIDTH }),
    )
}

/// The records of rows with the identifiers `ids`, the last identifier first, each of
/// the default height.
pub open spec fn row_records(ids: Seq<u32>) -> Seq<Map<Seq<char>, Value>> {
    Seq::new(
        ids.len(),
        |p: int| row_record(RowInfo { id: ids[ids.len() - 1 - p] as i64, height: DEFAULT_HEIGHT }),
    )
}

/// True where the cell of input row `a` and column `b` comes before the cell of row `i`
/// and column `j` in the order in which cells are written: row by row, and column by
/// column inside a row.
pub open spec fn filled(a: int, b: int, i: int, j: int) -> bool {
    a < i || (a == i && b < j)
}

/// The key of the cell of input row `a` and column `b`.
pub open spec fn key_of(row_ids: Seq<u32>, column_ids: Seq<u32>, a: int, b: int) -> Seq<char> {
    cell_key_spec(row_ids[a] as i64, column_ids[b] as i64)
}

/// True where `key` is the key of a cell that comes before the cell of row `i` and
/// column `j`.
pub open spec fn is_filled_key(
    key: Seq<char>,
    row_ids: Seq<u32>,
    column_ids: Seq<u32>,
    i: int,
    j: int,
) -> bool {
    exists|a: int, b: int|
        0 <= a < row_ids.len() && 0 <= b < column_ids.len() && filled(a, b, i, j) && key
            == #[trigger] key_of(row_ids, column_ids, a, b)
}

/// The cell store `after` is the cell store `before` with every cell that comes before
/// the cell of row `i` and column `j` written to it: such a cell holds the typed value
/// of its field, every other key holds what it held, and no other key was added.
pub open spec fn cells_filled(
    before: Map<Seq<char>, Value>,
    after: Map<Seq<char>, Value>,
    row_ids: Seq<u32>,
    column_ids: Seq<u32>,
    grid: Seq<Seq<Seq<char>>>,
    i: int,
    j: int,
) -> bool {
    &&& forall|a: int, b: int|
        0 <= a < row_ids.len() && 0 <= b < column_ids.len() && filled(a, b, i, j)
            ==> after.contains_key(#[trigger] key_of(row_ids, column_ids, a, b)) && after[key_of(
            row_ids,
            column_ids,
            a,
            b,
        )] == scalar_of(grid[a][b])
    &&& forall|key: Seq<char>| #[trigger]
        after.contains_key(key) ==> before.contains_key(key) || is_filled_key(
            key,
            row_ids,
            column_ids,
            i,
            j,
        )
    &&& forall|key: Seq<char>|
        #[trigger] before.contains_key(key) && !is_filled_key(key, row_ids, column_ids, i, j)
            ==> after.contains_key(key) && after[key] == before[key]
}

/// The table `after` is the table `before` with the given header and records imported
/// under the column identifiers `column_ids` and the row identifiers `row_ids`, both in
/// input order: the columns are appended in header order, the rows are put in front, the
/// last record first, and each field is written to the cell of its row and column.
pub open spec fn imported_with(
    before: TableView,
    after: TableView,
    headers: Seq<Seq<char>>,
    grid: Seq<Seq<Seq<char>>>,
    column_ids: Seq<u32>,
    row_ids: Seq<u32>,
) -> bool {
    &&& column_ids.len() == headers.len()
    &&& row_ids.len() == grid.len()
    &&& distinct(column_ids)
    &&& distinct(row_ids)
    &&& after.columns == before.columns + column_records(column_ids, headers)
    &&& after.rows == row_records(row_ids) + before.rows
    &&& cells_filled(before.cells, after.cells, row_ids, column_ids, grid, grid.len() as int, 0)
}

/// The table `after` is the table `before` with the given header and records imported
/// under identifiers that are unique among the new columns and among the new rows.
pub open spec fn imported(
    before: TableView,
    after: TableView,
    headers: Seq<Seq<char>>,
    grid: Seq<Seq<Seq<char>>>,
) -> bool {
    exists|column_ids: Seq<u32>, row_ids: Seq<u32>|
        imported_with(before, after, headers, grid, column_ids, row_ids)
}

/// Two cells of distinct rows or distinct columns have distinct keys.
pub proof fn lemma_keys_differ(
    row_ids: Seq<u32>,
    column_ids: Seq<u32>,
    a: int,
    b: int,
    c: int,
    d: int,
)
    requires
        distinct(row_ids),
        distinct(column_ids),
        0 <= a < row_ids.len(),
        0 <= c < row_ids.len(),
        0 <= b < column_ids.len(),
        0 <= d < column_ids.len(),
        a != c || b != d,
    ensures
        key_of(row_ids, column_ids, a, b) != key_of(row_ids, column_ids, c, d),
{
    if key_of(row_ids, column_ids, a, b) == key_of(row_ids, column_ids, c, d) {
        lemma_cell_key_injective(
            row_ids[a] as i64,
            column_ids[b] as i64,
            row_ids[c] as i64,
            column_ids[d] as i64,
        );
        if a != c {
            if a < c {
                assert(row_ids[a] != row_ids[c]);
            } else {
                assert(row_ids[c] != row_ids[a]);
            }
        } else {
            if b < d {
                assert(column_ids[b] != column_ids[d]);
            } else {
                assert(column_ids[d] != column_ids[b]);
            }
        }
    }
}

/// Writing the cell of row `i` and column `j` after all that come before it.
pub proof fn lemma_fill_cell(
    before: Map<Seq<char>, Value>,
    after: Map<Seq<char>, Value>,
    row_ids: Seq<u32>,
    column_ids: Seq<u32>,
    grid: Seq<Seq<Seq<char>>>,
    i: int,
    j: int,
)
    requires
        distinct(row_ids),
        distinct(column_ids),
        0 <= i < row_ids.len(),
        0 <= j < column_ids.len(),
        cells_filled(before, after, row_ids, column_ids, grid, i, j),
    ensures
        cells_filled(
            before,
            after.insert(key_of(row_ids, column_ids, i, j), scalar_of(grid[i][j])),
            row_ids,
            column_ids,
            grid,
            i,
            j + 1,
        ),
{
    let key = key_of(row_ids, column_ids, i, j);
    let next = after.insert(key, scalar_of(grid[i][j]));
    assert forall|a: int, b: int|
        0 <= a < row_ids.len() && 0 <= b < column_ids.len() && filled(
            a,
            b,
            i,
            j + 1,
        ) implies next.contains_key(#[trigger] key_of(row_ids, column_ids, a, b)) && next[key_of(
        row_ids,
        column_ids,
        a,
        b,
    )] == scalar_of(grid[a][b]) by {
        if a != i || b != j {
            lemma_keys_differ(row_ids, column_ids, a, b, i, j);
        }
    }
    assert forall|k: Seq<char>| #[trigger] next.contains_key(k) implies (before.contains_key(k)
        || is_filled_key(k, row_ids, column_ids, i, j + 1)) by {
        if k == key {
            assert(filled(i, j, i, j + 1));
        } else {
            assert(after.contains_key(k));
            if !before.contains_key(k) {
                let (a, b) = choose|a: int, b: int|
                    0 <= a < row_ids.len() && 0 <= b < column_ids.len() && filled(a, b, i, j) && k
                        == #[trigger] key_of(row_ids, column_ids, a, b);
                assert(filled(a, b, i, j + 1));
            }
        }
    }
    assert forall|k: Seq<char>|
        #[trigger] before.contains_key(k) && !is_filled_key(
            k,
            row_ids,
            column_ids,
            i,
            j + 1,
        ) implies next.contains_key(k) && next[k] == before[k] by {
        if k == key {
            assert(filled(i, j, i, j + 1));
        }
        if is_filled_key(k, row_ids, column_ids, i, j) {
            let (a, b) = choose|a: int, b: int|
                0 <= a < row_ids.len() && 0 <= b < column_ids.len() && filled(a, b, i, j) && k
                    == #[trigger] key_of(row_ids, column_ids, a, b);
            assert(filled(a, b, i, j + 1));
        }
    }
}

/// After the last cell of row `i` comes the first cell of row `i + 1`.
pub proof fn lemma_fill_row(
    before: Map<Seq<char>, Value>,
    after: Map<Seq<char>, Value>,
    row_ids: Seq<u32>,
    column_ids: Seq<u32>,
    grid: Seq<Seq<Seq<char>>>,
    i: int,
)
    requires
        cells_filled(before, after, row_ids, column_ids, grid, i, column_ids.len() as int),
    ensures
        cells_filled(before, after, row_ids, column_ids, grid, i + 1, 0),
{
    let m = column_ids.len() as int;
    assert forall|k: Seq<char>|
        is_filled_key(k, row_ids, column_ids, i, m) == is_filled_key(
            k,
            row_ids,
            column_ids,
            i + 1,
            0,
        ) by {
        if is_filled_key(k, row_ids, column_ids, i, m) {
            let (a, b) = choose|a: int, b: int|
                0 <= a < row_ids.len() && 0 <= b < column_ids.len() && filled(a, b, i, m) && k
                    == #[trigger] key_of(row_ids, column_ids, a, b);
            assert(filled(a, b, i + 1, 0));
        }
        if is_filled_key(k, row_ids, column_ids, i + 1, 0) {
            let (a, b) = choose|a: int, b: int|
                0 <= a < row_ids.len() && 0 <= b < column_ids.len() && filled(a, b, i + 1, 0) && k
                    == #[trigger] key_of(row_ids, column_ids, a, b);
            assert(filled(a, b, i, m));
        }
    }
}

/// True where every column record of `view` stands for a column.
pub open spec fn columns_readable(view: TableView) -> bool {
    forall|j: int| 0 <= j < view.columns.len() ==> record_column(#[trigger] view.columns[j]) is Some
}

/// The columns that the column records of `view` stand for, in display order.
pub open spec fn columns_of(view: TableView) -> Seq<ColumnView> {
    Seq::new(view.columns.len(), |j: int| record_column(view.columns[j]).unwrap())
}

/// The identifiers of the columns of `view`, in display order.
pub open spec fn column_ids_of(view: TableView) -> Seq<i64> {
    Seq::new(view.columns.len(), |j: int| record_column(view.columns[j]).unwrap().id)
}

/// A list of columns as mathematical values.
pub open spec fn column_views(columns: Seq<Column>) -> Seq<ColumnView> {
    Seq::new(columns.len(), |j: int| columns[j]@)
}

} // verus!
