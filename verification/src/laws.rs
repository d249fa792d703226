//! What holds of every import, proved from the contract of `Table::import`.

use crate::descriptor::{
    lemma_column_round_trip, lemma_row_round_trip, record_column, record_row, ColumnView, RowInfo,
    DEFAULT_HEIGHT, DEFAULT_WIDTH,
};
use crate::key::cell_key_spec;
use crate::scalar::{scalar_of, Value};
use crate::model::{
    column_ids_of, column_records, columns_readable, distinct, filled, imported, imported_with,
    is_filled_key, key_of, lemma_keys_differ, row_records, TableView,
};
use crate::rows::Row;
use vstd::arithmetic::div_mod::{
    lemma_fundamental_div_mod, lemma_fundamental_div_mod_converse, lemma_mod_pos_bound,
};
use vstd::prelude::*;

verus! {

/// The identifier of the column that `record` stands for.
pub open spec fn column_id(record: Map<Seq<char>, Value>) -> i64 {
    record_column(record).unwrap().id
}

/// The identifier of the row that `record` stands for.
pub open spec fn row_id(record: Map<Seq<char>, Value>) -> i64 {
    record_row(record).unwrap().id
}

/// The key that joins the row at display position `p` with the column at display
/// position `c`.
pub open spec fn joined_key(view: TableView, p: int, c: int) -> Seq<char> {
    cell_key_spec(row_id(view.rows[p]), column_id(view.columns[c]))
}

/// After an import, the old columns stay where they were and the new ones follow them,
/// reading back with the imported names, the default width and the identifiers given;
/// the new rows come first, reading back with the default height and the identifiers
/// given, the last one first, and the old rows follow them.
pub proof fn lemma_new_descriptors(
    before: TableView,
    after: TableView,
    headers: Seq<Seq<char>>,
    grid: Seq<Seq<Seq<char>>>,
    column_ids: Seq<u32>,
    row_ids: Seq<u32>,
)
    requires
        imported_with(before, after, headers, grid, column_ids, row_ids),
    ensures
        after.columns.len() == before.columns.len() + headers.len(),
        after.rows.len() == before.rows.len() + grid.len(),
        forall|c: int|
            0 <= c < before.columns.len() ==> #[trigger] after.columns[c] == before.columns[c],
        forall|c: int|
            before.columns.len() <= c < after.columns.len() ==> record_column(
                #[trigger] after.columns[c],
            ) == Some(
                ColumnView {
                    id: column_ids[c - before.columns.len()] as i64,
                    name: headers[c - before.columns.len()],
                    width: DEFAULT_WIDTH,
                },
            ),
        forall|p: int|
            0 <= p < grid.len() ==> record_row(#[trigger] after.rows[p]) == Some(
                RowInfo { id: row_ids[grid.len() - 1 - p] as i64, height: DEFAULT_HEIGHT },
            ),
        forall|p: int|
            grid.len() <= p < after.rows.len() ==> #[trigger] after.rows[p] == before.rows[p
                - grid.len()],
{
    let c0 = before.columns.len() as int;
    let n = grid.len() as int;
    assert(column_records(column_ids, headers).len() == headers.len());
    assert(row_records(row_ids).len() == n);
    assert forall|c: int| c0 <= c < after.columns.len() implies record_column(
        #[trigger] after.columns[c],
    ) == Some(
        ColumnView {
            id: column_ids[c - c0] as i64,
            name: headers[c - c0],
            width: DEFAULT_WIDTH,
        },
    ) by {
        assert(after.columns[c] == column_records(column_ids, headers)[c - c0]);
        lemma_column_round_trip(
            ColumnView {
                id: column_ids[c - c0] as i64,
                name: headers[c - c0],
                width: DEFAULT_WIDTH,
            },
        );
    }
    assert forall|p: int| 0 <= p < n implies record_row(#[trigger] after.rows[p]) == Some(
        RowInfo { id: row_ids[n - 1 - p] as i64, height: DEFAULT_HEIGHT },
    ) by {
        assert(after.rows[p] == row_records(row_ids)[p]);
        lemma_row_round_trip(RowInfo { id: row_ids[n - 1 - p] as i64, height: DEFAULT_HEIGHT });
    }
}

/// Uniqueness: the columns of one import have identifiers that differ from one another,
/// and so have its rows.
pub proof fn law_unique_ids(
    before: TableView,
    after: TableView,
    headers: Seq<Seq<char>>,
    grid: Seq<Seq<Seq<char>>>,
)
    requires
        imported(before, after, headers, grid),
    ensures
        after.columns.len() == before.columns.len() + headers.len(),
        after.rows.len() == before.rows.len() + grid.len(),
        forall|a: int, b: int|
            before.columns.len() <= a < b < after.columns.len() ==> column_id(
                #[trigger] after.columns[a],
            ) != column_id(#[trigger] after.columns[b]),
        forall|a: int, b: int|
            0 <= a < b < grid.len() ==> row_id(#[trigger] after.rows[a]) != row_id(
                #[trigger] after.rows[b],
            ),
{
    let (column_ids, row_ids) = choose|column_ids: Seq<u32>, row_ids: Seq<u32>|
        imported_with(before, after, headers, grid, column_ids, row_ids);
    lemma_new_descriptors(before, after, headers, grid, column_ids, row_ids);
    let c0 = before.columns.len() as int;
    let n = grid.len() as int;
    assert forall|a: int, b: int| c0 <= a < b < after.columns.len() implies column_id(
        #[trigger] after.columns[a],
    ) != column_id(#[trigger] after.columns[b]) by {
        assert(column_ids[a - c0] != column_ids[b - c0]);
    }
    assert forall|a: int, b: int| 0 <= a < b < n implies row_id(#[trigger] after.rows[a])
        != row_id(#[trigger] after.rows[b]) by {
        assert(row_ids[n - 1 - b] != row_ids[n - 1 - a]);
    }
}

/// The descriptors of an import read back: each new column with its header as name and
/// the default width, each new row with the default height, and identifiers that fit 32
/// bits without a sign. What was there before stays behind the new rows and before the
/// new columns.
pub proof fn law_descriptors(
    before: TableView,
    after: TableView,
    headers: Seq<Seq<char>>,
    grid: Seq<Seq<Seq<char>>>,
)
    requires
        imported(before, after, headers, grid),
    ensures
        after.columns.len() == before.columns.len() + headers.len(),
        after.rows.len() == before.rows.len() + grid.len(),
        forall|c: int|
            0 <= c < before.columns.len() ==> #[trigger] after.columns[c] == before.columns[c],
        forall|c: int|
            before.columns.len() <= c < after.columns.len() ==> {
                &&& record_column(#[trigger] after.columns[c]) matches Some(column)
                &&& column.name == headers[c - before.columns.len()]
                &&& column.width == DEFAULT_WIDTH
                &&& 0 <= column.id <= u32::MAX
            },
        forall|p: int|
            0 <= p < grid.len() ==> {
                &&& record_row(#[trigger] after.rows[p]) matches Some(row)
                &&& row.height == DEFAULT_HEIGHT
                &&& 0 <= row.id <= u32::MAX
            },
        forall|p: int|
            grid.len() <= p < after.rows.len() ==> #[trigger] after.rows[p] == before.rows[p
                - grid.len()],
{
    let (column_ids, row_ids) = choose|column_ids: Seq<u32>, row_ids: Seq<u32>|
        imported_with(before, after, headers, grid, column_ids, row_ids);
    lemma_new_descriptors(before, after, headers, grid, column_ids, row_ids);
}

/// An import into a table whose column records all stand for columns leaves such a
/// table.
pub proof fn law_columns_stay_readable(
    before: TableView,
    after: TableView,
    headers: Seq<Seq<char>>,
    grid: Seq<Seq<Seq<char>>>,
)
    requires
        imported(before, after, headers, grid),
        columns_readable(before),
    ensures
        columns_readable(after),
{
    let (column_ids, row_ids) = choose|column_ids: Seq<u32>, row_ids: Seq<u32>|
        imported_with(before, after, headers, grid, column_ids, row_ids);
    lemma_new_descriptors(before, after, headers, grid, column_ids, row_ids);
    let c0 = before.columns.len() as int;
    assert forall|c: int| 0 <= c < after.columns.len() implies record_column(
        #[trigger] after.columns[c],
    ) is Some by {
        if c < c0 {
            assert(after.columns[c] == before.columns[c]);
        }
    }
}

/// Reverse order and join: after an import of `n` records, the row at display position
/// `p < n` is record `n - 1 - p` of the input, and its cell in a new column, the one at
/// display position `c`, holds the typed value of the field of that record under the
/// header of that column.
pub proof fn law_join(
    before: TableView,
    after: TableView,
    headers: Seq<Seq<char>>,
    grid: Seq<Seq<Seq<char>>>,
)
    requires
        imported(before, after, headers, grid),
    ensures
        after.columns.len() == before.columns.len() + headers.len(),
        after.rows.len() == before.rows.len() + grid.len(),
        forall|p: int, c: int|
            0 <= p < grid.len() && before.columns.len() <= c < after.columns.len() ==> {
                &&& after.cells.contains_key(#[trigger] joined_key(after, p, c))
                &&& after.cells[joined_key(after, p, c)] == scalar_of(
                    grid[grid.len() - 1 - p][c - before.columns.len()],
                )
            },
{
    let (column_ids, row_ids) = choose|column_ids: Seq<u32>, row_ids: Seq<u32>|
        imported_with(before, after, headers, grid, column_ids, row_ids);
    lemma_new_descriptors(before, after, headers, grid, column_ids, row_ids);
    let c0 = before.columns.len() as int;
    let n = grid.len() as int;
    assert forall|p: int, c: int| 0 <= p < n && c0 <= c < after.columns.len() implies {
        &&& after.cells.contains_key(#[trigger] joined_key(after, p, c))
        &&& after.cells[joined_key(after, p, c)] == scalar_of(grid[n - 1 - p][c - c0])
    } by {
        assert(record_row(after.rows[p]).unwrap().id == row_ids[n - 1 - p] as i64);
        assert(record_column(after.columns[c]).unwrap().id == column_ids[c - c0] as i64);
        assert(joined_key(after, p, c) == key_of(row_ids, column_ids, n - 1 - p, c - c0));
        assert(filled(n - 1 - p, c - c0, n, 0));
    }
}

/// Join, as a row of a pass sees it: after an import into a table without columns, the
/// row that a pass over the table yields for display position `p` holds a value in every
/// column, and its value in the column at position `c` is the typed value of field `c`
/// of record `n - 1 - p`.
pub proof fn law_row_join(
    before: TableView,
    after: TableView,
    headers: Seq<Seq<char>>,
    grid: Seq<Seq<Seq<char>>>,
    row: Row<'_, '_>,
    p: int,
)
    requires
        imported(before, after, headers, grid),
        before.columns.len() == 0,
        0 <= p < grid.len(),
        record_row(after.rows[p]) == Some(row.info()),
        row.column_ids() == column_ids_of(after),
        row.cells() == after.cells,
    ensures
        row.complete(),
        row.column_ids().len() == headers.len(),
        forall|c: int|
            0 <= c < headers.len() ==> row.cells()[#[trigger] row.key(c)] == scalar_of(
                grid[grid.len() - 1 - p][c],
            ),
{
    law_join(before, after, headers, grid);
    assert forall|c: int| 0 <= c < headers.len() implies row.cells().contains_key(
        #[trigger] row.key(c),
    ) && row.cells()[row.key(c)] == scalar_of(grid[grid.len() - 1 - p][c]) by {
        assert(row.key(c) == joined_key(after, p, c));
    }
}

/// Reverse order: after an import into a table without rows, the rows in display order
/// are the records in the reverse of their input order, under the identifiers that the
/// import gave them.
pub proof fn law_reverse_order(
    before: TableView,
    after: TableView,
    headers: Seq<Seq<char>>,
    grid: Seq<Seq<Seq<char>>>,
    column_ids: Seq<u32>,
    row_ids: Seq<u32>,
)
    requires
        imported_with(before, after, headers, grid, column_ids, row_ids),
        before.rows.len() == 0,
    ensures
        after.rows.len() == grid.len(),
        forall|p: int|
            0 <= p < grid.len() ==> row_id(#[trigger] after.rows[p]) == row_ids[grid.len() - 1
                - p],
{
    lemma_new_descriptors(before, after, headers, grid, column_ids, row_ids);
}

/// The keys of the cells of an import, row by row.
spec fn key_list(row_ids: Seq<u32>, column_ids: Seq<u32>) -> Seq<Seq<char>> {
    Seq::new(
        row_ids.len() * column_ids.len(),
        |k: int| key_of(row_ids, column_ids, k / (column_ids.len() as int), k % (column_ids.len() as int)),
    )
}

/// The cells of an import have as many keys as there are rows times columns.
proof fn lemma_key_count(row_ids: Seq<u32>, column_ids: Seq<u32>, keys: Set<Seq<char>>)
    requires
        distinct(row_ids),
        distinct(column_ids),
        forall|key: Seq<char>|
            keys.contains(key) <==> is_filled_key(key, row_ids, column_ids, row_ids.len() as int, 0),
    ensures
        keys.finite(),
        keys.len() == row_ids.len() * column_ids.len(),
{
    let n = row_ids.len() as int;
    let m = column_ids.len() as int;
    let list = key_list(row_ids, column_ids);
    if m == 0 {
        assert(n * m == 0) by (nonlinear_arith)
            requires
                m == 0,
        ;
        assert(keys =~= Set::empty());
    } else {
        assert forall|k: int| 0 <= k < n * m implies 0 <= #[trigger] (k / m) < n && 0 <= k % m < m by {
            lemma_fundamental_div_mod(k, m);
            lemma_mod_pos_bound(k, m);
            assert(0 <= k / m < n) by (nonlinear_arith)
                requires
                    0 <= k < n * m,
                    m > 0,
                    k == m * (k / m) + k % m,
                    0 <= k % m < m,
            ;
        }
        assert forall|k1: int, k2: int| 0 <= k1 < list.len() && 0 <= k2 < list.len() && k1 != k2 implies list[k1] != list[k2] by {
            lemma_fundamental_div_mod(k1, m);
            lemma_fundamental_div_mod(k2, m);
            assert(0 <= k1 / m < n && 0 <= k1 % m < m);
            assert(0 <= k2 / m < n && 0 <= k2 % m < m);
            lemma_keys_differ(row_ids, column_ids, k1 / m, k1 % m, k2 / m, k2 % m);
        }
        assert(list.no_duplicates());
        list.unique_seq_to_set();
        assert forall|key: Seq<char>| keys.contains(key) <==> list.to_set().contains(key) by {
            if keys.contains(key) {
                let (a, b) = choose|a: int, b: int|
                    0 <= a < row_ids.len() && 0 <= b < column_ids.len() && filled(a, b, n, 0)
                        && key == #[trigger] key_of(row_ids, column_ids, a, b);
                let k = a * m + b;
                lemma_fundamental_div_mod_converse(k, m, a, b);
                assert(0 <= k < n * m) by (nonlinear_arith)
                    requires
                        0 <= a < n,
                        0 <= b < m,
                        k == a * m + b,
                ;
                assert(list[k] == key);
                assert(list.contains(key));
            }
            if list.to_set().contains(key) {
                let k = choose|k: int| 0 <= k < list.len() && list[k] == key;
                assert(0 <= k / m < n && 0 <= k % m < m);
                assert(filled(k / m, k % m, n, 0));
                assert(key == key_of(row_ids, column_ids, k / m, k % m));
            }
        }
        assert(keys =~= list.to_set());
        vstd::seq_lib::seq_to_set_is_finite(list);
    }
}

/// Cardinality: after `n` records with `m` header fields are imported into an empty
/// table, the table has `n` rows, `m` columns and exactly `n * m` cells.
pub proof fn law_cardinality(
    before: TableView,
    after: TableView,
    headers: Seq<Seq<char>>,
    grid: Seq<Seq<Seq<char>>>,
)
    requires
        imported(before, after, headers, grid),
        before.columns.len() == 0,
        before.rows.len() == 0,
        before.cells.dom() == Set::<Seq<char>>::empty(),
    ensures
        after.rows.len() == grid.len(),
        after.columns.len() == headers.len(),
        after.cells.dom().finite(),
        after.cells.dom().len() == grid.len() * headers.len(),
{
    let (column_ids, row_ids) = choose|column_ids: Seq<u32>, row_ids: Seq<u32>|
        imported_with(before, after, headers, grid, column_ids, row_ids);
    lemma_new_descriptors(before, after, headers, grid, column_ids, row_ids);
    let n = grid.len() as int;
    assert forall|key: Seq<char>| after.cells.dom().contains(key) <==> is_filled_key(
        key,
        row_ids,
        column_ids,
        n,
        0,
    ) by {
        if is_filled_key(key, row_ids, column_ids, n, 0) {
            let (a, b) = choose|a: int, b: int|
                0 <= a < row_ids.len() && 0 <= b < column_ids.len() && filled(a, b, n, 0) && key
                    == #[trigger] key_of(row_ids, column_ids, a, b);
            assert(after.cells.contains_key(key_of(row_ids, column_ids, a, b)));
        }
        if after.cells.dom().contains(key) {
            assert(after.cells.contains_key(key));
            assert(!before.cells.contains_key(key));
        }
    }
    lemma_key_count(row_ids, column_ids, after.cells.dom());
}

} // verus!
