//! The table: column descriptors, row descriptors and a cell store, all kept in one
//! document, with the import that fills them and the queries that read them back.

use crate::descriptor::{
    column_fields, read_column, record_column, row_fields, Column, DEFAULT_HEIGHT, DEFAULT_WIDTH,
};
use crate::ident::{lemma_ids_finite, next_unique_id};
use crate::key::cell_key;
use crate::model::{
    cells_filled, column_ids_of, column_records, column_views, columns_of, columns_readable,
    distinct, grid_of, importable, imported, imported_with, lemma_fill_cell, lemma_fill_row,
    rectangular, row_records, texts, TableView,
};
use crate::rows::Rows;
use crate::scalar::parse;
use crate::store::{
    array_in_place, array_insert, array_is_removed, array_len, array_len_read, array_records,
    array_records_read, array_removed, array_same, array_slot, beside, child_entries, child_kept,
    child_records, child_same, map_entries, map_entries_read, map_in_place, map_insert,
    map_is_removed, map_removed, map_same, map_slot, open_array, open_map, Snapshot,
};
use std::collections::HashSet;
use vstd::pervasive::unreached;
use vstd::prelude::*;

verus! {

broadcast use vstd::std_specs::hash::group_hash_axioms;

/// A table inside a document: handles on the map that holds it, on its column sequence,
/// on its row sequence and on its cell store.
pub struct Table {
    root: yrs::MapRef,
    cols: yrs::ArrayRef,
    rows: yrs::ArrayRef,
    cells: yrs::MapRef,
}

/// The keys of the three containers differ from one another.
proof fn lemma_container_keys()
    ensures
        "cols"@ != "rows"@,
        "cols"@ != "cells"@,
        "rows"@ != "cells"@,
{
    reveal_strlit("cols");
    reveal_strlit("rows");
    reveal_strlit("cells");
    assert("cols"@.len() == 4);
    assert("rows"@.len() == 4);
    assert("cells"@.len() == 5);
    assert("cols"@[0] == 'c');
    assert("rows"@[0] == 'r');
}

impl Table {
    /// The three containers sit in the map that holds the table, under the keys `cols`,
    /// `rows` and `cells`.
    #[verifier::type_invariant]
    spec fn wf(self) -> bool {
        &&& array_slot(&self.cols) == Some((self.root, "cols"@))
        &&& array_slot(&self.rows) == Some((self.root, "rows"@))
        &&& map_slot(&self.cells) == Some((self.root, "cells"@))
    }

    /// What `txn` sees of this table.
    pub closed spec fn state(&self, txn: &yrs::TransactionMut<'_>) -> TableView {
        TableView {
            columns: array_records(txn, &self.cols),
            rows: array_records(txn, &self.rows),
            cells: map_entries(txn, &self.cells),
        }
    }

    /// What a read-only transaction sees of this table.
    pub closed spec fn state_read(&self, txn: &yrs::Transaction<'_>) -> TableView {
        TableView {
            columns: array_records_read(txn, &self.cols),
            rows: array_records_read(txn, &self.rows),
            cells: map_entries_read(txn, &self.cells),
        }
    }

    /// What a transaction of either kind sees of this table.
    spec fn state_at(&self, view: Snapshot<'_, '_>) -> TableView {
        TableView {
            columns: view.records(&self.cols),
            rows: view.records(&self.rows),
            cells: view.entries(&self.cells),
        }
    }

    /// The map that holds the table.
    pub closed spec fn root(&self) -> yrs::MapRef {
        self.root
    }

    /// True where the table is part of the document as `txn` sees it: none of its three
    /// containers has been removed, and each is what the map that holds the table holds
    /// under its key.
    pub closed spec fn live(&self, txn: &yrs::TransactionMut<'_>) -> bool {
        &&& self.wf()
        &&& !array_removed(txn, &self.cols)
        &&& !array_removed(txn, &self.rows)
        &&& !map_removed(txn, &self.cells)
        &&& array_in_place(txn, &self.cols)
        &&& array_in_place(txn, &self.rows)
        &&& map_in_place(txn, &self.cells)
    }

    /// The table that `txn` finds in `root`: the records of the array under `cols`, the
    /// records of the array under `rows` and the entries of the map under `cells`, each
    /// empty where `root` holds no such container.
    pub open spec fn found(txn: &yrs::TransactionMut<'_>, root: &yrs::MapRef) -> TableView {
        TableView {
            columns: match child_records(txn, root, "cols"@) {
                Some(records) => records,
                None => Seq::empty(),
            },
            rows: match child_records(txn, root, "rows"@) {
                Some(records) => records,
                None => Seq::empty(),
            },
            cells: match child_entries(txn, root, "cells"@) {
                Some(entries) => entries,
                None => Map::empty(),
            },
        }
    }

    /// True where `txn` finds all three containers of a table in `root`.
    pub open spec fn present(txn: &yrs::TransactionMut<'_>, root: &yrs::MapRef) -> bool {
        &&& child_records(txn, root, "cols"@) is Some
        &&& child_records(txn, root, "rows"@) is Some
        &&& child_entries(txn, root, "cells"@) is Some
    }

    /// A table that is part of the document is the table found in the map that holds
    /// it, so opening a table there again finds the same columns, rows and cells and
    /// writes nothing.
    pub proof fn lemma_found(&self, txn: &yrs::TransactionMut<'_>)
        requires
            self.live(txn),
        ensures
            Table::present(txn, &self.root()),
            Table::found(txn, &self.root()) == self.state(txn),
    {
    }

    /// The containers of a table sit beside one another.
    proof fn lemma_beside(self)
        requires
            self.wf(),
        ensures
            beside(array_slot(&self.cols), array_slot(&self.rows)),
            beside(array_slot(&self.rows), array_slot(&self.cols)),
            beside(array_slot(&self.cols), map_slot(&self.cells)),
            beside(array_slot(&self.rows), map_slot(&self.cells)),
            beside(map_slot(&self.cells), array_slot(&self.cols)),
            beside(map_slot(&self.cells), array_slot(&self.rows)),
    {
        lemma_container_keys();
    }

    /// Writing to the column sequence leaves the rest of a live table live and as it was.
    proof fn lemma_columns_written(
        self,
        before: &yrs::TransactionMut<'_>,
        after: &yrs::TransactionMut<'_>,
    )
        requires
            self.wf(),
            self.live(before),
            !array_removed(after, &self.cols),
            array_in_place(after, &self.cols),
            array_same(before, after, &self.rows),
            map_same(before, after, &self.cells),
            child_kept(before, after, array_slot(&self.cols), "rows"@),
            child_kept(before, after, array_slot(&self.cols), "cells"@),
        ensures
            self.live(after),
            self.state(after).rows == self.state(before).rows,
            self.state(after).cells == self.state(before).cells,
    {
        lemma_container_keys();
    }

    /// Writing to the row sequence leaves the rest of a live table live and as it was.
    proof fn lemma_rows_written(
        self,
        before: &yrs::TransactionMut<'_>,
        after: &yrs::TransactionMut<'_>,
    )
        requires
            self.wf(),
            self.live(before),
            !array_removed(after, &self.rows),
            array_in_place(after, &self.rows),
            array_same(before, after, &self.cols),
            map_same(before, after, &self.cells),
            child_kept(before, after, array_slot(&self.rows), "cols"@),
            child_kept(before, after, array_slot(&self.rows), "cells"@),
        ensures
            self.live(after),
            self.state(after).columns == self.state(before).columns,
            self.state(after).cells == self.state(before).cells,
    {
        lemma_container_keys();
    }

    /// Writing to the cell store leaves the rest of a live table live and as it was.
    proof fn lemma_cells_written(
        self,
        before: &yrs::TransactionMut<'_>,
        after: &yrs::TransactionMut<'_>,
    )
        requires
            self.wf(),
            self.live(before),
            !map_removed(after, &self.cells),
            map_in_place(after, &self.cells),
            array_same(before, after, &self.cols),
            array_same(before, after, &self.rows),
            child_kept(before, after, map_slot(&self.cells), "cols"@),
            child_kept(before, after, map_slot(&self.cells), "rows"@),
        ensures
            self.live(after),
            self.state(after).columns == self.state(before).columns,
            self.state(after).rows == self.state(before).rows,
    {
        lemma_container_keys();
    }

    /// Opens the table that is kept in `root`: its column sequence under `cols`, its row
    /// sequence under `rows` and its cell store under `cells`. What `root` holds of them
    /// is kept, and what it does not hold is made empty; where it holds all three,
    /// nothing is written. `root` must not have been removed from the document.
    pub fn new(root: yrs::MapRef, txn: &mut yrs::TransactionMut<'_>) -> (table: Table)
        requires
            !map_removed(old(txn), &root),
        ensures
            table.root() == root,
            table.live(final(txn)),
            table.state(final(txn)) == Table::found(old(txn), &root),
            Table::present(old(txn), &root) ==> *final(txn) == *old(txn),
            !map_removed(final(txn), &root),
    {
        proof {
            lemma_container_keys();
        }
        let cols = open_array(&root, txn, "cols");
        let ghost first = &*txn;
        let rows = open_array(&root, txn, "rows");
        let ghost second = &*txn;
        proof {
            assert(array_same(first, second, &cols));
            assert(child_same(old(txn), first, &root, "rows"@));
            assert(child_same(old(txn), first, &root, "cells"@));
            assert(child_same(first, second, &root, "cols"@));
            assert(child_same(first, second, &root, "cells"@));
        }
        let cells = open_map(&root, txn, "cells");
        proof {
            assert(array_same(second, &*txn, &cols));
            assert(array_same(second, &*txn, &rows));
            assert(child_same(second, &*txn, &root, "cols"@));
            assert(child_same(second, &*txn, &root, "rows"@));
        }
        Table { root, cols, rows, cells }
    }

    /// Opens the table that is kept in `root` as [`Table::new`] does, unless `root` has
    /// been removed from the document: then nothing is written and `None` is returned.
    pub fn open(root: yrs::MapRef, txn: &mut yrs::TransactionMut<'_>) -> (r: Option<Table>)
        ensures
            match r {
                Some(table) => {
                    &&& !map_removed(old(txn), &root)
                    &&& table.root() == root
                    &&& table.live(final(txn))
                    &&& table.state(final(txn)) == Table::found(old(txn), &root)
                    &&& Table::present(old(txn), &root) ==> *final(txn) == *old(txn)
                },
                None => map_removed(old(txn), &root) && *final(txn) == *old(txn),
            },
    {
        if map_is_removed(&root, txn) {
            None
        } else {
            Some(Table::new(root, txn))
        }
    }

    /// Tells whether the table is part of the document as `txn` sees it.
    pub fn is_live(&self, txn: &yrs::TransactionMut<'_>) -> (live: bool)
        ensures
            live == self.live(txn),
    {
        proof {
            use_type_invariant(self);
        }
        !array_is_removed(&self.cols, txn) && !array_is_removed(&self.rows, txn) && !map_is_removed(
            &self.cells,
            txn,
        )
    }

    /// The number of rows.
    pub fn row_count(&self, txn: &yrs::TransactionMut<'_>) -> (count: u32)
        ensures
            count == self.state(txn).rows.len(),
    {
        array_len(&self.rows, txn)
    }

    /// The number of columns.
    pub fn col_count(&self, txn: &yrs::TransactionMut<'_>) -> (count: u32)
        ensures
            count == self.state(txn).columns.len(),
    {
        array_len(&self.cols, txn)
    }

    /// Appends one column for each header, in order, and returns their fresh identifiers.
    fn import_columns(&self, txn: &mut yrs::TransactionMut<'_>, headers: &Vec<String>) -> (ids: Vec<
        u32,
    >)
        requires
            self.live(old(txn)),
            self.state(old(txn)).columns.len() + headers.len() <= u32::MAX,
        ensures
            self.live(final(txn)),
            ids.len() == headers.len(),
            distinct(ids@),
            self.state(final(txn)).columns == self.state(old(txn)).columns + column_records(
                ids@,
                texts(headers@),
            ),
            self.state(final(txn)).rows == self.state(old(txn)).rows,
            self.state(final(txn)).cells == self.state(old(txn)).cells,
    {
        proof {
            use_type_invariant(self);
        }
        let mut ids: Vec<u32> = Vec::new();
        let mut used: HashSet<u32> = HashSet::new();
        let mut j: usize = 0;
        while j < headers.len()
            invariant
                self.wf(),
                self.live(&*txn),
                j <= headers.len(),
                ids.len() == j,
                distinct(ids@),
                used@.len() == j,
                forall|a: int| 0 <= a < j ==> used@.contains(#[trigger] ids[a]),
                self.state(old(txn)).columns.len() + headers.len() <= u32::MAX,
                self.state(&*txn).columns == self.state(old(txn)).columns + column_records(
                    ids@,
                    texts(headers@),
                ),
                self.state(&*txn).rows == self.state(old(txn)).rows,
                self.state(&*txn).cells == self.state(old(txn)).cells,
            decreases headers.len() - j,
        {
            proof {
                lemma_ids_finite(used@);
                (*self).lemma_beside();
            }
            let id = next_unique_id(&mut used);
            let len = array_len(&self.cols, txn);
            let ghost before = &*txn;
            array_insert(
                &self.cols,
                txn,
                len,
                column_fields(id as i64, headers[j].as_str(), DEFAULT_WIDTH),
            );
            ids.push(id);
            proof {
                assert(array_same(before, &*txn, &self.rows));
                assert(map_same(before, &*txn, &self.cells));
                assert(child_kept(before, &*txn, array_slot(&self.cols), "rows"@));
                assert(child_kept(before, &*txn, array_slot(&self.cols), "cells"@));
                (*self).lemma_columns_written(before, &*txn);
                assert(self.state(&*txn).columns =~= self.state(old(txn)).columns + column_records(
                    ids@,
                    texts(headers@),
                ));
            }
            j = j + 1;
        }
        ids
    }

    /// Puts one new row in front of the rows for each of `n` records, and returns their
    /// fresh identifiers in the order of the records.
    fn import_rows(&self, txn: &mut yrs::TransactionMut<'_>, n: usize) -> (ids: Vec<u32>)
        requires
            self.live(old(txn)),
            self.state(old(txn)).rows.len() + n <= u32::MAX,
        ensures
            self.live(final(txn)),
            ids.len() == n,
            distinct(ids@),
            self.state(final(txn)).rows == row_records(ids@) + self.state(old(txn)).rows,
            self.state(final(txn)).columns == self.state(old(txn)).columns,
            self.state(final(txn)).cells == self.state(old(txn)).cells,
    {
        proof {
            use_type_invariant(self);
        }
        let mut ids: Vec<u32> = Vec::new();
        let mut used: HashSet<u32> = HashSet::new();
        let mut i: usize = 0;
        while i < n
            invariant
                self.wf(),
                self.live(&*txn),
                i <= n,
                ids.len() == i,
                distinct(ids@),
                used@.len() == i,
                forall|a: int| 0 <= a < i ==> used@.contains(#[trigger] ids[a]),
                self.state(old(txn)).rows.len() + n <= u32::MAX,
                self.state(&*txn).rows == row_records(ids@) + self.state(old(txn)).rows,
                self.state(&*txn).columns == self.state(old(txn)).columns,
                self.state(&*txn).cells == self.state(old(txn)).cells,
            decreases n - i,
        {
            proof {
                lemma_ids_finite(used@);
                (*self).lemma_beside();
            }
            let id = next_unique_id(&mut used);
            let ghost before = &*txn;
            array_insert(&self.rows, txn, 0, row_fields(id as i64, DEFAULT_HEIGHT));
            ids.push(id);
            proof {
                assert(array_same(before, &*txn, &self.cols));
                assert(map_same(before, &*txn, &self.cells));
                assert(child_kept(before, &*txn, array_slot(&self.rows), "cols"@));
                assert(child_kept(before, &*txn, array_slot(&self.rows), "cells"@));
                (*self).lemma_rows_written(before, &*txn);
                assert(self.state(&*txn).rows =~= row_records(ids@) + self.state(old(txn)).rows);
            }
            i = i + 1;
        }
        ids
    }

    /// Writes every field of `records` to the cell of its row and column, row by row,
    /// and returns the number of cells written.
    fn import_cells(
        &self,
        txn: &mut yrs::TransactionMut<'_>,
        records: &Vec<Vec<String>>,
        row_ids: &Vec<u32>,
        column_ids: &Vec<u32>,
    ) -> (count: u32)
        requires
            self.live(old(txn)),
            row_ids.len() == records.len(),
            rectangular(grid_of(records@), column_ids.len() as nat),
            distinct(row_ids@),
            distinct(column_ids@),
            records.len() * column_ids.len() <= u32::MAX,
        ensures
            self.live(final(txn)),
            count == records.len() * column_ids.len(),
            self.state(final(txn)).columns == self.state(old(txn)).columns,
            self.state(final(txn)).rows == self.state(old(txn)).rows,
            cells_filled(
                self.state(old(txn)).cells,
                self.state(final(txn)).cells,
                row_ids@,
                column_ids@,
                grid_of(records@),
                records.len() as int,
                0,
            ),
    {
        proof {
            use_type_invariant(self);
        }
        let n = records.len();
        let m = column_ids.len();
        let mut count: u32 = 0;
        let mut i: usize = 0;
        while i < n
            invariant
                self.wf(),
                self.live(&*txn),
                n == records.len(),
                m == column_ids.len(),
                row_ids.len() == n,
                rectangular(grid_of(records@), m as nat),
                distinct(row_ids@),
                distinct(column_ids@),
                n * m <= u32::MAX,
                i <= n,
                count == i * m,
                self.state(&*txn).columns == self.state(old(txn)).columns,
                self.state(&*txn).rows == self.state(old(txn)).rows,
                cells_filled(
                    self.state(old(txn)).cells,
                    self.state(&*txn).cells,
                    row_ids@,
                    column_ids@,
                    grid_of(records@),
                    i as int,
                    0,
                ),
            decreases n - i,
        {
            let record = &records[i];
            assert(grid_of(records@)[i as int].len() == m);
            let mut j: usize = 0;
            while j < m
                invariant
                    self.wf(),
                    self.live(&*txn),
                    n == records.len(),
                    m == column_ids.len(),
                    row_ids.len() == n,
                    *record == records@[i as int],
                    record.len() == m,
                    distinct(row_ids@),
                    distinct(column_ids@),
                    n * m <= u32::MAX,
                    i < n,
                    j <= m,
                    count == i * m + j,
                    self.state(&*txn).columns == self.state(old(txn)).columns,
                    self.state(&*txn).rows == self.state(old(txn)).rows,
                    cells_filled(
                        self.state(old(txn)).cells,
                        self.state(&*txn).cells,
                        row_ids@,
                        column_ids@,
                        grid_of(records@),
                        i as int,
                        j as int,
                    ),
                decreases m - j,
            {
                let key = cell_key(row_ids[i] as i64, column_ids[j] as i64);
                let value = parse(record[j].as_str());
                let ghost mid = self.state(&*txn).cells;
                let ghost before = &*txn;
                proof {
                    (*self).lemma_beside();
                }
                map_insert(&self.cells, txn, key.as_str(), value);
                proof {
                    assert(array_same(before, &*txn, &self.cols));
                    assert(array_same(before, &*txn, &self.rows));
                    assert(child_kept(before, &*txn, map_slot(&self.cells), "cols"@));
                    assert(child_kept(before, &*txn, map_slot(&self.cells), "rows"@));
                    (*self).lemma_cells_written(before, &*txn);
                    assert(i * m + j + 1 <= n * m) by (nonlinear_arith)
                        requires
                            i < n,
                            j < m,
                    ;
                    assert(grid_of(records@)[i as int][j as int] == record@[j as int]@);
                    lemma_fill_cell(
                        self.state(old(txn)).cells,
                        mid,
                        row_ids@,
                        column_ids@,
                        grid_of(records@),
                        i as int,
                        j as int,
                    );
                }
                count = count + 1;
                j = j + 1;
            }
            proof {
                lemma_fill_row(
                    self.state(old(txn)).cells,
                    self.state(&*txn).cells,
                    row_ids@,
                    column_ids@,
                    grid_of(records@),
                    i as int,
                );
                assert(i * m + m == (i + 1) * m) by (nonlinear_arith);
            }
            i = i + 1;
        }
        count
    }

    /// Imports a header and its records: one column for each header field, one row for
    /// each record, and one cell for each field, typed by [`parse`]. Returns the number
    /// of cells written.
    ///
    /// Columns are appended in header order. Each row is put in front of the rows that
    /// are there, so the rows of one import end up in the reverse of their input order.
    /// Identifiers are random and unique among the columns, and among the rows, of this
    /// import.
    pub fn import(
        &self,
        txn: &mut yrs::TransactionMut<'_>,
        headers: &Vec<String>,
        records: &Vec<Vec<String>>,
    ) -> (count: u32)
        requires
            self.live(old(txn)),
            importable(self.state(old(txn)), texts(headers@), grid_of(records@)),
        ensures
            self.live(final(txn)),
            count == records.len() * headers.len(),
            self.state(final(txn)).columns.len() == self.state(old(txn)).columns.len()
                + headers.len(),
            self.state(final(txn)).rows.len() == self.state(old(txn)).rows.len() + records.len(),
            imported(
                self.state(old(txn)),
                self.state(final(txn)),
                texts(headers@),
                grid_of(records@),
            ),
    {
        let column_ids = self.import_columns(txn, headers);
        let row_ids = self.import_rows(txn, records.len());
        let count = self.import_cells(txn, records, &row_ids, &column_ids);
        proof {
            assert(imported_with(
                self.state(old(txn)),
                self.state(&*txn),
                texts(headers@),
                grid_of(records@),
                column_ids@,
                row_ids@,
            ));
        }
        count
    }

    /// Tells whether `import` can take this header and these records: the table is part
    /// of the document, and the header and records fit it.
    pub fn can_import(
        &self,
        txn: &yrs::TransactionMut<'_>,
        headers: &Vec<String>,
        records: &Vec<Vec<String>>,
    ) -> (ok: bool)
        ensures
            ok == (self.live(txn) && importable(
                self.state(txn),
                texts(headers@),
                grid_of(records@),
            )),
    {
        if !self.is_live(txn) {
            return false;
        }
        let ghost grid = grid_of(records@);
        let columns = array_len(&self.cols, txn);
        let rows = array_len(&self.rows, txn);
        if headers.len() > (u32::MAX - columns) as usize {
            return false;
        }
        if records.len() > (u32::MAX - rows) as usize {
            return false;
        }
        proof {
            assert(records.len() * headers.len() <= 0xffff_ffff * 0xffff_ffff) by (nonlinear_arith)
                requires
                    records.len() <= 0xffff_ffff,
                    headers.len() <= 0xffff_ffff,
            ;
        }
        let cells = (records.len() as u64) * (headers.len() as u64);
        if cells > 0xffff_ffff {
            return false;
        }
        let mut i: usize = 0;
        while i < records.len()
            invariant
                i <= records.len(),
                grid == grid_of(records@),
                forall|a: int| 0 <= a < i ==> (#[trigger] grid[a]).len() == headers.len(),
            decreases records.len() - i,
        {
            if records[i].len() != headers.len() {
                proof {
                    assert(grid[i as int].len() != headers.len());
                }
                return false;
            }
            i = i + 1;
        }
        true
    }

    /// Imports a header and its records as [`Table::import`] does where it can take
    /// them, and else leaves the document as it is and returns `None`.
    pub fn try_import(
        &self,
        txn: &mut yrs::TransactionMut<'_>,
        headers: &Vec<String>,
        records: &Vec<Vec<String>>,
    ) -> (r: Option<u32>)
        ensures
            match r {
                Some(count) => {
                    &&& self.live(old(txn))
                    &&& self.live(final(txn))
                    &&& importable(self.state(old(txn)), texts(headers@), grid_of(records@))
                    &&& count == records.len() * headers.len()
                    &&& imported(
                        self.state(old(txn)),
                        self.state(final(txn)),
                        texts(headers@),
                        grid_of(records@),
                    )
                },
                None => {
                    &&& !(self.live(old(txn)) && importable(
                        self.state(old(txn)),
                        texts(headers@),
                        grid_of(records@),
                    ))
                    &&& *final(txn) == *old(txn)
                },
            },
    {
        if self.can_import(txn, headers, records) {
            Some(self.import(txn, headers, records))
        } else {
            None
        }
    }

    /// The columns that `view` sees, or `None` where a column record does not stand for a
    /// column.
    fn columns_at(&self, view: Snapshot<'_, '_>) -> (r: Option<Vec<Column>>)
        ensures
            match r {
                Some(columns) => columns_readable(self.state_at(view)) && column_views(columns@)
                    == columns_of(self.state_at(view)),
                None => !columns_readable(self.state_at(view)),
            },
    {
        let len = view.len(&self.cols);
        let mut columns: Vec<Column> = Vec::new();
        let mut j: u32 = 0;
        while j < len
            invariant
                len == self.state_at(view).columns.len(),
                j <= len,
                columns.len() == j,
                forall|b: int|
                    0 <= b < j ==> record_column(#[trigger] self.state_at(view).columns[b])
                        == Some(columns[b]@),
            decreases len - j,
        {
            let record = match view.element(&self.cols, j) {
                Some(record) => record,
                None => {
                    proof {
                        assert(record_column(self.state_at(view).columns[j as int]) is None);
                    }
                    return None;
                },
            };
            match read_column(&record, view) {
                Some(column) => {
                    columns.push(column);
                },
                None => {
                    proof {
                        assert(record_column(self.state_at(view).columns[j as int]) is None);
                    }
                    return None;
                },
            }
            j = j + 1;
        }
        proof {
            assert(column_views(columns@) =~= columns_of(self.state_at(view)));
        }
        Some(columns)
    }

    /// A pass over the rows that `view` sees, given the columns that it sees.
    fn rows_at<'a, 'doc>(&'a self, view: Snapshot<'a, 'doc>, columns: Vec<Column>) -> (rows: Rows<
        'a,
        'doc,
    >)
        requires
            columns_readable(self.state_at(view)),
            column_views(columns@) == columns_of(self.state_at(view)),
        ensures
            rows.position() == 0,
            rows.records() == self.state_at(view).rows,
            rows.cells() == self.state_at(view).cells,
            rows.column_ids() == column_ids_of(self.state_at(view)),
    {
        let mut column_ids: Vec<i64> = Vec::new();
        let mut j: usize = 0;
        while j < columns.len()
            invariant
                j <= columns.len(),
                column_ids.len() == j,
                forall|b: int| 0 <= b < j ==> column_ids[b] == columns[b].id,
            decreases columns.len() - j,
        {
            column_ids.push(columns[j].id);
            j = j + 1;
        }
        proof {
            let state = self.state_at(view);
            assert(column_views(columns@).len() == columns_of(state).len());
            assert forall|b: int| 0 <= b < columns.len() implies column_ids[b] == column_ids_of(
                state,
            )[b] by {
                assert(column_views(columns@)[b] == columns@[b]@);
                assert(columns_of(state)[b] == record_column(state.columns[b]).unwrap());
            }
            assert(column_ids@ =~= column_ids_of(state));
        }
        Rows::start(view, &self.rows, &self.cells, column_ids, view.len(&self.rows))
    }

    /// The columns in display order, or `None` where a column record does not stand for
    /// a column.
    pub fn try_columns(&self, txn: &yrs::TransactionMut<'_>) -> (r: Option<Vec<Column>>)
        ensures
            match r {
                Some(columns) => columns_readable(self.state(txn)) && column_views(columns@)
                    == columns_of(self.state(txn)),
                None => !columns_readable(self.state(txn)),
            },
    {
        self.columns_at(Snapshot::Write(txn))
    }

    /// The columns in display order. Every column record has to stand for a column.
    pub fn columns(&self, txn: &yrs::TransactionMut<'_>) -> (columns: Vec<Column>)
        requires
            columns_readable(self.state(txn)),
        ensures
            column_views(columns@) == columns_of(self.state(txn)),
    {
        match self.try_columns(txn) {
            Some(columns) => columns,
            None => unreached(),
        }
    }

    /// A pass over the rows in display order, the row imported last first. Every column
    /// record has to stand for a column.
    pub fn rows<'a, 'doc>(&'a self, txn: &'a yrs::TransactionMut<'doc>) -> (rows: Rows<'a, 'doc>)
        requires
            columns_readable(self.state(txn)),
        ensures
            rows.position() == 0,
            rows.records() == self.state(txn).rows,
            rows.cells() == self.state(txn).cells,
            rows.column_ids() == column_ids_of(self.state(txn)),
    {
        let columns = self.columns(txn);
        self.rows_at(Snapshot::Write(txn), columns)
    }

    /// The number of rows that a read-only transaction sees.
    pub fn row_count_read(&self, txn: &yrs::Transaction<'_>) -> (count: u32)
        ensures
            count == self.state_read(txn).rows.len(),
    {
        array_len_read(&self.rows, txn)
    }

    /// The number of columns that a read-only transaction sees.
    pub fn col_count_read(&self, txn: &yrs::Transaction<'_>) -> (count: u32)
        ensures
            count == self.state_read(txn).columns.len(),
    {
        array_len_read(&self.cols, txn)
    }

    /// The columns that a read-only transaction sees, in display order, or `None` where
    /// a column record does not stand for a column.
    pub fn try_columns_read(&self, txn: &yrs::Transaction<'_>) -> (r: Option<Vec<Column>>)
        ensures
            match r {
                Some(columns) => columns_readable(self.state_read(txn)) && column_views(columns@)
                    == columns_of(self.state_read(txn)),
                None => !columns_readable(self.state_read(txn)),
            },
    {
        self.columns_at(Snapshot::Read(txn))
    }

    /// The columns that a read-only transaction sees, in display order. Every column
    /// record has to stand for a column.
    pub fn columns_read(&self, txn: &yrs::Transaction<'_>) -> (columns: Vec<Column>)
        requires
            columns_readable(self.state_read(txn)),
        ensures
            column_views(columns@) == columns_of(self.state_read(txn)),
    {
        match self.try_columns_read(txn) {
            Some(columns) => columns,
            None => unreached(),
        }
    }

    /// A pass over the rows that a read-only transaction sees, in display order. Every
    /// column record has to stand for a column.
    pub fn rows_read<'a, 'doc>(&'a self, txn: &'a yrs::Transaction<'doc>) -> (rows: Rows<'a, 'doc>)
        requires
            columns_readable(self.state_read(txn)),
        ensures
            rows.position() == 0,
            rows.records() == self.state_read(txn).rows,
            rows.cells() == self.state_read(txn).cells,
            rows.column_ids() == column_ids_of(self.state_read(txn)),
    {
        let columns = self.columns_read(txn);
        self.rows_at(Snapshot::Read(txn), columns)
    }
}

} // verus!
