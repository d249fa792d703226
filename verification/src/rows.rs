//! Reading a table row by row: a pass over the rows, and the rows it yields.

use crate::descriptor::{read_row, record_row, RowInfo};
use crate::key::{cell_key, cell_key_spec};
use crate::scalar::{out_view, Value};
use crate::store::Snapshot;
use vstd::pervasive::unreached;
use vstd::prelude::*;

verus! {

/// A lazy pass over the rows of a table, in display order, inside one transaction. It
/// covers the rows that were there when it was made.
pub struct Rows<'a, 'doc> {
    view: Snapshot<'a, 'doc>,
    rows: &'a yrs::ArrayRef,
    cells: &'a yrs::MapRef,
    column_ids: Vec<i64>,
    position: u32,
    len: u32,
}

/// One row of a table, with what is needed to look its cells up.
pub struct Row<'a, 'doc> {
    pub row_info: RowInfo,
    column_ids: Vec<i64>,
    cells: &'a yrs::MapRef,
    view: Snapshot<'a, 'doc>,
}

/// What a pass reports when the record at `position` of the row sequence does not stand
/// for a row.
pub struct MalformedRow {
    pub position: u32,
}

fn copy_ids(ids: &Vec<i64>) -> (copy: Vec<i64>)
    ensures
        copy@ == ids@,
{
    let mut copy: Vec<i64> = Vec::new();
    let mut j: usize = 0;
    while j < ids.len()
        invariant
            j <= ids.len(),
            copy@ == ids@.take(j as int),
        decreases ids.len() - j,
    {
        copy.push(ids[j]);
        proof {
            assert(copy@ =~= ids@.take(j + 1));
        }
        j = j + 1;
    }
    proof {
        assert(ids@.take(ids.len() as int) =~= ids@);
    }
    copy
}

impl<'a, 'doc> Row<'a, 'doc> {
    /// The cell store that this row reads.
    pub closed spec fn cells(&self) -> Map<Seq<char>, Value> {
        self.view.entries(self.cells)
    }

    /// The identifiers of the columns of this row, in display order.
    pub closed spec fn column_ids(&self) -> Seq<i64> {
        self.column_ids@
    }

    /// The descriptor of this row (the field `row_info`).
    pub closed spec fn info(&self) -> RowInfo {
        self.row_info
    }

    /// The descriptor of this row.
    pub fn row_info(&self) -> (info: &RowInfo)
        ensures
            *info == self.info(),
    {
        &self.row_info
    }

    /// The key of this row's cell in the column at position `j`.
    pub open spec fn key(&self, j: int) -> Seq<char> {
        cell_key_spec(self.info().id, self.column_ids()[j])
    }

    /// True where the cell store holds something for this row in every column.
    pub open spec fn complete(&self) -> bool {
        forall|j: int| 0 <= j < self.column_ids().len() ==> self.cells().contains_key(self.key(j))
    }

    /// The values of this row, one for each column in display order, or `None` where
    /// the cell store holds nothing for this row in some column.
    pub fn try_raw(&self) -> (r: Option<Vec<yrs::Out>>)
        ensures
            match r {
                Some(values) => {
                    &&& self.complete()
                    &&& values.len() == self.column_ids().len()
                    &&& forall|j: int|
                        0 <= j < values.len() ==> out_view(&#[trigger] values[j])
                            == self.cells()[self.key(j)]
                },
                None => !self.complete(),
            },
    {
        let mut values: Vec<yrs::Out> = Vec::new();
        let mut j: usize = 0;
        while j < self.column_ids.len()
            invariant
                j <= self.column_ids.len(),
                values.len() == j,
                forall|b: int| 0 <= b < j ==> self.cells().contains_key(self.key(b)),
                forall|b: int|
                    0 <= b < j ==> out_view(&#[trigger] values[b]) == self.cells()[self.key(b)],
            decreases self.column_ids.len() - j,
        {
            let key = cell_key(self.row_info.id, self.column_ids[j]);
            match self.view.get(self.cells, key.as_str()) {
                Some(value) => {
                    values.push(value);
                },
                None => {
                    proof {
                        assert(!self.cells().contains_key(self.key(j as int)));
                    }
                    return None;
                },
            }
            j = j + 1;
        }
        Some(values)
    }

    /// The values of this row, one for each column in display order. The cell store has
    /// to hold a plain value for this row in every column.
    pub fn raw(&self) -> (values: Vec<yrs::Out>)
        requires
            self.complete(),
        ensures
            values.len() == self.column_ids().len(),
            forall|j: int|
                0 <= j < values.len() ==> out_view(&#[trigger] values[j]) == self.cells()[self.key(
                    j,
                )],
    {
        match self.try_raw() {
            Some(values) => values,
            None => unreached(),
        }
    }
}

impl<'a, 'doc> Rows<'a, 'doc> {
    /// A pass that starts at the first of the `len` rows of `rows`.
    pub(crate) fn start(
        view: Snapshot<'a, 'doc>,
        rows: &'a yrs::ArrayRef,
        cells: &'a yrs::MapRef,
        column_ids: Vec<i64>,
        len: u32,
    ) -> (pass: Self)
        requires
            len == view.records(rows).len(),
        ensures
            pass.position() == 0,
            pass.records() == view.records(rows),
            pass.cells() == view.entries(cells),
            pass.column_ids() == column_ids@,
    {
        Rows { view, rows, cells, column_ids, position: 0, len }
    }

    /// The pass knows how many rows there are and has not gone beyond them.
    #[verifier::type_invariant]
    spec fn wf(self) -> bool {
        &&& self.len == self.view.records(self.rows).len()
        &&& self.position <= self.len
    }

    /// The records of the rows that this pass covers, in display order.
    pub closed spec fn records(&self) -> Seq<Map<Seq<char>, Value>> {
        self.view.records(self.rows)
    }

    /// The cell store that the rows of this pass read.
    pub closed spec fn cells(&self) -> Map<Seq<char>, Value> {
        self.view.entries(self.cells)
    }

    /// The identifiers of the columns, in display order.
    pub closed spec fn column_ids(&self) -> Seq<i64> {
        self.column_ids@
    }

    /// The number of rows that this pass has gone over.
    pub closed spec fn position(&self) -> nat {
        self.position as nat
    }

    /// True where the pass is at the end of the rows.
    pub open spec fn at_end(&self) -> bool {
        self.position() >= self.records().len()
    }

    /// The row that the record at the position of the pass stands for, if it stands for
    /// one.
    pub open spec fn current(&self) -> Option<RowInfo> {
        record_row(self.records()[self.position() as int])
    }

    /// Goes on to the next row and returns it: `Ok(None)` at the end, and an error for a
    /// record that does not stand for a row. The pass moves beyond such a record, so it
    /// can be taken up after the error.
    pub fn try_next(&mut self) -> (r: Result<Option<Row<'a, 'doc>>, MalformedRow>)
        ensures
            final(self).records() == old(self).records(),
            final(self).cells() == old(self).cells(),
            final(self).column_ids() == old(self).column_ids(),
            old(self).at_end() ==> (r matches Ok(None)) && final(self).position() == old(
                self,
            ).position(),
            !old(self).at_end() ==> {
                &&& final(self).position() == old(self).position() + 1
                &&& match old(self).current() {
                    Some(info) => {
                        &&& r matches Ok(Some(row))
                        &&& row.info() == info
                        &&& row.column_ids() == old(self).column_ids()
                        &&& row.cells() == old(self).cells()
                    },
                    None => {
                        &&& r matches Err(error)
                        &&& error.position == old(self).position()
                    },
                }
            },
    {
        proof {
            use_type_invariant(&*self);
        }
        if self.position >= self.len {
            return Ok(None);
        }
        let index = self.position;
        self.position = self.position + 1;
        let record = match self.view.element(self.rows, index) {
            Some(record) => record,
            None => {
                return Err(MalformedRow { position: index });
            },
        };
        let row_info = match read_row(&record, self.view) {
            Some(row_info) => row_info,
            None => {
                return Err(MalformedRow { position: index });
            },
        };
        Ok(
            Some(
                Row {
                    row_info,
                    column_ids: copy_ids(&self.column_ids),
                    cells: self.cells,
                    view: self.view,
                },
            ),
        )
    }

    /// Goes on to the next row and returns it, or `None` at the end. The record at the
    /// position of the pass has to stand for a row.
    pub fn next(&mut self) -> (r: Option<Row<'a, 'doc>>)
        requires
            !old(self).at_end() ==> old(self).current() is Some,
        ensures
            final(self).records() == old(self).records(),
            final(self).cells() == old(self).cells(),
            final(self).column_ids() == old(self).column_ids(),
            old(self).at_end() ==> r is None && final(self).position() == old(self).position(),
            !old(self).at_end() ==> {
                &&& final(self).position() == old(self).position() + 1
                &&& r matches Some(row)
                &&& Some(row.info()) == old(self).current()
                &&& row.column_ids() == old(self).column_ids()
                &&& row.cells() == old(self).cells()
            },
    {
        match self.try_next() {
            Ok(row) => row,
            Err(_) => unreached(),
        }
    }
}

} // verus!
