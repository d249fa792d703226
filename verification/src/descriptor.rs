//! Column and row descriptors, and the records that stand for them in the document.

use crate::scalar::{as_integer, as_text, integer, text, Value};
use crate::store::{record_of, Snapshot};
use vstd::prelude::*;

verus! {

/// The display width that a column gets when it is imported.
pub const DEFAULT_WIDTH: u32 = 130;

/// The display height that a row gets when it is imported.
pub const DEFAULT_HEIGHT: u32 = 30;

/// A column of a table: its identifier, its name and its display width.
pub struct Column {
    pub id: i64,
    pub name: String,
    pub width: u32,
}

/// A column as a mathematical value.
pub struct ColumnView {
    pub id: i64,
    pub name: Seq<char>,
    pub width: u32,
}

impl View for Column {
    type V = ColumnView;

    open spec fn view(&self) -> ColumnView {
        ColumnView { id: self.id, name: self.name@, width: self.width }
    }
}

/// A row of a table: its identifier and its display height.
pub struct RowInfo {
    pub id: i64,
    pub height: u32,
}

/// The record that stands for a column: `id`, `name` and `width`.
pub open spec fn column_record(column: ColumnView) -> Map<Seq<char>, Value> {
    Map::empty().insert("id"@, Value::Integer(column.id)).insert(
        "name"@,
        Value::Text(column.name),
    ).insert("width"@, Value::Integer(column.width as i64))
}

/// The record that stands for a row: `id` and `height`.
pub open spec fn row_record(row: RowInfo) -> Map<Seq<char>, Value> {
    Map::empty().insert("id"@, Value::Integer(row.id)).insert(
        "height"@,
        Value::Integer(row.height as i64),
    )
}

/// The column that a record stands for: it needs an integer `id`, a text `name` and an
/// integer `width` that fits 32 bits without a sign. Other fields are ignored.
pub open spec fn record_column(record: Map<Seq<char>, Value>) -> Option<ColumnView> {
    if record.contains_key("id"@) && record.contains_key("name"@) && record.contains_key(
        "width"@,
    ) {
        match (record["id"@], record["name"@], record["width"@]) {
            (Value::Integer(id), Value::Text(name), Value::Integer(width)) => {
                if 0 <= width <= u32::MAX {
                    Some(ColumnView { id, name, width: width as u32 })
                } else {
                    None
                }
            },
            _ => None,
        }
    } else {
        None
    }
}

/// The row that a record stands for: it needs an integer `id` and an integer `height`
/// that fits 32 bits without a sign. Other fields are ignored.
pub open spec fn record_row(record: Map<Seq<char>, Value>) -> Option<RowInfo> {
    if record.contains_key("id"@) && record.contains_key("height"@) {
        match (record["id"@], record["height"@]) {
            (Value::Integer(id), Value::Integer(height)) => {
                if 0 <= height <= u32::MAX {
                    Some(RowInfo { id, height: height as u32 })
                } else {
                    None
                }
            },
            _ => None,
        }
    } else {
        None
    }
}

/// The field names differ from one another.
proof fn lemma_field_names()
    ensures
        "id"@ != "name"@,
        "id"@ != "width"@,
        "id"@ != "height"@,
        "name"@ != "width"@,
{
    reveal_strlit("id");
    reveal_strlit("name");
    reveal_strlit("width");
    reveal_strlit("height");
    assert("id"@.len() == 2);
    assert("name"@.len() == 4);
    assert("width"@.len() == 5);
    assert("height"@.len() == 6);
}

/// A column is read back from its record as it was.
pub proof fn lemma_column_round_trip(column: ColumnView)
    ensures
        record_column(column_record(column)) == Some(column),
{
    lemma_field_names();
}

/// A row is read back from its record as it was.
pub proof fn lemma_row_round_trip(row: RowInfo)
    ensures
        record_row(row_record(row)) == Some(row),
{
    lemma_field_names();
}

/// The fields of the record that stands for a column.
pub(crate) fn column_fields(id: i64, name: &str, width: u32) -> (fields: Vec<(String, yrs::Any)>)
    ensures
        record_of(fields@) == column_record(ColumnView { id, name: name@, width }),
{
    let mut fields: Vec<(String, yrs::Any)> = Vec::new();
    fields.push(("id".to_owned(), integer(id)));
    fields.push(("name".to_owned(), text(name)));
    fields.push(("width".to_owned(), integer(width as i64)));
    proof {
        let f = fields@;
        assert(f.drop_last().drop_last().drop_last() =~= Seq::empty());
        reveal_with_fuel(record_of, 4);
    }
    fields
}

/// The fields of the record that stands for a row.
pub(crate) fn row_fields(id: i64, height: u32) -> (fields: Vec<(String, yrs::Any)>)
    ensures
        record_of(fields@) == row_record(RowInfo { id, height }),
{
    let mut fields: Vec<(String, yrs::Any)> = Vec::new();
    fields.push(("id".to_owned(), integer(id)));
    fields.push(("height".to_owned(), integer(height as i64)));
    proof {
        let f = fields@;
        assert(f.drop_last().drop_last() =~= Seq::empty());
        reveal_with_fuel(record_of, 3);
    }
    fields
}

/// Reads an integer field that fits 32 bits without a sign.
fn read_u32(record: &yrs::MapRef, view: Snapshot<'_, '_>, name: &str) -> (r: Option<u32>)
    ensures
        r == (if view.entries(record).contains_key(name@) {
            match view.entries(record)[name@] {
                Value::Integer(n) => if 0 <= n <= u32::MAX {
                    Some(n as u32)
                } else {
                    None
                },
                _ => None,
            }
        } else {
            None
        }),
{
    match view.get(record, name) {
        None => None,
        Some(value) => match as_integer(&value) {
            None => None,
            Some(n) => if 0 <= n && n <= 0xffff_ffff {
                Some(n as u32)
            } else {
                None
            },
        },
    }
}

/// Reads an integer field.
fn read_i64(record: &yrs::MapRef, view: Snapshot<'_, '_>, name: &str) -> (r: Option<i64>)
    ensures
        r == (if view.entries(record).contains_key(name@) {
            match view.entries(record)[name@] {
                Value::Integer(n) => Some(n),
                _ => None,
            }
        } else {
            None
        }),
{
    match view.get(record, name) {
        None => None,
        Some(value) => as_integer(&value),
    }
}

/// Reads the column that the map `record` stands for, if it stands for one.
pub(crate) fn read_column(record: &yrs::MapRef, view: Snapshot<'_, '_>) -> (r: Option<Column>)
    ensures
        match r {
            Some(column) => record_column(view.entries(record)) == Some(column@),
            None => record_column(view.entries(record)) is None,
        },
{
    let id = match read_i64(record, view, "id") {
        Some(id) => id,
        None => {
            return None;
        },
    };
    let name = match view.get(record, "name") {
        None => {
            return None;
        },
        Some(value) => match as_text(&value) {
            Some(name) => name,
            None => {
                return None;
            },
        },
    };
    let width = match read_u32(record, view, "width") {
        Some(width) => width,
        None => {
            return None;
        },
    };
    Some(Column { id, name, width })
}

/// Reads the row that the map `record` stands for, if it stands for one.
pub(crate) fn read_row(record: &yrs::MapRef, view: Snapshot<'_, '_>) -> (r: Option<RowInfo>)
    ensures
        r == record_row(view.entries(record)),
{
    let id = match read_i64(record, view, "id") {
        Some(id) => id,
        None => {
            return None;
        },
    };
    let height = match read_u32(record, view, "height") {
        Some(height) => height,
        None => {
            return None;
        },
    };
    Some(RowInfo { id, height })
}

} // verus!
