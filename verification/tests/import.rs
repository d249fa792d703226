use crdt_table::table::Table;
use std::collections::HashSet;
use yrs::{Any, Array, ArrayRef, Doc, MapPrelim, MapRef, Out, Transact};

fn fields(texts: &[&str]) -> Vec<String> {
    texts.iter().map(|text| text.to_string()).collect()
}

fn people() -> (Vec<String>, Vec<Vec<String>>) {
    (
        fields(&["id", "name", "score"]),
        vec![fields(&["1", "Alice", "9.5"]), fields(&["2", "Bob", "10"])],
    )
}

fn plain(values: Vec<Any>) -> Vec<Out> {
    values.into_iter().map(Out::Any).collect()
}

fn entry(map: &MapRef, txn: &yrs::TransactionMut, key: &str) -> Option<Out> {
    yrs::Map::get(map, txn, key)
}

fn entries(map: &MapRef, txn: &yrs::TransactionMut) -> u32 {
    yrs::Map::len(map, txn)
}

fn cell_store(root: &MapRef, txn: &yrs::TransactionMut) -> MapRef {
    match entry(root, txn, "cells") {
        Some(Out::YMap(cells)) => cells,
        _ => panic!("no cell store"),
    }
}

fn sequence(root: &MapRef, txn: &yrs::TransactionMut, key: &str) -> ArrayRef {
    match entry(root, txn, key) {
        Some(Out::YArray(array)) => array,
        _ => panic!("no sequence"),
    }
}

#[test]
fn new_table_is_empty() {
    let doc = Doc::new();
    let root = doc.get_or_insert_map("csv-table");
    let mut txn = doc.transact_mut();
    let table = Table::new(root.clone(), &mut txn);
    assert_eq!(table.row_count(&txn), 0);
    assert_eq!(table.col_count(&txn), 0);
    assert_eq!(entries(&cell_store(&root, &txn), &txn), 0);
    assert!(table.columns(&txn).is_empty());
    assert!(table.rows(&txn).next().is_none());
}

#[test]
fn new_table_keeps_what_is_there() {
    let doc = Doc::new();
    let root = doc.get_or_insert_map("csv-table");
    let mut txn = doc.transact_mut();
    let first = Table::new(root.clone(), &mut txn);
    let (headers, records) = people();
    first.import(&mut txn, &headers, &records);
    let second = Table::new(root, &mut txn);
    assert_eq!(second.row_count(&txn), 2);
    assert_eq!(second.col_count(&txn), 3);
}

#[test]
fn new_table_replaces_what_is_no_container() {
    let doc = Doc::new();
    let root = doc.get_or_insert_map("csv-table");
    let mut txn = doc.transact_mut();
    yrs::Map::insert(&root, &mut txn, "cols", "not an array");
    yrs::Map::insert(&root, &mut txn, "cells", 5i64);
    let table = Table::new(root.clone(), &mut txn);
    assert_eq!(table.col_count(&txn), 0);
    assert_eq!(table.row_count(&txn), 0);
    assert_eq!(entries(&cell_store(&root, &txn), &txn), 0);
    let (headers, records) = people();
    assert_eq!(table.try_import(&mut txn, &headers, &records), Some(6));
    assert_eq!(entries(&cell_store(&root, &txn), &txn), 6);
}

#[test]
fn tables_in_one_document_are_separate() {
    let doc = Doc::new();
    let left = doc.get_or_insert_map("left");
    let right = doc.get_or_insert_map("right");
    let mut txn = doc.transact_mut();
    let one = Table::new(left, &mut txn);
    let two = Table::new(right, &mut txn);
    let (headers, records) = people();
    one.import(&mut txn, &headers, &records);
    assert_eq!(one.row_count(&txn), 2);
    assert_eq!(two.row_count(&txn), 0);
    assert_eq!(two.col_count(&txn), 0);
    two.import(&mut txn, &fields(&["x"]), &vec![fields(&["1"])]);
    assert_eq!(one.row_count(&txn), 2);
    assert_eq!(one.col_count(&txn), 3);
    assert_eq!(two.row_count(&txn), 1);
}

#[test]
fn import_counts_columns_rows_and_cells() {
    let doc = Doc::new();
    let root = doc.get_or_insert_map("csv-table");
    let mut txn = doc.transact_mut();
    let table = Table::new(root.clone(), &mut txn);
    let (headers, records) = people();
    assert!(table.can_import(&txn, &headers, &records));
    let cells = table.import(&mut txn, &headers, &records);
    assert_eq!(cells, 6);
    assert_eq!(table.col_count(&txn), 3);
    assert_eq!(table.row_count(&txn), 2);
    assert_eq!(entries(&cell_store(&root, &txn), &txn), 6);
}

#[test]
fn first_row_is_the_last_record() {
    let doc = Doc::new();
    let root = doc.get_or_insert_map("csv-table");
    let mut txn = doc.transact_mut();
    let table = Table::new(root, &mut txn);
    let (headers, records) = people();
    table.import(&mut txn, &headers, &records);
    let mut rows = table.rows(&txn);
    let first = rows.next().unwrap();
    assert_eq!(
        first.raw(),
        plain(vec![Any::from(2i64), Any::from("Bob"), Any::from(10i64)])
    );
    let second = rows.next().unwrap();
    assert_eq!(
        second.raw(),
        plain(vec![Any::from(1i64), Any::from("Alice"), Any::from(9.5f64)])
    );
    assert!(rows.next().is_none());
    assert!(rows.next().is_none());
}

#[test]
fn rows_come_out_in_reverse_input_order() {
    let doc = Doc::new();
    let root = doc.get_or_insert_map("csv-table");
    let mut txn = doc.transact_mut();
    let table = Table::new(root, &mut txn);
    let headers = fields(&["letter"]);
    let records = vec![fields(&["A"]), fields(&["B"]), fields(&["C"])];
    assert_eq!(table.import(&mut txn, &headers, &records), 3);
    let mut rows = table.rows(&txn);
    let mut seen = Vec::new();
    while let Some(row) = rows.next() {
        seen.push(row.raw());
    }
    assert_eq!(
        seen,
        vec![
            plain(vec![Any::from("C")]),
            plain(vec![Any::from("B")]),
            plain(vec![Any::from("A")])
        ]
    );
}

#[test]
fn columns_keep_header_order_and_default_width() {
    let doc = Doc::new();
    let root = doc.get_or_insert_map("csv-table");
    let mut txn = doc.transact_mut();
    let table = Table::new(root, &mut txn);
    let (headers, records) = people();
    table.import(&mut txn, &headers, &records);
    let columns = table.columns(&txn);
    assert_eq!(columns.len(), 3);
    assert_eq!(columns[0].name, "id");
    assert_eq!(columns[1].name, "name");
    assert_eq!(columns[2].name, "score");
    for column in &columns {
        assert_eq!(column.width, 130);
        assert!(0 <= column.id && column.id <= u32::MAX as i64);
    }
    let same = table.try_columns(&txn).unwrap();
    assert_eq!(same.len(), 3);
    assert_eq!(same[2].id, columns[2].id);
}

#[test]
fn rows_have_default_height() {
    let doc = Doc::new();
    let root = doc.get_or_insert_map("csv-table");
    let mut txn = doc.transact_mut();
    let table = Table::new(root, &mut txn);
    let (headers, records) = people();
    table.import(&mut txn, &headers, &records);
    let mut rows = table.rows(&txn);
    while let Some(row) = rows.next() {
        assert_eq!(row.row_info.height, 30);
        assert!(0 <= row.row_info.id && row.row_info.id <= u32::MAX as i64);
    }
}

#[test]
fn identifiers_are_unique_within_an_import() {
    let doc = Doc::new();
    let root = doc.get_or_insert_map("csv-table");
    let mut txn = doc.transact_mut();
    let table = Table::new(root, &mut txn);
    let headers: Vec<String> = (0..40).map(|j| format!("c{}", j)).collect();
    let records: Vec<Vec<String>> = (0..300)
        .map(|i| (0..40).map(|j| format!("{}", i * 40 + j)).collect())
        .collect();
    assert_eq!(table.import(&mut txn, &headers, &records), 12000);
    let mut column_ids = HashSet::new();
    for column in table.columns(&txn) {
        assert!(column_ids.insert(column.id));
    }
    assert_eq!(column_ids.len(), 40);
    let mut row_ids = HashSet::new();
    let mut rows = table.rows(&txn);
    while let Some(row) = rows.next() {
        assert!(row_ids.insert(row.row_info.id));
    }
    assert_eq!(row_ids.len(), 300);
}

#[test]
fn every_cell_joins_its_row_and_column() {
    let doc = Doc::new();
    let root = doc.get_or_insert_map("csv-table");
    let mut txn = doc.transact_mut();
    let table = Table::new(root.clone(), &mut txn);
    let headers: Vec<String> = (0..7).map(|j| format!("c{}", j)).collect();
    let records: Vec<Vec<String>> = (0..25)
        .map(|i| (0..7).map(|j| format!("{}", i * 7 + j)).collect())
        .collect();
    assert_eq!(table.import(&mut txn, &headers, &records), 175);
    assert_eq!(entries(&cell_store(&root, &txn), &txn), 175);
    let mut rows = table.rows(&txn);
    let mut position = 0;
    while let Some(row) = rows.next() {
        let input = 24 - position;
        let expected = plain((0..7).map(|j| Any::from((input * 7 + j) as i64)).collect());
        assert_eq!(row.raw(), expected);
        assert_eq!(row.try_raw(), Some(expected));
        position += 1;
    }
    assert_eq!(position, 25);
}

#[test]
fn cells_are_stored_under_hexadecimal_keys() {
    let doc = Doc::new();
    let root = doc.get_or_insert_map("csv-table");
    let mut txn = doc.transact_mut();
    let table = Table::new(root.clone(), &mut txn);
    let (headers, records) = people();
    table.import(&mut txn, &headers, &records);
    let cells = cell_store(&root, &txn);
    let columns = table.columns(&txn);
    let mut rows = table.rows(&txn);
    let first = rows.next().unwrap();
    let key = format!("{:x}:{:x}", first.row_info.id, columns[1].id);
    assert_eq!(entry(&cells, &txn, &key), Some(Out::Any(Any::from("Bob"))));
}

#[test]
fn descriptors_are_stored_as_maps() {
    let doc = Doc::new();
    let root = doc.get_or_insert_map("csv-table");
    let mut txn = doc.transact_mut();
    let table = Table::new(root.clone(), &mut txn);
    let (headers, records) = people();
    table.import(&mut txn, &headers, &records);
    let cols = sequence(&root, &txn, "cols");
    let column = match cols.get(&txn, 1) {
        Some(Out::YMap(column)) => column,
        _ => panic!("no column"),
    };
    assert_eq!(entry(&column, &txn, "name"), Some(Out::Any(Any::from("name"))));
    assert_eq!(entry(&column, &txn, "width"), Some(Out::Any(Any::from(130i64))));
    assert_eq!(entries(&column, &txn), 3);
    let rows = sequence(&root, &txn, "rows");
    let row = match rows.get(&txn, 0) {
        Some(Out::YMap(row)) => row,
        _ => panic!("no row"),
    };
    assert_eq!(entry(&row, &txn, "height"), Some(Out::Any(Any::from(30i64))));
    assert_eq!(entries(&row, &txn), 2);
}

#[test]
fn import_of_a_header_alone_adds_columns_only() {
    let doc = Doc::new();
    let root = doc.get_or_insert_map("csv-table");
    let mut txn = doc.transact_mut();
    let table = Table::new(root, &mut txn);
    let headers = fields(&["a", "b"]);
    let records: Vec<Vec<String>> = Vec::new();
    assert_eq!(table.import(&mut txn, &headers, &records), 0);
    assert_eq!(table.col_count(&txn), 2);
    assert_eq!(table.row_count(&txn), 0);
}

#[test]
fn import_of_nothing_changes_nothing() {
    let doc = Doc::new();
    let root = doc.get_or_insert_map("csv-table");
    let mut txn = doc.transact_mut();
    let table = Table::new(root, &mut txn);
    assert_eq!(table.try_import(&mut txn, &Vec::new(), &Vec::new()), Some(0));
    assert_eq!(table.col_count(&txn), 0);
    assert_eq!(table.row_count(&txn), 0);
}

#[test]
fn ragged_records_are_not_importable() {
    let doc = Doc::new();
    let root = doc.get_or_insert_map("csv-table");
    let mut txn = doc.transact_mut();
    let table = Table::new(root.clone(), &mut txn);
    let headers = fields(&["a", "b"]);
    let short = vec![fields(&["1", "2"]), fields(&["3"])];
    assert!(!table.can_import(&txn, &headers, &short));
    assert_eq!(table.try_import(&mut txn, &headers, &short), None);
    let long = vec![fields(&["1", "2", "3"])];
    assert!(!table.can_import(&txn, &headers, &long));
    assert_eq!(table.try_import(&mut txn, &headers, &long), None);
    assert_eq!(table.col_count(&txn), 0);
    assert_eq!(table.row_count(&txn), 0);
    assert_eq!(entries(&cell_store(&root, &txn), &txn), 0);
}

#[test]
fn second_import_appends_columns_and_prepends_rows() {
    let doc = Doc::new();
    let root = doc.get_or_insert_map("csv-table");
    let mut txn = doc.transact_mut();
    let table = Table::new(root, &mut txn);
    let (headers, records) = people();
    table.import(&mut txn, &headers, &records);
    let old_columns = table.columns(&txn);
    let more = vec![fields(&["x"]), fields(&["y"]), fields(&["z"])];
    assert_eq!(table.try_import(&mut txn, &fields(&["extra"]), &more), Some(3));
    assert_eq!(table.col_count(&txn), 4);
    assert_eq!(table.row_count(&txn), 5);
    let columns = table.columns(&txn);
    assert_eq!(columns[0].id, old_columns[0].id);
    assert_eq!(columns[2].name, "score");
    assert_eq!(columns[3].name, "extra");
    let mut rows = table.rows(&txn);
    let newest = rows.next().unwrap();
    assert_eq!(newest.try_raw(), None);
    let mut count = 1;
    while let Some(row) = rows.next() {
        assert_eq!(row.try_raw(), None);
        count += 1;
    }
    assert_eq!(count, 5);
}

#[test]
fn a_malformed_column_makes_columns_unreadable() {
    let doc = Doc::new();
    let root = doc.get_or_insert_map("csv-table");
    let mut txn = doc.transact_mut();
    let table = Table::new(root.clone(), &mut txn);
    let (headers, records) = people();
    table.import(&mut txn, &headers, &records);
    let cols = sequence(&root, &txn, "cols");
    cols.insert(&mut txn, 1, MapPrelim::from([("id", Any::from(7i64))]));
    assert_eq!(table.col_count(&txn), 4);
    assert!(table.try_columns(&txn).is_none());
}

#[test]
fn a_column_of_the_wrong_shape_is_unreadable() {
    let doc = Doc::new();
    let root = doc.get_or_insert_map("csv-table");
    let mut txn = doc.transact_mut();
    let table = Table::new(root.clone(), &mut txn);
    let cols = sequence(&root, &txn, "cols");
    cols.insert(&mut txn, 0, "plain text");
    assert!(table.try_columns(&txn).is_none());
    cols.remove(&mut txn, 0);
    cols.insert(
        &mut txn,
        0,
        MapPrelim::from([
            ("id", Any::from(1i64)),
            ("name", Any::from("n")),
            ("width", Any::from(-1i64)),
        ]),
    );
    assert!(table.try_columns(&txn).is_none());
    cols.remove(&mut txn, 0);
    cols.insert(
        &mut txn,
        0,
        MapPrelim::from([
            ("id", Any::from(1i64)),
            ("name", Any::from("n")),
            ("width", Any::from(4294967295i64)),
            ("note", Any::from("ignored")),
        ]),
    );
    let columns = table.try_columns(&txn).unwrap();
    assert_eq!(columns.len(), 1);
    assert_eq!(columns[0].id, 1);
    assert_eq!(columns[0].name, "n");
    assert_eq!(columns[0].width, u32::MAX);
}

#[test]
fn a_malformed_row_is_an_error_and_the_pass_goes_on() {
    let doc = Doc::new();
    let root = doc.get_or_insert_map("csv-table");
    let mut txn = doc.transact_mut();
    let table = Table::new(root.clone(), &mut txn);
    let (headers, records) = people();
    table.import(&mut txn, &headers, &records);
    let sequence = sequence(&root, &txn, "rows");
    sequence.insert(&mut txn, 1, MapPrelim::from([("id", Any::from("seven"))]));
    sequence.insert(&mut txn, 3, "no map");
    assert_eq!(table.row_count(&txn), 4);
    let mut rows = table.rows(&txn);
    match rows.try_next() {
        Ok(Some(row)) => assert_eq!(row.raw()[1], Out::Any(Any::from("Bob"))),
        _ => panic!("no row"),
    }
    match rows.try_next() {
        Err(error) => assert_eq!(error.position, 1),
        _ => panic!("no error"),
    }
    match rows.try_next() {
        Ok(Some(row)) => assert_eq!(row.raw()[1], Out::Any(Any::from("Alice"))),
        _ => panic!("no row"),
    }
    match rows.try_next() {
        Err(error) => assert_eq!(error.position, 3),
        _ => panic!("no error"),
    }
    assert!(matches!(rows.try_next(), Ok(None)));
    assert!(matches!(rows.try_next(), Ok(None)));
}

#[test]
fn a_row_without_height_is_an_error() {
    let doc = Doc::new();
    let root = doc.get_or_insert_map("csv-table");
    let mut txn = doc.transact_mut();
    let table = Table::new(root.clone(), &mut txn);
    let sequence = sequence(&root, &txn, "rows");
    sequence.insert(&mut txn, 0, MapPrelim::from([("id", Any::from(7i64))]));
    let mut rows = table.rows(&txn);
    assert!(matches!(rows.try_next(), Err(_)));
    assert!(matches!(rows.try_next(), Ok(None)));
}

#[test]
fn try_next_yields_the_rows_that_next_yields() {
    let doc = Doc::new();
    let root = doc.get_or_insert_map("csv-table");
    let mut txn = doc.transact_mut();
    let table = Table::new(root, &mut txn);
    let (headers, records) = people();
    table.import(&mut txn, &headers, &records);
    let mut strict = table.rows(&txn);
    let mut careful = table.rows(&txn);
    while let Some(row) = strict.next() {
        match careful.try_next() {
            Ok(Some(other)) => {
                assert_eq!(row.row_info().id, other.row_info.id);
                assert_eq!(row.row_info().height, other.row_info().height);
                assert_eq!(row.raw(), other.raw());
            }
            _ => panic!("no row"),
        }
    }
    assert!(matches!(careful.try_next(), Ok(None)));
}

#[test]
fn a_removed_root_is_not_opened() {
    let doc = Doc::new();
    let holder = doc.get_or_insert_map("holder");
    let mut txn = doc.transact_mut();
    let nested: MapRef = yrs::Map::insert(&holder, &mut txn, "table", MapPrelim::default());
    assert!(Table::open(nested.clone(), &mut txn).is_some());
    yrs::Map::remove(&holder, &mut txn, "table");
    assert!(Table::open(nested.clone(), &mut txn).is_none());
    assert_eq!(entries(&nested, &txn), 0);
}

#[test]
fn a_table_in_a_removed_root_takes_no_import() {
    let doc = Doc::new();
    let holder = doc.get_or_insert_map("holder");
    let mut txn = doc.transact_mut();
    let nested: MapRef = yrs::Map::insert(&holder, &mut txn, "table", MapPrelim::default());
    let table = Table::open(nested, &mut txn).unwrap();
    assert!(table.is_live(&txn));
    let (headers, records) = people();
    assert_eq!(table.try_import(&mut txn, &headers, &records), Some(6));
    yrs::Map::remove(&holder, &mut txn, "table");
    assert!(!table.is_live(&txn));
    assert!(!table.can_import(&txn, &headers, &records));
    assert_eq!(table.try_import(&mut txn, &headers, &records), None);
    assert_eq!(table.row_count(&txn), 0);
    assert_eq!(table.col_count(&txn), 0);
}

#[test]
fn a_table_without_its_columns_takes_no_import() {
    let doc = Doc::new();
    let root = doc.get_or_insert_map("csv-table");
    let mut txn = doc.transact_mut();
    let table = Table::new(root.clone(), &mut txn);
    let (headers, records) = people();
    table.import(&mut txn, &headers, &records);
    yrs::Map::remove(&root, &mut txn, "cols");
    assert!(!table.is_live(&txn));
    assert_eq!(table.try_import(&mut txn, &headers, &records), None);
    assert_eq!(table.row_count(&txn), 2);
    let again = Table::open(root, &mut txn).unwrap();
    assert!(again.is_live(&txn));
    assert_eq!(again.col_count(&txn), 0);
    assert_eq!(again.row_count(&txn), 2);
    assert_eq!(again.try_import(&mut txn, &headers, &records), Some(6));
    assert_eq!(again.col_count(&txn), 3);
    assert_eq!(again.row_count(&txn), 4);
}

#[test]
fn opening_a_table_again_finds_the_same_table() {
    let doc = Doc::new();
    let root = doc.get_or_insert_map("csv-table");
    let mut txn = doc.transact_mut();
    let first = Table::new(root.clone(), &mut txn);
    let (headers, records) = people();
    first.import(&mut txn, &headers, &records);
    let second = Table::open(root.clone(), &mut txn).unwrap();
    assert_eq!(entries(&root, &txn), 3);
    assert_eq!(second.col_count(&txn), 3);
    assert_eq!(second.row_count(&txn), 2);
    let one = first.columns(&txn);
    let two = second.columns(&txn);
    for j in 0..3 {
        assert_eq!(one[j].id, two[j].id);
        assert_eq!(one[j].name, two[j].name);
    }
    let mut left = first.rows(&txn);
    let mut right = second.rows(&txn);
    while let Some(row) = left.next() {
        let other = right.next().unwrap();
        assert_eq!(row.row_info.id, other.row_info.id);
        assert_eq!(row.raw(), other.raw());
    }
    assert!(right.next().is_none());
    second.import(&mut txn, &fields(&["x"]), &vec![fields(&["1"])]);
    assert_eq!(first.row_count(&txn), 3);
    assert_eq!(first.col_count(&txn), 4);
}

#[test]
fn a_cell_that_holds_a_container_is_handed_out() {
    let doc = Doc::new();
    let root = doc.get_or_insert_map("csv-table");
    let mut txn = doc.transact_mut();
    let table = Table::new(root.clone(), &mut txn);
    table.import(&mut txn, &fields(&["a"]), &vec![fields(&["1"])]);
    let id = table.rows(&txn).next().unwrap().row_info.id;
    let column = table.columns(&txn)[0].id;
    let cells = cell_store(&root, &txn);
    let key = format!("{:x}:{:x}", id, column);
    let nested: MapRef = yrs::Map::insert(&cells, &mut txn, key, MapPrelim::default());
    let row = table.rows(&txn).next().unwrap();
    assert_eq!(row.try_raw(), Some(vec![Out::YMap(nested)]));
}

#[test]
fn a_missing_cell_makes_the_row_incomplete() {
    let doc = Doc::new();
    let root = doc.get_or_insert_map("csv-table");
    let mut txn = doc.transact_mut();
    let table = Table::new(root.clone(), &mut txn);
    let (headers, records) = people();
    table.import(&mut txn, &headers, &records);
    let columns = table.columns(&txn);
    let id = {
        let mut rows = table.rows(&txn);
        let first = rows.next().unwrap();
        assert!(first.try_raw().is_some());
        first.row_info.id
    };
    let cells = cell_store(&root, &txn);
    yrs::Map::remove(&cells, &mut txn, &format!("{:x}:{:x}", id, columns[2].id));
    let mut rows = table.rows(&txn);
    assert_eq!(rows.next().unwrap().try_raw(), None);
    assert!(rows.next().unwrap().try_raw().is_some());
}

#[test]
fn negative_identifiers_are_keyed_by_their_bits() {
    let doc = Doc::new();
    let root = doc.get_or_insert_map("csv-table");
    let mut txn = doc.transact_mut();
    let table = Table::new(root.clone(), &mut txn);
    let cols = sequence(&root, &txn, "cols");
    cols.insert(
        &mut txn,
        0,
        MapPrelim::from([
            ("id", Any::from(-1i64)),
            ("name", Any::from("n")),
            ("width", Any::from(130i64)),
        ]),
    );
    let rows = sequence(&root, &txn, "rows");
    rows.insert(
        &mut txn,
        0,
        MapPrelim::from([("id", Any::from(-2i64)), ("height", Any::from(30i64))]),
    );
    let cells = cell_store(&root, &txn);
    yrs::Map::insert(&cells, &mut txn, "fffffffffffffffe:ffffffffffffffff", true);
    let mut pass = table.rows(&txn);
    let row = pass.next().unwrap();
    assert_eq!(row.row_info.id, -2);
    assert_eq!(row.raw(), plain(vec![Any::Bool(true)]));
}

#[test]
fn an_open_transaction_keeps_writers_out() {
    let doc = Doc::new();
    let root = doc.get_or_insert_map("csv-table");
    let table = {
        let mut txn = doc.transact_mut();
        let table = Table::new(root, &mut txn);
        let (headers, records) = people();
        table.import(&mut txn, &headers, &records);
        table
    };
    let snapshot = doc.transact_mut();
    assert_eq!(table.row_count(&snapshot), 2);
    assert!(doc.try_transact_mut().is_err());
    assert_eq!(table.row_count(&snapshot), 2);
    assert_eq!(table.col_count(&snapshot), 3);
    drop(snapshot);
    let mut txn = doc.transact_mut();
    let (headers, records) = people();
    table.import(&mut txn, &headers, &records);
    assert_eq!(table.row_count(&txn), 4);
}

#[test]
fn a_later_transaction_sees_what_was_committed() {
    let doc = Doc::new();
    let root = doc.get_or_insert_map("csv-table");
    let table = {
        let mut txn = doc.transact_mut();
        let table = Table::new(root, &mut txn);
        let (headers, records) = people();
        assert_eq!(table.import(&mut txn, &headers, &records), 6);
        table
    };
    let txn = doc.transact_mut();
    assert_eq!(table.row_count(&txn), 2);
    let mut rows = table.rows(&txn);
    assert_eq!(rows.next().unwrap().raw()[1], Out::Any(Any::from("Bob")));
}

#[test]
fn a_read_only_transaction_reads_what_was_committed() {
    let doc = Doc::new();
    let root = doc.get_or_insert_map("csv-table");
    let table = {
        let mut txn = doc.transact_mut();
        let table = Table::new(root, &mut txn);
        let (headers, records) = people();
        assert_eq!(table.import(&mut txn, &headers, &records), 6);
        table
    };
    let txn = doc.transact();
    assert_eq!(table.row_count_read(&txn), 2);
    assert_eq!(table.col_count_read(&txn), 3);
    let columns = table.columns_read(&txn);
    assert_eq!(columns.len(), 3);
    assert_eq!(columns[1].name, "name");
    assert_eq!(columns[1].width, 130);
    assert_eq!(table.try_columns_read(&txn).unwrap()[2].name, "score");
    let mut rows = table.rows_read(&txn);
    let first = rows.next().unwrap();
    assert_eq!(
        first.raw(),
        plain(vec![Any::from(2i64), Any::from("Bob"), Any::from(10i64)])
    );
    assert_eq!(first.row_info().height, 30);
    match rows.try_next() {
        Ok(Some(row)) => assert_eq!(row.raw()[1], Out::Any(Any::from("Alice"))),
        _ => panic!("no row"),
    }
    assert!(rows.next().is_none());
}

#[test]
fn readers_share_the_document_and_keep_writers_out() {
    let doc = Doc::new();
    let root = doc.get_or_insert_map("csv-table");
    let table = {
        let mut txn = doc.transact_mut();
        let table = Table::new(root, &mut txn);
        let (headers, records) = people();
        table.import(&mut txn, &headers, &records);
        table
    };
    let one = doc.transact();
    let two = doc.transact();
    assert_eq!(table.row_count_read(&one), 2);
    assert_eq!(table.row_count_read(&two), 2);
    assert!(doc.try_transact_mut().is_err());
    let mut left = table.rows_read(&one);
    let mut right = table.rows_read(&two);
    assert_eq!(left.next().unwrap().raw(), right.next().unwrap().raw());
    assert_eq!(table.col_count_read(&one), 3);
    drop(left);
    drop(right);
    drop(one);
    drop(two);
    let mut txn = doc.transact_mut();
    let (headers, records) = people();
    table.import(&mut txn, &headers, &records);
    drop(txn);
    assert_eq!(table.row_count_read(&doc.transact()), 4);
}

#[test]
fn a_read_only_transaction_finds_malformed_descriptors() {
    let doc = Doc::new();
    let root = doc.get_or_insert_map("csv-table");
    let table = {
        let mut txn = doc.transact_mut();
        let table = Table::new(root.clone(), &mut txn);
        let (headers, records) = people();
        table.import(&mut txn, &headers, &records);
        let rows = sequence(&root, &txn, "rows");
        rows.insert(&mut txn, 0, MapPrelim::from([("height", Any::from(30i64))]));
        table
    };
    let txn = doc.transact();
    let mut rows = table.rows_read(&txn);
    assert!(matches!(rows.try_next(), Err(_)));
    assert!(matches!(rows.try_next(), Ok(Some(_))));
    drop(rows);
    drop(txn);
    {
        let mut txn = doc.transact_mut();
        let cols = sequence(&root, &txn, "cols");
        cols.insert(&mut txn, 0, "no map");
    }
    assert!(table.try_columns_read(&doc.transact()).is_none());
}
