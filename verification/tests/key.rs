use crdt_table::key::cell_key;

#[test]
fn cell_key_is_row_colon_column_in_hexadecimal() {
    assert_eq!(cell_key(26, 255), "1a:ff");
    assert_eq!(cell_key(0, 0), "0:0");
    assert_eq!(cell_key(16, 1), "10:1");
    assert_eq!(cell_key(0xabcdef, 0x12345), "abcdef:12345");
}

#[test]
fn cell_key_covers_the_identifier_range() {
    assert_eq!(cell_key(u32::MAX as i64, 1), "ffffffff:1");
    assert_eq!(cell_key(1, u32::MAX as i64), "1:ffffffff");
    assert_eq!(cell_key(i64::MAX, 0), "7fffffffffffffff:0");
}

#[test]
fn cell_key_writes_negative_identifiers_by_their_bits() {
    assert_eq!(cell_key(-1, 0), "ffffffffffffffff:0");
    assert_eq!(cell_key(0, i64::MIN), "0:8000000000000000");
    assert_eq!(cell_key(-2, -255), format!("{:x}:{:x}", -2i64, -255i64));
}

#[test]
fn cell_key_agrees_with_the_formatter() {
    let samples: [i64; 9] = [0, 1, 9, 10, 15, 16, 4095, 65536, 4294967295];
    for row in samples {
        for column in samples {
            assert_eq!(cell_key(row, column), format!("{:x}:{:x}", row, column));
        }
    }
}

#[test]
fn cell_keys_of_different_cells_differ() {
    assert_ne!(cell_key(1, 17), cell_key(17, 1));
    assert_ne!(cell_key(0x11, 0x1), cell_key(0x1, 0x11));
    assert_ne!(cell_key(0x1, 0x11), cell_key(0x1, 0x1));
}
