use crdt_table::ident::{claim_id, next_unique_id, smallest_unused_id};
use std::collections::HashSet;

#[test]
fn next_unique_id_never_repeats() {
    let mut existing = HashSet::new();
    let mut seen = Vec::new();
    for round in 0..5000 {
        let id = next_unique_id(&mut existing);
        assert!(!seen.contains(&id));
        assert!(existing.contains(&id));
        seen.push(id);
        assert_eq!(existing.len(), round + 1);
    }
}

#[test]
fn next_unique_id_avoids_what_is_there() {
    let mut existing: HashSet<u32> = (0..100000).collect();
    let before = existing.clone();
    let id = next_unique_id(&mut existing);
    assert!(!before.contains(&id));
    assert_eq!(existing.len(), before.len() + 1);
    assert!(existing.is_superset(&before));
}

#[test]
fn separate_sets_are_separate_spaces() {
    let mut columns = HashSet::new();
    let mut rows = HashSet::new();
    let column = next_unique_id(&mut columns);
    let row = next_unique_id(&mut rows);
    assert!(columns.contains(&column));
    assert!(rows.contains(&row));
    assert_eq!(columns.len(), 1);
    assert_eq!(rows.len(), 1);
}

#[test]
fn claim_id_tells_whether_the_id_was_unused() {
    let mut existing = HashSet::new();
    assert!(claim_id(&mut existing, 7));
    assert!(!claim_id(&mut existing, 7));
    assert!(claim_id(&mut existing, 8));
    assert_eq!(existing.len(), 2);
}

#[test]
fn smallest_unused_id_skips_what_is_there() {
    let mut existing = HashSet::new();
    assert_eq!(smallest_unused_id(&existing), 0);
    existing.insert(0);
    existing.insert(1);
    existing.insert(3);
    assert_eq!(smallest_unused_id(&existing), 2);
    existing.insert(2);
    assert_eq!(smallest_unused_id(&existing), 4);
    existing.insert(u32::MAX);
    assert_eq!(smallest_unused_id(&existing), 4);
}
