//! The containers of a `yrs` document that a table is kept in: arrays of records and maps
//! of values, written inside a read-write transaction and read inside a transaction of
//! either kind.
//!
//! `yrs` is not verified. This file declares the types that are used from it, names what
//! its containers hold, and gives each call that the table makes a contract over those
//! names. Everything else in the crate is proved from these contracts.

use crate::scalar::{any_view, out_view, Value};
use vstd::prelude::*;

verus! {

/// A read-write transaction on a document.
#[verifier::external_type_specification]
#[verifier::external_body]
pub struct ExTransactionMut<'doc>(yrs::TransactionMut<'doc>);

/// A read-only transaction on a document.
#[verifier::external_type_specification]
#[verifier::external_body]
pub struct ExTransaction<'doc>(yrs::Transaction<'doc>);

/// A handle on an array of a document.
#[verifier::external_type_specification]
#[verifier::external_body]
pub struct ExArrayRef(yrs::ArrayRef);

/// A handle on a map of a document.
#[verifier::external_type_specification]
#[verifier::external_body]
pub struct ExMapRef(yrs::MapRef);

/// The elements of `array` as `txn` sees them, in order, each as a record: for an
/// element that is a map, the entries of that map ([`map_entries`]); for any other
/// element, the empty record.
pub uninterp spec fn array_records(txn: &yrs::TransactionMut<'_>, array: &yrs::ArrayRef) -> Seq<
    Map<Seq<char>, Value>,
>;

/// The entries of `map` as `txn` sees them: each key under which the map holds
/// something, with what it holds there ([`out_view`]).
pub uninterp spec fn map_entries(txn: &yrs::TransactionMut<'_>, map: &yrs::MapRef) -> Map<
    Seq<char>,
    Value,
>;

/// The elements of `array` as the read-only `txn` sees them, each as a record, as
/// [`array_records`] gives them for a read-write transaction.
pub uninterp spec fn array_records_read(
    txn: &yrs::Transaction<'_>,
    array: &yrs::ArrayRef,
) -> Seq<Map<Seq<char>, Value>>;

/// The entries of `map` as the read-only `txn` sees them, as [`map_entries`] gives them
/// for a read-write transaction.
pub uninterp spec fn map_entries_read(txn: &yrs::Transaction<'_>, map: &yrs::MapRef) -> Map<
    Seq<char>,
    Value,
>;

/// Where `array` sits: the map that holds it and the key under which it holds it;
/// `None` for an array that no map holds, such as an element of an array.
pub uninterp spec fn array_slot(array: &yrs::ArrayRef) -> Option<(yrs::MapRef, Seq<char>)>;

/// Where `map` sits: the map that holds it and the key under which it holds it; `None`
/// for a map that no map holds, such as an element of an array.
pub uninterp spec fn map_slot(map: &yrs::MapRef) -> Option<(yrs::MapRef, Seq<char>)>;

/// The records of the array that `map` holds under `key` as `txn` sees it
/// ([`array_records`]); `None` where `map` holds no array under `key`.
pub uninterp spec fn child_records(
    txn: &yrs::TransactionMut<'_>,
    map: &yrs::MapRef,
    key: Seq<char>,
) -> Option<Seq<Map<Seq<char>, Value>>>;

/// The entries of the map that `map` holds under `key` as `txn` sees it
/// ([`map_entries`]); `None` where `map` holds no map under `key`.
pub uninterp spec fn child_entries(
    txn: &yrs::TransactionMut<'_>,
    map: &yrs::MapRef,
    key: Seq<char>,
) -> Option<Map<Seq<char>, Value>>;

/// True where `array` has been removed from the document as `txn` sees it, alone or
/// with a container that held it. An array that was never held by another container is
/// never removed.
pub uninterp spec fn array_removed(txn: &yrs::TransactionMut<'_>, array: &yrs::ArrayRef) -> bool;

/// True where `map` has been removed from the document as `txn` sees it, alone or with a
/// container that held it. A map that was never held by another container is never
/// removed.
pub uninterp spec fn map_removed(txn: &yrs::TransactionMut<'_>, map: &yrs::MapRef) -> bool;

/// True where two containers sit in the same map under different keys.
pub open spec fn beside(
    one: Option<(yrs::MapRef, Seq<char>)>,
    other: Option<(yrs::MapRef, Seq<char>)>,
) -> bool {
    &&& one matches Some(here)
    &&& other matches Some(there)
    &&& here.0 == there.0
    &&& here.1 != there.1
}

/// True where `array` is in `after` what it was in `before`.
pub open spec fn array_same(
    before: &yrs::TransactionMut<'_>,
    after: &yrs::TransactionMut<'_>,
    array: &yrs::ArrayRef,
) -> bool {
    &&& array_records(after, array) == array_records(before, array)
    &&& array_removed(after, array) == array_removed(before, array)
}

/// True where `map` is in `after` what it was in `before`.
pub open spec fn map_same(
    before: &yrs::TransactionMut<'_>,
    after: &yrs::TransactionMut<'_>,
    map: &yrs::MapRef,
) -> bool {
    &&& map_entries(after, map) == map_entries(before, map)
    &&& map_removed(after, map) == map_removed(before, map)
}

/// True where `map` holds under `key` in `after` what it held there in `before`.
pub open spec fn child_same(
    before: &yrs::TransactionMut<'_>,
    after: &yrs::TransactionMut<'_>,
    map: &yrs::MapRef,
    key: Seq<char>,
) -> bool {
    &&& child_records(after, map, key) == child_records(before, map, key)
    &&& child_entries(after, map, key) == child_entries(before, map, key)
}

/// True where the map of `slot`, if there is one, holds under the key `other` in `after`
/// what it held there in `before`, unless `other` is the key of `slot`.
pub open spec fn child_kept(
    before: &yrs::TransactionMut<'_>,
    after: &yrs::TransactionMut<'_>,
    slot: Option<(yrs::MapRef, Seq<char>)>,
    other: Seq<char>,
) -> bool {
    slot matches Some(at) ==> (other != at.1 ==> child_same(before, after, &at.0, other))
}

/// True where `array`, if a map holds it, is what that map holds under its key.
pub open spec fn array_in_place(txn: &yrs::TransactionMut<'_>, array: &yrs::ArrayRef) -> bool {
    array_slot(array) matches Some(slot) ==> child_records(txn, &slot.0, slot.1) == Some(
        array_records(txn, array),
    )
}

/// True where `map`, if a map holds it, is what that map holds under its key.
pub open spec fn map_in_place(txn: &yrs::TransactionMut<'_>, map: &yrs::MapRef) -> bool {
    map_slot(map) matches Some(slot) ==> child_entries(txn, &slot.0, slot.1) == Some(
        map_entries(txn, map),
    )
}

/// The record that a list of fields makes: each field under its name, a later field
/// replacing an earlier one of the same name.
pub open spec fn record_of(fields: Seq<(String, yrs::Any)>) -> Map<Seq<char>, Value>
    decreases fields.len(),
{
    if fields.len() == 0 {
        Map::empty()
    } else {
        record_of(fields.drop_last()).insert(fields.last().0@, any_view(&fields.last().1))
    }
}

/// The array that `root` holds under `key` (`Map::get_or_init`). Where `root` holds an
/// array there, that array is returned and nothing is written. Where it holds none, a
/// new empty array is put under `key` first, in place of what was there; what `root`
/// holds under other keys stays as it was. In a `root` that has not been removed, the
/// array returned is what `root` holds under `key` afterwards.
#[verifier::external_body]
pub(crate) fn open_array(root: &yrs::MapRef, txn: &mut yrs::TransactionMut<'_>, key: &str) -> (array:
    yrs::ArrayRef)
    ensures
        array_slot(&array) == Some((*root, key@)),
        child_records(old(txn), root, key@) is Some ==> *final(txn) == *old(txn),
        array_records(final(txn), &array) == (match child_records(old(txn), root, key@) {
            Some(records) => records,
            None => Seq::empty(),
        }),
        !map_removed(old(txn), root) ==> !array_removed(final(txn), &array) && array_in_place(
            final(txn),
            &array,
        ),
        map_removed(final(txn), root) == map_removed(old(txn), root),
        forall|other: yrs::ArrayRef|
            beside(array_slot(&other), array_slot(&array)) ==> #[trigger] array_same(
                old(txn),
                final(txn),
                &other,
            ),
        forall|other: yrs::MapRef|
            beside(map_slot(&other), array_slot(&array)) ==> #[trigger] map_same(
                old(txn),
                final(txn),
                &other,
            ),
        forall|other: Seq<char>|
            other != key@ ==> #[trigger] child_same(old(txn), final(txn), root, other),
{
    yrs::Map::get_or_init(root, txn, key)
}

/// The map that `root` holds under `key` (`Map::get_or_init`). Where `root` holds a map
/// there, that map is returned and nothing is written. Where it holds none, a new empty
/// map is put under `key` first, in place of what was there; what `root` holds under
/// other keys stays as it was. In a `root` that has not been removed, the map returned
/// is what `root` holds under `key` afterwards.
#[verifier::external_body]
pub(crate) fn open_map(root: &yrs::MapRef, txn: &mut yrs::TransactionMut<'_>, key: &str) -> (map:
    yrs::MapRef)
    ensures
        map_slot(&map) == Some((*root, key@)),
        child_entries(old(txn), root, key@) is Some ==> *final(txn) == *old(txn),
        map_entries(final(txn), &map) == (match child_entries(old(txn), root, key@) {
            Some(entries) => entries,
            None => Map::empty(),
        }),
        !map_removed(old(txn), root) ==> !map_removed(final(txn), &map) && map_in_place(
            final(txn),
            &map,
        ),
        map_removed(final(txn), root) == map_removed(old(txn), root),
        forall|other: yrs::ArrayRef|
            beside(array_slot(&other), map_slot(&map)) ==> #[trigger] array_same(
                old(txn),
                final(txn),
                &other,
            ),
        forall|other: yrs::MapRef|
            beside(map_slot(&other), map_slot(&map)) ==> #[trigger] map_same(
                old(txn),
                final(txn),
                &other,
            ),
        forall|other: Seq<char>|
            other != key@ ==> #[trigger] child_same(old(txn), final(txn), root, other),
{
    yrs::Map::get_or_init(root, txn, key)
}

/// Tells whether `array` has been removed from the document (`Branch::is_deleted`). An
/// array that has not been removed is what the map that holds it holds under its key.
#[verifier::external_body]
pub(crate) fn array_is_removed(array: &yrs::ArrayRef, txn: &yrs::TransactionMut<'_>) -> (removed:
    bool)
    ensures
        removed == array_removed(txn, array),
        !removed ==> array_in_place(txn, array),
{
    yrs::branch::Branch::is_deleted(array.as_ref())
}

/// Tells whether `map` has been removed from the document (`Branch::is_deleted`). A map
/// that has not been removed is what the map that holds it holds under its key.
#[verifier::external_body]
pub(crate) fn map_is_removed(map: &yrs::MapRef, txn: &yrs::TransactionMut<'_>) -> (removed: bool)
    ensures
        removed == map_removed(txn, map),
        !removed ==> map_in_place(txn, map),
{
    yrs::branch::Branch::is_deleted(map.as_ref())
}

/// The number of elements of `array` (`Array::len`).
#[verifier::external_body]
pub(crate) fn array_len(array: &yrs::ArrayRef, txn: &yrs::TransactionMut<'_>) -> (len: u32)
    ensures
        len == array_records(txn, array).len(),
{
    yrs::Array::len(array, txn)
}

/// Inserts a new map with the given fields into `array` at `index` (`Array::insert` of a
/// `MapPrelim`). The elements from `index` on move up by one. What sits beside `array`,
/// in the same map under another key, stays as it was, and the map that holds `array`
/// holds the new contents under its key. `Array::insert` panics for an index beyond the
/// length, and what is inserted into a removed array is removed at once: both are left
/// out here.
#[verifier::external_body]
pub(crate) fn array_insert(
    array: &yrs::ArrayRef,
    txn: &mut yrs::TransactionMut<'_>,
    index: u32,
    fields: Vec<(String, yrs::Any)>,
)
    requires
        !array_removed(old(txn), array),
        index <= array_records(old(txn), array).len(),
        array_records(old(txn), array).len() < u32::MAX,
    ensures
        array_records(final(txn), array) == array_records(old(txn), array).insert(
            index as int,
            record_of(fields@),
        ),
        !array_removed(final(txn), array),
        array_in_place(final(txn), array),
        forall|other: yrs::ArrayRef|
            beside(array_slot(&other), array_slot(array)) ==> #[trigger] array_same(
                old(txn),
                final(txn),
                &other,
            ),
        forall|other: yrs::MapRef|
            beside(map_slot(&other), array_slot(array)) ==> #[trigger] map_same(
                old(txn),
                final(txn),
                &other,
            ),
        forall|other: Seq<char>| #[trigger]
            child_kept(old(txn), final(txn), array_slot(array), other),
{
    yrs::Array::insert(array, txn, index, fields.into_iter().collect::<yrs::MapPrelim>());
}

/// The element of `array` at `index`, if there is one and it is a map (`Array::get`).
#[verifier::external_body]
pub(crate) fn array_element(array: &yrs::ArrayRef, txn: &yrs::TransactionMut<'_>, index: u32) -> (r:
    Option<yrs::MapRef>)
    ensures
        match r {
            Some(record) => index < array_records(txn, array).len() && map_entries(txn, &record)
                == array_records(txn, array)[index as int],
            None => index < array_records(txn, array).len() ==> array_records(
                txn,
                array,
            )[index as int] == Map::<Seq<char>, Value>::empty(),
        },
{
    match yrs::Array::get(array, txn, index) {
        Some(yrs::Out::YMap(record)) => Some(record),
        _ => None,
    }
}

/// Puts `value` under `key` in `map`, in place of what was there (`Map::insert`). What
/// sits beside `map`, in the same map under another key, stays as it was, and the map
/// that holds `map` holds the new contents under its key. What is put into a removed
/// map is removed at once, which is left out here.
#[verifier::external_body]
pub(crate) fn map_insert(
    map: &yrs::MapRef,
    txn: &mut yrs::TransactionMut<'_>,
    key: &str,
    value: yrs::Any,
)
    requires
        !map_removed(old(txn), map),
    ensures
        map_entries(final(txn), map) == map_entries(old(txn), map).insert(key@, any_view(&value)),
        !map_removed(final(txn), map),
        map_in_place(final(txn), map),
        forall|other: yrs::ArrayRef|
            beside(array_slot(&other), map_slot(map)) ==> #[trigger] array_same(
                old(txn),
                final(txn),
                &other,
            ),
        forall|other: yrs::MapRef|
            beside(map_slot(&other), map_slot(map)) ==> #[trigger] map_same(
                old(txn),
                final(txn),
                &other,
            ),
        forall|other: Seq<char>| #[trigger]
            child_kept(old(txn), final(txn), map_slot(map), other),
{
    yrs::Map::insert(map, txn, key, value);
}

/// What `map` holds under `key`, if it holds anything there (`Map::get`).
#[verifier::external_body]
pub(crate) fn map_get(map: &yrs::MapRef, txn: &yrs::TransactionMut<'_>, key: &str) -> (r: Option<
    yrs::Out,
>)
    ensures
        match r {
            Some(value) => map_entries(txn, map).contains_key(key@) && map_entries(txn, map)[key@]
                == out_view(&value),
            None => !map_entries(txn, map).contains_key(key@),
        },
{
    yrs::Map::get(map, txn, key)
}

/// The number of elements of `array` in a read-only transaction (`Array::len`).
#[verifier::external_body]
pub(crate) fn array_len_read(array: &yrs::ArrayRef, txn: &yrs::Transaction<'_>) -> (len: u32)
    ensures
        len == array_records_read(txn, array).len(),
{
    yrs::Array::len(array, txn)
}

/// The element of `array` at `index` in a read-only transaction, if there is one and it
/// is a map (`Array::get`).
#[verifier::external_body]
pub(crate) fn array_element_read(
    array: &yrs::ArrayRef,
    txn: &yrs::Transaction<'_>,
    index: u32,
) -> (r: Option<yrs::MapRef>)
    ensures
        match r {
            Some(record) => index < array_records_read(txn, array).len() && map_entries_read(
                txn,
                &record,
            ) == array_records_read(txn, array)[index as int],
            None => index < array_records_read(txn, array).len() ==> array_records_read(
                txn,
                array,
            )[index as int] == Map::<Seq<char>, Value>::empty(),
        },
{
    match yrs::Array::get(array, txn, index) {
        Some(yrs::Out::YMap(record)) => Some(record),
        _ => None,
    }
}

/// What `map` holds under `key` in a read-only transaction, if it holds anything there
/// (`Map::get`).
#[verifier::external_body]
pub(crate) fn map_get_read(map: &yrs::MapRef, txn: &yrs::Transaction<'_>, key: &str) -> (r: Option<
    yrs::Out,
>)
    ensures
        match r {
            Some(value) => map_entries_read(txn, map).contains_key(key@) && map_entries_read(
                txn,
                map,
            )[key@] == out_view(&value),
            None => !map_entries_read(txn, map).contains_key(key@),
        },
{
    yrs::Map::get(map, txn, key)
}

/// A transaction to read from: a read-only one, or a read-write one.
#[derive(Clone, Copy)]
pub enum Snapshot<'a, 'doc> {
    Read(&'a yrs::Transaction<'doc>),
    Write(&'a yrs::TransactionMut<'doc>),
}

impl<'a, 'doc> Snapshot<'a, 'doc> {
    /// The elements of `array` as the transaction sees them, each as a record.
    pub open spec fn records(self, array: &yrs::ArrayRef) -> Seq<Map<Seq<char>, Value>> {
        match self {
            Snapshot::Read(txn) => array_records_read(txn, array),
            Snapshot::Write(txn) => array_records(txn, array),
        }
    }

    /// The entries of `map` as the transaction sees them.
    pub open spec fn entries(self, map: &yrs::MapRef) -> Map<Seq<char>, Value> {
        match self {
            Snapshot::Read(txn) => map_entries_read(txn, map),
            Snapshot::Write(txn) => map_entries(txn, map),
        }
    }

    /// The number of elements of `array`.
    pub(crate) fn len(self, array: &yrs::ArrayRef) -> (len: u32)
        ensures
            len == self.records(array).len(),
    {
        match self {
            Snapshot::Read(txn) => array_len_read(array, txn),
            Snapshot::Write(txn) => array_len(array, txn),
        }
    }

    /// The element of `array` at `index`, if there is one and it is a map.
    pub(crate) fn element(self, array: &yrs::ArrayRef, index: u32) -> (r: Option<yrs::MapRef>)
        ensures
            match r {
                Some(record) => index < self.records(array).len() && self.entries(&record)
                    == self.records(array)[index as int],
                None => index < self.records(array).len() ==> self.records(array)[index as int]
                    == Map::<Seq<char>, Value>::empty(),
            },
    {
        match self {
            Snapshot::Read(txn) => array_element_read(array, txn, index),
            Snapshot::Write(txn) => array_element(array, txn, index),
        }
    }

    /// What `map` holds under `key`, if it holds anything there.
    pub(crate) fn get(self, map: &yrs::MapRef, key: &str) -> (r: Option<yrs::Out>)
        ensures
            match r {
                Some(value) => self.entries(map).contains_key(key@) && self.entries(map)[key@]
                    == out_view(&value),
                None => !self.entries(map).contains_key(key@),
            },
    {
        match self {
            Snapshot::Read(txn) => map_get_read(map, txn, key),
            Snapshot::Write(txn) => map_get(map, txn, key),
        }
    }
}

} // verus!
