//! The persistent key-value engine behind the index: two named tables of a
//! `sled` database, seen by the rest of the library as maps from text keys to
//! byte values.
//!
//! Every function here is a trusted bridge: its contract states what the
//! engine's documentation and source promise, and nothing more. Results that
//! depend on the machine or the disk promise nothing beyond their shape.

use vstd::prelude::*;

use crate::errors::GrimoireError;

verus! {

#[verifier::external_type_specification]
#[verifier::external_body]
pub struct ExDb(sled::Db);

#[verifier::external_type_specification]
#[verifier::external_body]
pub struct ExTree(sled::Tree);

/// What a table holds: its entries under text keys. Entries under keys that
/// are not valid text are outside this view and stay untouched by the
/// operations below except `clear`, which removes everything.
pub uninterp spec fn table_contents(t: sled::Tree) -> Map<Seq<char>, Seq<u8>>;

/// A table with nothing in it.
pub open spec fn empty_contents() -> Map<Seq<char>, Seq<u8>> {
    Map::empty()
}

/// Relies on `sled::Db::open_tree`: opens or creates the named table. What
/// it holds depends on the disk, so nothing is promised of the contents.
/// The handle is a shared clone inside the engine, so the contents view is
/// coherent only while each named table is opened once per run, as this
/// library does.
#[verifier::external_body]
pub(crate) fn open_tree(db: &sled::Db, name: &str) -> (r: Result<sled::Tree, GrimoireError>)
    ensures
        r is Err ==> r matches Err(GrimoireError::Store { .. }),
{
    match db.open_tree(name.as_bytes()) {
        Ok(t) => Ok(t),
        Err(e) => Err(GrimoireError::Store { message: format!("{}", e) }),
    }
}

/// Relies on `sled::Tree::insert`: on success the key maps to the new value
/// and every other entry is kept; on failure nothing is promised.
#[verifier::external_body]
pub(crate) fn table_insert(t: &mut sled::Tree, key: &str, value: &[u8]) -> (r: Result<
    (),
    GrimoireError,
>)
    ensures
        r is Ok ==> table_contents(*final(t)) == table_contents(*old(t)).insert(key@, value@),
        r is Err ==> r matches Err(GrimoireError::Store { .. }),
{
    match t.insert(key.as_bytes(), value) {
        Ok(_) => Ok(()),
        Err(e) => Err(GrimoireError::Store { message: format!("{}", e) }),
    }
}

/// Relies on `sled::Tree::get`: on success, returns the value under the key
/// exactly when the table holds one.
#[verifier::external_body]
pub(crate) fn table_get(t: &sled::Tree, key: &str) -> (r: Result<Option<Vec<u8>>, GrimoireError>)
    ensures
        r matches Ok(v) ==> match v {
            Some(bytes) => table_contents(*t).contains_key(key@) && bytes@ == table_contents(
                *t,
            )[key@],
            None => !table_contents(*t).contains_key(key@),
        },
        r is Err ==> r matches Err(GrimoireError::Store { .. }),
{
    match t.get(key.as_bytes()) {
        Ok(Some(v)) => Ok(Some(v.to_vec())),
        Ok(None) => Ok(None),
        Err(e) => Err(GrimoireError::Store { message: format!("{}", e) }),
    }
}

/// Relies on `sled::Tree::clear`: on success the table holds nothing.
#[verifier::external_body]
pub(crate) fn table_clear(t: &mut sled::Tree) -> (r: Result<(), GrimoireError>)
    ensures
        r is Ok ==> table_contents(*final(t)) == empty_contents(),
        r is Err ==> r matches Err(GrimoireError::Store { .. }),
{
    match t.clear() {
        Ok(()) => Ok(()),
        Err(e) => Err(GrimoireError::Store { message: format!("{}", e) }),
    }
}

/// Relies on `sled::Tree::flush`: persists buffered writes; the contents are
/// unchanged (the tree is borrowed immutably).
#[verifier::external_body]
pub(crate) fn table_flush(t: &sled::Tree) -> (r: Result<(), GrimoireError>)
    ensures
        r is Err ==> r matches Err(GrimoireError::Store { .. }),
{
    match t.flush() {
        Ok(_) => Ok(()),
        Err(e) => Err(GrimoireError::Store { message: format!("{}", e) }),
    }
}

/// How a listing corresponds to a table's contents: the keys are pairwise
/// distinct, every listed entry is held under its key, and every held entry
/// is listed. The engine iterates in key order, but no caller relies on it.
pub open spec fn entries_match(m: Map<Seq<char>, Seq<u8>>, es: Seq<(String, Vec<u8>)>) -> bool {
    &&& forall|i: int, j: int|
        0 <= i < j < es.len() ==> (#[trigger] es[i]).0@ != (#[trigger] es[j]).0@
    &&& forall|i: int|
        0 <= i < es.len() ==> m.contains_key((#[trigger] es[i]).0@) && m[es[i].0@] == es[i].1@
    &&& forall|k: Seq<char>|
        #[trigger] m.contains_key(k) ==> exists|i: int| 0 <= i < es.len() && (#[trigger] es[i]).0@
            == k
}

/// Relies on `sled::Tree::iter`: on success, one entry per key in the table,
/// each with its value. An entry whose key is not valid text fails the call
/// instead of being misread.
#[verifier::external_body]
pub(crate) fn table_entries(t: &sled::Tree) -> (r: Result<Vec<(String, Vec<u8>)>, GrimoireError>)
    ensures
        r matches Ok(es) ==> entries_match(table_contents(*t), es@),
        r is Err ==> r matches Err(GrimoireError::Store { .. }),
{
    let mut out = Vec::new();
    for entry in t.iter() {
        match entry {
            Err(e) => return Err(GrimoireError::Store { message: format!("{}", e) }),
            Ok((k, v)) => match String::from_utf8(k.to_vec()) {
                Err(_) => return Err(GrimoireError::Store {
                    message: "a stored key is not valid text".to_string(),
                }),
                Ok(s) => out.push((s, v.to_vec())),
            },
        }
    }
    Ok(out)
}

} // verus!
