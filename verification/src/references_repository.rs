//! The keyed table of link occurrences: an unconditional upsert per link
//! text, so the most recent record for a given text wins.

use vstd::prelude::*;

use crate::codec::{enc_reference, encode_reference, reference_encodable};
use crate::errors::GrimoireError;
use crate::reference::Reference;
use crate::store::{empty_contents, table_clear, table_contents, table_flush, table_insert};

verus! {

/// The table of link occurrences, keyed by link text.
pub struct ReferencesRepository {
    table: sled::Tree,
}

impl ReferencesRepository {
    /// The table's entries: encoded reference records under their link text.
    pub closed spec fn contents(self) -> Map<Seq<char>, Seq<u8>> {
        table_contents(self.table)
    }

    /// Wrap an open table.
    pub fn new(table: sled::Tree) -> (r: Self)
        ensures
            r.contents() == table_contents(table),
    {
        Self { table }
    }

    /// Store an occurrence under its link text, replacing whatever record
    /// held that text before: the last write wins.
    pub fn upsert_reference(&mut self, reference: &Reference) -> (r: Result<(), GrimoireError>)
        ensures
            r is Ok ==> final(self).contents() == old(self).contents().insert(
                reference@.header,
                enc_reference(reference@),
            ) && reference_encodable(reference@),
            r is Err ==> r matches Err(GrimoireError::Store { .. }),
    {
        let header = reference.header();
        let value = encode_reference(reference);
        table_insert(&mut self.table, header.as_str(), value.as_slice())
    }

    /// Remove every record.
    pub fn clear(&mut self) -> (r: Result<(), GrimoireError>)
        ensures
            r is Ok ==> final(self).contents() == empty_contents(),
            r is Err ==> r matches Err(GrimoireError::Store { .. }),
    {
        table_clear(&mut self.table)
    }

    /// Persist buffered writes.
    pub fn flush(&self) -> (r: Result<(), GrimoireError>)
        ensures
            r is Err ==> r matches Err(GrimoireError::Store { .. }),
    {
        table_flush(&self.table)
    }
}

} // verus!
