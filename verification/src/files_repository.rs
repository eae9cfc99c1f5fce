//! The keyed table of file records, with the uniqueness rule: one record per
//! title, and a duplicate title is refused.

use vstd::prelude::*;
use vstd::string::*;

use crate::codec::{decode_file, enc_file, encode_file, file_encodable, sdec_file_full};
use crate::errors::GrimoireError;
use crate::file::File;
use crate::store::{
    empty_contents, entries_match, table_clear, table_contents, table_entries, table_flush,
    table_get, table_insert,
};

verus! {

/// How a listing of decoded records corresponds to a table's contents:
/// one record per held key, each decoded from the value under its key.
pub open spec fn files_match(m: Map<Seq<char>, Seq<u8>>, fs: Seq<File>) -> bool {
    exists|ks: Seq<Seq<char>>|
        {
            &&& ks.len() == fs.len()
            &&& (forall|i: int, j: int| 0 <= i < j < ks.len() ==> ks[i] != ks[j])
            &&& (forall|i: int|
                0 <= i < ks.len() ==> m.contains_key(#[trigger] ks[i]) && sdec_file_full(
                    m[ks[i]],
                ) == Some(fs[i]@))
            &&& (forall|k: Seq<char>|
                #[trigger] m.contains_key(k) ==> exists|i: int| 0 <= i < ks.len() && ks[i] == k)
        }
}

/// The table of file records, keyed by title.
pub struct FilesRepository {
    table: sled::Tree,
}

impl FilesRepository {
    /// The table's entries: encoded file records under their titles.
    pub closed spec fn contents(self) -> Map<Seq<char>, Seq<u8>> {
        table_contents(self.table)
    }

    /// Wrap an open table.
    pub fn new(table: sled::Tree) -> (r: Self)
        ensures
            r.contents() == table_contents(table),
    {
        Self { table }
    }

    /// Store a file record under its title, unless some record already
    /// claims that title: the existing record wins and the call fails with
    /// the conflict's context.
    pub fn create_file(&mut self, file: &File) -> (r: Result<(), GrimoireError>)
        ensures
            r is Ok ==> !old(self).contents().contains_key(file@.header)
                && final(self).contents()
                == old(self).contents().insert(file@.header, enc_file(file@))
                && file_encodable(file@),
            r matches Err(GrimoireError::DuplicateHeader { old_path, new_path, header })
                ==> old(self).contents().contains_key(file@.header)
                && final(self).contents() == old(self).contents()
                && new_path@ == file@.path && header@ == file@.header
                && (sdec_file_full(old(self).contents()[file@.header]) matches Some(fm)
                && fm.path == old_path@),
            r matches Err(GrimoireError::InvalidRecord { .. })
                ==> old(self).contents().contains_key(file@.header)
                && sdec_file_full(old(self).contents()[file@.header]) is None
                && final(self).contents() == old(self).contents(),
            r is Err ==> (r matches Err(GrimoireError::DuplicateHeader { .. })
                || r matches Err(GrimoireError::InvalidRecord { .. })
                || r matches Err(GrimoireError::Store { .. })),
    {
        let header = file.header();
        match self.find(header.as_str()) {
            Err(e) => Err(e),
            Ok(Some(old_file)) => Err(
                crate::errors::file_with_duplicate_header_created(&old_file, file),
            ),
            Ok(None) => {
                let value = encode_file(file);
                table_insert(&mut self.table, header.as_str(), value.as_slice())
            },
        }
    }

    /// Look a title up and decode the record held under it, if any.
    pub fn find(&self, header: &str) -> (r: Result<Option<File>, GrimoireError>)
        ensures
            r matches Ok(Some(f)) ==> self.contents().contains_key(header@) && sdec_file_full(
                self.contents()[header@],
            ) == Some(f@),
            r matches Ok(None) ==> !self.contents().contains_key(header@),
            r matches Err(GrimoireError::InvalidRecord { .. }) ==> self.contents().contains_key(
                header@,
            ) && sdec_file_full(self.contents()[header@]) is None,
            r is Err ==> (r matches Err(GrimoireError::InvalidRecord { .. }) || r matches Err(
                GrimoireError::Store { .. },
            )),
    {
        match table_get(&self.table, header) {
            Err(e) => Err(e),
            Ok(None) => Ok(None),
            Ok(Some(value)) => match decode_file(&value) {
                Some(f) => Ok(Some(f)),
                None => Err(
                    GrimoireError::InvalidRecord {
                        message: String::from_str("a stored file record could not be decoded"),
                    },
                ),
            },
        }
    }

    /// Decode every record the table holds, one per title.
    pub fn find_all(&self) -> (r: Result<Vec<File>, GrimoireError>)
        ensures
            r matches Ok(fs) ==> files_match(self.contents(), fs@),
            r matches Err(GrimoireError::InvalidRecord { .. }) ==> exists|k: Seq<char>|
                self.contents().contains_key(k) && (#[trigger] sdec_file_full(
                    self.contents()[k],
                )) is None,
            r is Err ==> (r matches Err(GrimoireError::InvalidRecord { .. }) || r matches Err(
                GrimoireError::Store { .. },
            )),
    {
        let entries = match table_entries(&self.table) {
            Err(e) => {
                return Err(e);
            },
            Ok(es) => es,
        };
        let ghost m = self.contents();
        let ghost es = entries@;
        let mut files: Vec<File> = Vec::new();
        let mut i: usize = 0;
        while i < entries.len()
            invariant
                i <= es.len(),
                es == entries@,
                m == self.contents(),
                entries_match(m, es),
                files@.len() == i,
                forall|k: int|
                    0 <= k < i ==> m.contains_key(#[trigger] es[k].0@) && sdec_file_full(
                        m[es[k].0@],
                    ) == Some(files@[k]@),
            decreases entries.len() - i,
        {
            let value = &entries[i].1;
            match decode_file(value) {
                Some(f) => {
                    files.push(f);
                },
                None => {
                    proof {
                        assert(m.contains_key(es[i as int].0@) && sdec_file_full(
                            m[es[i as int].0@],
                        ) is None);
                    }
                    return Err(
                        GrimoireError::InvalidRecord {
                            message: String::from_str(
                                "a stored file record could not be decoded",
                            ),
                        },
                    );
                },
            }
            i = i + 1;
        }
        proof {
            let ks = Seq::new(es.len(), |k: int| es[k].0@);
            assert(files_match(m, files@)) by {
                assert(ks.len() == files@.len());
                assert(forall|a: int, b: int| 0 <= a < b < ks.len() ==> ks[a] != ks[b]);
                assert(forall|a: int|
                    0 <= a < ks.len() ==> m.contains_key(#[trigger] ks[a]) && sdec_file_full(
                        m[ks[a]],
                    ) == Some(files@[a]@));
                assert forall|k: Seq<char>| #[trigger] m.contains_key(k) implies exists|a: int|
                    0 <= a < ks.len() && ks[a] == k by {
                    let a = choose|a: int| 0 <= a < es.len() && (#[trigger] es[a]).0@ == k;
                    assert(ks[a] == k);
                }
            }
        }
        Ok(files)
    }

    /// Remove every record.
    pub fn clear(&mut self) -> (r: Result<(), GrimoireError>)
        ensures
            r is Ok ==> final(self).contents() == empty_contents(),
            r is Err ==> r matches Err(GrimoireError::Store { .. }),
    {
        table_clear(&mut self.table)
    }

    /// Persist buffered writes.
    pub fn flush(&self) -> (r: Result<(), GrimoireError>)
        ensures
            r is Err ==> r matches Err(GrimoireError::Store { .. }),
    {
        table_flush(&self.table)
    }
}

} // verus!
