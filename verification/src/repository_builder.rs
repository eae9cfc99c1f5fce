//! The pair of index tables over one open store: file records under
//! `files`, link occurrences under `references`.

use vstd::prelude::*;

use crate::errors::GrimoireError;
use crate::files_repository::FilesRepository;
use crate::references_repository::ReferencesRepository;
use crate::store::{empty_contents, open_tree};

verus! {

/// Both index tables of one store.
pub struct RepositoryBuilder {
    files_repository: FilesRepository,
    references_repository: ReferencesRepository,
}

impl RepositoryBuilder {
    /// The file records table.
    pub closed spec fn spec_files(self) -> FilesRepository {
        self.files_repository
    }

    /// The link occurrences table.
    pub closed spec fn spec_references(self) -> ReferencesRepository {
        self.references_repository
    }

    /// Open both named tables on the store. What they hold depends on the
    /// disk.
    pub fn new(conn: &sled::Db) -> (r: Result<Self, GrimoireError>)
        ensures
            r is Err ==> r matches Err(GrimoireError::Store { .. }),
    {
        let files_table = match open_tree(conn, "files") {
            Ok(t) => t,
            Err(e) => {
                return Err(e);
            },
        };
        let references_table = match open_tree(conn, "references") {
            Ok(t) => t,
            Err(e) => {
                return Err(e);
            },
        };
        Ok(
            Self {
                files_repository: FilesRepository::new(files_table),
                references_repository: ReferencesRepository::new(references_table),
            },
        )
    }

    /// Remove every record from both tables.
    pub fn clear(&mut self) -> (r: Result<(), GrimoireError>)
        ensures
            r is Ok ==> final(self).spec_files().contents() == empty_contents()
                && final(self).spec_references().contents() == empty_contents(),
            r is Err ==> r matches Err(GrimoireError::Store { .. }),
    {
        match self.files_repository.clear() {
            Ok(()) => {},
            Err(e) => {
                return Err(e);
            },
        }
        self.references_repository.clear()
    }

    /// Persist buffered writes of both tables.
    pub fn flush(&self) -> (r: Result<(), GrimoireError>)
        ensures
            r is Err ==> r matches Err(GrimoireError::Store { .. }),
    {
        match self.files_repository.flush() {
            Ok(()) => {},
            Err(e) => {
                return Err(e);
            },
        }
        self.references_repository.flush()
    }

    /// The file records table.
    pub fn files(&mut self) -> (r: &mut FilesRepository)
        ensures
            *r == old(self).spec_files(),
            final(self).spec_files() == *final(r),
            final(self).spec_references() == old(self).spec_references(),
    {
        &mut self.files_repository
    }

    /// The link occurrences table.
    pub fn references(&mut self) -> (r: &mut ReferencesRepository)
        ensures
            *r == old(self).spec_references(),
            final(self).spec_references() == *final(r),
            final(self).spec_files() == old(self).spec_files(),
    {
        &mut self.references_repository
    }
}

} // verus!
