//! A wiki-style link occurrence captured from a document.

use vstd::prelude::*;

use crate::codec::{enc_reference, reference_encodable};
use crate::errors::GrimoireError;
use crate::location::{LocModel, Location};
use crate::references_repository::ReferencesRepository;

verus! {

/// Mathematical model of a [`Reference`].
pub struct ReferenceModel {
    pub path: Seq<char>,
    pub header: Seq<char>,
    pub header_location: LocModel,
    pub persisted: bool,
}

/// One `[[...]]` occurrence: the linked title, where its first captured
/// character sits, and the path of the document that contains it.
#[derive(Debug)]
pub struct Reference {
    pub path: String,
    pub header: String,
    pub header_location: Location,
    pub persisted: bool,
}

impl View for Reference {
    type V = ReferenceModel;

    open spec fn view(&self) -> ReferenceModel {
        ReferenceModel {
            path: self.path@,
            header: self.header@,
            header_location: self.header_location@,
            persisted: self.persisted,
        }
    }
}

impl Reference {
    /// A fresh, not yet persisted occurrence.
    pub fn new(path: String, header: String, header_location: Location) -> (r: Self)
        ensures
            r@.path == path@,
            r@.header == header@,
            r@.header_location == header_location@,
            r@.persisted == false,
    {
        Self { path, header, header_location, persisted: false }
    }

    /// The owning document's path, as the text that the index stores.
    pub fn serializable_path(&self) -> (r: Result<String, crate::errors::GrimoireError>)
        ensures
            r matches Ok(p) && p@ == self@.path,
    {
        Ok(self.path.clone())
    }

    /// The linked title.
    pub fn header(&self) -> (r: String)
        ensures
            r@ == self@.header,
    {
        self.header.clone()
    }

    /// Where the occurrence's first captured character sits.
    pub fn location(&self) -> (r: &Location)
        ensures
            r@ == self@.header_location,
    {
        &self.header_location
    }
}

impl Reference {
    /// Write this occurrence into the index, last write per link text
    /// winning, and mark it persisted.
    pub fn upsert(&mut self, repository: &mut ReferencesRepository) -> (r: Result<
        (),
        GrimoireError,
    >)
        ensures
            r is Ok ==> final(repository).contents() == old(repository).contents().insert(
                old(self)@.header,
                enc_reference(old(self)@),
            ) && reference_encodable(old(self)@) && final(self)@ == (ReferenceModel {
                persisted: true,
                ..old(self)@
            }),
            r is Err ==> *final(self) == *old(self) && r matches Err(
                GrimoireError::Store { .. },
            ),
    {
        match repository.upsert_reference(self) {
            Ok(()) => {
                self.persisted = true;
                Ok(())
            },
            Err(e) => Err(e),
        }
    }
}

impl Clone for Reference {
    /// A field-for-field copy.
    fn clone(&self) -> (r: Self)
        ensures
            r == *self,
    {
        Self {
            path: self.path.clone(),
            header: self.header.clone(),
            header_location: self.header_location,
            persisted: self.persisted,
        }
    }
}

} // verus!
