//! Typed failures. Construction is separated from any logging or display
//! concern: each failure carries the context needed to report it, and
//! [`GrimoireError::message`] renders the user-facing text.

use vstd::prelude::*;
use vstd::string::*;

use crate::file::File;

verus! {

/// Every failure this library can produce.
#[derive(Debug)]
pub enum GrimoireError {
    /// No project marker directory was found.
    ProjectUninitialized,
    /// A project marker directory already exists.
    ProjectAlreadyInitialized,
    /// A protocol URL did not yield a usable file path.
    InvalidPathFromUrl { url: String },
    /// A single cursor position fell on more than one link span.
    OverlappingReferences { path: String },
    /// A document had no recognizable title line.
    HeaderNotFound { path: String },
    /// A path could not be represented as text.
    PathNotText { path: String },
    /// Two documents claimed the same title.
    DuplicateHeader { old_path: String, new_path: String, header: String },
    /// The underlying store reported a failure.
    Store { message: String },
    /// A stored record could not be decoded.
    InvalidRecord { message: String },
}

/// The user-facing text of each failure.
pub open spec fn spec_message(e: GrimoireError) -> Seq<char> {
    match e {
        GrimoireError::ProjectUninitialized => "A Grimoire project hasn't been initialized yet."@,
        GrimoireError::ProjectAlreadyInitialized => "A Grimoire project has already been initialized."@,
        GrimoireError::InvalidPathFromUrl { url } => "Invalid path extracted from url \""@ + url@
            + "\""@,
        GrimoireError::OverlappingReferences { path } => "Invalid overlapping references in file: \""@
            + path@ + "\""@,
        GrimoireError::HeaderNotFound { path } => "A header for file \""@ + path@
            + "\" could not be found."@,
        GrimoireError::PathNotText { path } => "The following path \""@ + path@
            + "\" could not represented as a string."@,
        GrimoireError::DuplicateHeader { old_path, new_path, header } => "A file \""@ + new_path@
            + "\" was attempted to be saved with header \""@ + header@
            + "\", but another file with the same header already existed at \""@ + old_path@
            + "\""@,
        GrimoireError::Store { message } => message@,
        GrimoireError::InvalidRecord { message } => message@,
    }
}

impl GrimoireError {
    /// Render the user-facing text of this failure.
    pub fn message(&self) -> (r: String)
        ensures
            r@ == spec_message(*self),
    {
        match self {
            GrimoireError::ProjectUninitialized => String::from_str(
                "A Grimoire project hasn't been initialized yet.",
            ),
            GrimoireError::ProjectAlreadyInitialized => String::from_str(
                "A Grimoire project has already been initialized.",
            ),
            GrimoireError::InvalidPathFromUrl { url } => {
                let mut m = String::from_str("Invalid path extracted from url \"");
                m.append(url.as_str());
                m.append("\"");
                m
            },
            GrimoireError::OverlappingReferences { path } => {
                let mut m = String::from_str("Invalid overlapping references in file: \"");
                m.append(path.as_str());
                m.append("\"");
                m
            },
            GrimoireError::HeaderNotFound { path } => {
                let mut m = String::from_str("A header for file \"");
                m.append(path.as_str());
                m.append("\" could not be found.");
                m
            },
            GrimoireError::PathNotText { path } => {
                let mut m = String::from_str("The following path \"");
                m.append(path.as_str());
                m.append("\" could not represented as a string.");
                m
            },
            GrimoireError::DuplicateHeader { old_path, new_path, header } => {
                let mut m = String::from_str("A file \"");
                m.append(new_path.as_str());
                m.append("\" was attempted to be saved with header \"");
                m.append(header.as_str());
                m.append("\", but another file with the same header already existed at \"");
                m.append(old_path.as_str());
                m.append("\"");
                m
            },
            GrimoireError::Store { message } => message.clone(),
            GrimoireError::InvalidRecord { message } => message.clone(),
        }
    }
}

/// No project marker directory was found.
pub fn project_uninitialized() -> (r: GrimoireError)
    ensures
        r == GrimoireError::ProjectUninitialized,
{
    GrimoireError::ProjectUninitialized
}

/// A project marker directory already exists.
pub fn project_already_initialized() -> (r: GrimoireError)
    ensures
        r == GrimoireError::ProjectAlreadyInitialized,
{
    GrimoireError::ProjectAlreadyInitialized
}

/// A protocol URL did not yield a usable file path.
pub fn invalid_path_from_url(url: &str) -> (r: GrimoireError)
    ensures
        r matches GrimoireError::InvalidPathFromUrl { url: u } && u@ == url@,
{
    GrimoireError::InvalidPathFromUrl { url: String::from_str(url) }
}

/// A single cursor position fell on more than one link span.
pub fn invalid_overlapping_references_in_file(path: &str) -> (r: GrimoireError)
    ensures
        r matches GrimoireError::OverlappingReferences { path: p } && p@ == path@,
{
    GrimoireError::OverlappingReferences { path: String::from_str(path) }
}

/// A document had no recognizable title line.
pub fn markdown_header_not_found_during_parsing(path: &str) -> (r: GrimoireError)
    ensures
        r matches GrimoireError::HeaderNotFound { path: p } && p@ == path@,
{
    GrimoireError::HeaderNotFound { path: String::from_str(path) }
}

/// A path could not be represented as text.
pub fn path_cannot_convert_to_string(path: &str) -> (r: GrimoireError)
    ensures
        r matches GrimoireError::PathNotText { path: p } && p@ == path@,
{
    GrimoireError::PathNotText { path: String::from_str(path) }
}

/// Two documents claimed the same title: the existing record wins.
pub fn file_with_duplicate_header_created(old_file: &File, new_file: &File) -> (r: GrimoireError)
    ensures
        r matches GrimoireError::DuplicateHeader { old_path, new_path, header } && old_path@
            == old_file@.path && new_path@ == new_file@.path && header@ == new_file@.header,
{
    GrimoireError::DuplicateHeader {
        old_path: old_file.path.clone(),
        new_path: new_file.path.clone(),
        header: new_file.header.clone(),
    }
}

} // verus!
