//! The entry points a command-line driver dispatches to. The structs name
//! the commands; argument parsing and process wiring are the driver's work.

use vstd::prelude::*;

verus! {

/// Set a new project up: create its marker directory and files.
pub struct Init {}

/// Run the editor-integration server over the project.
pub struct Lsp {}

/// Rebuild the whole cross-reference index from the project tree.
pub struct Reindex {}

} // verus!
