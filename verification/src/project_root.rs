//! The project's root directory and the well-known paths under it.

use vstd::prelude::*;
use vstd::string::*;

use crate::errors::GrimoireError;

verus! {

/// The directory a root path is joined with to hold project files.
pub open spec fn spec_config_dir(root: Seq<char>) -> Seq<char> {
    root + "/.grimoire"@
}

/// A directory to treat as the project root, or nothing when none could be
/// determined.
pub struct CurrentDirectoryArgs {
    pub current_dir: Option<String>,
}

impl CurrentDirectoryArgs {
    /// A root taken from the given directory path.
    pub fn from_path(current_dir: String) -> (r: Self)
        ensures
            r.current_dir matches Some(d) && d@ == current_dir@,
    {
        Self { current_dir: Some(current_dir) }
    }
}

/// The validated root of a project: every other project path hangs off it.
#[derive(Debug)]
pub struct ProjectRoot {
    file_path: String,
}

impl ProjectRoot {
    /// The root's path.
    pub closed spec fn root(self) -> Seq<char> {
        self.file_path@
    }

    /// Adopt the given directory as the project root; fail when none was
    /// supplied.
    pub fn new(args: CurrentDirectoryArgs) -> (r: Result<Self, GrimoireError>)
        ensures
            args.current_dir matches Some(d) ==> (r matches Ok(p) && p.root() == d@),
            args.current_dir is None ==> r matches Err(GrimoireError::ProjectUninitialized),
    {
        match args.current_dir {
            Some(dir) => Ok(Self { file_path: dir }),
            None => Err(crate::errors::project_uninitialized()),
        }
    }

    /// The root's path.
    pub fn file_path(&self) -> (r: String)
        ensures
            r@ == self.root(),
    {
        self.file_path.clone()
    }

    /// The directory that marks a directory as a project root.
    pub fn config_file_directory(&self) -> (r: String)
        ensures
            r@ == spec_config_dir(self.root()),
    {
        let mut p = self.file_path.clone();
        p.append("/.grimoire");
        p
    }

    /// The project's configuration file.
    pub fn config_file_path(&self) -> (r: String)
        ensures
            r@ == spec_config_dir(self.root()) + "/config.toml"@,
    {
        let mut p = self.config_file_directory();
        p.append("/config.toml");
        p
    }

    /// The directory holding the project's log.
    pub fn log_file_directory(&self) -> (r: String)
        ensures
            r@ == spec_config_dir(self.root()) + "/logs"@,
    {
        let mut p = self.config_file_directory();
        p.append("/logs");
        p
    }

    /// The project's log file.
    pub fn log_file_path(&self) -> (r: String)
        ensures
            r@ == spec_config_dir(self.root()) + "/logs"@ + "/log.txt"@,
    {
        let mut p = self.log_file_directory();
        p.append("/log.txt");
        p
    }

    /// The project's store file.
    pub fn db_file_path(&self) -> (r: String)
        ensures
            r@ == spec_config_dir(self.root()) + "/grimoire.db"@,
    {
        let mut p = self.config_file_directory();
        p.append("/grimoire.db");
        p
    }
}

} // verus!
