//! Errors and checks of loading a project directory.
use vstd::prelude::*;

verus! {

/// The kind of a description file, read from its header.
#[derive(Clone, Copy, Debug, PartialEq, Eq, Structural)]
pub enum FileKind {
    Main,
    Source,
    Sink,
}

/// The project name is empty.
#[derive(Clone, Copy, Debug, PartialEq, Eq, Structural)]
pub struct EmptyNameError;

/// Loading the main file failed.
#[derive(Clone, Debug)]
pub enum MainLoadError {
    /// There is no main file at this path.
    NotFound(String),
}

/// Loading the project failed.
#[derive(Clone, Debug)]
pub enum LoadError {
    PathDoesNotExist(String),
    PathIsNotDir(String),
    MainFileError(MainLoadError),
    EmptyName(EmptyNameError),
}

/// A project directory to load.
#[derive(Clone, Debug)]
pub struct LoadProjectDir {
    pub path: String,
}

impl LoadProjectDir {
    /// The name of the main file inside the project directory.
    pub const MAIN_FILE_NAME: &'static str = "main.yaml";

    /// Decides whether the project path can be loaded, from what the file
    /// system says of it.
    pub fn validate_path(&self, exists: bool, is_dir: bool) -> (r: Result<(), LoadError>)
        ensures
            !exists ==> (r matches Err(LoadError::PathDoesNotExist(p)) && p@ == self.path@),
            exists && !is_dir ==> (r matches Err(LoadError::PathIsNotDir(p)) && p@ == self.path@),
            exists && is_dir ==> r is Ok,
    {
        if !exists {
            return Err(LoadError::PathDoesNotExist(self.path.clone()));
        }
        if !is_dir {
            return Err(LoadError::PathIsNotDir(self.path.clone()));
        }
        Ok(())
    }

    /// Decides whether the main file can be read, from whether it exists.
    pub fn check_main(main_file: String, exists: bool) -> (r: Result<String, MainLoadError>)
        ensures
            exists ==> (r matches Ok(p) && p@ == main_file@),
            !exists ==> (r matches Err(MainLoadError::NotFound(p)) && p@ == main_file@),
    {
        if !exists {
            return Err(MainLoadError::NotFound(main_file));
        }
        Ok(main_file)
    }
}

} // verus!
