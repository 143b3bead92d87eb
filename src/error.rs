use vstd::prelude::*;

verus! {

/// Every failure that the project store and its helpers report.
#[derive(Debug)]
pub enum Error {
    ProjectNameEmpty {},
    ProjectNameTrailingSlash { project_name: String },
    ProjectNameAbsolutePath { project_name: String },
    EditorEmpty {},
    ProjectFileIsADirectory { path: String },
    ProjectDoesNotExist { project_name: String },
    EmptyCommand {},
    InvalidCommand {},
    TmuxIdentifierIllegalCharacters { identifier: String },
    TmuxIdentifierEmpty {},
}

impl Error {
    /// A one-line description of the error, for people.
    pub fn message(&self) -> (r: String) {
        match self {
            Error::ProjectNameEmpty {} => String::from_str("project name cannot be empty"),
            Error::ProjectNameTrailingSlash { .. } => String::from_str(
                "project name cannot have a trailing slash",
            ),
            Error::ProjectNameAbsolutePath { .. } => String::from_str(
                "project name cannot be an absolute path",
            ),
            Error::EditorEmpty {} => String::from_str("editor command cannot be empty"),
            Error::ProjectFileIsADirectory { .. } => String::from_str(
                "project file path is a directory",
            ),
            Error::ProjectDoesNotExist { .. } => String::from_str("project does not exist"),
            Error::EmptyCommand {} => String::from_str("command cannot be empty"),
            Error::InvalidCommand {} => String::from_str("command has unbalanced quotes"),
            Error::TmuxIdentifierIllegalCharacters { .. } => String::from_str(
                "name cannot contain the following characters: .:",
            ),
            Error::TmuxIdentifierEmpty {} => String::from_str("name cannot be empty"),
        }
    }
}

} // verus!
