//! The options of a run and what they select.
use vstd::prelude::*;
use vstd::string::*;

verus! {

/// `std::path::PathBuf`, a path of the file system. It is carried, never
/// looked into.
#[verifier::external_type_specification]
#[verifier::external_body]
pub struct ExPathBuf(std::path::PathBuf);

/// The options of one run.
#[derive(Debug)]
pub struct Args {
    /// Where the table is written; standard output when absent.
    pub output: Option<std::path::PathBuf>,
    /// A file of comma-separated agenda rows to read the records from.
    pub csv: Option<String>,
}

/// Where the agenda records come from.
#[derive(Debug)]
pub enum Source {
    /// The user is asked for them.
    Interactive,
    /// They are read from the file at this path.
    File { path: String },
}

/// The source that the options select: the file where a path is given and
/// is not empty, the user otherwise.
pub open spec fn selected(csv: Option<String>) -> Option<Seq<char>> {
    match csv {
        Some(path) => if path@.len() > 0 {
            Some(path@)
        } else {
            None
        },
        None => None,
    }
}

impl Args {
    /// Picks the source of the records.
    pub fn source(&self) -> (out: Source)
        ensures
            match out {
                Source::Interactive => selected(self.csv) is None,
                Source::File { path } => selected(self.csv) == Some(path@),
            },
    {
        match &self.csv {
            Some(path) => {
                if path.as_str().is_empty() {
                    Source::Interactive
                } else {
                    Source::File { path: path.clone() }
                }
            },
            None => Source::Interactive,
        }
    }
}

} // verus!
