//! The error of a guess.
use vstd::prelude::*;
use vstd::string::StringExecFns;

verus! {

/// Why a guess could not be made.
pub enum GuessError {
    /// No directory named "data" (in any case) is in the game directory.
    DataDirNotFound,
    /// More than one directory named "data" (in any case) is in the game directory.
    TooManyDataDirs,
    /// A resource pack has no `vanilla_version` property.
    MissingVersion,
    /// A resource pack names a release that is not known.
    UnknownVersion(String),
    /// Two resources of one collection share a comparison key.
    DuplicateKey,
    /// Neither strategy settled on a release.
    GiveUp,
    /// Reading the game directory or a resource pack failed.
    Io(String),
}

impl GuessError {
    /// A human-readable account of the error.
    pub fn description(&self) -> (r: String)
        ensures
            match self {
                GuessError::UnknownVersion(v) => r@ == "unknown vanilla_version "@ + v@,
                GuessError::Io(d) => r@ == d@,
                _ => r@.len() > 0,
            },
    {
        match self {
            GuessError::DataDirNotFound => {
                proof {
                    reveal_strlit("Data dir not found");
                }
                "Data dir not found".to_owned()
            },
            GuessError::TooManyDataDirs => {
                proof {
                    reveal_strlit("Too many data dirs");
                }
                "Too many data dirs".to_owned()
            },
            GuessError::MissingVersion => {
                proof {
                    reveal_strlit("vanilla_version is missing");
                }
                "vanilla_version is missing".to_owned()
            },
            GuessError::UnknownVersion(v) => {
                let mut d = "unknown vanilla_version ".to_owned();
                d.append(v.as_str());
                d
            },
            GuessError::DuplicateKey => {
                proof {
                    reveal_strlit("Two resources share a path");
                }
                "Two resources share a path".to_owned()
            },
            GuessError::GiveUp => {
                proof {
                    reveal_strlit("Give up");
                }
                "Give up".to_owned()
            },
            GuessError::Io(d) => d.clone(),
        }
    }
}

} // verus!
