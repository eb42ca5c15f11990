//! The vanilla releases that a data directory can be recognised as.
use vstd::prelude::*;

verus! {

/// A release of the original game content.
#[allow(non_camel_case_types)]
#[derive(Clone, Copy, Debug, PartialEq, Eq, Structural)]
pub enum VanillaVersion {
    DUTCH,
    ENGLISH,
    FRENCH,
    GERMAN,
    ITALIAN,
    POLISH,
    RUSSIAN,
    RUSSIAN_GOLD,
    SIMPLIFIED_CHINESE,
}

/// The release whose identifier is `s`, if any.
pub open spec fn version_named(s: Seq<char>) -> Option<VanillaVersion> {
    if s == "DUTCH"@ {
        Some(VanillaVersion::DUTCH)
    } else if s == "ENGLISH"@ {
        Some(VanillaVersion::ENGLISH)
    } else if s == "FRENCH"@ {
        Some(VanillaVersion::FRENCH)
    } else if s == "GERMAN"@ {
        Some(VanillaVersion::GERMAN)
    } else if s == "ITALIAN"@ {
        Some(VanillaVersion::ITALIAN)
    } else if s == "POLISH"@ {
        Some(VanillaVersion::POLISH)
    } else if s == "RUSSIAN"@ {
        Some(VanillaVersion::RUSSIAN)
    } else if s == "RUSSIAN_GOLD"@ {
        Some(VanillaVersion::RUSSIAN_GOLD)
    } else if s == "SIMPLIFIED_CHINESE"@ {
        Some(VanillaVersion::SIMPLIFIED_CHINESE)
    } else {
        None
    }
}

impl VanillaVersion {
    /// Reads a release from its identifier.
    pub fn parse(s: &String) -> (r: Option<VanillaVersion>)
        ensures
            r == version_named(s@),
    {
        if *s == "DUTCH".to_owned() {
            Some(VanillaVersion::DUTCH)
        } else if *s == "ENGLISH".to_owned() {
            Some(VanillaVersion::ENGLISH)
        } else if *s == "FRENCH".to_owned() {
            Some(VanillaVersion::FRENCH)
        } else if *s == "GERMAN".to_owned() {
            Some(VanillaVersion::GERMAN)
        } else if *s == "ITALIAN".to_owned() {
            Some(VanillaVersion::ITALIAN)
        } else if *s == "POLISH".to_owned() {
            Some(VanillaVersion::POLISH)
        } else if *s == "RUSSIAN".to_owned() {
            Some(VanillaVersion::RUSSIAN)
        } else if *s == "RUSSIAN_GOLD".to_owned() {
            Some(VanillaVersion::RUSSIAN_GOLD)
        } else if *s == "SIMPLIFIED_CHINESE".to_owned() {
            Some(VanillaVersion::SIMPLIFIED_CHINESE)
        } else {
            None
        }
    }
}

} // verus!
