//! Guesses which vanilla release a game data directory holds, by language
//! fingerprints and by matching its files against reference resource packs.

pub mod caseless;
pub mod version;
pub mod resource;
pub mod error;
pub mod matching;
pub mod score;
pub mod guess;
