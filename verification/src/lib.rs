//! Difficulty overlay for Quaver maps: the map model, the parsing of the
//! files that Quaver writes while a map is played, the folding of hit objects
//! into chords, and the decision logic of the file watcher and of the overlay.
use vstd::prelude::*;

pub mod text;
pub mod map;
pub mod chords;
pub mod quaver;
pub mod watcher;
pub mod overlay;

verus! {

} // verus!
