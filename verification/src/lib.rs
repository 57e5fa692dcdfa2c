//! Verified core of the sound-board engine: MIDI and keyboard input rules and
//! the music library's catalog logic.
use vstd::prelude::*;

pub mod input;
pub mod library;
pub mod model;
pub mod seqs;
pub mod text;

verus! {
} // verus!
