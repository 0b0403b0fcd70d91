use vstd::prelude::*;

verus! {

/// Which of two paired roles sits nearer to the background tone.
#[derive(Clone, Copy, Debug, Eq, PartialEq, Structural)]
pub enum TonePolarity {
    Darker,
    Lighter,
    Nearer,
    Farther,
}

} // verus!
