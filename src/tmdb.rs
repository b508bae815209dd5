use vstd::prelude::*;

verus! {

/// What the dashboard keeps of a TV show's details.
#[derive(Clone, Copy, Debug, PartialEq, Eq, Structural)]
pub struct TVShowDetails {
    pub number_of_seasons: i32,
}

} // verus!
