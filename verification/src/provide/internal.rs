use vstd::prelude::*;

use crate::provide::dir::{Directed, Undirected};

verus! {

/// Keeps `Direction` closed: only the two directions of this crate implement it.
pub trait Sealed {}

impl Sealed for Directed {}

impl Sealed for Undirected {}

} // verus!
