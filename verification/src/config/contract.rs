use vstd::prelude::*;

verus! {

/// A named constraint on the value of a template placeholder.
#[derive(Debug, Clone)]
pub enum Contract {
    /// An integer within `min..=max`.
    IntRange { min: i64, max: i64 },
    /// A string whose UTF-8 length in bytes is within `min..=max`.
    StringLen { min: usize, max: usize },
    /// One of the listed strings.
    Enum { values: Vec<String> },
}

} // verus!
