//! The vocabulary a front end picks from: the report format and the
//! value-function variant, with the spellings they parse from.

use vstd::prelude::*;

verus! {

/// How a front end reports progress: for people, or as machine-readable
/// records.
#[derive(Clone, Copy, PartialEq, Eq, Structural, Debug)]
pub enum OutputFormat {
    Human,
    Json,
}

impl OutputFormat {
    /// The accepted spellings, in declaration order.
    pub fn possible_values() -> (r: Vec<&'static str>)
        ensures
            r@.len() == 2,
            r@[0]@ == "human"@,
            r@[1]@ == "json"@,
    {
        let mut v: Vec<&'static str> = Vec::new();
        v.push("human");
        v.push("json");
        v
    }
}

/// Which value function the engine trains and plays with.
#[derive(Clone, Copy, PartialEq, Eq, Structural, Debug)]
pub enum VFunctionChoice {
    Legacy,
    NTupleSmall,
    NTupleMedium,
}

impl VFunctionChoice {
    /// The accepted spellings, in declaration order.
    pub fn possible_values() -> (r: Vec<&'static str>)
        ensures
            r@.len() == 3,
            r@[0]@ == "legacy"@,
            r@[1]@ == "n_tuple_small"@,
            r@[2]@ == "n_tuple_medium"@,
    {
        let mut v: Vec<&'static str> = Vec::new();
        v.push("legacy");
        v.push("n_tuple_small");
        v.push("n_tuple_medium");
        v
    }
}

} // verus!
