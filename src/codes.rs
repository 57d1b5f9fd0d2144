use vstd::prelude::*;

verus! {

/// A kind of diagnostic: a short machine-readable tag (`E001`) and a long
/// human description.
#[derive(Clone, Copy, Debug)]
pub struct ErrorDesc {
    pub short: &'static str,
    pub long: &'static str,
}

/// Codes are compared by the catalog entry they point at.
pub type ErrorCode = &'static ErrorDesc;

impl ErrorDesc {
    pub fn new(short: &'static str, long: &'static str) -> (r: ErrorDesc)
        ensures
            r.short == short,
            r.long == long,
    {
        ErrorDesc { short, long }
    }
}

} // verus!
