use vstd::prelude::*;

pub mod diff;
pub mod listing;
pub mod paths;
pub mod scheduler;
pub mod transfer;

verus! {

/// The region to use: the one given, else the configured default.
pub fn select_region(explicit: Option<String>, default_region: String) -> (r: String)
    ensures
        r@ == match explicit {
            Some(s) => s@,
            None => default_region@,
        },
{
    match explicit {
        Some(s) => s,
        None => default_region,
    }
}

} // verus!
