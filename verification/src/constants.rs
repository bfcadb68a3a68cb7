//! Fixed parameters of the solver.

use vstd::prelude::*;
use crate::rational::{Rat, Ratio};

verus! {

/// Upper bound on balancing iterations per solve; exhausting it is a
/// reported failure, never a silent truncation.
pub const RECURSION_LIMIT: usize = 5000;

/// The item a freshly added target defaults to.
pub fn default_item() -> (r: String)
    ensures
        r@ == "electronic-circuit"@,
{
    "electronic-circuit".to_owned()
}

/// The balance tolerance: a ledger entry within this distance below zero
/// still counts as balanced.
pub fn very_small() -> (r: Rat)
    ensures
        r.wf(),
        r@ == (Ratio { n: 1, d: 10_000_000_000 }),
{
    Rat::new(1, 10_000_000_000)
}

/// Recipes that must never be chosen as a production source, even where
/// their result list matches: enrichment and reprocessing chains.
pub open spec fn spec_blacklisted(name: Seq<char>) -> bool {
    ||| name == "coal-liquefaction"@
    ||| name == "kovarex-enrichment-process"@
    ||| name == "nuclear-fuel-reprocessing"@
}

pub fn is_blacklisted(name: &String) -> (r: bool)
    ensures
        r == spec_blacklisted(name@),
{
    let a: String = "coal-liquefaction".to_owned();
    let b: String = "kovarex-enrichment-process".to_owned();
    let c: String = "nuclear-fuel-reprocessing".to_owned();
    *name == a || *name == b || *name == c
}

} // verus!
