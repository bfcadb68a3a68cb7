//! One requested output: an item name and a target rate.

use vstd::prelude::*;
use crate::calc_target_rate::CalcTargetRate;
use crate::constants::default_item;
use crate::rational::rat_of_int;

verus! {

#[derive(Debug, Clone)]
pub struct CalcTarget {
    pub name: String,
    pub rate: CalcTargetRate,
}

impl CalcTarget {
    pub open spec fn wf(self) -> bool {
        self.rate.wf()
    }

    /// Executable test of well-formedness, for hosts that cannot
    /// evaluate the ghost predicate.
    pub fn is_wf(&self) -> (r: bool)
        ensures
            r == self.wf(),
    {
        self.rate.is_wf()
    }
}

impl Default for CalcTarget {
    /// One machine's worth of the default item.
    fn default() -> (r: CalcTarget)
        ensures
            r.wf(),
            r.name@ == "electronic-circuit"@,
            r.rate matches CalcTargetRate::Factories(f) && f@ == rat_of_int(1),
    {
        CalcTarget { name: default_item(), rate: CalcTargetRate::default() }
    }
}

} // verus!
