//! A target rate: either a machine count or items per second.
//!
//! The two forms convert into one another through the per-machine
//! output rate of the item's resolved producer (the `factory_ips`
//! baseline). The conversions are exact inverses of each other, which
//! `lemma_rate_round_trip_ips` and `lemma_rate_round_trip_factories`
//! prove.

use vstd::prelude::*;
use crate::rational::{
    rat_div, rat_eq, rat_fits, rat_lt, rat_mul, rat_norm, rat_of_int, rat_pos, rat_quot, Rat,
    Ratio,
};

verus! {

#[derive(Debug, Clone)]
pub enum CalcTargetRate {
    Factories(Rat),
    ItemsPerSecond(Rat),
}

impl CalcTargetRate {
    pub open spec fn wf(self) -> bool {
        match self {
            CalcTargetRate::Factories(f) => f.wf(),
            CalcTargetRate::ItemsPerSecond(i) => i.wf(),
        }
    }

    /// The rate in items per second, against a per-machine baseline.
    pub open spec fn spec_as_ips(self, baseline: Ratio) -> Ratio {
        match self {
            CalcTargetRate::Factories(f) => rat_mul(f@, baseline),
            CalcTargetRate::ItemsPerSecond(i) => i@,
        }
    }

    /// The rate in machine counts, against a per-machine baseline.
    pub open spec fn spec_as_factories(self, baseline: Ratio) -> Ratio {
        match self {
            CalcTargetRate::Factories(f) => f@,
            CalcTargetRate::ItemsPerSecond(i) => rat_div(i@, baseline),
        }
    }

    /// Executable test of well-formedness, for hosts that cannot
    /// evaluate the ghost predicate.
    pub fn is_wf(&self) -> (r: bool)
        ensures
            r == self.wf(),
    {
        match self {
            CalcTargetRate::Factories(f) => f.is_wf(),
            CalcTargetRate::ItemsPerSecond(i) => i.is_wf(),
        }
    }

    /// Converts to items per second; an items-per-second rate is
    /// returned unchanged.
    pub fn as_ips(&self, factory_ips: &Rat) -> (r: Option<Rat>)
        requires
            self.wf(),
            factory_ips.wf(),
        ensures
            r is Some <==> (match *self {
                CalcTargetRate::Factories(f) => rat_fits(rat_norm(rat_mul(f@, factory_ips@))),
                CalcTargetRate::ItemsPerSecond(_) => true,
            }),
            r matches Some(v) ==> v.wf() && rat_pos(v@) && rat_eq(
                v@,
                self.spec_as_ips(factory_ips@),
            ),
    {
        match self {
            CalcTargetRate::Factories(f) => f.mul(factory_ips),
            CalcTargetRate::ItemsPerSecond(i) => {
                proof {
                    i.lemma_wf_pos();
                }
                Some(*i)
            },
        }
    }

    /// Converts to a machine count; a machine-count rate is returned
    /// unchanged. Fails on a zero baseline.
    pub fn as_factories(&self, factory_ips: &Rat) -> (r: Option<Rat>)
        requires
            self.wf(),
            factory_ips.wf(),
        ensures
            r is Some <==> (match *self {
                CalcTargetRate::Factories(_) => true,
                CalcTargetRate::ItemsPerSecond(i) => factory_ips@.n != 0 && rat_fits(
                    rat_norm(rat_quot(i@, factory_ips@)),
                ),
            }),
            r matches Some(v) ==> v.wf() && rat_pos(v@) && rat_eq(
                v@,
                self.spec_as_factories(factory_ips@),
            ),
    {
        match self {
            CalcTargetRate::Factories(f) => {
                proof {
                    f.lemma_wf_pos();
                }
                Some(*f)
            },
            CalcTargetRate::ItemsPerSecond(i) => i.div(factory_ips),
        }
    }
}

impl Default for CalcTargetRate {
    /// One machine's worth of output.
    fn default() -> (r: CalcTargetRate)
        ensures
            r.wf(),
            r matches CalcTargetRate::Factories(f) && f@ == rat_of_int(1),
    {
        CalcTargetRate::Factories(Rat::one())
    }
}

/// Converting any rate to items per second and that value back to a
/// machine count gives the rate's own machine count, for any positive
/// baseline.
pub proof fn lemma_rate_round_trip_ips(r: CalcTargetRate, ips_value: Ratio, baseline: Ratio)
    requires
        r.wf(),
        rat_pos(baseline),
        baseline.n > 0,
        rat_pos(ips_value),
        rat_eq(ips_value, r.spec_as_ips(baseline)),
    ensures
        rat_eq(rat_div(ips_value, baseline), r.spec_as_factories(baseline)),
{
    match r {
        CalcTargetRate::Factories(f) => {
            f.lemma_wf_pos();
            let fv = f@;
            let x = ips_value;
            let b = baseline;
            assert((x.n * b.d) * fv.d == fv.n * (x.d * b.n)) by (nonlinear_arith)
                requires
                    x.n * (fv.d * b.d) == (fv.n * b.n) * x.d;
        },
        CalcTargetRate::ItemsPerSecond(i) => {
            i.lemma_wf_pos();
            let iv = i@;
            let x = ips_value;
            let b = baseline;
            assert((x.n * b.d) * (iv.d * b.n) == (iv.n * b.d) * (x.d * b.n)) by (nonlinear_arith)
                requires
                    x.n * iv.d == iv.n * x.d;
        },
    }
}

/// Converting any rate to a machine count and that value back to items
/// per second gives the rate's own items per second, for any positive
/// baseline.
pub proof fn lemma_rate_round_trip_factories(
    r: CalcTargetRate,
    factories_value: Ratio,
    baseline: Ratio,
)
    requires
        r.wf(),
        rat_pos(baseline),
        baseline.n > 0,
        rat_pos(factories_value),
        rat_eq(factories_value, r.spec_as_factories(baseline)),
    ensures
        rat_eq(rat_mul(factories_value, baseline), r.spec_as_ips(baseline)),
{
    match r {
        CalcTargetRate::Factories(f) => {
            f.lemma_wf_pos();
            let fv = f@;
            let x = factories_value;
            let b = baseline;
            assert((x.n * b.n) * (fv.d * b.d) == (fv.n * b.n) * (x.d * b.d)) by (nonlinear_arith)
                requires
                    x.n * fv.d == fv.n * x.d;
        },
        CalcTargetRate::ItemsPerSecond(i) => {
            i.lemma_wf_pos();
            let iv = i@;
            let x = factories_value;
            let b = baseline;
            assert((x.n * b.n) * iv.d == iv.n * (x.d * b.d)) by (nonlinear_arith)
                requires
                    x.n * (iv.d * b.n) == (iv.n * b.d) * x.d;
        },
    }
}

} // verus!
