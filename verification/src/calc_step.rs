//! One production step: a resolved binding and its throughput.
//!
//! The amount is a continuous machine-equivalent, not a whole machine
//! count. A step's per-second flows are the binding's unit economics
//! scaled by the amount; `graph_sort` arranges a list of steps so that
//! a step producing what another consumes comes first.

use vstd::prelude::*;
use crate::factory::{lists_item, Factory};
use crate::rational::{rat_eq, rat_mul, rat_pos, rat_sub, Rat, Ratio};

verus! {

#[derive(Debug)]
pub struct CalcStep {
    pub factory: Factory,
    pub amount: Rat,
}

/// The net per-second effect of the step on one item: production minus
/// consumption, scaled by the step's amount.
pub open spec fn step_net(step: CalcStep, name: Seq<char>) -> Ratio {
    rat_mul(
        step.amount@,
        rat_sub(
            step.factory.spec_item_rate(name),
            step.factory.spec_item_consumed_rate(name),
        ),
    )
}

/// Scales every value of a name–rate list by `m`, keeping the names;
/// succeeds exactly when every reduced product is representable.
fn scale_pairs(v: &Vec<(String, Rat)>, m: &Rat) -> (r: Option<Vec<(String, Rat)>>)
    requires
        m.wf(),
        forall|k: int| 0 <= k < v@.len() ==> (#[trigger] v@[k]).1.wf(),
    ensures
        r is Some <==> forall|k: int|
            0 <= k < v@.len() ==> crate::rational::rat_fits(
                crate::rational::rat_norm(rat_mul(m@, (#[trigger] v@[k]).1@)),
            ),
        r matches Some(out) ==> out@.len() == v@.len() && forall|k: int|
            0 <= k < out@.len() ==> ((#[trigger] out@[k]).0@ == v@[k].0@ && out@[k].1.wf()
                && rat_pos(out@[k].1@) && rat_eq(out@[k].1@, rat_mul(m@, v@[k].1@)) && out@[k].1@
                == crate::rational::rat_norm(rat_mul(m@, v@[k].1@))),
{
    let n = v.len();
    let mut out: Vec<(String, Rat)> = Vec::new();
    let mut i: usize = 0;
    while i < n
        invariant
            n == v@.len(),
            0 <= i <= n,
            m.wf(),
            forall|k: int| 0 <= k < v@.len() ==> (#[trigger] v@[k]).1.wf(),
            out@.len() == i,
            forall|k: int|
                0 <= k < i ==> ((#[trigger] out@[k]).0@ == v@[k].0@ && out@[k].1.wf() && rat_pos(
                    out@[k].1@,
                ) && rat_eq(out@[k].1@, rat_mul(m@, v@[k].1@)) && out@[k].1@
                    == crate::rational::rat_norm(rat_mul(m@, v@[k].1@))),
            forall|k: int|
                0 <= k < i ==> crate::rational::rat_fits(
                    crate::rational::rat_norm(rat_mul(m@, (#[trigger] v@[k]).1@)),
                ),
        decreases n - i,
    {
        let scaled = match m.mul(&v[i].1) {
            Some(s) => s,
            None => {
                return None;
            },
        };
        out.push((v[i].0.clone(), scaled));
        i += 1;
    }
    Some(out)
}

impl CalcStep {
    pub open spec fn wf(self) -> bool {
        &&& self.factory.wf()
        &&& self.amount.wf()
    }

    /// The reduced representative of this step's per-second output of
    /// `name`: the exact value `produced_per_sec` stores.
    pub open spec fn repr_scaled_produced(self, name: Seq<char>) -> Ratio {
        crate::rational::rat_norm(
            rat_mul(self.amount@, self.factory.repr_produced_rate(name)),
        )
    }

    /// The reduced representative of this step's per-second draw.
    pub open spec fn repr_scaled_consumed(self, name: Seq<char>) -> Ratio {
        crate::rational::rat_norm(
            rat_mul(self.amount@, self.factory.repr_consumed_rate(name)),
        )
    }

    /// Every scaled produced rate is representable.
    pub open spec fn produced_fit(self) -> bool {
        &&& self.factory.produced_rates_fit()
        &&& forall|name: Seq<char>|
            #[trigger] self.factory.spec_produces(name) ==> crate::rational::rat_fits(
                self.repr_scaled_produced(name),
            )
    }

    /// Every scaled consumed rate is representable.
    pub open spec fn consumed_fit(self) -> bool {
        &&& self.factory.consumed_rates_fit()
        &&& forall|name: Seq<char>|
            #[trigger] self.factory.spec_consumes(name) ==> crate::rational::rat_fits(
                self.repr_scaled_consumed(name),
            )
    }

    /// Each produced item with the step's per-second output of it, in
    /// the result-list order; succeeds exactly when every scaled rate
    /// is representable.
    pub fn produced_per_sec(&self) -> (r: Option<Vec<(String, Rat)>>)
        requires
            self.wf(),
        ensures
            r is Some <==> self.produced_fit(),
            r matches Some(v) ==> ({
                &&& crate::assoc::keys_distinct(v@)
                &&& forall|k: int|
                    0 <= k < v@.len() ==> ((#[trigger] v@[k]).1.wf() && rat_pos(v@[k].1@)
                        && self.factory.spec_produces(v@[k].0@) && rat_eq(
                        v@[k].1@,
                        rat_mul(self.amount@, self.factory.spec_item_rate(v@[k].0@)),
                    ) && v@[k].1@ == self.repr_scaled_produced(v@[k].0@))
                &&& forall|name: Seq<char>|
                    #[trigger] self.factory.spec_produces(name) ==> lists_item(v@, name)
            }),
            r matches Some(v) ==> (match self.factory {
                Factory::AssemblingMachine(_, re) => v@.len() == re.data.results@.len() && forall|
                    k: int,
                |
                    0 <= k < v@.len() ==> (#[trigger] v@[k]).0@ == re.data.results@[k].name@,
                Factory::MiningDrill(_, res) => v@.len() == res.results@.len() && forall|k: int|
                    0 <= k < v@.len() ==> (#[trigger] v@[k]).0@ == res.results@[k].name@,
                Factory::OffshorePump(op) => v@.len() == 1 && v@[0].0@ == op.fluid@,
            }),
    {
        let base = match self.factory.produced_per_sec() {
            Some(b) => b,
            None => {
                return None;
            },
        };
        let r = scale_pairs(&base, &self.amount);
        proof {
            if r is Some {
                let v = r->Some_0;
                assert forall|k: int| 0 <= k < v@.len() implies (#[trigger] v@[k]).1.wf()
                    && rat_pos(v@[k].1@) && self.factory.spec_produces(v@[k].0@) && rat_eq(
                    v@[k].1@,
                    rat_mul(self.amount@, self.factory.spec_item_rate(v@[k].0@)),
                ) by {
                    let name = v@[k].0@;
                    self.amount.lemma_wf_pos();
                    self.factory.lemma_item_rates_pos(name);
                    base@[k].1.lemma_wf_pos();
                    crate::rational::lemma_rat_mul_congr(
                        self.amount@,
                        self.amount@,
                        base@[k].1@,
                        self.factory.spec_item_rate(name),
                    );
                    assert(rat_mul(self.amount@, base@[k].1@).d >= 1) by (nonlinear_arith)
                        requires
                            self.amount@.d >= 1,
                            base@[k].1@.d >= 1,
                    ;
                    crate::rational::lemma_rat_eq_trans(
                        v@[k].1@,
                        rat_mul(self.amount@, base@[k].1@),
                        rat_mul(self.amount@, self.factory.spec_item_rate(name)),
                    );
                }
                assert forall|name: Seq<char>|
                    #[trigger] self.factory.spec_produces(name) implies lists_item(v@, name) by {
                    let j = choose|j: int| 0 <= j < base@.len() && (#[trigger] base@[j]).0@ == name;
                    assert(v@[j].0@ == name);
                }
                assert(crate::assoc::keys_distinct(v@)) by {
                    assert(forall|a: int, b: int|
                        0 <= a < b < v@.len() ==> (#[trigger] v@[a]).0@ != (#[trigger] v@[b]).0@);
                }
            }
        }
        r
    }

    /// Each consumed item with the step's per-second draw of it, in the
    /// ingredient-list order; succeeds exactly when every scaled rate
    /// is representable.
    pub fn consumed_per_sec(&self) -> (r: Option<Vec<(String, Rat)>>)
        requires
            self.wf(),
        ensures
            r is Some <==> self.consumed_fit(),
            r matches Some(v) ==> ({
                &&& crate::assoc::keys_distinct(v@)
                &&& forall|k: int|
                    0 <= k < v@.len() ==> ((#[trigger] v@[k]).1.wf() && rat_pos(v@[k].1@)
                        && self.factory.spec_consumes(v@[k].0@) && rat_eq(
                        v@[k].1@,
                        rat_mul(self.amount@, self.factory.spec_item_consumed_rate(v@[k].0@)),
                    ) && v@[k].1@ == self.repr_scaled_consumed(v@[k].0@))
                &&& forall|name: Seq<char>|
                    #[trigger] self.factory.spec_consumes(name) ==> lists_item(v@, name)
            }),
            r matches Some(v) ==> (match self.factory {
                Factory::AssemblingMachine(_, re) => v@.len() == re.data.ingredients@.len()
                    && forall|k: int|
                    0 <= k < v@.len() ==> (#[trigger] v@[k]).0@ == re.data.ingredients@[k].name@,
                Factory::MiningDrill(_, res) => (match res.fluid_requirement {
                    Some(f) => v@.len() == 1 && v@[0].0@ == f.required_fluid@,
                    None => v@.len() == 0,
                }),
                Factory::OffshorePump(_) => v@.len() == 0,
            }),
    {
        let base = match self.factory.consumed_per_sec() {
            Some(b) => b,
            None => {
                return None;
            },
        };
        let r = scale_pairs(&base, &self.amount);
        proof {
            if r is Some {
                let v = r->Some_0;
                assert forall|k: int| 0 <= k < v@.len() implies (#[trigger] v@[k]).1.wf()
                    && rat_pos(v@[k].1@) && self.factory.spec_consumes(v@[k].0@) && rat_eq(
                    v@[k].1@,
                    rat_mul(self.amount@, self.factory.spec_item_consumed_rate(v@[k].0@)),
                ) by {
                    let name = v@[k].0@;
                    self.amount.lemma_wf_pos();
                    self.factory.lemma_item_rates_pos(name);
                    base@[k].1.lemma_wf_pos();
                    crate::rational::lemma_rat_mul_congr(
                        self.amount@,
                        self.amount@,
                        base@[k].1@,
                        self.factory.spec_item_consumed_rate(name),
                    );
                    assert(rat_mul(self.amount@, base@[k].1@).d >= 1) by (nonlinear_arith)
                        requires
                            self.amount@.d >= 1,
                            base@[k].1@.d >= 1,
                    ;
                    crate::rational::lemma_rat_eq_trans(
                        v@[k].1@,
                        rat_mul(self.amount@, base@[k].1@),
                        rat_mul(self.amount@, self.factory.spec_item_consumed_rate(name)),
                    );
                }
                assert forall|name: Seq<char>|
                    #[trigger] self.factory.spec_consumes(name) implies lists_item(v@, name) by {
                    let j = choose|j: int| 0 <= j < base@.len() && (#[trigger] base@[j]).0@ == name;
                    assert(v@[j].0@ == name);
                }
                assert(crate::assoc::keys_distinct(v@)) by {
                    assert(forall|a: int, b: int|
                        0 <= a < b < v@.len() ==> (#[trigger] v@[a]).0@ != (#[trigger] v@[b]).0@);
                }
            }
        }
        r
    }

    pub fn machine_name(&self) -> (r: String)
        ensures
            r@ == self.factory.spec_name(),
    {
        self.factory.name()
    }

    /// A copy with the same content, for reordering owned steps.
    pub fn duplicate(&self) -> (c: CalcStep)
        ensures
            same_step(c, *self),
    {
        CalcStep { factory: self.factory.duplicate(), amount: self.amount }
    }
}

/// The two steps have the same binding content and the same amount.
pub open spec fn same_step(a: CalcStep, b: CalcStep) -> bool {
    &&& crate::factory::same_factory(a.factory, b.factory)
    &&& a.amount == b.amount
}

/// `p` lists each index below `n` at most once.
pub open spec fn partial_perm_of(p: Seq<int>, n: int) -> bool {
    &&& p.no_duplicates()
    &&& forall|k: int| 0 <= k < p.len() ==> 0 <= #[trigger] p[k] < n
}

/// `a` must come strictly before `b`: `a` supplies `b` and not the
/// other way round.
pub open spec fn strict_edge(a: Factory, b: Factory) -> bool {
    crate::factory::feeds(a, b) && !crate::factory::feeds(b, a)
}

/// `rank` witnesses that the strict supplies relation over `steps` is
/// acyclic: every edge goes strictly up in rank.
pub open spec fn rank_ok(rank: Seq<int>, steps: Seq<CalcStep>) -> bool {
    &&& rank.len() == steps.len()
    &&& forall|i: int, j: int|
        0 <= i < steps.len() && 0 <= j < steps.len() && #[trigger] strict_edge(
            steps[i].factory,
            steps[j].factory,
        ) ==> rank[i] < rank[j]
}

/// Among the unemitted steps below `bound`, one of minimal rank.
proof fn lemma_min_rank_untaken(taken: Seq<bool>, rank: Seq<int>, bound: int) -> (m: int)
    requires
        1 <= bound <= taken.len(),
        taken.len() == rank.len(),
        exists|i: int| 0 <= i < bound && (#[trigger] taken[i]) == false,
    ensures
        0 <= m < bound,
        !taken[m],
        forall|x: int| 0 <= x < bound && (#[trigger] taken[x]) == false ==> rank[m] <= rank[x],
    decreases bound,
{
    if bound == 1 {
        0
    } else {
        if exists|i: int| 0 <= i < bound - 1 && (#[trigger] taken[i]) == false {
            let m0 = lemma_min_rank_untaken(taken, rank, bound - 1);
            if !taken[bound - 1] && rank[bound - 1] < rank[m0] {
                bound - 1
            } else {
                m0
            }
        } else {
            bound - 1
        }
    }
}

/// A duplicate-free list of `n` indices below `n` lists every one.
proof fn lemma_perm_onto(p: Seq<int>, n: int)
    requires
        p.no_duplicates(),
        p.len() == n,
        forall|k: int| 0 <= k < p.len() ==> 0 <= #[trigger] p[k] < n,
    ensures
        forall|v: int| 0 <= v < n ==> p.contains(v),
{
    assert forall|v: int| 0 <= v < n implies p.contains(v) by {
        if !p.contains(v) {
            p.unique_seq_to_set();
            vstd::set_lib::lemma_int_range(0, n);
            let small = vstd::set_lib::set_int_range(0, n).remove(v);
            assert(p.to_set().subset_of(small)) by {
                assert forall|x: int| p.to_set().contains(x) implies small.contains(x) by {
                    assert(p.contains(x));
                    let k = choose|k: int| 0 <= k < p.len() && p[k] == x;
                }
            }
            vstd::set::axiom_set_remove_len(vstd::set_lib::set_int_range(0, n), v);
            vstd::set_lib::lemma_len_subset(p.to_set(), small);
        }
    }
}

/// The first step, in input order, that no unemitted step strictly
/// precedes; `None` means every unemitted step has an unemitted strict
/// supplier — a dependency cycle among what remains.
fn find_ready(input: &Vec<CalcStep>, taken: &Vec<bool>) -> (r: Option<usize>)
    requires
        input@.len() == taken@.len(),
    ensures
        r matches Some(i) ==> i < input@.len() && !taken@[i as int] && (forall|j: int|
            0 <= j < input@.len() && (#[trigger] taken@[j]) == false && j != i as int
                ==> !strict_edge(input@[j].factory, input@[i as int].factory)),
        r is None ==> forall|i: int|
            0 <= i < input@.len() && (#[trigger] taken@[i]) == false ==> exists|j: int|
                0 <= j < input@.len() && taken@[j] == false && j != i && strict_edge(
                    input@[j].factory,
                    input@[i].factory,
                ),
{
    let n = input.len();
    let mut i: usize = 0;
    while i < n
        invariant
            n == input@.len(),
            n == taken@.len(),
            0 <= i <= n,
            forall|i2: int|
                0 <= i2 < i && (#[trigger] taken@[i2]) == false ==> exists|j: int|
                    0 <= j < input@.len() && taken@[j] == false && j != i2 && strict_edge(
                        input@[j].factory,
                        input@[i2].factory,
                    ),
        decreases n - i,
    {
        if !taken[i] {
            let mut blocked = false;
            let mut j: usize = 0;
            while j < n
                invariant
                    n == input@.len(),
                    n == taken@.len(),
                    0 <= j <= n,
                    i < n,
                    !blocked ==> forall|j2: int|
                        0 <= j2 < j && (#[trigger] taken@[j2]) == false && j2 != i as int
                            ==> !strict_edge(input@[j2].factory, input@[i as int].factory),
                    blocked ==> exists|j2: int|
                        0 <= j2 < input@.len() && taken@[j2] == false && j2 != i as int
                            && strict_edge(input@[j2].factory, input@[i as int].factory),
                decreases n - j,
            {
                if j != i && !taken[j] {
                    match input[j].factory.sort_by(&input[i].factory) {
                        core::cmp::Ordering::Less => {
                            blocked = true;
                        },
                        _ => {},
                    }
                }
                j += 1;
            }
            if !blocked {
                return Some(i);
            }
        }
        i += 1;
    }
    None
}

/// The first unemitted step, in input order.
fn find_untaken(taken: &Vec<bool>) -> (r: Option<usize>)
    ensures
        match r {
            Some(i) => i < taken@.len() && !taken@[i as int],
            None => forall|k: int| 0 <= k < taken@.len() ==> (#[trigger] taken@[k]),
        },
{
    let n = taken.len();
    let mut i: usize = 0;
    while i < n
        invariant
            n == taken@.len(),
            0 <= i <= n,
            forall|k: int| 0 <= k < i ==> (#[trigger] taken@[k]),
        decreases n - i,
    {
        if !taken[i] {
            return Some(i);
        }
        i += 1;
    }
    None
}

/// When every slot is marked and every marked slot was emitted, the
/// emission list is at least as long as the slot list.
proof fn lemma_emission_complete(perm: Seq<int>, taken: Seq<bool>)
    requires
        partial_perm_of(perm, taken.len() as int),
        forall|k: int| 0 <= k < taken.len() ==> (#[trigger] taken[k]),
        forall|k: int| 0 <= k < taken.len() && #[trigger] taken[k] ==> perm.contains(k),
    ensures
        perm.len() >= taken.len(),
{
    let n = taken.len() as int;
    perm.unique_seq_to_set();
    vstd::set_lib::lemma_int_range(0, n);
    assert(vstd::set_lib::set_int_range(0, n).subset_of(perm.to_set())) by {
        assert forall|x: int| vstd::set_lib::set_int_range(0, n).contains(x) implies perm.to_set()
            .contains(x) by {
            assert(taken[x]);
            assert(perm.contains(x));
        }
    }
    vstd::set_lib::lemma_len_subset(vstd::set_lib::set_int_range(0, n), perm.to_set());
}

/// Arranges steps into a dependency-respecting display order: a step
/// that strictly supplies another — produces an ingredient of it and
/// not the other way round — is emitted first, by a Kahn-style
/// traversal that always takes the first ready step in input order.
/// Steps on a dependency cycle have no such order; once only cyclic
/// steps remain, they are emitted in input order rather than dropped,
/// so the output is always a permutation of the input. Where the
/// strict supplies relation is acyclic — witnessed by any rank — every
/// supplier precedes its consumers in the output.
pub fn graph_sort(input: Vec<CalcStep>) -> (r: Vec<CalcStep>)
    ensures
        r@.len() == input@.len(),
        exists|perm: Seq<int>|
            #![auto]
            partial_perm_of(perm, input@.len() as int) && perm.len() == input@.len() && (forall|
                k: int,
            |
                0 <= k < r@.len() ==> same_step(r@[k], input@[perm[k]])) && (forall|
                rank: Seq<int>,
            |
                #[trigger] rank_ok(rank, input@) ==> (forall|x: int, y: int|
                    0 <= x < input@.len() && 0 <= y < input@.len() && #[trigger] strict_edge(
                        input@[x].factory,
                        input@[y].factory,
                    ) ==> (exists|kx: int, ky: int|
                        #![auto]
                        0 <= kx < ky < perm.len() && perm[kx] == x && perm[ky] == y))),
{
    let n = input.len();
    let mut taken: Vec<bool> = Vec::new();
    let mut z: usize = 0;
    while z < n
        invariant
            0 <= z <= n,
            taken@.len() == z,
            forall|k: int| 0 <= k < z ==> !(#[trigger] taken@[k]),
        decreases n - z,
    {
        taken.push(false);
        z += 1;
    }
    let mut out: Vec<CalcStep> = Vec::new();
    let ghost mut perm: Seq<int> = Seq::empty();
    while out.len() < n
        invariant
            n == input@.len(),
            n == taken@.len(),
            out@.len() == perm.len(),
            perm.len() <= n,
            partial_perm_of(perm, n as int),
            forall|k: int| 0 <= k < perm.len() ==> (#[trigger] taken@[perm[k]]),
            forall|k: int| 0 <= k < n && #[trigger] taken@[k] ==> perm.contains(k),
            forall|k: int| 0 <= k < out@.len() ==> same_step(#[trigger] out@[k], input@[perm[k]]),
            forall|rank: Seq<int>|
                #[trigger] rank_ok(rank, input@) ==> (forall|k: int, j: int|
                    0 <= k < perm.len() && 0 <= j < n && #[trigger] strict_edge(
                        input@[j].factory,
                        input@[perm[k]].factory,
                    ) ==> (exists|k2: int| 0 <= k2 < k && perm[k2] == j)),
        decreases n - out@.len(),
    {
        let ghost taken_pre = taken@;
        let ghost mut picked_ready: bool = true;
        let pick: usize = match find_ready(&input, &taken) {
            Some(i) => i,
            None => {
                let i2 = match find_untaken(&taken) {
                    Some(i2) => i2,
                    None => {
                        proof {
                            lemma_emission_complete(perm, taken@);
                        }
                        0
                    },
                };
                proof {
                    picked_ready = false;
                }
                i2
            },
        };
        proof {
            if perm.contains(pick as int) {
                let k = choose|k: int| 0 <= k < perm.len() && perm[k] == pick as int;
                assert(taken@[perm[k]]);
            }
            assert(!perm.contains(pick as int));
            assert(perm.push(pick as int).no_duplicates()) by {
                let p2 = perm.push(pick as int);
                assert forall|a: int, b: int|
                    0 <= a < p2.len() && 0 <= b < p2.len() && a != b implies p2[a] != p2[b] by {
                    if a < perm.len() && b < perm.len() {
                        assert(perm[a] == p2[a] && perm[b] == p2[b]);
                    }
                }
            }
        }
        out.push(input[pick].duplicate());
        taken[pick] = true;
        proof {
            let prev = perm;
            perm = perm.push(pick as int);
            assert(perm[perm.len() - 1] == pick as int);
            assert forall|k: int| 0 <= k < n && #[trigger] taken@[k] implies perm.contains(
                k,
            ) by {
                if k != pick as int {
                    let j = choose|j: int| 0 <= j < prev.len() && prev[j] == k;
                    assert(perm[j] == k);
                }
            }
            assert forall|rank: Seq<int>|
                #[trigger] rank_ok(rank, input@) implies (forall|k: int, j: int|
                    0 <= k < perm.len() && 0 <= j < n && #[trigger] strict_edge(
                        input@[j].factory,
                        input@[perm[k]].factory,
                    ) ==> (exists|k2: int| 0 <= k2 < k && perm[k2] == j)) by {
                if picked_ready {
                    assert forall|k: int, j: int|
                        0 <= k < perm.len() && 0 <= j < n && #[trigger] strict_edge(
                            input@[j].factory,
                            input@[perm[k]].factory,
                        ) implies (exists|k2: int| 0 <= k2 < k && perm[k2] == j) by {
                        if k < prev.len() {
                            assert(perm[k] == prev[k]);
                            let k2 = choose|k2: int| 0 <= k2 < k && prev[k2] == j;
                            assert(perm[k2] == j);
                        } else {
                            // The new step was ready: any strict
                            // supplier is already emitted.
                            assert(perm[k] == pick as int);
                            if j == pick as int {
                                assert(!strict_edge(
                                    input@[j].factory,
                                    input@[j].factory,
                                ));
                            }
                            assert(taken_pre[j]);
                            let k2 = choose|k2: int| 0 <= k2 < prev.len() && prev[k2] == j;
                            assert(perm[k2] == j);
                        }
                    }
                } else {
                    // No step was ready, so the remaining steps form a
                    // dependency cycle: no rank can order them.
                    assert(!taken_pre[pick as int]);
                    let m = lemma_min_rank_untaken(taken_pre, rank, n as int);
                    let j = choose|j: int|
                        0 <= j < input@.len() && taken_pre[j] == false && j != m && strict_edge(
                            input@[j].factory,
                            input@[m].factory,
                        );
                    assert(rank[j] < rank[m]);
                    assert(rank[m] <= rank[j]);
                }
            }
        }
    }
    proof {
        lemma_perm_onto(perm, n as int);
        assert forall|rank: Seq<int>|
            #[trigger] rank_ok(rank, input@) implies (forall|x: int, y: int|
                0 <= x < input@.len() && 0 <= y < input@.len() && #[trigger] strict_edge(
                    input@[x].factory,
                    input@[y].factory,
                ) ==> (exists|kx: int, ky: int|
                    #![auto]
                    0 <= kx < ky < perm.len() && perm[kx] == x && perm[ky] == y)) by {
            assert forall|x: int, y: int|
                0 <= x < input@.len() && 0 <= y < input@.len() && #[trigger] strict_edge(
                    input@[x].factory,
                    input@[y].factory,
                ) implies (exists|kx: int, ky: int|
                #![auto]
                0 <= kx < ky < perm.len() && perm[kx] == x && perm[ky] == y) by {
                assert(perm.contains(y));
                let ky = choose|k: int| 0 <= k < perm.len() && perm[k] == y;
                let kx = choose|k2: int| 0 <= k2 < ky && perm[k2] == x;
            }
        }
        assert(partial_perm_of(perm, input@.len() as int) && perm.len() == input@.len() && (
        forall|k: int| 0 <= k < out@.len() ==> same_step(#[trigger] out@[k], input@[perm[k]])));
    }
    out
}

} // verus!
