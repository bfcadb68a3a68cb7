//! The normalized game-data tables the calculator reads.
//!
//! The tables are supplied fully populated by the host application and
//! are never mutated by a solve. Recipes carry exactly one cost variant:
//! selecting between a normal and an expensive variant happens while the
//! host loads the data, before these tables are built.
//!
//! Table order is meaningful: wherever the rules say "the first match",
//! they mean the first entry in the order the table was loaded.

use vstd::prelude::*;
use crate::rational::{Rat, Ratio, rat_of_int, rat_lt};

verus! {

/// Whether an ingredient or result entry is a solid item or a fluid.
#[derive(Debug, Clone, Copy, PartialEq, Eq, Structural)]
pub enum RecipeItemType {
    Item,
    Fluid,
}

/// One normalized `(item, amount, kind)` entry of an ingredient or
/// result list. Amounts are per execution of the recipe or extraction
/// cycle, and are always positive in well-formed data.
#[derive(Debug, Clone)]
pub struct ItemAmount {
    pub name: String,
    pub amount: Rat,
    pub kind: RecipeItemType,
}

impl ItemAmount {
    pub open spec fn wf(self) -> bool {
        &&& self.amount.wf()
        &&& rat_lt(rat_of_int(0), self.amount@)
    }

    /// A copy equal to `self`; `derive(Clone)` carries no such contract.
    pub fn duplicate(&self) -> (c: ItemAmount)
        ensures
            c == *self,
    {
        ItemAmount { name: self.name.clone(), amount: self.amount, kind: self.kind }
    }
}

/// A copy of an amount list, equal entry by entry.
pub fn duplicate_amounts(v: &Vec<ItemAmount>) -> (c: Vec<ItemAmount>)
    ensures
        c@ == v@,
{
    let mut c: Vec<ItemAmount> = Vec::new();
    let n = v.len();
    let mut i: usize = 0;
    while i < n
        invariant
            n == v@.len(),
            0 <= i <= n,
            c@ =~= v@.take(i as int),
        decreases n - i,
    {
        c.push(v[i].duplicate());
        i += 1;
    }
    proof {
        assert(c@ =~= v@);
    }
    c
}

/// A copy of a list of copyable values, equal entry by entry.
pub fn duplicate_copies<T: Copy>(v: &Vec<T>) -> (c: Vec<T>)
    ensures
        c@ == v@,
{
    let mut c: Vec<T> = Vec::new();
    let n = v.len();
    let mut i: usize = 0;
    while i < n
        invariant
            n == v@.len(),
            0 <= i <= n,
            c@ =~= v@.take(i as int),
        decreases n - i,
    {
        c.push(v[i]);
        i += 1;
    }
    proof {
        assert(c@ =~= v@);
    }
    c
}

/// A copy of a name list, equal entry by entry.
pub fn duplicate_names(v: &Vec<String>) -> (c: Vec<String>)
    ensures
        c@ == v@,
{
    let mut c: Vec<String> = Vec::new();
    let n = v.len();
    let mut i: usize = 0;
    while i < n
        invariant
            n == v@.len(),
            0 <= i <= n,
            c@ =~= v@.take(i as int),
        decreases n - i,
    {
        c.push(v[i].clone());
        i += 1;
    }
    proof {
        assert(c@ =~= v@);
    }
    c
}

/// Every entry is well formed.
pub open spec fn amounts_wf(s: Seq<ItemAmount>) -> bool {
    forall|i: int| 0 <= i < s.len() ==> (#[trigger] s[i]).wf()
}

/// Executable check of one amount list: well-formed positive amounts
/// and no repeated name.
pub fn amounts_ok(v: &Vec<ItemAmount>) -> (r: bool)
    ensures
        r == (amounts_wf(v@) && names_distinct(v@)),
{
    let n = v.len();
    let zero = Rat::zero();
    let mut i: usize = 0;
    while i < n
        invariant
            n == v@.len(),
            0 <= i <= n,
            zero.wf(),
            zero@ == rat_of_int(0),
            forall|k: int| 0 <= k < i ==> (#[trigger] v@[k]).wf(),
            forall|k1: int, k2: int|
                0 <= k1 < k2 < v@.len() && k2 < i ==> (#[trigger] v@[k1]).name@ != (
                #[trigger] v@[k2]).name@,
        decreases n - i,
    {
        if !(v[i].amount.is_wf() && zero.lt(&v[i].amount)) {
            return false;
        }
        let mut j: usize = 0;
        while j < i
            invariant
                n == v@.len(),
                0 <= j <= i < n,
                forall|k: int| 0 <= k < j ==> (#[trigger] v@[k]).name@ != v@[i as int].name@,
            decreases i - j,
        {
            if v[j].name == v[i].name {
                return false;
            }
            j += 1;
        }
        i += 1;
    }
    true
}

/// No two entries name the same item.
pub open spec fn names_distinct(s: Seq<ItemAmount>) -> bool {
    forall|i: int, j: int| 0 <= i < j < s.len() ==> (#[trigger] s[i]).name@ != (#[trigger] s[j]).name@
}

/// Some entry names `name`.
pub open spec fn has_amount(s: Seq<ItemAmount>, name: Seq<char>) -> bool {
    exists|i: int| 0 <= i < s.len() && (#[trigger] s[i]).name@ == name
}

/// The amount recorded for `name`: the first matching entry's amount, or
/// zero when no entry matches.
pub open spec fn amount_of(s: Seq<ItemAmount>, name: Seq<char>) -> Ratio
    decreases s.len(),
{
    if s.len() == 0 {
        rat_of_int(0)
    } else if s[0].name@ == name {
        s[0].amount@
    } else {
        amount_of(s.drop_first(), name)
    }
}

pub proof fn lemma_amount_of_found(s: Seq<ItemAmount>, name: Seq<char>, i: int)
    requires
        0 <= i < s.len(),
        forall|j: int| 0 <= j < i ==> (#[trigger] s[j]).name@ != name,
        s[i].name@ == name,
    ensures
        amount_of(s, name) == s[i].amount@,
        has_amount(s, name),
    decreases i,
{
    if i > 0 {
        lemma_amount_of_found(s.drop_first(), name, i - 1);
    }
}

pub proof fn lemma_amount_of_absent(s: Seq<ItemAmount>, name: Seq<char>)
    requires
        forall|j: int| 0 <= j < s.len() ==> (#[trigger] s[j]).name@ != name,
    ensures
        amount_of(s, name) == rat_of_int(0),
        !has_amount(s, name),
    decreases s.len(),
{
    if s.len() > 0 {
        lemma_amount_of_absent(s.drop_first(), name);
    }
}

/// In a well-formed list every recorded amount denotes a positive
/// value, and a missing name denotes zero; either way the denominator
/// is positive and the parts fit 64 bits.
pub proof fn lemma_amount_of_pos(s: Seq<ItemAmount>, name: Seq<char>)
    requires
        amounts_wf(s),
    ensures
        crate::rational::rat_pos(amount_of(s, name)),
        crate::rational::rat_fits(amount_of(s, name)),
    decreases s.len(),
{
    if s.len() == 0 {
    } else if s[0].name@ == name {
        s[0].amount.lemma_wf_pos();
    } else {
        lemma_amount_of_pos(s.drop_first(), name);
    }
}

/// Where the list names the item at all, the recorded amount denotes a
/// strictly positive value.
pub proof fn lemma_amount_of_present_pos(s: Seq<ItemAmount>, name: Seq<char>)
    requires
        amounts_wf(s),
        has_amount(s, name),
    ensures
        rat_lt(rat_of_int(0), amount_of(s, name)),
        amount_of(s, name).n >= 1,
    decreases s.len(),
{
    if s[0].name@ == name {
        s[0].amount.lemma_wf_pos();
    } else {
        let i = choose|i: int| 0 <= i < s.len() && (#[trigger] s[i]).name@ == name;
        assert(s.drop_first()[i - 1].name@ == name);
        lemma_amount_of_present_pos(s.drop_first(), name);
    }
}

/// Looks `name` up in an ingredient or result list.
pub fn find_amount(list: &Vec<ItemAmount>, name: &String) -> (r: Option<Rat>)
    ensures
        match r {
            Some(v) => has_amount(list@, name@) && v@ == amount_of(list@, name@),
            None => !has_amount(list@, name@),
        },
        amounts_wf(list@) ==> (r matches Some(v) ==> v.wf()),
{
    let n = list.len();
    let mut i: usize = 0;
    while i < n
        invariant
            n == list@.len(),
            0 <= i <= n,
            forall|j: int| 0 <= j < i ==> (#[trigger] list@[j]).name@ != name@,
        decreases n - i,
    {
        if list[i].name == *name {
            proof {
                lemma_amount_of_found(list@, name@, i as int);
            }
            return Some(list[i].amount);
        }
        i += 1;
    }
    proof {
        lemma_amount_of_absent(list@, name@);
    }
    None
}

/// Some entry of a name list equals `name`.
pub open spec fn contains_name(s: Seq<String>, name: Seq<char>) -> bool {
    exists|i: int| 0 <= i < s.len() && (#[trigger] s[i])@ == name
}

/// Membership test on a list of names, such as a machine's categories.
pub fn names_contain(list: &Vec<String>, name: &String) -> (r: bool)
    ensures
        r == contains_name(list@, name@),
{
    let n = list.len();
    let mut i: usize = 0;
    while i < n
        invariant
            n == list@.len(),
            0 <= i <= n,
            forall|j: int| 0 <= j < i ==> (#[trigger] list@[j])@ != name@,
        decreases n - i,
    {
        if list[i] == *name {
            return true;
        }
        i += 1;
    }
    false
}

/// Byte-wise lexicographic order: the order `String` comparison gives,
/// applied to the UTF-8 encodings.
pub open spec fn bytes_le(a: Seq<u8>, b: Seq<u8>) -> bool
    decreases a.len(),
{
    if a.len() == 0 {
        true
    } else if b.len() == 0 {
        false
    } else if a[0] < b[0] {
        true
    } else if a[0] > b[0] {
        false
    } else {
        bytes_le(a.drop_first(), b.drop_first())
    }
}

/// `a` sorts at or before `b` as machine names: byte-wise lexicographic
/// order of the UTF-8 encodings.
pub open spec fn name_le(a: Seq<char>, b: Seq<char>) -> bool {
    bytes_le(vstd::utf8::encode_utf8(a), vstd::utf8::encode_utf8(b))
}

/// The order is total.
pub proof fn lemma_bytes_le_total(a: Seq<u8>, b: Seq<u8>)
    ensures
        bytes_le(a, b) || bytes_le(b, a),
    decreases a.len(),
{
    if a.len() != 0 && b.len() != 0 && a[0] == b[0] {
        lemma_bytes_le_total(a.drop_first(), b.drop_first());
    }
}

/// The order is transitive.
pub proof fn lemma_bytes_le_trans(a: Seq<u8>, b: Seq<u8>, c: Seq<u8>)
    requires
        bytes_le(a, b),
        bytes_le(b, c),
    ensures
        bytes_le(a, c),
    decreases a.len(),
{
    if a.len() != 0 {
        if a[0] == b[0] && b[0] == c[0] {
            lemma_bytes_le_trans(a.drop_first(), b.drop_first(), c.drop_first());
        }
    }
}

/// Ignoring an equal prefix does not change the comparison.
proof fn lemma_bytes_le_skip(a: Seq<u8>, b: Seq<u8>, i: int)
    requires
        0 <= i <= a.len(),
        i <= b.len(),
        forall|j: int| 0 <= j < i ==> a[j] == b[j],
    ensures
        bytes_le(a, b) == bytes_le(a.skip(i), b.skip(i)),
    decreases i,
{
    if i == 0 {
        assert(a.skip(0) =~= a);
        assert(b.skip(0) =~= b);
    } else {
        assert(a[0] == b[0]);
        assert(a.drop_first().skip(i - 1) =~= a.skip(i));
        assert(b.drop_first().skip(i - 1) =~= b.skip(i));
        lemma_bytes_le_skip(a.drop_first(), b.drop_first(), i - 1);
    }
}

/// Executable name comparison, agreeing with `name_le` on the views.
pub fn name_le_exec(a: &String, b: &String) -> (r: bool)
    ensures
        r == name_le(a@, b@),
{
    let ab: &[u8] = a.as_str().as_bytes();
    let bb: &[u8] = b.as_str().as_bytes();
    let na = ab.len();
    let nb = bb.len();
    let mut i: usize = 0;
    let mut result: bool = true;
    loop
        invariant
            na == ab@.len(),
            nb == bb@.len(),
            ab@ == vstd::utf8::encode_utf8(a@),
            bb@ == vstd::utf8::encode_utf8(b@),
            0 <= i <= na,
            i <= nb,
            forall|j: int| 0 <= j < i ==> ab@[j] == bb@[j],
        ensures
            result == name_le(a@, b@),
        decreases na - i,
    {
        proof {
            lemma_bytes_le_skip(ab@, bb@, i as int);
        }
        if i == na {
            proof {
                assert(ab@.skip(i as int) =~= Seq::<u8>::empty());
            }
            result = true;
            break;
        }
        proof {
            assert(ab@.skip(i as int).len() > 0);
            assert(ab@.skip(i as int)[0] == ab@[i as int]);
        }
        if i == nb {
            proof {
                assert(bb@.skip(i as int) =~= Seq::<u8>::empty());
            }
            result = false;
            break;
        }
        proof {
            assert(bb@.skip(i as int).len() > 0);
            assert(bb@.skip(i as int)[0] == bb@[i as int]);
        }
        if ab[i] < bb[i] {
            result = true;
            break;
        }
        if ab[i] > bb[i] {
            result = false;
            break;
        }
        i += 1;
    }
    result
}

/// Ascending by machine name, in the byte order.
pub open spec fn sorted_assemblers(s: Seq<AssemblingMachine>) -> bool {
    forall|k1: int, k2: int|
        0 <= k1 < k2 < s.len() ==> name_le((#[trigger] s[k1]).name@, (#[trigger] s[k2]).name@)
}

/// Ascending by drill name, in the byte order.
pub open spec fn sorted_drills(s: Seq<MiningDrill>) -> bool {
    forall|k1: int, k2: int|
        0 <= k1 < k2 < s.len() ==> name_le((#[trigger] s[k1]).name@, (#[trigger] s[k2]).name@)
}

/// Inserts `m` after every entry whose name sorts at or before it.
fn insert_assembler_sorted(v: &mut Vec<AssemblingMachine>, m: AssemblingMachine)
    requires
        sorted_assemblers(old(v)@),
    ensures
        sorted_assemblers(final(v)@),
        exists|p: int| 0 <= p <= old(v)@.len() && final(v)@ == old(v)@.insert(p, m),
{
    let n = v.len();
    let mut p: usize = 0;
    loop
        invariant
            n == v@.len(),
            v@ == old(v)@,
            sorted_assemblers(v@),
            0 <= p <= n,
            forall|j: int| 0 <= j < p ==> name_le((#[trigger] v@[j]).name@, m.name@),
        ensures
            v@ == old(v)@,
            0 <= p <= n,
            forall|j: int| 0 <= j < p ==> name_le((#[trigger] v@[j]).name@, m.name@),
            p < n ==> !name_le(v@[p as int].name@, m.name@),
        decreases n - p,
    {
        if p == n {
            break;
        }
        if !name_le_exec(&v[p].name, &m.name) {
            break;
        }
        p += 1;
    }
    let ghost before = v@;
    let ghost pos = p as int;
    v.insert(p, m);
    proof {
        assert forall|k1: int, k2: int|
            0 <= k1 < k2 < v@.len() implies name_le(
            (#[trigger] v@[k1]).name@,
            (#[trigger] v@[k2]).name@,
        ) by {
            if pos < before.len() {
                lemma_bytes_le_total(
                    vstd::utf8::encode_utf8(before[pos].name@),
                    vstd::utf8::encode_utf8(m.name@),
                );
            }
            let n1 = if k1 < pos {
                before[k1].name@
            } else if k1 == pos {
                m.name@
            } else {
                before[k1 - 1].name@
            };
            assert(v@[k1].name@ == n1);
            let n2 = if k2 < pos {
                before[k2].name@
            } else if k2 == pos {
                m.name@
            } else {
                before[k2 - 1].name@
            };
            assert(v@[k2].name@ == n2);
            if k1 == pos && k2 > pos {
                // m precedes the suffix: it sorts before the entry at
                // the insertion point, which sorts before the rest.
                if k2 - 1 > pos {
                    lemma_bytes_le_trans(
                        vstd::utf8::encode_utf8(m.name@),
                        vstd::utf8::encode_utf8(before[pos].name@),
                        vstd::utf8::encode_utf8(before[k2 - 1].name@),
                    );
                }
            }
        }
    }
}

/// Inserts `d` after every entry whose name sorts at or before it.
fn insert_drill_sorted(v: &mut Vec<MiningDrill>, d: MiningDrill)
    requires
        sorted_drills(old(v)@),
    ensures
        sorted_drills(final(v)@),
        exists|p: int| 0 <= p <= old(v)@.len() && final(v)@ == old(v)@.insert(p, d),
{
    let n = v.len();
    let mut p: usize = 0;
    loop
        invariant
            n == v@.len(),
            v@ == old(v)@,
            sorted_drills(v@),
            0 <= p <= n,
            forall|j: int| 0 <= j < p ==> name_le((#[trigger] v@[j]).name@, d.name@),
        ensures
            v@ == old(v)@,
            0 <= p <= n,
            forall|j: int| 0 <= j < p ==> name_le((#[trigger] v@[j]).name@, d.name@),
            p < n ==> !name_le(v@[p as int].name@, d.name@),
        decreases n - p,
    {
        if p == n {
            break;
        }
        if !name_le_exec(&v[p].name, &d.name) {
            break;
        }
        p += 1;
    }
    let ghost before = v@;
    let ghost pos = p as int;
    v.insert(p, d);
    proof {
        assert forall|k1: int, k2: int|
            0 <= k1 < k2 < v@.len() implies name_le(
            (#[trigger] v@[k1]).name@,
            (#[trigger] v@[k2]).name@,
        ) by {
            if pos < before.len() {
                lemma_bytes_le_total(
                    vstd::utf8::encode_utf8(before[pos].name@),
                    vstd::utf8::encode_utf8(d.name@),
                );
            }
            let n1 = if k1 < pos {
                before[k1].name@
            } else if k1 == pos {
                d.name@
            } else {
                before[k1 - 1].name@
            };
            assert(v@[k1].name@ == n1);
            let n2 = if k2 < pos {
                before[k2].name@
            } else if k2 == pos {
                d.name@
            } else {
                before[k2 - 1].name@
            };
            assert(v@[k2].name@ == n2);
            if k1 == pos && k2 > pos {
                if k2 - 1 > pos {
                    lemma_bytes_le_trans(
                        vstd::utf8::encode_utf8(d.name@),
                        vstd::utf8::encode_utf8(before[pos].name@),
                        vstd::utf8::encode_utf8(before[k2 - 1].name@),
                    );
                }
            }
        }
    }
}

/// A craftable or extractable item: the unique key is the name.
#[derive(Debug, Clone)]
pub struct Item {
    pub icon: String,
    pub name: String,
    pub subgroup: String,
}

#[derive(Debug, Clone)]
pub struct ItemGroup {
    pub name: String,
}

#[derive(Debug, Clone)]
pub struct ItemSubGroup {
    pub name: String,
    pub group: String,
}

#[derive(Debug, Clone, Copy)]
pub struct ModuleSpec {
    pub module_slots: usize,
}

#[derive(Debug, Clone, Copy, PartialEq, Eq, Structural)]
pub enum EffectType {
    Speed,
    Consumption,
    Pollution,
    Productivity,
}

/// The single cost variant of a recipe the solver reads.
#[derive(Debug, Clone)]
pub struct RecipeData {
    pub energy_required: Rat,
    pub ingredients: Vec<ItemAmount>,
    pub results: Vec<ItemAmount>,
    pub allow_decomposition: bool,
}

#[derive(Debug, Clone)]
pub struct Recipe {
    pub name: String,
    pub category: String,
    pub data: RecipeData,
}

impl Recipe {
    /// Positive execution time, positive amounts, and no item listed
    /// twice on either side.
    pub open spec fn wf(self) -> bool {
        &&& self.data.energy_required.wf()
        &&& rat_lt(rat_of_int(0), self.data.energy_required@)
        &&& amounts_wf(self.data.results@)
        &&& names_distinct(self.data.results@)
        &&& amounts_wf(self.data.ingredients@)
        &&& names_distinct(self.data.ingredients@)
    }

    pub fn produces(&self) -> (r: &Vec<ItemAmount>)
        ensures
            r@ == self.data.results@,
    {
        &self.data.results
    }

    pub fn consumes(&self) -> (r: &Vec<ItemAmount>)
        ensures
            r@ == self.data.ingredients@,
    {
        &self.data.ingredients
    }

    pub fn energy_required(&self) -> (r: Rat)
        ensures
            r == self.data.energy_required,
    {
        self.data.energy_required
    }

    pub fn allow_decomposition(&self) -> (r: bool)
        ensures
            r == self.data.allow_decomposition,
    {
        self.data.allow_decomposition
    }

    /// A copy with the same content, for building an owned machine
    /// binding; the vectors are fresh, so only the views coincide.
    pub fn duplicate(&self) -> (c: Recipe)
        ensures
            same_recipe(c, *self),
    {
        let c = Recipe {
            name: self.name.clone(),
            category: self.category.clone(),
            data: RecipeData {
                energy_required: self.data.energy_required,
                ingredients: duplicate_amounts(&self.data.ingredients),
                results: duplicate_amounts(&self.data.results),
                allow_decomposition: self.data.allow_decomposition,
            },
        };
        c
    }
}

#[derive(Debug, Clone)]
pub struct AssemblingMachine {
    pub icon: String,
    pub name: String,
    pub crafting_categories: Vec<String>,
    pub crafting_speed: Rat,
    pub allowed_effects: Vec<EffectType>,
    pub module_specification: Option<ModuleSpec>,
}

impl AssemblingMachine {
    pub open spec fn wf(self) -> bool {
        &&& self.crafting_speed.wf()
        &&& rat_lt(rat_of_int(0), self.crafting_speed@)
    }

    /// A copy with the same content, for building an owned machine
    /// binding; the vectors are fresh, so only the views coincide.
    pub fn duplicate(&self) -> (c: AssemblingMachine)
        ensures
            same_assembler(c, *self),
    {
        AssemblingMachine {
            icon: self.icon.clone(),
            name: self.name.clone(),
            crafting_categories: duplicate_names(&self.crafting_categories),
            crafting_speed: self.crafting_speed,
            allowed_effects: duplicate_copies(&self.allowed_effects),
            module_specification: self.module_specification,
        }
    }
}

#[derive(Debug, Clone)]
pub struct MiningDrill {
    pub icon: String,
    pub name: String,
    pub mining_speed: Rat,
    pub resource_categories: Vec<String>,
    pub module_specification: Option<ModuleSpec>,
}

impl MiningDrill {
    pub open spec fn wf(self) -> bool {
        &&& self.mining_speed.wf()
        &&& rat_lt(rat_of_int(0), self.mining_speed@)
    }

    /// A copy with the same content, for building an owned machine
    /// binding; the vectors are fresh, so only the views coincide.
    pub fn duplicate(&self) -> (c: MiningDrill)
        ensures
            same_drill(c, *self),
    {
        MiningDrill {
            icon: self.icon.clone(),
            name: self.name.clone(),
            mining_speed: self.mining_speed,
            resource_categories: duplicate_names(&self.resource_categories),
            module_specification: self.module_specification,
        }
    }
}

/// A single fluid consumed per extraction cycle of a resource.
#[derive(Debug, Clone)]
pub struct FluidRequirement {
    pub required_fluid: String,
    pub fluid_amount: Rat,
}

impl FluidRequirement {
    pub open spec fn wf(self) -> bool {
        &&& self.fluid_amount.wf()
        &&& rat_lt(rat_of_int(0), self.fluid_amount@)
    }
}

#[derive(Debug, Clone)]
pub struct Resource {
    pub icon: String,
    pub name: String,
    pub category: String,
    pub mining_time: Rat,
    pub fluid_requirement: Option<FluidRequirement>,
    pub results: Vec<ItemAmount>,
}

impl Resource {
    pub open spec fn wf(self) -> bool {
        &&& self.mining_time.wf()
        &&& rat_lt(rat_of_int(0), self.mining_time@)
        &&& amounts_wf(self.results@)
        &&& names_distinct(self.results@)
        &&& (self.fluid_requirement matches Some(f) ==> f.wf())
    }

    /// A copy with the same content, for building an owned machine
    /// binding; the vectors are fresh, so only the views coincide.
    pub fn duplicate(&self) -> (c: Resource)
        ensures
            same_resource(c, *self),
    {
        let fluid_requirement = match &self.fluid_requirement {
            Some(f) => Some(
                FluidRequirement {
                    required_fluid: f.required_fluid.clone(),
                    fluid_amount: f.fluid_amount,
                },
            ),
            None => None,
        };
        Resource {
            icon: self.icon.clone(),
            name: self.name.clone(),
            category: self.category.clone(),
            mining_time: self.mining_time,
            fluid_requirement,
            results: duplicate_amounts(&self.results),
        }
    }
}

#[derive(Debug, Clone)]
pub struct OffshorePump {
    pub icon: String,
    pub name: String,
    pub fluid: String,
    pub pumping_speed: Rat,
}

impl OffshorePump {
    pub open spec fn wf(self) -> bool {
        &&& self.pumping_speed.wf()
        &&& rat_lt(rat_of_int(0), self.pumping_speed@)
    }

    /// A copy equal to `self`, for building an owned machine binding.
    pub fn duplicate(&self) -> (c: OffshorePump)
        ensures
            c == *self,
    {
        OffshorePump {
            icon: self.icon.clone(),
            name: self.name.clone(),
            fluid: self.fluid.clone(),
            pumping_speed: self.pumping_speed,
        }
    }
}

/// The two recipes have the same content, field by field; their
/// vectors need not be the same allocation.
pub open spec fn same_recipe(a: Recipe, b: Recipe) -> bool {
    &&& a.name@ == b.name@
    &&& a.category@ == b.category@
    &&& a.data.energy_required == b.data.energy_required
    &&& a.data.ingredients@ == b.data.ingredients@
    &&& a.data.results@ == b.data.results@
    &&& a.data.allow_decomposition == b.data.allow_decomposition
}

/// The two machines have the same content, field by field.
pub open spec fn same_assembler(a: AssemblingMachine, b: AssemblingMachine) -> bool {
    &&& a.icon@ == b.icon@
    &&& a.name@ == b.name@
    &&& a.crafting_categories@ == b.crafting_categories@
    &&& a.crafting_speed == b.crafting_speed
    &&& a.allowed_effects@ == b.allowed_effects@
    &&& a.module_specification == b.module_specification
}

/// The two drills have the same content, field by field.
pub open spec fn same_drill(a: MiningDrill, b: MiningDrill) -> bool {
    &&& a.icon@ == b.icon@
    &&& a.name@ == b.name@
    &&& a.mining_speed == b.mining_speed
    &&& a.resource_categories@ == b.resource_categories@
    &&& a.module_specification == b.module_specification
}

/// The two resources have the same content, field by field.
pub open spec fn same_resource(a: Resource, b: Resource) -> bool {
    &&& a.icon@ == b.icon@
    &&& a.name@ == b.name@
    &&& a.category@ == b.category@
    &&& a.mining_time == b.mining_time
    &&& a.fluid_requirement == b.fluid_requirement
    &&& a.results@ == b.results@
}

/// Some drill in the table bears this name.
pub open spec fn some_drill_named(data: GameData, name: Seq<char>) -> bool {
    exists|i: int|
        0 <= i < data.mining_drills@.len() && (#[trigger] data.mining_drills@[i]).name@ == name
}

/// `i` is the first drill in the table bearing this name.
pub open spec fn first_drill_named_at(data: GameData, name: Seq<char>, i: int) -> bool {
    &&& 0 <= i < data.mining_drills@.len()
    &&& data.mining_drills@[i].name@ == name
    &&& forall|j: int| 0 <= j < i ==> (#[trigger] data.mining_drills@[j]).name@ != name
}

/// Some assembling machine in the table bears this name.
pub open spec fn some_machine_named(data: GameData, name: Seq<char>) -> bool {
    exists|i: int|
        0 <= i < data.assembling_machines@.len() && (
        #[trigger] data.assembling_machines@[i]).name@ == name
}

/// `i` is the first assembling machine in the table bearing this name.
pub open spec fn first_machine_named_at(data: GameData, name: Seq<char>, i: int) -> bool {
    &&& 0 <= i < data.assembling_machines@.len()
    &&& data.assembling_machines@[i].name@ == name
    &&& forall|j: int|
        0 <= j < i ==> (#[trigger] data.assembling_machines@[j]).name@ != name
}

/// The read-only tables a solve consults.
#[derive(Debug, Clone)]
pub struct GameData {
    pub items: Vec<Item>,
    pub recipes: Vec<Recipe>,
    pub assembling_machines: Vec<AssemblingMachine>,
    pub item_groups: Vec<ItemGroup>,
    pub item_subgroups: Vec<ItemSubGroup>,
    pub mining_drills: Vec<MiningDrill>,
    pub offshore_pumps: Vec<OffshorePump>,
    pub resources: Vec<Resource>,
}

/// The machine serves this category among more than one, so a user
/// choice between such machines is meaningful.
pub open spec fn multi_assembler_for(m: AssemblingMachine, category: Seq<char>) -> bool {
    m.crafting_categories@.len() > 1 && contains_name(m.crafting_categories@, category)
}

pub open spec fn multi_drill_for(d: MiningDrill, category: Seq<char>) -> bool {
    d.resource_categories@.len() > 1 && contains_name(d.resource_categories@, category)
}

/// Some recipe uses this category.
pub open spec fn is_recipe_category(data: GameData, c: Seq<char>) -> bool {
    exists|i: int| 0 <= i < data.recipes@.len() && (#[trigger] data.recipes@[i]).category@ == c
}

/// Some resource uses this category.
pub open spec fn is_resource_category(data: GameData, c: Seq<char>) -> bool {
    exists|i: int| 0 <= i < data.resources@.len() && (#[trigger] data.resources@[i]).category@ == c
}

/// At least two distinct multi-category assemblers serve the category.
pub open spec fn two_multi_assemblers(data: GameData, c: Seq<char>) -> bool {
    exists|a: int, b: int|
        0 <= a < b < data.assembling_machines@.len() && multi_assembler_for(
            #[trigger] data.assembling_machines@[a],
            c,
        ) && multi_assembler_for(#[trigger] data.assembling_machines@[b], c)
}

/// At least two distinct multi-category drills serve the category.
pub open spec fn two_multi_drills(data: GameData, c: Seq<char>) -> bool {
    exists|a: int, b: int|
        0 <= a < b < data.mining_drills@.len() && multi_drill_for(
            #[trigger] data.mining_drills@[a],
            c,
        ) && multi_drill_for(#[trigger] data.mining_drills@[b], c)
}

/// `name` belongs to a multi-category assembler serving the category
/// and sorts at or before every such machine's name.
pub open spec fn least_multi_assembler(data: GameData, c: Seq<char>, name: Seq<char>) -> bool {
    &&& exists|j: int|
        0 <= j < data.assembling_machines@.len() && multi_assembler_for(
            #[trigger] data.assembling_machines@[j],
            c,
        ) && data.assembling_machines@[j].name@ == name
    &&& forall|j: int|
        0 <= j < data.assembling_machines@.len() && multi_assembler_for(
            #[trigger] data.assembling_machines@[j],
            c,
        ) ==> name_le(name, data.assembling_machines@[j].name@)
}

/// `name` belongs to a multi-category drill serving the category and
/// sorts at or before every such drill's name.
pub open spec fn least_multi_drill(data: GameData, c: Seq<char>, name: Seq<char>) -> bool {
    &&& exists|j: int|
        0 <= j < data.mining_drills@.len() && multi_drill_for(
            #[trigger] data.mining_drills@[j],
            c,
        ) && data.mining_drills@[j].name@ == name
    &&& forall|j: int|
        0 <= j < data.mining_drills@.len() && multi_drill_for(
            #[trigger] data.mining_drills@[j],
            c,
        ) ==> name_le(name, data.mining_drills@[j].name@)
}

/// `m` has the content of some multi-category assembler for `c`.
pub open spec fn rep_of_multi_assembler(data: GameData, c: Seq<char>, m: AssemblingMachine) -> bool {
    exists|i: int|
        0 <= i < data.assembling_machines@.len() && multi_assembler_for(
            #[trigger] data.assembling_machines@[i],
            c,
        ) && same_assembler(m, data.assembling_machines@[i])
}

/// `d` has the content of some multi-category drill for `c`.
pub open spec fn rep_of_multi_drill(data: GameData, c: Seq<char>, d: MiningDrill) -> bool {
    exists|i: int|
        0 <= i < data.mining_drills@.len() && multi_drill_for(
            #[trigger] data.mining_drills@[i],
            c,
        ) && same_drill(d, data.mining_drills@[i])
}

pub open spec fn lists_assembler(s: Seq<AssemblingMachine>, m: AssemblingMachine) -> bool {
    exists|x: int| 0 <= x < s.len() && same_assembler(#[trigger] s[x], m)
}

pub open spec fn lists_drill(s: Seq<MiningDrill>, d: MiningDrill) -> bool {
    exists|x: int| 0 <= x < s.len() && same_drill(#[trigger] s[x], d)
}

/// Copies of the multi-category assemblers serving `category`, in
/// table order.
#[verifier::rlimit(40)]
fn multi_assemblers_for(data: &GameData, category: &String) -> (r: Vec<AssemblingMachine>)
    ensures
        forall|x: int|
            0 <= x < r@.len() ==> rep_of_multi_assembler(*data, category@, #[trigger] r@[x]),
        forall|i: int|
            0 <= i < data.assembling_machines@.len() && multi_assembler_for(
                #[trigger] data.assembling_machines@[i],
                category@,
            ) ==> lists_assembler(r@, data.assembling_machines@[i]),
        (r@.len() >= 2) == two_multi_assemblers(*data, category@),
        sorted_assemblers(r@),
{
    let n = data.assembling_machines.len();
    let mut out: Vec<AssemblingMachine> = Vec::new();
    let ghost mut idxs: Seq<int> = Seq::empty();
    let mut i: usize = 0;
    while i < n
        invariant
            n == data.assembling_machines@.len(),
            0 <= i <= n,
            idxs.len() == out@.len(),
            forall|k: int| 0 <= k < idxs.len() ==> 0 <= #[trigger] idxs[k] < i,
            forall|k: int| 1 <= k < idxs.len() ==> idxs[0] < #[trigger] idxs[k],
            forall|k: int|
                0 <= k < idxs.len() ==> multi_assembler_for(
                    data.assembling_machines@[#[trigger] idxs[k]],
                    category@,
                ) && same_assembler(out@[k], data.assembling_machines@[idxs[k]]),
            forall|j: int|
                0 <= j < i && multi_assembler_for(
                    #[trigger] data.assembling_machines@[j],
                    category@,
                ) ==> idxs.contains(j),
        decreases n - i,
    {
        let m = &data.assembling_machines[i];
        if m.crafting_categories.len() > 1 && names_contain(&m.crafting_categories, category) {
            out.push(m.duplicate());
            proof {
                let prev = idxs;
                idxs = idxs.push(i as int);
                assert(idxs[idxs.len() - 1] == i as int);
                assert forall|j: int|
                    0 <= j < i + 1 && multi_assembler_for(
                        #[trigger] data.assembling_machines@[j],
                        category@,
                    ) implies idxs.contains(j) by {
                    if j < i {
                        let k = choose|k: int| 0 <= k < prev.len() && prev[k] == j;
                        assert(idxs[k] == j);
                    }
                }
            }
        }
        i += 1;
    }
    proof {
        lemma_multi_assembler_filter(*data, category@, out@, idxs);
    }
    let ghost f0 = out@;
    let mut ordered: Vec<AssemblingMachine> = Vec::new();
    loop
        invariant
            sorted_assemblers(ordered@),
            out@.len() + ordered@.len() == f0.len(),
            forall|x: int|
                0 <= x < ordered@.len() ==> rep_of_multi_assembler(
                    *data,
                    category@,
                    #[trigger] ordered@[x],
                ),
            forall|x: int|
                0 <= x < out@.len() ==> rep_of_multi_assembler(*data, category@, #[trigger] out@[x]),
            forall|i2: int|
                0 <= i2 < data.assembling_machines@.len() && multi_assembler_for(
                    #[trigger] data.assembling_machines@[i2],
                    category@,
                ) ==> lists_assembler(out@, data.assembling_machines@[i2]) || lists_assembler(
                    ordered@,
                    data.assembling_machines@[i2],
                ),
        ensures
            out@.len() == 0,
        decreases out@.len(),
    {
        let ghost pre_out = out@;
        let ghost pre_ord = ordered@;
        let m = match out.pop() {
            Some(m) => m,
            None => {
                break;
            },
        };
        insert_assembler_sorted(&mut ordered, m);
        proof {
            let p = choose|p: int| 0 <= p <= pre_ord.len() && ordered@ == pre_ord.insert(p, m);
            pre_ord.insert_ensures(p, m);
            assert(m == pre_out.last());
            assert(out@ =~= pre_out.drop_last());
            assert forall|i2: int|
                0 <= i2 < data.assembling_machines@.len() && multi_assembler_for(
                    #[trigger] data.assembling_machines@[i2],
                    category@,
                ) implies lists_assembler(out@, data.assembling_machines@[i2]) || lists_assembler(
                ordered@,
                data.assembling_machines@[i2],
            ) by {
                if lists_assembler(pre_out, data.assembling_machines@[i2]) {
                    let q = choose|q: int|
                        0 <= q < pre_out.len() && same_assembler(
                            #[trigger] pre_out[q],
                            data.assembling_machines@[i2],
                        );
                    if q < pre_out.len() - 1 {
                        assert(out@[q] == pre_out[q]);
                    } else {
                        assert(ordered@[p] == m);
                    }
                } else {
                    let q = choose|q: int|
                        0 <= q < pre_ord.len() && same_assembler(
                            #[trigger] pre_ord[q],
                            data.assembling_machines@[i2],
                        );
                    if q < p {
                        assert(ordered@[q] == pre_ord[q]);
                    } else {
                        assert(ordered@[q + 1] == pre_ord[q]);
                    }
                }
            }
            assert forall|x: int|
                0 <= x < ordered@.len() implies rep_of_multi_assembler(
                *data,
                category@,
                #[trigger] ordered@[x],
            ) by {
                if x < p {
                    assert(ordered@[x] == pre_ord[x]);
                } else if x == p {
                    assert(ordered@[x] == m);
                    assert(m == pre_out[pre_out.len() - 1]);
                } else {
                    assert(ordered@[x] == pre_ord[x - 1]);
                }
            }
        }
    }
    proof {
        assert forall|i2: int|
            0 <= i2 < data.assembling_machines@.len() && multi_assembler_for(
                #[trigger] data.assembling_machines@[i2],
                category@,
            ) implies lists_assembler(ordered@, data.assembling_machines@[i2]) by {
            assert(!lists_assembler(out@, data.assembling_machines@[i2]));
        }
    }
    ordered
}

/// What an in-order scan over the machine table, recording the matched
/// indices, establishes about its output.
#[verifier::rlimit(80)]
#[verifier::spinoff_prover]
proof fn lemma_multi_assembler_filter(
    data: GameData,
    category: Seq<char>,
    out: Seq<AssemblingMachine>,
    idxs: Seq<int>,
)
    requires
        idxs.len() == out.len(),
        forall|k: int| 0 <= k < idxs.len() ==> 0 <= #[trigger] idxs[k] < data.assembling_machines@.len(),
        forall|k: int| 1 <= k < idxs.len() ==> idxs[0] < #[trigger] idxs[k],
        forall|k: int|
            0 <= k < idxs.len() ==> multi_assembler_for(
                data.assembling_machines@[#[trigger] idxs[k]],
                category,
            ) && same_assembler(out[k], data.assembling_machines@[idxs[k]]),
        forall|j: int|
            0 <= j < data.assembling_machines@.len() && multi_assembler_for(
                #[trigger] data.assembling_machines@[j],
                category,
            ) ==> idxs.contains(j),
    ensures
        forall|x: int| 0 <= x < out.len() ==> rep_of_multi_assembler(data, category, #[trigger] out[x]),
        forall|i: int|
            0 <= i < data.assembling_machines@.len() && multi_assembler_for(
                #[trigger] data.assembling_machines@[i],
                category,
            ) ==> lists_assembler(out, data.assembling_machines@[i]),
        (out.len() >= 2) == two_multi_assemblers(data, category),
{
    assert forall|x: int|
        0 <= x < out.len() implies rep_of_multi_assembler(data, category, out[x]) by {
        assert(multi_assembler_for(data.assembling_machines@[idxs[x]], category));
    }
    assert forall|i2: int|
        0 <= i2 < data.assembling_machines@.len() && multi_assembler_for(
            data.assembling_machines@[i2],
            category,
        ) implies lists_assembler(out, data.assembling_machines@[i2]) by {
        let k = choose|k: int| 0 <= k < idxs.len() && idxs[k] == i2;
        assert(same_assembler(out[k], data.assembling_machines@[i2]));
    }
    if out.len() >= 2 {
        assert(idxs[0] < idxs[1]);
        assert(multi_assembler_for(data.assembling_machines@[idxs[0]], category));
        assert(multi_assembler_for(data.assembling_machines@[idxs[1]], category));
    }
    if two_multi_assemblers(data, category) {
        let (a, b) = choose|a: int, b: int|
            0 <= a < b < data.assembling_machines@.len() && multi_assembler_for(
                #[trigger] data.assembling_machines@[a],
                category,
            ) && multi_assembler_for(#[trigger] data.assembling_machines@[b], category);
        let ka = choose|k: int| 0 <= k < idxs.len() && idxs[k] == a;
        let kb = choose|k: int| 0 <= k < idxs.len() && idxs[k] == b;
        assert(ka != kb);
        assert(out.len() >= 2);
    }
}

/// Copies of the multi-category drills serving `category`, in table
/// order.
#[verifier::rlimit(40)]
fn multi_drills_for(data: &GameData, category: &String) -> (r: Vec<MiningDrill>)
    ensures
        forall|x: int| 0 <= x < r@.len() ==> rep_of_multi_drill(*data, category@, #[trigger] r@[x]),
        forall|i: int|
            0 <= i < data.mining_drills@.len() && multi_drill_for(
                #[trigger] data.mining_drills@[i],
                category@,
            ) ==> lists_drill(r@, data.mining_drills@[i]),
        (r@.len() >= 2) == two_multi_drills(*data, category@),
        sorted_drills(r@),
{
    let n = data.mining_drills.len();
    let mut out: Vec<MiningDrill> = Vec::new();
    let ghost mut idxs: Seq<int> = Seq::empty();
    let mut i: usize = 0;
    while i < n
        invariant
            n == data.mining_drills@.len(),
            0 <= i <= n,
            idxs.len() == out@.len(),
            forall|k: int| 0 <= k < idxs.len() ==> 0 <= #[trigger] idxs[k] < i,
            forall|k: int| 1 <= k < idxs.len() ==> idxs[0] < #[trigger] idxs[k],
            forall|k: int|
                0 <= k < idxs.len() ==> multi_drill_for(
                    data.mining_drills@[#[trigger] idxs[k]],
                    category@,
                ) && same_drill(out@[k], data.mining_drills@[idxs[k]]),
            forall|j: int|
                0 <= j < i && multi_drill_for(#[trigger] data.mining_drills@[j], category@)
                    ==> idxs.contains(j),
        decreases n - i,
    {
        let m = &data.mining_drills[i];
        if m.resource_categories.len() > 1 && names_contain(&m.resource_categories, category) {
            out.push(m.duplicate());
            proof {
                let prev = idxs;
                idxs = idxs.push(i as int);
                assert(idxs[idxs.len() - 1] == i as int);
                assert forall|j: int|
                    0 <= j < i + 1 && multi_drill_for(
                        #[trigger] data.mining_drills@[j],
                        category@,
                    ) implies idxs.contains(j) by {
                    if j < i {
                        let k = choose|k: int| 0 <= k < prev.len() && prev[k] == j;
                        assert(idxs[k] == j);
                    }
                }
            }
        }
        i += 1;
    }
    proof {
        assert forall|x: int|
            0 <= x < out@.len() implies rep_of_multi_drill(*data, category@, out@[x]) by {
            assert(multi_drill_for(data.mining_drills@[idxs[x]], category@));
        }
        assert forall|i2: int|
            0 <= i2 < data.mining_drills@.len() && multi_drill_for(
                data.mining_drills@[i2],
                category@,
            ) implies lists_drill(out@, data.mining_drills@[i2]) by {
            let k = choose|k: int| 0 <= k < idxs.len() && idxs[k] == i2;
            assert(same_drill(out@[k], data.mining_drills@[i2]));
        }
        if out@.len() >= 2 {
            assert(idxs[0] < idxs[1]);
            assert(multi_drill_for(data.mining_drills@[idxs[0]], category@));
            assert(multi_drill_for(data.mining_drills@[idxs[1]], category@));
        }
        if two_multi_drills(*data, category@) {
            let (a, b) = choose|a: int, b: int|
                0 <= a < b < data.mining_drills@.len() && multi_drill_for(
                    #[trigger] data.mining_drills@[a],
                    category@,
                ) && multi_drill_for(#[trigger] data.mining_drills@[b], category@);
            let ka = choose|k: int| 0 <= k < idxs.len() && idxs[k] == a;
            let kb = choose|k: int| 0 <= k < idxs.len() && idxs[k] == b;
            assert(ka != kb);
            assert(out@.len() >= 2);
        }
    }
    let ghost f0 = out@;
    let mut ordered: Vec<MiningDrill> = Vec::new();
    loop
        invariant
            sorted_drills(ordered@),
            out@.len() + ordered@.len() == f0.len(),
            forall|x: int|
                0 <= x < ordered@.len() ==> rep_of_multi_drill(
                    *data,
                    category@,
                    #[trigger] ordered@[x],
                ),
            forall|x: int|
                0 <= x < out@.len() ==> rep_of_multi_drill(*data, category@, #[trigger] out@[x]),
            forall|i2: int|
                0 <= i2 < data.mining_drills@.len() && multi_drill_for(
                    #[trigger] data.mining_drills@[i2],
                    category@,
                ) ==> lists_drill(out@, data.mining_drills@[i2]) || lists_drill(
                    ordered@,
                    data.mining_drills@[i2],
                ),
        ensures
            out@.len() == 0,
        decreases out@.len(),
    {
        let ghost pre_out = out@;
        let ghost pre_ord = ordered@;
        let m = match out.pop() {
            Some(m) => m,
            None => {
                break;
            },
        };
        insert_drill_sorted(&mut ordered, m);
        proof {
            let p = choose|p: int| 0 <= p <= pre_ord.len() && ordered@ == pre_ord.insert(p, m);
            pre_ord.insert_ensures(p, m);
            assert(m == pre_out.last());
            assert(out@ =~= pre_out.drop_last());
            assert forall|i2: int|
                0 <= i2 < data.mining_drills@.len() && multi_drill_for(
                    #[trigger] data.mining_drills@[i2],
                    category@,
                ) implies lists_drill(out@, data.mining_drills@[i2]) || lists_drill(
                ordered@,
                data.mining_drills@[i2],
            ) by {
                if lists_drill(pre_out, data.mining_drills@[i2]) {
                    let q = choose|q: int|
                        0 <= q < pre_out.len() && same_drill(
                            #[trigger] pre_out[q],
                            data.mining_drills@[i2],
                        );
                    if q < pre_out.len() - 1 {
                        assert(out@[q] == pre_out[q]);
                    } else {
                        assert(ordered@[p] == m);
                    }
                } else {
                    let q = choose|q: int|
                        0 <= q < pre_ord.len() && same_drill(
                            #[trigger] pre_ord[q],
                            data.mining_drills@[i2],
                        );
                    if q < p {
                        assert(ordered@[q] == pre_ord[q]);
                    } else {
                        assert(ordered@[q + 1] == pre_ord[q]);
                    }
                }
            }
            assert forall|x: int|
                0 <= x < ordered@.len() implies rep_of_multi_drill(
                *data,
                category@,
                #[trigger] ordered@[x],
            ) by {
                if x < p {
                    assert(ordered@[x] == pre_ord[x]);
                } else if x == p {
                    assert(ordered@[x] == m);
                    assert(m == pre_out[pre_out.len() - 1]);
                } else {
                    assert(ordered@[x] == pre_ord[x - 1]);
                }
            }
        }
    }
    proof {
        assert forall|i2: int|
            0 <= i2 < data.mining_drills@.len() && multi_drill_for(
                #[trigger] data.mining_drills@[i2],
                category@,
            ) implies lists_drill(ordered@, data.mining_drills@[i2]) by {
            assert(!lists_drill(out@, data.mining_drills@[i2]));
        }
    }
    ordered
}

impl GameData {
    /// Executable check that the tables meet `wf`, for hosts loading
    /// data from outside: speeds, times and amounts positive, and no
    /// recipe or resource listing an item twice on one side.
    pub fn check_wf(&self) -> (r: bool)
        ensures
            r == self.wf(),
    {
        let zero = Rat::zero();
        let nr = self.recipes.len();
        let mut i: usize = 0;
        while i < nr
            invariant
                nr == self.recipes@.len(),
                0 <= i <= nr,
                zero.wf(),
                zero@ == rat_of_int(0),
                forall|k: int| 0 <= k < i ==> (#[trigger] self.recipes@[k]).wf(),
            decreases nr - i,
        {
            let re = &self.recipes[i];
            if !(re.data.energy_required.is_wf() && zero.lt(&re.data.energy_required)
                && amounts_ok(&re.data.results) && amounts_ok(&re.data.ingredients)) {
                return false;
            }
            i += 1;
        }
        let nm = self.assembling_machines.len();
        let mut i2: usize = 0;
        while i2 < nm
            invariant
                nm == self.assembling_machines@.len(),
                0 <= i2 <= nm,
                zero.wf(),
                zero@ == rat_of_int(0),
                forall|k: int| 0 <= k < i2 ==> (#[trigger] self.assembling_machines@[k]).wf(),
            decreases nm - i2,
        {
            let m = &self.assembling_machines[i2];
            if !(m.crafting_speed.is_wf() && zero.lt(&m.crafting_speed)) {
                return false;
            }
            i2 += 1;
        }
        let nd = self.mining_drills.len();
        let mut i3: usize = 0;
        while i3 < nd
            invariant
                nd == self.mining_drills@.len(),
                0 <= i3 <= nd,
                zero.wf(),
                zero@ == rat_of_int(0),
                forall|k: int| 0 <= k < i3 ==> (#[trigger] self.mining_drills@[k]).wf(),
            decreases nd - i3,
        {
            let m = &self.mining_drills[i3];
            if !(m.mining_speed.is_wf() && zero.lt(&m.mining_speed)) {
                return false;
            }
            i3 += 1;
        }
        let np = self.offshore_pumps.len();
        let mut i4: usize = 0;
        while i4 < np
            invariant
                np == self.offshore_pumps@.len(),
                0 <= i4 <= np,
                zero.wf(),
                zero@ == rat_of_int(0),
                forall|k: int| 0 <= k < i4 ==> (#[trigger] self.offshore_pumps@[k]).wf(),
            decreases np - i4,
        {
            let p = &self.offshore_pumps[i4];
            if !(p.pumping_speed.is_wf() && zero.lt(&p.pumping_speed)) {
                return false;
            }
            i4 += 1;
        }
        let ns = self.resources.len();
        let mut i5: usize = 0;
        while i5 < ns
            invariant
                ns == self.resources@.len(),
                0 <= i5 <= ns,
                zero.wf(),
                zero@ == rat_of_int(0),
                forall|k: int| 0 <= k < i5 ==> (#[trigger] self.resources@[k]).wf(),
            decreases ns - i5,
        {
            let s = &self.resources[i5];
            if !(s.mining_time.is_wf() && zero.lt(&s.mining_time) && amounts_ok(&s.results)) {
                return false;
            }
            match &s.fluid_requirement {
                Some(f) => {
                    if !(f.fluid_amount.is_wf() && zero.lt(&f.fluid_amount)) {
                        return false;
                    }
                },
                None => {},
            }
            i5 += 1;
        }
        let mut a: usize = 0;
        while a < self.items.len()
            invariant
                0 <= a <= self.items@.len(),
                forall|i: int, j: int|
                    0 <= i < j < self.items@.len() && j < a ==> (#[trigger] self.items@[i]).name@
                        != (#[trigger] self.items@[j]).name@,
            decreases self.items@.len() - a,
        {
            let mut b: usize = 0;
            while b < a
                invariant
                    0 <= b <= a < self.items@.len(),
                    forall|i: int|
                        0 <= i < b ==> (#[trigger] self.items@[i]).name@
                            != self.items@[a as int].name@,
                decreases a - b,
            {
                if self.items[b].name == self.items[a].name {
                    return false;
                }
                b += 1;
            }
            a += 1;
        }
        let mut a2: usize = 0;
        while a2 < self.recipes.len()
            invariant
                0 <= a2 <= self.recipes@.len(),
                forall|i: int, j: int|
                    0 <= i < j < self.recipes@.len() && j < a2 ==> (
                    #[trigger] self.recipes@[i]).name@ != (#[trigger] self.recipes@[j]).name@,
            decreases self.recipes@.len() - a2,
        {
            let mut b: usize = 0;
            while b < a2
                invariant
                    0 <= b <= a2 < self.recipes@.len(),
                    forall|i: int|
                        0 <= i < b ==> (#[trigger] self.recipes@[i]).name@
                            != self.recipes@[a2 as int].name@,
                decreases a2 - b,
            {
                if self.recipes[b].name == self.recipes[a2].name {
                    return false;
                }
                b += 1;
            }
            a2 += 1;
        }
        let mut a3: usize = 0;
        while a3 < self.assembling_machines.len()
            invariant
                0 <= a3 <= self.assembling_machines@.len(),
                forall|i: int, j: int|
                    0 <= i < j < self.assembling_machines@.len() && j < a3 ==> (
                    #[trigger] self.assembling_machines@[i]).name@ != (
                    #[trigger] self.assembling_machines@[j]).name@,
            decreases self.assembling_machines@.len() - a3,
        {
            let mut b: usize = 0;
            while b < a3
                invariant
                    0 <= b <= a3 < self.assembling_machines@.len(),
                    forall|i: int|
                        0 <= i < b ==> (#[trigger] self.assembling_machines@[i]).name@
                            != self.assembling_machines@[a3 as int].name@,
                decreases a3 - b,
            {
                if self.assembling_machines[b].name == self.assembling_machines[a3].name {
                    return false;
                }
                b += 1;
            }
            a3 += 1;
        }
        let mut a4: usize = 0;
        while a4 < self.mining_drills.len()
            invariant
                0 <= a4 <= self.mining_drills@.len(),
                forall|i: int, j: int|
                    0 <= i < j < self.mining_drills@.len() && j < a4 ==> (
                    #[trigger] self.mining_drills@[i]).name@ != (
                    #[trigger] self.mining_drills@[j]).name@,
            decreases self.mining_drills@.len() - a4,
        {
            let mut b: usize = 0;
            while b < a4
                invariant
                    0 <= b <= a4 < self.mining_drills@.len(),
                    forall|i: int|
                        0 <= i < b ==> (#[trigger] self.mining_drills@[i]).name@
                            != self.mining_drills@[a4 as int].name@,
                decreases a4 - b,
            {
                if self.mining_drills[b].name == self.mining_drills[a4].name {
                    return false;
                }
                b += 1;
            }
            a4 += 1;
        }
        let mut a5: usize = 0;
        while a5 < self.offshore_pumps.len()
            invariant
                0 <= a5 <= self.offshore_pumps@.len(),
                forall|i: int, j: int|
                    0 <= i < j < self.offshore_pumps@.len() && j < a5 ==> (
                    #[trigger] self.offshore_pumps@[i]).name@ != (
                    #[trigger] self.offshore_pumps@[j]).name@,
            decreases self.offshore_pumps@.len() - a5,
        {
            let mut b: usize = 0;
            while b < a5
                invariant
                    0 <= b <= a5 < self.offshore_pumps@.len(),
                    forall|i: int|
                        0 <= i < b ==> (#[trigger] self.offshore_pumps@[i]).name@
                            != self.offshore_pumps@[a5 as int].name@,
                decreases a5 - b,
            {
                if self.offshore_pumps[b].name == self.offshore_pumps[a5].name {
                    return false;
                }
                b += 1;
            }
            a5 += 1;
        }
        let mut a6: usize = 0;
        while a6 < self.resources.len()
            invariant
                0 <= a6 <= self.resources@.len(),
                forall|i: int, j: int|
                    0 <= i < j < self.resources@.len() && j < a6 ==> (
                    #[trigger] self.resources@[i]).name@ != (#[trigger] self.resources@[j]).name@,
            decreases self.resources@.len() - a6,
        {
            let mut b: usize = 0;
            while b < a6
                invariant
                    0 <= b <= a6 < self.resources@.len(),
                    forall|i: int|
                        0 <= i < b ==> (#[trigger] self.resources@[i]).name@
                            != self.resources@[a6 as int].name@,
                decreases a6 - b,
            {
                if self.resources[b].name == self.resources[a6].name {
                    return false;
                }
                b += 1;
            }
            a6 += 1;
        }
        true
    }

    /// The recipe categories served by more than one multi-category
    /// assembler, each with copies of those assemblers in table order:
    /// exactly the categories where a user preference changes anything.
    pub fn recipe_categories_with_multiple_assemblers(&self) -> (r: Vec<
        (String, Vec<AssemblingMachine>),
    >)
        ensures
            crate::assoc::keys_distinct(r@),
            forall|k: int|
                0 <= k < r@.len() ==> {
                    &&& is_recipe_category(*self, (#[trigger] r@[k]).0@)
                    &&& two_multi_assemblers(*self, r@[k].0@)
                    &&& r@[k].1@.len() >= 2
                    &&& (forall|x: int|
                        0 <= x < r@[k].1@.len() ==> rep_of_multi_assembler(
                            *self,
                            r@[k].0@,
                            #[trigger] r@[k].1@[x],
                        ))
                    &&& (forall|i: int|
                        0 <= i < self.assembling_machines@.len() && multi_assembler_for(
                            #[trigger] self.assembling_machines@[i],
                            r@[k].0@,
                        ) ==> lists_assembler(r@[k].1@, self.assembling_machines@[i]))
                    &&& sorted_assemblers(r@[k].1@)
                },
            forall|i: int|
                0 <= i < self.recipes@.len() && two_multi_assemblers(
                    *self,
                    (#[trigger] self.recipes@[i]).category@,
                ) ==> crate::assoc::lists_key(r@, self.recipes@[i].category@),
    {
        let nr = self.recipes.len();
        let mut out: Vec<(String, Vec<AssemblingMachine>)> = Vec::new();
        let mut ri: usize = 0;
        while ri < nr
            invariant
                nr == self.recipes@.len(),
                0 <= ri <= nr,
                crate::assoc::keys_distinct(out@),
                forall|k: int|
                    0 <= k < out@.len() ==> {
                        &&& is_recipe_category(*self, (#[trigger] out@[k]).0@)
                        &&& two_multi_assemblers(*self, out@[k].0@)
                        &&& out@[k].1@.len() >= 2
                        &&& (forall|x: int|
                            0 <= x < out@[k].1@.len() ==> rep_of_multi_assembler(
                                *self,
                                out@[k].0@,
                                #[trigger] out@[k].1@[x],
                            ))
                        &&& (forall|i: int|
                            0 <= i < self.assembling_machines@.len() && multi_assembler_for(
                                #[trigger] self.assembling_machines@[i],
                                out@[k].0@,
                            ) ==> lists_assembler(out@[k].1@, self.assembling_machines@[i]))
                        &&& sorted_assemblers(out@[k].1@)
                    },
                forall|i: int|
                    0 <= i < ri && two_multi_assemblers(
                        *self,
                        (#[trigger] self.recipes@[i]).category@,
                    ) ==> crate::assoc::lists_key(out@, self.recipes@[i].category@),
            decreases nr - ri,
        {
            let category = &self.recipes[ri].category;
            let ghost out0 = out@;
            if crate::assoc::keys_contain(&out, category) {
            } else {
                let machines = multi_assemblers_for(self, category);
                if machines.len() >= 2 {
                    out.push((category.clone(), machines));
                    proof {
                        assert(out@[out0.len() as int].0@ == category@);
                        assert(forall|k: int|
                            0 <= k < out0.len() ==> out@[k] == #[trigger] out0[k]);
                        assert(crate::assoc::lists_key(out@, category@));
                        assert forall|c: Seq<char>| crate::assoc::lists_key(out0, c)
                            implies crate::assoc::lists_key(out@, c) by {
                            let k = choose|k: int|
                                0 <= k < out0.len() && (#[trigger] out0[k]).0@ == c;
                            assert(out@[k].0@ == c);
                        }
                        assert(is_recipe_category(*self, category@)) by {
                            assert(self.recipes@[ri as int].category@ == category@);
                        }
                    }
                } else {
                    proof {
                        assert(!two_multi_assemblers(*self, category@));
                    }
                }
            }
            proof {
                assert forall|i: int|
                    0 <= i < ri + 1 && two_multi_assemblers(
                        *self,
                        (#[trigger] self.recipes@[i]).category@,
                    ) implies crate::assoc::lists_key(out@, self.recipes@[i].category@) by {
                    let c = self.recipes@[i].category@;
                    if i < ri {
                        assert(crate::assoc::lists_key(out0, c));
                        let k = choose|k: int|
                            0 <= k < out0.len() && (#[trigger] out0[k]).0@ == c;
                        assert(out@[k].0@ == c);
                    } else {
                        assert(c == category@);
                        assert(crate::assoc::lists_key(out@, category@));
                    }
                }
            }
            ri += 1;
        }
        out
    }

    /// The resource categories served by more than one multi-category
    /// drill, each with copies of those drills in table order.
    pub fn resource_categories_with_multiple_mining_drills(&self) -> (r: Vec<
        (String, Vec<MiningDrill>),
    >)
        ensures
            crate::assoc::keys_distinct(r@),
            forall|k: int|
                0 <= k < r@.len() ==> {
                    &&& is_resource_category(*self, (#[trigger] r@[k]).0@)
                    &&& two_multi_drills(*self, r@[k].0@)
                    &&& r@[k].1@.len() >= 2
                    &&& (forall|x: int|
                        0 <= x < r@[k].1@.len() ==> rep_of_multi_drill(
                            *self,
                            r@[k].0@,
                            #[trigger] r@[k].1@[x],
                        ))
                    &&& (forall|i: int|
                        0 <= i < self.mining_drills@.len() && multi_drill_for(
                            #[trigger] self.mining_drills@[i],
                            r@[k].0@,
                        ) ==> lists_drill(r@[k].1@, self.mining_drills@[i]))
                    &&& sorted_drills(r@[k].1@)
                },
            forall|i: int|
                0 <= i < self.resources@.len() && two_multi_drills(
                    *self,
                    (#[trigger] self.resources@[i]).category@,
                ) ==> crate::assoc::lists_key(r@, self.resources@[i].category@),
    {
        let nr = self.resources.len();
        let mut out: Vec<(String, Vec<MiningDrill>)> = Vec::new();
        let mut ri: usize = 0;
        while ri < nr
            invariant
                nr == self.resources@.len(),
                0 <= ri <= nr,
                crate::assoc::keys_distinct(out@),
                forall|k: int|
                    0 <= k < out@.len() ==> {
                        &&& is_resource_category(*self, (#[trigger] out@[k]).0@)
                        &&& two_multi_drills(*self, out@[k].0@)
                        &&& out@[k].1@.len() >= 2
                        &&& (forall|x: int|
                            0 <= x < out@[k].1@.len() ==> rep_of_multi_drill(
                                *self,
                                out@[k].0@,
                                #[trigger] out@[k].1@[x],
                            ))
                        &&& (forall|i: int|
                            0 <= i < self.mining_drills@.len() && multi_drill_for(
                                #[trigger] self.mining_drills@[i],
                                out@[k].0@,
                            ) ==> lists_drill(out@[k].1@, self.mining_drills@[i]))
                        &&& sorted_drills(out@[k].1@)
                    },
                forall|i: int|
                    0 <= i < ri && two_multi_drills(
                        *self,
                        (#[trigger] self.resources@[i]).category@,
                    ) ==> crate::assoc::lists_key(out@, self.resources@[i].category@),
            decreases nr - ri,
        {
            let category = &self.resources[ri].category;
            let ghost out0 = out@;
            if crate::assoc::keys_contain(&out, category) {
            } else {
                let drills = multi_drills_for(self, category);
                if drills.len() >= 2 {
                    out.push((category.clone(), drills));
                    proof {
                        assert(out@[out0.len() as int].0@ == category@);
                        assert(forall|k: int|
                            0 <= k < out0.len() ==> out@[k] == #[trigger] out0[k]);
                        assert(crate::assoc::lists_key(out@, category@));
                        assert forall|c: Seq<char>| crate::assoc::lists_key(out0, c)
                            implies crate::assoc::lists_key(out@, c) by {
                            let k = choose|k: int|
                                0 <= k < out0.len() && (#[trigger] out0[k]).0@ == c;
                            assert(out@[k].0@ == c);
                        }
                        assert(is_resource_category(*self, category@)) by {
                            assert(self.resources@[ri as int].category@ == category@);
                        }
                    }
                } else {
                    proof {
                        assert(!two_multi_drills(*self, category@));
                    }
                }
            }
            proof {
                assert forall|i: int|
                    0 <= i < ri + 1 && two_multi_drills(
                        *self,
                        (#[trigger] self.resources@[i]).category@,
                    ) implies crate::assoc::lists_key(out@, self.resources@[i].category@) by {
                    let c = self.resources@[i].category@;
                    if i < ri {
                        assert(crate::assoc::lists_key(out0, c));
                        let k = choose|k: int|
                            0 <= k < out0.len() && (#[trigger] out0[k]).0@ == c;
                        assert(out@[k].0@ == c);
                    } else {
                        assert(c == category@);
                        assert(crate::assoc::lists_key(out@, category@));
                    }
                }
            }
            ri += 1;
        }
        out
    }

    /// Every table entry is well formed: speeds, times and amounts are
    /// positive rationals, no recipe or resource lists an item twice on
    /// one side, and within each table the name is a unique key.
    pub open spec fn wf(self) -> bool {
        &&& forall|i: int| 0 <= i < self.recipes@.len() ==> (#[trigger] self.recipes@[i]).wf()
        &&& forall|i: int|
            0 <= i < self.assembling_machines@.len() ==> (
            #[trigger] self.assembling_machines@[i]).wf()
        &&& forall|i: int|
            0 <= i < self.mining_drills@.len() ==> (#[trigger] self.mining_drills@[i]).wf()
        &&& forall|i: int|
            0 <= i < self.offshore_pumps@.len() ==> (#[trigger] self.offshore_pumps@[i]).wf()
        &&& forall|i: int| 0 <= i < self.resources@.len() ==> (#[trigger] self.resources@[i]).wf()
        &&& forall|i: int, j: int|
            0 <= i < j < self.items@.len() ==> (#[trigger] self.items@[i]).name@ != (
            #[trigger] self.items@[j]).name@
        &&& forall|i: int, j: int|
            0 <= i < j < self.recipes@.len() ==> (#[trigger] self.recipes@[i]).name@ != (
            #[trigger] self.recipes@[j]).name@
        &&& forall|i: int, j: int|
            0 <= i < j < self.assembling_machines@.len() ==> (
            #[trigger] self.assembling_machines@[i]).name@ != (
            #[trigger] self.assembling_machines@[j]).name@
        &&& forall|i: int, j: int|
            0 <= i < j < self.mining_drills@.len() ==> (#[trigger] self.mining_drills@[i]).name@
                != (#[trigger] self.mining_drills@[j]).name@
        &&& forall|i: int, j: int|
            0 <= i < j < self.offshore_pumps@.len() ==> (#[trigger] self.offshore_pumps@[i]).name@
                != (#[trigger] self.offshore_pumps@[j]).name@
        &&& forall|i: int, j: int|
            0 <= i < j < self.resources@.len() ==> (#[trigger] self.resources@[i]).name@ != (
            #[trigger] self.resources@[j]).name@
    }
}

} // verus!
