//! Lightweight references to machines by name.
//!
//! A preference stores only the machine's name; the full table entry is
//! looked up again when needed, so a stored reference survives a data
//! reload and simply resolves to nothing if the machine is gone.

use vstd::prelude::*;
use crate::data::{
    first_drill_named_at, first_machine_named_at, some_drill_named, some_machine_named,
    AssemblingMachine, GameData, MiningDrill,
};

verus! {

#[derive(Debug, Clone)]
pub struct AssemblingMachineRef {
    name: String,
}

impl View for AssemblingMachineRef {
    type V = Seq<char>;

    closed spec fn view(&self) -> Seq<char> {
        self.name@
    }
}

impl AssemblingMachineRef {
    pub fn get_name(&self) -> (r: &str)
        ensures
            r@ == self@,
    {
        self.name.as_str()
    }

    /// The first assembling machine of that name in the table, if any.
    pub fn get_full<'a>(&self, game_data: &'a GameData) -> (r: Option<&'a AssemblingMachine>)
        ensures
            match r {
                Some(m) => exists|i: int|
                    #[trigger] first_machine_named_at(*game_data, self@, i) && *m
                        == game_data.assembling_machines@[i],
                None => !some_machine_named(*game_data, self@),
            },
    {
        let n = game_data.assembling_machines.len();
        let mut i: usize = 0;
        while i < n
            invariant
                n == game_data.assembling_machines@.len(),
                0 <= i <= n,
                forall|j: int|
                    0 <= j < i ==> (#[trigger] game_data.assembling_machines@[j]).name@ != self@,
            decreases n - i,
        {
            if game_data.assembling_machines[i].name == self.name {
                proof {
                    assert(first_machine_named_at(*game_data, self@, i as int));
                }
                return Some(&game_data.assembling_machines[i]);
            }
            i += 1;
        }
        None
    }

    pub fn new(name: String) -> (r: AssemblingMachineRef)
        ensures
            r@ == name@,
    {
        AssemblingMachineRef { name }
    }
}

#[derive(Debug, Clone)]
pub struct MiningDrillRef {
    name: String,
}

impl View for MiningDrillRef {
    type V = Seq<char>;

    closed spec fn view(&self) -> Seq<char> {
        self.name@
    }
}

impl MiningDrillRef {
    pub fn get_name(&self) -> (r: &str)
        ensures
            r@ == self@,
    {
        self.name.as_str()
    }

    /// The first mining drill of that name in the table, if any.
    pub fn get_full<'a>(&self, game_data: &'a GameData) -> (r: Option<&'a MiningDrill>)
        ensures
            match r {
                Some(m) => exists|i: int|
                    #[trigger] first_drill_named_at(*game_data, self@, i) && *m
                        == game_data.mining_drills@[i],
                None => !some_drill_named(*game_data, self@),
            },
    {
        let n = game_data.mining_drills.len();
        let mut i: usize = 0;
        while i < n
            invariant
                n == game_data.mining_drills@.len(),
                0 <= i <= n,
                forall|j: int|
                    0 <= j < i ==> (#[trigger] game_data.mining_drills@[j]).name@ != self@,
            decreases n - i,
        {
            if game_data.mining_drills[i].name == self.name {
                proof {
                    assert(first_drill_named_at(*game_data, self@, i as int));
                }
                return Some(&game_data.mining_drills[i]);
            }
            i += 1;
        }
        None
    }

    pub fn new(name: String) -> (r: MiningDrillRef)
        ensures
            r@ == name@,
    {
        MiningDrillRef { name }
    }
}

} // verus!
