//! The user's preferred machine per recipe or resource category.
//!
//! The preference store maps a category name to a machine reference. It
//! is consulted read-only during resolution and edited only from the
//! host application; persisting it is the host's business.

use vstd::prelude::*;
use crate::assoc::{assoc_find, assoc_get, assoc_put, keys_distinct};
use crate::data::{
    least_multi_assembler, least_multi_drill, two_multi_assemblers, two_multi_drills, GameData,
};
use crate::prototype_ref::{AssemblingMachineRef, MiningDrillRef};

verus! {

#[derive(Debug)]
pub struct UserSettings {
    pub recipe_category_prefs: Vec<(String, AssemblingMachineRef)>,
    pub resource_category_prefs: Vec<(String, MiningDrillRef)>,
}

impl UserSettings {
    /// Each category is bound to at most one machine.
    pub open spec fn wf(self) -> bool {
        &&& keys_distinct(self.recipe_category_prefs@)
        &&& keys_distinct(self.resource_category_prefs@)
    }

    pub fn empty() -> (r: UserSettings)
        ensures
            r.wf(),
            r.recipe_category_prefs@ =~= Seq::<(String, AssemblingMachineRef)>::empty(),
            r.resource_category_prefs@ =~= Seq::<(String, MiningDrillRef)>::empty(),
    {
        UserSettings { recipe_category_prefs: Vec::new(), resource_category_prefs: Vec::new() }
    }

    /// The preferred assembler for a recipe category, if one is on record.
    pub fn assembling_machine(&self, category: &String) -> (r: Option<&AssemblingMachineRef>)
        ensures
            match r {
                Some(m) => assoc_get(self.recipe_category_prefs@, category@) == Some(*m),
                None => assoc_get(self.recipe_category_prefs@, category@) is None,
            },
    {
        assoc_find(&self.recipe_category_prefs, category)
    }

    /// The preferred drill for a resource category, if one is on record.
    pub fn mining_drill(&self, category: &String) -> (r: Option<&MiningDrillRef>)
        ensures
            match r {
                Some(m) => assoc_get(self.resource_category_prefs@, category@) == Some(*m),
                None => assoc_get(self.resource_category_prefs@, category@) is None,
            },
    {
        assoc_find(&self.resource_category_prefs, category)
    }

    /// Records `machine` as the assembler for `category`, replacing any
    /// earlier choice and leaving every other category untouched.
    pub fn change_recipe_category(&mut self, category: &String, machine: AssemblingMachineRef)
        requires
            old(self).wf(),
        ensures
            final(self).wf(),
            assoc_get(final(self).recipe_category_prefs@, category@) == Some(machine),
            forall|k: Seq<char>|
                k != category@ ==> assoc_get(final(self).recipe_category_prefs@, k) == assoc_get(
                    old(self).recipe_category_prefs@,
                    k,
                ),
            final(self).resource_category_prefs@ == old(self).resource_category_prefs@,
    {
        assoc_put(&mut self.recipe_category_prefs, category, machine);
    }

    /// Default preferences from the game data alone: wherever several
    /// multi-category machines could serve a category, the machine with
    /// the lexicographically least name is put on record, so that later
    /// edits have a defined starting point.
    pub fn init(game_data: &GameData) -> (r: UserSettings)
        ensures
            r.wf(),
            forall|c: Seq<char>|
                (#[trigger] assoc_get(r.recipe_category_prefs@, c)) matches Some(m)
                    ==> least_multi_assembler(*game_data, c, m@),
            forall|i: int|
                0 <= i < game_data.recipes@.len() && two_multi_assemblers(
                    *game_data,
                    (#[trigger] game_data.recipes@[i]).category@,
                ) ==> assoc_get(r.recipe_category_prefs@, game_data.recipes@[i].category@)
                    is Some,
            forall|c: Seq<char>|
                (#[trigger] assoc_get(r.resource_category_prefs@, c)) matches Some(m)
                    ==> least_multi_drill(*game_data, c, m@),
            forall|i: int|
                0 <= i < game_data.resources@.len() && two_multi_drills(
                    *game_data,
                    (#[trigger] game_data.resources@[i]).category@,
                ) ==> assoc_get(r.resource_category_prefs@, game_data.resources@[i].category@)
                    is Some,
    {
        let mut settings = UserSettings::empty();
        let by_recipe = game_data.recipe_categories_with_multiple_assemblers();
        let nr = by_recipe.len();
        let mut k: usize = 0;
        while k < nr
            invariant
                nr == by_recipe@.len(),
                0 <= k <= nr,
                settings.wf(),
                settings.resource_category_prefs@.len() == 0,
                forall|k2: int|
                    0 <= k2 < by_recipe@.len() ==> {
                        &&& (#[trigger] by_recipe@[k2]).1@.len() >= 1
                        &&& crate::data::sorted_assemblers(by_recipe@[k2].1@)
                        &&& (forall|x: int|
                            0 <= x < by_recipe@[k2].1@.len()
                                ==> crate::data::rep_of_multi_assembler(
                                *game_data,
                                by_recipe@[k2].0@,
                                #[trigger] by_recipe@[k2].1@[x],
                            ))
                        &&& (forall|i: int|
                            0 <= i < game_data.assembling_machines@.len()
                                && crate::data::multi_assembler_for(
                                #[trigger] game_data.assembling_machines@[i],
                                by_recipe@[k2].0@,
                            ) ==> crate::data::lists_assembler(
                                by_recipe@[k2].1@,
                                game_data.assembling_machines@[i],
                            ))
                    },
                forall|c: Seq<char>|
                    (#[trigger] assoc_get(settings.recipe_category_prefs@, c)) matches Some(m)
                        ==> least_multi_assembler(*game_data, c, m@),
                forall|k2: int|
                    0 <= k2 < k ==> assoc_get(
                        settings.recipe_category_prefs@,
                        (#[trigger] by_recipe@[k2]).0@,
                    ) is Some,
            decreases nr - k,
        {
            let category = &by_recipe[k].0;
            let first = &by_recipe[k].1[0];
            proof {
                let c = by_recipe@[k as int].0@;
                let head = by_recipe@[k as int].1@[0];
                assert(crate::data::rep_of_multi_assembler(*game_data, c, head));
                assert forall|j: int|
                    0 <= j < game_data.assembling_machines@.len()
                        && crate::data::multi_assembler_for(
                        #[trigger] game_data.assembling_machines@[j],
                        c,
                    ) implies crate::data::name_le(
                    head.name@,
                    game_data.assembling_machines@[j].name@,
                ) by {
                    assert(crate::data::lists_assembler(
                        by_recipe@[k as int].1@,
                        game_data.assembling_machines@[j],
                    ));
                    let x = choose|x: int|
                        0 <= x < by_recipe@[k as int].1@.len() && crate::data::same_assembler(
                            #[trigger] by_recipe@[k as int].1@[x],
                            game_data.assembling_machines@[j],
                        );
                    crate::data::lemma_bytes_le_total(
                        vstd::utf8::encode_utf8(head.name@),
                        vstd::utf8::encode_utf8(head.name@),
                    );
                    if x > 0 {
                        assert(crate::data::name_le(
                            head.name@,
                            by_recipe@[k as int].1@[x].name@,
                        ));
                    }
                }
                assert(least_multi_assembler(*game_data, c, head.name@));
            }
            settings.change_recipe_category(
                category,
                AssemblingMachineRef::new(first.name.clone()),
            );
            k += 1;
        }
        proof {
            assert forall|i: int|
                0 <= i < game_data.recipes@.len() && two_multi_assemblers(
                    *game_data,
                    (#[trigger] game_data.recipes@[i]).category@,
                ) implies assoc_get(
                settings.recipe_category_prefs@,
                game_data.recipes@[i].category@,
            ) is Some by {
                let c = game_data.recipes@[i].category@;
                let kk = choose|kk: int|
                    0 <= kk < by_recipe@.len() && (#[trigger] by_recipe@[kk]).0@ == c;
            }
        }
        let by_resource = game_data.resource_categories_with_multiple_mining_drills();
        let nd = by_resource.len();
        let mut k2: usize = 0;
        while k2 < nd
            invariant
                nd == by_resource@.len(),
                0 <= k2 <= nd,
                settings.wf(),
                forall|c: Seq<char>|
                    (#[trigger] assoc_get(settings.recipe_category_prefs@, c)) matches Some(m)
                        ==> least_multi_assembler(*game_data, c, m@),
                forall|i: int|
                    0 <= i < game_data.recipes@.len() && two_multi_assemblers(
                        *game_data,
                        (#[trigger] game_data.recipes@[i]).category@,
                    ) ==> assoc_get(
                        settings.recipe_category_prefs@,
                        game_data.recipes@[i].category@,
                    ) is Some,
                forall|k3: int|
                    0 <= k3 < by_resource@.len() ==> {
                        &&& (#[trigger] by_resource@[k3]).1@.len() >= 1
                        &&& crate::data::sorted_drills(by_resource@[k3].1@)
                        &&& (forall|x: int|
                            0 <= x < by_resource@[k3].1@.len() ==> crate::data::rep_of_multi_drill(
                                *game_data,
                                by_resource@[k3].0@,
                                #[trigger] by_resource@[k3].1@[x],
                            ))
                        &&& (forall|i: int|
                            0 <= i < game_data.mining_drills@.len()
                                && crate::data::multi_drill_for(
                                #[trigger] game_data.mining_drills@[i],
                                by_resource@[k3].0@,
                            ) ==> crate::data::lists_drill(
                                by_resource@[k3].1@,
                                game_data.mining_drills@[i],
                            ))
                    },
                forall|c: Seq<char>|
                    (#[trigger] assoc_get(settings.resource_category_prefs@, c)) matches Some(m)
                        ==> least_multi_drill(*game_data, c, m@),
                forall|k3: int|
                    0 <= k3 < k2 ==> assoc_get(
                        settings.resource_category_prefs@,
                        (#[trigger] by_resource@[k3]).0@,
                    ) is Some,
            decreases nd - k2,
        {
            let category = &by_resource[k2].0;
            let first = &by_resource[k2].1[0];
            proof {
                let c = by_resource@[k2 as int].0@;
                let head = by_resource@[k2 as int].1@[0];
                assert(crate::data::rep_of_multi_drill(*game_data, c, head));
                assert forall|j: int|
                    0 <= j < game_data.mining_drills@.len() && crate::data::multi_drill_for(
                        #[trigger] game_data.mining_drills@[j],
                        c,
                    ) implies crate::data::name_le(
                    head.name@,
                    game_data.mining_drills@[j].name@,
                ) by {
                    assert(crate::data::lists_drill(
                        by_resource@[k2 as int].1@,
                        game_data.mining_drills@[j],
                    ));
                    let x = choose|x: int|
                        0 <= x < by_resource@[k2 as int].1@.len() && crate::data::same_drill(
                            #[trigger] by_resource@[k2 as int].1@[x],
                            game_data.mining_drills@[j],
                        );
                    crate::data::lemma_bytes_le_total(
                        vstd::utf8::encode_utf8(head.name@),
                        vstd::utf8::encode_utf8(head.name@),
                    );
                    if x > 0 {
                        assert(crate::data::name_le(
                            head.name@,
                            by_resource@[k2 as int].1@[x].name@,
                        ));
                    }
                }
                assert(least_multi_drill(*game_data, c, head.name@));
            }
            settings.change_resource_category(
                category,
                MiningDrillRef::new(first.name.clone()),
            );
            k2 += 1;
        }
        proof {
            assert forall|i: int|
                0 <= i < game_data.resources@.len() && two_multi_drills(
                    *game_data,
                    (#[trigger] game_data.resources@[i]).category@,
                ) implies assoc_get(
                settings.resource_category_prefs@,
                game_data.resources@[i].category@,
            ) is Some by {
                let c = game_data.resources@[i].category@;
                let kk = choose|kk: int|
                    0 <= kk < by_resource@.len() && (#[trigger] by_resource@[kk]).0@ == c;
            }
        }
        settings
    }

    /// Rebuilds preferences from persisted category–machine name pairs,
    /// later pairs overriding earlier ones with the same category. A
    /// name no longer present in the tables is kept as recorded; it
    /// simply resolves to nothing until the data returns.
    pub fn from_raw(
        recipe_prefs: &Vec<(String, String)>,
        resource_prefs: &Vec<(String, String)>,
    ) -> (r: UserSettings)
        ensures
            r.wf(),
            forall|c: Seq<char>|
                (#[trigger] assoc_get(r.recipe_category_prefs@, c)) matches Some(m) ==> exists|
                    k: int,
                |
                    0 <= k < recipe_prefs@.len() && (#[trigger] recipe_prefs@[k]).0@ == c && m@
                        == recipe_prefs@[k].1@,
            forall|k: int|
                0 <= k < recipe_prefs@.len() ==> assoc_get(
                    r.recipe_category_prefs@,
                    (#[trigger] recipe_prefs@[k]).0@,
                ) is Some,
            forall|c: Seq<char>|
                (#[trigger] assoc_get(r.resource_category_prefs@, c)) matches Some(m) ==> exists|
                    k: int,
                |
                    0 <= k < resource_prefs@.len() && (#[trigger] resource_prefs@[k]).0@ == c && m@
                        == resource_prefs@[k].1@,
            forall|k: int|
                0 <= k < resource_prefs@.len() ==> assoc_get(
                    r.resource_category_prefs@,
                    (#[trigger] resource_prefs@[k]).0@,
                ) is Some,
    {
        let mut settings = UserSettings::empty();
        let nr = recipe_prefs.len();
        let mut k: usize = 0;
        while k < nr
            invariant
                nr == recipe_prefs@.len(),
                0 <= k <= nr,
                settings.wf(),
                settings.resource_category_prefs@.len() == 0,
                forall|c: Seq<char>|
                    (#[trigger] assoc_get(settings.recipe_category_prefs@, c)) matches Some(m)
                        ==> exists|k2: int|
                        0 <= k2 < recipe_prefs@.len() && (#[trigger] recipe_prefs@[k2]).0@ == c
                            && m@ == recipe_prefs@[k2].1@,
                forall|k2: int|
                    0 <= k2 < k ==> assoc_get(
                        settings.recipe_category_prefs@,
                        (#[trigger] recipe_prefs@[k2]).0@,
                    ) is Some,
            decreases nr - k,
        {
            settings.change_recipe_category(
                &recipe_prefs[k].0,
                AssemblingMachineRef::new(recipe_prefs[k].1.clone()),
            );
            k += 1;
        }
        let nd = resource_prefs.len();
        let mut k2: usize = 0;
        while k2 < nd
            invariant
                nd == resource_prefs@.len(),
                0 <= k2 <= nd,
                settings.wf(),
                forall|c: Seq<char>|
                    (#[trigger] assoc_get(settings.recipe_category_prefs@, c)) matches Some(m)
                        ==> exists|k3: int|
                        0 <= k3 < recipe_prefs@.len() && (#[trigger] recipe_prefs@[k3]).0@ == c
                            && m@ == recipe_prefs@[k3].1@,
                forall|k3: int|
                    0 <= k3 < recipe_prefs@.len() ==> assoc_get(
                        settings.recipe_category_prefs@,
                        (#[trigger] recipe_prefs@[k3]).0@,
                    ) is Some,
                forall|c: Seq<char>|
                    (#[trigger] assoc_get(settings.resource_category_prefs@, c)) matches Some(m)
                        ==> exists|k3: int|
                        0 <= k3 < resource_prefs@.len() && (#[trigger] resource_prefs@[k3]).0@ == c
                            && m@ == resource_prefs@[k3].1@,
                forall|k3: int|
                    0 <= k3 < k2 ==> assoc_get(
                        settings.resource_category_prefs@,
                        (#[trigger] resource_prefs@[k3]).0@,
                    ) is Some,
            decreases nd - k2,
        {
            settings.change_resource_category(
                &resource_prefs[k2].0,
                MiningDrillRef::new(resource_prefs[k2].1.clone()),
            );
            k2 += 1;
        }
        settings
    }

    /// Records `machine` as the drill for `category`, replacing any
    /// earlier choice and leaving every other category untouched.
    pub fn change_resource_category(&mut self, category: &String, machine: MiningDrillRef)
        requires
            old(self).wf(),
        ensures
            final(self).wf(),
            assoc_get(final(self).resource_category_prefs@, category@) == Some(machine),
            forall|k: Seq<char>|
                k != category@ ==> assoc_get(final(self).resource_category_prefs@, k) == assoc_get(
                    old(self).resource_category_prefs@,
                    k,
                ),
            final(self).recipe_category_prefs@ == old(self).recipe_category_prefs@,
    {
        assoc_put(&mut self.resource_category_prefs, category, machine);
    }
}

} // verus!
