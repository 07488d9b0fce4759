use crate::constants::EGG_ID_INCREMENT;
use crate::rng::{choose_item, random_below};
use crate::team::Team;
use vstd::prelude::*;

verus! {

broadcast use vstd::string::group_string_axioms;

/// An egg laid on the map; a client that joins its team hatches from it.
#[derive(Debug)]
pub struct Egg {
    pub id: usize,
    pub team_name: String,
    pub x: usize,
    pub y: usize,
}

impl Egg {
    pub fn new(id: usize, team_name: String, x: usize, y: usize) -> (egg: Self)
        ensures
            egg == (Egg { id, team_name, x, y }),
    {
        Self { id, team_name, x, y }
    }
}

/// Lays `clients_per_team` eggs for each team, team after team, at random
/// places of a `map_width` by `map_height` map, numbered on from `next_egg_id`.
pub fn create_initial_eggs(
    teams: &Vec<Team>,
    clients_per_team: usize,
    map_width: usize,
    map_height: usize,
    next_egg_id: &mut usize,
) -> (eggs: Vec<Egg>)
    requires
        teams@.len() * clients_per_team > 0 ==> map_width > 0 && map_height > 0,
        *old(next_egg_id) + teams@.len() * clients_per_team * EGG_ID_INCREMENT <= usize::MAX,
    ensures
        eggs@.len() == teams@.len() * clients_per_team,
        *final(next_egg_id) == *old(next_egg_id) + eggs@.len() * EGG_ID_INCREMENT,
        forall|k: int|
            0 <= k < eggs@.len() ==> {
                &&& (#[trigger] eggs@[k]).id == *old(next_egg_id) + k * EGG_ID_INCREMENT
                &&& eggs@[k].team_name@ == teams@[k / clients_per_team as int].name@
                &&& eggs@[k].x < map_width
                &&& eggs@[k].y < map_height
            },
{
    let ghost first_id = *next_egg_id;
    let total = teams.len() * clients_per_team;
    let mut eggs: Vec<Egg> = Vec::new();
    let mut k: usize = 0;
    while k < total
        invariant
            total == teams@.len() * clients_per_team,
            total > 0 ==> map_width > 0 && map_height > 0,
            first_id + total * EGG_ID_INCREMENT <= usize::MAX,
            k <= total,
            eggs@.len() == k,
            *next_egg_id == first_id + k * EGG_ID_INCREMENT,
            forall|j: int|
                0 <= j < k ==> {
                    &&& (#[trigger] eggs@[j]).id == first_id + j * EGG_ID_INCREMENT
                    &&& eggs@[j].team_name@ == teams@[j / clients_per_team as int].name@
                    &&& eggs@[j].x < map_width
                    &&& eggs@[j].y < map_height
                },
        decreases total - k,
    {
        assert(k / clients_per_team < teams@.len()) by (nonlinear_arith)
            requires
                k < teams@.len() * clients_per_team,
        ;
        let team = &teams[k / clients_per_team];
        let x = random_below(map_width);
        let y = random_below(map_height);
        eggs.push(Egg::new(*next_egg_id, team.name.clone(), x, y));
        *next_egg_id = *next_egg_id + EGG_ID_INCREMENT;
        k = k + 1;
    }
    eggs
}

/// How many of `eggs` belong to team `name`.
pub open spec fn team_egg_count(eggs: Seq<Egg>, name: Seq<char>) -> nat
    decreases eggs.len(),
{
    if eggs.len() == 0 {
        0
    } else {
        team_egg_count(eggs.drop_last(), name) + if eggs.last().team_name@ == name {
            1nat
        } else {
            0nat
        }
    }
}

proof fn lemma_team_egg_count_bound(eggs: Seq<Egg>, name: Seq<char>)
    ensures
        team_egg_count(eggs, name) <= eggs.len(),
    decreases eggs.len(),
{
    if eggs.len() > 0 {
        lemma_team_egg_count_bound(eggs.drop_last(), name);
    }
}

/// Number of the eggs of team `team_name`.
pub fn count_team_eggs(eggs: &Vec<Egg>, team_name: &str) -> (count: usize)
    ensures
        count == team_egg_count(eggs@, team_name@),
{
    let name = team_name.to_string();
    let mut count: usize = 0;
    let mut i: usize = 0;
    assert(eggs@.take(0) =~= Seq::<Egg>::empty());
    while i < eggs.len()
        invariant
            name@ == team_name@,
            i <= eggs@.len(),
            count == team_egg_count(eggs@.take(i as int), team_name@),
        decreases eggs@.len() - i,
    {
        assert(eggs@.take(i + 1).drop_last() =~= eggs@.take(i as int));
        proof {
            lemma_team_egg_count_bound(eggs@.take(i as int), team_name@);
        }
        if eggs[i].team_name == name {
            count = count + 1;
        }
        i = i + 1;
    }
    assert(eggs@.take(i as int) =~= eggs@);
    count
}

/// Whether some egg of `eggs` belongs to team `name`.
pub open spec fn has_team_egg(eggs: Seq<Egg>, name: Seq<char>) -> bool {
    exists|i: int| 0 <= i < eggs.len() && (#[trigger] eggs[i]).team_name@ == name
}

/// The positions, in order, of the eggs of team `name` in `eggs`.
pub open spec fn spec_team_egg_indexes(eggs: Seq<Egg>, name: Seq<char>) -> Seq<usize>
    decreases eggs.len(),
{
    if eggs.len() == 0 {
        Seq::empty()
    } else {
        let earlier = spec_team_egg_indexes(eggs.drop_last(), name);
        if eggs.last().team_name@ == name {
            earlier.push((eggs.len() - 1) as usize)
        } else {
            earlier
        }
    }
}

/// Each listed position holds an egg of the team, and every egg of the team
/// is listed.
pub proof fn lemma_team_egg_indexes(eggs: Seq<Egg>, name: Seq<char>)
    requires
        eggs.len() <= usize::MAX,
    ensures
        forall|k: int|
            0 <= k < spec_team_egg_indexes(eggs, name).len() ==> (#[trigger] spec_team_egg_indexes(
                eggs,
                name,
            )[k]) < eggs.len() && eggs[spec_team_egg_indexes(eggs, name)[k] as int].team_name@
                == name,
        forall|j: int|
            0 <= j < eggs.len() && (#[trigger] eggs[j]).team_name@ == name
                ==> spec_team_egg_indexes(eggs, name).contains(j as usize),
    decreases eggs.len(),
{
    if eggs.len() > 0 {
        let init = eggs.drop_last();
        lemma_team_egg_indexes(init, name);
        let e = spec_team_egg_indexes(init, name);
        let last = (eggs.len() - 1) as usize;
        assert forall|j: int|
            0 <= j < eggs.len() && (#[trigger] eggs[j]).team_name@ == name
                implies spec_team_egg_indexes(eggs, name).contains(j as usize) by {
            if j < eggs.len() - 1 {
                assert(init[j] == eggs[j]);
                let w = choose|w: int| 0 <= w < e.len() && e[w] == j as usize;
                assert(spec_team_egg_indexes(eggs, name)[w] == j as usize);
            } else {
                let r = spec_team_egg_indexes(eggs, name);
                assert(r[r.len() - 1] == last);
            }
        }
        assert forall|k: int| 0 <= k < spec_team_egg_indexes(eggs, name).len() implies (
        #[trigger] spec_team_egg_indexes(eggs, name)[k]) < eggs.len()
            && eggs[spec_team_egg_indexes(eggs, name)[k] as int].team_name@ == name by {
            if k < e.len() {
                assert(init[e[k] as int] == eggs[e[k] as int]);
            }
        }
    }
}

/// The positions, in order, of the eggs of team `name` in `eggs`.
pub fn team_egg_indexes(eggs: &Vec<Egg>, name: &str) -> (indexes: Vec<usize>)
    ensures
        indexes@ == spec_team_egg_indexes(eggs@, name@),
        forall|k: int|
            0 <= k < indexes@.len() ==> (#[trigger] indexes@[k]) < eggs@.len()
                && eggs@[indexes@[k] as int].team_name@ == name@,
        forall|j: int|
            0 <= j < eggs@.len() && (#[trigger] eggs@[j]).team_name@ == name@
                ==> indexes@.contains(j as usize),
{
    let owned = name.to_string();
    let mut indexes: Vec<usize> = Vec::new();
    let mut i: usize = 0;
    while i < eggs.len()
        invariant
            owned@ == name@,
            i <= eggs@.len(),
            indexes@ == spec_team_egg_indexes(eggs@.take(i as int), name@),
        decreases eggs@.len() - i,
    {
        assert(eggs@.take(i + 1).drop_last() =~= eggs@.take(i as int));
        if eggs[i].team_name == owned {
            indexes.push(i);
        }
        i = i + 1;
    }
    assert(eggs@.take(i as int) =~= eggs@);
    proof {
        lemma_team_egg_indexes(eggs@, name@);
    }
    indexes
}

/// Takes one egg of team `team_name`, drawn at random, out of `eggs`: the
/// draw is made among the positions that `team_egg_indexes` lists.
pub fn take_random_team_egg(eggs: &mut Vec<Egg>, team_name: &str) -> (egg: Option<Egg>)
    ensures
        egg is None <==> !has_team_egg(old(eggs)@, team_name@),
        egg is None ==> final(eggs)@ == old(eggs)@,
        egg matches Some(e) ==> exists|i: int|
            0 <= i < old(eggs)@.len() && old(eggs)@[i] == e && e.team_name@ == team_name@
                && #[trigger] final(eggs)@ == old(eggs)@.remove(i),
{
    let matching_indexes = team_egg_indexes(eggs, team_name);
    match choose_item(&matching_indexes) {
        None => {
            assert forall|j: int| 0 <= j < eggs@.len() implies (#[trigger] eggs@[j]).team_name@
                != team_name@ by {
                if eggs@[j].team_name@ == team_name@ {
                    assert(matching_indexes@.contains(j as usize));
                }
            }
            None
        },
        Some(selected_index) => {
            let ghost before = eggs@;
            proof {
                let k = choose|k: int|
                    0 <= k < matching_indexes@.len() && matching_indexes@[k] == selected_index;
                assert(matching_indexes@[k] < eggs@.len());
            }
            let egg = eggs.remove(selected_index);
            assert(before[selected_index as int].team_name@ == team_name@);
            assert(has_team_egg(before, team_name@));
            Some(egg)
        },
    }
}

} // verus!
