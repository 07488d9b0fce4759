use crate::constants::{
    INITIAL_PLAYER_LEVEL, ORIENTATION_COUNT, ORIENTATION_EAST_INDEX, ORIENTATION_NORTH_INDEX,
    ORIENTATION_SOUTH_INDEX,
};
use crate::rng::random_below;
use vstd::prelude::*;

verus! {

#[derive(Debug, Clone, Copy, PartialEq, Eq, Structural)]
pub enum Orientation {
    North,
    East,
    South,
    West,
}

/// The orientation that index `i` of a random draw stands for.
pub open spec fn spec_orientation_of_index(i: usize) -> Orientation {
    if i == ORIENTATION_NORTH_INDEX {
        Orientation::North
    } else if i == ORIENTATION_EAST_INDEX {
        Orientation::East
    } else if i == ORIENTATION_SOUTH_INDEX {
        Orientation::South
    } else {
        Orientation::West
    }
}

/// The orientation that index `i` stands for: north, east, south, west for
/// 0, 1, 2, 3.
pub fn orientation_of_index(i: usize) -> (o: Orientation)
    requires
        i < ORIENTATION_COUNT,
    ensures
        o == spec_orientation_of_index(i),
{
    if i == ORIENTATION_NORTH_INDEX {
        Orientation::North
    } else if i == ORIENTATION_EAST_INDEX {
        Orientation::East
    } else if i == ORIENTATION_SOUTH_INDEX {
        Orientation::South
    } else {
        Orientation::West
    }
}

impl Orientation {
    /// One of the four orientations, drawn at random.
    pub fn random() -> (o: Self)
        ensures
            exists|i: usize| i < ORIENTATION_COUNT && o == spec_orientation_of_index(i),
    {
        let orientation_index = random_below(ORIENTATION_COUNT);
        orientation_of_index(orientation_index)
    }
}

/// A hatched player.
#[derive(Debug)]
pub struct Player {
    pub id: usize,
    pub team_name: String,
    pub x: usize,
    pub y: usize,
    pub orientation: Orientation,
    pub level: usize,
}

impl Player {
    /// A player at level `INITIAL_PLAYER_LEVEL`.
    pub fn new(id: usize, team_name: String, x: usize, y: usize, orientation: Orientation) -> (player: Self)
        ensures
            player == (Player { id, team_name, x, y, orientation, level: INITIAL_PLAYER_LEVEL }),
    {
        Self { id, team_name, x, y, orientation, level: INITIAL_PLAYER_LEVEL }
    }
}

} // verus!
