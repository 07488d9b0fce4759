use vstd::prelude::*;

verus! {

/// Id of the first egg laid when the game starts.
pub const FIRST_EGG_ID: usize = 0;

/// Step between the ids of consecutive eggs.
pub const EGG_ID_INCREMENT: usize = 1;

/// Id of the first player.
pub const FIRST_PLAYER_ID: usize = 0;

/// Step between the ids of consecutive players.
pub const PLAYER_ID_INCREMENT: usize = 1;

/// Level of a player when it hatches.
pub const INITIAL_PLAYER_LEVEL: usize = 1;

/// Number of orientations a player can face.
pub const ORIENTATION_COUNT: usize = 4;

pub const ORIENTATION_NORTH_INDEX: usize = 0;

pub const ORIENTATION_EAST_INDEX: usize = 1;

pub const ORIENTATION_SOUTH_INDEX: usize = 2;

pub const ORIENTATION_WEST_INDEX: usize = 3;

/// Commands a client may have waiting at once; further commands are dropped.
pub const MAX_PENDING_COMMANDS: usize = 10;

/// Each resource appears at least this many times on a new map.
pub const MINIMUM_RESOURCE_QUANTITY: usize = 1;

/// Resource densities, in thousandths of a unit per tile.
pub const RESOURCE_DENSITY_FOOD: u32 = 500;

pub const RESOURCE_DENSITY_LINEMATE: u32 = 300;

pub const RESOURCE_DENSITY_DERAUMERE: u32 = 150;

pub const RESOURCE_DENSITY_SIBUR: u32 = 100;

pub const RESOURCE_DENSITY_MENDIANE: u32 = 100;

pub const RESOURCE_DENSITY_PHIRAS: u32 = 80;

pub const RESOURCE_DENSITY_THYSTAME: u32 = 50;

/// Densities are counted in thousandths.
pub const DENSITY_SCALE: u32 = 1000;

/// The team name by which a graphical client introduces itself.
pub const GRAPHIC_TEAM_NAME: &'static str = "GRAPHIC";

/// End of a line in the protocol.
pub const LINE_DELIMITER: char = '\n';

/// Optional character before the end of a line.
pub const CARRIAGE_RETURN: char = '\r';

/// End of a reply line.
pub const RESPONSE_END: u8 = 10;

/// Separator between the two numbers of the map size reply.
pub const RESPONSE_SEPARATOR: u8 = 32;

} // verus!
