use crate::team::Team;
use vstd::prelude::*;

verus! {

/// The settings the server starts with.
#[derive(Debug)]
pub struct Config {
    pub port: u16,
    pub width: usize,
    pub height: usize,
    pub teams: Vec<String>,
    pub clients_nb: usize,
}

/// One team per configured name, each with `clients_nb` free slots.
pub fn create_teams(config: &Config) -> (teams: Vec<Team>)
    ensures
        teams@.len() == config.teams@.len(),
        forall|i: int|
            0 <= i < teams@.len() ==> (#[trigger] teams@[i]).name@ == config.teams@[i]@
                && teams@[i].max_clients == config.clients_nb && teams@[i].connected == 0,
{
    let mut teams: Vec<Team> = Vec::new();
    let mut i: usize = 0;
    while i < config.teams.len()
        invariant
            i <= config.teams@.len(),
            teams@.len() == i,
            forall|j: int|
                0 <= j < i ==> (#[trigger] teams@[j]).name@ == config.teams@[j]@
                    && teams@[j].max_clients == config.clients_nb && teams@[j].connected == 0,
        decreases config.teams@.len() - i,
    {
        let team_name = config.teams[i].clone();
        teams.push(Team::new(team_name, config.clients_nb));
        i = i + 1;
    }
    teams
}

} // verus!
