use crate::client::{Client, ClientState};
use crate::command::{command_names, QueuedCommand};
use crate::config::Config;
use crate::constants::{
    CARRIAGE_RETURN, GRAPHIC_TEAM_NAME, INITIAL_PLAYER_LEVEL, LINE_DELIMITER,
    MAX_PENDING_COMMANDS, PLAYER_ID_INCREMENT, RESPONSE_END, RESPONSE_SEPARATOR,
};
use crate::egg::{count_team_eggs, has_team_egg, take_random_team_egg, team_egg_count, Egg};
use crate::player::{Orientation, Player};
use crate::team::Team;
use crate::text::{
    find_char, first_index_of, lemma_first_index_of_bounds, str_eq, string_of_range, strip_cr,
};
use vstd::prelude::*;

verus! {

broadcast use vstd::string::group_string_axioms;

// ---------------------------------------------------------------- Replies

/// The decimal digits of `n`, in ASCII.
pub open spec fn decimal(n: nat) -> Seq<u8>
    decreases n,
{
    if n < 10 {
        seq![(48 + n) as u8]
    } else {
        decimal(n / 10).push((48 + n % 10) as u8)
    }
}

/// Appends the decimal digits of `n` to `out`.
pub fn push_decimal(out: &mut Vec<u8>, n: usize)
    ensures
        final(out)@ == old(out)@ + decimal(n as nat),
    decreases n,
{
    if n >= 10 {
        push_decimal(out, n / 10);
    }
    out.push((48 + n % 10) as u8);
    assert(final(out)@ =~= old(out)@ + decimal(n as nat));
}

/// The reply that refuses a connection: `ko` and a newline.
pub open spec fn ko_reply() -> Seq<u8> {
    seq![107u8, 111u8, 10u8]
}

pub fn make_ko_reply() -> (reply: Vec<u8>)
    ensures
        reply@ == ko_reply(),
{
    let reply = vec![107u8, 111u8, 10u8];
    assert(reply@ =~= ko_reply());
    reply
}

/// The reply to an accepted AI client: the eggs its team has left, then the
/// map size, each on its own line.
pub open spec fn handshake_reply(eggs_left: nat, width: nat, height: nat) -> Seq<u8> {
    decimal(eggs_left) + seq![RESPONSE_END] + decimal(width) + seq![RESPONSE_SEPARATOR] + decimal(
        height,
    ) + seq![RESPONSE_END]
}

// ---------------------------------------------------------------- State

/// What handling lines reads and changes.
pub struct ServerView {
    pub state: ClientState,
    pub team_name: Option<Seq<char>>,
    pub player_id: Option<usize>,
    pub queue: Seq<Seq<char>>,
    pub teams: Seq<Team>,
    pub players: Seq<Player>,
    pub next_player_id: usize,
    pub eggs: Seq<Egg>,
    pub replies: Seq<Seq<u8>>,
}

pub open spec fn option_string_view(s: Option<String>) -> Option<Seq<char>> {
    match s {
        Some(x) => Some(x@),
        None => None,
    }
}

pub open spec fn replies_view(replies: Seq<Vec<u8>>) -> Seq<Seq<u8>> {
    replies.map_values(|r: Vec<u8>| r@)
}

pub open spec fn server_view(
    client: Client,
    teams: Seq<Team>,
    players: Seq<Player>,
    next_player_id: usize,
    eggs: Seq<Egg>,
    replies: Seq<Vec<u8>>,
) -> ServerView {
    ServerView {
        state: client.state,
        team_name: option_string_view(client.team_name),
        player_id: client.player_id,
        queue: command_names(client.command_queue@),
        teams,
        players,
        next_player_id,
        eggs,
        replies: replies_view(replies),
    }
}

/// Index of the first team called `name`.
pub open spec fn first_team_named(teams: Seq<Team>, name: Seq<char>) -> Option<int> {
    if exists|i: int| 0 <= i < teams.len() && (#[trigger] teams[i]).name@ == name {
        Some(
            choose|i: int|
                0 <= i < teams.len() && (#[trigger] teams[i]).name@ == name && forall|j: int|
                    0 <= j < i ==> (#[trigger] teams[j]).name@ != name,
        )
    } else {
        None
    }
}

/// The team at `ti` hatches its egg at `e` for the client: the egg leaves,
/// a player appears on its tile, the client plays for the team, and learns
/// how many eggs the team has left and the map size.
pub open spec fn hatch_step(
    ti: int,
    e: int,
    width: usize,
    height: usize,
    pre: ServerView,
    post: ServerView,
) -> bool {
    let team = pre.teams[ti];
    let egg = pre.eggs[e];
    let eggs = pre.eggs.remove(e);
    let player = post.players.last();
    &&& 0 <= e < pre.eggs.len()
    &&& egg.team_name@ == team.name@
    &&& post.eggs == eggs
    &&& post.teams == pre.teams.update(ti, Team { connected: (team.connected + 1) as usize, ..team })
    &&& post.players.len() == pre.players.len() + 1
    &&& post.players.drop_last() == pre.players
    &&& player.id == pre.next_player_id
    &&& player.team_name@ == team.name@
    &&& player.x == egg.x
    &&& player.y == egg.y
    &&& player.level == INITIAL_PLAYER_LEVEL
    &&& post.next_player_id == pre.next_player_id + PLAYER_ID_INCREMENT
    &&& post.state == ClientState::Ai
    &&& post.team_name == Some(team.name@)
    &&& post.player_id == Some(pre.next_player_id)
    &&& post.queue == pre.queue
    &&& post.replies == pre.replies.push(
        handshake_reply(team_egg_count(eggs, team.name@), width as nat, height as nat),
    )
}

/// The first line of a client: `GRAPHIC` makes it an observer; the name of
/// a team with a free slot and an egg makes it a player hatched from one of
/// that team's eggs; anything else is refused with `ko`.
pub open spec fn handshake_step(
    line: Seq<char>,
    width: usize,
    height: usize,
    pre: ServerView,
    post: ServerView,
) -> bool {
    if line == GRAPHIC_TEAM_NAME@ {
        post == ServerView { state: ClientState::Gui, team_name: None, player_id: None, ..pre }
    } else {
        match first_team_named(pre.teams, line) {
            None => post == ServerView { replies: pre.replies.push(ko_reply()), ..pre },
            Some(ti) => {
                let team = pre.teams[ti];
                if team.connected >= team.max_clients || !has_team_egg(pre.eggs, team.name@) {
                    post == ServerView { replies: pre.replies.push(ko_reply()), ..pre }
                } else {
                    exists|e: int| #[trigger] hatch_step(ti, e, width, height, pre, post)
                }
            },
        }
    }
}

/// What handling one line does: for a client still to introduce itself,
/// `handshake_step`; for a player, the line is queued as a command unless
/// `MAX_PENDING_COMMANDS` already wait; for an observer, nothing.
pub open spec fn client_line_step(
    line: Seq<char>,
    width: usize,
    height: usize,
    pre: ServerView,
    post: ServerView,
) -> bool {
    match pre.state {
        ClientState::WaitingTeamName => handshake_step(line, width, height, pre, post),
        ClientState::Ai => post == ServerView {
            queue: if pre.queue.len() < MAX_PENDING_COMMANDS {
                pre.queue.push(line)
            } else {
                pre.queue
            },
            ..pre
        },
        ClientState::Gui => post == pre,
    }
}

/// What one received line does: an empty line is skipped, any other is
/// handled (`client_line_step`).
pub open spec fn line_step(
    line: Seq<char>,
    width: usize,
    height: usize,
    pre: ServerView,
    post: ServerView,
) -> bool {
    if line.len() == 0 {
        post == pre
    } else {
        client_line_step(line, width, height, pre, post)
    }
}

// ---------------------------------------------------------------- Handling

proof fn lemma_first_named_exists(teams: Seq<Team>, name: Seq<char>, i: int)
    requires
        0 <= i < teams.len(),
        teams[i].name@ == name,
    ensures
        exists|k: int|
            0 <= k < teams.len() && (#[trigger] teams[k]).name@ == name && forall|j: int|
                0 <= j < k ==> (#[trigger] teams[j]).name@ != name,
    decreases i,
{
    if exists|j: int| 0 <= j < i && (#[trigger] teams[j]).name@ == name {
        let j = choose|j: int| 0 <= j < i && (#[trigger] teams[j]).name@ == name;
        lemma_first_named_exists(teams, name, j);
    } else {
        assert(forall|j: int| 0 <= j < i ==> (#[trigger] teams[j]).name@ != name);
    }
}

pub proof fn lemma_first_team_named_bounds(teams: Seq<Team>, name: Seq<char>)
    ensures
        first_team_named(teams, name) matches Some(i) ==> 0 <= i < teams.len() && teams[i].name@
            == name,
{
    if exists|i: int| 0 <= i < teams.len() && (#[trigger] teams[i]).name@ == name {
        let i = choose|i: int| 0 <= i < teams.len() && (#[trigger] teams[i]).name@ == name;
        lemma_first_named_exists(teams, name, i);
    }
}

proof fn lemma_first_team_named(teams: Seq<Team>, name: Seq<char>, i: int)
    requires
        0 <= i < teams.len(),
        teams[i].name@ == name,
        forall|j: int| 0 <= j < i ==> (#[trigger] teams[j]).name@ != name,
    ensures
        first_team_named(teams, name) == Some(i),
{
    let k = choose|k: int|
        0 <= k < teams.len() && (#[trigger] teams[k]).name@ == name && forall|j: int|
            0 <= j < k ==> (#[trigger] teams[j]).name@ != name;
    assert(0 <= i < teams.len() && teams[i].name@ == name);
    if k < i {
        assert(teams[k].name@ != name);
    }
    if i < k {
        assert(teams[i].name@ != name);
    }
}

/// The first team called `team_name`, to change it in place.
pub fn find_team_mut<'a>(teams: &'a mut Vec<Team>, team_name: &str) -> (team: Option<&'a mut Team>)
    ensures
        match first_team_named(old(teams)@, team_name@) {
            None => team is None && final(teams)@ == old(teams)@,
            Some(i) => (team matches Some(t) && *t == old(teams)@[i] && final(teams)@ == old(
                teams,
            )@.update(i, *final(t))),
        },
{
    let name = team_name.to_string();
    let mut i: usize = 0;
    while i < teams.len()
        invariant
            name@ == team_name@,
            teams@ == old(teams)@,
            i <= teams@.len(),
            forall|j: int| 0 <= j < i ==> (#[trigger] teams@[j]).name@ != team_name@,
        decreases teams@.len() - i,
    {
        if teams[i].name == name {
            proof {
                lemma_first_team_named(teams@, team_name@, i as int);
            }
            return Some(&mut teams[i]);
        }
        i = i + 1;
    }
    assert(!(exists|i: int| 0 <= i < teams@.len() && (#[trigger] teams@[i]).name@ == team_name@));
    None
}

/// Refuses the connection: queues the `ko` reply.
fn reject_connection(replies: &mut Vec<Vec<u8>>)
    ensures
        replies_view(final(replies)@) == replies_view(old(replies)@).push(ko_reply()),
{
    let reply = make_ko_reply();
    replies.push(reply);
    assert(replies_view(replies@) =~= replies_view(old(replies)@).push(ko_reply()));
}

/// Makes the client a graphical observer.
fn authenticate_gui_client(client: &mut Client)
    ensures
        final(client).state == ClientState::Gui,
        final(client).team_name is None,
        final(client).player_id is None,
        final(client).input_buffer == old(client).input_buffer,
        final(client).command_queue == old(client).command_queue,
{
    client.state = ClientState::Gui;
    client.team_name = None;
    client.player_id = None;
}

/// Lets a client join `team`: it takes a slot and an egg of the team, the
/// egg hatches into a player, and the client is told the eggs the team has
/// left and the map size; without a free slot or an egg it is refused.
fn authenticate_ai_client(
    client: &mut Client,
    team: &mut Team,
    config: &Config,
    players: &mut Vec<Player>,
    next_player_id: &mut usize,
    eggs: &mut Vec<Egg>,
    replies: &mut Vec<Vec<u8>>,
)
    requires
        *old(next_player_id) + PLAYER_ID_INCREMENT <= usize::MAX,
    ensures
        final(client).input_buffer == old(client).input_buffer,
        ({
            let pre = server_view(
                *old(client),
                seq![*old(team)],
                old(players)@,
                *old(next_player_id),
                old(eggs)@,
                old(replies)@,
            );
            let post = server_view(
                *final(client),
                seq![*final(team)],
                final(players)@,
                *final(next_player_id),
                final(eggs)@,
                final(replies)@,
            );
            if old(team).connected >= old(team).max_clients || !has_team_egg(
                old(eggs)@,
                old(team).name@,
            ) {
                post == ServerView { replies: pre.replies.push(ko_reply()), ..pre }
            } else {
                exists|e: int| #[trigger] hatch_step(0, e, config.width, config.height, pre, post)
            }
        }),
{
    let ghost pre = server_view(*client, seq![*team], players@, *next_player_id, eggs@, replies@);
    if !team.reserve_slot() {
        reject_connection(replies);
        proof {
            let post = server_view(*client, seq![*team], players@, *next_player_id, eggs@, replies@);
            assert(post == ServerView { replies: pre.replies.push(ko_reply()), ..pre });
        }
        return;
    }
    let ghost old_eggs = eggs@;
    let egg = match take_random_team_egg(eggs, team.name.as_str()) {
        None => {
            team.release_slot();
            reject_connection(replies);
            proof {
                let post = server_view(*client, seq![*team], players@, *next_player_id, eggs@, replies@);
                assert(seq![*team] =~= seq![*old(team)]);
                assert(post == ServerView { replies: pre.replies.push(ko_reply()), ..pre });
            }
            return;
        },
        Some(egg) => egg,
    };
    let ghost e = choose|i: int|
        0 <= i < old_eggs.len() && old_eggs[i] == egg && egg.team_name@ == team.name@
            && #[trigger] eggs@ == old_eggs.remove(i);
    let player_id = *next_player_id;
    *next_player_id = *next_player_id + PLAYER_ID_INCREMENT;
    let player = Player::new(player_id, team.name.clone(), egg.x, egg.y, Orientation::random());
    players.push(player);
    client.state = ClientState::Ai;
    client.team_name = Some(team.name.clone());
    client.player_id = Some(player_id);
    let available_eggs = count_team_eggs(eggs, team.name.as_str());
    let mut reply: Vec<u8> = Vec::new();
    push_decimal(&mut reply, available_eggs);
    reply.push(RESPONSE_END);
    push_decimal(&mut reply, config.width);
    reply.push(RESPONSE_SEPARATOR);
    push_decimal(&mut reply, config.height);
    reply.push(RESPONSE_END);
    replies.push(reply);
    proof {
        let post = server_view(*client, seq![*team], players@, *next_player_id, eggs@, replies@);
        assert(players@.drop_last() =~= old(players)@);
        assert(seq![*team] =~= seq![*old(team)].update(
            0,
            Team { connected: (old(team).connected + 1) as usize, ..*old(team) },
        ));
        assert(reply@ =~= handshake_reply(
            team_egg_count(eggs@, old(team).name@),
            config.width as nat,
            config.height as nat,
        ));
        assert(replies_view(replies@) =~= pre.replies.push(reply@));
        assert(hatch_step(0, e, config.width, config.height, pre, post));
    }
}


proof fn lemma_lift_team(
    old_teams: Seq<Team>,
    ti: int,
    line: Seq<char>,
    width: usize,
    height: usize,
    pre: ServerView,
    post: ServerView,
    spre: ServerView,
    spost: ServerView,
)
    requires
        0 <= ti < old_teams.len(),
        first_team_named(old_teams, line) == Some(ti),
        line != GRAPHIC_TEAM_NAME@,
        pre.teams == old_teams,
        spre == (ServerView { teams: seq![old_teams[ti]], ..pre }),
        spost.teams.len() == 1,
        post == (ServerView { teams: old_teams.update(ti, spost.teams[0]), ..spost }),
        ({
            let team = old_teams[ti];
            if team.connected >= team.max_clients || !has_team_egg(pre.eggs, team.name@) {
                spost == ServerView { replies: spre.replies.push(ko_reply()), ..spre }
            } else {
                exists|e: int| #[trigger] hatch_step(0, e, width, height, spre, spost)
            }
        }),
    ensures
        handshake_step(line, width, height, pre, post),
{
    let team = old_teams[ti];
    if team.connected >= team.max_clients || !has_team_egg(pre.eggs, team.name@) {
        assert(spost.teams[0] == team);
        assert(old_teams.update(ti, team) =~= old_teams);
        assert(post == ServerView { replies: pre.replies.push(ko_reply()), ..pre });
    } else {
        let e = choose|e: int| #[trigger] hatch_step(0, e, width, height, spre, spost);
        assert(seq![team].update(0, Team { connected: (team.connected + 1) as usize, ..team })[0]
            == spost.teams[0]);
        assert(hatch_step(ti, e, width, height, pre, post));
    }
}

/// Handles the first line of a client: see `handshake_step`.
pub fn handle_handshake_line(
    client: &mut Client,
    line: &str,
    config: &Config,
    teams: &mut Vec<Team>,
    players: &mut Vec<Player>,
    next_player_id: &mut usize,
    eggs: &mut Vec<Egg>,
    replies: &mut Vec<Vec<u8>>,
)
    requires
        *old(next_player_id) + PLAYER_ID_INCREMENT <= usize::MAX,
    ensures
        final(client).input_buffer == old(client).input_buffer,
        handshake_step(
            line@,
            config.width,
            config.height,
            server_view(
                *old(client),
                old(teams)@,
                old(players)@,
                *old(next_player_id),
                old(eggs)@,
                old(replies)@,
            ),
            server_view(
                *final(client),
                final(teams)@,
                final(players)@,
                *final(next_player_id),
                final(eggs)@,
                final(replies)@,
            ),
        ),
{
    let ghost pre = server_view(*client, teams@, players@, *next_player_id, eggs@, replies@);
    if str_eq(line, GRAPHIC_TEAM_NAME) {
        authenticate_gui_client(client);
        proof {
            let post = server_view(*client, teams@, players@, *next_player_id, eggs@, replies@);
            assert(post == ServerView {
                state: ClientState::Gui,
                team_name: None,
                player_id: None,
                ..pre
            });
        }
        return;
    }
    let ghost old_teams = teams@;
    let ghost old_client = *client;
    let ghost old_players = players@;
    let ghost old_next = *next_player_id;
    let ghost old_eggs = eggs@;
    let ghost old_replies = replies@;
    match find_team_mut(teams, line) {
        Some(team) => {
            let ghost ti = first_team_named(old_teams, line@).unwrap();
            proof {
                lemma_first_team_named_bounds(old_teams, line@);
            }
            let ghost team_before = *team;
            authenticate_ai_client(client, team, config, players, next_player_id, eggs, replies);
            let ghost team_after = *team;
            proof {
                let spre = server_view(old_client, seq![team_before], old_players, old_next, old_eggs, old_replies);
                let spost = server_view(*client, seq![team_after], players@, *next_player_id, eggs@, replies@);
                let post = server_view(*client, teams@, players@, *next_player_id, eggs@, replies@);
                assert(spost.teams[0] == team_after);
                lemma_lift_team(old_teams, ti, line@, config.width, config.height, pre, post, spre, spost);
            }
        },
        None => {
            reject_connection(replies);
            proof {
                let post = server_view(*client, teams@, players@, *next_player_id, eggs@, replies@);
                assert(post == ServerView { replies: pre.replies.push(ko_reply()), ..pre });
            }
        },
    }
}


/// Queues the command of a player, unless `MAX_PENDING_COMMANDS` already wait.
fn queue_ai_command(client: &mut Client, line: &str)
    ensures
        final(client).input_buffer == old(client).input_buffer,
        final(client).state == old(client).state,
        final(client).team_name == old(client).team_name,
        final(client).player_id == old(client).player_id,
        command_names(final(client).command_queue@) == if command_names(
            old(client).command_queue@,
        ).len() < MAX_PENDING_COMMANDS {
            command_names(old(client).command_queue@).push(line@)
        } else {
            command_names(old(client).command_queue@)
        },
{
    let command = QueuedCommand::new(line.to_string());
    let ghost before = client.command_queue@;
    let accepted = client.command_queue.push(command, MAX_PENDING_COMMANDS);
    proof {
        if accepted {
            assert(command_names(before.push(command)) =~= command_names(before).push(line@));
        }
    }
}

/// Handles one line: see `client_line_step`.
fn handle_client_line(
    client: &mut Client,
    line: &str,
    config: &Config,
    teams: &mut Vec<Team>,
    players: &mut Vec<Player>,
    next_player_id: &mut usize,
    eggs: &mut Vec<Egg>,
    replies: &mut Vec<Vec<u8>>,
)
    requires
        old(client).state == ClientState::WaitingTeamName ==> *old(next_player_id)
            + PLAYER_ID_INCREMENT <= usize::MAX,
    ensures
        final(client).input_buffer == old(client).input_buffer,
        client_line_step(
            line@,
            config.width,
            config.height,
            server_view(
                *old(client),
                old(teams)@,
                old(players)@,
                *old(next_player_id),
                old(eggs)@,
                old(replies)@,
            ),
            server_view(
                *final(client),
                final(teams)@,
                final(players)@,
                *final(next_player_id),
                final(eggs)@,
                final(replies)@,
            ),
        ),
{
    match client.state {
        ClientState::WaitingTeamName => {
            handle_handshake_line(client, line, config, teams, players, next_player_id, eggs, replies);
        },
        ClientState::Ai => {
            queue_ai_command(client, line);
        },
        ClientState::Gui => {},
    }
}

/// Takes the line that ends at `line_end_index` out of the input buffer,
/// without its end and without a carriage return before it.
pub fn extract_client_line(client: &mut Client, line_end_index: usize) -> (line: String)
    requires
        line_end_index < old(client).input_buffer@.len(),
    ensures
        line@ == strip_cr(old(client).input_buffer@.take(line_end_index as int)),
        final(client).input_buffer@ == old(client).input_buffer@.skip(line_end_index + 1),
        final(client).state == old(client).state,
        final(client).team_name == old(client).team_name,
        final(client).player_id == old(client).player_id,
        final(client).command_queue == old(client).command_queue,
{
    let ghost buffer = client.input_buffer@;
    let _buffer_len = client.input_buffer.len();
    let mut head = client.input_buffer.split_off(line_end_index + 1);
    std::mem::swap(&mut head, &mut client.input_buffer);
    let mut end = line_end_index;
    if end > 0 && head[end - 1] == CARRIAGE_RETURN {
        end = end - 1;
    }
    let line = string_of_range(&head, 0, end);
    assert(client.input_buffer@ =~= buffer.skip(line_end_index + 1));
    proof {
        let taken = buffer.take(line_end_index as int);
        if line_end_index > 0 && taken.last() == CARRIAGE_RETURN {
            assert(head@.subrange(0, end as int) =~= taken.drop_last());
        } else {
            assert(head@.subrange(0, end as int) =~= taken);
        }
    }
    line
}

/// The complete lines of `buffer` (each without its end and without a
/// carriage return before it), and what follows the last of them.
pub open spec fn split_lines(buffer: Seq<char>) -> (Seq<Seq<char>>, Seq<char>)
    decreases buffer.len(),
{
    match first_index_of(buffer, LINE_DELIMITER) {
        None => (Seq::empty(), buffer),
        Some(i) => {
            proof {
                lemma_first_index_of_bounds(buffer, LINE_DELIMITER);
            }
            if 0 <= i < buffer.len() {
                let rest = split_lines(buffer.skip(i + 1));
                (seq![strip_cr(buffer.take(i))] + rest.0, rest.1)
            } else {
                (Seq::empty(), buffer)
            }
        },
    }
}

/// `trace` takes the server from its first view to its last through the
/// `line_step` of each of `lines` in turn.
pub open spec fn valid_trace(lines: Seq<Seq<char>>, width: usize, height: usize, trace: Seq<ServerView>) -> bool {
    &&& trace.len() == lines.len() + 1
    &&& forall|i: int|
        0 <= i < lines.len() ==> #[trigger] line_step(lines[i], width, height, trace[i], trace[i + 1])
}

/// Handles every complete line of the client's input buffer in order, and
/// returns the replies to send to the client, in order. What follows the
/// last complete line stays in the buffer.
pub fn handle_complete_client_lines(
    client: &mut Client,
    config: &Config,
    teams: &mut Vec<Team>,
    players: &mut Vec<Player>,
    next_player_id: &mut usize,
    eggs: &mut Vec<Egg>,
) -> (replies: Vec<Vec<u8>>)
    requires
        old(client).state == ClientState::WaitingTeamName ==> *old(next_player_id)
            + PLAYER_ID_INCREMENT <= usize::MAX,
    ensures
        final(client).input_buffer@ == split_lines(old(client).input_buffer@).1,
        exists|trace: Seq<ServerView>|
            #[trigger] valid_trace(
                split_lines(old(client).input_buffer@).0,
                config.width,
                config.height,
                trace,
            ) && trace[0] == server_view(
                *old(client),
                old(teams)@,
                old(players)@,
                *old(next_player_id),
                old(eggs)@,
                Seq::empty(),
            ) && trace.last() == server_view(
                *final(client),
                final(teams)@,
                final(players)@,
                *final(next_player_id),
                final(eggs)@,
                replies@,
            ),
{
    let mut replies: Vec<Vec<u8>> = Vec::new();
    let ghost all_lines = split_lines(client.input_buffer@);
    let ghost first = server_view(*client, teams@, players@, *next_player_id, eggs@, replies@);
    let ghost mut done: Seq<Seq<char>> = Seq::empty();
    let ghost mut trace: Seq<ServerView> = seq![first];
    let mut finished = false;
    while !finished
        invariant
            all_lines.0 == done + (if finished {
                Seq::<Seq<char>>::empty()
            } else {
                split_lines(client.input_buffer@).0
            }),
            all_lines.1 == split_lines(client.input_buffer@).1,
            finished ==> split_lines(client.input_buffer@).0.len() == 0,
            valid_trace(done, config.width, config.height, trace),
            trace[0] == first,
            trace.last() == server_view(*client, teams@, players@, *next_player_id, eggs@, replies@),
            client.state == ClientState::WaitingTeamName ==> *next_player_id + PLAYER_ID_INCREMENT
                <= usize::MAX,
        decreases client.input_buffer@.len(), if finished {
            0int
        } else {
            1int
        },
    {
        let len = client.input_buffer.len();
        let ghost buffer = client.input_buffer@;
        assert(buffer.subrange(0, len as int) =~= buffer);
        match find_char(&client.input_buffer, 0, len, LINE_DELIMITER) {
            None => {
                finished = true;
                assert(done + Seq::<Seq<char>>::empty() =~= done);
            },
            Some(line_end_index) => {
                let ghost pre = trace.last();
                let line = extract_client_line(client, line_end_index);
                if !line.as_str().is_empty() {
                    handle_client_line(
                        client,
                        line.as_str(),
                        config,
                        teams,
                        players,
                        next_player_id,
                        eggs,
                        &mut replies,
                    );
                }
                proof {
                    let post = server_view(*client, teams@, players@, *next_player_id, eggs@, replies@);
                    let rest = split_lines(buffer.skip(line_end_index + 1));
                    assert(split_lines(buffer).0 =~= seq![line@] + rest.0);
                    assert(line_step(line@, config.width, config.height, pre, post));
                    let new_done = done.push(line@);
                    let new_trace = trace.push(post);
                    assert forall|i: int| 0 <= i < new_done.len() implies #[trigger] line_step(
                        new_done[i],
                        config.width,
                        config.height,
                        new_trace[i],
                        new_trace[i + 1],
                    ) by {
                        if i < done.len() {
                            assert(line_step(done[i], config.width, config.height, trace[i], trace[i + 1]));
                        }
                    }
                    assert(all_lines.0 =~= new_done + rest.0);
                    done = new_done;
                    trace = new_trace;
                }
            },
        }
    }
    replies
}

} // verus!
