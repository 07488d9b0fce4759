use zappy::client::{Client, ClientState};
use zappy::command::{CommandQueue, QueuedCommand};
use zappy::config::{create_teams, Config};
use zappy::constants::{INITIAL_PLAYER_LEVEL, MAX_PENDING_COMMANDS};
use zappy::egg::{count_team_eggs, create_initial_eggs, take_random_team_egg, team_egg_indexes, Egg};
use zappy::player::{orientation_of_index, Orientation, Player};
use zappy::server_protocol::{extract_client_line, find_team_mut, handle_complete_client_lines, handle_handshake_line, push_decimal};
use zappy::team::Team;

fn config() -> Config {
    Config {
        port: 4242,
        width: 10,
        height: 8,
        teams: vec!["red".to_string(), "blue".to_string()],
        clients_nb: 2,
    }
}

#[test]
fn command_queue_is_bounded_and_fifo() {
    let mut queue = CommandQueue::new();
    assert!(queue.is_empty());
    assert!(queue.push(QueuedCommand::new("Forward".to_string()), 2));
    assert!(queue.push(QueuedCommand::new("Left".to_string()), 2));
    assert!(!queue.push(QueuedCommand::new("Right".to_string()), 2));
    assert_eq!(queue.len(), 2);
    assert_eq!(queue.front().unwrap().name, "Forward");
    assert_eq!(queue.pop().unwrap().name, "Forward");
    assert_eq!(queue.pop().unwrap().name, "Left");
    assert!(queue.pop().is_none());
    assert!(queue.front().is_none());
}

#[test]
fn creates_teams_from_config() {
    let teams = create_teams(&config());
    assert_eq!(teams.len(), 2);
    assert_eq!(teams[1].name, "blue");
    assert_eq!(teams[1].max_clients, 2);
    assert_eq!(teams[1].connected, 0);
}

#[test]
fn team_slots_are_reserved_and_released() {
    let mut team = Team::new("red".to_string(), 1);
    assert!(team.reserve_slot());
    assert!(!team.reserve_slot());
    team.release_slot();
    assert_eq!(team.connected, 0);
    team.release_slot();
    assert_eq!(team.connected, 0);
}

#[test]
fn lays_initial_eggs_team_after_team() {
    let teams = create_teams(&config());
    let mut next_egg_id = 7;
    let eggs = create_initial_eggs(&teams, 3, 10, 8, &mut next_egg_id);
    assert_eq!(eggs.len(), 6);
    assert_eq!(next_egg_id, 13);
    for (k, egg) in eggs.iter().enumerate() {
        assert_eq!(egg.id, 7 + k);
        assert_eq!(egg.team_name, if k < 3 { "red" } else { "blue" });
        assert!(egg.x < 10 && egg.y < 8);
    }
    assert_eq!(count_team_eggs(&eggs, "red"), 3);
    assert_eq!(count_team_eggs(&eggs, "green"), 0);
}

#[test]
fn takes_an_egg_of_the_team() {
    let mut eggs = vec![
        Egg::new(0, "red".to_string(), 1, 1),
        Egg::new(1, "blue".to_string(), 2, 2),
        Egg::new(2, "red".to_string(), 3, 3),
    ];
    let egg = take_random_team_egg(&mut eggs, "blue").unwrap();
    assert_eq!(egg.id, 1);
    assert_eq!(eggs.len(), 2);
    assert!(take_random_team_egg(&mut eggs, "blue").is_none());
    assert_eq!(eggs.len(), 2);
    let red = take_random_team_egg(&mut eggs, "red").unwrap();
    assert_eq!(red.team_name, "red");
    assert_eq!(count_team_eggs(&eggs, "red"), 1);
}

#[test]
fn builds_player_at_initial_level() {
    let player = Player::new(4, "red".to_string(), 2, 3, Orientation::West);
    assert_eq!(player.level, INITIAL_PLAYER_LEVEL);
    assert_eq!(player.orientation, Orientation::West);
    let random = Orientation::random();
    assert!(matches!(random, Orientation::North | Orientation::East | Orientation::South | Orientation::West));
}

#[test]
fn writes_decimal_numbers() {
    let mut out = Vec::new();
    push_decimal(&mut out, 0);
    push_decimal(&mut out, 1205);
    assert_eq!(out, b"01205".to_vec());
}

#[test]
fn extracts_line_without_carriage_return() {
    let mut client = Client::new();
    client.receive("Forward\r\nLeft");
    let line = extract_client_line(&mut client, 8);
    assert_eq!(line, "Forward");
    assert_eq!(client.input_buffer, vec!['L', 'e', 'f', 't']);
}

#[test]
fn finds_first_team_by_name() {
    let mut teams = create_teams(&config());
    assert!(find_team_mut(&mut teams, "green").is_none());
    let team = find_team_mut(&mut teams, "blue").unwrap();
    team.connected = 1;
    assert_eq!(teams[1].connected, 1);
}

#[test]
fn graphic_client_becomes_observer() {
    let config = config();
    let mut teams = create_teams(&config);
    let mut players: Vec<Player> = Vec::new();
    let mut next_player_id = 0;
    let mut eggs: Vec<Egg> = Vec::new();
    let mut client = Client::new();
    client.receive("GRAPHIC\n");
    let replies = handle_complete_client_lines(&mut client, &config, &mut teams, &mut players, &mut next_player_id, &mut eggs);
    assert!(replies.is_empty());
    assert_eq!(client.state, ClientState::Gui);
    assert!(client.input_buffer.is_empty());
}

#[test]
fn ai_client_hatches_and_queues_commands() {
    let config = config();
    let mut teams = create_teams(&config);
    let mut players: Vec<Player> = Vec::new();
    let mut next_player_id = 5;
    let mut eggs = vec![
        Egg::new(0, "red".to_string(), 4, 2),
        Egg::new(1, "red".to_string(), 4, 2),
        Egg::new(2, "blue".to_string(), 1, 1),
    ];
    let mut client = Client::new();
    client.receive("red\r\n\nForward\nLeft\nRig");
    let replies = handle_complete_client_lines(&mut client, &config, &mut teams, &mut players, &mut next_player_id, &mut eggs);
    assert_eq!(replies, vec![b"1\n10 8\n".to_vec()]);
    assert_eq!(client.state, ClientState::Ai);
    assert_eq!(client.team_name.as_deref(), Some("red"));
    assert_eq!(client.player_id, Some(5));
    assert_eq!(next_player_id, 6);
    assert_eq!(players.len(), 1);
    assert_eq!((players[0].x, players[0].y, players[0].id), (4, 2, 5));
    assert_eq!(teams[0].connected, 1);
    assert_eq!(eggs.len(), 2);
    assert_eq!(client.command_queue.len(), 2);
    assert_eq!(client.command_queue.front().unwrap().name, "Forward");
    assert_eq!(client.input_buffer, vec!['R', 'i', 'g']);
}

#[test]
fn unknown_team_is_refused() {
    let config = config();
    let mut teams = create_teams(&config);
    let mut players: Vec<Player> = Vec::new();
    let mut next_player_id = 0;
    let mut eggs: Vec<Egg> = Vec::new();
    let mut client = Client::new();
    client.receive("green\nred\n");
    let replies = handle_complete_client_lines(&mut client, &config, &mut teams, &mut players, &mut next_player_id, &mut eggs);
    // "red" has a free slot but no egg: both lines are refused.
    assert_eq!(replies, vec![b"ko\n".to_vec(), b"ko\n".to_vec()]);
    assert_eq!(client.state, ClientState::WaitingTeamName);
    assert_eq!(teams[0].connected, 0);
}

#[test]
fn full_team_is_refused() {
    let config = config();
    let mut teams = create_teams(&config);
    teams[1].connected = 2;
    let mut players: Vec<Player> = Vec::new();
    let mut next_player_id = 0;
    let mut eggs = vec![Egg::new(0, "blue".to_string(), 0, 0)];
    let mut client = Client::new();
    let mut replies = Vec::new();
    handle_handshake_line(&mut client, "blue", &config, &mut teams, &mut players, &mut next_player_id, &mut eggs, &mut replies);
    assert_eq!(replies, vec![b"ko\n".to_vec()]);
    assert_eq!(eggs.len(), 1);
    assert!(players.is_empty());
}

#[test]
fn command_queue_drops_extra_commands() {
    let config = config();
    let mut teams = create_teams(&config);
    let mut players: Vec<Player> = Vec::new();
    let mut next_player_id = 0;
    let mut eggs = vec![Egg::new(0, "blue".to_string(), 0, 0)];
    let mut client = Client::new();
    let mut text = String::from("blue\n");
    for _ in 0..MAX_PENDING_COMMANDS + 3 {
        text.push_str("Look\n");
    }
    client.receive(&text);
    let replies = handle_complete_client_lines(&mut client, &config, &mut teams, &mut players, &mut next_player_id, &mut eggs);
    assert_eq!(replies, vec![b"0\n10 8\n".to_vec()]);
    assert_eq!(client.command_queue.len(), MAX_PENDING_COMMANDS);
}

#[test]
fn orientation_indices_map_to_the_four_directions() {
    assert_eq!(orientation_of_index(0), Orientation::North);
    assert_eq!(orientation_of_index(1), Orientation::East);
    assert_eq!(orientation_of_index(2), Orientation::South);
    assert_eq!(orientation_of_index(3), Orientation::West);
}

#[test]
fn team_egg_indexes_lists_the_team_positions_in_order() {
    let eggs = vec![
        Egg::new(1, "red".to_string(), 0, 0),
        Egg::new(2, "blue".to_string(), 1, 0),
        Egg::new(3, "red".to_string(), 2, 0),
        Egg::new(4, "red".to_string(), 3, 0),
    ];
    assert_eq!(team_egg_indexes(&eggs, "red"), vec![0, 2, 3]);
    assert_eq!(team_egg_indexes(&eggs, "blue"), vec![1]);
    assert!(team_egg_indexes(&eggs, "green").is_empty());
}
