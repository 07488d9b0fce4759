use zappy::ai_protocol::{parse_response, ServerResponse};
use zappy::client::{Client, ClientState};
use zappy::config::{create_teams, Config};
use zappy::console::{ConsoleState, KeyEvent};
use zappy::egg::Egg;
use zappy::player::Player;
use zappy::server_protocol::{handle_complete_client_lines, push_decimal};

fn config() -> Config {
    Config { port: 1, width: 5, height: 5, teams: vec!["red".to_string()], clients_nb: 2 }
}

#[test]
fn teams_stay_within_capacity_and_eggs_become_players() {
    let config = config();
    let mut teams = create_teams(&config);
    let mut players: Vec<Player> = Vec::new();
    let mut next_player_id = 0;
    let mut eggs: Vec<Egg> = (0..3).map(|i| Egg::new(i, "red".to_string(), i, i)).collect();
    let mut accepted = 0;
    for _ in 0..3 {
        let mut client = Client::new();
        client.receive("red\n");
        let replies = handle_complete_client_lines(&mut client, &config, &mut teams, &mut players, &mut next_player_id, &mut eggs);
        assert_eq!(replies.len(), 1);
        if client.state == ClientState::Ai {
            accepted += 1;
        } else {
            assert_eq!(replies[0], b"ko\n".to_vec());
        }
        assert!(teams[0].connected <= teams[0].max_clients);
        assert_eq!(eggs.len() + players.len(), 3);
    }
    assert_eq!(accepted, 2);
    assert_eq!(next_player_id, 2);
}

#[test]
fn leftover_holds_no_line_end() {
    let config = config();
    let mut teams = create_teams(&config);
    let mut players: Vec<Player> = Vec::new();
    let mut next_player_id = 0;
    let mut eggs: Vec<Egg> = Vec::new();
    let mut client = Client::new();
    client.receive("GRAPHIC\r\nmsz\nbct 1");
    handle_complete_client_lines(&mut client, &config, &mut teams, &mut players, &mut next_player_id, &mut eggs);
    assert!(!client.input_buffer.contains(&'\n'));
    assert_eq!(client.input_buffer.iter().collect::<String>(), "bct 1");
}

#[test]
fn written_counts_read_back() {
    for n in [0usize, 7, 42, 1000, 4294967295] {
        let mut bytes = Vec::new();
        push_decimal(&mut bytes, n);
        let text = String::from_utf8(bytes).unwrap();
        match parse_response(&text) {
            Some(ServerResponse::ConnectNbr(read)) => assert_eq!(read as usize, n),
            other => panic!("unexpected {:?}", other),
        }
    }
}

#[test]
fn console_toggles_back() {
    let mut console = ConsoleState::new();
    console.handle_input(KeyEvent::Pressed("F1".to_string()));
    console.handle_input(KeyEvent::CharInput("ab".to_string()));
    assert!(console.handle_input(KeyEvent::Pressed("F1".to_string())).consumed);
    assert!(!console.opened);
    assert!(console.handle_input(KeyEvent::Pressed("F1".to_string())).consumed);
    assert!(console.opened);
    assert_eq!(console.prompt_text(), "> ab");
}

#[test]
fn surrounding_space_does_not_change_a_parse() {
    assert!(matches!(parse_response("\t ok\r\n"), Some(ServerResponse::Okay)));
    assert!(matches!(parse_response("  Current level: 4\r\n"), Some(ServerResponse::CurrentLevel(4))));
    assert!(matches!(parse_response(" 12 "), Some(ServerResponse::ConnectNbr(12))));
    match (parse_response(" [player food, ] \n"), parse_response("[player food, ]")) {
        (Some(ServerResponse::Look(a)), Some(ServerResponse::Look(b))) => {
            assert_eq!(a.len(), 2);
            assert_eq!(b.len(), 2);
            for (x, y) in a.iter().zip(b.iter()) {
                assert_eq!((x.players, x.resources()), (y.players, y.resources()));
            }
            assert_eq!((a[0].players, a[0].food), (1, 1));
        }
        _ => panic!("both lines should read as a Look answer"),
    }
    assert!(parse_response("   ").is_none());
}
