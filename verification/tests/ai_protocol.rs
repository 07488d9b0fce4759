use zappy::ai_protocol::{action_to_command, parse_inventory, parse_look, parse_response, ServerResponse, TileView};

fn inventory_of(line: &str) -> Option<[u32; 7]> {
    match parse_response(line) {
        Some(ServerResponse::Inventory { food, linemate, deraumere, sibur, mendiane, phiras, thystame }) => {
            Some([food, linemate, deraumere, sibur, mendiane, phiras, thystame])
        }
        _ => None,
    }
}

#[test]
fn parses_simple_replies() {
    assert!(matches!(parse_response("ok"), Some(ServerResponse::Okay)));
    assert!(matches!(parse_response("  ko \n"), Some(ServerResponse::Ko)));
    assert!(matches!(parse_response("dead"), Some(ServerResponse::Dead)));
    assert!(matches!(parse_response("Elevation underway"), Some(ServerResponse::ElevationUnderway)));
    assert!(parse_response("OK").is_none());
    assert!(parse_response("").is_none());
}

#[test]
fn parses_current_level() {
    assert!(matches!(parse_response("Current level: 3"), Some(ServerResponse::CurrentLevel(3))));
    assert!(matches!(parse_response("Current level:  7 "), Some(ServerResponse::CurrentLevel(7))));
    assert!(parse_response("Current level: x").is_none());
}

#[test]
fn parses_messages() {
    match parse_response("message 3, hello there") {
        Some(ServerResponse::Message { direction, text }) => {
            assert_eq!(direction, 3);
            assert_eq!(text, "hello there");
        }
        other => panic!("unexpected {:?}", other),
    }
    match parse_response("message 0") {
        Some(ServerResponse::Message { direction, text }) => {
            assert_eq!(direction, 0);
            assert_eq!(text, "");
        }
        other => panic!("unexpected {:?}", other),
    }
    match parse_response("message 5, a, b") {
        Some(ServerResponse::Message { direction, text }) => {
            assert_eq!(direction, 5);
            assert_eq!(text, "a, b");
        }
        other => panic!("unexpected {:?}", other),
    }
    assert!(parse_response("message 300, too far").is_none());
    assert!(parse_response("message x, hi").is_none());
}

#[test]
fn parses_eject() {
    assert!(matches!(parse_response("eject: 4"), Some(ServerResponse::Eject { direction: 4 })));
    assert!(parse_response("eject: north").is_none());
}

#[test]
fn parses_connect_number() {
    assert!(matches!(parse_response("12"), Some(ServerResponse::ConnectNbr(12))));
    assert!(matches!(parse_response("+5"), Some(ServerResponse::ConnectNbr(5))));
    assert!(matches!(parse_response("4294967295"), Some(ServerResponse::ConnectNbr(4294967295))));
    assert!(parse_response("4294967296").is_none());
    assert!(parse_response("-1").is_none());
}

#[test]
fn parses_inventory() {
    assert_eq!(
        inventory_of("[food 10, linemate 1, sibur 2, thystame 3]"),
        Some([10, 1, 0, 2, 0, 0, 3])
    );
    assert_eq!(
        inventory_of("[ food 5, linemate 2, deraumere 1, sibur 0, mendiane 0, phiras 4, thystame 0 ]"),
        Some([5, 2, 1, 0, 0, 4, 0])
    );
}

#[test]
fn two_entry_inventory_reads_as_look() {
    // Neither "[food 1" nor "linemate 2]" reads as an entry on its own.
    match parse_response("[food 1, linemate 2]") {
        Some(ServerResponse::Look(tiles)) => {
            assert_eq!(tiles.len(), 2);
            assert_eq!(tiles[0].food, 1);
            assert_eq!(tiles[1].linemate, 1);
        }
        other => panic!("unexpected {:?}", other),
    }
}

#[test]
fn parses_look() {
    match parse_response("[player food food, , linemate thystame player]") {
        Some(ServerResponse::Look(tiles)) => {
            assert_eq!(tiles.len(), 3);
            assert_eq!(tiles[0].players, 1);
            assert_eq!(tiles[0].food, 2);
            assert_eq!(tiles[1].players + tiles[1].food + tiles[1].linemate, 0);
            assert_eq!(tiles[2].linemate, 1);
            assert_eq!(tiles[2].thystame, 1);
            assert_eq!(tiles[2].players, 1);
        }
        other => panic!("unexpected {:?}", other),
    }
    match parse_response("[]") {
        Some(ServerResponse::Look(tiles)) => assert_eq!(tiles.len(), 1),
        other => panic!("unexpected {:?}", other),
    }
}

#[test]
fn parse_look_counts_words() {
    let tiles = parse_look("[[player player sibur,mendiane phiras]]");
    assert_eq!(tiles.len(), 2);
    assert_eq!(tiles[0].players, 2);
    assert_eq!(tiles[0].sibur, 1);
    assert_eq!(tiles[1].mendiane, 1);
    assert_eq!(tiles[1].phiras, 1);
}

#[test]
fn parse_inventory_needs_numbers() {
    assert!(parse_inventory("[food 1, linemate]").is_none());
    assert!(parse_inventory("[food x]").is_none());
    match parse_inventory("[food 1, gold 9, food 4]") {
        Some(ServerResponse::Inventory { food, .. }) => assert_eq!(food, 4),
        other => panic!("unexpected {:?}", other),
    }
}

#[test]
fn unknown_lines_are_none() {
    assert!(parse_response("hello").is_none());
    assert!(parse_response("[unfinished").is_none());
}

#[test]
fn tile_resources_are_in_order() {
    let tile = TileView {
        players: 9,
        food: 1,
        linemate: 2,
        deraumere: 3,
        sibur: 4,
        mendiane: 5,
        phiras: 6,
        thystame: 7,
    };
    assert_eq!(tile.resources(), [1, 2, 3, 4, 5, 6, 7]);
    let empty = TileView::default();
    assert_eq!(empty.resources(), [0; 7]);
}

#[test]
fn maps_actions_to_commands() {
    assert_eq!(action_to_command(0), "Incantation");
    assert_eq!(action_to_command(5), "Take food");
    assert_eq!(action_to_command(18), "Set thystame");
    assert_eq!(action_to_command(19), "Broadcast zappy");
    assert_eq!(action_to_command(20), "Take food");
    assert_eq!(action_to_command(21), "Fork");
    assert_eq!(action_to_command(99), "Forward");
}
