use zappy::ai_protocol::TileView;
use zappy::ai_state::{Fraction, GameState, N_ACTIONS, STATE_DIM};

fn tile(players: u32, food: u32, thystame: u32) -> TileView {
    TileView { players, food, linemate: 0, deraumere: 0, sibur: 0, mendiane: 0, phiras: 0, thystame }
}

fn value(f: Fraction) -> f32 {
    f.numerator as f32 / f.denominator as f32
}

#[test]
fn new_state_is_at_level_one() {
    let state = GameState::new(10, 20);
    assert_eq!(state.level, 1);
    assert_eq!(state.survival_ticks, 1260);
    assert_eq!(state.inventory, [0; 7]);
    assert!(state.last_message.is_none());
    assert_eq!(value(state.x), 0.0);
}

#[test]
fn sets_position_and_direction() {
    let mut state = GameState::new(10, 20);
    state.set_position(5, 4, 2);
    assert_eq!(value(state.x), 0.5);
    assert_eq!(value(state.y), 0.2);
    assert_eq!(state.direction, 1);
    state.set_position(0, 0, 0);
    assert_eq!(state.direction, 0);
    state.set_position(0, 0, 9);
    assert_eq!(state.direction, 3);
}

#[test]
fn state_vector_has_fixed_layout() {
    let mut state = GameState::new(10, 10);
    state.set_position(5, 0, 3);
    state.inventory = [40, 1, 0, 0, 0, 0, 10];
    state.last_message = Some(4);
    state.look_tiles = vec![tile(1, 12, 0), tile(0, 3, 2), tile(0, 1, 1), tile(0, 1, 1), tile(0, 9, 9)];
    let v = state.to_state_vector();
    assert_eq!(v.len(), STATE_DIM);
    let f: Vec<f32> = v.into_iter().map(value).collect();
    assert_eq!(f[0], 0.5);
    assert_eq!(&f[2..6], &[0.0, 0.0, 1.0, 0.0]);
    assert_eq!(f[6], 1.0 / 8.0);
    assert_eq!(f[7], 1.0);
    assert_eq!(f[8], 1.0);
    assert_eq!(f[9], 1.0 / 20.0);
    assert_eq!(f[14], 0.5);
    assert_eq!(f[15], 1.0);
    assert_eq!(f[16 + 4], 1.0);
    // Level 1 sees four tiles; the fifth one is zeroed.
    assert_eq!(f[25], 1.0);
    assert_eq!(f[25 + 7], 0.3);
    assert_eq!(f[25 + 7 + 6], 0.2);
    assert_eq!(f[25 + 28], 0.0);
    assert!(state.last_message.is_none());
    let again = state.to_state_vector();
    assert_eq!(value(again[15]), 0.0);
}

#[test]
fn mask_follows_tile_and_inventory() {
    let mut state = GameState::new(10, 10);
    let mask = state.valid_mask();
    assert_eq!(mask.len(), N_ACTIONS);
    assert!(mask[0] && mask[2] && mask[19] && mask[21]);
    assert!(!mask[1] && !mask[5] && !mask[12] && !mask[20]);
    state.look_tiles = vec![tile(2, 1, 0)];
    state.inventory[0] = 3;
    let mask = state.valid_mask();
    assert!(mask[1] && mask[5] && !mask[11] && mask[12] && mask[20] && !mask[13]);
}
