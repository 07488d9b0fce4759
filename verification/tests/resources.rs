use zappy::constants::{
    MINIMUM_RESOURCE_QUANTITY, RESOURCE_DENSITY_FOOD, RESOURCE_DENSITY_LINEMATE,
    RESOURCE_DENSITY_THYSTAME,
};
use zappy::map::{GameMap, Resource};
use zappy::resources::{
    all_tile_indexes, calculate_resource_quantity, count_map_resource, distribute_resource,
    place_on_first, resource_totals_line, spawn_initial_resources,
};

const TEST_MAP_WIDTH: usize = 10;
const TEST_MAP_HEIGHT: usize = 10;
const EXPECTED_FOOD_QUANTITY: usize = 50;
const EXPECTED_THYSTAME_QUANTITY: usize = 5;
const SMALL_MAP_TILE_COUNT: usize = 1;

#[test]
fn calculates_food_quantity() {
    let tile_count = TEST_MAP_WIDTH * TEST_MAP_HEIGHT;

    assert_eq!(
        calculate_resource_quantity(tile_count, RESOURCE_DENSITY_FOOD),
        EXPECTED_FOOD_QUANTITY
    );
}

#[test]
fn calculates_thystame_quantity() {
    let tile_count = TEST_MAP_WIDTH * TEST_MAP_HEIGHT;

    assert_eq!(
        calculate_resource_quantity(tile_count, RESOURCE_DENSITY_THYSTAME),
        EXPECTED_THYSTAME_QUANTITY
    );
}

#[test]
fn guarantees_minimum_resource_quantity() {
    assert_eq!(
        calculate_resource_quantity(SMALL_MAP_TILE_COUNT, RESOURCE_DENSITY_THYSTAME),
        MINIMUM_RESOURCE_QUANTITY
    );
}

#[test]
fn spawns_expected_resources_on_map() {
    let mut game_map = GameMap::new(TEST_MAP_WIDTH, TEST_MAP_HEIGHT);

    spawn_initial_resources(&mut game_map);

    assert_eq!(
        count_map_resource(&game_map, Resource::Food),
        EXPECTED_FOOD_QUANTITY
    );

    assert_eq!(
        count_map_resource(&game_map, Resource::Thystame),
        EXPECTED_THYSTAME_QUANTITY
    );
}

#[test]
fn rounds_quantity_half_up() {
    // 5 tiles at 0.3 per tile is 1.5 units, which rounds to 2.
    assert_eq!(calculate_resource_quantity(5, RESOURCE_DENSITY_LINEMATE), 2);
    // 3 tiles at 0.3 per tile is 0.9 units, which rounds to 1.
    assert_eq!(calculate_resource_quantity(3, RESOURCE_DENSITY_LINEMATE), 1);
    // A density above one place per tile is kept as it is.
    assert_eq!(calculate_resource_quantity(4, 2500), 10);
    assert_eq!(calculate_resource_quantity(0, RESOURCE_DENSITY_FOOD), MINIMUM_RESOURCE_QUANTITY);
}

#[test]
fn quantity_saturates_at_usize_max() {
    assert_eq!(calculate_resource_quantity(usize::MAX, 2000), usize::MAX);
}

#[test]
fn distributes_at_most_one_per_tile() {
    let mut game_map = GameMap::new(2, 2);
    distribute_resource(&mut game_map, Resource::Sibur, 10);
    assert_eq!(count_map_resource(&game_map, Resource::Sibur), 4);
    for index in 0..game_map.tile_count() {
        let tile = game_map.get_tile_by_index(index).unwrap();
        assert_eq!(tile.resource_count(Resource::Sibur), 1);
        assert_eq!(tile.resource_count(Resource::Food), 0);
    }
}

#[test]
fn distributes_requested_quantity_on_distinct_tiles() {
    let mut game_map = GameMap::new(5, 4);
    distribute_resource(&mut game_map, Resource::Phiras, 7);
    assert_eq!(count_map_resource(&game_map, Resource::Phiras), 7);
    let mut tiles_with_phiras = 0;
    for index in 0..game_map.tile_count() {
        let count = game_map.get_tile_by_index(index).unwrap().resource_count(Resource::Phiras);
        assert!(count <= 1);
        tiles_with_phiras += count;
    }
    assert_eq!(tiles_with_phiras, 7);
}

#[test]
fn spawns_every_resource_at_its_density() {
    let mut game_map = GameMap::new(7, 3);
    spawn_initial_resources(&mut game_map);
    let expected = [
        (Resource::Food, 11),
        (Resource::Linemate, 6),
        (Resource::Deraumere, 3),
        (Resource::Sibur, 2),
        (Resource::Mendiane, 2),
        (Resource::Phiras, 2),
        (Resource::Thystame, 1),
    ];
    for (resource, quantity) in expected {
        assert_eq!(count_map_resource(&game_map, resource), quantity);
    }
}

#[test]
fn map_has_one_tile_per_cell() {
    let game_map = GameMap::new(3, 4);
    assert_eq!(game_map.tile_count(), 12);
    assert_eq!(game_map.width(), 3);
    assert_eq!(game_map.height(), 4);
    assert!(game_map.get_tile_by_index(12).is_none());
    assert_eq!(count_map_resource(&game_map, Resource::Food), 0);
}

#[test]
fn tile_indexes_run_in_order() {
    assert_eq!(all_tile_indexes(4), vec![0, 1, 2, 3]);
    assert!(all_tile_indexes(0).is_empty());
}

#[test]
fn placing_follows_the_given_order() {
    let mut map = GameMap::new(3, 2);
    place_on_first(&mut map, &vec![4, 1, 5, 0], 2, Resource::Sibur);
    let counts: Vec<usize> = (0..6)
        .map(|i| map.get_tile_by_index(i).unwrap().resource_count(Resource::Sibur))
        .collect();
    assert_eq!(counts, vec![0, 1, 0, 0, 1, 0]);
    assert_eq!(count_map_resource(&map, Resource::Food), 0);
}

#[test]
fn totals_line_lists_every_resource() {
    let mut map = GameMap::new(2, 2);
    place_on_first(&mut map, &vec![0, 1, 2], 3, Resource::Food);
    place_on_first(&mut map, &vec![3], 1, Resource::Thystame);
    assert_eq!(
        resource_totals_line(&map),
        "Resources: food=3, linemate=0, deraumere=0, sibur=0, mendiane=0, phiras=0, thystame=1"
    );
}
