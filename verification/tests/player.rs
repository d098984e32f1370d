use roguemap::{player_input, try_move_player, Command, Position, TileGrid, TileType, Viewshed};

fn clean() -> Viewshed {
    Viewshed { visible_tiles: vec![(1, 1)], range: 20, dirty: false }
}

fn walled_cell() -> TileGrid {
    let mut map = TileGrid::new(5, 5, TileType::Floor);
    map.set_tile(3, 2, TileType::Wall);
    map.set_tile(2, 1, TileType::Door);
    map
}

#[test]
fn a_step_onto_floor_moves_the_player_and_dirties_the_view() {
    let map = walled_cell();
    let mut pos = Position { x: 2, y: 2 };
    let mut viewshed = clean();
    try_move_player(-1, 0, &mut pos, &mut viewshed, &map);
    assert_eq!(pos, Position { x: 1, y: 2 });
    assert!(viewshed.dirty);
    assert_eq!(viewshed.range, 20);
    assert_eq!(viewshed.visible_tiles, vec![(1, 1)]);
}

#[test]
fn a_step_into_a_wall_changes_nothing() {
    let map = walled_cell();
    for was_dirty in [false, true] {
        let mut pos = Position { x: 2, y: 2 };
        let mut viewshed = clean();
        viewshed.dirty = was_dirty;
        try_move_player(1, 0, &mut pos, &mut viewshed, &map);
        assert_eq!(pos, Position { x: 2, y: 2 });
        assert_eq!(viewshed.dirty, was_dirty);
        assert_eq!(viewshed.range, 20);
        assert_eq!(viewshed.visible_tiles, vec![(1, 1)]);
    }
}

#[test]
fn a_step_through_a_door_is_allowed() {
    let map = walled_cell();
    let mut pos = Position { x: 2, y: 2 };
    let mut viewshed = clean();
    try_move_player(0, -1, &mut pos, &mut viewshed, &map);
    assert_eq!(pos, Position { x: 2, y: 1 });
    assert!(viewshed.dirty);
}

#[test]
fn a_step_off_the_map_changes_nothing() {
    let map = TileGrid::new(5, 5, TileType::Floor);
    let starts = [((0, 2), (-1, 0)), ((4, 2), (1, 0)), ((2, 0), (0, -1)), ((2, 4), (0, 1))];
    for ((x, y), (dx, dy)) in starts {
        let mut pos = Position { x, y };
        let mut viewshed = clean();
        try_move_player(dx, dy, &mut pos, &mut viewshed, &map);
        assert_eq!(pos, Position { x, y });
        assert!(!viewshed.dirty);
    }
}

#[test]
fn a_step_past_the_range_of_the_coordinates_changes_nothing() {
    let map = TileGrid::new(5, 5, TileType::Floor);
    let mut pos = Position { x: i32::MAX, y: i32::MIN };
    let mut viewshed = clean();
    try_move_player(1, 0, &mut pos, &mut viewshed, &map);
    try_move_player(0, -1, &mut pos, &mut viewshed, &map);
    try_move_player(i32::MAX, i32::MIN, &mut pos, &mut viewshed, &map);
    assert_eq!(pos, Position { x: i32::MAX, y: i32::MIN });
    assert!(!viewshed.dirty);
}

#[test]
fn a_player_off_the_map_can_step_onto_it() {
    let map = TileGrid::new(5, 5, TileType::Floor);
    let mut pos = Position { x: -1, y: 3 };
    let mut viewshed = clean();
    try_move_player(1, 0, &mut pos, &mut viewshed, &map);
    assert_eq!(pos, Position { x: 0, y: 3 });
    assert!(viewshed.dirty);
}

#[test]
fn commands_step_in_the_four_directions() {
    let moves = [
        (Command::Left, (1, 2)),
        (Command::Right, (3, 2)),
        (Command::Up, (2, 1)),
        (Command::Down, (2, 3)),
    ];
    for (command, (x, y)) in moves {
        let mut map = TileGrid::new(5, 5, TileType::Floor);
        let mut pos = Position { x: 2, y: 2 };
        let mut viewshed = clean();
        player_input(command, &mut pos, &mut viewshed, &mut map);
        assert_eq!(pos, Position { x, y });
        assert!(viewshed.dirty);
        assert!(map.revealed_tiles.iter().all(|r| !*r));
        assert!(map.tiles.iter().all(|t| *t == TileType::Floor));
    }
}

#[test]
fn a_command_to_step_into_a_wall_changes_nothing() {
    let mut map = walled_cell();
    let mut pos = Position { x: 2, y: 2 };
    let mut viewshed = clean();
    player_input(Command::Right, &mut pos, &mut viewshed, &mut map);
    assert_eq!(pos, Position { x: 2, y: 2 });
    assert!(!viewshed.dirty);
}

#[test]
fn the_command_to_reveal_all_reveals_the_map_and_moves_nothing() {
    let mut map = walled_cell();
    map.mark_visible(2, 2);
    let visible = map.visible_tiles.clone();
    let tiles = map.tiles.clone();
    let mut pos = Position { x: 2, y: 2 };
    let mut viewshed = clean();
    player_input(Command::RevealAll, &mut pos, &mut viewshed, &mut map);
    assert!(map.revealed_tiles.iter().all(|r| *r));
    assert_eq!(map.visible_tiles, visible);
    assert_eq!(map.tiles, tiles);
    assert_eq!(pos, Position { x: 2, y: 2 });
    assert!(!viewshed.dirty);
    assert_eq!(viewshed.visible_tiles, vec![(1, 1)]);
}

#[test]
fn the_command_to_wait_changes_nothing() {
    let mut map = walled_cell();
    let tiles = map.tiles.clone();
    let mut pos = Position { x: 2, y: 2 };
    let mut viewshed = clean();
    player_input(Command::Wait, &mut pos, &mut viewshed, &mut map);
    assert_eq!(pos, Position { x: 2, y: 2 });
    assert!(!viewshed.dirty);
    assert_eq!(map.tiles, tiles);
    assert!(map.revealed_tiles.iter().all(|r| !*r));
    assert!(map.visible_tiles.iter().all(|v| !*v));
}
