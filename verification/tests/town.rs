use roguemap::{Rect, TileGrid, TileType, MAX_ROOMS, MAX_SIZE, MIN_SIZE};

fn tile(map: &TileGrid, x: i32, y: i32) -> TileType {
    map.tiles[map.xy_idx(x, y)]
}

fn on_edge(room: &Rect, x: i32, y: i32) -> bool {
    let inside = room.x1 <= x && x <= room.x2 && room.y1 <= y && y <= room.y2;
    let enclosed = room.x1 < x && x < room.x2 && room.y1 < y && y < room.y2;
    inside && !enclosed
}

#[test]
fn a_house_is_walls_around_floor_with_one_door() {
    let sites = [(1, (13, 5)), (2, (18, 9)), (3, (13, 13)), (4, (8, 9))];
    for (dir, door) in sites {
        let mut map = TileGrid::new(30, 20, TileType::Floor);
        let room = Rect::new(8, 5, 10, 8);
        assert!(map.room_fits(&room));
        map.add_house(room, dir);
        assert_eq!(map.rooms, vec![room]);
        for y in 0..20 {
            for x in 0..30 {
                let want = if (x, y) == door {
                    TileType::Door
                } else if on_edge(&room, x, y) {
                    TileType::Wall
                } else {
                    TileType::Floor
                };
                assert_eq!(tile(&map, x, y), want);
            }
        }
    }
}

#[test]
fn a_second_house_leaves_the_first_as_it_is() {
    let mut map = TileGrid::new(40, 20, TileType::Floor);
    let first = Rect::new(2, 2, 6, 6);
    let second = Rect::new(9, 2, 7, 9);
    map.add_house(first, 2);
    assert!(map.room_fits(&second));
    map.add_house(second, 4);
    assert_eq!(map.rooms, vec![first, second]);
    for y in 0..20 {
        for x in 0..40 {
            let want = if (x, y) == (8, 5) || (x, y) == (9, 6) {
                TileType::Door
            } else if on_edge(&first, x, y) || on_edge(&second, x, y) {
                TileType::Wall
            } else {
                TileType::Floor
            };
            assert_eq!(tile(&map, x, y), want);
        }
    }
}

#[test]
fn generated_town_has_the_size_asked_for() {
    let map = TileGrid::new_town_houses(80, 50);
    assert_eq!(map.dimensions(), (80, 50));
    assert_eq!(map.tiles.len(), 4000);
    assert_eq!(map.revealed_tiles, vec![false; 4000]);
    assert_eq!(map.visible_tiles, vec![false; 4000]);
    assert!(map.rooms.len() <= MAX_ROOMS as usize);
    assert!(!map.rooms.is_empty());
}

#[test]
fn generated_houses_do_not_overlap() {
    for _ in 0..20 {
        let map = TileGrid::new_town_houses(80, 50);
        for (i, a) in map.rooms.iter().enumerate() {
            for (j, b) in map.rooms.iter().enumerate() {
                if i != j {
                    assert!(!a.intersect(b));
                }
            }
        }
    }
}

#[test]
fn generated_houses_lie_on_the_map_and_have_the_set_sizes() {
    for _ in 0..20 {
        let map = TileGrid::new_town_houses(80, 50);
        for room in map.rooms.iter() {
            assert!(0 <= room.x1 && room.x2 <= 78);
            assert!(0 <= room.y1 && room.y2 <= 48);
            assert!(MIN_SIZE <= room.x2 - room.x1 && room.x2 - room.x1 <= MAX_SIZE);
            assert!(MIN_SIZE <= room.y2 - room.y1 && room.y2 - room.y1 <= MAX_SIZE);
        }
    }
}

#[test]
fn every_generated_house_has_exactly_one_door() {
    for _ in 0..20 {
        let map = TileGrid::new_town_houses(80, 50);
        for room in map.rooms.iter() {
            let (mid_x, mid_y) = room.center();
            let sites =
                [(mid_x, room.y1), (room.x2, mid_y), (mid_x, room.y2), (room.x1, mid_y)];
            let mut doors = 0;
            for y in room.y1..=room.y2 {
                for x in room.x1..=room.x2 {
                    if on_edge(room, x, y) {
                        match tile(&map, x, y) {
                            TileType::Door => {
                                doors += 1;
                                assert!(sites.contains(&(x, y)));
                            }
                            TileType::Wall => {}
                            TileType::Floor => panic!("a gap in the wall at ({}, {})", x, y),
                        }
                    } else {
                        assert_eq!(tile(&map, x, y), TileType::Floor);
                    }
                }
            }
            assert_eq!(doors, 1);
        }
    }
}

#[test]
fn generated_town_is_open_ground_outside_the_houses() {
    for _ in 0..20 {
        let map = TileGrid::new_town_houses(80, 50);
        for y in 0..50 {
            for x in 0..80 {
                let on_plot = map
                    .rooms
                    .iter()
                    .any(|r| r.x1 <= x && x <= r.x2 && r.y1 <= y && y <= r.y2);
                if !on_plot {
                    assert_eq!(tile(&map, x, y), TileType::Floor);
                }
            }
        }
    }
}

#[test]
fn doors_are_cut_into_all_four_sides() {
    let mut sides = [0; 4];
    for _ in 0..20 {
        let map = TileGrid::new_town_houses(80, 50);
        for room in map.rooms.iter() {
            let (mid_x, mid_y) = room.center();
            let sites =
                [(mid_x, room.y1), (room.x2, mid_y), (mid_x, room.y2), (room.x1, mid_y)];
            for (side, site) in sites.iter().enumerate() {
                if tile(&map, site.0, site.1) == TileType::Door {
                    sides[side] += 1;
                }
            }
        }
    }
    assert!(sides.iter().all(|n| *n > 0));
}

#[test]
fn a_map_too_small_for_a_house_stays_open() {
    for (w, h) in [(1, 1), (7, 50), (80, 7), (5, 5)] {
        let map = TileGrid::new_town_houses(w, h);
        assert_eq!(map.dimensions(), (w as i32, h as i32));
        assert!(map.rooms.is_empty());
        assert!(map.tiles.iter().all(|t| *t == TileType::Floor));
    }
}
