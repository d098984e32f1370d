use roguemap::{Rect, TileGrid, TileType, MAX_ROOMS, MAX_SIZE, MIN_SIZE};

fn tile(map: &TileGrid, x: i32, y: i32) -> TileType {
    map.tiles[map.xy_idx(x, y)]
}

fn reachable_floor(map: &TileGrid, from: (i32, i32)) -> Vec<bool> {
    let mut seen = vec![false; map.tiles.len()];
    let mut todo = vec![from];
    while let Some((x, y)) = todo.pop() {
        if !map.in_bounds(x, y) {
            continue;
        }
        let idx = map.xy_idx(x, y);
        if seen[idx] || map.tiles[idx] != TileType::Floor {
            continue;
        }
        seen[idx] = true;
        todo.push((x + 1, y));
        todo.push((x - 1, y));
        todo.push((x, y + 1));
        todo.push((x, y - 1));
    }
    seen
}

#[test]
fn first_room_is_dug_without_a_corridor() {
    let mut map = TileGrid::new(80, 50, TileType::Wall);
    let room = Rect { x1: 10, y1: 10, x2: 18, y2: 18 };
    assert!(map.room_fits(&room));
    map.add_room(room, true);
    assert_eq!(map.rooms.len(), 1);
    assert_eq!(map.rooms[0], room);
    for y in 0..50 {
        for x in 0..80 {
            let inside = (11..=17).contains(&x) && (11..=17).contains(&y);
            let want = if inside { TileType::Floor } else { TileType::Wall };
            assert_eq!(tile(&map, x, y), want);
        }
    }
}

#[test]
fn second_room_is_joined_along_the_row_first() {
    let mut map = TileGrid::new(80, 50, TileType::Wall);
    let first = Rect { x1: 10, y1: 10, x2: 18, y2: 18 };
    let second = Rect::new(30, 6, 8, 8);
    map.add_room(first, true);
    assert!(map.room_fits(&second));
    map.add_room(second, true);
    assert_eq!(first.center(), (14, 14));
    assert_eq!(second.center(), (34, 10));
    assert_eq!(map.rooms, vec![first, second]);
    for y in 0..50 {
        for x in 0..80 {
            let in_first = (11..=17).contains(&x) && (11..=17).contains(&y);
            let in_second = (31..=37).contains(&x) && (7..=13).contains(&y);
            let on_row = y == 14 && (14..=34).contains(&x);
            let on_column = x == 34 && (10..=14).contains(&y);
            let want = if in_first || in_second || on_row || on_column {
                TileType::Floor
            } else {
                TileType::Wall
            };
            assert_eq!(tile(&map, x, y), want);
        }
    }
}

#[test]
fn second_room_is_joined_along_the_column_first() {
    let mut map = TileGrid::new(80, 50, TileType::Wall);
    let first = Rect { x1: 10, y1: 10, x2: 18, y2: 18 };
    let second = Rect::new(30, 6, 8, 8);
    map.add_room(first, false);
    map.add_room(second, false);
    for y in 0..50 {
        for x in 0..80 {
            let in_first = (11..=17).contains(&x) && (11..=17).contains(&y);
            let in_second = (31..=37).contains(&x) && (7..=13).contains(&y);
            let on_column = x == 14 && (10..=14).contains(&y);
            let on_row = y == 10 && (14..=34).contains(&x);
            let want = if in_first || in_second || on_row || on_column {
                TileType::Floor
            } else {
                TileType::Wall
            };
            assert_eq!(tile(&map, x, y), want);
        }
    }
}

#[test]
fn corridor_joins_the_two_midpoints_over_floor() {
    for horizontal_first in [true, false] {
        let mut map = TileGrid::new(80, 50, TileType::Wall);
        map.add_room(Rect { x1: 10, y1: 10, x2: 18, y2: 18 }, horizontal_first);
        map.add_room(Rect::new(30, 6, 8, 8), horizontal_first);
        let row_first = (14..=34).all(|x| tile(&map, x, 14) == TileType::Floor)
            && (10..=14).all(|y| tile(&map, 34, y) == TileType::Floor);
        let column_first = (10..=14).all(|y| tile(&map, 14, y) == TileType::Floor)
            && (14..=34).all(|x| tile(&map, x, 10) == TileType::Floor);
        assert!(row_first || column_first);
        assert_eq!(row_first, horizontal_first);
        let reached = reachable_floor(&map, (14, 14));
        assert!(reached[map.xy_idx(34, 10)]);
    }
}

#[test]
fn room_fits_rejects_rooms_that_overlap_or_touch() {
    let mut map = TileGrid::new(80, 50, TileType::Wall);
    assert!(map.room_fits(&Rect::new(0, 0, 6, 6)));
    map.add_room(Rect::new(10, 10, 8, 8), true);
    map.add_room(Rect::new(30, 30, 6, 6), true);
    assert!(!map.room_fits(&Rect::new(12, 12, 6, 6)));
    assert!(!map.room_fits(&Rect::new(18, 10, 6, 6)));
    assert!(!map.room_fits(&Rect::new(4, 4, 6, 6)));
    assert!(!map.room_fits(&Rect::new(28, 33, 6, 6)));
    assert!(map.room_fits(&Rect::new(19, 10, 6, 6)));
    assert!(map.room_fits(&Rect::new(3, 3, 6, 6)));
}

#[test]
fn adding_rooms_leaves_the_visibility_layers_alone() {
    let mut map = TileGrid::new(40, 30, TileType::Wall);
    map.mark_visible(3, 3);
    map.add_room(Rect::new(2, 2, 6, 6), true);
    map.add_room(Rect::new(20, 15, 8, 7), false);
    let idx = map.xy_idx(3, 3);
    for i in 0..map.tiles.len() {
        assert_eq!(map.visible_tiles[i], i == idx);
        assert_eq!(map.revealed_tiles[i], i == idx);
    }
}

#[test]
fn generated_dungeon_has_the_size_asked_for() {
    let map = TileGrid::new_map_rooms_and_corridors(80, 50);
    assert_eq!(map.dimensions(), (80, 50));
    assert_eq!(map.tiles.len(), 4000);
    assert_eq!(map.revealed_tiles, vec![false; 4000]);
    assert_eq!(map.visible_tiles, vec![false; 4000]);
    assert!(map.rooms.len() <= MAX_ROOMS as usize);
    assert!(!map.rooms.is_empty());
}

#[test]
fn generated_rooms_do_not_overlap() {
    for _ in 0..20 {
        let map = TileGrid::new_map_rooms_and_corridors(80, 50);
        for (i, a) in map.rooms.iter().enumerate() {
            for (j, b) in map.rooms.iter().enumerate() {
                if i != j {
                    assert!(!a.intersect(b));
                }
            }
        }
    }
}

#[test]
fn generated_rooms_lie_on_the_map_and_have_the_set_sizes() {
    for _ in 0..20 {
        let map = TileGrid::new_map_rooms_and_corridors(80, 50);
        for room in map.rooms.iter() {
            assert!(0 <= room.x1 && room.x2 <= 78);
            assert!(0 <= room.y1 && room.y2 <= 48);
            assert!(MIN_SIZE <= room.x2 - room.x1 && room.x2 - room.x1 <= MAX_SIZE);
            assert!(MIN_SIZE <= room.y2 - room.y1 && room.y2 - room.y1 <= MAX_SIZE);
            for y in room.y1..=room.y2 {
                for x in room.x1..=room.x2 {
                    assert!(map.in_bounds(x, y));
                    assert!(map.xy_idx(x, y) < map.tiles.len());
                }
            }
        }
    }
}

#[test]
fn generated_dungeon_has_floor_inside_every_room() {
    for _ in 0..20 {
        let map = TileGrid::new_map_rooms_and_corridors(80, 50);
        for room in map.rooms.iter() {
            for y in room.y1 + 1..room.y2 {
                for x in room.x1 + 1..room.x2 {
                    assert_eq!(tile(&map, x, y), TileType::Floor);
                }
            }
        }
        assert!(map.tiles.iter().all(|t| *t != TileType::Door));
    }
}

#[test]
fn generated_rooms_are_joined_midpoint_to_midpoint() {
    for _ in 0..20 {
        let map = TileGrid::new_map_rooms_and_corridors(80, 50);
        for pair in map.rooms.windows(2) {
            let (px, py) = pair[0].center();
            let (nx, ny) = pair[1].center();
            let xs = px.min(nx)..=px.max(nx);
            let ys = py.min(ny)..=py.max(ny);
            let row_first = xs.clone().all(|x| tile(&map, x, py) == TileType::Floor)
                && ys.clone().all(|y| tile(&map, nx, y) == TileType::Floor);
            let column_first = ys.clone().all(|y| tile(&map, px, y) == TileType::Floor)
                && xs.clone().all(|x| tile(&map, x, ny) == TileType::Floor);
            assert!(row_first || column_first);
        }
    }
}

#[test]
fn every_generated_room_can_be_reached_from_the_first() {
    for _ in 0..20 {
        let map = TileGrid::new_map_rooms_and_corridors(80, 50);
        if map.rooms.is_empty() {
            continue;
        }
        let reached = reachable_floor(&map, map.rooms[0].center());
        for room in map.rooms.iter() {
            for y in room.y1 + 1..room.y2 {
                for x in room.x1 + 1..room.x2 {
                    assert!(reached[map.xy_idx(x, y)]);
                }
            }
        }
    }
}

#[test]
fn generated_floor_lies_in_rooms_and_on_corridors_only() {
    for _ in 0..20 {
        let map = TileGrid::new_map_rooms_and_corridors(80, 50);
        for y in 0..50 {
            for x in 0..80 {
                if tile(&map, x, y) != TileType::Floor {
                    continue;
                }
                let in_room = map
                    .rooms
                    .iter()
                    .any(|r| r.x1 < x && x < r.x2 && r.y1 < y && y < r.y2);
                let on_corridor = map.rooms.windows(2).any(|pair| {
                    let (px, py) = pair[0].center();
                    let (nx, ny) = pair[1].center();
                    let in_xs = px.min(nx) <= x && x <= px.max(nx);
                    let in_ys = py.min(ny) <= y && y <= py.max(ny);
                    (in_xs && (y == py || y == ny)) || (in_ys && (x == px || x == nx))
                });
                assert!(in_room || on_corridor);
            }
        }
    }
}

#[test]
fn generated_dungeon_keeps_a_wall_around_the_map() {
    for _ in 0..20 {
        let map = TileGrid::new_map_rooms_and_corridors(80, 50);
        for x in 0..80 {
            assert_eq!(tile(&map, x, 0), TileType::Wall);
            assert_eq!(tile(&map, x, 49), TileType::Wall);
        }
        for y in 0..50 {
            assert_eq!(tile(&map, 0, y), TileType::Wall);
            assert_eq!(tile(&map, 79, y), TileType::Wall);
        }
    }
}

#[test]
fn room_sizes_and_places_vary() {
    let mut widths = Vec::new();
    let mut heights = Vec::new();
    let mut columns = Vec::new();
    let mut rows = Vec::new();
    for _ in 0..20 {
        let map = TileGrid::new_map_rooms_and_corridors(80, 50);
        for room in map.rooms.iter() {
            widths.push(room.x2 - room.x1);
            heights.push(room.y2 - room.y1);
            columns.push(room.x1);
            rows.push(room.y1);
        }
    }
    assert!(widths.iter().any(|w| *w != widths[0]));
    assert!(heights.iter().any(|h| *h != heights[0]));
    assert!(columns.iter().any(|x| *x != columns[0]));
    assert!(rows.iter().any(|y| *y != rows[0]));
    assert!(widths.iter().any(|w| *w != MIN_SIZE));
    assert!(columns.iter().any(|x| *x != 0));
}

#[test]
fn corridors_bend_both_ways() {
    let mut row_first = 0;
    let mut column_first = 0;
    for _ in 0..40 {
        let map = TileGrid::new_map_rooms_and_corridors(80, 50);
        for pair in map.rooms.windows(2) {
            let (px, py) = pair[0].center();
            let (nx, ny) = pair[1].center();
            if px == nx || py == ny {
                continue;
            }
            if tile(&map, nx, py) == TileType::Floor && tile(&map, px, ny) != TileType::Floor {
                row_first += 1;
            }
            if tile(&map, px, ny) == TileType::Floor && tile(&map, nx, py) != TileType::Floor {
                column_first += 1;
            }
        }
    }
    assert!(row_first > 0);
    assert!(column_first > 0);
}

#[test]
fn a_map_too_small_for_a_room_stays_solid() {
    for (w, h) in [(1, 1), (7, 50), (80, 7), (5, 5)] {
        let map = TileGrid::new_map_rooms_and_corridors(w, h);
        assert_eq!(map.dimensions(), (w as i32, h as i32));
        assert!(map.rooms.is_empty());
        assert!(map.tiles.iter().all(|t| *t == TileType::Wall));
    }
}
