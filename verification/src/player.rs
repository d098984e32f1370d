//! The player's turn: a step onto a neighbouring cell, or a look at the whole map.

use vstd::prelude::*;
use crate::tile_grid::{TileGrid, TileType};
use crate::visibility::{all_revealed, cheat_reveal_map, Viewshed};

verus! {

/// Where something stands on the map.
#[derive(Clone, Copy, Debug, PartialEq, Eq, Structural)]
pub struct Position {
    pub x: i32,
    pub y: i32,
}

/// What the player asks for in one turn.
#[derive(Clone, Copy, Debug, PartialEq, Eq, Structural)]
pub enum Command {
    /// One step to the left.
    Left,
    /// One step to the right.
    Right,
    /// One step up.
    Up,
    /// One step down.
    Down,
    /// Reveal the whole map.
    RevealAll,
    /// Nothing.
    Wait,
}

/// The cell that lies `(dx, dy)` from `from` can be entered: it is on the
/// map and holds no wall.
pub open spec fn can_enter(map: &TileGrid, from: Position, dx: int, dy: int) -> bool {
    map.has(from.x + dx, from.y + dy) && map.tile_at(from.x + dx, from.y + dy) != TileType::Wall
}

/// What an attempt to step by `(dx, dy)` makes of a position and a
/// viewshed. Where the cell can be entered, the position moves there and the
/// viewshed is marked dirty. Where it cannot, both stay as they are.
pub open spec fn stepped(
    map: &TileGrid,
    from: Position,
    was: &Viewshed,
    to: Position,
    now: &Viewshed,
    dx: int,
    dy: int,
) -> bool {
    if can_enter(map, from, dx, dy) {
        &&& to.x == from.x + dx
        &&& to.y == from.y + dy
        &&& now.dirty
        &&& now.range == was.range
        &&& now.visible_tiles == was.visible_tiles
    } else {
        to == from && *now == *was
    }
}

/// Moves the player by `(delta_x, delta_y)` if the cell there can be
/// entered, and marks the viewshed dirty; a step into a wall or off the map
/// changes nothing.
pub fn try_move_player(
    delta_x: i32,
    delta_y: i32,
    pos: &mut Position,
    viewshed: &mut Viewshed,
    map: &TileGrid,
)
    requires
        map.wf(),
    ensures
        stepped(
            map,
            *old(pos),
            old(viewshed),
            *final(pos),
            final(viewshed),
            delta_x as int,
            delta_y as int,
        ),
{
    let dest_x = pos.x as i64 + delta_x as i64;
    let dest_y = pos.y as i64 + delta_y as i64;
    if dest_x < 0 || dest_x > map.width as i64 - 1 || dest_y < 0 || dest_y > map.height as i64 - 1 {
        return ;
    }
    let destination_idx = map.xy_idx(dest_x as i32, dest_y as i32);
    if map.tiles[destination_idx] != TileType::Wall {
        pos.x = dest_x as i32;
        pos.y = dest_y as i32;
        viewshed.dirty = true;
    }
}

/// Carries out what the player asked for: a step in one of the four
/// directions, the revealing of the whole map, or nothing.
pub fn player_input(
    command: Command,
    pos: &mut Position,
    viewshed: &mut Viewshed,
    map: &mut TileGrid,
)
    requires
        old(map).wf(),
    ensures
        final(map).wf(),
        match command {
            Command::Left => *final(map) == *old(map) && stepped(
                old(map),
                *old(pos),
                old(viewshed),
                *final(pos),
                final(viewshed),
                -1,
                0,
            ),
            Command::Right => *final(map) == *old(map) && stepped(
                old(map),
                *old(pos),
                old(viewshed),
                *final(pos),
                final(viewshed),
                1,
                0,
            ),
            Command::Up => *final(map) == *old(map) && stepped(
                old(map),
                *old(pos),
                old(viewshed),
                *final(pos),
                final(viewshed),
                0,
                -1,
            ),
            Command::Down => *final(map) == *old(map) && stepped(
                old(map),
                *old(pos),
                old(viewshed),
                *final(pos),
                final(viewshed),
                0,
                1,
            ),
            Command::RevealAll => all_revealed(old(map), final(map)) && *final(pos) == *old(pos)
                && *final(viewshed) == *old(viewshed),
            Command::Wait => *final(map) == *old(map) && *final(pos) == *old(pos)
                && *final(viewshed) == *old(viewshed),
        },
{
    match command {
        Command::Left => try_move_player(-1, 0, pos, viewshed, map),
        Command::Right => try_move_player(1, 0, pos, viewshed, map),
        Command::Up => try_move_player(0, -1, pos, viewshed, map),
        Command::Down => try_move_player(0, 1, pos, viewshed, map),
        Command::RevealAll => cheat_reveal_map(map),
        Command::Wait => {},
    }
}

} // verus!
