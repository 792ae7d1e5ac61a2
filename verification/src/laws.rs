//! What always holds of the game, proved from the rules.

use crate::game::Dimensions;
use crate::game::Direction;
use crate::game::Position;
use crate::game::SnakeID;
use crate::game::Tile;
use crate::game::next_cell;
use crate::room::Phase;
use crate::room::RoomView;
use crate::room::numbers;
use crate::room::started;
use crate::roster::Address;
use crate::rules::GridView;
use crate::rules::blank_cells;
use crate::rules::cell_index;
use crate::rules::fresh;
use crate::rules::in_grid;
use crate::rules::lemma_advanced_wf;
use crate::rules::lemma_doodah_hides_no_snake;
use crate::rules::lemma_drawn_adds_no_doodah;
use crate::rules::lemma_moved_parts;
use crate::rules::lemma_seated;
use crate::rules::no_doodah;
use vstd::prelude::*;

verus! {

/// The grid wraps around at all four edges: a step east from the last
/// column leads to the first column of the same row, a step west from the
/// first column to the last, a step north from the last row to the first
/// row of the same column, a step south from the first row to the last.
/// Away from the edges a step changes one coordinate by one.
pub proof fn lemma_moves_wrap_around(dims: Dimensions, head: Position)
    requires
        in_grid(dims, head),
    ensures
        next_cell(dims, Direction::East, head) == if head.0 == dims.width - 1 {
            (0usize, head.1)
        } else {
            ((head.0 + 1) as usize, head.1)
        },
        next_cell(dims, Direction::West, head) == if head.0 == 0 {
            ((dims.width - 1) as usize, head.1)
        } else {
            ((head.0 - 1) as usize, head.1)
        },
        next_cell(dims, Direction::North, head) == if head.1 == dims.height - 1 {
            (head.0, 0usize)
        } else {
            (head.0, (head.1 + 1) as usize)
        },
        next_cell(dims, Direction::South, head) == if head.1 == 0 {
            (head.0, (dims.height - 1) as usize)
        } else {
            (head.0, (head.1 - 1) as usize)
        },
{
    let w = dims.width as int;
    let h = dims.height as int;
    let x = head.0 as int;
    let y = head.1 as int;
    vstd::arithmetic::div_mod::lemma_mod_self_0(w);
    vstd::arithmetic::div_mod::lemma_mod_self_0(h);
    if x + 1 < w {
        vstd::arithmetic::div_mod::lemma_small_mod((x + 1) as nat, w as nat);
    }
    if y + 1 < h {
        vstd::arithmetic::div_mod::lemma_small_mod((y + 1) as nat, h as nat);
    }
    if x == 0 {
        vstd::arithmetic::div_mod::lemma_small_mod((w - 1) as nat, w as nat);
    } else {
        vstd::arithmetic::div_mod::lemma_mod_add_multiples_vanish(x - 1, w);
        vstd::arithmetic::div_mod::lemma_small_mod((x - 1) as nat, w as nat);
    }
    if y == 0 {
        vstd::arithmetic::div_mod::lemma_small_mod((h - 1) as nat, h as nat);
    } else {
        vstd::arithmetic::div_mod::lemma_mod_add_multiples_vanish(y - 1, h);
        vstd::arithmetic::div_mod::lemma_small_mod((y - 1) as nat, h as nat);
    }
}

/// A snake that heads for a cell of its own tail is gone after the tick,
/// unless the cell is the tip of the tail and the snake does not grow: then
/// the tip has moved on before the head arrives.
pub proof fn lemma_snake_dies_on_its_tail(g: GridView, id: SnakeID, j: int)
    requires
        g.wf(),
        g.snakes.contains_key(id),
        0 <= j < g.snakes[id].body.len(),
        next_cell(g.dims, g.snakes[id].dir, g.snakes[id].head) == g.snakes[id].body[j],
        j >= 1 || g.ahead(id) != Tile::Blank,
    ensures
        !g.survivors().contains_key(id),
{
    if g.moved().contains_key(id) {
        lemma_moved_parts(g, id);
        let s = g.snakes[id];
        let m = g.moved()[id];
        if g.ahead(id) == Tile::Doodah {
            assert(m.body[j] == s.cells()[j]);
        } else {
            assert(m.body[j - 1] == s.cells()[j]);
        }
        assert(m.hits_itself());
    }
}

/// Two snakes that head for one cell are both gone after the tick.
pub proof fn lemma_head_on_kills_both(g: GridView, a: SnakeID, b: SnakeID)
    requires
        g.wf(),
        g.snakes.contains_key(a),
        g.snakes.contains_key(b),
        a != b,
        next_cell(g.dims, g.snakes[a].dir, g.snakes[a].head) == next_cell(
            g.dims,
            g.snakes[b].dir,
            g.snakes[b].head,
        ),
    ensures
        !g.survivors().contains_key(a),
        !g.survivors().contains_key(b),
{
    if g.moved().contains_key(a) {
        lemma_moved_parts(g, a);
        lemma_moved_parts(g, b);
        assert(g.moved()[a].hits(g.moved()[b]));
        assert(g.moved()[b].hits(g.moved()[a]));
    }
}

/// A snake that finds the doodah ahead keeps its whole tail and adds the
/// cell it left; its score goes up by exactly one, whether or not it then
/// lives.
pub proof fn lemma_doodah_grows_snake(g: GridView, id: SnakeID)
    requires
        g.wf(),
        g.snakes.contains_key(id),
        g.ahead(id) == Tile::Doodah,
    ensures
        g.moved().contains_key(id),
        g.moved()[id].body == g.snakes[id].body.push(g.snakes[id].head),
        g.next_scores().contains_key(id),
        g.next_scores()[id] == g.scores[id] + 1,
{
}

/// After a tick on which the doodah was taken, the grid holds exactly one
/// doodah if the tick left a blank tile, and none otherwise.
pub proof fn lemma_one_doodah_comes_back(g: GridView, next: GridView)
    requires
        g.wf(),
        g.claimed(),
        g.steps_to(next),
    ensures
        no_doodah(g.advanced().tiles),
        (exists|i: int| 0 <= i < g.advanced().tiles.len() && g.advanced().tiles[i] == Tile::Blank)
            ==> exists|i: int|
            0 <= i < next.tiles.len() && next.tiles[i] == Tile::Doodah && forall|j: int|
                0 <= j < next.tiles.len() && next.tiles[j] == Tile::Doodah ==> j == i,
        !(exists|i: int| 0 <= i < g.advanced().tiles.len() && g.advanced().tiles[i] == Tile::Blank)
            ==> no_doodah(next.tiles),
{
    let board = g.advanced().tiles;
    assert forall|i: int| 0 <= i < board.len() implies #[trigger] board[i] != Tile::Doodah by {
        if board[i] == Tile::Doodah {
            lemma_drawn_adds_no_doodah(g.ground(), g.dims, g.survivors(), i);
        }
    }
    if exists|i: int| 0 <= i < board.len() && board[i] == Tile::Blank {
        let i = choose|i: int|
            0 <= i < board.len() && board[i] == Tile::Blank && next.tiles == board.update(
                i,
                Tile::Doodah,
            );
        assert(next.tiles[i] == Tile::Doodah);
        assert forall|j: int|
            0 <= j < next.tiles.len() && next.tiles[j] == Tile::Doodah implies j == i by {
            if j != i {
                assert(next.tiles[j] == board[j]);
            }
        }
    }
}

/// Where no doodah is taken, chance has no part in a tick: any two grids
/// that a tick may make of one grid are the same.
pub proof fn lemma_tick_is_determined(g: GridView, first: GridView, second: GridView)
    requires
        !g.claimed(),
        g.steps_to(first),
        g.steps_to(second),
    ensures
        first == second,
        first == g.advanced(),
{
}

/// Where the only snake runs into a wall, the game is over, and the score
/// table holds the length that snake had.
pub proof fn lemma_last_snake_hits_wall(g: GridView, id: SnakeID)
    requires
        g.wf(),
        g.snakes.contains_key(id),
        forall|other: SnakeID| g.snakes.contains_key(other) ==> other == id,
        g.ahead(id) == Tile::Wall,
    ensures
        g.finished(),
        g.next_scores().contains_key(id),
        g.next_scores()[id] == g.snakes[id].body.len(),
{
}

/// Walls stay where they are over a tick: a tile is a wall after the tick
/// exactly if it was one before.
pub proof fn lemma_walls_stay(g: GridView, next: GridView, at: int)
    requires
        g.wf(),
        g.steps_to(next),
        0 <= at < g.tiles.len(),
    ensures
        next.tiles.len() == g.tiles.len(),
        (next.tiles[at] == Tile::Wall) == (g.tiles[at] == Tile::Wall),
{
    let alive = g.survivors();
    let board = g.advanced().tiles;
    assert(board[at] == crate::rules::drawn_tile(g.ground(), g.dims, alive, at));
    if g.tiles[at] == Tile::Wall {
        if exists|id: SnakeID| crate::rules::head_at(g.dims, alive, id, at) {
            let id = choose|id: SnakeID| crate::rules::head_at(g.dims, alive, id, at);
            lemma_moved_parts(g, id);
            assert(g.ahead(id) == Tile::Wall);
        }
        if exists|id: SnakeID, j: int| crate::rules::segment_at(g.dims, alive, id, j, at) {
            let (id, j) = choose|id: SnakeID, j: int|
                crate::rules::segment_at(g.dims, alive, id, j, at);
            lemma_moved_parts(g, id);
            let before = g.snakes[id];
            let shift: int = if g.ahead(id) == Tile::Doodah {
                0
            } else {
                1
            };
            assert(alive[id].body[j] == before.cells()[j + shift]);
            assert(crate::rules::is_part(g.snakes, id, j + shift));
            assert(g.tiles[cell_index(g.dims, crate::rules::cell_of(g.snakes, id, j + shift))].is_snake());
        }
        assert(board[at] == Tile::Wall);
    }
}

/// One tick keeps a playable grid playable, whichever blank tile a new
/// doodah is put on.
pub proof fn lemma_tick_keeps_grid_playable(g: GridView, next: GridView)
    requires
        g.wf(),
        g.steps_to(next),
    ensures
        next.wf(),
{
    lemma_advanced_wf(g);
    if g.claimed() {
        let board = g.advanced().tiles;
        assert forall|i: int| 0 <= i < board.len() implies #[trigger] board[i] != Tile::Doodah by {
            if board[i] == Tile::Doodah {
                lemma_drawn_adds_no_doodah(g.ground(), g.dims, g.survivors(), i);
            }
        }
        if exists|i: int| 0 <= i < board.len() && board[i] == Tile::Blank {
            let i = choose|i: int|
                0 <= i < board.len() && board[i] == Tile::Blank && next.tiles == board.update(
                    i,
                    Tile::Doodah,
                );
            lemma_doodah_hides_no_snake(g.dims, board, g.survivors(), i);
        }
    }
}


/// A new game has a snake for each player, as long as the tiles hold a
/// blank for each.
pub proof fn lemma_new_game_seats_everyone(
    g: GridView,
    dims: Dimensions,
    tiles: Seq<Tile>,
    ids: Seq<SnakeID>,
    cells: Seq<usize>,
    headings: Seq<Direction>,
)
    requires
        fresh(g, dims, tiles, ids, cells, headings),
        ids.no_duplicates(),
        ids.len() <= blank_cells(tiles).len(),
    ensures
        g.snakes.dom().len() == ids.len(),
        forall|k: int| 0 <= k < ids.len() ==> g.snakes.contains_key(#[trigger] ids[k]),
        forall|id: SnakeID| #[trigger]
            g.snakes.contains_key(id) ==> g.snakes[id].body.len() == 0 && g.scores[id] == 0,
{
    lemma_seated(dims, ids, cells, headings, cells.len());
    assert(ids.take(ids.len() as int) =~= ids);
}

/// Whatever a room has been through, once it has started a game the grid
/// holds one snake for each player that was in the room at the start, as
/// long as the room's tiles hold a blank for each.
pub proof fn lemma_start_seats_everyone<S, B>(
    before: RoomView<S, B>,
    players: Seq<(Address, (String, S))>,
    breaker: B,
    sessions: Seq<(SnakeID, Address, S)>,
    after: RoomView<S, B>,
)
    requires
        started(before, players, breaker, sessions, after),
        players.len() <= usize::MAX,
        players.len() <= blank_cells(before.tiles).len(),
    ensures
        after.phase matches Phase::Playing { grid, .. } && grid.snakes.dom().len()
            == players.len(),
        after.history == before.history,
{
    let n = players.len();
    let dims = Dimensions { width: before.width, height: before.height };
    match after.phase {
        Phase::Playing { grid, seats, breaker: handle } => {
            let (cells, headings) = choose|cells: Seq<usize>, headings: Seq<Direction>| #[trigger]
                fresh(grid, dims, before.tiles, numbers(n), cells, headings);
            lemma_new_game_seats_everyone(grid, dims, before.tiles, numbers(n), cells, headings);
        },
        _ => {},
    }
}

} // verus!
