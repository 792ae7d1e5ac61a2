//! The snake game: headings, tiles, snakes and the grid they move on.

use crate::random::choose_one;
use crate::random::choose_several;
use crate::random::random_below;
use crate::rules::GridView;
use crate::rules::all_within;
use crate::rules::apart;
use crate::rules::blank_cells;
use crate::rules::cell_index;
use crate::rules::crashed;
use crate::rules::drawn;
use crate::rules::drawn_so_far;
use crate::rules::fresh;
use crate::rules::in_grid;
use crate::rules::is_seeding;
use crate::rules::lemma_advanced_wf;
use crate::rules::lemma_all_drawn;
use crate::rules::lemma_cell_at;
use crate::rules::lemma_doodah_hides_no_snake;
use crate::rules::lemma_draw_next;
use crate::rules::lemma_index_in_range;
use crate::rules::lemma_next_cell_in_grid;
use crate::rules::lemma_one_part_per_cell;
use crate::rules::lemma_scores_at_the_end;
use crate::rules::lemma_scores_in_two_steps;
use crate::rules::lemma_seated_fits;
use crate::rules::lemma_seeded_wf;
use crate::rules::lemma_seen_all;
use crate::rules::lemma_seen_next;
use crate::rules::lemma_survivors_fit;
use crate::rules::lemma_swept_moves_alike;
use crate::rules::no_doodah;
use crate::rules::plain;
use crate::rules::recorded;
use crate::rules::respawned;
use crate::rules::seated;
use crate::rules::seeded;
use crate::rules::seen;
use crate::rules::touches;
use std::collections::HashMap;
use std::collections::VecDeque;
use vstd::arithmetic::div_mod::lemma_add_mod_noop;
use vstd::arithmetic::div_mod::lemma_mod_self_0;
use vstd::arithmetic::div_mod::lemma_small_mod;
use vstd::prelude::*;
use vstd::std_specs::iter::IteratorSpec;

verus! {

/// The direction a snake is facing.
#[derive(PartialEq, Eq, Structural, Clone, Copy, Debug)]
pub enum Direction {
    North,
    East,
    South,
    West,
}

impl Direction {
    /// The heading a quarter turn clockwise from `self`.
    pub open spec fn turned_right(self) -> Direction {
        match self {
            Direction::North => Direction::East,
            Direction::East => Direction::South,
            Direction::South => Direction::West,
            Direction::West => Direction::North,
        }
    }

    /// The heading a quarter turn counter-clockwise from `self`.
    pub open spec fn turned_left(self) -> Direction {
        match self {
            Direction::North => Direction::West,
            Direction::West => Direction::South,
            Direction::South => Direction::East,
            Direction::East => Direction::North,
        }
    }

    /// Get a new direction to the right of `self`.
    pub fn right(self) -> (r: Direction)
        ensures
            r == self.turned_right(),
    {
        match self {
            Direction::North => Direction::East,
            Direction::East => Direction::South,
            Direction::South => Direction::West,
            Direction::West => Direction::North,
        }
    }

    /// The heading with the given number: north, west, south, east.
    pub open spec fn numbered(n: int) -> Direction {
        if n == 0 {
            Direction::North
        } else if n == 1 {
            Direction::West
        } else if n == 2 {
            Direction::South
        } else {
            Direction::East
        }
    }

    /// A heading drawn at random: the heading with the number that is
    /// drawn, from zero to three.
    pub fn sample() -> Direction {
        Direction::pick(random_below(4))
    }

    /// The heading with the given number: north, west, south, and east for
    /// every other number.
    pub fn pick(n: usize) -> (r: Direction)
        ensures
            r == Direction::numbered(n as int),
    {
        if n == 0 {
            Direction::North
        } else if n == 1 {
            Direction::West
        } else if n == 2 {
            Direction::South
        } else {
            Direction::East
        }
    }

    /// Get a new direction to the left of `self`.
    pub fn left(self) -> (r: Direction)
        ensures
            r == self.turned_left(),
    {
        match self {
            Direction::North => Direction::West,
            Direction::West => Direction::South,
            Direction::South => Direction::East,
            Direction::East => Direction::North,
        }
    }
}

/// The size of a tile grid.
#[derive(Copy, Clone, Debug)]
pub struct Dimensions {
    pub width: usize,
    pub height: usize,
}

/// A position in the tile grid: column, then row.
pub type Position = (usize, usize);

/// An ID for a snake.
pub type SnakeID = usize;

/// The cell one step from `head` in direction `dir` on a grid that wraps
/// around at every edge.
pub open spec fn next_cell(dims: Dimensions, dir: Direction, head: Position) -> Position {
    match dir {
        Direction::North => (head.0, ((head.1 + 1) % (dims.height as int)) as usize),
        Direction::South => (head.0, ((head.1 + dims.height - 1) % (dims.height as int)) as usize),
        Direction::East => (((head.0 + 1) % (dims.width as int)) as usize, head.1),
        Direction::West => (((head.0 + dims.width - 1) % (dims.width as int)) as usize, head.1),
    }
}

/// `(v + 1) % n`, computed without leaving `usize`.
fn wrap_up(v: usize, n: usize) -> (r: usize)
    requires
        n > 0,
    ensures
        r == (v + 1) % (n as int),
        r < n,
{
    let m: usize = v % n;
    proof {
        lemma_add_mod_noop(v as int, 1, n as int);
        if m + 1 == n {
            lemma_mod_self_0(n as int);
        } else {
            lemma_small_mod((m + 1) as nat, n as nat);
        }
        if n == 1 {
        } else {
            lemma_small_mod(1, n as nat);
        }
    }
    if m + 1 == n {
        0
    } else {
        m + 1
    }
}

/// `(v + n - 1) % n`, computed without leaving `usize`.
fn wrap_down(v: usize, n: usize) -> (r: usize)
    requires
        n > 0,
    ensures
        r == (v + n - 1) % (n as int),
        r < n,
{
    let m: usize = v % n;
    proof {
        lemma_add_mod_noop(v as int, n - 1, n as int);
        lemma_small_mod((n - 1) as nat, n as nat);
        if m == 0 {
        } else {
            // m + n - 1 lies in [n, 2n): one subtraction of n brings it home.
            lemma_add_mod_noop((m - 1) as int, n as int, n as int);
            lemma_mod_self_0(n as int);
            lemma_small_mod((m - 1) as nat, n as nat);
        }
    }
    if m == 0 {
        n - 1
    } else {
        m - 1
    }
}

/// What a tile is filled with.
///
/// Only one of these things can be in a tile at a time.
#[derive(PartialEq, Eq, Structural, Copy, Clone, Debug)]
pub enum Tile {
    /// A snake body, belonging to the snake with given `id`,
    /// where `index = 0` is the tip of the tail.
    SnakeBody { id: SnakeID, index: usize },
    /// A snake head, belonging to the snake with given `id`, in given `dir`.
    SnakeHead { id: SnakeID, dir: Direction },
    /// A doodah to collect.
    Doodah,
    /// A wall that cannot be hit or walked through.
    Wall,
    /// Empty space.
    Blank,
}

/// What a snake is, as a mathematical value.
pub struct SnakeView {
    pub dir: Direction,
    pub head: Position,
    /// The tail, oldest segment first.
    pub body: Seq<Position>,
}

impl SnakeView {
    /// The snake after it moved one cell and kept its whole tail.
    pub open spec fn grown(self, dims: Dimensions) -> SnakeView {
        SnakeView {
            dir: self.dir,
            head: next_cell(dims, self.dir, self.head),
            body: self.body.push(self.head),
        }
    }

    /// The snake after it moved one cell and let go of its oldest segment.
    pub open spec fn stepped(self, dims: Dimensions) -> SnakeView {
        SnakeView {
            dir: self.dir,
            head: next_cell(dims, self.dir, self.head),
            body: self.body.push(self.head).drop_first(),
        }
    }

    /// Whether this snake's head lies on `other`'s head or tail.
    pub open spec fn hits(self, other: SnakeView) -> bool {
        self.head == other.head || other.body.contains(self.head)
    }

    /// Whether this snake's head lies on its own tail.
    pub open spec fn hits_itself(self) -> bool {
        self.body.contains(self.head)
    }
}

/// Keep track of where the snake is and where it's going.
#[derive(Debug)]
pub struct Snake {
    /// The direction the snake was last heading.
    pub dir: Direction,
    /// Where the snake's head currently is.
    pub head: Position,
    /// The position of the snake's tail (not including the head).
    ///
    /// `body[0]` is the end of the tail (if it exists), and higher indices
    /// get closer and closer to the `head` position.
    pub body: VecDeque<Position>,
}

impl View for Snake {
    type V = SnakeView;

    open spec fn view(&self) -> SnakeView {
        SnakeView { dir: self.dir, head: self.head, body: self.body@ }
    }
}

impl Clone for Snake {
    fn clone(&self) -> (s: Snake)
        ensures
            s@ == self@,
    {
        let mut body: VecDeque<Position> = VecDeque::new();
        let mut i: usize = 0;
        while i < self.body.len()
            invariant
                i <= self.body@.len(),
                body@ == self.body@.take(i as int),
            decreases self.body@.len() - i,
        {
            let part = self.body[i];
            body.push_back((part.0, part.1));
            i += 1;
        }
        assert(body@ =~= self.body@);
        Snake { dir: self.dir, head: (self.head.0, self.head.1), body }
    }
}

impl Snake {
    /// Create a new snake.
    pub fn new(dir: Direction, head: Position) -> (s: Snake)
        ensures
            s@ == (SnakeView { dir, head, body: Seq::empty() }),
    {
        Snake { dir, head, body: VecDeque::new() }
    }

    /// Get the number of doodahs eaten by this snake.
    pub fn score(&self) -> (n: usize)
        ensures
            n == self@.body.len(),
    {
        self.body.len()
    }

    /// Get the new head position if the snake were to move.
    pub fn next_head_pos(&self, map: Dimensions) -> (p: Position)
        requires
            self.dir == Direction::North || self.dir == Direction::South ==> map.height > 0,
            self.dir == Direction::East || self.dir == Direction::West ==> map.width > 0,
        ensures
            p == next_cell(map, self.dir, self.head),
    {
        let (x, y) = self.head;
        match self.dir {
            Direction::North => (x, wrap_up(y, map.height)),
            Direction::South => (x, wrap_down(y, map.height)),
            Direction::East => (wrap_up(x, map.width), y),
            Direction::West => (wrap_down(x, map.width), y),
        }
    }

    /// Move the snake one step in the direction it's facing.
    ///
    /// Returns the spot that has now been freed.
    pub fn step(&mut self, map: Dimensions) -> (freed: Position)
        requires
            old(self).dir == Direction::North || old(self).dir == Direction::South ==> map.height
                > 0,
            old(self).dir == Direction::East || old(self).dir == Direction::West ==> map.width > 0,
        ensures
            final(self)@ == old(self)@.stepped(map),
            freed == old(self)@.body.push(old(self).head)[0],
    {
        self.body.push_back(self.head);
        self.head = self.next_head_pos(map);
        match self.body.pop_front() {
            Some(freed) => freed,
            None => self.head,
        }
    }

    /// Grow the snake one step in the direction it's facing.
    ///
    /// This is like a step, except the snake doesn't remove
    /// its last segment, and thus nothing is returned.
    pub fn grow(&mut self, map: Dimensions)
        requires
            old(self).dir == Direction::North || old(self).dir == Direction::South ==> map.height
                > 0,
            old(self).dir == Direction::East || old(self).dir == Direction::West ==> map.width > 0,
        ensures
            final(self)@ == old(self)@.grown(map),
    {
        self.body.push_back(self.head);
        self.head = self.next_head_pos(map);
    }

    /// Test if we have collided with another snake.
    ///
    /// Doesn't test for self-comparison.
    pub fn has_collided(&self, other: &Snake) -> (hit: bool)
        ensures
            hit == self@.hits(other@),
    {
        if self.head.0 == other.head.0 && self.head.1 == other.head.1 {
            return true;
        }
        lies_on(&other.body, self.head)
    }

    /// Test if we have collided with ourselves.
    pub fn has_self_collided(&self) -> (hit: bool)
        ensures
            hit == self@.hits_itself(),
    {
        lies_on(&self.body, self.head)
    }
}

/// Whether `cell` is one of `parts`.
fn lies_on(parts: &VecDeque<Position>, cell: Position) -> (found: bool)
    ensures
        found == parts@.contains(cell),
{
    let mut i: usize = 0;
    while i < parts.len()
        invariant
            i <= parts@.len(),
            forall|j: int| 0 <= j < i ==> parts@[j] != cell,
        decreases parts@.len() - i,
    {
        let part = parts[i];
        if part.0 == cell.0 && part.1 == cell.1 {
            return true;
        }
        i += 1;
    }
    false
}


broadcast use vstd::std_specs::hash::group_hash_axioms;

/// The keys of `m`, each once, in the order the table hands them out.
fn ids_of<V>(m: &HashMap<SnakeID, V>) -> (ids: Vec<SnakeID>)
    ensures
        ids@.no_duplicates(),
        forall|id: SnakeID| ids@.contains(id) <==> m@.contains_key(id),
{
    let mut ids: Vec<SnakeID> = Vec::new();
    for id in it: m.keys()
        invariant
            ids@.len() == it.index(),
            forall|j: int| 0 <= j < ids@.len() ==> ids@[j] == *it.seq()[j],
            it.seq() == m.keys().remaining(),
    {
        ids.push(*id);
    }
    proof {
        let keys = m.keys().remaining();
        assert(ids@ =~= keys.unref());
        assert forall|id: SnakeID| ids@.contains(id) <==> m@.contains_key(id) by {
            assert(keys.unref().to_set().contains(id) <==> m@.dom().contains(id));
        }
    }
    ids
}


/// The snakes of a table as mathematical values.
pub open spec fn views_of(snakes: Map<SnakeID, Snake>) -> Map<SnakeID, SnakeView> {
    Map::new(|id: SnakeID| snakes.contains_key(id), |id: SnakeID| snakes[id]@)
}

/// The scores of a table as natural numbers.
pub open spec fn scores_of(scores: Map<SnakeID, usize>) -> Map<SnakeID, nat> {
    Map::new(|id: SnakeID| scores.contains_key(id), |id: SnakeID| scores[id] as nat)
}

/// The tile grid.
#[derive(Debug)]
pub struct Grid {
    /// Dimensions of the grid.
    dims: Dimensions,
    /// The tiles occupying the field, row by row.
    tiles: Vec<Tile>,
    /// Currently living snakes.
    snakes: HashMap<SnakeID, Snake>,
    /// Scores for all snakes in the game.
    scores: HashMap<SnakeID, usize>,
}

impl View for Grid {
    type V = GridView;

    closed spec fn view(&self) -> GridView {
        GridView {
            dims: self.dims,
            tiles: self.tiles@,
            snakes: views_of(self.snakes@),
            scores: scores_of(self.scores@),
        }
    }
}

/// A copy of a list of tiles.
pub fn copy_tiles(tiles: &Vec<Tile>) -> (copy: Vec<Tile>)
    ensures
        copy@ == tiles@,
{
    let mut copy: Vec<Tile> = Vec::new();
    let mut i: usize = 0;
    while i < tiles.len()
        invariant
            i <= tiles@.len(),
            copy@ == tiles@.take(i as int),
        decreases tiles@.len() - i,
    {
        copy.push(tiles[i]);
        i += 1;
    }
    assert(copy@ =~= tiles@);
    copy
}

impl Clone for Grid {
    fn clone(&self) -> (copy: Grid)
        ensures
            copy@ == self@,
    {
        Grid {
            dims: self.dims,
            tiles: copy_tiles(&self.tiles),
            snakes: self.snakes.clone(),
            scores: self.scores.clone(),
        }
    }
}

impl Grid {
    /// Whether the grid is one the game can be played on.
    pub open spec fn wf(&self) -> bool {
        self@.wf()
    }

    /// Create a new grid with given `width` and `height`, initialised with
    /// the provided `tiles`, which must cover the whole grid and hold only
    /// [`Tile::Wall`] and [`Tile::Blank`].
    ///
    /// Each of `snakes`, as far as there are blank tiles, gets a new snake
    /// on a blank tile of its own, chosen at random, with a heading chosen
    /// at random. Then a doodah is put on one of the blank tiles that are
    /// left, chosen at random, if one is left.
    pub fn new(width: usize, height: usize, tiles: Vec<Tile>, snakes: Vec<SnakeID>) -> (grid: Grid)
        requires
            tiles@.len() == width * height,
            plain(tiles@),
        ensures
            grid.wf(),
            exists|cells: Seq<usize>, headings: Seq<Direction>| #[trigger]
                fresh(grid@, Dimensions { width, height }, tiles@, snakes@, cells, headings),
    {
        let blank_spots = blank_indices(&tiles);
        let amount = if snakes.len() <= blank_spots.len() {
            snakes.len()
        } else {
            blank_spots.len()
        };
        let cells = choose_several(&blank_spots, amount);
        proof {
            blank_spots@.unique_seq_to_set();
            blank_spots@.lemma_multiset_has_no_duplicates();
            assert forall|x: usize| cells@.to_multiset().contains(x) implies cells@.to_multiset().count(
                x,
            ) == 1 by {
                assert(cells@.to_multiset().count(x) <= blank_spots@.to_multiset().count(x));
                assert(blank_spots@.to_multiset().contains(x));
            }
            cells@.lemma_multiset_has_no_duplicates_conv();
            assert forall|k: int| 0 <= k < cells@.len() implies #[trigger] cells@[k] < tiles@.len()
                && tiles@[cells@[k] as int] == Tile::Blank by {
                let x = cells@[k];
                assert(cells@.contains(x));
                vstd::seq_lib::to_multiset_contains(cells@, x);
                assert(cells@.to_multiset().count(x) <= blank_spots@.to_multiset().count(x));
                vstd::seq_lib::to_multiset_contains(blank_spots@, x);
                assert(blank_spots@.to_set().contains(x));
            }
        }
        let mut headings: Vec<Direction> = Vec::new();
        while headings.len() < cells.len()
            invariant
                headings@.len() <= cells@.len(),
            decreases cells@.len() - headings@.len(),
        {
            headings.push(Direction::sample());
        }
        proof {
            lemma_seeded_wf(Dimensions { width, height }, tiles@, snakes@, cells@, headings@);
        }
        let mut me = Grid::with_snakes(width, height, tiles, snakes, cells, headings);
        me.place_doodah();
        assert(fresh(me@, Dimensions { width, height }, tiles@, snakes@, cells@, headings@));
        me
    }

    /// Create a new grid with given `width` and `height`, initialised with
    /// the provided `tiles`, with a new snake for each of `cells`: the
    /// snake `snakes[k]` lies on the tile with index `cells[k]` and heads
    /// in direction `headings[k]`. The grid holds no doodah.
    pub fn with_snakes(
        width: usize,
        height: usize,
        tiles: Vec<Tile>,
        snakes: Vec<SnakeID>,
        cells: Vec<usize>,
        headings: Vec<Direction>,
    ) -> (grid: Grid)
        requires
            tiles@.len() == width * height,
            plain(tiles@),
            is_seeding(tiles@, snakes@, cells@, headings@),
        ensures
            grid@ == seeded(Dimensions { width, height }, tiles@, snakes@, cells@, headings@),
            grid.wf(),
    {
        let dims = Dimensions { width, height };
        let mut table: HashMap<SnakeID, Snake> = HashMap::new();
        let mut k: usize = 0;
        assert(views_of(table@) =~= seated(dims, snakes@, cells@, headings@, 0));
        while k < cells.len()
            invariant
                k <= cells@.len(),
                dims == (Dimensions { width, height }),
                tiles@.len() == width * height,
                is_seeding(tiles@, snakes@, cells@, headings@),
                views_of(table@) == seated(dims, snakes@, cells@, headings@, k as nat),
            decreases cells@.len() - k,
        {
            let cell = cells[k];
            proof {
                lemma_cell_at(dims, cell as int);
            }
            let pos = (cell % width, cell / width);
            table.insert(snakes[k], Snake::new(headings[k], pos));
            assert(views_of(table@) =~= seated(dims, snakes@, cells@, headings@, (k + 1) as nat));
            k += 1;
        }
        proof {
            lemma_seated_fits(dims, tiles@, snakes@, cells@, headings@);
            lemma_seeded_wf(dims, tiles@, snakes@, cells@, headings@);
        }
        let mut me = Grid { dims, tiles, snakes: table, scores: HashMap::new() };
        assert(me@.scores =~= Map::<SnakeID, nat>::empty());
        me.update_scores();
        me.place_snakes();
        me
    }

    /// Dimensions of the grid.
    pub fn dims(&self) -> (dims: Dimensions)
        ensures
            dims == self@.dims,
    {
        self.dims
    }

    /// The tiles occupying the field, row by row.
    pub fn tiles(&self) -> (tiles: &Vec<Tile>)
        ensures
            tiles@ == self@.tiles,
    {
        &self.tiles
    }

    /// Scores for all snakes in the game.
    pub fn scores(&self) -> (scores: &HashMap<SnakeID, usize>)
        ensures
            scores_of(scores@) == self@.scores,
    {
        &self.scores
    }

    /// The given snake, if it is alive.
    pub fn snake(&self, id: SnakeID) -> (snake: Option<&Snake>)
        ensures
            match snake {
                Some(s) => self@.snakes.contains_key(id) && s@ == self@.snakes[id],
                None => !self@.snakes.contains_key(id),
            },
    {
        self.snakes.get(&id)
    }

    /// Turn the given snake to the left.
    pub fn turn_left(&mut self, id: SnakeID)
        ensures
            final(self)@.dims == old(self)@.dims,
            final(self)@.tiles == old(self)@.tiles,
            final(self)@.scores == old(self)@.scores,
            final(self)@.snakes == if old(self)@.snakes.contains_key(id) {
                let s = old(self)@.snakes[id];
                old(self)@.snakes.insert(
                    id,
                    SnakeView { dir: s.dir.turned_left(), head: s.head, body: s.body },
                )
            } else {
                old(self)@.snakes
            },
            old(self).wf() ==> final(self).wf(),
    {
        match self.snakes.remove(&id) {
            Some(mut snake) => {
                snake.dir = snake.dir.left();
                self.snakes.insert(id, snake);
            },
            None => {},
        }
        proof {
            let before = old(self)@.snakes;
            let after = self@.snakes;
            if before.contains_key(id) {
                let s = before[id];
                let t = SnakeView { dir: s.dir.turned_left(), head: s.head, body: s.body };
                assert(after =~= before.insert(id, t));
                if old(self).wf() {
                    lemma_turn_keeps_wf(old(self)@, id, t);
                }
            } else {
                assert(after =~= before);
            }
        }
    }

    /// Turn the given snake to the right.
    pub fn turn_right(&mut self, id: SnakeID)
        ensures
            final(self)@.dims == old(self)@.dims,
            final(self)@.tiles == old(self)@.tiles,
            final(self)@.scores == old(self)@.scores,
            final(self)@.snakes == if old(self)@.snakes.contains_key(id) {
                let s = old(self)@.snakes[id];
                old(self)@.snakes.insert(
                    id,
                    SnakeView { dir: s.dir.turned_right(), head: s.head, body: s.body },
                )
            } else {
                old(self)@.snakes
            },
            old(self).wf() ==> final(self).wf(),
    {
        match self.snakes.remove(&id) {
            Some(mut snake) => {
                snake.dir = snake.dir.right();
                self.snakes.insert(id, snake);
            },
            None => {},
        }
        proof {
            let before = old(self)@.snakes;
            let after = self@.snakes;
            if before.contains_key(id) {
                let s = before[id];
                let t = SnakeView { dir: s.dir.turned_right(), head: s.head, body: s.body };
                assert(after =~= before.insert(id, t));
                if old(self).wf() {
                    lemma_turn_keeps_wf(old(self)@, id, t);
                }
            } else {
                assert(after =~= before);
            }
        }
    }

    /// Delete the given snake.
    pub fn delete_snake(&mut self, id: SnakeID)
        ensures
            final(self)@.dims == old(self)@.dims,
            final(self)@.tiles == old(self)@.tiles,
            final(self)@.scores == old(self)@.scores,
            final(self)@.snakes == old(self)@.snakes.remove(id),
            old(self).wf() ==> final(self).wf(),
    {
        self.snakes.remove(&id);
        proof {
            assert(self@.snakes =~= old(self)@.snakes.remove(id));
            if old(self).wf() {
                lemma_fewer_keeps_wf(old(self)@, self@);
            }
        }
    }

    /// Test if a snake is still alive.
    pub fn is_alive(&self, id: SnakeID) -> (alive: bool)
        ensures
            alive == self@.snakes.contains_key(id),
    {
        self.snakes.contains_key(&id)
    }

    /// Get the new grid after a time step, without putting a new doodah
    /// down: the grid, and whether a doodah was picked up and is now missing.
    ///
    /// Fails with the final scores when no snake is left.
    pub fn advance(self) -> (r: Result<(Grid, bool), HashMap<SnakeID, usize>>)
        requires
            self.wf(),
        ensures
            match r {
                Ok((next, taken)) => {
                    &&& !self@.finished()
                    &&& next@ == self@.advanced()
                    &&& next.wf()
                    &&& taken == self@.claimed()
                },
                Err(scores) => self@.finished() && scores_of(scores@) == self@.next_scores(),
            },
    {
        let ghost g = self@;
        let mut grid = self;
        proof {
            lemma_swept_moves_alike(g);
            lemma_survivors_fit(g);
            lemma_advanced_wf(g);
        }
        // rebuild tile map, getting rid of the snakes
        grid.cleanup_board();
        // move the snakes and see if they got the doodah
        let got_doodah = grid.move_snakes();
        // if we're out of snakes, we're done
        if grid.snakes.is_empty() {
            proof {
                lemma_scores_at_the_end(g);
            }
            return Err(grid.scores);
        }
        proof {
            assert(grid@.snakes.contains_key(grid.snakes@.dom().choose())) by {
                assert(!grid.snakes@.dom().is_empty());
                assert(grid.snakes@.dom().contains(grid.snakes@.dom().choose()));
            }
        }
        // fill in the tiles with the still living snakes
        grid.place_snakes();
        // fix up the scores
        grid.update_scores();
        proof {
            lemma_scores_in_two_steps(g);
        }
        let ghost board = grid.tiles@;
        // get rid of the doodah that was picked up, if no snake covers it
        let taken = match got_doodah {
            Some(coord) => {
                let idx = grid.to_index(coord);
                if grid.tiles[idx] == Tile::Doodah {
                    grid.tiles[idx] = Tile::Blank;
                }
                true
            },
            None => false,
        };
        proof {
            let wanted = drawn(g.ground(), g.dims, g.survivors());
            assert forall|i: int| 0 <= i < wanted.len() implies grid.tiles@[i] == wanted[i] by {
                assert(board[i] == crate::rules::drawn_tile(g.cleared(), g.dims, g.survivors(), i));
            }
            assert(grid.tiles@ =~= wanted);
        }
        Ok((grid, taken))
    }

    /// Get the new grid after a time step.
    ///
    /// Every snake moves one cell; snakes that run into a wall, into
    /// themselves or into each other are gone. A doodah that was picked up
    /// is replaced by a new one on a blank tile chosen at random, if there
    /// is a blank tile. Fails with the final scores when no snake is left.
    pub fn step(self) -> (r: Result<Grid, HashMap<SnakeID, usize>>)
        requires
            self.wf(),
        ensures
            match r {
                Ok(next) => !self@.finished() && next.wf() && self@.steps_to(next@),
                Err(scores) => self@.finished() && scores_of(scores@) == self@.next_scores(),
            },
    {
        let ghost g = self@;
        match self.advance() {
            Ok((mut next, taken)) => {
                // replace the doodah if it was picked up
                if taken {
                    proof {
                        assert forall|i: int| 0 <= i < next@.tiles.len() implies #[trigger] next@.tiles[i]
                            != Tile::Doodah by {
                            if next@.tiles[i] == Tile::Doodah {
                                crate::rules::lemma_drawn_adds_no_doodah(
                                    g.ground(),
                                    g.dims,
                                    g.survivors(),
                                    i,
                                );
                            }
                        }
                    }
                    next.place_doodah();
                }
                Ok(next)
            },
            Err(scores) => Err(scores),
        }
    }

    /// Place a doodah randomly on a blank tile, if one exists.
    fn place_doodah(&mut self)
        ensures
            final(self)@.dims == old(self)@.dims,
            final(self)@.snakes == old(self)@.snakes,
            final(self)@.scores == old(self)@.scores,
            respawned(old(self)@.tiles, final(self)@.tiles),
            old(self).wf() && no_doodah(old(self)@.tiles) ==> final(self).wf(),
    {
        let blanks = blank_indices(&self.tiles);
        let new_spot = choose_one(&blanks);
        // if there's no free spot, don't worry about it
        match new_spot {
            Some(idx) => {
                assert(blanks@.to_set().contains(idx));
                self.tiles[idx] = Tile::Doodah;
                proof {
                    let before = old(self)@;
                    assert(before.tiles[idx as int] == Tile::Blank);
                    if before.wf() {
                        lemma_doodah_hides_no_snake(
                            before.dims,
                            before.tiles,
                            before.snakes,
                            idx as int,
                        );
                    }
                }
            },
            None => {
                assert forall|i: int| 0 <= i < self.tiles@.len() implies self.tiles@[i]
                    != Tile::Blank by {
                    if self.tiles@[i] == Tile::Blank {
                        assert(self.tiles.len() == self.tiles@.len());
                        assert(blank_cells(self.tiles@).contains(i as usize));
                        assert(blanks@.contains(i as usize));
                    }
                }
            },
        }
    }

    /// Put a doodah on the tile with index `cell`, if that tile is blank and
    /// the grid holds no doodah yet. Says whether it did.
    pub fn set_doodah(&mut self, cell: usize) -> (done: bool)
        ensures
            done <==> cell < old(self)@.tiles.len() && old(self)@.tiles[cell as int] == Tile::Blank
                && no_doodah(old(self)@.tiles),
            final(self)@ == if done {
                GridView { tiles: old(self)@.tiles.update(cell as int, Tile::Doodah), ..old(self)@ }
            } else {
                old(self)@
            },
            old(self).wf() ==> final(self).wf(),
    {
        if cell >= self.tiles.len() {
            return false;
        }
        if !(self.tiles[cell] == Tile::Blank) {
            return false;
        }
        let mut i: usize = 0;
        while i < self.tiles.len()
            invariant
                i <= self.tiles@.len(),
                *self == *old(self),
                forall|j: int| 0 <= j < i ==> #[trigger] self.tiles@[j] != Tile::Doodah,
            decreases self.tiles@.len() - i,
        {
            if self.tiles[i] == Tile::Doodah {
                return false;
            }
            i += 1;
        }
        self.tiles[cell] = Tile::Doodah;
        proof {
            let before = old(self)@;
            if before.wf() {
                lemma_doodah_hides_no_snake(before.dims, before.tiles, before.snakes, cell as int);
            }
        }
        true
    }

    /// Convert from a position to a tile index.
    fn to_index(&self, pos: Position) -> (i: usize)
        requires
            self@.tiles.len() == self@.dims.width * self@.dims.height,
            in_grid(self@.dims, pos),
        ensures
            i == cell_index(self@.dims, pos),
            i < self@.tiles.len(),
    {
        proof {
            lemma_index_in_range(self.dims, pos);
            assert(0 <= pos.1 * self.dims.width) by (nonlinear_arith)
                requires
                    0 <= pos.1,
                    0 <= self.dims.width,
            ;
            assert(self.tiles.len() == self.tiles@.len());
        }
        pos.0 + pos.1 * self.dims.width
    }

    /// Remove all snake parts from the board.
    fn cleanup_board(&mut self)
        ensures
            final(self)@ == (GridView { tiles: old(self)@.cleared(), ..old(self)@ }),
    {
        let mut i: usize = 0;
        while i < self.tiles.len()
            invariant
                i <= self.tiles@.len(),
                self.tiles@.len() == old(self).tiles@.len(),
                self.dims == old(self).dims,
                self.snakes == old(self).snakes,
                self.scores == old(self).scores,
                forall|j: int| 0 <= j < i ==> self.tiles@[j] == old(self).tiles@[j].cleared(),
                forall|j: int| i <= j < self.tiles@.len() ==> self.tiles@[j] == old(self).tiles@[j],
            decreases self.tiles@.len() - i,
        {
            match self.tiles[i] {
                Tile::SnakeBody { .. } | Tile::SnakeHead { .. } => {
                    self.tiles[i] = Tile::Blank;
                },
                _ => {},
            }
            i += 1;
        }
        assert(self@.tiles =~= old(self)@.cleared());
    }

    /// Every snake after its move, and the cell of the doodah if one was
    /// taken. A snake that runs into a wall is left out.
    fn moved_snakes(&self) -> (r: (HashMap<SnakeID, Snake>, Option<Position>))
        requires
            self@.fits(),
            self@.bare(),
        ensures
            views_of(r.0@) == self@.moved(),
            r.1 is Some <==> self@.claimed(),
            r.1 matches Some(cell) ==> in_grid(self@.dims, cell) && 0 <= cell_index(
                self@.dims,
                cell,
            ) < self@.tiles.len() && self@.tiles[cell_index(self@.dims, cell)] == Tile::Doodah,
    {
        let ids = ids_of(&self.snakes);
        let mut moved: HashMap<SnakeID, Snake> = HashMap::new();
        let mut got_doodah: Option<Position> = None;
        let mut k: usize = 0;
        while k < ids.len()
            invariant
                k <= ids@.len(),
                self@.fits(),
                self@.bare(),
                forall|id: SnakeID| ids@.contains(id) <==> self.snakes@.contains_key(id),
                forall|id: SnakeID|
                    moved@.contains_key(id) <==> self@.moved().contains_key(id) && exists|j: int|
                        0 <= j < k && ids@[j] == id,
                forall|id: SnakeID| moved@.contains_key(id) ==> moved@[id]@ == self@.moved()[id],
                got_doodah is Some <==> exists|j: int|
                    0 <= j < k && self@.ahead(#[trigger] ids@[j]) == Tile::Doodah,
                got_doodah matches Some(cell) ==> in_grid(self@.dims, cell) && 0 <= cell_index(
                    self@.dims,
                    cell,
                ) < self@.tiles.len() && self@.tiles[cell_index(self@.dims, cell)] == Tile::Doodah,
            decreases ids@.len() - k,
        {
            let id = ids[k];
            assert(ids@.contains(id));
            match self.snakes.get(&id) {
                Some(found) => {
                    let mut snake = found.clone();
                    proof {
                        assert(self@.snakes[id].within(self@.dims));
                        assert(snake@.cells()[snake@.body.len() as int] == snake@.head);
                        lemma_next_cell_in_grid(self@.dims, snake@.dir, snake@.head);
                    }
                    let new_head = snake.next_head_pos(self.dims);
                    let head_idx = self.to_index(new_head);
                    match self.tiles[head_idx] {
                        Tile::Doodah => {
                            snake.grow(self.dims);
                            got_doodah = Some(new_head);
                            moved.insert(id, snake);
                        },
                        Tile::Blank => {
                            snake.step(self.dims);
                            moved.insert(id, snake);
                        },
                        Tile::Wall => {},
                        _ => {
                            assert(self@.tiles[head_idx as int].is_snake());
                            vstd::pervasive::unreached::<()>()
                        },
                    }
                },
                None => {},
            }
            k += 1;
        }
        proof {
            assert forall|id: SnakeID| moved@.contains_key(id) <==> self@.moved().contains_key(
                id,
            ) by {
                if self@.moved().contains_key(id) {
                    assert(ids@.contains(id));
                }
            }
            assert(views_of(moved@) =~= self@.moved());
            if self@.claimed() {
                let id = choose|id: SnakeID|
                    self@.snakes.contains_key(id) && self@.ahead(id) == Tile::Doodah;
                assert(ids@.contains(id));
                let j = choose|j: int| 0 <= j < ids@.len() && ids@[j] == id;
                assert(self@.ahead(ids@[j]) == Tile::Doodah);
            }
            if got_doodah is Some {
                let j = choose|j: int|
                    0 <= j < k && self@.ahead(#[trigger] ids@[j]) == Tile::Doodah;
                assert(ids@.contains(ids@[j]));
                assert(self@.snakes.contains_key(ids@[j]));
            }
        }
        (moved, got_doodah)
    }

    /// Place all snake parts onto the board.
    fn place_snakes(&mut self)
        requires
            old(self)@.fits(),
            apart(old(self)@.snakes),
        ensures
            final(self)@ == (GridView {
                tiles: drawn(old(self)@.tiles, old(self)@.dims, old(self)@.snakes),
                ..old(self)@
            }),
    {
        let ids = ids_of(&self.snakes);
        let ghost base = self.tiles@;
        let ghost dims = self.dims;
        let ghost snakes = self@.snakes;
        let mut k: usize = 0;
        proof {
            if ids@.len() > 0 {
                lemma_seen_next(ids@, 0);
            }
            assert forall|i: int| 0 <= i < base.len() implies !crate::rules::covered(
                dims,
                snakes,
                ids@,
                0,
                i,
            ) by {
                if crate::rules::covered(dims, snakes, ids@, 0, i) {
                    let id = choose|id: SnakeID|
                        #![trigger seen(ids@, 0, id)]
                        seen(ids@, 0, id) && snakes.contains_key(id) && touches(
                            dims,
                            snakes[id],
                            i,
                        );
                    assert(seen(ids@, 0, id));
                    let j = choose|j: int| 0 <= j < 0 && j < ids@.len() && ids@[j] == id;
                }
            }
        }
        while k < ids.len()
            invariant
                k <= ids@.len(),
                self.dims == old(self).dims,
                self.snakes == old(self).snakes,
                self.scores == old(self).scores,
                dims == self.dims,
                snakes == self@.snakes,
                base.len() == dims.width * dims.height,
                all_within(dims, snakes),
                apart(snakes),
                ids@.no_duplicates(),
                forall|id: SnakeID|
                    #![trigger ids@.contains(id)]
                    ids@.contains(id) <==> self.snakes@.contains_key(id),
                drawn_so_far(base, dims, snakes, ids@, k as int, self.tiles@),
            decreases ids@.len() - k,
        {
            let id = ids[k];
            assert(ids@.contains(id));
            assert(self.snakes@.contains_key(id));
            match self.snakes.get(&id) {
                Some(snake) => {
                    let ghost before = self.tiles@;
                    let ghost s = snake@;
                    proof {
                        assert(s == snakes[id]);
                        assert(s.within(dims));
                        assert(s.cells()[s.body.len() as int] == s.head);
                        assert(in_grid(dims, s.head));
                    }
                    let head_idx = self.to_index(snake.head);
                    self.tiles[head_idx] = Tile::SnakeHead { id, dir: snake.dir };
                    let mut j: usize = 0;
                    while j < snake.body.len()
                        invariant
                            j <= s.body.len(),
                            s == snake@,
                            s == snakes[id],
                            snakes.contains_key(id),
                            self.dims == dims,
                            self.snakes == old(self).snakes,
                            self.scores == old(self).scores,
                            self.tiles@.len() == before.len(),
                            before.len() == dims.width * dims.height,
                            all_within(dims, snakes),
                            apart(snakes),
                            head_idx == cell_index(dims, s.head),
                            head_idx < before.len(),
                            self.tiles@[head_idx as int] == (Tile::SnakeHead { id, dir: s.dir }),
                            forall|m: int|
                                #![trigger s.body[m]]
                                0 <= m < j ==> 0 <= cell_index(dims, s.body[m]) < before.len()
                                    && self.tiles@[cell_index(dims, s.body[m])] == (Tile::SnakeBody {
                                    id,
                                    index: m as usize,
                                }),
                            forall|i: int|
                                #![trigger self.tiles@[i]]
                                0 <= i < before.len() && !touches(dims, s, i) ==> self.tiles@[i]
                                    == before[i],
                        decreases s.body.len() - j,
                    {
                        let part = snake.body[j];
                        proof {
                            assert(s.cells()[j as int] == s.body[j as int]);
                            assert(in_grid(dims, s.cells()[j as int]));
                        }
                        let part_idx = self.to_index(part);
                        proof {
                            assert(touches(dims, s, part_idx as int));
                            if part_idx == head_idx {
                                lemma_one_part_per_cell(
                                    dims,
                                    snakes,
                                    id,
                                    j as int,
                                    id,
                                    s.body.len() as int,
                                );
                            }
                            assert forall|m: int| 0 <= m < j implies cell_index(
                                dims,
                                #[trigger] s.body[m],
                            ) != part_idx by {
                                assert(s.cells()[m] == s.body[m]);
                                if cell_index(dims, s.body[m]) == part_idx {
                                    lemma_one_part_per_cell(dims, snakes, id, m, id, j as int);
                                }
                            }
                        }
                        self.tiles[part_idx] = Tile::SnakeBody { id, index: j };
                        j += 1;
                    }
                    proof {
                        assert(crate::rules::one_drawn(dims, id, s, before, self.tiles@));
                        lemma_draw_next(base, dims, snakes, ids@, k as int, before, self.tiles@);
                    }
                },
                None => {
                    assert(false);
                },
            }
            k += 1;
        }
        proof {
            assert forall|id: SnakeID, i: int|
                #![trigger crate::rules::head_at(dims, snakes, id, i)]
                crate::rules::head_at(dims, snakes, id, i) implies 0 <= i < self.tiles@.len() by {
                let s = snakes[id];
                assert(s.within(dims));
                assert(s.cells()[s.body.len() as int] == s.head);
                lemma_index_in_range(dims, s.head);
            }
            assert forall|id: SnakeID, j: int, i: int|
                #![trigger crate::rules::segment_at(dims, snakes, id, j, i)]
                crate::rules::segment_at(dims, snakes, id, j, i) implies 0 <= i
                < self.tiles@.len() by {
                let s = snakes[id];
                assert(s.within(dims));
                assert(s.cells()[j] == s.body[j]);
                lemma_index_in_range(dims, s.body[j]);
            }
            lemma_all_drawn(base, dims, snakes, ids@, self.tiles@);
        }
    }

    /// Update the scores for living snakes.
    fn update_scores(&mut self)
        ensures
            final(self)@ == (GridView {
                scores: recorded(old(self)@.scores, old(self)@.snakes),
                ..old(self)@
            }),
    {
        let ids = ids_of(&self.snakes);
        let ghost scores = self.scores@;
        let mut k: usize = 0;
        proof {
            if ids@.len() > 0 {
                lemma_seen_next(ids@, 0);
            }
        }
        while k < ids.len()
            invariant
                k <= ids@.len(),
                self.dims == old(self).dims,
                self.tiles == old(self).tiles,
                self.snakes == old(self).snakes,
                scores == old(self).scores@,
                forall|id: SnakeID|
                    #![trigger ids@.contains(id)]
                    ids@.contains(id) <==> self.snakes@.contains_key(id),
                forall|id: SnakeID|
                    #![trigger self.scores@.contains_key(id)]
                    self.scores@.contains_key(id) <==> scores.contains_key(id) || seen(
                        ids@,
                        k as int,
                        id,
                    ),
                forall|id: SnakeID|
                    #![trigger self.scores@[id]]
                    self.scores@.contains_key(id) ==> self.scores@[id] == if seen(
                        ids@,
                        k as int,
                        id,
                    ) {
                        self.snakes@[id]@.body.len()
                    } else {
                        scores[id] as nat
                    },
            decreases ids@.len() - k,
        {
            let id = ids[k];
            proof {
                assert(ids@.contains(id));
                lemma_seen_next(ids@, k as int);
            }
            match self.snakes.get(&id) {
                Some(snake) => {
                    self.scores.insert(id, snake.score());
                },
                None => {
                    assert(false);
                },
            }
            k += 1;
        }
        proof {
            lemma_seen_all(ids@);
            let table = scores_of(self.scores@);
            let wanted = recorded(old(self)@.scores, old(self)@.snakes);
            assert forall|id: SnakeID| table.contains_key(id) <==> wanted.contains_key(id) by {
                assert(self.scores@.contains_key(id) <==> scores.contains_key(id) || seen(
                    ids@,
                    k as int,
                    id,
                ));
                assert(ids@.contains(id) <==> self.snakes@.contains_key(id));
            }
            assert forall|id: SnakeID| table.contains_key(id) implies table[id] == wanted[id] by {
                assert(ids@.contains(id) <==> self.snakes@.contains_key(id));
                assert(self.scores@[id] == if seen(ids@, k as int, id) {
                    self.snakes@[id]@.body.len()
                } else {
                    scores[id] as nat
                });
            }
            assert(table =~= wanted);
        }
    }

    /// Move the snakes one step.
    ///
    /// Should be called after `cleanup_board`. A snake that runs into a wall
    /// is gone; a snake that then lies on itself or on another is gone too,
    /// and its score is set to the length it died with.
    ///
    /// If a snake got the doodah, returns the doodah's position.
    fn move_snakes(&mut self) -> (got_doodah: Option<Position>)
        requires
            old(self)@.fits(),
            old(self)@.bare(),
        ensures
            final(self)@.dims == old(self)@.dims,
            final(self)@.tiles == old(self)@.tiles,
            final(self)@.snakes == old(self)@.survivors(),
            final(self)@.scores == recorded(old(self)@.scores, old(self)@.fallen()),
            got_doodah is Some <==> old(self)@.claimed(),
            got_doodah matches Some(cell) ==> in_grid(old(self)@.dims, cell) && 0 <= cell_index(
                old(self)@.dims,
                cell,
            ) < old(self)@.tiles.len() && old(self)@.tiles[cell_index(old(self)@.dims, cell)]
                == Tile::Doodah,
    {
        let (mut moved, got_doodah) = self.moved_snakes();
        let doomed = crashed_ids(&moved);
        let ghost all = views_of(moved@);
        let ghost scores = self.scores@;
        assert(all == old(self)@.moved());
        let mut k: usize = 0;
        proof {
            if doomed@.len() > 0 {
                lemma_seen_next(doomed@, 0);
            }
        }
        while k < doomed.len()
            invariant
                k <= doomed@.len(),
                self.dims == old(self).dims,
                self.tiles == old(self).tiles,
                self.snakes == old(self).snakes,
                all == old(self)@.moved(),
                scores == old(self).scores@,
                doomed@.no_duplicates(),
                forall|id: SnakeID|
                    #![trigger doomed@.contains(id)]
                    doomed@.contains(id) <==> all.contains_key(id) && crashed(all, id),
                forall|id: SnakeID|
                    #![trigger moved@.contains_key(id)]
                    moved@.contains_key(id) <==> all.contains_key(id) && !seen(
                        doomed@,
                        k as int,
                        id,
                    ),
                forall|id: SnakeID|
                    #![trigger moved@[id]]
                    moved@.contains_key(id) ==> moved@[id]@ == all[id],
                forall|id: SnakeID|
                    #![trigger self.scores@.contains_key(id)]
                    self.scores@.contains_key(id) <==> scores.contains_key(id) || seen(
                        doomed@,
                        k as int,
                        id,
                    ),
                forall|id: SnakeID|
                    #![trigger self.scores@[id]]
                    self.scores@.contains_key(id) ==> self.scores@[id] == if seen(
                        doomed@,
                        k as int,
                        id,
                    ) {
                        all[id].body.len()
                    } else {
                        scores[id] as nat
                    },
            decreases doomed@.len() - k,
        {
            let id = doomed[k];
            proof {
                assert(doomed@.contains(id));
                lemma_seen_next(doomed@, k as int);
                if seen(doomed@, k as int, id) {
                    let j = choose|j: int| 0 <= j < k && j < doomed@.len() && doomed@[j] == id;
                    assert(doomed@[j] == doomed@[k as int]);
                }
                assert(moved@.contains_key(id));
            }
            match moved.remove(&id) {
                Some(snake) => {
                    self.scores.insert(id, snake.score());
                },
                None => {
                    assert(false);
                },
            }
            k += 1;
        }
        proof {
            lemma_seen_all(doomed@);
            let after = views_of(moved@);
            let alive = old(self)@.survivors();
            assert forall|id: SnakeID| after.contains_key(id) <==> alive.contains_key(id) by {
                assert(moved@.contains_key(id) <==> all.contains_key(id) && !seen(
                    doomed@,
                    k as int,
                    id,
                ));
                assert(doomed@.contains(id) <==> all.contains_key(id) && crashed(all, id));
            }
            assert forall|id: SnakeID| after.contains_key(id) implies after[id] == alive[id] by {
                assert(moved@[id]@ == all[id]);
            }
            assert(after =~= alive);
            let table = scores_of(self.scores@);
            let wanted = recorded(old(self)@.scores, old(self)@.fallen());
            assert forall|id: SnakeID| table.contains_key(id) <==> wanted.contains_key(id) by {
                assert(self.scores@.contains_key(id) <==> scores.contains_key(id) || seen(
                    doomed@,
                    k as int,
                    id,
                ));
                assert(doomed@.contains(id) <==> all.contains_key(id) && crashed(all, id));
            }
            assert forall|id: SnakeID| table.contains_key(id) implies table[id] == wanted[id] by {
                assert(doomed@.contains(id) <==> all.contains_key(id) && crashed(all, id));
                assert(self.scores@[id] == if seen(doomed@, k as int, id) {
                    all[id].body.len()
                } else {
                    scores[id] as nat
                });
            }
            assert(table =~= wanted);
        }
        self.snakes = moved;
        got_doodah
    }
}

/// The indices of the blank tiles, in rising order.
fn blank_indices(tiles: &Vec<Tile>) -> (blanks: Vec<usize>)
    ensures
        blanks@.no_duplicates(),
        blanks@.to_set() == blank_cells(tiles@),
{
    let mut blanks: Vec<usize> = Vec::new();
    let mut i: usize = 0;
    while i < tiles.len()
        invariant
            i <= tiles@.len(),
            forall|a: int, b: int| 0 <= a < b < blanks@.len() ==> blanks@[a] < blanks@[b],
            forall|a: int| 0 <= a < blanks@.len() ==> #[trigger] blanks@[a] < i && tiles@[blanks@[a] as int]
                == Tile::Blank,
            forall|j: usize|
                j < i && tiles@[j as int] == Tile::Blank ==> #[trigger] blanks@.contains(j),
        decreases tiles@.len() - i,
    {
        if tiles[i] == Tile::Blank {
            proof {
                lemma_push_contains(blanks@, i);
            }
            blanks.push(i);
        }
        i += 1;
    }
    assert(blanks@.to_set() =~= blank_cells(tiles@));
    blanks
}

/// What a list holds after one more was pushed.
proof fn lemma_push_contains(list: Seq<SnakeID>, id: SnakeID)
    ensures
        forall|other: SnakeID|
            #![trigger list.push(id).contains(other)]
            list.push(id).contains(other) <==> other == id || list.contains(other),
        list.no_duplicates() && !list.contains(id) ==> list.push(id).no_duplicates(),
{
    assert forall|other: SnakeID|
        #![trigger list.push(id).contains(other)]
        list.push(id).contains(other) <==> other == id || list.contains(other) by {
        if list.contains(other) {
            let i = choose|i: int| 0 <= i < list.len() && list[i] == other;
            assert(list.push(id)[i] == other);
        }
        if other == id {
            assert(list.push(id)[list.len() as int] == id);
        }
        if list.push(id).contains(other) && other != id {
            let i = choose|i: int| 0 <= i < list.push(id).len() && list.push(id)[i] == other;
            assert(list[i] == other);
        }
    }
    if list.no_duplicates() && !list.contains(id) {
        assert forall|i: int, j: int|
            0 <= i < list.push(id).len() && 0 <= j < list.push(id).len() && i != j implies list.push(
            id,
        )[i] != list.push(id)[j] by {
            if i < list.len() {
                assert(list.contains(list[i]));
            }
            if j < list.len() {
                assert(list.contains(list[j]));
            }
        }
    }
}

/// Whether snake `id` has run into itself or into one of the first `n` of `ids`.
pub open spec fn crashed_among(
    snakes: Map<SnakeID, SnakeView>,
    ids: Seq<SnakeID>,
    n: int,
    id: SnakeID,
) -> bool {
    snakes[id].hits_itself() || exists|other: SnakeID|
        other != id && seen(ids, n, other) && snakes.contains_key(other) && snakes[id].hits(
            #[trigger] snakes[other],
        )
}

/// The snakes that have run into themselves or into another of the table.
fn crashed_ids(snakes: &HashMap<SnakeID, Snake>) -> (doomed: Vec<SnakeID>)
    ensures
        doomed@.no_duplicates(),
        forall|id: SnakeID|
            doomed@.contains(id) <==> snakes@.contains_key(id) && crashed(views_of(snakes@), id),
{
    let ghost views = views_of(snakes@);
    let ids = ids_of(snakes);
    let mut doomed: Vec<SnakeID> = Vec::new();
    let mut k: usize = 0;
    proof {
        if ids@.len() > 0 {
            lemma_seen_next(ids@, 0);
        }
    }
    while k < ids.len()
        invariant
            k <= ids@.len(),
            views == views_of(snakes@),
            ids@.no_duplicates(),
            forall|id: SnakeID| ids@.contains(id) <==> snakes@.contains_key(id),
            doomed@.no_duplicates(),
            forall|id: SnakeID|
                #![trigger doomed@.contains(id)]
                #![trigger seen(ids@, k as int, id)]
                doomed@.contains(id) <==> crashed(views, id) && seen(ids@, k as int, id),
        decreases ids@.len() - k,
    {
        let id = ids[k];
        assert(ids@.contains(id));
        let ghost before = doomed@;
        assert(snakes@.contains_key(id));
        match snakes.get(&id) {
            Some(snake) => {
                let mut hit = snake.has_self_collided();
                let mut n: usize = 0;
                proof {
                    lemma_seen_next(ids@, 0);
                }
                while n < ids.len()
                    invariant
                        n <= ids@.len(),
                        views == views_of(snakes@),
                        snakes@.contains_key(id),
                        snake@ == views[id],
                        forall|id: SnakeID| ids@.contains(id) <==> snakes@.contains_key(id),
                        hit <==> crashed_among(views, ids@, n as int, id),
                    decreases ids@.len() - n,
                {
                    let other_id = ids[n];
                    assert(ids@.contains(other_id));
                    let ghost was = hit;
                    let mut strikes = false;
                    if other_id != id {
                        match snakes.get(&other_id) {
                            Some(other) => {
                                strikes = snake.has_collided(other);
                            },
                            None => {},
                        }
                    }
                    if strikes {
                        hit = true;
                    }
                    proof {
                        lemma_seen_next(ids@, n as int);
                        assert(strikes <==> other_id != id && views[id].hits(views[other_id]));
                        if crashed_among(views, ids@, n + 1, id) && !views[id].hits_itself() {
                            let other = choose|other: SnakeID|
                                other != id && seen(ids@, n + 1, other) && views.contains_key(other)
                                    && views[id].hits(#[trigger] views[other]);
                            if other != other_id {
                                assert(seen(ids@, n as int, other));
                                assert(crashed_among(views, ids@, n as int, id));
                            }
                        }
                        if was && !views[id].hits_itself() {
                            let other = choose|other: SnakeID|
                                other != id && seen(ids@, n as int, other) && views.contains_key(
                                    other,
                                ) && views[id].hits(#[trigger] views[other]);
                            assert(seen(ids@, n + 1, other));
                        }
                        if strikes {
                            assert(seen(ids@, n + 1, other_id));
                            assert(views.contains_key(other_id));
                            assert(views[id].hits(views[other_id]));
                        }
                    }
                    n += 1;
                }
                proof {
                    lemma_seen_all(ids@);
                    if crashed(views, id) && !views[id].hits_itself() {
                        let other = choose|other: SnakeID|
                            other != id && views.contains_key(other) && views[id].hits(
                                #[trigger] views[other],
                            );
                        assert(ids@.contains(other));
                        assert(seen(ids@, n as int, other));
                    }
                    if hit && !views[id].hits_itself() {
                        let other = choose|other: SnakeID|
                            other != id && seen(ids@, n as int, other) && views.contains_key(other)
                                && views[id].hits(#[trigger] views[other]);
                        assert(crashed(views, id));
                    }
                    assert(hit == crashed(views, id));
                }
                proof {
                    if seen(ids@, k as int, id) {
                        let j = choose|j: int| 0 <= j < k && j < ids@.len() && ids@[j] == id;
                        assert(ids@[j] == ids@[k as int]);
                    }
                    assert(!before.contains(id));
                    lemma_push_contains(before, id);
                    lemma_seen_next(ids@, k as int);
                }
                if hit {
                    doomed.push(id);
                }
                assert forall|other: SnakeID|
                    #![trigger doomed@.contains(other)]
                    #![trigger seen(ids@, k + 1, other)]
                    doomed@.contains(other) <==> crashed(views, other) && seen(
                        ids@,
                        k + 1,
                        other,
                    ) by {
                    assert(before.contains(other) <==> crashed(views, other) && seen(
                        ids@,
                        k as int,
                        other,
                    ));
                    assert(seen(ids@, k + 1, other) <==> seen(ids@, k as int, other) || other == id);
                    if hit {
                        assert(doomed@ == before.push(id));
                        assert(before.push(id).contains(other) <==> other == id || before.contains(
                            other,
                        ));
                    }
                }
            },
            None => {
                assert(false);
            },
        }
        k += 1;
    }
    proof {
        lemma_seen_all(ids@);
        assert(k == ids@.len());
        assert forall|id: SnakeID|
            doomed@.contains(id) <==> snakes@.contains_key(id) && crashed(views, id) by {
            assert(seen(ids@, k as int, id) <==> ids@.contains(id));
            assert(ids@.contains(id) <==> snakes@.contains_key(id));
            assert(doomed@.contains(id) <==> crashed(views, id) && seen(ids@, k as int, id));
        }
    }
    doomed
}

/// Turning a snake on the spot leaves a playable grid playable.
proof fn lemma_turn_keeps_wf(g: GridView, id: SnakeID, t: SnakeView)
    requires
        g.wf(),
        g.snakes.contains_key(id),
        t.head == g.snakes[id].head,
        t.body == g.snakes[id].body,
    ensures
        (GridView { snakes: g.snakes.insert(id, t), ..g }).wf(),
{
    let after = g.snakes.insert(id, t);
    assert forall|a: SnakeID| after.contains_key(a) implies (#[trigger] after[a]).within(
        g.dims,
    ) by {
        assert(g.snakes[a].within(g.dims));
        assert(after[a].cells() == g.snakes[a].cells());
    }
    assert forall|a: SnakeID, i: int, b: SnakeID, j: int|
        crate::rules::is_part(after, a, i) && crate::rules::is_part(after, b, j) && (a != b || i
            != j) implies #[trigger] crate::rules::cell_of(after, a, i)
        != #[trigger] crate::rules::cell_of(after, b, j) by {
        assert(after[a].cells() == g.snakes[a].cells());
        assert(after[b].cells() == g.snakes[b].cells());
        assert(crate::rules::cell_of(g.snakes, a, i) != crate::rules::cell_of(g.snakes, b, j));
    }
    assert forall|a: SnakeID, i: int| crate::rules::is_part(after, a, i) implies g.tiles[cell_index(
        g.dims,
        #[trigger] crate::rules::cell_of(after, a, i),
    )].is_snake() by {
        assert(after[a].cells() == g.snakes[a].cells());
        assert(crate::rules::is_part(g.snakes, a, i));
        assert(crate::rules::cell_of(after, a, i) == crate::rules::cell_of(g.snakes, a, i));
    }
}

/// Taking snakes away leaves a playable grid playable.
proof fn lemma_fewer_keeps_wf(g: GridView, h: GridView)
    requires
        g.wf(),
        h.dims == g.dims,
        h.tiles == g.tiles,
        h.scores == g.scores,
        h.snakes.dom().finite(),
        forall|id: SnakeID| #[trigger]
            h.snakes.contains_key(id) ==> g.snakes.contains_key(id) && h.snakes[id]
                == g.snakes[id],
    ensures
        h.wf(),
{
    assert forall|a: SnakeID| h.snakes.contains_key(a) implies (#[trigger] h.snakes[a]).within(
        g.dims,
    ) by {
        assert(g.snakes[a].within(g.dims));
    }
    assert forall|a: SnakeID, i: int, b: SnakeID, j: int|
        crate::rules::is_part(h.snakes, a, i) && crate::rules::is_part(h.snakes, b, j) && (a != b
            || i != j) implies #[trigger] crate::rules::cell_of(h.snakes, a, i)
        != #[trigger] crate::rules::cell_of(h.snakes, b, j) by {
        assert(crate::rules::cell_of(g.snakes, a, i) != crate::rules::cell_of(g.snakes, b, j));
    }
    assert forall|a: SnakeID, i: int|
        crate::rules::is_part(h.snakes, a, i) implies h.tiles[cell_index(
        h.dims,
        #[trigger] crate::rules::cell_of(h.snakes, a, i),
    )].is_snake() by {
        assert(crate::rules::is_part(g.snakes, a, i));
        assert(crate::rules::cell_of(h.snakes, a, i) == crate::rules::cell_of(g.snakes, a, i));
    }
}

} // verus!
