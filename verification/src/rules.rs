//! The rules of the game as mathematics: what a grid is, and what one tick
//! makes of it.

use crate::game::Dimensions;
use crate::game::Direction;
use crate::game::Position;
use crate::game::SnakeID;
use crate::game::SnakeView;
use crate::game::Tile;
use crate::game::next_cell;
use vstd::prelude::*;

verus! {

/// Where position `p` lies in the row-major tile list.
pub open spec fn cell_index(dims: Dimensions, p: Position) -> int {
    p.0 + p.1 * dims.width
}

/// Whether position `p` is a cell of the grid.
pub open spec fn in_grid(dims: Dimensions, p: Position) -> bool {
    p.0 < dims.width && p.1 < dims.height
}

impl Tile {
    /// The tile once any snake has been lifted off it.
    pub open spec fn cleared(self) -> Tile {
        match self {
            Tile::SnakeBody { .. } | Tile::SnakeHead { .. } => Tile::Blank,
            other => other,
        }
    }

    /// Whether the tile shows part of a snake.
    pub open spec fn is_snake(self) -> bool {
        self is SnakeBody || self is SnakeHead
    }
}

impl SnakeView {
    /// Every cell the snake lies on: the tail, oldest segment first, then the head.
    pub open spec fn cells(self) -> Seq<Position> {
        self.body.push(self.head)
    }

    /// Whether the whole snake lies inside the grid.
    pub open spec fn within(self, dims: Dimensions) -> bool {
        forall|i: int| 0 <= i < self.cells().len() ==> in_grid(dims, #[trigger] self.cells()[i])
    }
}

/// Whether every snake lies inside the grid.
pub open spec fn all_within(dims: Dimensions, snakes: Map<SnakeID, SnakeView>) -> bool {
    forall|id: SnakeID| snakes.contains_key(id) ==> (#[trigger] snakes[id]).within(dims)
}

/// The `i`-th cell of snake `id`.
pub open spec fn cell_of(snakes: Map<SnakeID, SnakeView>, id: SnakeID, i: int) -> Position {
    snakes[id].cells()[i]
}

/// Whether `(id, i)` names a cell of one of the snakes.
pub open spec fn is_part(snakes: Map<SnakeID, SnakeView>, id: SnakeID, i: int) -> bool {
    snakes.contains_key(id) && 0 <= i < snakes[id].cells().len()
}

/// Whether no cell holds two parts, of one snake or of two.
pub open spec fn apart(snakes: Map<SnakeID, SnakeView>) -> bool {
    forall|a: SnakeID, i: int, b: SnakeID, j: int|
        is_part(snakes, a, i) && is_part(snakes, b, j) && (a != b || i != j) ==> #[trigger] cell_of(
            snakes,
            a,
            i,
        ) != #[trigger] cell_of(snakes, b, j)
}

/// Whether every part of every snake lies on a tile that shows a snake.
pub open spec fn on_show(
    dims: Dimensions,
    tiles: Seq<Tile>,
    snakes: Map<SnakeID, SnakeView>,
) -> bool {
    forall|id: SnakeID, i: int|
        is_part(snakes, id, i) ==> tiles[cell_index(dims, #[trigger] cell_of(snakes, id, i))].is_snake()
}

/// Whether the head of snake `id` lies on the cell with index `i`.
pub open spec fn head_at(
    dims: Dimensions,
    snakes: Map<SnakeID, SnakeView>,
    id: SnakeID,
    i: int,
) -> bool {
    snakes.contains_key(id) && cell_index(dims, snakes[id].head) == i
}

/// Whether segment `j` of snake `id` lies on the cell with index `i`.
pub open spec fn segment_at(
    dims: Dimensions,
    snakes: Map<SnakeID, SnakeView>,
    id: SnakeID,
    j: int,
    i: int,
) -> bool {
    snakes.contains_key(id) && 0 <= j < snakes[id].body.len() && cell_index(
        dims,
        snakes[id].body[j],
    ) == i
}

/// What the cell with index `i` shows once the snakes are drawn over `base`:
/// a head where a head lies, a tail segment where one lies, and `base`
/// everywhere else.
pub open spec fn drawn_tile(
    base: Seq<Tile>,
    dims: Dimensions,
    snakes: Map<SnakeID, SnakeView>,
    i: int,
) -> Tile {
    if exists|id: SnakeID| head_at(dims, snakes, id, i) {
        let id = choose|id: SnakeID| head_at(dims, snakes, id, i);
        Tile::SnakeHead { id, dir: snakes[id].dir }
    } else if exists|id: SnakeID, j: int| segment_at(dims, snakes, id, j, i) {
        let (id, j) = choose|id: SnakeID, j: int| segment_at(dims, snakes, id, j, i);
        Tile::SnakeBody { id, index: j as usize }
    } else {
        base[i]
    }
}

/// The board `base` with the snakes drawn over it.
pub open spec fn drawn(base: Seq<Tile>, dims: Dimensions, snakes: Map<SnakeID, SnakeView>) -> Seq<
    Tile,
> {
    Seq::new(base.len(), |i: int| drawn_tile(base, dims, snakes, i))
}

/// Whether snake `id` has run into itself or into another of the snakes.
pub open spec fn crashed(snakes: Map<SnakeID, SnakeView>, id: SnakeID) -> bool {
    snakes[id].hits_itself() || exists|other: SnakeID|
        other != id && snakes.contains_key(other) && snakes[id].hits(#[trigger] snakes[other])
}

/// The score table `scores` after the tail length of each of `snakes` has
/// been written into it.
pub open spec fn recorded(scores: Map<SnakeID, nat>, snakes: Map<SnakeID, SnakeView>) -> Map<
    SnakeID,
    nat,
> {
    Map::new(
        |id: SnakeID| scores.contains_key(id) || snakes.contains_key(id),
        |id: SnakeID|
            if snakes.contains_key(id) {
                snakes[id].body.len()
            } else {
                scores[id]
            },
    )
}

/// The cells of the tile list that are blank.
pub open spec fn blank_cells(tiles: Seq<Tile>) -> Set<usize> {
    Set::new(|i: usize| i < tiles.len() && tiles[i as int] == Tile::Blank)
}

/// Whether no tile is a doodah.
pub open spec fn no_doodah(tiles: Seq<Tile>) -> bool {
    forall|i: int| 0 <= i < tiles.len() ==> #[trigger] tiles[i] != Tile::Doodah
}

/// Whether `tiles` is `board` with a doodah put on one of its blank cells,
/// or `board` itself where it has no blank cell.
pub open spec fn respawned(board: Seq<Tile>, tiles: Seq<Tile>) -> bool {
    if exists|i: int| 0 <= i < board.len() && board[i] == Tile::Blank {
        exists|i: int|
            0 <= i < board.len() && board[i] == Tile::Blank && tiles == board.update(
                i,
                Tile::Doodah,
            )
    } else {
        tiles == board
    }
}

/// A grid as a mathematical value.
pub struct GridView {
    pub dims: Dimensions,
    /// The tiles, row by row.
    pub tiles: Seq<Tile>,
    /// The snakes that are alive.
    pub snakes: Map<SnakeID, SnakeView>,
    /// The score of every snake that ever played, alive or not.
    pub scores: Map<SnakeID, nat>,
}

impl GridView {
    /// Whether the grid is one the game can be played on: the tiles cover
    /// the grid, every snake lies inside it, no cell holds two snake parts,
    /// every snake part lies on a tile that shows a snake, there is at
    /// most one doodah, and every living snake's score is the length of
    /// its tail.
    pub open spec fn wf(self) -> bool {
        &&& self.tiles.len() == self.dims.width * self.dims.height
        &&& self.snakes.dom().finite()
        &&& self.scores.dom().finite()
        &&& all_within(self.dims, self.snakes)
        &&& apart(self.snakes)
        &&& on_show(self.dims, self.tiles, self.snakes)
        &&& forall|i: int, j: int|
            0 <= i < self.tiles.len() && 0 <= j < self.tiles.len() && self.tiles[i] == Tile::Doodah
                && self.tiles[j] == Tile::Doodah ==> i == j
        &&& forall|id: SnakeID| #[trigger]
            self.snakes.contains_key(id) ==> self.scores.contains_key(id) && self.scores[id]
                == self.snakes[id].body.len()
    }

    /// Whether the tiles cover the grid and every snake lies inside it.
    pub open spec fn fits(self) -> bool {
        &&& self.tiles.len() == self.dims.width * self.dims.height
        &&& all_within(self.dims, self.snakes)
    }

    /// Whether no tile shows part of a snake.
    pub open spec fn bare(self) -> bool {
        forall|i: int| 0 <= i < self.tiles.len() ==> !(#[trigger] self.tiles[i]).is_snake()
    }

    /// The tiles with every snake lifted off.
    pub open spec fn cleared(self) -> Seq<Tile> {
        Seq::new(self.tiles.len(), |i: int| self.tiles[i].cleared())
    }

    /// What snake `id` finds on the cell in front of it, once every snake has
    /// been lifted off the board.
    pub open spec fn ahead(self, id: SnakeID) -> Tile {
        let s = self.snakes[id];
        self.tiles[cell_index(self.dims, next_cell(self.dims, s.dir, s.head))].cleared()
    }

    /// The snakes after each has moved one cell: one that finds a doodah
    /// grows, one that finds a wall is gone, any other steps.
    pub open spec fn moved(self) -> Map<SnakeID, SnakeView> {
        Map::new(
            |id: SnakeID| self.snakes.contains_key(id) && self.ahead(id) != Tile::Wall,
            |id: SnakeID|
                if self.ahead(id) == Tile::Doodah {
                    self.snakes[id].grown(self.dims)
                } else {
                    self.snakes[id].stepped(self.dims)
                },
        )
    }

    /// Whether some snake takes the doodah on this tick.
    pub open spec fn claimed(self) -> bool {
        exists|id: SnakeID| self.snakes.contains_key(id) && self.ahead(id) == Tile::Doodah
    }

    /// The snakes that are alive after the tick: those that moved and ran
    /// into nothing. All moves count at once, so two snakes can end each
    /// other.
    pub open spec fn survivors(self) -> Map<SnakeID, SnakeView> {
        Map::new(
            |id: SnakeID| self.moved().contains_key(id) && !crashed(self.moved(), id),
            |id: SnakeID| self.moved()[id],
        )
    }

    /// The score table after the tick: every snake that moved has the length
    /// its tail had after the move, whether it then lived or died; every
    /// other entry stays.
    pub open spec fn next_scores(self) -> Map<SnakeID, nat> {
        recorded(self.scores, self.moved())
    }

    /// The snakes that moved and then ran into themselves or another snake.
    pub open spec fn fallen(self) -> Map<SnakeID, SnakeView> {
        Map::new(
            |id: SnakeID| self.moved().contains_key(id) && crashed(self.moved(), id),
            |id: SnakeID| self.moved()[id],
        )
    }

    /// The board the survivors are drawn on: the tiles without snakes, and
    /// without the doodah if one was taken.
    pub open spec fn ground(self) -> Seq<Tile> {
        Seq::new(
            self.tiles.len(),
            |i: int|
                if self.claimed() && self.tiles[i] == Tile::Doodah {
                    Tile::Blank
                } else {
                    self.tiles[i].cleared()
                },
        )
    }

    /// The grid after one tick, before a taken doodah is replaced.
    pub open spec fn advanced(self) -> GridView {
        GridView {
            dims: self.dims,
            tiles: drawn(self.ground(), self.dims, self.survivors()),
            snakes: self.survivors(),
            scores: self.next_scores(),
        }
    }

    /// Whether `next` is a grid that one whole tick may make of this one:
    /// the grid after the tick, with a new doodah on a blank tile if one
    /// was taken and a blank tile is left.
    pub open spec fn steps_to(self, next: GridView) -> bool {
        &&& next.dims == self.dims
        &&& next.snakes == self.survivors()
        &&& next.scores == self.next_scores()
        &&& if self.claimed() {
            respawned(self.advanced().tiles, next.tiles)
        } else {
            next.tiles == self.advanced().tiles
        }
    }

    /// Whether the game is over after this tick: no snake is left.
    pub open spec fn finished(self) -> bool {
        forall|id: SnakeID| !self.survivors().contains_key(id)
    }
}


/// A cell of the grid has a place in the tile list.
pub proof fn lemma_index_in_range(dims: Dimensions, p: Position)
    requires
        in_grid(dims, p),
    ensures
        0 <= cell_index(dims, p) < dims.width * dims.height,
{
    assert(p.1 * dims.width <= (dims.height - 1) * dims.width) by (nonlinear_arith)
        requires
            0 <= p.1 <= dims.height - 1,
            0 <= dims.width,
    ;
    assert((dims.height - 1) * dims.width == dims.width * dims.height - dims.width)
        by (nonlinear_arith);
    assert(0 <= p.1 * dims.width) by (nonlinear_arith)
        requires
            0 <= p.1,
            0 <= dims.width,
    ;
}

/// Two cells of the grid with one place in the tile list are one cell.
pub proof fn lemma_index_injective(dims: Dimensions, p: Position, q: Position)
    requires
        in_grid(dims, p),
        in_grid(dims, q),
        cell_index(dims, p) == cell_index(dims, q),
    ensures
        p == q,
{
    let w = dims.width as int;
    if p.1 < q.1 {
        assert((p.1 + 1) * w <= q.1 * w) by (nonlinear_arith)
            requires
                p.1 + 1 <= q.1,
                0 <= w,
        ;
        assert((p.1 + 1) * w == p.1 * w + w) by (nonlinear_arith);
    } else if q.1 < p.1 {
        assert((q.1 + 1) * w <= p.1 * w) by (nonlinear_arith)
            requires
                q.1 + 1 <= p.1,
                0 <= w,
        ;
        assert((q.1 + 1) * w == q.1 * w + w) by (nonlinear_arith);
    }
}

/// The cell in front of a snake that lies inside the grid is inside the grid.
pub proof fn lemma_next_cell_in_grid(dims: Dimensions, dir: Direction, head: Position)
    requires
        in_grid(dims, head),
    ensures
        in_grid(dims, next_cell(dims, dir, head)),
{
    let w = dims.width as int;
    let h = dims.height as int;
    assert(0 <= (head.0 + 1) % w < w);
    assert(0 <= (head.0 + w - 1) % w < w);
    assert(0 <= (head.1 + 1) % h < h);
    assert(0 <= (head.1 + h - 1) % h < h);
}


/// Whether `id` is among the first `k` of `ids`.
pub open spec fn seen(ids: Seq<SnakeID>, k: int, id: SnakeID) -> bool {
    exists|j: int| 0 <= j < k && j < ids.len() && ids[j] == id
}

/// One more of `ids` has been seen.
pub proof fn lemma_seen_next(ids: Seq<SnakeID>, k: int)
    requires
        0 <= k < ids.len(),
    ensures
        forall|id: SnakeID|
            #![trigger seen(ids, k + 1, id)]
            seen(ids, k + 1, id) <==> seen(ids, k, id) || id == ids[k],
        forall|id: SnakeID| #![trigger seen(ids, 0, id)] !seen(ids, 0, id),
{
    assert forall|id: SnakeID|
        #![trigger seen(ids, k + 1, id)]
        seen(ids, k + 1, id) <==> seen(ids, k, id) || id == ids[k] by {
        if seen(ids, k, id) {
            let j = choose|j: int| 0 <= j < k && j < ids.len() && ids[j] == id;
            assert(0 <= j < k + 1 && ids[j] == id);
        }
        if id == ids[k] {
            assert(0 <= k < k + 1 && ids[k] == id);
        }
    }
}

/// Once all of `ids` have been seen, the seen are the members.
pub proof fn lemma_seen_all(ids: Seq<SnakeID>)
    ensures
        forall|id: SnakeID|
            #![trigger seen(ids, ids.len() as int, id)]
            seen(ids, ids.len() as int, id) <==> ids.contains(id),
{
    assert forall|id: SnakeID|
        #![trigger seen(ids, ids.len() as int, id)]
        seen(ids, ids.len() as int, id) <==> ids.contains(id) by {
        if seen(ids, ids.len() as int, id) {
            let j = choose|j: int| 0 <= j < ids.len() && j < ids.len() && ids[j] == id;
            assert(ids[j] == id);
        }
        if ids.contains(id) {
            let j = choose|j: int| 0 <= j < ids.len() && ids[j] == id;
            assert(0 <= j < ids.len() && j < ids.len() && ids[j] == id);
        }
    }
}

/// Whether some part of snake `s` lies on the cell with index `i`.
pub open spec fn touches(dims: Dimensions, s: SnakeView, i: int) -> bool {
    exists|c: int| 0 <= c < s.cells().len() && cell_index(dims, #[trigger] s.cells()[c]) == i
}

/// Whether one of the first `k` snakes of `ids` lies on the cell with index `i`.
pub open spec fn covered(
    dims: Dimensions,
    snakes: Map<SnakeID, SnakeView>,
    ids: Seq<SnakeID>,
    k: int,
    i: int,
) -> bool {
    exists|id: SnakeID|
        #![trigger seen(ids, k, id)]
        seen(ids, k, id) && snakes.contains_key(id) && touches(dims, snakes[id], i)
}

/// Whether `board` is `base` with the first `k` snakes of `ids` drawn over it.
pub open spec fn drawn_so_far(
    base: Seq<Tile>,
    dims: Dimensions,
    snakes: Map<SnakeID, SnakeView>,
    ids: Seq<SnakeID>,
    k: int,
    board: Seq<Tile>,
) -> bool {
    &&& board.len() == base.len()
    &&& forall|id: SnakeID, i: int|
        #![trigger head_at(dims, snakes, id, i)]
        seen(ids, k, id) && head_at(dims, snakes, id, i) && 0 <= i < board.len() ==> board[i]
            == (Tile::SnakeHead { id, dir: snakes[id].dir })
    &&& forall|id: SnakeID, j: int, i: int|
        #![trigger segment_at(dims, snakes, id, j, i)]
        seen(ids, k, id) && segment_at(dims, snakes, id, j, i) && 0 <= i < board.len() ==> board[i]
            == (Tile::SnakeBody { id, index: j as usize })
    &&& forall|i: int|
        #![trigger board[i]]
        0 <= i < board.len() && !covered(dims, snakes, ids, k, i) ==> board[i] == base[i]
}

/// Whether `after` is `before` with snake `s`, known as `id`, drawn over it.
pub open spec fn one_drawn(
    dims: Dimensions,
    id: SnakeID,
    s: SnakeView,
    before: Seq<Tile>,
    after: Seq<Tile>,
) -> bool {
    &&& after.len() == before.len()
    &&& after[cell_index(dims, s.head)] == (Tile::SnakeHead { id, dir: s.dir })
    &&& forall|j: int|
        #![trigger s.body[j]]
        0 <= j < s.body.len() ==> after[cell_index(dims, s.body[j])] == (Tile::SnakeBody {
            id,
            index: j as usize,
        })
    &&& forall|i: int|
        #![trigger after[i]]
        0 <= i < after.len() && !touches(dims, s, i) ==> after[i] == before[i]
}

/// Two parts of snakes that lie apart and inside the grid, on one cell of
/// the tile list, are one part.
pub proof fn lemma_one_part_per_cell(
    dims: Dimensions,
    snakes: Map<SnakeID, SnakeView>,
    a: SnakeID,
    i: int,
    b: SnakeID,
    j: int,
)
    requires
        all_within(dims, snakes),
        apart(snakes),
        is_part(snakes, a, i),
        is_part(snakes, b, j),
        cell_index(dims, cell_of(snakes, a, i)) == cell_index(dims, cell_of(snakes, b, j)),
    ensures
        a == b,
        i == j,
{
    assert(snakes[a].within(dims));
    assert(snakes[b].within(dims));
    assert(in_grid(dims, snakes[a].cells()[i]));
    assert(in_grid(dims, snakes[b].cells()[j]));
    lemma_index_injective(dims, cell_of(snakes, a, i), cell_of(snakes, b, j));
}

/// Drawing one more snake takes the board one snake further.
pub proof fn lemma_draw_next(
    base: Seq<Tile>,
    dims: Dimensions,
    snakes: Map<SnakeID, SnakeView>,
    ids: Seq<SnakeID>,
    k: int,
    before: Seq<Tile>,
    after: Seq<Tile>,
)
    requires
        all_within(dims, snakes),
        apart(snakes),
        ids.no_duplicates(),
        0 <= k < ids.len(),
        snakes.contains_key(ids[k]),
        drawn_so_far(base, dims, snakes, ids, k, before),
        one_drawn(dims, ids[k], snakes[ids[k]], before, after),
    ensures
        drawn_so_far(base, dims, snakes, ids, k + 1, after),
{
    let me = ids[k];
    let s = snakes[me];
    lemma_seen_next(ids, k);
    assert(!seen(ids, k, me)) by {
        if seen(ids, k, me) {
            let j = choose|j: int| 0 <= j < k && j < ids.len() && ids[j] == me;
            assert(ids[j] == ids[k]);
        }
    }
    assert forall|id: SnakeID, i: int|
        #![trigger head_at(dims, snakes, id, i)]
        seen(ids, k + 1, id) && head_at(dims, snakes, id, i) && 0 <= i < after.len() implies after[i]
        == (Tile::SnakeHead { id, dir: snakes[id].dir }) by {
        if id != me {
            assert(seen(ids, k, id));
            if touches(dims, s, i) {
                let c = choose|c: int|
                    0 <= c < s.cells().len() && cell_index(dims, #[trigger] s.cells()[c]) == i;
                lemma_one_part_per_cell(dims, snakes, me, c, id, snakes[id].body.len() as int);
            }
        }
    }
    assert forall|id: SnakeID, j: int, i: int|
        #![trigger segment_at(dims, snakes, id, j, i)]
        seen(ids, k + 1, id) && segment_at(dims, snakes, id, j, i) && 0 <= i
            < after.len() implies after[i] == (Tile::SnakeBody { id, index: j as usize }) by {
        if id != me {
            assert(seen(ids, k, id));
            if touches(dims, s, i) {
                let c = choose|c: int|
                    0 <= c < s.cells().len() && cell_index(dims, #[trigger] s.cells()[c]) == i;
                lemma_one_part_per_cell(dims, snakes, me, c, id, j);
            }
        } else {
            assert(s.body[j] == s.cells()[j]);
        }
    }
    assert forall|i: int|
        #![trigger after[i]]
        0 <= i < after.len() && !covered(dims, snakes, ids, k + 1, i) implies after[i]
        == base[i] by {
        if touches(dims, s, i) {
            assert(seen(ids, k + 1, me));
            assert(covered(dims, snakes, ids, k + 1, i));
        }
        if covered(dims, snakes, ids, k, i) {
            let id = choose|id: SnakeID|
                #![trigger seen(ids, k, id)]
                seen(ids, k, id) && snakes.contains_key(id) && touches(dims, snakes[id], i);
            assert(seen(ids, k + 1, id));
            assert(covered(dims, snakes, ids, k + 1, i));
        }
        assert(before[i] == base[i]);
    }
}

/// A board with every snake drawn over `base` is `drawn`.
pub proof fn lemma_all_drawn(
    base: Seq<Tile>,
    dims: Dimensions,
    snakes: Map<SnakeID, SnakeView>,
    ids: Seq<SnakeID>,
    board: Seq<Tile>,
)
    requires
        forall|id: SnakeID| #![trigger ids.contains(id)] ids.contains(id) <==> snakes.contains_key(id),
        drawn_so_far(base, dims, snakes, ids, ids.len() as int, board),
        forall|id: SnakeID, i: int|
            #![trigger head_at(dims, snakes, id, i)]
            head_at(dims, snakes, id, i) ==> 0 <= i < board.len(),
        forall|id: SnakeID, j: int, i: int|
            #![trigger segment_at(dims, snakes, id, j, i)]
            segment_at(dims, snakes, id, j, i) ==> 0 <= i < board.len(),
    ensures
        board == drawn(base, dims, snakes),
{
    let n = ids.len() as int;
    lemma_seen_all(ids);
    assert forall|i: int| 0 <= i < board.len() implies board[i] == drawn_tile(
        base,
        dims,
        snakes,
        i,
    ) by {
        if exists|id: SnakeID| head_at(dims, snakes, id, i) {
            let id = choose|id: SnakeID| head_at(dims, snakes, id, i);
            assert(ids.contains(id));
            assert(seen(ids, n, id));
        } else if exists|id: SnakeID, j: int| segment_at(dims, snakes, id, j, i) {
            let (id, j) = choose|id: SnakeID, j: int| segment_at(dims, snakes, id, j, i);
            assert(ids.contains(id));
            assert(seen(ids, n, id));
        } else {
            if covered(dims, snakes, ids, n, i) {
                let id = choose|id: SnakeID|
                    #![trigger seen(ids, n, id)]
                    seen(ids, n, id) && snakes.contains_key(id) && touches(dims, snakes[id], i);
                let s = snakes[id];
                let c = choose|c: int|
                    0 <= c < s.cells().len() && cell_index(dims, #[trigger] s.cells()[c]) == i;
                if c == s.body.len() {
                    assert(head_at(dims, snakes, id, i));
                } else {
                    assert(s.cells()[c] == s.body[c]);
                    assert(segment_at(dims, snakes, id, c, i));
                }
            }
        }
    }
    assert(board =~= drawn(base, dims, snakes));
}


/// The grid with every snake lifted off its tiles.
pub open spec fn swept(g: GridView) -> GridView {
    GridView { tiles: g.cleared(), ..g }
}

/// Lifting the snakes off the tiles first changes nothing about how they move.
pub proof fn lemma_swept_moves_alike(g: GridView)
    requires
        g.fits(),
    ensures
        swept(g).fits(),
        swept(g).bare(),
        swept(g).moved() == g.moved(),
        swept(g).claimed() == g.claimed(),
        swept(g).survivors() == g.survivors(),
        swept(g).fallen() == g.fallen(),
{
    let c = swept(g);
    assert forall|id: SnakeID| g.snakes.contains_key(id) implies c.ahead(id) == g.ahead(id) by {
        let s = g.snakes[id];
        assert(s.within(g.dims));
        assert(s.cells()[s.body.len() as int] == s.head);
        lemma_next_cell_in_grid(g.dims, s.dir, s.head);
        lemma_index_in_range(g.dims, next_cell(g.dims, s.dir, s.head));
    }
    assert(c.moved() =~= g.moved());
    assert(c.survivors() =~= g.survivors());
    assert(c.fallen() =~= g.fallen());
    if g.claimed() {
        let id = choose|id: SnakeID| g.snakes.contains_key(id) && g.ahead(id) == Tile::Doodah;
        assert(c.snakes.contains_key(id) && c.ahead(id) == Tile::Doodah);
    }
    if c.claimed() {
        let id = choose|id: SnakeID| c.snakes.contains_key(id) && c.ahead(id) == Tile::Doodah;
        assert(g.snakes.contains_key(id) && g.ahead(id) == Tile::Doodah);
    }
}

/// Where the cells of a snake that moved come from: its head is the cell
/// that lay ahead, and each tail segment is a cell the snake lay on before.
pub proof fn lemma_moved_parts(g: GridView, id: SnakeID)
    requires
        g.fits(),
        g.moved().contains_key(id),
    ensures
        g.snakes.contains_key(id),
        in_grid(g.dims, g.moved()[id].head),
        g.moved()[id].head == next_cell(g.dims, g.snakes[id].dir, g.snakes[id].head),
        g.moved()[id].dir == g.snakes[id].dir,
        g.ahead(id) == Tile::Doodah ==> g.moved()[id].body == g.snakes[id].cells(),
        g.ahead(id) != Tile::Doodah ==> g.moved()[id].body == g.snakes[id].cells().drop_first(),
        g.moved()[id].within(g.dims),
{
    let s = g.snakes[id];
    let m = g.moved()[id];
    assert(s.within(g.dims));
    assert(s.cells()[s.body.len() as int] == s.head);
    lemma_next_cell_in_grid(g.dims, s.dir, s.head);
    assert forall|i: int| 0 <= i < m.cells().len() implies in_grid(
        g.dims,
        #[trigger] m.cells()[i],
    ) by {
        if i < m.body.len() {
            if g.ahead(id) == Tile::Doodah {
                assert(m.cells()[i] == s.cells()[i]);
            } else {
                assert(m.cells()[i] == s.cells()[i + 1]);
            }
        }
    }
}

/// After a tick of a playable grid the survivors lie inside the grid, and
/// no cell holds two of their parts.
pub proof fn lemma_survivors_fit(g: GridView)
    requires
        g.fits(),
        apart(g.snakes),
    ensures
        all_within(g.dims, g.survivors()),
        apart(g.survivors()),
{
    let moved = g.moved();
    let alive = g.survivors();
    assert forall|id: SnakeID| alive.contains_key(id) implies (#[trigger] alive[id]).within(
        g.dims,
    ) by {
        lemma_moved_parts(g, id);
    }
    assert forall|a: SnakeID, i: int, b: SnakeID, j: int|
        is_part(alive, a, i) && is_part(alive, b, j) && (a != b || i != j) implies #[trigger] cell_of(
        alive,
        a,
        i,
    ) != #[trigger] cell_of(alive, b, j) by {
        lemma_moved_parts(g, a);
        lemma_moved_parts(g, b);
        let ma = moved[a];
        let mb = moved[b];
        let da: int = if g.ahead(a) == Tile::Doodah {
            0
        } else {
            1
        };
        let db: int = if g.ahead(b) == Tile::Doodah {
            0
        } else {
            1
        };
        assert(!crashed(moved, a));
        assert(!crashed(moved, b));
        if a != b {
            assert(!ma.hits(moved[b]));
            assert(!mb.hits(moved[a]));
        }
        if i == ma.body.len() && j == mb.body.len() {
        } else if i == ma.body.len() {
            assert(mb.body[j] == mb.cells()[j]);
            assert(mb.body.contains(mb.body[j]));
        } else if j == mb.body.len() {
            assert(ma.body[i] == ma.cells()[i]);
            assert(ma.body.contains(ma.body[i]));
        } else {
            assert(ma.cells()[i] == g.snakes[a].cells()[i + da]);
            assert(mb.cells()[j] == g.snakes[b].cells()[j + db]);
            assert(is_part(g.snakes, a, i + da));
            assert(is_part(g.snakes, b, j + db));
            assert(cell_of(g.snakes, a, i + da) != cell_of(g.snakes, b, j + db));
        }
    }
}

/// Drawing snakes puts no doodah on the board.
pub proof fn lemma_drawn_adds_no_doodah(
    base: Seq<Tile>,
    dims: Dimensions,
    snakes: Map<SnakeID, SnakeView>,
    i: int,
)
    requires
        0 <= i < base.len(),
        drawn(base, dims, snakes)[i] == Tile::Doodah,
    ensures
        base[i] == Tile::Doodah,
{
}

/// On a board with snakes drawn over it, every part of every snake lies on
/// a tile that shows a snake.
pub proof fn lemma_drawn_shows_snakes(
    base: Seq<Tile>,
    dims: Dimensions,
    snakes: Map<SnakeID, SnakeView>,
)
    requires
        base.len() == dims.width * dims.height,
        all_within(dims, snakes),
    ensures
        on_show(dims, drawn(base, dims, snakes), snakes),
{
    let board = drawn(base, dims, snakes);
    assert forall|id: SnakeID, i: int| is_part(snakes, id, i) implies board[cell_index(
        dims,
        #[trigger] cell_of(snakes, id, i),
    )].is_snake() by {
        let s = snakes[id];
        let at = cell_index(dims, cell_of(snakes, id, i));
        assert(s.within(dims));
        assert(in_grid(dims, s.cells()[i]));
        lemma_index_in_range(dims, cell_of(snakes, id, i));
        if i == s.body.len() {
            assert(head_at(dims, snakes, id, at));
        } else {
            assert(s.cells()[i] == s.body[i]);
            assert(segment_at(dims, snakes, id, i, at));
        }
        assert(board[at] == drawn_tile(base, dims, snakes, at));
    }
}

/// A doodah put on a blank tile hides no snake.
pub proof fn lemma_doodah_hides_no_snake(
    dims: Dimensions,
    tiles: Seq<Tile>,
    snakes: Map<SnakeID, SnakeView>,
    at: int,
)
    requires
        tiles.len() == dims.width * dims.height,
        all_within(dims, snakes),
        on_show(dims, tiles, snakes),
        0 <= at < tiles.len(),
        tiles[at] == Tile::Blank,
    ensures
        on_show(dims, tiles.update(at, Tile::Doodah), snakes),
{
    let after = tiles.update(at, Tile::Doodah);
    assert forall|id: SnakeID, i: int| is_part(snakes, id, i) implies after[cell_index(
        dims,
        #[trigger] cell_of(snakes, id, i),
    )].is_snake() by {
        assert(snakes[id].within(dims));
        assert(in_grid(dims, snakes[id].cells()[i]));
        lemma_index_in_range(dims, cell_of(snakes, id, i));
        assert(tiles[cell_index(dims, cell_of(snakes, id, i))].is_snake());
    }
}

/// One tick keeps a playable grid playable.
pub proof fn lemma_advanced_wf(g: GridView)
    requires
        g.wf(),
    ensures
        g.advanced().wf(),
{
    let next = g.advanced();
    lemma_survivors_fit(g);
    lemma_drawn_shows_snakes(g.ground(), g.dims, g.survivors());
    assert(next.snakes.dom().subset_of(g.snakes.dom()));
    vstd::set_lib::lemma_len_subset(next.snakes.dom(), g.snakes.dom());
    assert(g.moved().dom().subset_of(g.snakes.dom()));
    vstd::set_lib::lemma_len_subset(g.moved().dom(), g.snakes.dom());
    assert(next.scores.dom() =~= g.scores.dom().union(g.moved().dom()));
    vstd::set_lib::lemma_set_union_finite_iff(g.scores.dom(), g.moved().dom());
    assert forall|i: int, j: int|
        0 <= i < next.tiles.len() && 0 <= j < next.tiles.len() && next.tiles[i] == Tile::Doodah
            && next.tiles[j] == Tile::Doodah implies i == j by {
        lemma_drawn_adds_no_doodah(g.ground(), g.dims, g.survivors(), i);
        lemma_drawn_adds_no_doodah(g.ground(), g.dims, g.survivors(), j);
        assert(g.tiles[i] == Tile::Doodah);
        assert(g.tiles[j] == Tile::Doodah);
    }
}

/// Writing down the fallen and then the survivors writes down all that moved.
pub proof fn lemma_scores_in_two_steps(g: GridView)
    ensures
        recorded(recorded(g.scores, g.fallen()), g.survivors()) == g.next_scores(),
{
    assert(recorded(recorded(g.scores, g.fallen()), g.survivors()) =~= g.next_scores());
}

/// Where no snake is left, all that moved have fallen.
pub proof fn lemma_scores_at_the_end(g: GridView)
    requires
        g.finished(),
    ensures
        recorded(g.scores, g.fallen()) == g.next_scores(),
{
    assert forall|id: SnakeID| g.moved().contains_key(id) implies g.fallen().contains_key(id) by {
        assert(!g.survivors().contains_key(id));
    }
    assert(recorded(g.scores, g.fallen()) =~= g.next_scores());
}


/// The position of the cell with index `i` in the row-major tile list.
pub open spec fn cell_at(dims: Dimensions, i: int) -> Position {
    ((i % (dims.width as int)) as usize, (i / (dims.width as int)) as usize)
}

/// A place in the tile list is a cell of the grid, and the cell's place.
pub proof fn lemma_cell_at(dims: Dimensions, i: int)
    requires
        0 <= i < dims.width * dims.height,
    ensures
        in_grid(dims, cell_at(dims, i)),
        cell_index(dims, cell_at(dims, i)) == i,
{
    let w = dims.width as int;
    let h = dims.height as int;
    assert(w > 0) by (nonlinear_arith)
        requires
            0 <= i < w * h,
            w >= 0,
    ;
    vstd::arithmetic::div_mod::lemma_fundamental_div_mod(i, w);
    vstd::arithmetic::div_mod::lemma_mod_bound(i, w);
    vstd::arithmetic::div_mod::lemma_div_pos_is_pos(i, w);
    assert(i / w < h) by (nonlinear_arith)
        requires
            i == w * (i / w) + i % w,
            0 <= i % w,
            i < w * h,
            w > 0,
    ;
    assert(w * (i / w) == (i / w) * w) by (nonlinear_arith);
}

/// A snake that has just been put on the cell with index `cell`.
pub open spec fn hatchling(dims: Dimensions, cell: usize, dir: Direction) -> SnakeView {
    SnakeView { dir, head: cell_at(dims, cell as int), body: Seq::empty() }
}

/// The snakes once the first `n` of `ids` sit on the first `n` of `cells`.
/// Where an id comes twice, its later seat counts.
pub open spec fn seated(
    dims: Dimensions,
    ids: Seq<SnakeID>,
    cells: Seq<usize>,
    headings: Seq<Direction>,
    n: nat,
) -> Map<SnakeID, SnakeView>
    decreases n,
{
    if n == 0 {
        Map::empty()
    } else {
        seated(dims, ids, cells, headings, (n - 1) as nat).insert(
            ids[n - 1],
            hatchling(dims, cells[n - 1], headings[n - 1]),
        )
    }
}

/// Whether every tile is a wall or blank.
pub open spec fn plain(tiles: Seq<Tile>) -> bool {
    forall|i: int|
        0 <= i < tiles.len() ==> #[trigger] tiles[i] == Tile::Wall || tiles[i] == Tile::Blank
}

/// Whether `cells` and `headings` say where to put snakes on `tiles`: the
/// cells are blank tiles, no cell comes twice, each has a heading, and
/// there are no more cells than ids.
pub open spec fn is_seeding(
    tiles: Seq<Tile>,
    ids: Seq<SnakeID>,
    cells: Seq<usize>,
    headings: Seq<Direction>,
) -> bool {
    &&& cells.no_duplicates()
    &&& forall|k: int|
        0 <= k < cells.len() ==> #[trigger] cells[k] < tiles.len() && tiles[cells[k] as int]
            == Tile::Blank
    &&& headings.len() == cells.len()
    &&& cells.len() <= ids.len()
}

/// The grid with one new snake on each of `cells` and no doodah.
pub open spec fn seeded(
    dims: Dimensions,
    tiles: Seq<Tile>,
    ids: Seq<SnakeID>,
    cells: Seq<usize>,
    headings: Seq<Direction>,
) -> GridView {
    let snakes = seated(dims, ids, cells, headings, cells.len());
    GridView {
        dims,
        tiles: drawn(tiles, dims, snakes),
        snakes,
        scores: recorded(Map::empty(), snakes),
    }
}

/// Whether `g` is a new game on `tiles` for the players `ids`, with the
/// snakes put down as `cells` and `headings` say: as many snakes as there
/// are players, or blank tiles if those are fewer, and a doodah on a blank
/// tile that the snakes left, if they left one.
pub open spec fn fresh(
    g: GridView,
    dims: Dimensions,
    tiles: Seq<Tile>,
    ids: Seq<SnakeID>,
    cells: Seq<usize>,
    headings: Seq<Direction>,
) -> bool {
    let start = seeded(dims, tiles, ids, cells, headings);
    &&& is_seeding(tiles, ids, cells, headings)
    &&& cells.len() == if ids.len() <= blank_cells(tiles).len() {
        ids.len()
    } else {
        blank_cells(tiles).len()
    }
    &&& g.dims == start.dims
    &&& g.snakes == start.snakes
    &&& g.scores == start.scores
    &&& respawned(start.tiles, g.tiles)
}

/// Every seated snake is a hatchling on one of the cells, under one of the ids.
pub proof fn lemma_seated(
    dims: Dimensions,
    ids: Seq<SnakeID>,
    cells: Seq<usize>,
    headings: Seq<Direction>,
    n: nat,
)
    requires
        n <= cells.len(),
        cells.len() <= ids.len(),
        headings.len() == cells.len(),
    ensures
        seated(dims, ids, cells, headings, n).dom().finite(),
        forall|id: SnakeID| #[trigger]
            seated(dims, ids, cells, headings, n).contains_key(id) ==> exists|k: int|
                0 <= k < n && #[trigger] ids[k] == id && seated(dims, ids, cells, headings, n)[id]
                    == hatchling(dims, cells[k], headings[k]),
        forall|k: int|
            0 <= k < n ==> seated(dims, ids, cells, headings, n).contains_key(#[trigger] ids[k]),
        ids.take(n as int).no_duplicates() ==> seated(dims, ids, cells, headings, n).dom().len()
            == n,
    decreases n,
{
    if n > 0 {
        let before = seated(dims, ids, cells, headings, (n - 1) as nat);
        let after = seated(dims, ids, cells, headings, n);
        lemma_seated(dims, ids, cells, headings, (n - 1) as nat);
        assert forall|id: SnakeID| #[trigger] after.contains_key(id) implies exists|k: int|
            0 <= k < n && #[trigger] ids[k] == id && after[id] == hatchling(
                dims,
                cells[k],
                headings[k],
            ) by {
            if id == ids[n - 1] {
                assert(ids[n - 1] == id);
            } else {
                assert(before.contains_key(id));
                let k = choose|k: int|
                    0 <= k < n - 1 && #[trigger] ids[k] == id && before[id] == hatchling(
                        dims,
                        cells[k],
                        headings[k],
                    );
                assert(ids[k] == id);
            }
        }
        if ids.take(n as int).no_duplicates() {
            let shorter = ids.take(n - 1);
            let longer = ids.take(n as int);
            assert forall|i: int, j: int|
                0 <= i < shorter.len() && 0 <= j < shorter.len() && i != j implies shorter[i]
                != shorter[j] by {
                assert(longer[i] == shorter[i]);
                assert(longer[j] == shorter[j]);
            }
            if before.contains_key(ids[n - 1]) {
                let k = choose|k: int|
                    0 <= k < n - 1 && #[trigger] ids[k] == ids[n - 1] && before[ids[n - 1]]
                        == hatchling(dims, cells[k], headings[k]);
                assert(longer[k] == longer[n - 1]);
            }
            assert(after.dom() =~= before.dom().insert(ids[n - 1]));
        }
    }
}

/// Snakes seated by a seeding lie inside the grid, each on a cell of its own.
pub proof fn lemma_seated_fits(
    dims: Dimensions,
    tiles: Seq<Tile>,
    ids: Seq<SnakeID>,
    cells: Seq<usize>,
    headings: Seq<Direction>,
)
    requires
        tiles.len() == dims.width * dims.height,
        is_seeding(tiles, ids, cells, headings),
    ensures
        all_within(dims, seated(dims, ids, cells, headings, cells.len())),
        apart(seated(dims, ids, cells, headings, cells.len())),
{
    let snakes = seated(dims, ids, cells, headings, cells.len());
    lemma_seated(dims, ids, cells, headings, cells.len());
    assert forall|id: SnakeID| snakes.contains_key(id) implies (#[trigger] snakes[id]).within(
        dims,
    ) by {
        let k = choose|k: int|
            0 <= k < cells.len() && #[trigger] ids[k] == id && snakes[id] == hatchling(
                dims,
                cells[k],
                headings[k],
            );
        assert(cells[k] < tiles.len());
        lemma_cell_at(dims, cells[k] as int);
    }
    assert forall|a: SnakeID, i: int, b: SnakeID, j: int|
        is_part(snakes, a, i) && is_part(snakes, b, j) && (a != b || i != j) implies #[trigger] cell_of(
        snakes,
        a,
        i,
    ) != #[trigger] cell_of(snakes, b, j) by {
        let ka = choose|k: int|
            0 <= k < cells.len() && #[trigger] ids[k] == a && snakes[a] == hatchling(
                dims,
                cells[k],
                headings[k],
            );
        let kb = choose|k: int|
            0 <= k < cells.len() && #[trigger] ids[k] == b && snakes[b] == hatchling(
                dims,
                cells[k],
                headings[k],
            );
        assert(cells[ka] < tiles.len());
        assert(cells[kb] < tiles.len());
        lemma_cell_at(dims, cells[ka] as int);
        lemma_cell_at(dims, cells[kb] as int);
    }
}

/// A seeded grid is playable, and so it is with a doodah on a tile of it.
pub proof fn lemma_seeded_wf(
    dims: Dimensions,
    tiles: Seq<Tile>,
    ids: Seq<SnakeID>,
    cells: Seq<usize>,
    headings: Seq<Direction>,
)
    requires
        tiles.len() == dims.width * dims.height,
        plain(tiles),
        is_seeding(tiles, ids, cells, headings),
    ensures
        seeded(dims, tiles, ids, cells, headings).wf(),
        no_doodah(seeded(dims, tiles, ids, cells, headings).tiles),
{
    let g = seeded(dims, tiles, ids, cells, headings);
    lemma_seated(dims, ids, cells, headings, cells.len());
    lemma_seated_fits(dims, tiles, ids, cells, headings);
    lemma_drawn_shows_snakes(tiles, dims, g.snakes);
    assert(g.scores.dom() =~= g.snakes.dom());
    assert forall|i: int| 0 <= i < g.tiles.len() implies #[trigger] g.tiles[i] != Tile::Doodah by {
        if g.tiles[i] == Tile::Doodah {
            lemma_drawn_adds_no_doodah(tiles, dims, g.snakes, i);
        }
    }
}

} // verus!
