use snake_arena::game::Dimensions;
use snake_arena::game::Direction;
use snake_arena::game::Grid;
use snake_arena::game::Snake;
use snake_arena::game::Tile;

fn blank(n: usize) -> Vec<Tile> {
    vec![Tile::Blank; n]
}

fn count(tiles: &Vec<Tile>, what: Tile) -> usize {
    tiles.iter().filter(|t| **t == what).count()
}

fn one_snake(width: usize, height: usize, tiles: Vec<Tile>, cell: usize, dir: Direction) -> Grid {
    Grid::with_snakes(width, height, tiles, vec![0], vec![cell], vec![dir])
}

#[test]
fn turning_right_goes_clockwise() {
    assert_eq!(Direction::North.right(), Direction::East);
    assert_eq!(Direction::East.right(), Direction::South);
    assert_eq!(Direction::South.right(), Direction::West);
    assert_eq!(Direction::West.right(), Direction::North);
}

#[test]
fn turning_left_goes_counter_clockwise() {
    assert_eq!(Direction::North.left(), Direction::West);
    assert_eq!(Direction::West.left(), Direction::South);
    assert_eq!(Direction::South.left(), Direction::East);
    assert_eq!(Direction::East.left(), Direction::North);
}

#[test]
fn left_undoes_right() {
    for d in [Direction::North, Direction::East, Direction::South, Direction::West] {
        assert_eq!(d.right().left(), d);
        assert_eq!(d.left().right(), d);
        assert_eq!(d.right().right().right().right(), d);
    }
}

#[test]
fn headings_are_numbered_north_west_south_east() {
    assert_eq!(Direction::pick(0), Direction::North);
    assert_eq!(Direction::pick(1), Direction::West);
    assert_eq!(Direction::pick(2), Direction::South);
    assert_eq!(Direction::pick(3), Direction::East);
    assert_eq!(Direction::pick(17), Direction::East);
}

#[test]
fn each_of_the_four_headings_is_drawn() {
    let mut seen = [false; 4];
    for _ in 0..400 {
        match Direction::sample() {
            Direction::North => seen[0] = true,
            Direction::West => seen[1] = true,
            Direction::South => seen[2] = true,
            Direction::East => seen[3] = true,
        }
    }
    assert_eq!(seen, [true; 4]);
}

#[test]
fn a_step_east_from_the_last_column_wraps() {
    let dims = Dimensions { width: 5, height: 3 };
    assert_eq!(Snake::new(Direction::East, (4, 1)).next_head_pos(dims), (0, 1));
    assert_eq!(Snake::new(Direction::East, (2, 1)).next_head_pos(dims), (3, 1));
}

#[test]
fn a_step_west_from_the_first_column_wraps() {
    let dims = Dimensions { width: 5, height: 3 };
    assert_eq!(Snake::new(Direction::West, (0, 2)).next_head_pos(dims), (4, 2));
    assert_eq!(Snake::new(Direction::West, (3, 2)).next_head_pos(dims), (2, 2));
}

#[test]
fn a_step_north_from_the_last_row_wraps() {
    let dims = Dimensions { width: 5, height: 3 };
    assert_eq!(Snake::new(Direction::North, (1, 2)).next_head_pos(dims), (1, 0));
    assert_eq!(Snake::new(Direction::North, (1, 0)).next_head_pos(dims), (1, 1));
}

#[test]
fn a_step_south_from_the_first_row_wraps() {
    let dims = Dimensions { width: 5, height: 3 };
    assert_eq!(Snake::new(Direction::South, (1, 0)).next_head_pos(dims), (1, 2));
    assert_eq!(Snake::new(Direction::South, (1, 2)).next_head_pos(dims), (1, 1));
}

#[test]
fn on_a_grid_of_one_cell_every_step_leads_home() {
    let dims = Dimensions { width: 1, height: 1 };
    for d in [Direction::North, Direction::East, Direction::South, Direction::West] {
        assert_eq!(Snake::new(d, (0, 0)).next_head_pos(dims), (0, 0));
    }
}

#[test]
fn wrapping_works_at_the_largest_coordinates() {
    let dims = Dimensions { width: usize::MAX, height: usize::MAX };
    let last = usize::MAX - 1;
    assert_eq!(Snake::new(Direction::East, (last, 0)).next_head_pos(dims), (0, 0));
    assert_eq!(Snake::new(Direction::West, (0, 0)).next_head_pos(dims), (last, 0));
    assert_eq!(Snake::new(Direction::North, (0, last)).next_head_pos(dims), (0, 0));
    assert_eq!(Snake::new(Direction::South, (0, 0)).next_head_pos(dims), (0, last));
}

#[test]
fn a_new_snake_has_no_tail_and_no_score() {
    let s = Snake::new(Direction::West, (3, 4));
    assert_eq!(s.dir, Direction::West);
    assert_eq!(s.head, (3, 4));
    assert!(s.body.is_empty());
    assert_eq!(s.score(), 0);
}

#[test]
fn a_snake_that_grows_keeps_its_tail() {
    let dims = Dimensions { width: 4, height: 4 };
    let mut s = Snake::new(Direction::East, (0, 0));
    s.grow(dims);
    s.grow(dims);
    assert_eq!(s.head, (2, 0));
    assert_eq!(s.body.iter().copied().collect::<Vec<_>>(), vec![(0, 0), (1, 0)]);
    assert_eq!(s.score(), 2);
}

#[test]
fn a_snake_that_steps_frees_its_oldest_cell() {
    let dims = Dimensions { width: 4, height: 4 };
    let mut s = Snake::new(Direction::East, (0, 0));
    assert_eq!(s.step(dims), (0, 0));
    assert_eq!(s.head, (1, 0));
    assert!(s.body.is_empty());
    s.grow(dims);
    assert_eq!(s.step(dims), (1, 0));
    assert_eq!(s.head, (3, 0));
    assert_eq!(s.body.iter().copied().collect::<Vec<_>>(), vec![(2, 0)]);
}

#[test]
fn a_snake_collides_with_the_head_or_tail_of_another() {
    let dims = Dimensions { width: 8, height: 8 };
    let mut long = Snake::new(Direction::East, (0, 0));
    long.grow(dims);
    long.grow(dims);
    let on_tail = Snake::new(Direction::North, (1, 0));
    let on_head = Snake::new(Direction::North, (2, 0));
    let away = Snake::new(Direction::North, (5, 5));
    assert!(on_tail.has_collided(&long));
    assert!(on_head.has_collided(&long));
    assert!(!away.has_collided(&long));
    assert!(!long.has_collided(&away));
}

#[test]
fn a_snake_collides_with_itself_only_on_its_tail() {
    let dims = Dimensions { width: 2, height: 2 };
    let mut s = Snake::new(Direction::East, (0, 0));
    assert!(!s.has_self_collided());
    s.grow(dims);
    assert!(!s.has_self_collided());
    s.grow(dims);
    assert_eq!(s.head, (0, 0));
    assert!(s.has_self_collided());
}

#[test]
fn a_copied_snake_is_the_same_snake() {
    let dims = Dimensions { width: 4, height: 4 };
    let mut s = Snake::new(Direction::South, (1, 1));
    s.grow(dims);
    let t = s.clone();
    assert_eq!(t.dir, s.dir);
    assert_eq!(t.head, s.head);
    assert_eq!(t.body, s.body);
}

#[test]
fn a_seeded_grid_shows_its_snakes_and_no_doodah() {
    let g = Grid::with_snakes(
        4,
        4,
        blank(16),
        vec![7, 9],
        vec![5, 10],
        vec![Direction::North, Direction::West],
    );
    assert_eq!(g.dims().width, 4);
    assert_eq!(g.dims().height, 4);
    assert_eq!(g.tiles()[5], Tile::SnakeHead { id: 7, dir: Direction::North });
    assert_eq!(g.tiles()[10], Tile::SnakeHead { id: 9, dir: Direction::West });
    assert_eq!(count(g.tiles(), Tile::Blank), 14);
    assert_eq!(count(g.tiles(), Tile::Doodah), 0);
    assert_eq!(g.scores().get(&7), Some(&0));
    assert_eq!(g.scores().get(&9), Some(&0));
    assert_eq!(g.scores().len(), 2);
    assert_eq!(g.snake(7).unwrap().head, (1, 1));
    assert_eq!(g.snake(9).unwrap().head, (2, 2));
    assert!(g.is_alive(7));
    assert!(!g.is_alive(8));
}

#[test]
fn players_beyond_the_seeded_cells_get_no_snake() {
    let g = Grid::with_snakes(2, 1, blank(2), vec![0, 1, 2], vec![1], vec![Direction::East]);
    assert!(g.is_alive(0));
    assert!(!g.is_alive(1));
    assert!(!g.is_alive(2));
    assert_eq!(g.scores().len(), 1);
}

#[test]
fn a_new_grid_has_a_snake_for_each_player_and_one_doodah() {
    for _ in 0..20 {
        let g = Grid::new(4, 4, blank(16), vec![0, 1, 2]);
        for id in 0..3 {
            assert!(g.is_alive(id));
            let s = g.snake(id).unwrap();
            assert!(s.body.is_empty());
            let (x, y) = s.head;
            assert_eq!(g.tiles()[x + y * 4], Tile::SnakeHead { id, dir: s.dir });
            assert_eq!(g.scores().get(&id), Some(&0));
        }
        assert_eq!(count(g.tiles(), Tile::Doodah), 1);
        assert_eq!(count(g.tiles(), Tile::Blank), 12);
    }
}

#[test]
fn a_new_grid_puts_snakes_on_blank_tiles_only() {
    let mut tiles = vec![Tile::Wall; 9];
    tiles[4] = Tile::Blank;
    tiles[8] = Tile::Blank;
    for _ in 0..20 {
        let g = Grid::new(3, 3, tiles.clone(), vec![0, 1]);
        assert_eq!(count(g.tiles(), Tile::Wall), 7);
        assert_eq!(count(g.tiles(), Tile::Blank), 0);
        assert_eq!(count(g.tiles(), Tile::Doodah), 0);
        assert!(g.is_alive(0) && g.is_alive(1));
        assert!(matches!(g.tiles()[4], Tile::SnakeHead { .. }));
        assert!(matches!(g.tiles()[8], Tile::SnakeHead { .. }));
    }
}

#[test]
fn a_new_grid_with_more_players_than_blanks_seats_the_first() {
    let mut tiles = vec![Tile::Wall; 4];
    tiles[2] = Tile::Blank;
    let g = Grid::new(2, 2, tiles, vec![0, 1, 2]);
    assert!(g.is_alive(0));
    assert!(!g.is_alive(1));
    assert!(!g.is_alive(2));
    assert_eq!(g.tiles()[2], Tile::SnakeHead { id: 0, dir: g.snake(0).unwrap().dir });
}

#[test]
fn a_grid_without_cells_has_no_snakes() {
    let g = Grid::new(0, 0, Vec::new(), vec![0, 1]);
    assert!(!g.is_alive(0));
    assert!(g.tiles().is_empty());
    assert!(g.step().is_err());
}

#[test]
fn a_doodah_goes_on_a_blank_tile_only_once() {
    let mut tiles = blank(4);
    tiles[1] = Tile::Wall;
    let mut g = one_snake(2, 2, tiles, 0, Direction::East);
    assert!(!g.set_doodah(0));
    assert!(!g.set_doodah(1));
    assert!(!g.set_doodah(4));
    assert!(g.set_doodah(2));
    assert_eq!(g.tiles()[2], Tile::Doodah);
    assert!(!g.set_doodah(3));
    assert_eq!(g.tiles()[3], Tile::Blank);
}

#[test]
fn a_turn_changes_the_heading_of_that_snake_only() {
    let mut g = Grid::with_snakes(
        4,
        4,
        blank(16),
        vec![0, 1],
        vec![0, 5],
        vec![Direction::East, Direction::East],
    );
    g.turn_left(0);
    g.turn_right(1);
    g.turn_left(2);
    assert_eq!(g.snake(0).unwrap().dir, Direction::North);
    assert_eq!(g.snake(1).unwrap().dir, Direction::South);
    assert_eq!(g.snake(0).unwrap().head, (0, 0));
    assert_eq!(g.scores().len(), 2);
}

#[test]
fn a_deleted_snake_is_gone_and_keeps_its_score() {
    let mut g = one_snake(4, 4, blank(16), 0, Direction::East);
    g.delete_snake(0);
    g.delete_snake(3);
    assert!(!g.is_alive(0));
    assert!(g.snake(0).is_none());
    assert_eq!(g.scores().get(&0), Some(&0));
}

#[test]
fn a_snake_steps_onto_a_blank_tile() {
    let g = one_snake(4, 4, blank(16), 5, Direction::North);
    let (next, taken) = g.advance().unwrap();
    assert!(!taken);
    assert_eq!(next.snake(0).unwrap().head, (1, 2));
    assert!(next.snake(0).unwrap().body.is_empty());
    assert_eq!(next.tiles()[9], Tile::SnakeHead { id: 0, dir: Direction::North });
    assert_eq!(next.tiles()[5], Tile::Blank);
    assert_eq!(count(next.tiles(), Tile::Blank), 15);
    assert_eq!(next.scores().get(&0), Some(&0));
}

#[test]
fn a_snake_wraps_around_the_grid_as_it_moves() {
    let g = one_snake(3, 2, blank(6), 2, Direction::East);
    let (next, _) = g.advance().unwrap();
    assert_eq!(next.snake(0).unwrap().head, (0, 0));
    assert_eq!(next.tiles()[0], Tile::SnakeHead { id: 0, dir: Direction::East });
    let g = one_snake(3, 2, blank(6), 1, Direction::South);
    let (next, _) = g.advance().unwrap();
    assert_eq!(next.snake(0).unwrap().head, (1, 1));
}

#[test]
fn a_snake_on_a_doodah_grows_by_one() {
    let mut g = one_snake(4, 4, blank(16), 0, Direction::East);
    assert!(g.set_doodah(1));
    let (next, taken) = g.advance().unwrap();
    assert!(taken);
    let s = next.snake(0).unwrap();
    assert_eq!(s.head, (1, 0));
    assert_eq!(s.body.iter().copied().collect::<Vec<_>>(), vec![(0, 0)]);
    assert_eq!(next.scores().get(&0), Some(&1));
    assert_eq!(next.tiles()[1], Tile::SnakeHead { id: 0, dir: Direction::East });
    assert_eq!(next.tiles()[0], Tile::SnakeBody { id: 0, index: 0 });
    assert_eq!(count(next.tiles(), Tile::Doodah), 0);
    assert_eq!(count(next.tiles(), Tile::Blank), 14);
}

#[test]
fn one_step_onto_the_doodah_on_four_by_four() {
    for _ in 0..20 {
        let mut g = one_snake(4, 4, blank(16), 0, Direction::East);
        assert!(g.set_doodah(1));
        let next = g.step().unwrap();
        let s = next.snake(0).unwrap();
        assert_eq!(s.head, (1, 0));
        assert_eq!(s.body.iter().copied().collect::<Vec<_>>(), vec![(0, 0)]);
        assert_eq!(s.score(), 1);
        assert_eq!(next.scores().get(&0), Some(&1));
        assert_ne!(next.tiles()[1], Tile::Doodah);
        assert_ne!(next.tiles()[0], Tile::Doodah);
        assert_eq!(count(next.tiles(), Tile::Doodah), 1);
        assert_eq!(count(next.tiles(), Tile::Blank), 13);
    }
}

#[test]
fn no_doodah_comes_back_on_a_full_grid() {
    let mut g = one_snake(2, 1, blank(2), 0, Direction::East);
    assert!(g.set_doodah(1));
    let next = g.step().unwrap();
    assert_eq!(next.tiles()[1], Tile::SnakeHead { id: 0, dir: Direction::East });
    assert_eq!(next.tiles()[0], Tile::SnakeBody { id: 0, index: 0 });
    assert_eq!(count(next.tiles(), Tile::Doodah), 0);
}

#[test]
fn a_step_without_a_doodah_in_reach_is_the_same_every_time() {
    let mut g = Grid::with_snakes(
        4,
        4,
        blank(16),
        vec![0, 1],
        vec![0, 10],
        vec![Direction::East, Direction::South],
    );
    assert!(g.set_doodah(15));
    let first = g.clone().step().unwrap();
    for _ in 0..10 {
        let again = g.clone().step().unwrap();
        assert_eq!(again.tiles(), first.tiles());
        assert_eq!(again.scores(), first.scores());
        assert_eq!(again.snake(0).unwrap().head, first.snake(0).unwrap().head);
        assert_eq!(again.snake(1).unwrap().head, first.snake(1).unwrap().head);
    }
    assert_eq!(first.tiles()[15], Tile::Doodah);
    assert_eq!(first.tiles()[1], Tile::SnakeHead { id: 0, dir: Direction::East });
    assert_eq!(first.tiles()[6], Tile::SnakeHead { id: 1, dir: Direction::South });
}

#[test]
fn the_last_snake_into_a_wall_ends_the_game() {
    let mut tiles = blank(3);
    tiles[2] = Tile::Wall;
    let mut g = one_snake(3, 1, tiles, 0, Direction::East);
    assert!(g.set_doodah(1));
    let next = g.step().unwrap();
    assert_eq!(next.snake(0).unwrap().score(), 1);
    let scores = next.step().unwrap_err();
    assert_eq!(scores.len(), 1);
    assert_eq!(scores.get(&0), Some(&1));
}

#[test]
fn a_snake_into_a_wall_leaves_the_others_playing() {
    let mut tiles = blank(8);
    tiles[1] = Tile::Wall;
    let g = Grid::with_snakes(
        4,
        2,
        tiles,
        vec![0, 1],
        vec![0, 4],
        vec![Direction::East, Direction::East],
    );
    let (next, taken) = g.advance().unwrap();
    assert!(!taken);
    assert!(!next.is_alive(0));
    assert!(next.is_alive(1));
    assert_eq!(next.tiles()[0], Tile::Blank);
    assert_eq!(next.tiles()[1], Tile::Wall);
    assert_eq!(next.tiles()[5], Tile::SnakeHead { id: 1, dir: Direction::East });
    assert_eq!(next.scores().get(&0), Some(&0));
}

fn snake_of_two() -> Grid {
    let mut g = one_snake(4, 4, blank(16), 0, Direction::East);
    assert!(g.set_doodah(1));
    let (mut g, taken) = g.advance().unwrap();
    assert!(taken);
    assert!(g.set_doodah(2));
    let (g, taken) = g.advance().unwrap();
    assert!(taken);
    assert_eq!(g.snake(0).unwrap().head, (2, 0));
    assert_eq!(g.snake(0).unwrap().score(), 2);
    g
}

#[test]
fn a_snake_that_turns_back_onto_its_tail_is_gone() {
    let mut g = snake_of_two();
    g.turn_left(0);
    g.turn_left(0);
    assert_eq!(g.snake(0).unwrap().dir, Direction::West);
    let scores = g.step().unwrap_err();
    assert_eq!(scores.get(&0), Some(&2));
}

#[test]
fn a_snake_that_turns_back_dies_and_the_rest_play_on() {
    let mut g = Grid::with_snakes(
        4,
        4,
        blank(16),
        vec![0, 1],
        vec![0, 12],
        vec![Direction::East, Direction::East],
    );
    assert!(g.set_doodah(1));
    let (mut g, _) = g.advance().unwrap();
    assert!(g.set_doodah(2));
    let (mut g, _) = g.advance().unwrap();
    g.turn_right(0);
    g.turn_right(0);
    let (next, taken) = g.advance().unwrap();
    assert!(!taken);
    assert!(!next.is_alive(0));
    assert!(next.is_alive(1));
    assert_eq!(next.scores().get(&0), Some(&2));
    assert_eq!(next.tiles()[0], Tile::Blank);
    assert_eq!(next.tiles()[1], Tile::Blank);
    assert_eq!(next.tiles()[2], Tile::Blank);
    assert_eq!(count(next.tiles(), Tile::Blank), 15);
}

#[test]
fn a_snake_may_follow_the_tip_of_its_tail() {
    let mut g = one_snake(2, 2, blank(4), 0, Direction::East);
    assert!(g.set_doodah(1));
    let (mut g, _) = g.advance().unwrap();
    g.turn_left(0);
    assert!(g.set_doodah(3));
    let (mut g, _) = g.advance().unwrap();
    g.turn_left(0);
    assert!(g.set_doodah(2));
    let (mut g, _) = g.advance().unwrap();
    assert_eq!(g.snake(0).unwrap().head, (0, 1));
    assert_eq!(
        g.snake(0).unwrap().body.iter().copied().collect::<Vec<_>>(),
        vec![(0, 0), (1, 0), (1, 1)]
    );
    g.turn_left(0);
    let (next, taken) = g.advance().unwrap();
    assert!(!taken);
    assert!(next.is_alive(0));
    assert_eq!(next.snake(0).unwrap().head, (0, 0));
    assert_eq!(next.snake(0).unwrap().score(), 3);
}

#[test]
fn two_snakes_heading_for_one_cell_are_both_gone() {
    let g = Grid::with_snakes(
        4,
        1,
        blank(4),
        vec![0, 1],
        vec![0, 2],
        vec![Direction::East, Direction::West],
    );
    let scores = g.step().unwrap_err();
    assert_eq!(scores.len(), 2);
    assert_eq!(scores.get(&0), Some(&0));
    assert_eq!(scores.get(&1), Some(&0));
}

#[test]
fn two_snakes_heading_for_one_cell_leave_a_third_alone() {
    let g = Grid::with_snakes(
        4,
        2,
        blank(8),
        vec![0, 1, 2],
        vec![0, 2, 4],
        vec![Direction::East, Direction::West, Direction::East],
    );
    let (next, taken) = g.advance().unwrap();
    assert!(!taken);
    assert!(!next.is_alive(0));
    assert!(!next.is_alive(1));
    assert!(next.is_alive(2));
    assert_eq!(next.tiles()[1], Tile::Blank);
    assert_eq!(next.tiles()[5], Tile::SnakeHead { id: 2, dir: Direction::East });
}

#[test]
fn two_snakes_that_take_the_doodah_together_die_with_it_on_their_score() {
    let mut g = Grid::with_snakes(
        4,
        2,
        blank(8),
        vec![0, 1, 2],
        vec![0, 2, 4],
        vec![Direction::East, Direction::West, Direction::West],
    );
    assert!(g.set_doodah(1));
    let (next, taken) = g.advance().unwrap();
    assert!(taken);
    assert!(!next.is_alive(0));
    assert!(!next.is_alive(1));
    assert!(next.is_alive(2));
    assert_eq!(next.scores().get(&0), Some(&1));
    assert_eq!(next.scores().get(&1), Some(&1));
    assert_eq!(next.scores().get(&2), Some(&0));
    assert_eq!(next.tiles()[1], Tile::Blank);
    assert_eq!(count(next.tiles(), Tile::Doodah), 0);
}

#[test]
fn a_snake_that_runs_into_the_tail_of_another_is_gone() {
    let mut g = Grid::with_snakes(
        4,
        4,
        blank(16),
        vec![0, 1],
        vec![0, 6],
        vec![Direction::East, Direction::South],
    );
    assert!(g.set_doodah(1));
    let (mut g, _) = g.advance().unwrap();
    assert_eq!(g.snake(1).unwrap().head, (2, 0));
    assert!(g.set_doodah(3));
    g.turn_left(1);
    let (next, taken) = g.advance().unwrap();
    assert!(taken);
    assert!(!next.is_alive(0));
    assert!(next.is_alive(1));
    assert_eq!(next.snake(1).unwrap().head, (3, 0));
    assert_eq!(next.scores().get(&0), Some(&1));
    assert_eq!(next.scores().get(&1), Some(&1));
}

#[test]
fn the_grid_in_the_history_is_a_copy() {
    let g = one_snake(4, 4, blank(16), 0, Direction::East);
    let copy = g.clone();
    let (next, _) = g.advance().unwrap();
    assert_eq!(copy.snake(0).unwrap().head, (0, 0));
    assert_eq!(next.snake(0).unwrap().head, (1, 0));
    assert_eq!(copy.tiles()[0], Tile::SnakeHead { id: 0, dir: Direction::East });
}
