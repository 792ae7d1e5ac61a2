use snake_arena::game::Direction;
use snake_arena::game::Tile;
use snake_arena::protocol::Request;
use snake_arena::room::run;
use snake_arena::room::Room;
use snake_arena::room::RoomError;
use snake_arena::room::State;
use snake_arena::room::Tick;
use snake_arena::room::WaitingList;
use snake_arena::roster::AddrMap;
use snake_arena::roster::Address;

fn addr(n: u16) -> Address {
    Address::V4 { ip: 0x7f00_0001, port: n }
}

fn room(width: usize, height: usize, tiles: Vec<Tile>) -> Room<u32, u32> {
    Room::new(width, height, tiles, None, "Simple".to_string(), "A room.".to_string())
}

fn waiting(ports: &[u16]) -> WaitingList<u32> {
    let mut list = WaitingList::new();
    for p in ports {
        assert!(!list.insert(addr(*p), format!("player {}", p), 100 + *p as u32));
    }
    list
}

#[test]
fn a_table_keeps_one_entry_for_an_address() {
    let mut t: AddrMap<u8> = AddrMap::new();
    assert!(t.is_empty());
    assert_eq!(t.insert(addr(1), 10), None);
    assert_eq!(t.insert(addr(2), 20), None);
    assert_eq!(t.insert(addr(1), 11), Some(10));
    assert_eq!(t.len(), 2);
    assert_eq!(t.get(&addr(1)), Some(&11));
    assert_eq!(t.get(&addr(3)), None);
    assert_eq!(t.find(&addr(2)), Some(1));
    assert_eq!(*t.entry(0), (addr(1), 11));
    assert_eq!(t.remove(&addr(1)), Some(11));
    assert_eq!(t.remove(&addr(1)), None);
    assert_eq!(t.into_entries(), vec![(addr(2), 20)]);
}

#[test]
fn addresses_differ_by_kind_address_and_port() {
    let a = Address::V4 { ip: 1, port: 80 };
    assert_eq!(a, Address::V4 { ip: 1, port: 80 });
    assert_ne!(a, Address::V4 { ip: 1, port: 81 });
    assert_ne!(a, Address::V4 { ip: 2, port: 80 });
    assert_ne!(a, Address::V6 { ip: 1, port: 80, flowinfo: 0, scope_id: 0 });
}

#[test]
fn the_waiting_list_overwrites_and_says_so() {
    let mut list: WaitingList<u32> = WaitingList::new();
    assert!(!list.insert(addr(1), "ann".to_string(), 1));
    assert!(!list.insert(addr(2), "bob".to_string(), 2));
    assert!(list.insert(addr(1), "cat".to_string(), 3));
    assert_eq!(
        list.waiters(),
        vec![(addr(1), "cat".to_string()), (addr(2), "bob".to_string())]
    );
    assert!(list.remove(&addr(1)));
    assert!(!list.remove(&addr(1)));
    assert_eq!(list.waiters(), vec![(addr(2), "bob".to_string())]);
    list.clear();
    assert!(list.waiters().is_empty());
}

#[test]
fn a_new_room_waits_with_nobody_in_it() {
    let r = room(2, 2, vec![Tile::Blank; 4]);
    assert!(r.is_waiting());
    assert!(matches!(r.get_state(), State::Waiting { players } if players.is_empty()));
    assert!(r.history.is_empty());
    assert_eq!(r.width, 2);
    assert_eq!(r.height, 2);
    assert_eq!(r.name, "Simple");
    assert_eq!(r.description, "A room.");
    assert_eq!(r.timestep, None);
    assert!(r.grid().is_none());
    assert!(!r.is_alive(0));
}

#[test]
fn subscribing_moves_a_waiter_into_the_room() {
    let mut r = room(2, 2, vec![Tile::Blank; 4]);
    let mut list = waiting(&[1, 2]);
    assert_eq!(list.subscribe(&addr(2), &mut r), Ok(()));
    assert_eq!(list.waiters(), vec![(addr(1), "player 1".to_string())]);
    match r.get_state() {
        State::Waiting { players } => assert_eq!(players, vec![(addr(2), "player 2".to_string())]),
        _ => panic!("the room should wait"),
    }
}

#[test]
fn subscribing_an_unknown_address_fails() {
    let mut r = room(2, 2, vec![Tile::Blank; 4]);
    let mut list = waiting(&[1]);
    assert_eq!(list.subscribe(&addr(9), &mut r), Err(RoomError::NotQueued));
    assert_eq!(list.waiters().len(), 1);
    assert!(matches!(r.get_state(), State::Waiting { players } if players.is_empty()));
}

#[test]
fn subscribing_to_a_room_in_play_fails_and_keeps_the_waiter() {
    let mut r = room(2, 2, vec![Tile::Blank; 4]);
    let mut list = waiting(&[1, 2]);
    assert_eq!(list.subscribe(&addr(1), &mut r), Ok(()));
    assert!(run(&mut r, 7).is_some());
    assert_eq!(list.subscribe(&addr(2), &mut r), Err(RoomError::InProgress));
    assert_eq!(list.subscribe(&addr(9), &mut r), Err(RoomError::NotQueued));
    assert_eq!(list.waiters(), vec![(addr(2), "player 2".to_string())]);
}

#[test]
fn unsubscribing_moves_a_player_back_to_the_list() {
    let mut r = room(2, 2, vec![Tile::Blank; 4]);
    let mut list = waiting(&[1, 2]);
    assert_eq!(list.subscribe(&addr(1), &mut r), Ok(()));
    assert_eq!(list.subscribe(&addr(2), &mut r), Ok(()));
    assert_eq!(r.unsubscribe(&addr(1), &mut list), Ok(()));
    assert_eq!(list.waiters(), vec![(addr(1), "player 1".to_string())]);
    match r.get_state() {
        State::Waiting { players } => assert_eq!(players, vec![(addr(2), "player 2".to_string())]),
        _ => panic!("the room should wait"),
    }
    assert_eq!(r.unsubscribe(&addr(1), &mut list), Err(RoomError::NotInRoom));
}

#[test]
fn unsubscribing_from_a_room_in_play_fails() {
    let mut r = room(2, 2, vec![Tile::Blank; 4]);
    let mut list = waiting(&[1]);
    assert_eq!(list.subscribe(&addr(1), &mut r), Ok(()));
    assert!(run(&mut r, 7).is_some());
    assert_eq!(r.unsubscribe(&addr(1), &mut list), Err(RoomError::NotInRoom));
    assert!(list.waiters().is_empty());
}

#[test]
fn each_failure_has_its_words() {
    assert_eq!(RoomError::NotQueued.message(), "address not in wait queue");
    assert_eq!(RoomError::InProgress.message(), "provided room is already in progress");
    assert_eq!(RoomError::NotInRoom.message(), "address not in room");
}

#[test]
fn an_empty_room_does_not_start() {
    let mut r = room(2, 2, vec![Tile::Blank; 4]);
    assert!(run(&mut r, 7).is_none());
    assert!(r.is_waiting());
}

#[test]
fn a_room_in_play_does_not_start_again() {
    let mut r = room(2, 2, vec![Tile::Blank; 4]);
    let mut list = waiting(&[1]);
    assert_eq!(list.subscribe(&addr(1), &mut r), Ok(()));
    assert!(run(&mut r, 7).is_some());
    assert!(run(&mut r, 8).is_none());
    assert_eq!(r.reset(), Some(7));
}

#[test]
fn starting_gives_each_player_a_snake_and_a_session() {
    let mut r = room(4, 4, vec![Tile::Blank; 16]);
    let mut list = waiting(&[1, 2, 3]);
    for p in [2, 1, 3] {
        assert_eq!(list.subscribe(&addr(p), &mut r), Ok(()));
    }
    let sessions = run(&mut r, 7).unwrap();
    assert_eq!(sessions, vec![(0, addr(2), 102), (1, addr(1), 101), (2, addr(3), 103)]);
    assert!(!r.is_waiting());
    match r.get_state() {
        State::Playing { map, players } => {
            assert_eq!(
                players,
                vec![
                    (addr(2), "player 2".to_string(), 0),
                    (addr(1), "player 1".to_string(), 1),
                    (addr(3), "player 3".to_string(), 2)
                ]
            );
            for id in 0..3 {
                assert!(map.is_alive(id));
                assert_eq!(map.scores().get(&id), Some(&0));
            }
            assert_eq!(map.scores().len(), 3);
            assert_eq!(map.tiles().iter().filter(|t| **t == Tile::Doodah).count(), 1);
        },
        _ => panic!("the room should play"),
    }
    for id in 0..3 {
        assert!(r.is_alive(id));
    }
    assert!(!r.is_alive(3));
    assert!(r.history.is_empty());
}

#[test]
fn a_command_turns_the_snake_and_no_answer_removes_it() {
    let mut r = room(4, 4, vec![Tile::Blank; 16]);
    let mut list = waiting(&[1, 2, 3]);
    for p in [1, 2, 3] {
        assert_eq!(list.subscribe(&addr(p), &mut r), Ok(()));
    }
    assert!(run(&mut r, 7).is_some());
    let before: Vec<Direction> =
        (0..3).map(|id| r.grid().unwrap().snake(id).unwrap().dir).collect();
    assert!(r.do_client_step(0, Some(Request::Left)));
    assert!(r.do_client_step(1, Some(Request::Right)));
    assert!(r.do_client_step(2, Some(Request::Forward)));
    let g = r.grid().unwrap();
    assert_eq!(g.snake(0).unwrap().dir, before[0].left());
    assert_eq!(g.snake(1).unwrap().dir, before[1].right());
    assert_eq!(g.snake(2).unwrap().dir, before[2]);
    assert!(!r.do_client_step(1, None));
    assert!(r.is_alive(0));
    assert!(!r.is_alive(1));
    assert!(r.is_alive(2));
}

#[test]
fn a_command_to_a_room_without_a_game_changes_nothing() {
    let mut r = room(2, 2, vec![Tile::Blank; 4]);
    assert!(r.do_client_step(0, Some(Request::Left)));
    assert!(!r.do_client_step(0, None));
    assert!(r.is_waiting());
    assert_eq!(r.do_server_step(), Tick::Stray);
    assert!(r.history.is_empty());
}

#[test]
fn a_tick_files_the_grid_and_goes_on() {
    let mut r = room(4, 4, vec![Tile::Blank; 16]);
    let mut list = waiting(&[1]);
    assert_eq!(list.subscribe(&addr(1), &mut r), Ok(()));
    assert!(run(&mut r, 7).is_some());
    let head = r.grid().unwrap().snake(0).unwrap().head;
    assert_eq!(r.do_server_step(), Tick::Continue);
    let after_one = r.grid().unwrap().snake(0).unwrap().head;
    assert_ne!(after_one, head);
    assert_eq!(r.history.len(), 1);
    assert_eq!(r.history[0].snake(0).unwrap().head, after_one);
    assert_eq!(r.history[0].tiles(), r.grid().unwrap().tiles());
    assert_eq!(r.do_server_step(), Tick::Continue);
    let after_two = r.grid().unwrap().snake(0).unwrap().head;
    assert_eq!(r.history.len(), 2);
    assert_eq!(r.history[0].snake(0).unwrap().head, after_one);
    assert_eq!(r.history[1].snake(0).unwrap().head, after_two);
}

#[test]
fn the_game_ends_when_the_last_snake_is_gone() {
    let mut r = room(4, 4, vec![Tile::Blank; 16]);
    let mut list = waiting(&[1, 2]);
    assert_eq!(list.subscribe(&addr(1), &mut r), Ok(()));
    assert_eq!(list.subscribe(&addr(2), &mut r), Ok(()));
    assert!(run(&mut r, 7).is_some());
    assert!(!r.do_client_step(0, None));
    assert!(!r.do_client_step(1, None));
    assert_eq!(r.do_server_step(), Tick::Break);
    assert_eq!(r.history.len(), 1);
    match r.get_state() {
        State::Finished { scores } => assert_eq!(
            scores,
            vec![(addr(1), "player 1".to_string(), 0), (addr(2), "player 2".to_string(), 0)]
        ),
        _ => panic!("the room should have finished"),
    }
    assert_eq!(r.do_server_step(), Tick::Stray);
    assert!(run(&mut r, 8).is_none());
    assert_eq!(r.reset(), None);
    assert!(r.is_waiting());
}

#[test]
fn a_player_without_a_snake_has_no_final_score() {
    let mut tiles = vec![Tile::Wall; 4];
    tiles[3] = Tile::Blank;
    let mut r = room(2, 2, tiles);
    let mut list = waiting(&[1, 2]);
    assert_eq!(list.subscribe(&addr(1), &mut r), Ok(()));
    assert_eq!(list.subscribe(&addr(2), &mut r), Ok(()));
    let sessions = run(&mut r, 7).unwrap();
    assert_eq!(sessions.len(), 2);
    assert!(r.is_alive(0));
    assert!(!r.is_alive(1));
    assert_eq!(r.do_server_step(), Tick::Break);
    match r.get_state() {
        State::Finished { scores } => {
            assert_eq!(scores, vec![(addr(1), "player 1".to_string(), 0)])
        },
        _ => panic!("the room should have finished"),
    }
}

#[test]
fn resetting_a_waiting_room_empties_it() {
    let mut r = room(2, 2, vec![Tile::Blank; 4]);
    let mut list = waiting(&[1]);
    assert_eq!(list.subscribe(&addr(1), &mut r), Ok(()));
    assert_eq!(r.reset(), None);
    assert!(matches!(r.get_state(), State::Waiting { players } if players.is_empty()));
}

#[test]
fn a_room_starts_afresh_after_a_reset_in_play() {
    let mut r = room(4, 4, vec![Tile::Blank; 16]);
    let mut list = waiting(&[1, 2, 3]);
    for p in [1, 2, 3] {
        assert_eq!(list.subscribe(&addr(p), &mut r), Ok(()));
    }
    assert!(run(&mut r, 7).is_some());
    assert_eq!(r.do_server_step(), Tick::Continue);
    assert_eq!(r.reset(), Some(7));
    assert!(r.is_waiting());
    assert_eq!(r.history.len(), 1);
    let mut list = waiting(&[4, 5]);
    assert_eq!(list.subscribe(&addr(4), &mut r), Ok(()));
    assert_eq!(list.subscribe(&addr(5), &mut r), Ok(()));
    let sessions = run(&mut r, 8).unwrap();
    assert_eq!(sessions, vec![(0, addr(4), 104), (1, addr(5), 105)]);
    let g = r.grid().unwrap();
    assert!(g.is_alive(0) && g.is_alive(1) && !g.is_alive(2));
    assert_eq!(g.scores().len(), 2);
    assert!(g.snake(0).unwrap().body.is_empty());
    assert_eq!(g.tiles().iter().filter(|t| matches!(t, Tile::SnakeHead { .. })).count(), 2);
    assert_eq!(g.tiles().iter().filter(|t| matches!(t, Tile::SnakeBody { .. })).count(), 0);
}

#[test]
fn a_room_starts_afresh_after_a_game_that_ended() {
    let mut r = room(4, 4, vec![Tile::Blank; 16]);
    let mut list = waiting(&[1, 2]);
    assert_eq!(list.subscribe(&addr(1), &mut r), Ok(()));
    assert_eq!(list.subscribe(&addr(2), &mut r), Ok(()));
    assert!(run(&mut r, 7).is_some());
    assert!(!r.do_client_step(0, None));
    assert!(!r.do_client_step(1, None));
    assert_eq!(r.do_server_step(), Tick::Break);
    assert_eq!(r.reset(), None);
    let mut list = waiting(&[3]);
    assert_eq!(list.subscribe(&addr(3), &mut r), Ok(()));
    let sessions = run(&mut r, 9).unwrap();
    assert_eq!(sessions, vec![(0, addr(3), 103)]);
    let g = r.grid().unwrap();
    assert!(g.is_alive(0) && !g.is_alive(1));
    assert_eq!(g.scores().len(), 1);
    assert_eq!(r.reset(), Some(9));
}

#[test]
fn a_living_snake_is_shown_the_grid_and_owes_an_answer() {
    let mut r = room(4, 4, vec![Tile::Blank; 16]);
    let mut list = waiting(&[1, 2]);
    assert_eq!(list.subscribe(&addr(1), &mut r), Ok(()));
    assert_eq!(list.subscribe(&addr(2), &mut r), Ok(()));
    assert!(run(&mut r, 7).is_some());
    assert_eq!(
        r.brief(0, "{\"width\":4}"),
        ("{\"state\":\"playing\",\"map\":{\"width\":4}}".to_string(), true)
    );
    assert!(!r.do_client_step(1, None));
    assert_eq!(
        r.brief(1, "{\"width\":4}"),
        ("{\"state\":\"dead\",\"map\":{\"width\":4}}".to_string(), false)
    );
}

#[test]
fn nobody_is_waited_for_in_a_room_without_a_game() {
    let r = room(2, 2, vec![Tile::Blank; 4]);
    assert_eq!(r.brief(0, "{}"), ("{\"state\":\"dead\",\"map\":{}}".to_string(), false));
}

#[test]
fn a_room_tells_how_it_is_set_up() {
    let tiles = vec![Tile::Wall, Tile::Blank, Tile::Blank, Tile::Wall, Tile::Blank, Tile::Blank];
    let r: Room<u32, u32> = Room::new(
        3,
        2,
        tiles.clone(),
        Some(std::time::Duration::from_millis(250)),
        "Boxed".to_string(),
        "Two rows.".to_string(),
    );
    assert_eq!(r.width(), 3);
    assert_eq!(r.height(), 2);
    assert_eq!(r.tiles(), &tiles);
    assert_eq!(r.timestep(), Some(std::time::Duration::from_millis(250)));
    assert_eq!(r.name(), "Boxed");
    assert_eq!(r.description(), "Two rows.");
    assert!(r.history().is_empty());
}

#[test]
fn a_room_is_ready_once_somebody_is_in() {
    let mut r = room(2, 2, vec![Tile::Blank; 4]);
    assert!(!r.is_ready());
    let mut list = waiting(&[1]);
    assert_eq!(list.subscribe(&addr(1), &mut r), Ok(()));
    assert!(r.is_ready());
    assert!(run(&mut r, 7).is_some());
    assert!(!r.is_ready());
    assert_eq!(r.do_server_step(), Tick::Continue);
    assert_eq!(r.history().len(), 1);
    assert_eq!(r.reset(), Some(7));
    assert!(!r.is_ready());
}

#[test]
fn a_room_with_bad_tiles_and_nobody_in_it_does_not_start() {
    let mut r = room(3, 3, vec![Tile::Doodah; 2]);
    assert!(run(&mut r, 7).is_none());
    assert!(r.is_waiting());
}
