//! A game room, and the list of those who wait for one.

use crate::game::Dimensions;
use crate::game::Direction;
use crate::game::Grid;
use crate::game::SnakeID;
use crate::game::SnakeView;
use crate::game::Tile;
use crate::game::copy_tiles;
use crate::game::scores_of;
use crate::protocol::Request;
use crate::protocol::snapshot_message;
use crate::protocol::snapshot_text;
use crate::roster::AddrMap;
use crate::roster::Address;
use crate::roster::distinct;
use crate::roster::index_of;
use crate::roster::listed;
use crate::roster::put;
use crate::roster::without;
use crate::rules::GridView;
use crate::rules::fresh;
use crate::rules::plain;
use std::collections::HashMap;
use std::time::Duration;
use vstd::prelude::*;

verus! {

/// Why a connection could not be moved.
#[derive(PartialEq, Eq, Structural, Copy, Clone, Debug)]
pub enum RoomError {
    /// The address is not in the waiting list.
    NotQueued,
    /// The room has left the waiting state.
    InProgress,
    /// The address is not among those who wait in the room.
    NotInRoom,
}

impl RoomError {
    /// The failure in words.
    pub fn message(&self) -> (text: &'static str)
        ensures
            text@ == match *self {
                RoomError::NotQueued => "address not in wait queue"@,
                RoomError::InProgress => "provided room is already in progress"@,
                RoomError::NotInRoom => "address not in room"@,
            },
    {
        match self {
            RoomError::NotQueued => "address not in wait queue",
            RoomError::InProgress => "provided room is already in progress",
            RoomError::NotInRoom => "address not in room",
        }
    }
}

/// The addresses and names of `entries`, in order.
pub open spec fn names_of<S>(entries: Seq<(Address, (String, S))>) -> Seq<(Address, String)> {
    Seq::new(entries.len(), |i: int| (entries[i].0, entries[i].1.0))
}

/// People that are waiting for a room, each with the stream that leads to
/// them.
#[derive(Debug)]
pub struct WaitingList<S> {
    waiters: AddrMap<(String, S)>,
}

impl<S> View for WaitingList<S> {
    type V = Seq<(Address, (String, S))>;

    closed spec fn view(&self) -> Seq<(Address, (String, S))> {
        self.waiters@
    }
}

impl<S> WaitingList<S> {
    /// Whether the list is in order: no address waits twice.
    pub open spec fn wf(&self) -> bool {
        distinct(self@)
    }

    /// Create the waiting list.
    pub fn new() -> (list: Self)
        ensures
            list@ == Seq::<(Address, (String, S))>::empty(),
            list.wf(),
    {
        WaitingList { waiters: AddrMap::new() }
    }

    /// Insert the connection into the list.
    ///
    /// Returns `true` if it overwrote an existing waiter.
    pub fn insert(&mut self, addr: Address, name: String, stream: S) -> (displaced: bool)
        requires
            old(self).wf(),
        ensures
            final(self).wf(),
            displaced == listed(old(self)@, addr),
            final(self)@ == put(old(self)@, addr, (name, stream)),
    {
        self.waiters.insert(addr, (name, stream)).is_some()
    }

    /// Removes a connection from the waiting list.
    ///
    /// Returns `true` if it removed something.
    pub fn remove(&mut self, addr: &Address) -> (removed: bool)
        requires
            old(self).wf(),
        ensures
            final(self).wf(),
            removed == listed(old(self)@, *addr),
            final(self)@ == without(old(self)@, *addr),
    {
        self.waiters.remove(addr).is_some()
    }

    /// Clear the waiting list.
    pub fn clear(&mut self)
        ensures
            final(self)@ == Seq::<(Address, (String, S))>::empty(),
            final(self).wf(),
    {
        self.waiters.clear();
    }

    /// Get the list of people in the waiting list.
    pub fn waiters(&self) -> (list: Vec<(Address, String)>)
        ensures
            list@ == names_of(self@),
    {
        names_in(&self.waiters)
    }
}

/// The addresses and names of a table, in order.
fn names_in<S>(table: &AddrMap<(String, S)>) -> (list: Vec<(Address, String)>)
    ensures
        list@ == names_of(table@),
{
    let mut list: Vec<(Address, String)> = Vec::new();
    let mut i: usize = 0;
    while i < table.len()
        invariant
            i <= table@.len(),
            list@.len() == i,
            forall|j: int| 0 <= j < i ==> list@[j] == (table@[j].0, table@[j].1.0),
        decreases table@.len() - i,
    {
        let entry = table.entry(i);
        list.push((entry.0, entry.1.0.clone()));
        i += 1;
    }
    assert(list@ =~= names_of(table@));
    list
}

/// Where a room stands.
#[derive(Debug)]
enum RoomState<B> {
    Waiting,
    Playing { map: Grid, addrs: AddrMap<(String, SnakeID)>, breaker: B },
    Finished { scores: AddrMap<(String, usize)> },
}

/// Where a room stands, for those who look at it from outside.
#[derive(Debug)]
#[allow(inconsistent_fields)]
pub enum State {
    /// The room takes players in.
    Waiting { players: Vec<(Address, String)> },
    /// A game is on: the grid as it is now, and each player with its name
    /// and the number of its snake.
    Playing { map: Grid, players: Vec<(Address, String, SnakeID)> },
    /// The game is over: each player that had a snake, with its name and
    /// final score.
    Finished { scores: Vec<(Address, String, usize)> },
}

/// Where a room stands, as a mathematical value.
pub enum Phase<S, B> {
    /// The room takes players in: those who are in, each with its name and
    /// stream, in the order in which they came.
    Waiting { players: Seq<(Address, (String, S))> },
    /// A game is on: the grid, the players with their names and the
    /// numbers of their snakes, and the handle that calls the game off.
    Playing { grid: GridView, seats: Seq<(Address, (String, SnakeID))>, breaker: B },
    /// The game is over: the players that had a snake, with their names
    /// and final scores.
    Finished { scores: Seq<(Address, (String, nat))> },
}

/// Whether some seat belongs to snake `id`.
pub open spec fn seated_here(seats: Seq<(Address, (String, SnakeID))>, id: SnakeID) -> bool {
    exists|i: int| 0 <= i < seats.len() && (#[trigger] seats[i]).1.1 == id
}

impl<S, B> Phase<S, B> {
    /// Whether the room is in order: no address is in it twice; while a
    /// game is on, the grid is playable, no two players share a snake, and
    /// every snake with a score has a player.
    pub open spec fn valid(self) -> bool {
        match self {
            Phase::Waiting { players } => distinct(players),
            Phase::Playing { grid, seats, breaker } => {
                &&& grid.wf()
                &&& distinct(seats)
                &&& forall|i: int, j: int|
                    0 <= i < seats.len() && 0 <= j < seats.len() && i != j ==> (#[trigger] seats[i]).1.1
                        != (#[trigger] seats[j]).1.1
                &&& forall|id: SnakeID| #[trigger]
                    grid.scores.contains_key(id) ==> seated_here(seats, id)
            },
            Phase::Finished { scores } => distinct(scores),
        }
    }
}

/// A room as a mathematical value.
pub struct RoomView<S, B> {
    /// Where the room stands.
    pub phase: Phase<S, B>,
    /// Every grid the room has played on, oldest first.
    pub history: Seq<GridView>,
    /// How long a player has to answer on each tick, if there is a limit.
    pub timestep: Option<Duration>,
    /// The width of the grid that a game starts on.
    pub width: usize,
    /// The height of the grid that a game starts on.
    pub height: usize,
    /// The tiles that a game starts on, row by row.
    pub tiles: Seq<Tile>,
    /// The name of the room.
    pub name: Seq<char>,
    /// The description of the room.
    pub description: Seq<char>,
}

impl<S, B> RoomView<S, B> {
    /// Whether the room can start a game: it takes players in, and at
    /// least one is in.
    pub open spec fn ready(self) -> bool {
        self.phase matches Phase::Waiting { players } && players.len() > 0
    }

    /// Whether the tiles cover the grid that a game starts on and hold
    /// nothing but walls and blanks.
    pub open spec fn tiles_fit(self) -> bool {
        self.tiles.len() == self.width * self.height && plain(self.tiles)
    }
}

/// The final scores with natural numbers for scores.
pub open spec fn tallied(scores: Seq<(Address, (String, usize))>) -> Seq<(Address, (String, nat))> {
    Seq::new(scores.len(), |i: int| (scores[i].0, (scores[i].1.0, scores[i].1.1 as nat)))
}

/// The grids of a list as mathematical values.
pub open spec fn grids_of(history: Seq<Grid>) -> Seq<GridView> {
    Seq::new(history.len(), |i: int| history[i]@)
}

/// The room that snakes play in.
#[derive(Debug)]
pub struct Room<S, B> {
    state: RoomState<B>,
    players: AddrMap<(String, S)>,
    /// Every grid the room has played on, oldest first.
    pub history: Vec<Grid>,
    /// How long a player has to answer on each tick.
    /// `None` means the game goes on as soon as it has all answers.
    pub timestep: Option<Duration>,
    /// Grid width.
    pub width: usize,
    /// Grid height.
    pub height: usize,
    /// Initial tile state; this should just be `Tile::Blank` and `Tile::Wall`.
    pub tiles: Vec<Tile>,
    /// The name of the room.
    pub name: String,
    /// The description for the room.
    pub description: String,
}

impl<S, B> View for Room<S, B> {
    type V = RoomView<S, B>;

    closed spec fn view(&self) -> RoomView<S, B> {
        RoomView {
            phase: match self.state {
                RoomState::Waiting => Phase::Waiting { players: self.players@ },
                RoomState::Playing { map, addrs, breaker } => Phase::Playing {
                    grid: map@,
                    seats: addrs@,
                    breaker,
                },
                RoomState::Finished { scores } => Phase::Finished { scores: tallied(scores@) },
            },
            history: grids_of(self.history@),
            timestep: self.timestep,
            width: self.width,
            height: self.height,
            tiles: self.tiles@,
            name: self.name@,
            description: self.description@,
        }
    }
}

impl<S, B> Room<S, B> {
    /// Whether players are only kept while the room takes them in.
    pub closed spec fn tidy(&self) -> bool {
        !(self.state is Waiting) ==> self.players@.len() == 0
    }

    /// Whether the room is in order.
    pub open spec fn wf(&self) -> bool {
        self.tidy() && self@.phase.valid()
    }

    /// Create a room with the given initial grid state.
    pub fn new(
        width: usize,
        height: usize,
        tiles: Vec<Tile>,
        timestep: Option<Duration>,
        name: String,
        description: String,
    ) -> (room: Self)
        ensures
            room.wf(),
            room@ == (RoomView::<S, B> {
                phase: Phase::Waiting { players: Seq::empty() },
                history: Seq::empty(),
                timestep,
                width,
                height,
                tiles: tiles@,
                name: name@,
                description: description@,
            }),
    {
        let room = Room {
            state: RoomState::Waiting,
            players: AddrMap::new(),
            history: Vec::new(),
            timestep,
            width,
            height,
            tiles,
            name,
            description,
        };
        assert(room@.history =~= Seq::empty());
        room
    }

    /// Whether the room takes players in.
    pub fn is_waiting(&self) -> (waiting: bool)
        ensures
            waiting == (self@.phase is Waiting),
    {
        match &self.state {
            RoomState::Waiting => true,
            _ => false,
        }
    }

    /// Whether the room can start a game: it takes players in, and at
    /// least one is in.
    pub fn is_ready(&self) -> (ready: bool)
        ensures
            ready == self@.ready(),
    {
        self.is_waiting() && !self.players.is_empty()
    }

    /// Every grid the room has played on, oldest first.
    pub fn history(&self) -> (history: &Vec<Grid>)
        ensures
            grids_of(history@) == self@.history,
    {
        &self.history
    }

    /// How long a player has to answer on each tick, if there is a limit.
    pub fn timestep(&self) -> (timestep: Option<Duration>)
        ensures
            timestep == self@.timestep,
    {
        self.timestep
    }

    /// The width of the grid that a game starts on.
    pub fn width(&self) -> (width: usize)
        ensures
            width == self@.width,
    {
        self.width
    }

    /// The height of the grid that a game starts on.
    pub fn height(&self) -> (height: usize)
        ensures
            height == self@.height,
    {
        self.height
    }

    /// The tiles that a game starts on, row by row.
    pub fn tiles(&self) -> (tiles: &Vec<Tile>)
        ensures
            tiles@ == self@.tiles,
    {
        &self.tiles
    }

    /// The name of the room.
    pub fn name(&self) -> (name: &String)
        ensures
            name@ == self@.name,
    {
        &self.name
    }

    /// The description of the room.
    pub fn description(&self) -> (description: &String)
        ensures
            description@ == self@.description,
    {
        &self.description
    }

    /// Take a connection out of the room and put it back on the waiting
    /// list, where it takes the place of a waiter with the same address.
    /// Fails if the address is not among those who wait in this room.
    pub fn unsubscribe(&mut self, addr: &Address, list: &mut WaitingList<S>) -> (r: Result<
        (),
        RoomError,
    >)
        requires
            old(self).wf(),
            old(list).wf(),
        ensures
            final(self).wf(),
            final(list).wf(),
            r is Ok <==> (old(self)@.phase matches Phase::Waiting { players } && listed(
                players,
                *addr,
            )),
            r matches Err(e) ==> e == RoomError::NotInRoom && final(self)@ == old(self)@
                && final(list)@ == old(list)@,
            r is Ok ==> (old(self)@.phase matches Phase::Waiting { players } && final(self)@ == (
            RoomView { phase: Phase::Waiting { players: without(players, *addr) }, ..old(self)@ })
                && final(list)@ == put(old(list)@, *addr, players[index_of(players, *addr)].1)),
    {
        match self.players.remove(addr) {
            Some(waiter) => {
                list.insert(*addr, waiter.0, waiter.1);
                Ok(())
            },
            None => Err(RoomError::NotInRoom),
        }
    }

    /// Reset the room to its initial state.
    ///
    /// This removes all players and goes back to the waiting state; the
    /// history stays. If a game was on, hands back the handle that calls
    /// it off: whoever resets the room is to use it.
    pub fn reset(&mut self) -> (breaker: Option<B>)
        ensures
            final(self).wf(),
            final(self)@ == (RoomView {
                phase: Phase::Waiting { players: Seq::empty() },
                ..old(self)@
            }),
            breaker == match old(self)@.phase {
                Phase::Playing { breaker, .. } => Some(breaker),
                _ => None,
            },
    {
        self.players.clear();
        let mut old_state = RoomState::Waiting;
        std::mem::swap(&mut self.state, &mut old_state);
        match old_state {
            RoomState::Playing { breaker, .. } => Some(breaker),
            _ => None,
        }
    }
}

impl<S> WaitingList<S> {
    /// Moves the waiter to the given room, where it takes the place of a
    /// player with the same address. Fails, and changes nothing, if the
    /// address does not wait here or the room does not take players in.
    pub fn subscribe<B>(&mut self, addr: &Address, room: &mut Room<S, B>) -> (r: Result<
        (),
        RoomError,
    >)
        requires
            old(self).wf(),
            old(room).wf(),
        ensures
            final(self).wf(),
            final(room).wf(),
            r == if !listed(old(self)@, *addr) {
                Err::<(), RoomError>(RoomError::NotQueued)
            } else if !(old(room)@.phase is Waiting) {
                Err(RoomError::InProgress)
            } else {
                Ok(())
            },
            r is Err ==> final(self)@ == old(self)@ && final(room)@ == old(room)@,
            r is Ok ==> final(self)@ == without(old(self)@, *addr) && (old(room)@.phase matches Phase::Waiting {
                players,
            } && final(room)@ == (RoomView {
                phase: Phase::Waiting {
                    players: put(players, *addr, old(self)@[index_of(old(self)@, *addr)].1),
                },
                ..old(room)@
            })),
    {
        if self.waiters.find(addr).is_none() {
            return Err(RoomError::NotQueued);
        }
        if !room.is_waiting() {
            return Err(RoomError::InProgress);
        }
        match self.waiters.remove(addr) {
            Some(waiter) => {
                room.players.insert(*addr, waiter);
                Ok(())
            },
            None => Err(RoomError::NotQueued),
        }
    }
}


/// What the room does after a tick.
#[derive(PartialEq, Eq, Structural, Copy, Clone, Debug)]
pub enum Tick {
    /// The game goes on with the next tick.
    Continue,
    /// The game is over: the room has finished.
    Break,
    /// No game was on in this room.
    Stray,
}

/// The players of a table with their names and snakes, in order.
pub open spec fn seating(seats: Seq<(Address, (String, SnakeID))>) -> Seq<
    (Address, String, SnakeID),
> {
    Seq::new(seats.len(), |i: int| (seats[i].0, seats[i].1.0, seats[i].1.1))
}

/// The final scores as a list of addresses, names and scores.
pub open spec fn tally(scores: Seq<(Address, String, usize)>) -> Seq<(Address, (String, nat))> {
    Seq::new(scores.len(), |i: int| (scores[i].0, (scores[i].1, scores[i].2 as nat)))
}

/// The numbers from zero up to, but not including, `n`.
pub open spec fn numbers(n: nat) -> Seq<SnakeID> {
    Seq::new(n, |k: int| k as usize)
}

/// The seats of a game that the `players` start: the first player has
/// snake zero, the next snake one, and so on.
pub open spec fn seats_for<S>(players: Seq<(Address, (String, S))>) -> Seq<
    (Address, (String, SnakeID)),
> {
    Seq::new(players.len(), |k: int| (players[k].0, (players[k].1.0, k as usize)))
}

/// The sessions of a game that the `players` start: for each player the
/// number of its snake, its address and its stream.
pub open spec fn sessions_for<S>(players: Seq<(Address, (String, S))>) -> Seq<
    (SnakeID, Address, S),
> {
    Seq::new(players.len(), |k: int| (k as usize, players[k].0, players[k].1.1))
}

/// The final score list: each seat whose snake has a score, in the order
/// of the seats, with that score.
pub open spec fn final_scores(
    seats: Seq<(Address, (String, SnakeID))>,
    scores: Map<SnakeID, nat>,
) -> Seq<(Address, (String, nat))>
    decreases seats.len(),
{
    if seats.len() == 0 {
        Seq::empty()
    } else {
        let rest = final_scores(seats.drop_last(), scores);
        let last = seats.last();
        if scores.contains_key(last.1.1) {
            rest.push((last.0, (last.1.0, scores[last.1.1])))
        } else {
            rest
        }
    }
}

/// Whether a room that stood at `before`, with `players` waiting, has
/// started a game and now stands at `after`: every player has a seat and a
/// session, and the grid is a new game on the room's tiles for all of them.
pub open spec fn started<S, B>(
    before: RoomView<S, B>,
    players: Seq<(Address, (String, S))>,
    breaker: B,
    sessions: Seq<(SnakeID, Address, S)>,
    after: RoomView<S, B>,
) -> bool {
    &&& sessions == sessions_for(players)
    &&& after.phase matches Phase::Playing { grid, seats, breaker: handle }
    &&& handle == breaker
    &&& seats == seats_for(players)
    &&& exists|cells: Seq<usize>, headings: Seq<Direction>| #[trigger]
        fresh(
            grid,
            Dimensions { width: before.width, height: before.height },
            before.tiles,
            numbers(players.len()),
            cells,
            headings,
        )
    &&& after == (RoomView { phase: after.phase, ..before })
}

/// The final score list of a game.
fn final_table(addrs: &AddrMap<(String, SnakeID)>, scores: &HashMap<SnakeID, usize>) -> (table:
    AddrMap<(String, usize)>)
    requires
        addrs.wf(),
    ensures
        table.wf(),
        tallied(table@) == final_scores(addrs@, scores_of(scores@)),
{
    broadcast use vstd::std_specs::hash::group_hash_axioms;

    let mut table: AddrMap<(String, usize)> = AddrMap::new();
    let mut i: usize = 0;
    assert(addrs@.take(0) =~= Seq::empty());
    assert(tallied(table@) =~= Seq::empty());
    while i < addrs.len()
        invariant
            i <= addrs@.len(),
            addrs.wf(),
            table.wf(),
            tallied(table@) == final_scores(addrs@.take(i as int), scores_of(scores@)),
            forall|j: int|
                0 <= j < table@.len() ==> exists|k: int|
                    0 <= k < i && (#[trigger] addrs@[k]).0 == (#[trigger] table@[j]).0,
        decreases addrs@.len() - i,
    {
        let entry = addrs.entry(i);
        let ghost before = table@;
        proof {
            assert(addrs@.take(i + 1).drop_last() =~= addrs@.take(i as int));
            assert(addrs@.take(i + 1).last() == addrs@[i as int]);
            if listed(before, entry.0) {
                let j = choose|j: int| 0 <= j < before.len() && (#[trigger] before[j]).0 == entry.0;
                let k = choose|k: int|
                    0 <= k < i && (#[trigger] addrs@[k]).0 == (#[trigger] before[j]).0;
                assert(addrs@[k].0 == addrs@[i as int].0);
            }
        }
        match scores.get(&entry.1.1) {
            Some(score) => {
                table.insert(entry.0, (entry.1.0.clone(), *score));
                proof {
                    assert(table@ == before.push((entry.0, (entry.1.0, *score))));
                    assert(tallied(table@) =~= tallied(before).push(
                        (entry.0, (entry.1.0, *score as nat)),
                    ));
                    assert forall|j: int| 0 <= j < table@.len() implies exists|k: int|
                        0 <= k < i + 1 && (#[trigger] addrs@[k]).0 == (#[trigger] table@[j]).0 by {
                        if j < before.len() {
                            let k = choose|k: int|
                                0 <= k < i && (#[trigger] addrs@[k]).0 == (#[trigger] before[j]).0;
                            assert(addrs@[k].0 == table@[j].0);
                        } else {
                            assert(addrs@[i as int].0 == table@[j].0);
                        }
                    }
                }
            },
            None => {
                proof {
                    assert forall|j: int| 0 <= j < table@.len() implies exists|k: int|
                        0 <= k < i + 1 && (#[trigger] addrs@[k]).0 == (#[trigger] table@[j]).0 by {
                        let k = choose|k: int|
                            0 <= k < i && (#[trigger] addrs@[k]).0 == (#[trigger] before[j]).0;
                        assert(addrs@[k].0 == table@[j].0);
                    }
                }
            },
        }
        i += 1;
    }
    assert(addrs@.take(i as int) =~= addrs@);
    table
}

impl<S, B> Room<S, B> {
    /// Return the current room state.
    pub fn get_state(&self) -> (state: State)
        ensures
            match state {
                State::Waiting { players } => self@.phase matches Phase::Waiting { players: waiting }
                    && players@ == names_of(waiting),
                State::Playing { map, players } => self@.phase matches Phase::Playing {
                    grid,
                    seats,
                    ..
                } && map@ == grid && players@ == seating(seats),
                State::Finished { scores } => self@.phase matches Phase::Finished { scores: done }
                    && tally(scores@) == done,
            },
    {
        match &self.state {
            RoomState::Waiting => State::Waiting { players: names_in(&self.players) },
            RoomState::Playing { map, addrs, .. } => {
                let mut players: Vec<(Address, String, SnakeID)> = Vec::new();
                let mut i: usize = 0;
                while i < addrs.len()
                    invariant
                        i <= addrs@.len(),
                        players@.len() == i,
                        forall|j: int|
                            0 <= j < i ==> players@[j] == (addrs@[j].0, addrs@[j].1.0, addrs@[j].1.1),
                    decreases addrs@.len() - i,
                {
                    let entry = addrs.entry(i);
                    players.push((entry.0, entry.1.0.clone(), entry.1.1));
                    i += 1;
                }
                assert(players@ =~= seating(addrs@));
                State::Playing { map: map.clone(), players }
            },
            RoomState::Finished { scores } => {
                let mut list: Vec<(Address, String, usize)> = Vec::new();
                let mut i: usize = 0;
                while i < scores.len()
                    invariant
                        i <= scores@.len(),
                        list@.len() == i,
                        forall|j: int|
                            0 <= j < i ==> list@[j] == (scores@[j].0, scores@[j].1.0, scores@[j].1.1),
                    decreases scores@.len() - i,
                {
                    let entry = scores.entry(i);
                    list.push((entry.0, entry.1.0.clone(), entry.1.1));
                    i += 1;
                }
                assert(tally(list@) =~= tallied(scores@));
                State::Finished { scores: list }
            },
        }
    }

    /// The grid of the game that is on, if one is.
    pub fn grid(&self) -> (grid: Option<&Grid>)
        ensures
            match grid {
                Some(map) => self@.phase matches Phase::Playing { grid, .. } && map@ == grid,
                None => !(self@.phase is Playing),
            },
    {
        match &self.state {
            RoomState::Playing { map, .. } => Some(map),
            _ => None,
        }
    }

    /// Test if a game is on and the given snake is alive in it.
    pub fn is_alive(&self, id: SnakeID) -> (alive: bool)
        ensures
            alive == (self@.phase matches Phase::Playing { grid, .. } && grid.snakes.contains_key(
                id,
            )),
    {
        match &self.state {
            RoomState::Playing { map, .. } => map.is_alive(id),
            _ => false,
        }
    }
}


/// The snakes after a player has answered, or failed to answer, for snake
/// `id`: the snake turns as it is told and is gone where no answer came.
pub open spec fn answered(
    snakes: Map<SnakeID, SnakeView>,
    id: SnakeID,
    reply: Option<Request>,
) -> Map<SnakeID, SnakeView> {
    match reply {
        None => snakes.remove(id),
        Some(Request::Forward) => snakes,
        Some(turn) => if snakes.contains_key(id) {
            let s = snakes[id];
            snakes.insert(
                id,
                SnakeView {
                    dir: if turn == Request::Left {
                        s.dir.turned_left()
                    } else {
                        s.dir.turned_right()
                    },
                    head: s.head,
                    body: s.body,
                },
            )
        } else {
            snakes
        },
    }
}

impl<S, B> Room<S, B> {
    /// What the player of snake `id` is sent on this tick, and whether an
    /// answer is awaited. `grid_json` is the grid as a JSON value. A player
    /// whose snake is alive is shown the grid and owes one command; a
    /// player whose snake is gone is shown the grid, is told so, and is not
    /// waited for.
    pub fn brief(&self, id: SnakeID, grid_json: &str) -> (briefing: (String, bool))
        ensures
            briefing.1 == (self@.phase matches Phase::Playing { grid, .. }
                && grid.snakes.contains_key(id)),
            briefing.0@ == snapshot_text(briefing.1, grid_json@),
    {
        let alive = self.is_alive(id);
        (snapshot_message(alive, grid_json), alive)
    }

    /// Take in what a player answered on this tick for snake `id`: a turn
    /// is made at once, and counts from the next move of the snake on. No
    /// answer, for whatever reason, takes the snake off the grid before
    /// the grid moves again. Says whether the player stays in the game.
    pub fn do_client_step(&mut self, id: SnakeID, reply: Option<Request>) -> (stays: bool)
        requires
            old(self).wf(),
        ensures
            final(self).wf(),
            stays == reply is Some,
            final(self)@ == match old(self)@.phase {
                Phase::Playing { grid, seats, breaker } => RoomView {
                    phase: Phase::Playing {
                        grid: GridView { snakes: answered(grid.snakes, id, reply), ..grid },
                        seats,
                        breaker,
                    },
                    ..old(self)@
                },
                _ => old(self)@,
            },
    {
        let mut state = RoomState::Waiting;
        std::mem::swap(&mut self.state, &mut state);
        match state {
            RoomState::Playing { map, addrs, breaker } => {
                let mut map = map;
                let ghost grid = map@;
                match reply {
                    Some(Request::Forward) => {},
                    Some(Request::Left) => map.turn_left(id),
                    Some(Request::Right) => map.turn_right(id),
                    None => map.delete_snake(id),
                }
                assert(map@ == GridView { snakes: answered(grid.snakes, id, reply), ..grid });
                self.state = RoomState::Playing { map, addrs, breaker };
            },
            other => {
                self.state = other;
            },
        }
        reply.is_some()
    }

    /// Execute the server work once all the client work is done: move the
    /// grid one tick on and file the grid that results in the history.
    /// Where no snake is left after the tick, the grid as it last was is
    /// filed, and the room has finished, with the final score of every
    /// player that had a snake.
    pub fn do_server_step(&mut self) -> (tick: Tick)
        requires
            old(self).wf(),
        ensures
            final(self).wf(),
            match old(self)@.phase {
                Phase::Playing { grid, seats, breaker } => if grid.finished() {
                    &&& tick == Tick::Break
                    &&& final(self)@ == (RoomView {
                        phase: Phase::Finished { scores: final_scores(seats, grid.next_scores()) },
                        history: old(self)@.history.push(grid),
                        ..old(self)@
                    })
                } else {
                    &&& tick == Tick::Continue
                    &&& final(self)@.phase matches Phase::Playing {
                        grid: next,
                        seats: same_seats,
                        breaker: same_breaker,
                    }
                    &&& grid.steps_to(next)
                    &&& same_seats == seats
                    &&& same_breaker == breaker
                    &&& final(self)@ == (RoomView {
                        phase: final(self)@.phase,
                        history: old(self)@.history.push(next),
                        ..old(self)@
                    })
                },
                _ => tick == Tick::Stray && final(self)@ == old(self)@,
            },
    {
        let mut state = RoomState::Waiting;
        std::mem::swap(&mut self.state, &mut state);
        match state {
            RoomState::Playing { map, addrs, breaker } => {
                let before = map.clone();
                let ghost grid = map@;
                let ghost filed = grids_of(self.history@);
                match map.step() {
                    Ok(next) => {
                        self.history.push(next.clone());
                        proof {
                            assert(grids_of(self.history@) =~= filed.push(next@));
                            assert forall|id: SnakeID| #[trigger]
                                next@.scores.contains_key(id) implies seated_here(addrs@, id) by {
                                if grid.scores.contains_key(id) {
                                } else {
                                    assert(grid.moved().contains_key(id));
                                    assert(grid.snakes.contains_key(id));
                                }
                            }
                        }
                        self.state = RoomState::Playing { map: next, addrs, breaker };
                        Tick::Continue
                    },
                    Err(scores) => {
                        self.history.push(before);
                        assert(grids_of(self.history@) =~= filed.push(grid));
                        let table = final_table(&addrs, &scores);
                        self.state = RoomState::Finished { scores: table };
                        Tick::Break
                    },
                }
            },
            other => {
                self.state = other;
                Tick::Stray
            },
        }
    }
}

/// Shut the room and start playing.
///
/// Only a room that takes players in, and has at least one, can start.
/// Each player gets a snake, numbered from zero in the order in which the
/// players came, on a new grid made of the room's tiles; the room keeps
/// `breaker`, the handle that calls the game off. Hands back one session
/// for each player: the number of its snake, its address and its stream.
///
/// Returns `None`, and changes nothing, if the room failed to start. The
/// tiles of a room that starts must cover its grid and hold nothing but
/// walls and blanks.
pub fn run<S, B>(room: &mut Room<S, B>, breaker: B) -> (sessions: Option<Vec<(SnakeID, Address, S)>>)
    requires
        old(room).wf(),
        old(room)@.ready() ==> old(room)@.tiles_fit(),
    ensures
        final(room).wf(),
        sessions is Some <==> old(room)@.ready(),
        sessions is None ==> final(room)@ == old(room)@,
        sessions matches Some(list) ==> (old(room)@.phase matches Phase::Waiting { players }
            && started(old(room)@, players, breaker, list@, final(room)@)),
{
    // make sure the room is in a good state
    if !room.is_ready() {
        return None;
    }
    let ghost players = room.players@;
    let mut roster: AddrMap<(String, S)> = AddrMap::new();
    std::mem::swap(&mut room.players, &mut roster);
    let entries = roster.into_entries();
    assert(entries.len() == players.len());
    let mut addrs: AddrMap<(String, SnakeID)> = AddrMap::new();
    let mut sockets: Vec<(SnakeID, Address, S)> = Vec::new();
    let mut ids: Vec<SnakeID> = Vec::new();
    for entry in it: entries
        invariant
            it.seq() == players,
            distinct(players),
            addrs.wf(),
            addrs@ == seats_for(players).take(it.index() as int),
            sockets@ == sessions_for(players).take(it.index() as int),
            ids@ == numbers(players.len()).take(it.index() as int),
    {
        let id = ids.len();
        let ghost seats = addrs@;
        proof {
            if listed(seats, entry.0) {
                let j = choose|j: int| 0 <= j < seats.len() && (#[trigger] seats[j]).0 == entry.0;
                assert(players[j].0 == players[id as int].0);
            }
        }
        addrs.insert(entry.0, (entry.1.0, id));
        sockets.push((id, entry.0, entry.1.1));
        ids.push(id);
        proof {
            let n = it.index() as int;
            assert(addrs@ =~= seats_for(players).take(n + 1));
            assert(sockets@ =~= sessions_for(players).take(n + 1));
            assert(ids@ =~= numbers(players.len()).take(n + 1));
        }
    }
    proof {
        assert(addrs@ =~= seats_for(players));
        assert(sockets@ =~= sessions_for(players));
        assert(ids@ =~= numbers(players.len()));
    }
    let map = Grid::new(room.width, room.height, copy_tiles(&room.tiles), ids);
    proof {
        let dims = Dimensions { width: room.width, height: room.height };
        let n = players.len();
        let (cells, headings) = choose|cells: Seq<usize>, headings: Seq<Direction>| #[trigger]
            fresh(map@, dims, room.tiles@, numbers(n), cells, headings);
        crate::rules::lemma_seated(dims, numbers(n), cells, headings, cells.len());
        assert forall|id: SnakeID| #[trigger] map@.scores.contains_key(id) implies seated_here(
            addrs@,
            id,
        ) by {
            let snakes = crate::rules::seated(dims, numbers(n), cells, headings, cells.len());
            assert(snakes.contains_key(id));
            let k = choose|k: int|
                0 <= k < cells.len() && #[trigger] numbers(n)[k] == id && snakes[id]
                    == crate::rules::hatchling(dims, cells[k], headings[k]);
            assert(addrs@[k].1.1 == id);
        }
    }
    room.state = RoomState::Playing { map, addrs, breaker };
    Some(sockets)
}

} // verus!
