//! The store of games. A game's id is its place in the order of insertion:
//! ids start at 0, grow by one with each game and are never given twice, as
//! no game is ever removed.

use crate::board::{Board, ConnectK, MoveError, Player};
use vstd::prelude::*;

verus! {

/// Why a move on a stored game did not take place.
#[derive(Clone, Copy, Debug, PartialEq, Eq, Structural)]
pub enum MutateError {
    /// No game has the id.
    NotFound,
    /// The game turned the move down.
    Rejected(MoveError),
}

/// The games, in the order of their ids.
pub struct GameServer {
    games: Vec<ConnectK>,
}

impl View for GameServer {
    type V = Seq<Board>;

    closed spec fn view(&self) -> Seq<Board> {
        self.games@.map_values(|g: ConnectK| g@)
    }
}

/// The board stored under `key`, if there is one.
pub open spec fn lookup(games: Seq<Board>, key: int) -> Option<Board> {
    if 0 <= key < games.len() {
        Some(games[key])
    } else {
        None
    }
}

/// The id that the next game stored will get: the number of games stored so far.
pub open spec fn next_id(games: Seq<Board>) -> nat {
    games.len()
}

/// A game stored is found under the id it was given, the games stored before
/// it are found where they were, and the game stored after it gets the id that
/// follows: ids grow by one from the number of games that were there first.
pub proof fn lemma_insert_then_select(games: Seq<Board>, game: Board, key: int)
    ensures
        lookup(games.push(game), next_id(games) as int) == Some(game),
        next_id(games.push(game)) == next_id(games) + 1,
        0 <= key < next_id(games) ==> lookup(games.push(game), key) == lookup(games, key),
        lookup(games, next_id(games) as int).is_none(),
{
}

/// A stored game that has ended turns down every move.
pub proof fn lemma_ended_game_is_closed(games: Seq<Board>, id: int, col: int)
    requires
        lookup(games, id) is Some,
        lookup(games, id)->Some_0.status != crate::board::GameStatus::InProcess,
    ensures
        games[id].after_move(col) == Err::<Board, MoveError>(MoveError::GameOver),
{
}

impl GameServer {
    /// Every stored game is well-formed.
    pub open spec fn wf(&self) -> bool {
        forall|i: int| 0 <= i < self@.len() ==> #[trigger] self@[i].storable()
    }

    /// A store without games.
    pub fn new() -> (server: GameServer)
        ensures
            server.wf(),
            server@ == Seq::<Board>::empty(),
    {
        let server = GameServer { games: Vec::new() };
        assert(server@ =~= Seq::<Board>::empty());
        server
    }

    /// A store that starts with one game under id 0: five columns, seven rows,
    /// four in a line to win, player one to move.
    pub fn seeded() -> (server: GameServer)
        ensures
            server.wf(),
            server@ == seq![Board::empty(5, 7, 4, Player::One)],
    {
        let mut games: Vec<ConnectK> = Vec::new();
        games.push(ConnectK::new(5, 7, 4, Player::One));
        let server = GameServer { games };
        assert(server@ =~= seq![Board::empty(5, 7, 4, Player::One)]);
        server
    }

    /// The number of games is one that the machine can count.
    pub proof fn lemma_count_fits(&self)
        ensures
            self@.len() <= usize::MAX,
    {
        assert(self@.len() == self.games.len());
    }

    /// How many games are stored; also the id that the next game will get.
    pub fn count(&self) -> (n: usize)
        ensures
            n == next_id(self@),
    {
        self.games.len()
    }

    /// A copy of the game with id `key`; `None` where no game has that id.
    pub fn select(&self, key: i64) -> (found: Option<ConnectK>)
        requires
            self.wf(),
        ensures
            match found {
                Some(g) => lookup(self@, key as int) == Some(g@) && g.wf(),
                None => lookup(self@, key as int).is_none(),
            },
    {
        if key < 0 {
            return None;
        }
        let wanted: u64 = key as u64;
        if wanted < self.games.len() as u64 {
            let g = self.games[wanted as usize].clone();
            assert(g@ == self@[key as int]);
            Some(g)
        } else {
            None
        }
    }

    /// Copies of all games, in the order of their ids: the game with id `i`
    /// stands at place `i`.
    pub fn select_all(&self) -> (all: Vec<ConnectK>)
        requires
            self.wf(),
        ensures
            all@.len() == self@.len(),
            forall|i: int| 0 <= i < all@.len() ==> (#[trigger] all@[i])@ == self@[i] && all@[i].wf(),
    {
        let mut all: Vec<ConnectK> = Vec::new();
        let mut i: usize = 0;
        while i < self.games.len()
            invariant
                self.wf(),
                i <= self.games.len(),
                all@.len() == i,
                forall|j: int| 0 <= j < i ==> (#[trigger] all@[j])@ == self@[j] && all@[j].wf(),
            decreases self.games.len() - i,
        {
            let g = self.games[i].clone();
            assert(g@ == self@[i as int]);
            all.push(g);
            i += 1;
        }
        all
    }

    /// Stores `game` behind the games already there and returns its id.
    pub fn insert(&mut self, game: ConnectK) -> (id: usize)
        requires
            old(self).wf(),
            game.wf(),
        ensures
            final(self).wf(),
            id == next_id(old(self)@),
            final(self)@ == old(self)@.push(game@),
    {
        self.games.push(game);
        assert(self@ =~= old(self)@.push(game@));
        self.games.len() - 1
    }

    /// Plays a move into column `col` of the stored game with id `id`.
    ///
    /// Without such a game the answer is `NotFound`; a move that the game turns
    /// down comes back as `Rejected` with the game's reason. In both cases the
    /// store is left as it was. An accepted move changes that one game and no
    /// other.
    pub fn apply_move(&mut self, id: usize, col: usize) -> (res: Result<(), MutateError>)
        requires
            old(self).wf(),
        ensures
            final(self).wf(),
            match res {
                Ok(()) => id < old(self)@.len() && old(self)@[id as int].after_move(col as int) == Ok::<
                    Board,
                    MoveError,
                >(final(self)@[id as int]) && final(self)@ == old(self)@.update(
                    id as int,
                    final(self)@[id as int],
                ),
                Err(MutateError::NotFound) => id >= old(self)@.len() && final(self)@ == old(self)@,
                Err(MutateError::Rejected(e)) => id < old(self)@.len() && old(self)@[id as int].after_move(
                    col as int,
                ) == Err::<Board, MoveError>(e) && final(self)@ == old(self)@,
            },
    {
        if id >= self.games.len() {
            return Err(MutateError::NotFound);
        }
        assert(self.games@[id as int]@ == self@[id as int]);
        match self.games[id].insert(col) {
            Ok(()) => {
                assert(self@ =~= old(self)@.update(id as int, self.games@[id as int]@));
                Ok(())
            },
            Err(e) => {
                assert(self@ =~= old(self)@);
                Err(MutateError::Rejected(e))
            },
        }
    }
}

} // verus!
