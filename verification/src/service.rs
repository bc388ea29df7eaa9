//! The operations a service offers on the store: create a game, read one,
//! list all, play a move. Games leave as records of numbers and text; players
//! are numbered 1 and 2 there, and the board is a text of one character per
//! cell, `'0'` for an empty cell.

use crate::board::{occupied, Board, ConnectK, GameStatus, Player};
use crate::registry::{lookup, GameServer, MutateError};
use vstd::prelude::*;

verus! {

/// Why a request failed.
#[derive(Clone, Copy, Debug, PartialEq, Eq, Structural)]
pub enum ServiceError {
    /// No game has the id.
    NotFound,
    /// The move is not allowed: the column is off the board or full, or the game has ended.
    InvalidParameter,
    /// A field of the request is missing or cannot be used.
    MalformedInput,
}

/// A game as it is shown to clients.
#[derive(Debug)]
pub struct Game {
    pub id: u64,
    pub width: u64,
    pub height: u64,
    pub k: u64,
    pub curr_player: u8,
    pub status: String,
    pub board: String,
}

/// The name under which a status is shown.
pub open spec fn status_name(s: GameStatus) -> Seq<char> {
    match s {
        GameStatus::InProcess => "InProcess"@,
        GameStatus::PlayerOneWin => "PlayerOneWin"@,
        GameStatus::PlayerTwoWin => "PlayerTwoWin"@,
        GameStatus::Tie => "Tie"@,
    }
}

/// The character that stands for a cell.
pub open spec fn cell_char(v: u8) -> char {
    if v == 1 {
        '1'
    } else if v == 2 {
        '2'
    } else {
        '0'
    }
}

/// The board as text: one character per cell, in the order of the cells.
pub open spec fn board_text(cells: Seq<u8>) -> Seq<char> {
    cells.map_values(|v: u8| cell_char(v))
}

/// How many characters of `text` are a player's marker.
pub open spec fn marks(text: Seq<char>) -> nat
    decreases text.len(),
{
    if text.len() == 0 {
        0
    } else {
        marks(text.drop_last()) + if text.last() == '1' || text.last() == '2' {
            1nat
        } else {
            0nat
        }
    }
}

/// The player with number `n`, for 1 and 2.
pub open spec fn player_numbered(n: int) -> Option<Player> {
    if n == 1 {
        Some(Player::One)
    } else if n == 2 {
        Some(Player::Two)
    } else {
        None
    }
}

/// `g` shows the board `b` under the id `id`.
pub open spec fn describes(g: Game, b: Board, id: int) -> bool {
    &&& g.id == id
    &&& g.width == b.width
    &&& g.height == b.height
    &&& g.k == b.k
    &&& g.curr_player == b.curr_player.marker()
    &&& g.status@ == status_name(b.status)
    &&& g.board@ == board_text(b.cells)
}

/// The board that a request for a new game asks for, if the request can be
/// met: all four fields are there, none of the three sizes is negative, the
/// grid's number of cells fits the machine and the player's number is 1 or 2.
pub open spec fn requested_board(
    width: Option<i64>,
    height: Option<i64>,
    k: Option<i64>,
    curr_player: Option<i64>,
) -> Option<Board> {
    if width is Some && height is Some && k is Some && curr_player is Some && 0 <= width->Some_0
        <= usize::MAX && 0 <= height->Some_0 <= usize::MAX && 0 <= k->Some_0 <= usize::MAX
        && width->Some_0 * height->Some_0 <= usize::MAX && player_numbered(
        curr_player->Some_0 as int,
    ) is Some {
        Some(
            Board::empty(
                width->Some_0 as nat,
                height->Some_0 as nat,
                k->Some_0 as nat,
                player_numbered(curr_player->Some_0 as int)->Some_0,
            ),
        )
    } else {
        None
    }
}

/// The text of a board has one character per cell, each `'0'`, `'1'` or `'2'`,
/// and as many markers as the board has occupied cells.
pub proof fn lemma_board_text(cells: Seq<u8>)
    requires
        forall|i: int| 0 <= i < cells.len() ==> #[trigger] cells[i] <= 2,
    ensures
        board_text(cells).len() == cells.len(),
        forall|i: int|
            0 <= i < cells.len() ==> {
                let c = #[trigger] board_text(cells)[i];
                c == '0' || c == '1' || c == '2'
            },
        marks(board_text(cells)) == occupied(cells),
    decreases cells.len(),
{
    if cells.len() > 0 {
        lemma_board_text(cells.drop_last());
        assert(board_text(cells).drop_last() =~= board_text(cells.drop_last()));
    }
}

/// An accepted move adds exactly one marker to the text of the board and
/// changes no marker that the text already had.
pub proof fn lemma_move_adds_one_mark(b: Board, col: int)
    requires
        b.wf(),
        b.after_move(col) is Ok,
    ensures
        board_text(b.after_move(col)->Ok_0.cells).len() == board_text(b.cells).len(),
        marks(board_text(b.after_move(col)->Ok_0.cells)) == marks(board_text(b.cells)) + 1,
{
    crate::board::lemma_move_adds_one_piece(b, col);
    lemma_board_text(b.cells);
    lemma_board_text(b.after_move(col)->Ok_0.cells);
}

/// The number under which a player is shown: 1 or 2.
pub fn player_number(p: Player) -> (n: u8)
    ensures
        n == p.marker(),
        player_numbered(n as int) == Some(p),
{
    p.mark()
}

/// The player with number `n`; `None` for a number other than 1 and 2.
pub fn player_from_number(n: i64) -> (p: Option<Player>)
    ensures
        p == player_numbered(n as int),
{
    if n == 1 {
        Some(Player::One)
    } else if n == 2 {
        Some(Player::Two)
    } else {
        None
    }
}

/// The name of a status.
pub fn status_string(s: GameStatus) -> (text: String)
    ensures
        text@ == status_name(s),
{
    match s {
        GameStatus::InProcess => String::from_str("InProcess"),
        GameStatus::PlayerOneWin => String::from_str("PlayerOneWin"),
        GameStatus::PlayerTwoWin => String::from_str("PlayerTwoWin"),
        GameStatus::Tie => String::from_str("Tie"),
    }
}

/// The text of a board.
pub fn board_string(cells: &Vec<u8>) -> (text: String)
    ensures
        text@ == board_text(cells@),
{
    let mut text = String::new();
    let mut i: usize = 0;
    proof {
        reveal_strlit("0");
        reveal_strlit("1");
        reveal_strlit("2");
        assert(text@ =~= board_text(cells@.take(0)));
    }
    while i < cells.len()
        invariant
            i <= cells.len(),
            text@ == board_text(cells@.take(i as int)),
            "0"@ == seq!['0'],
            "1"@ == seq!['1'],
            "2"@ == seq!['2'],
        decreases cells.len() - i,
    {
        let v: u8 = cells[i];
        if v == 1 {
            text.append("1");
        } else if v == 2 {
            text.append("2");
        } else {
            text.append("0");
        }
        proof {
            assert(cells@.take(i + 1) =~= cells@.take(i as int).push(v));
            assert(text@ =~= board_text(cells@.take(i + 1)));
        }
        i += 1;
    }
    proof {
        assert(cells@.take(cells.len() as int) =~= cells@);
    }
    text
}

/// The record that shows `game` under the id `id`.
pub fn convert(game: ConnectK, id: usize) -> (g: Game)
    requires
        game.wf(),
    ensures
        describes(g, game@, id as int),
{
    record_of(&game, id)
}

/// The record that shows `game` under the id `id`.
pub fn record_of(game: &ConnectK, id: usize) -> (g: Game)
    requires
        game.wf(),
    ensures
        describes(g, game@, id as int),
{
    let cells = game.board_linear();
    Game {
        id: id as u64,
        width: game.width() as u64,
        height: game.height() as u64,
        k: game.k() as u64,
        curr_player: player_number(game.curr_player()),
        status: status_string(game.status()),
        board: board_string(&cells),
    }
}

/// The game that a request asks for, or `MalformedInput` where the request
/// cannot be met.
pub fn new_game(
    width: Option<i64>,
    height: Option<i64>,
    k: Option<i64>,
    curr_player: Option<i64>,
) -> (res: Result<ConnectK, ServiceError>)
    ensures
        match res {
            Ok(g) => g.wf() && requested_board(width, height, k, curr_player) == Some(g@),
            Err(e) => e == ServiceError::MalformedInput && requested_board(
                width,
                height,
                k,
                curr_player,
            ).is_none(),
        },
{
    match (width, height, k, curr_player) {
        (Some(w), Some(h), Some(k), Some(n)) => {
            if w < 0 || h < 0 || k < 0 {
                return Err(ServiceError::MalformedInput);
            }
            let limit: u64 = usize::MAX as u64;
            if w as u64 > limit || h as u64 > limit || k as u64 > limit {
                return Err(ServiceError::MalformedInput);
            }
            let (w, h, k) = (w as usize, h as usize, k as usize);
            if w.checked_mul(h).is_none() {
                return Err(ServiceError::MalformedInput);
            }
            match player_from_number(n) {
                Some(p) => Ok(ConnectK::new(w, h, k, p)),
                None => Err(ServiceError::MalformedInput),
            }
        },
        _ => Err(ServiceError::MalformedInput),
    }
}

/// Creates the game that the four fields ask for, stores it and shows it with
/// its new id. A request that cannot be met leaves the store as it was.
pub fn create_from_fields(
    server: &mut GameServer,
    width: Option<i64>,
    height: Option<i64>,
    k: Option<i64>,
    curr_player: Option<i64>,
) -> (res: Result<Game, ServiceError>)
    requires
        old(server).wf(),
    ensures
        final(server).wf(),
        match res {
            Ok(g) => {
                let asked = requested_board(width, height, k, curr_player);
                &&& asked is Some
                &&& final(server)@ == old(server)@.push(asked->Some_0)
                &&& describes(g, asked->Some_0, old(server)@.len() as int)
            },
            Err(e) => {
                &&& e == ServiceError::MalformedInput
                &&& requested_board(width, height, k, curr_player).is_none()
                &&& final(server)@ == old(server)@
            },
        },
{
    match new_game(width, height, k, curr_player) {
        Ok(game) => {
            let shown = record_of(&game, server.count());
            server.insert(game);
            Ok(shown)
        },
        Err(e) => Err(e),
    }
}

/// Shows the game with id `key`; `NotFound` where no game has that id.
pub fn read_by_id(server: &GameServer, key: i64) -> (res: Result<Game, ServiceError>)
    requires
        server.wf(),
    ensures
        match res {
            Ok(g) => lookup(server@, key as int) is Some && describes(
                g,
                lookup(server@, key as int)->Some_0,
                key as int,
            ),
            Err(e) => e == ServiceError::NotFound && lookup(server@, key as int).is_none(),
        },
{
    proof {
        server.lemma_count_fits();
    }
    match server.select(key) {
        Some(game) => Ok(convert(game, key as usize)),
        None => Err(ServiceError::NotFound),
    }
}

/// Shows all games in the order of their ids, each under its place in the list.
pub fn read_list(server: &GameServer) -> (list: Vec<Game>)
    requires
        server.wf(),
    ensures
        list@.len() == server@.len(),
        forall|i: int| 0 <= i < list@.len() ==> describes(#[trigger] list@[i], server@[i], i),
{
    let games = server.select_all();
    let mut list: Vec<Game> = Vec::new();
    let mut i: usize = 0;
    while i < games.len()
        invariant
            games@.len() == server@.len(),
            forall|j: int| 0 <= j < games@.len() ==> (#[trigger] games@[j])@ == server@[j] && games@[j].wf(),
            i <= games.len(),
            list@.len() == i,
            forall|j: int| 0 <= j < i ==> describes(#[trigger] list@[j], server@[j], j),
        decreases games.len() - i,
    {
        list.push(record_of(&games[i], i));
        i += 1;
    }
    list
}

/// What a move into column `col` of the game with id `id` leads to: the games
/// with that one game a move further, `NotFound` where no game has the id, or
/// `InvalidParameter` where the game turns the move down.
pub open spec fn move_outcome(games: Seq<Board>, id: int, col: int) -> Result<Seq<Board>, ServiceError> {
    if !(0 <= id < games.len()) {
        Err(ServiceError::NotFound)
    } else {
        match games[id].after_move(col) {
            Ok(next) => Ok(games.update(id, next)),
            Err(_) => Err(ServiceError::InvalidParameter),
        }
    }
}

/// Plays a move into column `column` of the game with id `id`.
///
/// `NotFound` where no game has that id; else `InvalidParameter` where the game
/// turns the move down. Either way the store is left as it was. An accepted
/// move changes that game and no other.
pub fn play_move_at(server: &mut GameServer, id: u64, column: u64) -> (res: Result<(), ServiceError>)
    requires
        old(server).wf(),
    ensures
        final(server).wf(),
        match res {
            Ok(()) => move_outcome(old(server)@, id as int, column as int) == Ok::<
                Seq<Board>,
                ServiceError,
            >(final(server)@),
            Err(e) => move_outcome(old(server)@, id as int, column as int) == Err::<
                Seq<Board>,
                ServiceError,
            >(e) && final(server)@ == old(server)@,
        },
{
    if id >= server.count() as u64 {
        return Err(ServiceError::NotFound);
    }
    // A column beyond the machine's range is beyond every board as well.
    let col: usize = if column > usize::MAX as u64 {
        usize::MAX
    } else {
        column as usize
    };
    assert(server@[id as int].storable());
    match server.apply_move(id as usize, col) {
        Ok(()) => Ok(()),
        Err(MutateError::NotFound) => Err(ServiceError::NotFound),
        Err(MutateError::Rejected(_)) => Err(ServiceError::InvalidParameter),
    }
}

/// A JSON document of `serde_json`. What one holds is known only through the
/// names below.
#[verifier::external_type_specification]
#[verifier::external_body]
pub struct ExJsonValue(serde_json::Value);

/// Every character of `s` is one of the digits `'0'` to `'9'`.
pub open spec fn all_digits(s: Seq<char>) -> bool {
    forall|i: int| 0 <= i < s.len() ==> '0' <= #[trigger] s[i] <= '9'
}

/// The number that the decimal digits `s` write; 0 for no digits.
pub open spec fn digits_number(s: Seq<char>) -> int
    decreases s.len(),
{
    if s.len() == 0 {
        0
    } else {
        digits_number(s.drop_last()) * 10 + (s.last() as int - '0' as int)
    }
}

/// The integer that a text writes in decimal: an optional `+` or `-`, then one
/// digit or more and nothing else, for a number that fits `i64`. Any other
/// text writes none.
pub open spec fn decimal_i64(text: Seq<char>) -> Option<i64> {
    let signed = text.len() > 0 && (text[0] == '-' || text[0] == '+');
    let digits = if signed {
        text.subrange(1, text.len() as int)
    } else {
        text
    };
    let n = if signed && text[0] == '-' {
        -digits_number(digits)
    } else {
        digits_number(digits)
    };
    if digits.len() > 0 && all_digits(digits) && i64::MIN <= n <= i64::MAX {
        Some(n as i64)
    } else {
        None
    }
}

/// What indexing a JSON document by a key gives (`serde_json::Value`'s
/// `Index`): the member of that name, or JSON null where the document is no
/// object or has no such member.
pub uninterp spec fn json_member_of(value: serde_json::Value, name: Seq<char>) -> serde_json::Value;

/// What `serde_json::Value::as_i64` finds in a JSON value: the number where
/// the value is an integer that fits `i64`, else nothing.
pub uninterp spec fn json_as_i64(value: serde_json::Value) -> Option<i64>;

/// The integer member `name` of a JSON document, if it has one.
pub open spec fn json_int(value: serde_json::Value, name: Seq<char>) -> Option<i64> {
    json_as_i64(json_member_of(value, name))
}

/// Indexes a JSON document by a key (`serde_json::Value`'s `Index`). The
/// result depends on the document and the key alone; no more is claimed of it.
#[verifier::external_body]
fn json_member<'a>(value: &'a serde_json::Value, name: &str) -> (member: &'a serde_json::Value)
    ensures
        *member == json_member_of(*value, name@),
{
    &value[name]
}

/// `serde_json::Value::as_i64`. The result depends on the value alone; no more
/// is claimed of it.
pub assume_specification[ serde_json::Value::as_i64 ](value: &serde_json::Value) -> (n: Option<i64>)
    ensures
        n == json_as_i64(*value),
;

/// Reads a decimal integer with `str::parse::<i64>`, which accepts an optional
/// `+` or `-` followed by digits only, for a number that fits `i64`, and
/// refuses every other text, the empty one and a lone sign included; a text
/// that it refuses gives `None`.
#[verifier::external_body]
fn parse_i64(text: &str) -> (n: Option<i64>)
    ensures
        n == decimal_i64(text@),
{
    text.parse::<i64>().ok()
}

/// The board that a JSON request for a new game asks for: the one that its
/// integer members `width`, `height`, `k` and `curr_player` ask for.
pub open spec fn requested_by(value: serde_json::Value) -> Option<Board> {
    requested_board(
        json_int(value, "width"@),
        json_int(value, "height"@),
        json_int(value, "k"@),
        json_int(value, "curr_player"@),
    )
}

/// What a request to play a move leads to, given the game's id and the column
/// as far as the request holds them: `MalformedInput` where one of the two is
/// missing, else what the move leads to. No game has a negative id, and no
/// board a negative column.
pub open spec fn requested_move(games: Seq<Board>, id: Option<i64>, column: Option<i64>) -> Result<
    Seq<Board>,
    ServiceError,
> {
    if id is Some && column is Some {
        move_outcome(games, id->Some_0 as int, column->Some_0 as int)
    } else {
        Err(ServiceError::MalformedInput)
    }
}

/// Creates a game from a JSON request with the integer members `width`,
/// `height`, `k` and `curr_player`, as `create_from_fields` does from the
/// four numbers: the game is stored behind the others and shown with its new
/// id. A request that cannot be met gives `MalformedInput` and leaves the
/// store as it was.
pub fn create(server: &mut GameServer, value: &serde_json::Value) -> (res: Result<Game, ServiceError>)
    requires
        old(server).wf(),
    ensures
        final(server).wf(),
        match res {
            Ok(g) => {
                &&& requested_by(*value) is Some
                &&& final(server)@ == old(server)@.push(requested_by(*value)->Some_0)
                &&& describes(g, requested_by(*value)->Some_0, old(server)@.len() as int)
            },
            Err(e) => {
                &&& e == ServiceError::MalformedInput
                &&& requested_by(*value).is_none()
                &&& final(server)@ == old(server)@
            },
        },
{
    let width = json_member(value, "width").as_i64();
    let height = json_member(value, "height").as_i64();
    let k = json_member(value, "k").as_i64();
    let curr_player = json_member(value, "curr_player").as_i64();
    create_from_fields(server, width, height, k, curr_player)
}

/// Shows the game whose id is written in `key` as a decimal integer;
/// `NotFound` where `key` is no such integer or no game has that id.
pub fn read(server: &GameServer, key: &str) -> (res: Result<Game, ServiceError>)
    requires
        server.wf(),
    ensures
        match res {
            Ok(g) => {
                &&& decimal_i64(key@) is Some
                &&& lookup(server@, decimal_i64(key@)->Some_0 as int) is Some
                &&& describes(
                    g,
                    lookup(server@, decimal_i64(key@)->Some_0 as int)->Some_0,
                    decimal_i64(key@)->Some_0 as int,
                )
            },
            Err(e) => {
                &&& e == ServiceError::NotFound
                &&& decimal_i64(key@) is Some ==> lookup(
                    server@,
                    decimal_i64(key@)->Some_0 as int,
                ).is_none()
            },
        },
{
    match parse_i64(key) {
        Some(id) => read_by_id(server, id),
        None => Err(ServiceError::NotFound),
    }
}

/// Plays a move for a request that holds the game's id and the column as far
/// as `id` and `column` say.
///
/// `MalformedInput` where one of the two is missing; else `NotFound` where no
/// game has the id, a negative one included; else `InvalidParameter` where the
/// game turns the move down, as it does for a negative column. Every failure
/// leaves the store as it was; an accepted move changes that game and no other.
pub fn play_move_from_fields(server: &mut GameServer, id: Option<i64>, column: Option<i64>) -> (res:
    Result<(), ServiceError>)
    requires
        old(server).wf(),
    ensures
        final(server).wf(),
        match res {
            Ok(()) => requested_move(old(server)@, id, column) == Ok::<Seq<Board>, ServiceError>(
                final(server)@,
            ),
            Err(e) => requested_move(old(server)@, id, column) == Err::<Seq<Board>, ServiceError>(e)
                && final(server)@ == old(server)@,
        },
{
    match (id, column) {
        (Some(id), Some(column)) => {
            if id < 0 {
                return Err(ServiceError::NotFound);
            }
            // A column left of the board is off the board as one far to its right is.
            let col: u64 = if column < 0 {
                u64::MAX
            } else {
                column as u64
            };
            proof {
                if id < server@.len() {
                    assert(server@[id as int].storable());
                }
            }
            play_move_at(server, id as u64, col)
        },
        _ => Err(ServiceError::MalformedInput),
    }
}

/// Plays the move that a JSON request asks for: its integer member `id` is the
/// game and `move` the column, and the move is played as
/// `play_move_from_fields` plays it.
pub fn play_move(server: &mut GameServer, value: &serde_json::Value) -> (res: Result<(), ServiceError>)
    requires
        old(server).wf(),
    ensures
        final(server).wf(),
        match res {
            Ok(()) => requested_move(
                old(server)@,
                json_int(*value, "id"@),
                json_int(*value, "move"@),
            ) == Ok::<Seq<Board>, ServiceError>(final(server)@),
            Err(e) => requested_move(
                old(server)@,
                json_int(*value, "id"@),
                json_int(*value, "move"@),
            ) == Err::<Seq<Board>, ServiceError>(e) && final(server)@ == old(server)@,
        },
{
    let id = json_member(value, "id").as_i64();
    let column = json_member(value, "move").as_i64();
    play_move_from_fields(server, id, column)
}

} // verus!
