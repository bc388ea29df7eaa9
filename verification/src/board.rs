//! The rules of one connect-k game: a grid filled column by column, with a
//! winner as soon as `k` equal markers stand in a line.
//!
//! Cells are kept row by row, the bottom row first: the cell of column `c` in
//! row `r` (counted from the bottom) has index `r * width + c`.

use vstd::prelude::*;

verus! {

/// One of the two players.
#[derive(Clone, Copy, Debug, PartialEq, Eq, Structural)]
pub enum Player {
    One,
    Two,
}

/// Where a game stands.
#[derive(Clone, Copy, Debug, PartialEq, Eq, Structural)]
pub enum GameStatus {
    InProcess,
    PlayerOneWin,
    PlayerTwoWin,
    Tie,
}

/// Why a move was turned down.
#[derive(Clone, Copy, Debug, PartialEq, Eq, Structural)]
pub enum MoveError {
    /// The column is not on the board.
    InvalidColumn,
    /// The column has no empty cell left.
    ColumnFull,
    /// The game has already ended.
    GameOver,
}

impl Player {
    /// The marker this player leaves in a cell: 1 or 2 (0 is an empty cell).
    pub open spec fn marker(self) -> u8 {
        match self {
            Player::One => 1u8,
            Player::Two => 2u8,
        }
    }

    /// The opponent.
    pub open spec fn other(self) -> Player {
        match self {
            Player::One => Player::Two,
            Player::Two => Player::One,
        }
    }

    /// The status of a game this player has won.
    pub open spec fn win(self) -> GameStatus {
        match self {
            Player::One => GameStatus::PlayerOneWin,
            Player::Two => GameStatus::PlayerTwoWin,
        }
    }

    /// This player's marker.
    pub fn mark(self) -> (m: u8)
        ensures
            m == self.marker(),
    {
        match self {
            Player::One => 1u8,
            Player::Two => 2u8,
        }
    }

    /// The other player.
    pub fn opponent(self) -> (p: Player)
        ensures
            p == self.other(),
    {
        match self {
            Player::One => Player::Two,
            Player::Two => Player::One,
        }
    }

    /// The status that says this player has won.
    pub fn winning_status(self) -> (s: GameStatus)
        ensures
            s == self.win(),
    {
        match self {
            Player::One => GameStatus::PlayerOneWin,
            Player::Two => GameStatus::PlayerTwoWin,
        }
    }
}

/// `x` moved `t` steps in the direction of `d`'s sign (not at all for 0).
pub open spec fn shift(x: int, d: int, t: int) -> int {
    if d > 0 {
        x + t
    } else if d < 0 {
        x - t
    } else {
        x
    }
}

/// How many cells of `cells` hold a marker.
pub open spec fn occupied(cells: Seq<u8>) -> nat
    decreases cells.len(),
{
    if cells.len() == 0 {
        0
    } else {
        occupied(cells.drop_last()) + if cells.last() != 0 {
            1nat
        } else {
            0nat
        }
    }
}

/// The mathematical state of a game.
pub struct Board {
    pub width: nat,
    pub height: nat,
    pub k: nat,
    pub cells: Seq<u8>,
    pub curr_player: Player,
    pub status: GameStatus,
}

impl Board {
    /// The grid has `width * height` cells, each empty (0) or holding a marker (1, 2).
    pub open spec fn wf(self) -> bool {
        &&& self.cells.len() == self.width * self.height
        &&& forall|i: int| 0 <= i < self.cells.len() ==> #[trigger] self.cells[i] <= 2
    }

    /// A sound board whose dimensions and number of cells a machine can hold.
    pub open spec fn storable(self) -> bool {
        &&& self.wf()
        &&& self.width <= usize::MAX
        &&& self.height <= usize::MAX
        &&& self.k <= usize::MAX
        &&& self.cells.len() <= usize::MAX
    }

    /// The board of a game that has just been set up.
    pub open spec fn empty(width: nat, height: nat, k: nat, first: Player) -> Board {
        Board {
            width,
            height,
            k,
            cells: Seq::new(width * height, |i: int| 0u8),
            curr_player: first,
            status: GameStatus::InProcess,
        }
    }

    /// Column `c`, row `r` is on the board.
    pub open spec fn in_bounds(self, c: int, r: int) -> bool {
        0 <= c < self.width && 0 <= r < self.height
    }

    /// The place of column `c`, row `r` in `cells`.
    pub open spec fn index(self, c: int, r: int) -> int {
        r * self.width + c
    }

    /// Column `c`, row `r` is on the board and holds `p`.
    pub open spec fn marked(self, c: int, r: int, p: u8) -> bool {
        self.in_bounds(c, r) && self.cells[self.index(c, r)] == p
    }

    /// The lowest empty row of column `c` at or above row `r`; `height` if there is none.
    pub open spec fn empty_row_from(self, c: int, r: int) -> int
        decreases self.height - r,
    {
        if r >= self.height {
            self.height as int
        } else if self.cells[self.index(c, r)] == 0 {
            r
        } else {
            self.empty_row_from(c, r + 1)
        }
    }

    /// The row in which a piece dropped into column `c` comes to rest; `height` if the column is full.
    pub open spec fn drop_row(self, c: int) -> int {
        self.empty_row_from(c, 0)
    }

    /// The cell `t` steps from (`c`, `r`) in direction (`dx`, `dy`) holds `p`.
    pub open spec fn on_ray(self, c: int, r: int, dx: int, dy: int, t: int, p: u8) -> bool {
        self.marked(shift(c, dx, t), shift(r, dy, t), p)
    }

    /// The `k` cells on the line through (`c`, `r`) in direction (`dx`, `dy`), of which
    /// (`c`, `r`) is the one at place `s`, all hold `p`.
    pub open spec fn window(self, c: int, r: int, dx: int, dy: int, p: u8, s: int) -> bool {
        forall|t: int| -s <= t < self.k - s ==> #[trigger] self.on_ray(c, r, dx, dy, t, p)
    }

    /// Some `k` consecutive cells in direction (`dx`, `dy`), (`c`, `r`) among them, all hold `p`.
    pub open spec fn line_through(self, c: int, r: int, dx: int, dy: int, p: u8) -> bool {
        exists|s: int| 0 <= s < self.k && #[trigger] self.window(c, r, dx, dy, p, s)
    }

    /// `k` markers `p` stand in a row, a column or a diagonal through (`c`, `r`).
    pub open spec fn wins_at(self, c: int, r: int, p: u8) -> bool {
        ||| self.line_through(c, r, 1, 0, p)
        ||| self.line_through(c, r, 0, 1, p)
        ||| self.line_through(c, r, 1, 1, p)
        ||| self.line_through(c, r, 1, -1, p)
    }

    /// No cell is empty.
    pub open spec fn full(self) -> bool {
        forall|i: int| 0 <= i < self.cells.len() ==> #[trigger] self.cells[i] != 0
    }

    /// The board with the current player's marker in column `c`, row `r`.
    pub open spec fn place(self, c: int, r: int) -> Board {
        Board { cells: self.cells.update(self.index(c, r), self.curr_player.marker()), ..self }
    }

    /// What a move into column `col` leads to: the next board, or the reason why
    /// the move is turned down.
    pub open spec fn after_move(self, col: int) -> Result<Board, MoveError> {
        if self.status != GameStatus::InProcess {
            Err(MoveError::GameOver)
        } else if !(0 <= col < self.width) {
            Err(MoveError::InvalidColumn)
        } else if self.drop_row(col) >= self.height {
            Err(MoveError::ColumnFull)
        } else {
            let placed = self.place(col, self.drop_row(col));
            if placed.wins_at(col, self.drop_row(col), self.curr_player.marker()) {
                Ok(Board { status: self.curr_player.win(), ..placed })
            } else if placed.full() {
                Ok(Board { status: GameStatus::Tie, ..placed })
            } else {
                Ok(Board { curr_player: self.curr_player.other(), ..placed })
            }
        }
    }

    /// The board after the moves into the columns `cols`, played in turn and
    /// all accepted; `None` where one of them is turned down.
    pub open spec fn after_moves(self, cols: Seq<int>) -> Option<Board>
        decreases cols.len(),
    {
        if cols.len() == 0 {
            Some(self)
        } else {
            match self.after_moves(cols.drop_last()) {
                Some(mid) => match mid.after_move(cols.last()) {
                    Ok(next) => Some(next),
                    Err(_) => None,
                },
                None => None,
            }
        }
    }
}

/// A cell on the board has its place inside the grid.
pub proof fn lemma_index_in_grid(w: int, h: int, c: int, r: int)
    requires
        0 <= c < w,
        0 <= r < h,
    ensures
        0 <= r * w <= r * w + c < w * h,
{
    assert(r * w >= 0) by (nonlinear_arith)
        requires
            r >= 0,
            w >= 0,
    ;
    assert(r * w + w <= h * w) by (nonlinear_arith)
        requires
            r + 1 <= h,
            w >= 0,
    ;
    assert(h * w == w * h) by (nonlinear_arith);
}

/// From row `r` up, the search for an empty cell in column `c` ends at an empty
/// cell with only occupied cells between `r` and it, or at the top of the board.
proof fn lemma_empty_row_from(b: Board, c: int, r: int)
    requires
        0 <= r <= b.height,
    ensures
        r <= b.empty_row_from(c, r) <= b.height,
        b.empty_row_from(c, r) < b.height ==> b.cells[b.index(c, b.empty_row_from(c, r))] == 0,
        forall|q: int| r <= q < b.empty_row_from(c, r) ==> b.cells[#[trigger] b.index(c, q)] != 0,
    decreases b.height - r,
{
    if r < b.height && b.cells[b.index(c, r)] != 0 {
        lemma_empty_row_from(b, c, r + 1);
    }
}

/// A dropped piece comes to rest in the lowest empty cell of its column: the
/// cell at `drop_row` is empty and every cell below it is occupied; a column
/// without an empty cell has `drop_row` equal to the board's height.
pub proof fn lemma_drop_row_is_lowest_empty(b: Board, c: int)
    ensures
        0 <= b.drop_row(c) <= b.height,
        b.drop_row(c) < b.height ==> b.cells[b.index(c, b.drop_row(c))] == 0,
        forall|q: int| 0 <= q < b.drop_row(c) ==> b.cells[#[trigger] b.index(c, q)] != 0,
{
    lemma_empty_row_from(b, c, 0);
}

/// Putting a marker into an empty cell raises the number of occupied cells by one.
pub proof fn lemma_occupied_after_update(cells: Seq<u8>, i: int, m: u8)
    requires
        0 <= i < cells.len(),
        cells[i] == 0,
        m != 0,
    ensures
        occupied(cells.update(i, m)) == occupied(cells) + 1,
    decreases cells.len(),
{
    let next = cells.update(i, m);
    if i == cells.len() - 1 {
        assert(next.drop_last() =~= cells.drop_last());
    } else {
        assert(next.drop_last() =~= cells.drop_last().update(i, m));
        lemma_occupied_after_update(cells.drop_last(), i, m);
    }
}

/// An accepted move keeps the board's dimensions and every marker already on
/// it, and adds exactly one: the number of occupied cells grows by one.
pub proof fn lemma_move_adds_one_piece(b: Board, col: int)
    requires
        b.wf(),
        b.after_move(col) is Ok,
    ensures
        b.after_move(col)->Ok_0.wf(),
        b.after_move(col)->Ok_0.width == b.width,
        b.after_move(col)->Ok_0.height == b.height,
        b.after_move(col)->Ok_0.k == b.k,
        b.after_move(col)->Ok_0.cells.len() == b.width * b.height,
        forall|i: int|
            0 <= i < b.cells.len() && b.cells[i] != 0 ==> #[trigger] b.after_move(col)->Ok_0.cells[i]
                == b.cells[i],
        occupied(b.after_move(col)->Ok_0.cells) == occupied(b.cells) + 1,
{
    let row = b.drop_row(col);
    lemma_drop_row_is_lowest_empty(b, col);
    lemma_index_in_grid(b.width as int, b.height as int, col, row);
    lemma_occupied_after_update(b.cells, b.index(col, row), b.curr_player.marker());
    assert(b.after_move(col)->Ok_0.cells == b.place(col, row).cells);
}

/// A move is accepted exactly when the game is in process, the column is on
/// the board and the column has an empty cell.
pub proof fn lemma_move_accepted_iff(b: Board, col: int)
    ensures
        b.after_move(col) is Ok <==> (b.status == GameStatus::InProcess && 0 <= col < b.width
            && b.drop_row(col) < b.height),
        b.after_move(col) == Err::<Board, MoveError>(MoveError::GameOver) <==> b.status
            != GameStatus::InProcess,
{
}

/// After an accepted move either the game goes on and the turn has passed to
/// the opponent, or the game has ended, the mover keeps the turn and every
/// further move is turned down.
pub proof fn lemma_turn_alternates(b: Board, col: int, next_col: int)
    requires
        b.after_move(col) is Ok,
    ensures
        b.status == GameStatus::InProcess,
        b.after_move(col)->Ok_0.status == GameStatus::InProcess ==> b.after_move(col)->Ok_0.curr_player
            == b.curr_player.other(),
        b.after_move(col)->Ok_0.status != GameStatus::InProcess ==> {
            &&& b.after_move(col)->Ok_0.curr_player == b.curr_player
            &&& b.after_move(col)->Ok_0.after_move(next_col) == Err::<Board, MoveError>(
                MoveError::GameOver,
            )
        },
{
}

/// Moves played one after another, all accepted, each add one marker: the
/// number of occupied cells grows by the number of moves.
pub proof fn lemma_accepted_moves_add_up(b: Board, cols: Seq<int>)
    requires
        b.wf(),
        b.after_moves(cols) is Some,
    ensures
        b.after_moves(cols)->Some_0.wf(),
        occupied(b.after_moves(cols)->Some_0.cells) == occupied(b.cells) + cols.len(),
    decreases cols.len(),
{
    if cols.len() > 0 {
        lemma_accepted_moves_add_up(b, cols.drop_last());
        lemma_move_adds_one_piece(b.after_moves(cols.drop_last())->Some_0, cols.last());
    }
}

/// Cells that are all empty hold no marker.
proof fn lemma_occupied_none(cells: Seq<u8>)
    requires
        forall|i: int| 0 <= i < cells.len() ==> #[trigger] cells[i] == 0,
    ensures
        occupied(cells) == 0,
    decreases cells.len(),
{
    if cells.len() > 0 {
        lemma_occupied_none(cells.drop_last());
    }
}

/// A game that has just been set up has a sound board of `width * height`
/// empty cells and is in process.
pub proof fn lemma_new_board_is_empty(width: nat, height: nat, k: nat, first: Player)
    ensures
        Board::empty(width, height, k, first).wf(),
        Board::empty(width, height, k, first).cells.len() == width * height,
        occupied(Board::empty(width, height, k, first).cells) == 0,
        Board::empty(width, height, k, first).status == GameStatus::InProcess,
        Board::empty(width, height, k, first).curr_player == first,
{
    lemma_occupied_none(Board::empty(width, height, k, first).cells);
}

/// A line of `p` through a cell needs `p` in that cell.
pub proof fn lemma_line_needs_its_cell(b: Board, c: int, r: int, dx: int, dy: int, p: u8)
    requires
        !b.marked(c, r, p),
    ensures
        !b.line_through(c, r, dx, dy, p),
{
    assert forall|s: int| 0 <= s < b.k implies !#[trigger] b.window(c, r, dx, dy, p, s) by {
        if b.window(c, r, dx, dy, p, s) {
            assert(b.on_ray(c, r, dx, dy, 0, p));
        }
    }
}

/// One game.
#[derive(Debug)]
pub struct ConnectK {
    width: usize,
    height: usize,
    k: usize,
    curr_player: Player,
    status: GameStatus,
    board: Vec<u8>,
}

impl View for ConnectK {
    type V = Board;

    closed spec fn view(&self) -> Board {
        Board {
            width: self.width as nat,
            height: self.height as nat,
            k: self.k as nat,
            cells: self.board@,
            curr_player: self.curr_player,
            status: self.status,
        }
    }
}

impl Clone for ConnectK {
    /// A copy that shares nothing with the game it was made from.
    fn clone(&self) -> (g: Self)
        ensures
            g@ == self@,
    {
        let board = self.board.clone();
        assert(board@ =~= self.board@);
        ConnectK {
            width: self.width,
            height: self.height,
            k: self.k,
            curr_player: self.curr_player,
            status: self.status,
            board,
        }
    }
}

impl ConnectK {
    /// The game's grid is sound, and its dimensions are those of a machine.
    pub open spec fn wf(&self) -> bool {
        self@.storable()
    }

    /// A new game on an empty `width` by `height` grid, in which `player` moves first
    /// and `k` markers in a line win.
    pub fn new(width: usize, height: usize, k: usize, player: Player) -> (g: ConnectK)
        requires
            width * height <= usize::MAX,
        ensures
            g.wf(),
            g@ == Board::empty(width as nat, height as nat, k as nat, player),
    {
        let n: usize = width * height;
        let board = vec![0u8; n];
        assert(board@ =~= Seq::new((width * height) as nat, |i: int| 0u8));
        ConnectK { width, height, k, curr_player: player, status: GameStatus::InProcess, board }
    }

    /// The number of columns.
    pub fn width(&self) -> (w: usize)
        ensures
            w == self@.width,
    {
        self.width
    }

    /// The number of rows.
    pub fn height(&self) -> (h: usize)
        ensures
            h == self@.height,
    {
        self.height
    }

    /// How many markers in a line win.
    pub fn k(&self) -> (k: usize)
        ensures
            k == self@.k,
    {
        self.k
    }

    /// Whose turn it is; after the game has ended, who moved last.
    pub fn curr_player(&self) -> (p: Player)
        ensures
            p == self@.curr_player,
    {
        self.curr_player
    }

    /// Where the game stands.
    pub fn status(&self) -> (s: GameStatus)
        ensures
            s == self@.status,
    {
        self.status
    }

    /// The cells row by row, the bottom row first: 0 for an empty cell, 1 and 2
    /// for the players' markers.
    pub fn board_linear(&self) -> (cells: Vec<u8>)
        requires
            self.wf(),
        ensures
            cells@ == self@.cells,
            cells@.len() == self@.width * self@.height,
            forall|i: int| 0 <= i < cells@.len() ==> #[trigger] cells@[i] <= 2,
    {
        let cells = self.board.clone();
        assert(cells@ =~= self.board@);
        cells
    }

    /// What column `c`, row `r` holds; `None` off the board.
    pub fn cell(&self, c: usize, r: usize) -> (v: Option<u8>)
        requires
            self.wf(),
        ensures
            match v {
                Some(m) => self@.marked(c as int, r as int, m),
                None => !self@.in_bounds(c as int, r as int),
            },
    {
        if c < self.width && r < self.height {
            Some(self.at(c, r))
        } else {
            None
        }
    }

    /// What column `c`, row `r` of the board holds.
    fn at(&self, c: usize, r: usize) -> (v: u8)
        requires
            self.wf(),
            c < self@.width,
            r < self@.height,
        ensures
            v == self@.cells[self@.index(c as int, r as int)],
            v <= 2,
    {
        proof {
            lemma_index_in_grid(self.width as int, self.height as int, c as int, r as int);
        }
        self.board[r * self.width + c]
    }

    /// The row in which a piece dropped into column `col` comes to rest;
    /// `None` where the column is off the board or full.
    pub fn lowest_empty(&self, col: usize) -> (row: Option<usize>)
        requires
            self.wf(),
        ensures
            match row {
                Some(r) => col < self@.width && r == self@.drop_row(col as int) && r < self@.height,
                None => col >= self@.width || self@.drop_row(col as int) >= self@.height,
            },
    {
        if col >= self.width {
            return None;
        }
        let row: usize = self.drop_position(col);
        if row < self.height {
            Some(row)
        } else {
            None
        }
    }

    /// The row in which a piece dropped into column `col` comes to rest, or
    /// the board's height if the column is full.
    fn drop_position(&self, col: usize) -> (row: usize)
        requires
            self.wf(),
            col < self@.width,
        ensures
            row == self@.drop_row(col as int),
            row <= self@.height,
    {
        let mut row: usize = 0;
        while row < self.height
            invariant
                self.wf(),
                col < self@.width,
                row <= self.height,
                self@.empty_row_from(col as int, row as int) == self@.drop_row(col as int),
            decreases self.height - row,
        {
            if self.at(col, row) == 0 {
                return row;
            }
            row += 1;
        }
        row
    }

    /// How many cells in direction (`dx`, `dy`) from (`c`, `r`), that cell
    /// itself left out, hold `p` without a gap.
    fn count_ray(&self, c: usize, r: usize, dx: i8, dy: i8, p: u8) -> (n: usize)
        requires
            self.wf(),
            c < self@.width,
            r < self@.height,
            -1 <= dx <= 1,
            -1 <= dy <= 1,
            dx != 0 || dy != 0,
        ensures
            forall|t: int| 1 <= t <= n ==> #[trigger] self@.on_ray(c as int, r as int, dx as int, dy as int, t, p),
            !self@.on_ray(c as int, r as int, dx as int, dy as int, n + 1, p),
    {
        let mut n: usize = 0;
        let mut cc: usize = c;
        let mut rr: usize = r;
        loop
            invariant
                self.wf(),
                -1 <= dx <= 1,
                -1 <= dy <= 1,
                dx != 0 || dy != 0,
                cc < self.width,
                rr < self.height,
                cc == shift(c as int, dx as int, n as int),
                rr == shift(r as int, dy as int, n as int),
                c < self.width,
                r < self.height,
                n < self.width + self.height,
                forall|t: int| 1 <= t <= n ==> #[trigger] self@.on_ray(c as int, r as int, dx as int, dy as int, t, p),
            decreases self.width + self.height - n,
        {
            let next_c: usize = if dx > 0 {
                if cc + 1 >= self.width {
                    return n;
                }
                cc + 1
            } else if dx < 0 {
                if cc == 0 {
                    return n;
                }
                cc - 1
            } else {
                cc
            };
            let next_r: usize = if dy > 0 {
                if rr + 1 >= self.height {
                    return n;
                }
                rr + 1
            } else if dy < 0 {
                if rr == 0 {
                    return n;
                }
                rr - 1
            } else {
                rr
            };
            if self.at(next_c, next_r) != p {
                return n;
            }
            cc = next_c;
            rr = next_r;
            n += 1;
        }
    }

    /// Whether `k` markers `p` stand in direction (`dx`, `dy`) without a gap,
    /// the one at (`c`, `r`) among them.
    fn has_line(&self, c: usize, r: usize, dx: i8, dy: i8, p: u8) -> (found: bool)
        requires
            self.wf(),
            self@.marked(c as int, r as int, p),
            -1 <= dx <= 1,
            -1 <= dy <= 1,
            dx != 0 || dy != 0,
        ensures
            found == self@.line_through(c as int, r as int, dx as int, dy as int, p),
    {
        if self.k == 0 {
            return false;
        }
        let ahead: usize = self.count_ray(c, r, dx, dy, p);
        let behind: usize = self.count_ray(c, r, -dx, -dy, p);
        let need: usize = self.k - 1;
        let found = if behind >= need {
            true
        } else {
            ahead >= need - behind
        };
        proof {
            let b = self@;
            let (ci, ri, dxi, dyi) = (c as int, r as int, dx as int, dy as int);
            assert(b.on_ray(ci, ri, -dxi, -dyi, behind + 1, p) == b.on_ray(ci, ri, dxi, dyi, -(behind + 1), p));
            if found {
                let s: int = if behind >= need {
                    need as int
                } else {
                    behind as int
                };
                assert forall|t: int| -s <= t < b.k - s implies #[trigger] b.on_ray(ci, ri, dxi, dyi, t, p) by {
                    if t < 0 {
                        assert(b.on_ray(ci, ri, -dxi, -dyi, -t, p));
                    } else if t == 0 {
                    } else {
                        assert(b.on_ray(ci, ri, dxi, dyi, t, p));
                    }
                }
                assert(b.window(ci, ri, dxi, dyi, p, s));
            } else {
                assert forall|s: int| 0 <= s < b.k implies !#[trigger] b.window(ci, ri, dxi, dyi, p, s) by {
                    if b.window(ci, ri, dxi, dyi, p, s) {
                        if s > behind {
                            assert(b.on_ray(ci, ri, dxi, dyi, -(behind + 1), p));
                        } else {
                            assert(b.on_ray(ci, ri, dxi, dyi, ahead + 1, p));
                        }
                    }
                }
            }
        }
        found
    }

    /// Whether `k` markers `p` stand in a line through (`c`, `r`).
    pub fn won_at(&self, c: usize, r: usize, p: u8) -> (won: bool)
        requires
            self.wf(),
        ensures
            won == self@.wins_at(c as int, r as int, p),
    {
        if c >= self.width || r >= self.height || self.at(c, r) != p {
            proof {
                lemma_line_needs_its_cell(self@, c as int, r as int, 1, 0, p);
                lemma_line_needs_its_cell(self@, c as int, r as int, 0, 1, p);
                lemma_line_needs_its_cell(self@, c as int, r as int, 1, 1, p);
                lemma_line_needs_its_cell(self@, c as int, r as int, 1, -1, p);
            }
            return false;
        }
        self.has_line(c, r, 1, 0, p) || self.has_line(c, r, 0, 1, p) || self.has_line(c, r, 1, 1, p)
            || self.has_line(c, r, 1, -1, p)
    }

    /// Whether no cell is empty.
    pub fn is_full(&self) -> (full: bool)
        requires
            self.wf(),
        ensures
            full == self@.full(),
    {
        let mut i: usize = 0;
        while i < self.board.len()
            invariant
                i <= self.board.len(),
                forall|j: int| 0 <= j < i ==> #[trigger] self.board@[j] != 0,
            decreases self.board.len() - i,
        {
            if self.board[i] == 0 {
                assert(self@.cells[i as int] == 0);
                return false;
            }
            i += 1;
        }
        true
    }

    /// Drops the current player's piece into column `col`.
    ///
    /// A move is turned down, and the game left as it was, when the game has
    /// ended (`GameOver`), else when the column is not on the board
    /// (`InvalidColumn`), else when the column is full (`ColumnFull`). An
    /// accepted move places the marker in the column's lowest empty cell; the
    /// mover wins with `k` in a line through it, the game is tied when that
    /// filled the board, and otherwise the turn passes to the opponent.
    pub fn insert(&mut self, col: usize) -> (res: Result<(), MoveError>)
        requires
            old(self).wf(),
        ensures
            final(self).wf(),
            match res {
                Ok(()) => old(self)@.after_move(col as int) == Ok::<Board, MoveError>(final(self)@),
                Err(e) => old(self)@.after_move(col as int) == Err::<Board, MoveError>(e) && final(self)@
                    == old(self)@,
            },
    {
        if self.status != GameStatus::InProcess {
            return Err(MoveError::GameOver);
        }
        if col >= self.width {
            return Err(MoveError::InvalidColumn);
        }
        let row: usize = self.drop_position(col);
        if row >= self.height {
            return Err(MoveError::ColumnFull);
        }
        let p: u8 = self.curr_player.mark();
        proof {
            lemma_index_in_grid(self.width as int, self.height as int, col as int, row as int);
        }
        self.board.set(row * self.width + col, p);
        assert(self@ == old(self)@.place(col as int, row as int));
        if self.won_at(col, row, p) {
            self.status = self.curr_player.winning_status();
        } else if self.is_full() {
            self.status = GameStatus::Tie;
        } else {
            self.curr_player = self.curr_player.opponent();
        }
        Ok(())
    }
}

} // verus!
