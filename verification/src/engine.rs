//! The tic-tac-toe game engine: board state, cursor navigation, move
//! legality, turn alternation, and win/tie detection.
//!
//! The engine is pure state and computation; drawing the board and mapping
//! key events to commands are the caller's business. Rejected transitions
//! (moving the cursor off the board, placing on an occupied cell) are not
//! errors: the operation returns `false` and the state is unchanged.

use vstd::prelude::*;

verus! {

/// A player's mark on the board.
#[derive(Clone, Copy, Debug, PartialEq, Eq, Structural)]
pub enum Player {
    X,
    O,
}

/// The terminal result of evaluating a board.
#[derive(Clone, Copy, Debug, PartialEq, Eq, Structural)]
pub enum Winner {
    X,
    O,
    Tie,
}

/// A cursor movement command, one cell in the given direction.
pub enum MoveKind {
    Left,
    Right,
    Up,
    Down,
}

/// Why construction of an engine was rejected.
#[derive(Clone, Copy, Debug, PartialEq, Eq, Structural)]
pub enum ConfigurationError {
    /// The requested board has no cells at all.
    ZeroSide,
    /// `side * side` does not fit in `usize`, so the board cannot be allocated.
    BoardTooLarge,
}

/// The highlighted cell: a column/row pair, always inside the board.
#[derive(Clone, Copy, Debug, PartialEq, Eq, Structural)]
pub struct Cursor {
    pub x: usize,
    pub y: usize,
}

/// The board side length used by the game proper.
pub const WIDTH: usize = 3;

/// The mark of the player who does not hold `p`.
pub open spec fn other_player(p: Player) -> Player {
    match p {
        Player::X => Player::O,
        Player::O => Player::X,
    }
}

/// The cell of board `b` at column `x`, row `y`, in row-major order.
pub open spec fn cell_at(b: Seq<Option<Player>>, side: nat, x: nat, y: nat) -> Option<Player> {
    b[(y * side + x) as int]
}

/// Every cell of row `y` carries `p`'s mark.
pub open spec fn row_won_by(b: Seq<Option<Player>>, side: nat, y: nat, p: Player) -> bool {
    forall|x: nat| x < side ==> #[trigger] cell_at(b, side, x, y) == Some(p)
}

/// Every cell of column `x` carries `p`'s mark.
pub open spec fn col_won_by(b: Seq<Option<Player>>, side: nat, x: nat, p: Player) -> bool {
    forall|y: nat| y < side ==> #[trigger] cell_at(b, side, x, y) == Some(p)
}

/// Every cell of the main diagonal carries `p`'s mark.
pub open spec fn main_diag_won_by(b: Seq<Option<Player>>, side: nat, p: Player) -> bool {
    forall|i: nat| i < side ==> #[trigger] cell_at(b, side, i, i) == Some(p)
}

/// Every cell of the anti-diagonal carries `p`'s mark.
pub open spec fn anti_diag_won_by(b: Seq<Option<Player>>, side: nat, p: Player) -> bool {
    forall|i: nat| i < side ==> #[trigger] cell_at(b, side, (side - 1 - i) as nat, i) == Some(p)
}

/// `p` owns a complete line: some row, some column, or a diagonal.
pub open spec fn wins(b: Seq<Option<Player>>, side: nat, p: Player) -> bool {
    ||| exists|y: nat| y < side && #[trigger] row_won_by(b, side, y, p)
    ||| exists|x: nat| x < side && #[trigger] col_won_by(b, side, x, p)
    ||| main_diag_won_by(b, side, p)
    ||| anti_diag_won_by(b, side, p)
}

/// Every cell of the board is occupied.
pub open spec fn board_full(b: Seq<Option<Player>>) -> bool {
    forall|i: int| 0 <= i < b.len() ==> b[i] is Some
}

/// Every cell of the board is empty.
pub open spec fn board_empty(b: Seq<Option<Player>>) -> bool {
    forall|i: int| 0 <= i < b.len() ==> b[i] is None
}

/// What `check_winner` may report of board `b`: a player is reported only
/// when that player owns a complete line; a player owning the only complete
/// lines is reported; a tie is reported exactly when nobody owns a line and
/// the board is full; nothing is reported exactly when nobody owns a line and
/// some cell is still empty. When both players own complete lines — a board
/// no legal alternating play reaches — one of the two is reported.
pub open spec fn winner_post(b: Seq<Option<Player>>, side: nat, r: Option<Winner>) -> bool {
    &&& (r == Some(Winner::X) ==> wins(b, side, Player::X))
    &&& (r == Some(Winner::O) ==> wins(b, side, Player::O))
    &&& (wins(b, side, Player::X) && !wins(b, side, Player::O) ==> r == Some(Winner::X))
    &&& (wins(b, side, Player::O) && !wins(b, side, Player::X) ==> r == Some(Winner::O))
    &&& (wins(b, side, Player::X) && wins(b, side, Player::O) ==> r == Some(Winner::X) || r
        == Some(Winner::O))
    &&& (!wins(b, side, Player::X) && !wins(b, side, Player::O) ==> r == (
    if board_full(b) {
        Some(Winner::Tie)
    } else {
        None::<Winner>
    }))
}

/// A coordinate inside a board of side length `side` maps to an index below
/// `side * side`.
pub proof fn lemma_coord_index_bound(x: nat, y: nat, side: nat)
    requires
        x < side,
        y < side,
    ensures
        y * side + x < side * side,
{
    assert(y * side + x < side * side) by (nonlinear_arith)
        requires
            x < side,
            y < side,
    ;
}

/// The game engine: board contents, whose turn it is, and the cursor that
/// targets the next placement.
pub struct Engine {
    pub state: Vec<Option<Player>>,
    pub turn: Player,
    pub cursor_pos: Cursor,
    pub width: usize,
}

impl Engine {
    /// The board side length as a mathematical value.
    pub open spec fn side(self) -> nat {
        self.width as nat
    }

    /// The board contents as a sequence of cells.
    pub open spec fn board(self) -> Seq<Option<Player>> {
        self.state@
    }

    /// Well-formedness: the board holds exactly `side * side` cells and the
    /// cursor lies inside it. Established by construction and preserved by
    /// every operation.
    pub open spec fn wf(self) -> bool {
        &&& 1 <= self.width
        &&& self.state@.len() == self.width * self.width
        &&& self.cursor_pos.x < self.width
        &&& self.cursor_pos.y < self.width
    }

    /// The board index the cursor points at.
    pub open spec fn cursor_index(self) -> nat {
        (self.cursor_pos.y * self.width + self.cursor_pos.x) as nat
    }

    /// The cell the cursor points at.
    pub open spec fn cursor_cell(self) -> Option<Player> {
        self.board()[self.cursor_index() as int]
    }
}

/// A freshly constructed engine: an all-empty `side * side` board, the given
/// player to move, and the cursor on the board's center cell.
pub open spec fn fresh_engine(e: Engine, first_turn: Player, side: usize) -> bool {
    &&& e.width == side
    &&& e.turn == first_turn
    &&& e.cursor_pos.x == side / 2
    &&& e.cursor_pos.y == side / 2
    &&& e.board().len() == side * side
    &&& board_empty(e.board())
}

/// The column the cursor would land on when moved one cell in `dir`.
pub open spec fn target_x(dir: MoveKind, c: Cursor) -> int {
    match dir {
        MoveKind::Left => c.x - 1,
        MoveKind::Right => c.x + 1,
        _ => c.x as int,
    }
}

/// The row the cursor would land on when moved one cell in `dir`.
pub open spec fn target_y(dir: MoveKind, c: Cursor) -> int {
    match dir {
        MoveKind::Up => c.y - 1,
        MoveKind::Down => c.y + 1,
        _ => c.y as int,
    }
}

/// Whether `(x, y)` lies on a board of side length `side`.
pub open spec fn in_bounds(side: nat, x: int, y: int) -> bool {
    0 <= x < side && 0 <= y < side
}

/// Whether moving the cursor `c` one cell in `dir` stays on the board.
pub open spec fn can_move(dir: MoveKind, c: Cursor, side: nat) -> bool {
    in_bounds(side, target_x(dir, c), target_y(dir, c))
}

/// How `move_cursor` relates the engine after the call (`post`) to the engine
/// before it (`pre`): board, turn and side are untouched; the cursor moves
/// exactly when the target cell is on the board, and the call reports whether
/// it did.
pub open spec fn move_post(pre: Engine, post: Engine, dir: MoveKind, r: bool) -> bool {
    &&& post.width == pre.width
    &&& post.board() == pre.board()
    &&& post.turn == pre.turn
    &&& r == can_move(dir, pre.cursor_pos, pre.side())
    &&& if can_move(dir, pre.cursor_pos, pre.side()) {
        post.cursor_pos.x == target_x(dir, pre.cursor_pos)
            && post.cursor_pos.y == target_y(dir, pre.cursor_pos)
    } else {
        post.cursor_pos == pre.cursor_pos
    }
}

/// How `place` relates the engine after the call (`post`) to the engine
/// before it (`pre`): when the cursor's cell is occupied nothing changes and
/// the call reports `false`; otherwise the cell receives the current player's
/// mark, the turn passes to the other player, and the call reports `true`.
/// Cursor and side are never touched.
pub open spec fn place_post(pre: Engine, post: Engine, r: bool) -> bool {
    &&& post.width == pre.width
    &&& post.cursor_pos == pre.cursor_pos
    &&& r == (pre.cursor_cell() is None)
    &&& if pre.cursor_cell() is None {
        post.board() == pre.board().update(pre.cursor_index() as int, Some(pre.turn))
            && post.turn == other_player(pre.turn)
    } else {
        post.board() == pre.board() && post.turn == pre.turn
    }
}

impl Engine {
    /// Creates an engine: an empty board of the given side length, the given
    /// player to move first, and the cursor on the center cell. Rejects a
    /// zero-sized board, and one whose cell count does not fit in `usize`.
    pub fn new(first_turn: Player, side: usize) -> (r: Result<Engine, ConfigurationError>)
        ensures
            r is Ok <==> 1 <= side && side * side <= usize::MAX,
            r is Ok ==> r->Ok_0.wf() && fresh_engine(r->Ok_0, first_turn, side),
            side == 0 ==> r == Err::<Engine, ConfigurationError>(ConfigurationError::ZeroSide),
            1 <= side && side * side > usize::MAX ==> r == Err::<Engine, ConfigurationError>(
                ConfigurationError::BoardTooLarge,
            ),
    {
        if side == 0 {
            return Err(ConfigurationError::ZeroSide);
        }
        let n: usize = match side.checked_mul(side) {
            Some(n) => n,
            None => {
                return Err(ConfigurationError::BoardTooLarge);
            },
        };
        let mut state: Vec<Option<Player>> = Vec::new();
        let mut i: usize = 0;
        while i < n
            invariant
                i <= n,
                state@.len() == i,
                board_empty(state@),
            decreases n - i,
        {
            state.push(None);
            i = i + 1;
        }
        let center: usize = side / 2;
        Ok(Engine { state, turn: first_turn, cursor_pos: Cursor { x: center, y: center }, width: side })
    }

    /// Replaces the board contents wholesale, leaving turn, cursor and side
    /// as they are. Meant for setting up positions in tests; the replacement
    /// must have the board's exact cell count, so that no operation ever
    /// resizes the board.
    pub fn update_state_for_testing(&mut self, state: Vec<Option<Player>>)
        requires
            old(self).wf(),
            state@.len() == old(self).width * old(self).width,
        ensures
            final(self).wf(),
            final(self).board() == state@,
            final(self).turn == old(self).turn,
            final(self).cursor_pos == old(self).cursor_pos,
            final(self).width == old(self).width,
    {
        self.state = state;
    }

    /// The row-major board index of column `x`, row `y`.
    fn coord_to_idx(&self, x: usize, y: usize) -> (r: usize)
        requires
            self.wf(),
            x < self.width,
            y < self.width,
        ensures
            r == y * self.width + x,
            r < self.board().len(),
    {
        let n: usize = self.state.len();
        proof {
            lemma_coord_index_bound(x as nat, y as nat, self.width as nat);
            assert(y * self.width + x < n);
        }
        (y * self.width) + x
    }

    /// Passes the turn to the other player.
    fn switch_turn(&mut self)
        ensures
            final(self).turn == other_player(old(self).turn),
            final(self).board() == old(self).board(),
            final(self).cursor_pos == old(self).cursor_pos,
            final(self).width == old(self).width,
    {
        self.turn = if matches!(self.turn, Player::X) {
            Player::O
        } else {
            Player::X
        };
    }

    /// Places the current player's mark on the cell under the cursor. A cell
    /// that is already occupied stays as it is — the call reports `false` and
    /// nothing changes, the turn included. On an empty cell the mark is set,
    /// the turn passes to the other player, and the call reports `true`.
    /// Whether the placement completed a line is the caller's query, through
    /// `check_winner`.
    pub fn place(&mut self) -> (r: bool)
        requires
            old(self).wf(),
        ensures
            final(self).wf(),
            place_post(*old(self), *final(self), r),
    {
        let x: usize = self.cursor_pos.x;
        let y: usize = self.cursor_pos.y;

        let idx: usize = self.coord_to_idx(x, y);

        if self.state[idx].is_some() {
            return false;
        }

        self.state.set(idx, Some(self.turn));

        self.switch_turn();

        true
    }

    /// The player owning all of row `y`, if any.
    fn row_winner(&self, y: usize) -> (r: Option<Player>)
        requires
            self.wf(),
            y < self.width,
        ensures
            forall|p: Player| r == Some(p) <==> row_won_by(self.board(), self.side(), y as nat, p),
    {
        let first = self.state[self.coord_to_idx(0, y)];
        match first {
            None => {
                proof {
                    assert(cell_at(self.board(), self.side(), 0, y as nat) is None);
                }
                None
            },
            Some(p) => {
                let mut x: usize = 1;
                while x < self.width
                    invariant
                        self.wf(),
                        y < self.width,
                        1 <= x <= self.width,
                        forall|k: nat|
                            k < x ==> #[trigger] cell_at(self.board(), self.side(), k, y as nat)
                                == Some(p),
                    decreases self.width - x,
                {
                    let c = self.state[self.coord_to_idx(x, y)];
                    let same = match c {
                        Some(q) => q == p,
                        None => false,
                    };
                    if !same {
                        proof {
                            assert(cell_at(self.board(), self.side(), x as nat, y as nat) != Some(p));
                            assert(cell_at(self.board(), self.side(), 0, y as nat) == Some(p));
                        }
                        return None;
                    }
                    x = x + 1;
                }
                proof {
                    assert(cell_at(self.board(), self.side(), 0, y as nat) == Some(p));
                }
                Some(p)
            },
        }
    }

    /// The player owning all of column `x`, if any.
    fn col_winner(&self, x: usize) -> (r: Option<Player>)
        requires
            self.wf(),
            x < self.width,
        ensures
            forall|p: Player| r == Some(p) <==> col_won_by(self.board(), self.side(), x as nat, p),
    {
        let first = self.state[self.coord_to_idx(x, 0)];
        match first {
            None => {
                proof {
                    assert(cell_at(self.board(), self.side(), x as nat, 0) is None);
                }
                None
            },
            Some(p) => {
                let mut y: usize = 1;
                while y < self.width
                    invariant
                        self.wf(),
                        x < self.width,
                        1 <= y <= self.width,
                        forall|k: nat|
                            k < y ==> #[trigger] cell_at(self.board(), self.side(), x as nat, k)
                                == Some(p),
                    decreases self.width - y,
                {
                    let c = self.state[self.coord_to_idx(x, y)];
                    let same = match c {
                        Some(q) => q == p,
                        None => false,
                    };
                    if !same {
                        proof {
                            assert(cell_at(self.board(), self.side(), x as nat, y as nat) != Some(p));
                            assert(cell_at(self.board(), self.side(), x as nat, 0) == Some(p));
                        }
                        return None;
                    }
                    y = y + 1;
                }
                proof {
                    assert(cell_at(self.board(), self.side(), x as nat, 0) == Some(p));
                }
                Some(p)
            },
        }
    }

    /// The player owning the whole main diagonal, if any.
    fn main_diag_winner(&self) -> (r: Option<Player>)
        requires
            self.wf(),
        ensures
            forall|p: Player| r == Some(p) <==> main_diag_won_by(self.board(), self.side(), p),
    {
        let first = self.state[self.coord_to_idx(0, 0)];
        match first {
            None => {
                proof {
                    assert(cell_at(self.board(), self.side(), 0, 0) is None);
                }
                None
            },
            Some(p) => {
                let mut i: usize = 1;
                while i < self.width
                    invariant
                        self.wf(),
                        1 <= i <= self.width,
                        forall|k: nat|
                            k < i ==> #[trigger] cell_at(self.board(), self.side(), k, k)
                                == Some(p),
                    decreases self.width - i,
                {
                    let c = self.state[self.coord_to_idx(i, i)];
                    let same = match c {
                        Some(q) => q == p,
                        None => false,
                    };
                    if !same {
                        proof {
                            assert(cell_at(self.board(), self.side(), i as nat, i as nat) != Some(p));
                            assert(cell_at(self.board(), self.side(), 0, 0) == Some(p));
                        }
                        return None;
                    }
                    i = i + 1;
                }
                proof {
                    assert(cell_at(self.board(), self.side(), 0, 0) == Some(p));
                }
                Some(p)
            },
        }
    }

    /// The player owning the whole anti-diagonal, if any.
    fn anti_diag_winner(&self) -> (r: Option<Player>)
        requires
            self.wf(),
        ensures
            forall|p: Player| r == Some(p) <==> anti_diag_won_by(self.board(), self.side(), p),
    {
        let first = self.state[self.coord_to_idx(self.width - 1, 0)];
        match first {
            None => {
                proof {
                    assert(cell_at(self.board(), self.side(), (self.side() - 1 - 0) as nat, 0)
                        is None);
                }
                None
            },
            Some(p) => {
                proof {
                    assert(cell_at(self.board(), self.side(), (self.side() - 1 - 0) as nat, 0)
                        == Some(p));
                }
                let mut i: usize = 1;
                while i < self.width
                    invariant
                        self.wf(),
                        1 <= i <= self.width,
                        cell_at(self.board(), self.side(), (self.side() - 1 - 0) as nat, 0) == Some(
                            p,
                        ),
                        forall|k: nat|
                            k < i ==> #[trigger] cell_at(
                                self.board(),
                                self.side(),
                                (self.side() - 1 - k) as nat,
                                k,
                            ) == Some(p),
                    decreases self.width - i,
                {
                    let c = self.state[self.coord_to_idx(self.width - 1 - i, i)];
                    let same = match c {
                        Some(q) => q == p,
                        None => false,
                    };
                    if !same {
                        proof {
                            assert(cell_at(
                                self.board(),
                                self.side(),
                                (self.side() - 1 - i as nat) as nat,
                                i as nat,
                            ) != Some(p));
                        }
                        return None;
                    }
                    i = i + 1;
                }
                Some(p)
            },
        }
    }

    /// Whether every cell of the board is occupied.
    fn board_is_full(&self) -> (r: bool)
        requires
            self.wf(),
        ensures
            r == board_full(self.board()),
    {
        let n: usize = self.state.len();
        let mut i: usize = 0;
        while i < n
            invariant
                n == self.board().len(),
                i <= n,
                forall|k: int| 0 <= k < i ==> self.board()[k] is Some,
            decreases n - i,
        {
            if self.state[i].is_none() {
                return false;
            }
            i = i + 1;
        }
        true
    }

    /// Evaluates the board: a win for the player owning a complete row,
    /// column or diagonal; a tie when the board is full without such a line;
    /// nothing while the game is still open. When both players own complete
    /// lines — a position no legal alternating play reaches — the line
    /// checked last wins, in the order rows, columns, main diagonal,
    /// anti-diagonal.
    pub fn check_winner(&self) -> (r: Option<Winner>)
        requires
            self.wf(),
        ensures
            winner_post(self.board(), self.side(), r),
    {
        let mut winner: Option<Player> = None;

        let mut y: usize = 0;
        while y < self.width
            invariant
                self.wf(),
                y <= self.width,
                (match winner {
                    Some(p) => wins(self.board(), self.side(), p),
                    None => true,
                }),
                winner is None ==> forall|p: Player, yy: nat|
                    yy < y ==> !#[trigger] row_won_by(self.board(), self.side(), yy, p),
            decreases self.width - y,
        {
            match self.row_winner(y) {
                Some(p) => {
                    proof {
                        assert(row_won_by(self.board(), self.side(), y as nat, p));
                        assert(wins(self.board(), self.side(), p));
                    }
                    winner = Some(p);
                },
                None => {},
            }
            y = y + 1;
        }

        let mut x: usize = 0;
        while x < self.width
            invariant
                self.wf(),
                x <= self.width,
                (match winner {
                    Some(p) => wins(self.board(), self.side(), p),
                    None => true,
                }),
                winner is None ==> forall|p: Player, yy: nat|
                    yy < self.side() ==> !#[trigger] row_won_by(self.board(), self.side(), yy, p),
                winner is None ==> forall|p: Player, xx: nat|
                    xx < x ==> !#[trigger] col_won_by(self.board(), self.side(), xx, p),
            decreases self.width - x,
        {
            match self.col_winner(x) {
                Some(p) => {
                    proof {
                        assert(col_won_by(self.board(), self.side(), x as nat, p));
                        assert(wins(self.board(), self.side(), p));
                    }
                    winner = Some(p);
                },
                None => {},
            }
            x = x + 1;
        }

        match self.main_diag_winner() {
            Some(p) => {
                proof {
                    assert(main_diag_won_by(self.board(), self.side(), p));
                }
                winner = Some(p);
            },
            None => {},
        }
        match self.anti_diag_winner() {
            Some(p) => {
                proof {
                    assert(anti_diag_won_by(self.board(), self.side(), p));
                }
                winner = Some(p);
            },
            None => {},
        }

        if winner.is_none() && self.board_is_full() {
            return Some(Winner::Tie);
        }

        match winner {
            Some(Player::X) => Some(Winner::X),
            Some(Player::O) => Some(Winner::O),
            None => None,
        }
    }

    /// Moves the cursor one cell in `dir` when the target stays on the board,
    /// and reports whether it moved; at the board's edge the cursor is left
    /// where it is. Board and turn are never touched.
    pub fn move_cursor(&mut self, dir: MoveKind) -> (r: bool)
        requires
            old(self).wf(),
        ensures
            final(self).wf(),
            move_post(*old(self), *final(self), dir, r),
    {
        match dir {
            MoveKind::Up => {
                if self.cursor_pos.y >= 1 {
                    self.cursor_pos.y = self.cursor_pos.y - 1;
                    true
                } else {
                    false
                }
            },
            MoveKind::Down => {
                if self.cursor_pos.y + 1 < self.width {
                    self.cursor_pos.y = self.cursor_pos.y + 1;
                    true
                } else {
                    false
                }
            },
            MoveKind::Left => {
                if self.cursor_pos.x >= 1 {
                    self.cursor_pos.x = self.cursor_pos.x - 1;
                    true
                } else {
                    false
                }
            },
            MoveKind::Right => {
                if self.cursor_pos.x + 1 < self.width {
                    self.cursor_pos.x = self.cursor_pos.x + 1;
                    true
                } else {
                    false
                }
            },
        }
    }
}

/// Law: a well-formed engine keeps its cursor inside the board, and its
/// board holds exactly `side * side` cells. Every reachable engine state is
/// well-formed: `new` establishes `wf`, and every operation preserves it.
pub proof fn lemma_wf_invariant(e: Engine)
    requires
        e.wf(),
    ensures
        e.cursor_pos.x < e.width,
        e.cursor_pos.y < e.width,
        e.board().len() == e.width * e.width,
{
}

/// Law: rejection of a placement is idempotent. When the cursor's cell is
/// occupied, `place` reports `false` and changes nothing, so calling it again
/// without other state changes in between reports `false` again and leaves
/// board, turn and cursor exactly as they began.
pub proof fn lemma_place_rejection_idempotent(e0: Engine, e1: Engine, e2: Engine, r1: bool, r2: bool)
    requires
        e0.cursor_cell() is Some,
        place_post(e0, e1, r1),
        place_post(e1, e2, r2),
    ensures
        !r1,
        !r2,
        e1.board() == e0.board(),
        e1.turn == e0.turn,
        e1.cursor_pos == e0.cursor_pos,
        e1.width == e0.width,
        e2.board() == e0.board(),
        e2.turn == e0.turn,
        e2.cursor_pos == e0.cursor_pos,
        e2.width == e0.width,
{
    assert(e1.cursor_cell() == e0.cursor_cell());
}

/// Law: a successful `place` always passes the turn to the other player; a
/// rejected `place` never touches it.
pub proof fn lemma_place_turn_alternation(pre: Engine, post: Engine, r: bool)
    requires
        place_post(pre, post, r),
    ensures
        r ==> post.turn == other_player(pre.turn),
        !r ==> post.turn == pre.turn,
{
}

/// Law: on an all-empty board no line is complete and the board is not
/// full, so evaluating it reports no outcome.
pub proof fn lemma_empty_board_no_outcome(b: Seq<Option<Player>>, side: nat, r: Option<Winner>)
    requires
        side >= 1,
        b.len() == side * side,
        board_empty(b),
        winner_post(b, side, r),
    ensures
        r is None,
{
    assert(side * side >= 1) by (nonlinear_arith)
        requires
            side >= 1,
    ;
    assert(!board_full(b)) by {
        assert(b[0] is None);
    }
    assert forall|p: Player, y: nat| y < side implies !row_won_by(b, side, y, p) by {
        lemma_coord_index_bound(0, y, side);
        assert(cell_at(b, side, 0, y) is None);
    }
    assert forall|p: Player, x: nat| x < side implies !col_won_by(b, side, x, p) by {
        lemma_coord_index_bound(x, 0, side);
        assert(cell_at(b, side, x, 0) is None);
    }
    assert forall|p: Player| !main_diag_won_by(b, side, p) by {
        assert(cell_at(b, side, 0, 0) is None);
    }
    assert forall|p: Player| !anti_diag_won_by(b, side, p) by {
        lemma_coord_index_bound((side - 1) as nat, 0, side);
        assert(cell_at(b, side, (side - 1 - 0) as nat, 0) is None);
    }
    assert(!wins(b, side, Player::X));
    assert(!wins(b, side, Player::O));
}

/// Whether the cursor `c` stands at an edge of the board and `dir` points
/// outward over that edge.
pub open spec fn at_edge_outward(dir: MoveKind, c: Cursor, side: nat) -> bool {
    match dir {
        MoveKind::Up => c.y == 0,
        MoveKind::Down => c.y + 1 >= side,
        MoveKind::Left => c.x == 0,
        MoveKind::Right => c.x + 1 >= side,
    }
}

/// Law: `move_cursor` at an edge coordinate, in the outward direction,
/// reports `false` and leaves the cursor — and everything else — unchanged.
pub proof fn lemma_move_cursor_boundary(pre: Engine, post: Engine, dir: MoveKind, r: bool)
    requires
        pre.wf(),
        at_edge_outward(dir, pre.cursor_pos, pre.side()),
        move_post(pre, post, dir, r),
    ensures
        !r,
        post.cursor_pos == pre.cursor_pos,
        post.board() == pre.board(),
        post.turn == pre.turn,
        post.width == pre.width,
{
}

} // verus!
