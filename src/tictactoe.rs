//! Tic-tac-toe on a 3x3 board.
use vstd::array::*;
use vstd::prelude::*;

use crate::game::{Game, Player, VictoryState, DEFAULT_EXPLORATION};

verus! {

broadcast use vstd::array::group_array_axioms;

/// A tic-tac-toe position: the board and the player to move.
#[derive(Debug, PartialEq, Eq, Clone, Copy)]
pub struct TicTacToe {
    pub board: [[Option<Player>; 3]; 3],
    pub current_player: Player,
}

/// A move: the row and the column of the cell to fill.
#[derive(Debug, PartialEq, Eq, Clone, Copy, Structural)]
pub struct Action(pub usize, pub usize);

/// `board` with cell `(x, y)` set to `v`.
pub open spec fn board_set(
    board: [[Option<Player>; 3]; 3],
    x: int,
    y: int,
    v: Option<Player>,
) -> [[Option<Player>; 3]; 3] {
    spec_array_update(board, x, spec_array_update(board[x], y, v))
}

/// The owner of the line through three cells, if one player holds all three.
pub open spec fn line_owner(
    board: [[Option<Player>; 3]; 3],
    a: (int, int),
    b: (int, int),
    c: (int, int),
) -> Option<Player> {
    if board[a.0][a.1] is Some && board[a.0][a.1] == board[b.0][b.1] && board[b.0][b.1]
        == board[c.0][c.1] {
        board[a.0][a.1]
    } else {
        None
    }
}

/// `later` if it names a player, else `earlier`.
pub open spec fn prefer(later: Option<Player>, earlier: Option<Player>) -> Option<Player> {
    if later is Some {
        later
    } else {
        earlier
    }
}

/// The owner of row `i`.
pub open spec fn row_owner(board: [[Option<Player>; 3]; 3], i: int) -> Option<Player> {
    line_owner(board, (i, 0), (i, 1), (i, 2))
}

/// The owner of column `i`.
pub open spec fn column_owner(board: [[Option<Player>; 3]; 3], i: int) -> Option<Player> {
    line_owner(board, (0, i), (1, i), (2, i))
}

/// The owner of the lines among the first `i` rows and columns, checked
/// row `k` then column `k` for each `k`; a later line wins.
pub open spec fn rows_columns_owner(board: [[Option<Player>; 3]; 3], i: int) -> Option<Player>
    decreases i,
{
    if i <= 0 {
        None
    } else {
        prefer(
            column_owner(board, i - 1),
            prefer(row_owner(board, i - 1), rows_columns_owner(board, i - 1)),
        )
    }
}

/// The winner of `board`: a player who holds a whole row, column or
/// diagonal (rows and columns first, then the two diagonals; a later
/// line wins).
pub open spec fn winner_of(board: [[Option<Player>; 3]; 3]) -> Option<Player> {
    prefer(
        line_owner(board, (0, 2), (1, 1), (2, 0)),
        prefer(line_owner(board, (0, 0), (1, 1), (2, 2)), rows_columns_owner(board, 3)),
    )
}

/// `p` owns cell `(x, y)`.
pub open spec fn owns(board: [[Option<Player>; 3]; 3], p: Player, x: int, y: int) -> bool {
    board[x][y] == Some(p)
}

/// `p` holds all three cells of some row, column or diagonal.
pub open spec fn holds_line(board: [[Option<Player>; 3]; 3], p: Player) -> bool {
    ||| exists|i: int|
        0 <= i < 3 && #[trigger] owns(board, p, i, 0) && owns(board, p, i, 1) && owns(board, p, i, 2)
    ||| exists|i: int|
        0 <= i < 3 && #[trigger] owns(board, p, 0, i) && owns(board, p, 1, i) && owns(board, p, 2, i)
    ||| owns(board, p, 0, 0) && owns(board, p, 1, 1) && owns(board, p, 2, 2)
    ||| owns(board, p, 0, 2) && owns(board, p, 1, 1) && owns(board, p, 2, 0)
}

/// The winner holds a line, and without a winner nobody does.
pub proof fn lemma_winner_holds_line(board: [[Option<Player>; 3]; 3])
    ensures
        winner_of(board) matches Some(p) ==> holds_line(board, p),
        winner_of(board) is None ==> !holds_line(board, Player::X) && !holds_line(board, Player::O),
{
    reveal_with_fuel(rows_columns_owner, 4);
    if let Some(p) = winner_of(board) {
        assert forall|i: int| 0 <= i < 3 implies (row_owner(board, i) == Some(p) ==> owns(board, p, i, 0))
            && (column_owner(board, i) == Some(p) ==> owns(board, p, 0, i)) by {}
        assert(owns(board, p, 0, 0) || !owns(board, p, 0, 0));
        assert(owns(board, p, 1, 0) || !owns(board, p, 1, 0));
        assert(owns(board, p, 2, 0) || !owns(board, p, 2, 0));
        assert(owns(board, p, 0, 1) || !owns(board, p, 0, 1));
        assert(owns(board, p, 0, 2) || !owns(board, p, 0, 2));
    }
}

/// The cell that has index `k` in row-major order.
pub open spec fn cell_of(k: int) -> Action {
    Action((k / 3) as usize, (k % 3) as usize)
}

/// The empty cells among the first `k` cells in row-major order.
pub open spec fn empty_cells(board: [[Option<Player>; 3]; 3], k: int) -> Seq<Action>
    decreases k,
{
    if k <= 0 {
        Seq::empty()
    } else if board[(k - 1) / 3][(k - 1) % 3] is None {
        empty_cells(board, k - 1).push(cell_of(k - 1))
    } else {
        empty_cells(board, k - 1)
    }
}

/// Every listed cell is on the board and empty.
pub proof fn lemma_empty_cells_are_empty(board: [[Option<Player>; 3]; 3], k: int, a: Action)
    requires
        0 <= k <= 9,
        empty_cells(board, k).contains(a),
    ensures
        a.0 < 3,
        a.1 < 3,
        3 * a.0 + a.1 < k,
        board[a.0 as int][a.1 as int] is None,
    decreases k,
{
    if k > 0 {
        let prev = empty_cells(board, k - 1);
        if prev.contains(a) {
            lemma_empty_cells_are_empty(board, k - 1, a);
        } else {
            assert(board[(k - 1) / 3][(k - 1) % 3] is None);
            assert(empty_cells(board, k) == prev.push(cell_of(k - 1)));
            let full = prev.push(cell_of(k - 1));
            assert(a == cell_of(k - 1)) by {
                let i = choose|i: int| 0 <= i < full.len() && #[trigger] full[i] == a;
                if i < prev.len() {
                    assert(prev[i] == a);
                }
            }
        }
    }
}

/// Filling one empty cell shortens the list of empty cells by one.
pub proof fn lemma_fill_removes_one(
    board: [[Option<Player>; 3]; 3],
    x: int,
    y: int,
    p: Player,
    k: int,
)
    requires
        0 <= x < 3,
        0 <= y < 3,
        board[x][y] is None,
        0 <= k <= 9,
    ensures
        empty_cells(board_set(board, x, y, Some(p)), k).len() == empty_cells(board, k).len() - (
        if 3 * x + y < k {
            1int
        } else {
            0int
        }),
    decreases k,
{
    if k > 0 {
        lemma_fill_removes_one(board, x, y, p, k - 1);
    }
}

impl TicTacToe {
    /// The empty board with X to move.
    pub fn new() -> (r: TicTacToe)
        ensures
            forall|x: int, y: int| 0 <= x < 3 && 0 <= y < 3 ==> r.board[x][y] is None,
            r.current_player == Player::X,
    {
        TicTacToe {
            board: [[None, None, None], [None, None, None], [None, None, None]],
            current_player: Player::X,
        }
    }

    /// Marks the empty cell `(x, y)` for `player`; returns false, and
    /// changes nothing, if the cell is taken.
    pub fn play(&mut self, player: Player, action: Action) -> (r: bool)
        requires
            action.0 < 3,
            action.1 < 3,
        ensures
            r == (old(self).board[action.0 as int][action.1 as int] is None),
            r ==> final(self).board == board_set(old(self).board, action.0 as int, action.1 as int, Some(player)),
            !r ==> final(self).board == old(self).board,
            final(self).current_player == old(self).current_player,
    {
        let Action(x, y) = action;
        if self.board[x][y].is_some() {
            return false;
        }
        self.board[x][y] = Some(player);
        true
    }

    /// Returns the owner of the line through three cells, if any.
    fn line(&self, a: Action, b: Action, c: Action) -> (r: Option<Player>)
        requires
            a.0 < 3 && a.1 < 3 && b.0 < 3 && b.1 < 3 && c.0 < 3 && c.1 < 3,
        ensures
            r == line_owner(
                self.board,
                (a.0 as int, a.1 as int),
                (b.0 as int, b.1 as int),
                (c.0 as int, c.1 as int),
            ),
    {
        let first = self.board[a.0][a.1];
        if first.is_some() && first == self.board[b.0][b.1] && self.board[b.0][b.1]
            == self.board[c.0][c.1] {
            first
        } else {
            None
        }
    }

    /// Returns the player who holds a whole row, column or diagonal.
    pub fn winner(&self) -> (r: Option<Player>)
        ensures
            r == winner_of(self.board),
            r matches Some(p) ==> holds_line(self.board, p),
            r is None ==> !holds_line(self.board, Player::X) && !holds_line(self.board, Player::O),
    {
        proof {
            lemma_winner_holds_line(self.board);
        }
        let mut winner: Option<Player> = None;
        let mut i: usize = 0;
        while i < 3
            invariant
                i <= 3,
                winner == rows_columns_owner(self.board, i as int),
            decreases 3 - i,
        {
            let row = self.line(Action(i, 0), Action(i, 1), Action(i, 2));
            if row.is_some() {
                winner = row;
            }
            let column = self.line(Action(0, i), Action(1, i), Action(2, i));
            if column.is_some() {
                winner = column;
            }
            i = i + 1;
        }
        let diagonal = self.line(Action(0, 0), Action(1, 1), Action(2, 2));
        if diagonal.is_some() {
            winner = diagonal;
        }
        let anti_diagonal = self.line(Action(0, 2), Action(1, 1), Action(2, 0));
        if anti_diagonal.is_some() {
            winner = anti_diagonal;
        }
        winner
    }

    /// Returns the content of cell `(x, y)`.
    pub fn cell(&self, x: usize, y: usize) -> (r: Option<Player>)
        requires
            x < 3,
            y < 3,
        ensures
            r == self.board[x as int][y as int],
    {
        self.board[x][y]
    }
}

/// The rules of tic-tac-toe.
#[derive(Debug, PartialEq, Eq, Clone, Copy)]
pub struct TicTacToeGame;

impl TicTacToeGame {
    /// Returns the action whose policy index is `index`: the inverse of
    /// `action_index`.
    pub fn action_at_index(&self, index: usize) -> (r: Action)
        requires
            index < 9,
        ensures
            r.0 < 3,
            r.1 < 3,
            self.policy_index(r) == index,
    {
        Action(index % 3, index / 3)
    }
}

impl Game for TicTacToeGame {
    type Action = Action;
    type State = TicTacToe;

    open spec fn is_initial(&self, state: TicTacToe) -> bool {
        &&& forall|x: int, y: int| 0 <= x < 3 && 0 <= y < 3 ==> state.board[x][y] is None
        &&& state.current_player == Player::X
    }

    open spec fn actions(&self, state: TicTacToe) -> Seq<Action> {
        if winner_of(state.board) is Some {
            Seq::empty()
        } else {
            empty_cells(state.board, 9)
        }
    }

    open spec fn next(&self, state: TicTacToe, action: Action) -> TicTacToe {
        TicTacToe {
            board: board_set(
                state.board,
                action.0 as int,
                action.1 as int,
                Some(state.current_player),
            ),
            current_player: state.current_player.opponent(),
        }
    }

    open spec fn status(&self, state: TicTacToe) -> VictoryState {
        if let Some(w) = winner_of(state.board) {
            VictoryState::Won(w)
        } else if empty_cells(state.board, 9).len() == 0 {
            VictoryState::Draw
        } else {
            VictoryState::InProgress
        }
    }

    open spec fn player(&self, state: TicTacToe) -> Player {
        state.current_player
    }

    open spec fn moves_left(&self, state: TicTacToe) -> nat {
        empty_cells(state.board, 9).len()
    }

    open spec fn exploration(&self) -> u64 {
        DEFAULT_EXPLORATION
    }

    open spec fn policy_len(&self) -> nat {
        9
    }

    open spec fn policy_index(&self, action: Action) -> nat {
        if action.0 < 3 && action.1 < 3 {
            (action.0 + 3 * action.1) as nat
        } else {
            9
        }
    }

    proof fn lemma_terminal_iff_no_actions(&self, state: TicTacToe) {
    }

    proof fn lemma_action_shortens_game(&self, state: TicTacToe, action: Action) {
        lemma_empty_cells_are_empty(state.board, 9, action);
        lemma_fill_removes_one(
            state.board,
            action.0 as int,
            action.1 as int,
            state.current_player,
            9,
        );
    }

    proof fn lemma_policy_index_in_range(&self, state: TicTacToe, action: Action) {
        lemma_empty_cells_are_empty(state.board, 9, action);
    }

    fn initial_state(&self) -> (r: TicTacToe) {
        TicTacToe::new()
    }

    fn copy_state(&self, state: &TicTacToe) -> (r: TicTacToe) {
        *state
    }

    fn get_actions(&self, state: &TicTacToe) -> (r: Vec<Action>) {
        let mut result: Vec<Action> = Vec::with_capacity(9);
        if state.winner().is_some() {
            return result;
        }
        let mut k: usize = 0;
        while k < 9
            invariant
                k <= 9,
                result@ == empty_cells(state.board, k as int),
            decreases 9 - k,
        {
            let (x, y) = (k / 3, k % 3);
            if state.board[x][y].is_none() {
                result.push(Action(x, y));
            }
            k = k + 1;
        }
        result
    }

    fn apply_action(&self, state: &mut TicTacToe, action: Action) {
        proof {
            lemma_empty_cells_are_empty(state.board, 9, action);
        }
        let player = self.get_player(state);
        state.play(player, action);
        state.current_player = state.current_player.other();
    }

    fn get_victory_state(&self, state: &TicTacToe) -> (r: VictoryState) {
        if let Some(winner) = state.winner() {
            VictoryState::Won(winner)
        } else if self.get_actions(state).len() == 0 {
            VictoryState::Draw
        } else {
            VictoryState::InProgress
        }
    }

    fn get_player(&self, state: &TicTacToe) -> (r: Player) {
        state.current_player
    }

    fn exploration_factor(&self) -> (r: u64) {
        DEFAULT_EXPLORATION
    }

    fn action_index(&self, action: Action) -> (r: usize) {
        if action.0 < 3 && action.1 < 3 {
            action.0 + 3 * action.1
        } else {
            9
        }
    }
}

} // verus!
