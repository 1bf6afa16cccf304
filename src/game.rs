//! The capabilities that every game played by the search must offer.
use vstd::prelude::*;

use crate::fixed::ONE;

verus! {

/// One of the two players of an alternating game.
#[derive(Debug, PartialEq, Eq, Clone, Copy, Structural)]
pub enum Player {
    X,
    O,
}

impl Player {
    /// The opponent of `self`.
    pub open spec fn opponent(self) -> Player {
        match self {
            Player::X => Player::O,
            Player::O => Player::X,
        }
    }

    /// Returns the opponent of `self`.
    pub fn other(self) -> (r: Player)
        ensures
            r == self.opponent(),
    {
        match self {
            Player::X => Player::O,
            Player::O => Player::X,
        }
    }
}

impl core::ops::Not for Player {
    type Output = Player;

    fn not(self) -> (r: Player) {
        self.other()
    }
}

impl vstd::std_specs::ops::NotSpecImpl for Player {
    open spec fn obeys_not_spec() -> bool {
        true
    }

    open spec fn not_req(self) -> bool {
        true
    }

    open spec fn not_spec(self) -> Player {
        self.opponent()
    }
}

/// Where a game stands: still running, drawn, or won by a player.
#[derive(Debug, PartialEq, Eq, Clone, Copy, Structural)]
pub enum VictoryState {
    InProgress,
    Draw,
    Won(Player),
}

impl VictoryState {
    /// Whether the game is over.
    pub open spec fn terminal(self) -> bool {
        !(self is InProgress)
    }

    /// Returns whether the game is over.
    pub fn is_terminal(&self) -> (r: bool)
        ensures
            r == self.terminal(),
    {
        !matches!(self, VictoryState::InProgress)
    }
}

/// A two-player, zero-sum, perfect-information game that is sure to end.
///
/// The spec functions describe the rules; the executable methods compute
/// them. `moves_left` bounds the number of moves still possible, which is
/// what makes every playout finite.
pub trait Game: Sized {
    type Action: Copy;
    type State;

    /// `state` is where a game starts.
    spec fn is_initial(&self, state: Self::State) -> bool;

    /// The legal actions in `state`, in the order `get_actions` lists them.
    spec fn actions(&self, state: Self::State) -> Seq<Self::Action>;

    /// The state reached by playing `action` in `state`.
    spec fn next(&self, state: Self::State, action: Self::Action) -> Self::State;

    /// Whether `state` is running, drawn or won.
    spec fn status(&self, state: Self::State) -> VictoryState;

    /// The player to move in `state`.
    spec fn player(&self, state: Self::State) -> Player;

    /// An upper bound on the number of moves still to come from `state`.
    spec fn moves_left(&self, state: Self::State) -> nat;

    /// The exploration factor of the selection rule, in fixed point.
    spec fn exploration(&self) -> u64;

    /// The length of a predictor's policy output for this game.
    spec fn policy_len(&self) -> nat;

    /// The position of `action` in a predictor's policy output.
    spec fn policy_index(&self, action: Self::Action) -> nat;

    /// A state is over exactly when it has no legal action.
    proof fn lemma_terminal_iff_no_actions(&self, state: Self::State)
        ensures
            self.status(state).terminal() <==> self.actions(state).len() == 0,
    ;

    /// Every legal action brings the end of the game closer.
    proof fn lemma_action_shortens_game(&self, state: Self::State, action: Self::Action)
        requires
            self.actions(state).contains(action),
        ensures
            self.moves_left(self.next(state, action)) < self.moves_left(state),
    ;

    /// Every legal action has a place in the policy output.
    proof fn lemma_policy_index_in_range(&self, state: Self::State, action: Self::Action)
        requires
            self.actions(state).contains(action),
        ensures
            self.policy_index(action) < self.policy_len(),
    ;

    /// Returns the state where a game starts.
    fn initial_state(&self) -> (r: Self::State)
        ensures
            self.is_initial(r),
    ;

    /// Returns a copy of `state`.
    fn copy_state(&self, state: &Self::State) -> (r: Self::State)
        ensures
            r == *state,
    ;

    fn get_actions(&self, state: &Self::State) -> (r: Vec<Self::Action>)
        ensures
            r@ == self.actions(*state),
    ;

    /// Plays `action`, which must be legal, in `state`.
    fn apply_action(&self, state: &mut Self::State, action: Self::Action)
        requires
            self.actions(*old(state)).contains(action),
        ensures
            *final(state) == self.next(*old(state), action),
    ;

    fn get_victory_state(&self, state: &Self::State) -> (r: VictoryState)
        ensures
            r == self.status(*state),
    ;

    fn get_player(&self, state: &Self::State) -> (r: Player)
        ensures
            r == self.player(*state),
    ;

    /// The exploration factor, in fixed point (1.0 unless a game says otherwise).
    fn exploration_factor(&self) -> (r: u64)
        ensures
            r == self.exploration(),
    ;

    /// The position of `action` in a predictor's policy output.
    fn action_index(&self, action: Self::Action) -> (r: usize)
        ensures
            r == self.policy_index(action),
    ;
}

/// The default exploration factor, 1.0.
pub const DEFAULT_EXPLORATION: u64 = ONE;

} // verus!
