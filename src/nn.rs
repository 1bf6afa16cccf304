//! The guided evaluator: priors and value come from a predictor's output.
//!
//! The predictor itself runs outside the library; it hands over its policy
//! and value in fixed point, and this module builds the node from them.
use vstd::prelude::*;

use crate::fixed::ONE;
use crate::game::{Game, Player};
use crate::mcts::{lemma_fresh_node_wf, Edge, MctsConfigTrait, Node};
use crate::tictactoe::TicTacToe;

verus! {

/// The encoding of one cell: 1 for X, -1 for O, 0 when empty.
pub open spec fn cell_value(cell: Option<Player>) -> int {
    match cell {
        None => 0,
        Some(Player::X) => 1,
        Some(Player::O) => -1,
    }
}

/// Encodes a tic-tac-toe position for a predictor: one number per cell,
/// cell `(x, y)` at index `x + 3 * y`.
pub fn tensorize(state: &TicTacToe) -> (r: Vec<i8>)
    ensures
        r.len() == 9,
        forall|x: int, y: int|
            0 <= x < 3 && 0 <= y < 3 ==> r[x + 3 * y] == cell_value(state.board[x][y]),
{
    let mut data: Vec<i8> = Vec::with_capacity(9);
    let mut k: usize = 0;
    while k < 9
        invariant
            k <= 9,
            data.len() == k,
            forall|j: int| 0 <= j < k ==> #[trigger] data[j] == cell_value(state.board[j % 3][j / 3]),
        decreases 9 - k,
    {
        let value: i8 = match state.board[k % 3][k / 3] {
            None => 0,
            Some(Player::X) => 1,
            Some(Player::O) => -1,
        };
        data.push(value);
        k = k + 1;
    }
    assert forall|x: int, y: int| 0 <= x < 3 && 0 <= y < 3 implies data[x + 3 * y] == cell_value(
        state.board[x][y],
    ) by {
        assert((x + 3 * y) % 3 == x && (x + 3 * y) / 3 == y);
    }
    data
}

/// Returns the fresh node for `state` whose priors are read from `policy`
/// at each action's index, and `value` as the state's value.
pub fn node_from_prediction<G: Game>(game: &G, state: G::State, policy: &Vec<u64>, value: i64) -> (r: (
    Node<G>,
    i64,
))
    requires
        policy.len() == game.policy_len(),
        forall|i: int| 0 <= i < policy.len() ==> #[trigger] policy[i] <= ONE,
        -ONE <= value <= ONE,
    ensures
        r.0.is_fresh(*game, state),
        r.0.wf(*game),
        forall|i: int|
            0 <= i < r.0.children.len() ==> (#[trigger] r.0.children[i]).prior_probability
                == policy[game.policy_index(r.0.children[i].action) as int],
        r.1 == value,
{
    let actions = game.get_actions(&state);
    let mut children: Vec<Edge<G>> = Vec::new();
    let mut i: usize = 0;
    while i < actions.len()
        invariant
            actions@ == game.actions(state),
            policy.len() == game.policy_len(),
            forall|j: int| 0 <= j < policy.len() ==> #[trigger] policy[j] <= ONE,
            i <= actions.len(),
            children.len() == i,
            forall|k: int|
                0 <= k < i ==> {
                    &&& (#[trigger] children[k]).is_fresh(actions@[k])
                    &&& children[k].prior_probability == policy[game.policy_index(
                        actions@[k],
                    ) as int]
                },
        decreases actions.len() - i,
    {
        let action = actions[i];
        proof {
            assert(game.actions(state)[i as int] == action);
            game.lemma_policy_index_in_range(state, action);
        }
        let index = game.action_index(action);
        children.push(Edge::new(action, policy[index]));
        i = i + 1;
    }
    let node = Node { state, visit_count: 0, children };
    proof {
        lemma_fresh_node_wf(node, *game, state);
    }
    (node, value)
}

/// The guided evaluator with a predictor that gives the same output for
/// every state: `policy` as priors (indexed by `Game::action_index`) and
/// `value` as the value.
pub struct GuidedMctsConfig {
    pub policy: Vec<u64>,
    pub value: i64,
}

impl GuidedMctsConfig {
    /// The predictor output fits `game`: one probability per policy index,
    /// each at most 1, and a value in `[-1, 1]`.
    pub open spec fn fits<G: Game>(&self, game: G) -> bool {
        &&& self.policy.len() == game.policy_len()
        &&& forall|i: int| 0 <= i < self.policy.len() ==> #[trigger] self.policy[i] <= ONE
        &&& -ONE <= self.value <= ONE
    }
}

impl<G: Game> MctsConfigTrait<G> for GuidedMctsConfig {
    open spec fn serves(&self, game: G) -> bool {
        self.fits(game)
    }

    open spec fn value_ok(&self, game: G, state: G::State, value: i64) -> bool {
        value == self.value
    }

    fn node_for_new_state(&self, game: &G, state: G::State) -> (r: (Node<G>, i64)) {
        node_from_prediction(game, state, &self.policy, self.value)
    }
}

} // verus!
