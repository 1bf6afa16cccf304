//! The search tree: nodes, edges, the selection rule and one simulation.
use vstd::prelude::*;

use crate::fixed::{isqrt, ratio, ratio_of, sqrt_floor, ONE, ONE_I, SQRT_INPUT_LIMIT};
use crate::game::{Game, Player, VictoryState};

verus! {

/// The most simulations a tree may hold.
pub const MAX_VISITS: u64 = 1_000_000_000_000;

/// The largest prior probability an edge may carry (2.0).
pub const MAX_PRIOR: u64 = 2_000_000;

/// The small constant added to the exploration term (0.0001), so that
/// priors count before any visit.
pub const EXPLORATION_FLOOR: u64 = 100;

/// A state in the search tree with one edge per legal action.
pub struct Node<G: Game> {
    pub state: G::State,
    /// Simulations that passed through this node.
    pub visit_count: u64,
    /// One edge per legal action of `state`, in the order of `get_actions`.
    pub children: Vec<Edge<G>>,
}

/// One action out of a node, with its statistics.
pub struct Edge<G: Game> {
    pub action: G::Action,
    /// The node reached by `action`, created on the first traversal.
    pub node: Option<Node<G>>,
    /// Times this edge was traversed.
    pub visit_count: u64,
    /// Sum of the values backed up through this edge.
    pub total_value: i64,
    /// `total_value / visit_count`, kept up to date after every update.
    pub expected_reward: i64,
    /// The evaluator's prior probability of this action.
    pub prior_probability: u64,
}

/// The sum of the visit counts of `edges`.
pub open spec fn sum_visits<G: Game>(edges: Seq<Edge<G>>) -> int
    decreases edges.len(),
{
    if edges.len() == 0 {
        0
    } else {
        sum_visits(edges.drop_last()) + edges.last().visit_count
    }
}

/// The score of a terminal state for `player`: 1, 0 or -1 in fixed point.
pub open spec fn terminal_score(status: VictoryState, player: Player) -> int {
    match status {
        VictoryState::Won(winner) => if winner == player {
            ONE as int
        } else {
            -(ONE as int)
        },
        _ => 0,
    }
}

impl<G: Game> Edge<G> {
    /// The statistics of the edge agree with each other and stay in range.
    pub open spec fn stats_wf(self) -> bool {
        &&& self.visit_count <= MAX_VISITS
        &&& -(self.visit_count * ONE) <= self.total_value <= self.visit_count * ONE
        &&& self.visit_count > 0 ==> self.expected_reward == ratio(
            self.total_value as int,
            self.visit_count as int,
        )
        &&& self.visit_count == 0 ==> self.total_value == 0 && self.expected_reward == 0
        &&& self.prior_probability <= MAX_PRIOR
    }

    /// An edge that was never traversed.
    pub open spec fn is_fresh(self, action: G::Action) -> bool {
        &&& self.action == action
        &&& self.node is None
        &&& self.visit_count == 0
        &&& self.total_value == 0
        &&& self.expected_reward == 0
        &&& self.prior_probability <= MAX_PRIOR
    }

    /// A new, unexpanded edge for `action`.
    pub fn new(action: G::Action, prior_probability: u64) -> (r: Edge<G>)
        requires
            prior_probability <= MAX_PRIOR,
        ensures
            r.is_fresh(action),
            r.prior_probability == prior_probability,
    {
        Edge {
            action,
            node: None,
            visit_count: 0,
            total_value: 0,
            expected_reward: 0,
            prior_probability,
        }
    }
}

impl<G: Game> Node<G> {
    /// The tree below `self` is well formed for `game`: edges match the
    /// legal actions, the node's visit count is the sum of its edges', every
    /// edge's statistics agree, and each child holds the state its action
    /// leads to.
    pub open spec fn wf(self, game: G) -> bool
        decreases self,
    {
        &&& self.children.len() == game.actions(self.state).len()
        &&& self.visit_count == sum_visits(self.children@)
        &&& self.visit_count <= MAX_VISITS
        &&& forall|i: int|
            0 <= i < self.children.len() ==> {
                let e = #[trigger] self.children[i];
                &&& e.action == game.actions(self.state)[i]
                &&& e.stats_wf()
                &&& (e.node is None <==> e.visit_count == 0)
                &&& e.node matches Some(c) ==> {
                    &&& c.visit_count < e.visit_count
                    &&& c.state == game.next(self.state, e.action)
                    &&& c.wf(game)
                }
            }
    }

    /// A node just made for `state`: unvisited, with one fresh edge per
    /// legal action.
    pub open spec fn is_fresh(self, game: G, state: G::State) -> bool {
        &&& self.state == state
        &&& self.visit_count == 0
        &&& self.children.len() == game.actions(state).len()
        &&& forall|i: int|
            0 <= i < self.children.len() ==> (#[trigger] self.children[i]).is_fresh(
                game.actions(state)[i],
            )
    }
}

/// The selection score of an edge, scaled by `ONE * ONE * ONE`:
/// `expected_reward + c * prior * (sqrt(N) / (1 + n) + 0.0001)`, where `N`
/// is the parent's visit count, `sqrt_n` is `sqrt(N)` in fixed point, and `n`
/// is the edge's visit count.
pub open spec fn puct_score<G: Game>(e: Edge<G>, c: int, sqrt_n: int) -> int {
    e.expected_reward * (ONE * ONE) + c * e.prior_probability * (sqrt_n / (1 + e.visit_count)
        + EXPLORATION_FLOOR)
}

/// `sqrt(visits)` in fixed point, as the selection rule uses it.
pub open spec fn sqrt_visits(visits: int) -> int {
    sqrt_floor((visits * (ONE * ONE)) as nat) as int
}

/// Edge `r` has the highest score of `edges`, and no edge before it
/// scores as high: ties go to the lowest index.
pub open spec fn is_selected<G: Game>(edges: Seq<Edge<G>>, c: int, sqrt_n: int, r: int) -> bool {
    &&& 0 <= r < edges.len()
    &&& forall|k: int|
        0 <= k < edges.len() ==> puct_score(#[trigger] edges[k], c, sqrt_n) <= puct_score(
            edges[r],
            c,
            sqrt_n,
        )
    &&& forall|k: int|
        0 <= k < r ==> puct_score(#[trigger] edges[k], c, sqrt_n) < puct_score(
            edges[r],
            c,
            sqrt_n,
        )
}

/// The index of the edge that the selection rule picks among `edges`.
pub open spec fn selection<G: Game>(edges: Seq<Edge<G>>, c: int, sqrt_n: int) -> int {
    choose|r: int| is_selected(edges, c, sqrt_n, r)
}

/// At most one index is selected.
pub proof fn lemma_selection_unique<G: Game>(
    edges: Seq<Edge<G>>,
    c: int,
    sqrt_n: int,
    r1: int,
    r2: int,
)
    requires
        is_selected(edges, c, sqrt_n, r1),
        is_selected(edges, c, sqrt_n, r2),
    ensures
        r1 == r2,
{
    if r1 < r2 {
        assert(puct_score(edges[r1], c, sqrt_n) < puct_score(edges[r2], c, sqrt_n));
    } else if r2 < r1 {
        assert(puct_score(edges[r2], c, sqrt_n) < puct_score(edges[r1], c, sqrt_n));
    }
}

/// Of two edges with the same expected reward, prior and visit count, the
/// selection rule never picks the later one.
pub proof fn lemma_tie_goes_to_lower_index<G: Game>(
    edges: Seq<Edge<G>>,
    c: int,
    sqrt_n: int,
    i: int,
    j: int,
)
    requires
        0 <= i < j < edges.len(),
        edges[i].expected_reward == edges[j].expected_reward,
        edges[i].prior_probability == edges[j].prior_probability,
        edges[i].visit_count == edges[j].visit_count,
    ensures
        !is_selected(edges, c, sqrt_n, j),
{
    assert(puct_score(edges[i], c, sqrt_n) == puct_score(edges[j], c, sqrt_n));
}

/// Computes the selection score of `e`, as `puct_score` states it.
fn edge_score<G: Game>(e: &Edge<G>, c: u64, sqrt_n: u128) -> (r: i128)
    requires
        e.prior_probability <= MAX_PRIOR,
        sqrt_n <= 0x200_0000_0000,
    ensures
        r == puct_score(*e, c as int, sqrt_n as int),
{
    let explore: u128 = sqrt_n / (1 + e.visit_count as u128) + EXPLORATION_FLOOR as u128;
    assert(c * e.prior_probability <= u64::MAX * MAX_PRIOR) by (nonlinear_arith)
        requires
            c <= u64::MAX,
            e.prior_probability <= MAX_PRIOR,
    ;
    let weight: u128 = c as u128 * e.prior_probability as u128;
    assert(weight * explore <= (u64::MAX * MAX_PRIOR) * (0x200_0000_0000 + EXPLORATION_FLOOR))
        by (nonlinear_arith)
        requires
            weight <= u64::MAX * MAX_PRIOR,
            explore <= 0x200_0000_0000 + EXPLORATION_FLOOR,
    ;
    let bonus: u128 = weight * explore;
    let base: i128 = e.expected_reward as i128 * (ONE as i128 * ONE as i128);
    assert(-0x8000_0000_0000_0000 * (ONE * ONE) <= base <= 0x7fff_ffff_ffff_ffff * (ONE * ONE))
        by (nonlinear_arith)
        requires
            base == e.expected_reward * (ONE * ONE),
            -0x8000_0000_0000_0000 <= e.expected_reward <= 0x7fff_ffff_ffff_ffff,
    ;
    base + bonus as i128
}

impl<G: Game> Node<G> {
    /// Chooses the edge that maximises `expected_reward + c * prior *
    /// (sqrt(visit_count) / (1 + edge visits) + 0.0001)`; ties go to the
    /// lowest index.
    pub fn choose_edge_index(&self, c: u64) -> (r: usize)
        requires
            self.children.len() > 0,
            self.visit_count <= MAX_VISITS,
            forall|i: int|
                0 <= i < self.children.len() ==> (#[trigger] self.children[i]).prior_probability
                    <= MAX_PRIOR,
        ensures
            is_selected(self.children@, c as int, sqrt_visits(self.visit_count as int), r as int),
            r == selection(self.children@, c as int, sqrt_visits(self.visit_count as int)),
    {
        assert(self.visit_count * (ONE * ONE) < SQRT_INPUT_LIMIT) by (nonlinear_arith)
            requires
                self.visit_count <= MAX_VISITS,
        ;
        let sqrt_n = isqrt(self.visit_count as u128 * (ONE as u128 * ONE as u128));
        let ghost s = sqrt_n as int;
        let ghost edges = self.children@;
        let mut best: usize = 0;
        let mut best_score: i128 = edge_score(&self.children[0], c, sqrt_n);
        let mut i: usize = 1;
        while i < self.children.len()
            invariant
                1 <= i <= self.children.len(),
                edges == self.children@,
                s == sqrt_n,
                s == sqrt_visits(self.visit_count as int),
                sqrt_n <= 0x200_0000_0000,
                forall|k: int| 0 <= k < edges.len() ==> (#[trigger] edges[k]).prior_probability <= MAX_PRIOR,
                best < i,
                best_score == puct_score(edges[best as int], c as int, s),
                forall|k: int| 0 <= k < i ==> puct_score(#[trigger] edges[k], c as int, s) <= best_score,
                forall|k: int| 0 <= k < best ==> puct_score(#[trigger] edges[k], c as int, s) < best_score,
            decreases self.children.len() - i,
        {
            let score = edge_score(&self.children[i], c, sqrt_n);
            if score > best_score {
                best = i;
                best_score = score;
            }
            i = i + 1;
        }
        proof {
            assert(is_selected(edges, c as int, s, best as int));
            lemma_selection_unique(edges, c as int, s, best as int, selection(edges, c as int, s));
        }
        best
    }
}

/// The effect of one simulation on a node that has edges: edge `i` was
/// traversed, `value` (from the view of the player to move at `self`) was
/// added to it, and the child below it took the simulation in turn, with
/// the sign flipped. A child created by this simulation was made by
/// `config`, and `value` is the negation of the value `config` gave it.
pub open spec fn simulated<G: Game, C: MctsConfigTrait<G>>(
    before: Node<G>,
    after: Node<G>,
    game: G,
    config: C,
    i: int,
    value: int,
) -> bool
    decreases before,
{
    let e0 = before.children[i];
    let e1 = after.children[i];
    &&& 0 <= i < before.children.len()
    &&& after.state == before.state
    &&& after.visit_count == before.visit_count + 1
    &&& after.children.len() == before.children.len()
    &&& forall|j: int|
        0 <= j < before.children.len() && j != i ==> #[trigger] after.children[j]
            == before.children[j]
    &&& e1.action == e0.action
    &&& e1.prior_probability == e0.prior_probability
    &&& e1.visit_count == e0.visit_count + 1
    &&& e1.total_value == e0.total_value + value
    &&& e1.expected_reward == ratio(e1.total_value as int, e1.visit_count as int)
    &&& e1.node is Some
    &&& e0.node is None ==> {
        &&& e1.node->Some_0.is_fresh(game, game.next(before.state, e0.action))
        &&& config.value_ok(game, game.next(before.state, e0.action), (-value) as i64)
    }
    &&& e0.node matches Some(c0) ==> {
        let c1 = e1.node->Some_0;
        &&& c0.children.len() == 0 ==> c1 == c0 && value == -terminal_score(
            game.status(c0.state),
            game.player(c0.state),
        )
        &&& c0.children.len() > 0 ==> simulated(
            c0,
            c1,
            game,
            config,
            selection(c0.children@, game.exploration() as int, sqrt_visits(c0.visit_count as int)),
            -value,
        )
    }
}

/// Setting one edge of a sequence changes the sum of visit counts by the
/// difference.
pub proof fn lemma_sum_visits_update<G: Game>(edges: Seq<Edge<G>>, i: int, e: Edge<G>)
    requires
        0 <= i < edges.len(),
    ensures
        sum_visits(edges.update(i, e)) == sum_visits(edges) - edges[i].visit_count + e.visit_count,
    decreases edges.len(),
{
    let u = edges.update(i, e);
    if i == edges.len() - 1 {
        assert(u.drop_last() =~= edges.drop_last());
    } else {
        lemma_sum_visits_update(edges.drop_last(), i, e);
        assert(u.drop_last() =~= edges.drop_last().update(i, e));
    }
}

/// Every visit count of a sequence is at most their sum.
pub proof fn lemma_sum_visits_bounds<G: Game>(edges: Seq<Edge<G>>, i: int)
    requires
        0 <= i < edges.len(),
    ensures
        edges[i].visit_count <= sum_visits(edges),
    decreases edges.len(),
{
    lemma_sum_visits_nonneg(edges.drop_last());
    if i < edges.len() - 1 {
        lemma_sum_visits_bounds(edges.drop_last(), i);
    }
}

/// A sum of visit counts is never negative.
pub proof fn lemma_sum_visits_nonneg<G: Game>(edges: Seq<Edge<G>>)
    ensures
        sum_visits(edges) >= 0,
    decreases edges.len(),
{
    if edges.len() > 0 {
        lemma_sum_visits_nonneg(edges.drop_last());
    }
}

/// Edges that were never visited sum to zero visits.
pub proof fn lemma_sum_visits_zero<G: Game>(edges: Seq<Edge<G>>)
    requires
        forall|i: int| 0 <= i < edges.len() ==> (#[trigger] edges[i]).visit_count == 0,
    ensures
        sum_visits(edges) == 0,
    decreases edges.len(),
{
    if edges.len() > 0 {
        lemma_sum_visits_zero(edges.drop_last());
    }
}

/// A freshly created node is well formed.
pub proof fn lemma_fresh_node_wf<G: Game>(node: Node<G>, game: G, state: G::State)
    requires
        node.is_fresh(game, state),
    ensures
        node.wf(game),
{
    lemma_sum_visits_zero(node.children@);
    assert forall|i: int| 0 <= i < node.children.len() implies {
        let e = #[trigger] node.children[i];
        &&& e.action == game.actions(node.state)[i]
        &&& e.stats_wf()
        &&& (e.node is None <==> e.visit_count == 0)
    } by {
        assert(node.children[i].is_fresh(game.actions(state)[i]));
    }
}

/// In a well-formed tree, such as one built by an evaluator and grown by
/// any number of `walk_to_leaf` calls, every node's visit count is the sum
/// of its edges' visit counts, and so is every expanded child's.
pub proof fn lemma_visit_count_is_sum<G: Game>(node: Node<G>, game: G)
    requires
        node.wf(game),
    ensures
        node.visit_count == sum_visits(node.children@),
        forall|i: int|
            0 <= i < node.children.len() ==> ((#[trigger] node.children[i]).node matches Some(c)
                ==> c.visit_count == sum_visits(c.children@)),
{
    assert forall|i: int| 0 <= i < node.children.len() implies ((#[trigger] node.children[i]).node matches Some(c)
        ==> c.visit_count == sum_visits(c.children@)) by {
        if let Some(c) = node.children[i].node {
            assert(c.wf(game));
        }
    }
}

/// In a well-formed tree, every visited edge's expected reward is its total
/// value divided by its visit count.
pub proof fn lemma_expected_reward_is_ratio<G: Game>(node: Node<G>, game: G, i: int)
    requires
        node.wf(game),
        0 <= i < node.children.len(),
        node.children[i].visit_count > 0,
    ensures
        node.children[i].expected_reward == ratio(
            node.children[i].total_value as int,
            node.children[i].visit_count as int,
        ),
{
}

/// One simulation through an edge whose child is a finished game returns
/// to the parent the negation of the score at that leaf, one through a
/// deeper child returns the negation of what the child backed up, and one
/// that creates the child returns the negation of the evaluator's value.
pub proof fn lemma_sign_alternation<G: Game, C: MctsConfigTrait<G>>(
    before: Node<G>,
    after: Node<G>,
    game: G,
    config: C,
    i: int,
    value: int,
)
    requires
        simulated(before, after, game, config, i, value),
    ensures
        before.children[i].node is None ==> config.value_ok(
            game,
            game.next(before.state, before.children[i].action),
            (-value) as i64,
        ),
        before.children[i].node is Some ==> ({
            let c0 = before.children[i].node->Some_0;
            let c1 = after.children[i].node->Some_0;
            &&& c0.children.len() == 0 ==> value == -terminal_score(
                game.status(c0.state),
                game.player(c0.state),
            )
            &&& c0.children.len() > 0 ==> {
                let k = selection(
                    c0.children@,
                    game.exploration() as int,
                    sqrt_visits(c0.visit_count as int),
                );
                value == -(c1.children[k].total_value - c0.children[k].total_value)
            }
        }),
{
    let c0 = before.children[i].node->Some_0;
    if before.children[i].node is Some && c0.children.len() > 0 {
        let k = selection(
            c0.children@,
            game.exploration() as int,
            sqrt_visits(c0.visit_count as int),
        );
        let c1 = after.children[i].node->Some_0;
        assert(simulated(c0, c1, game, config, k, -value));
    }
}

/// Scores the finished game `status` for `player`: 1 for a win, -1 for a
/// loss and 0 for a draw, in fixed point.
pub fn score_terminal_victory_state(status: VictoryState, player: Player) -> (r: i64)
    requires
        status.terminal(),
    ensures
        r == terminal_score(status, player),
{
    match status {
        VictoryState::Won(winner) => if winner == player {
            ONE_I
        } else {
            -ONE_I
        },
        _ => 0,
    }
}

/// Relies on rand::random: a number drawn from the thread-local generator.
/// Nothing is known of its value.
#[verifier::external_body]
fn random_u64() -> u64 {
    rand::random::<u64>()
}

/// `actions`, played one after another from `from`, are all legal and end
/// in `to`.
pub open spec fn is_line<G: Game>(game: G, from: G::State, actions: Seq<G::Action>, to: G::State) -> bool
    decreases actions.len(),
{
    if actions.len() == 0 {
        to == from
    } else {
        &&& game.actions(from).contains(actions[0])
        &&& is_line(game, game.next(from, actions[0]), actions.drop_first(), to)
    }
}

/// A line followed by one more legal action is a line.
pub proof fn lemma_line_extend<G: Game>(
    game: G,
    from: G::State,
    actions: Seq<G::Action>,
    to: G::State,
    action: G::Action,
)
    requires
        is_line(game, from, actions, to),
        game.actions(to).contains(action),
    ensures
        is_line(game, from, actions.push(action), game.next(to, action)),
    decreases actions.len(),
{
    if actions.len() > 0 {
        lemma_line_extend(game, game.next(from, actions[0]), actions.drop_first(), to, action);
        assert(actions.push(action).drop_first() =~= actions.drop_first().push(action));
        assert(actions.push(action)[0] == actions[0]);
    } else {
        assert(actions.push(action).drop_first() =~= Seq::<G::Action>::empty());
        assert(actions.push(action)[0] == action);
        assert(is_line(game, game.next(from, action), Seq::<G::Action>::empty(), game.next(to, action)));
    }
}

/// Plays uniformly random legal actions in `state` until the game is over.
pub fn random_rollout<G: Game>(game: &G, state: &mut G::State)
    ensures
        game.status(*final(state)).terminal(),
        exists|line: Seq<G::Action>| is_line(*game, *old(state), line, *final(state)),
{
    let ghost start = *state;
    let ghost mut line: Seq<G::Action> = Seq::empty();
    while !game.get_victory_state(state).is_terminal()
        invariant
            is_line(*game, start, line, *state),
        decreases game.moves_left(*state),
    {
        let actions = game.get_actions(state);
        proof {
            game.lemma_terminal_iff_no_actions(*state);
        }
        let k = (random_u64() % actions.len() as u64) as usize;
        let action = actions[k];
        proof {
            assert(game.actions(*state)[k as int] == action);
            game.lemma_action_shortens_game(*state, action);
            lemma_line_extend(*game, start, line, *state, action);
            line = line.push(action);
        }
        game.apply_action(state, action);
    }
}

/// Some finished game reachable from `state` is worth `value` for `player`.
pub open spec fn playout_value<G: Game>(game: G, state: G::State, player: Player, value: int) -> bool {
    exists|end: G::State, line: Seq<G::Action>|
        {
            &&& is_line(game, state, line, end)
            &&& game.status(end).terminal()
            &&& value == terminal_score(game.status(end), player)
        }
}

/// A playout from a finished game ends where it starts, so its value is
/// that game's own score.
pub proof fn lemma_playout_of_finished_game<G: Game>(
    game: G,
    state: G::State,
    player: Player,
    value: int,
)
    requires
        game.status(state).terminal(),
        playout_value(game, state, player, value),
    ensures
        value == terminal_score(game.status(state), player),
{
    let (end, line) = choose|end: G::State, line: Seq<G::Action>|
        {
            &&& is_line(game, state, line, end)
            &&& game.status(end).terminal()
            &&& value == terminal_score(game.status(end), player)
        };
    game.lemma_terminal_iff_no_actions(state);
    if line.len() > 0 {
        assert(game.actions(state).contains(line[0]));
    }
}

/// A simulation with the rollout evaluator that creates the child reached
/// by a winning move returns a win to the parent: the new leaf scores -1
/// for the loser to move there, negated once.
pub proof fn lemma_winning_move_returns_win<G: Game>(
    before: Node<G>,
    after: Node<G>,
    game: G,
    i: int,
    value: int,
)
    requires
        simulated(before, after, game, RolloutMctsConfig, i, value),
        -ONE <= value <= ONE,
        before.children[i].node is None,
        game.status(game.next(before.state, before.children[i].action)) == VictoryState::Won(
            game.player(before.state),
        ),
        game.player(game.next(before.state, before.children[i].action)) == game.player(
            before.state,
        ).opponent(),
    ensures
        value == ONE,
        after.children[i].total_value == before.children[i].total_value + ONE,
{
    let s1 = game.next(before.state, before.children[i].action);
    lemma_playout_of_finished_game(game, s1, game.player(s1), -value);
}

impl<G: Game> Node<G> {
    /// Plays the game out at random from this node's state and scores the
    /// end for the player who moved into this state.
    pub fn random_rollout(&self, game: &G) -> (r: i64)
        ensures
            playout_value(*game, self.state, game.player(self.state).opponent(), r as int),
    {
        let player = game.get_player(&self.state).other();
        let mut state = game.copy_state(&self.state);
        random_rollout(game, &mut state);
        let status = game.get_victory_state(&state);
        score_terminal_victory_state(status, player)
    }

    /// The statistics of every edge, in order: action, visit count,
    /// expected reward and prior probability.
    pub fn statistics(&self) -> (r: Vec<(G::Action, u64, i64, u64)>)
        ensures
            r.len() == self.children.len(),
            forall|i: int|
                0 <= i < r.len() ==> #[trigger] r[i] == (
                    self.children[i].action,
                    self.children[i].visit_count,
                    self.children[i].expected_reward,
                    self.children[i].prior_probability,
                ),
    {
        let mut r: Vec<(G::Action, u64, i64, u64)> = Vec::new();
        let mut i: usize = 0;
        while i < self.children.len()
            invariant
                i <= self.children.len(),
                r.len() == i,
                forall|k: int|
                    0 <= k < i ==> #[trigger] r[k] == (
                        self.children[k].action,
                        self.children[k].visit_count,
                        self.children[k].expected_reward,
                        self.children[k].prior_probability,
                    ),
            decreases self.children.len() - i,
        {
            let e = &self.children[i];
            r.push((e.action, e.visit_count, e.expected_reward, e.prior_probability));
            i = i + 1;
        }
        r
    }
}

/// An evaluator: builds the node for a state met for the first time, with
/// a prior for every legal action, and estimates the state's value for the
/// player to move there.
pub trait MctsConfigTrait<G: Game> {
    /// The evaluator can serve `game`.
    spec fn serves(&self, game: G) -> bool;

    /// `value` is a value this evaluator may give for `state`.
    spec fn value_ok(&self, game: G, state: G::State, value: i64) -> bool;

    /// Returns a fresh node for `state` and a value in `[-ONE, ONE]`.
    fn node_for_new_state(&self, game: &G, state: G::State) -> (r: (Node<G>, i64))
        requires
            self.serves(*game),
        ensures
            r.0.is_fresh(*game, state),
            r.0.wf(*game),
            -ONE <= r.1 <= ONE,
            self.value_ok(*game, state, r.1),
    ;
}

/// The random jitter added to uniform priors (0.001), which breaks ties
/// between untried actions.
pub const PRIOR_JITTER: u64 = 1_000;

/// The evaluator by random playouts: uniform priors, slightly jittered,
/// and the value of one random game played to the end.
#[derive(Debug, Clone, Copy)]
pub struct RolloutMctsConfig;

impl Default for RolloutMctsConfig {
    fn default() -> (r: RolloutMctsConfig)
        ensures
            r == RolloutMctsConfig,
    {
        RolloutMctsConfig
    }
}

impl RolloutMctsConfig {
    /// Returns a fresh node for `state`, whose priors are `1 / n` plus a
    /// jitter below 0.001 for `n` legal actions, and the score of a random
    /// playout for the player to move in `state`.
    pub fn rollout_node<G: Game>(&self, game: &G, state: G::State) -> (r: (Node<G>, i64))
        ensures
            r.0.is_fresh(*game, state),
            r.0.wf(*game),
            forall|i: int|
                0 <= i < r.0.children.len() ==> {
                    let p = (#[trigger] r.0.children[i]).prior_probability;
                    (ONE as int) / (r.0.children.len() as int) <= p < (ONE as int) / (r.0.children.len() as int)
                        + PRIOR_JITTER
                },
            playout_value(*game, state, game.player(state), r.1 as int),
    {
        let actions = game.get_actions(&state);
        let n = actions.len();
        let prior: u64 = if n == 0 {
            0
        } else {
            ONE / n as u64
        };
        let mut children: Vec<Edge<G>> = Vec::new();
        let mut i: usize = 0;
        while i < n
            invariant
                n == actions.len(),
                actions@ == game.actions(state),
                n > 0 ==> prior == (ONE as int) / (n as int),
                i <= n,
                children.len() == i,
                forall|k: int|
                    0 <= k < i ==> {
                        &&& (#[trigger] children[k]).is_fresh(actions@[k])
                        &&& prior <= children[k].prior_probability < prior + PRIOR_JITTER
                    },
            decreases n - i,
        {
            let jitter = random_u64() % PRIOR_JITTER;
            children.push(Edge::new(actions[i], prior + jitter));
            i = i + 1;
        }
        let node = Node { state, visit_count: 0, children };
        proof {
            lemma_fresh_node_wf(node, *game, state);
        }
        let mut end = game.copy_state(&node.state);
        random_rollout(game, &mut end);
        let player = game.get_player(&node.state);
        let status = game.get_victory_state(&end);
        let value = score_terminal_victory_state(status, player);
        (node, value)
    }
}

impl<G: Game> MctsConfigTrait<G> for RolloutMctsConfig {
    open spec fn serves(&self, game: G) -> bool {
        true
    }

    open spec fn value_ok(&self, game: G, state: G::State, value: i64) -> bool {
        playout_value(game, state, game.player(state), value as int)
    }

    fn node_for_new_state(&self, game: &G, state: G::State) -> (r: (Node<G>, i64)) {
        self.rollout_node(game, state)
    }
}

impl<G: Game> Node<G> {
    /// Runs one simulation from this node: selects an edge, descends into
    /// its child or creates the child through `config`, and backs the value
    /// up. Returns the value for the player to move at this node.
    pub fn walk_to_leaf<C: MctsConfigTrait<G>>(&mut self, game: &G, config: &C) -> (value: i64)
        requires
            old(self).wf(*game),
            old(self).visit_count < MAX_VISITS,
            config.serves(*game),
        ensures
            final(self).wf(*game),
            -ONE <= value <= ONE,
            old(self).children.len() == 0 ==> *final(self) == *old(self) && value == terminal_score(
                game.status(old(self).state),
                game.player(old(self).state),
            ),
            old(self).children.len() > 0 ==> simulated(
                *old(self),
                *final(self),
                *game,
                *config,
                selection(
                    old(self).children@,
                    game.exploration() as int,
                    sqrt_visits(old(self).visit_count as int),
                ),
                value as int,
            ),
        decreases *old(self),
    {
        if self.children.len() == 0 {
            proof {
                game.lemma_terminal_iff_no_actions(self.state);
            }
            let status = game.get_victory_state(&self.state);
            let player = game.get_player(&self.state);
            return score_terminal_victory_state(status, player);
        }
        let ghost before = *self;
        let c = game.exploration_factor();
        let idx = self.choose_edge_index(c);
        let ghost e0 = before.children[idx as int];
        proof {
            lemma_sum_visits_bounds(before.children@, idx as int);
        }
        let value: i64;
        if self.children[idx].node.is_some() {
            let edge = &mut self.children[idx];
            let mut child = edge.node.take().unwrap();
            let v = child.walk_to_leaf(game, config);
            edge.node = Some(child);
            value = -v;
        } else {
            let mut new_state = game.copy_state(&self.state);
            let action = self.children[idx].action;
            proof {
                assert(game.actions(self.state)[idx as int] == action);
            }
            game.apply_action(&mut new_state, action);
            let (new_node, v) = config.node_for_new_state(game, new_state);
            self.children[idx].node = Some(new_node);
            value = -v;
        }
        let edge = &mut self.children[idx];
        edge.total_value = edge.total_value + value;
        edge.visit_count = edge.visit_count + 1;
        edge.expected_reward = ratio_of(edge.total_value, edge.visit_count);
        self.visit_count = self.visit_count + 1;
        proof {
            lemma_sum_visits_update(before.children@, idx as int, self.children[idx as int]);
            assert(self.children@ =~= before.children@.update(idx as int, self.children[idx as int]));
        }
        value
    }
}

} // verus!
