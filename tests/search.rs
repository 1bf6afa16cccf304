use mcts::fixed::{ONE, ONE_I};
use mcts::game::{Game, Player, VictoryState};
use mcts::mcts::{
    random_rollout, score_terminal_victory_state, Edge, MctsConfigTrait, Node, RolloutMctsConfig,
    PRIOR_JITTER,
};
use mcts::nn::{node_from_prediction, GuidedMctsConfig};
use mcts::tictactoe::{Action, TicTacToe, TicTacToeGame};

fn board_from(rows: [&str; 3], to_move: Player) -> TicTacToe {
    let mut state = TicTacToe::new();
    for (x, row) in rows.iter().enumerate() {
        for (y, c) in row.chars().enumerate() {
            match c {
                'X' => assert!(state.play(Player::X, Action(x, y))),
                'O' => assert!(state.play(Player::O, Action(x, y))),
                _ => {}
            }
        }
    }
    state.current_player = to_move;
    state
}

fn rollout_root(state: TicTacToe) -> Node<TicTacToeGame> {
    RolloutMctsConfig::default().node_for_new_state(&TicTacToeGame, state).0
}

fn check_statistics(node: &Node<TicTacToeGame>) {
    let sum: u64 = node.children.iter().map(|e| e.visit_count).sum();
    assert_eq!(node.visit_count, sum);
    for edge in node.children.iter() {
        if edge.visit_count > 0 {
            let ratio = edge.total_value as f64 / edge.visit_count as f64;
            assert!((edge.expected_reward as f64 - ratio).abs() < 1.0);
            assert!(edge.total_value.abs() <= edge.visit_count as i64 * ONE_I);
        } else {
            assert!(edge.node.is_none());
        }
        if let Some(child) = &edge.node {
            check_statistics(child);
        }
    }
}

#[test]
fn visit_counts_add_up_after_many_simulations() {
    let game = TicTacToeGame;
    let config = RolloutMctsConfig::default();
    let mut root = rollout_root(TicTacToe::new());
    for n in 1..=500u64 {
        root.walk_to_leaf(&game, &config);
        assert_eq!(root.visit_count, n);
        if n % 100 == 0 {
            check_statistics(&root);
        }
    }
}

#[test]
fn expected_reward_is_exact_ratio() {
    let game = TicTacToeGame;
    let config = RolloutMctsConfig::default();
    let mut root = rollout_root(TicTacToe::new());
    for _ in 0..300 {
        root.walk_to_leaf(&game, &config);
        for edge in root.children.iter().filter(|e| e.visit_count > 0) {
            let t = edge.total_value;
            let n = edge.visit_count as i64;
            assert_eq!(edge.expected_reward, t / n);
        }
    }
}

#[test]
fn evaluator_values_stay_in_range() {
    let game = TicTacToeGame;
    let config = RolloutMctsConfig::default();
    for _ in 0..200 {
        let (_, value) = config.node_for_new_state(&game, TicTacToe::new());
        assert!(value == ONE_I || value == 0 || value == -ONE_I);
    }
    let guided = GuidedMctsConfig { policy: vec![ONE / 9; 9], value: -ONE_I / 2 };
    let (node, value) = guided.node_for_new_state(&game, TicTacToe::new());
    assert_eq!(value, -ONE_I / 2);
    assert_eq!(node.children.len(), 9);
}

#[test]
fn walk_on_terminal_node_changes_nothing() {
    let game = TicTacToeGame;
    let config = RolloutMctsConfig::default();
    // X has won; O is to move and has lost.
    let mut node = rollout_root(board_from(["XXX", "OO.", "..."], Player::O));
    assert!(node.children.is_empty());
    for _ in 0..3 {
        assert_eq!(node.walk_to_leaf(&game, &config), -ONE_I);
        assert_eq!(node.visit_count, 0);
        assert!(node.children.is_empty());
    }
    let mut draw = rollout_root(board_from(["XOX", "XOO", "OXX"], Player::O));
    assert_eq!(draw.walk_to_leaf(&game, &config), 0);
    assert_eq!(draw.visit_count, 0);
}

#[test]
fn value_changes_sign_between_plies() {
    let game = TicTacToeGame;
    let config = RolloutMctsConfig::default();
    // X to move; the only cell left completes X's top row.
    let mut root = rollout_root(board_from(["XX.", "OOX", "XOO"], Player::X));
    assert_eq!(root.children.len(), 1);
    // First simulation: the child is created and is a win for X, which is a
    // loss for O, who is to move there.
    assert_eq!(root.walk_to_leaf(&game, &config), ONE_I);
    let leaf = root.children[0].node.as_ref().unwrap();
    assert!(leaf.children.is_empty());
    let leaf_score =
        score_terminal_victory_state(game.get_victory_state(&leaf.state), game.get_player(&leaf.state));
    assert_eq!(leaf_score, -ONE_I);
    // Second simulation: it reaches the finished leaf itself.
    assert_eq!(root.walk_to_leaf(&game, &config), -leaf_score);
    assert_eq!(root.children[0].visit_count, 2);
    assert_eq!(root.children[0].total_value, 2 * ONE_I);
    assert_eq!(root.children[0].expected_reward, ONE_I);
}

#[test]
fn winning_last_move_returns_one_twice() {
    let game = TicTacToeGame;
    let config = RolloutMctsConfig::default();
    let mut state = TicTacToe::new();
    for (x, y) in [(0, 0), (0, 1), (0, 2), (1, 0), (1, 1), (2, 0), (2, 1), (1, 2)] {
        game.apply_action(&mut state, Action(x, y));
    }
    assert_eq!(game.get_player(&state), Player::X);
    let mut root = config.node_for_new_state(&game, state).0;
    assert_eq!(root.children.len(), 1);
    assert_eq!(root.children[0].action, Action(2, 2));
    assert_eq!(root.walk_to_leaf(&game, &config), ONE_I);
    assert_eq!(root.children[0].expected_reward, ONE_I);
    assert_eq!(root.walk_to_leaf(&game, &config), ONE_I);
    assert_eq!(root.children[0].expected_reward, ONE_I);
    assert_eq!(root.visit_count, 2);
}

#[test]
fn two_ply_line_returns_negated_leaf_value() {
    let game = TicTacToeGame;
    let config = RolloutMctsConfig::default();
    // O to move with two cells left; whatever O does, X then completes a line.
    let mut root = rollout_root(board_from(["XX.", "OOX", "XX."], Player::O));
    assert_eq!(root.children.len(), 2);
    for _ in 0..50 {
        root.walk_to_leaf(&game, &config);
    }
    for edge in root.children.iter() {
        let child = edge.node.as_ref().unwrap();
        for grandchild_edge in child.children.iter() {
            let leaf = grandchild_edge.node.as_ref().unwrap();
            assert!(leaf.children.is_empty());
            // X completed a line: O, to move at the leaf, scores -1 there;
            // X one ply up scores +1; O at the root scores -1.
            assert_eq!(grandchild_edge.expected_reward, ONE_I);
        }
        if edge.visit_count > 1 {
            assert_eq!(edge.expected_reward, -ONE_I);
        }
    }
}

#[test]
fn equal_edges_select_the_lower_index() {
    let state = TicTacToe::new();
    let node: Node<TicTacToeGame> = Node {
        state,
        visit_count: 0,
        children: vec![
            Edge::new(Action(0, 0), 300_000),
            Edge::new(Action(0, 1), 300_000),
            Edge::new(Action(0, 2), 300_000),
        ],
    };
    for _ in 0..10 {
        assert_eq!(node.choose_edge_index(ONE), 0);
    }
    let mut node = node;
    node.children[2].prior_probability = 300_001;
    assert_eq!(node.choose_edge_index(ONE), 2);
}

#[test]
fn selection_weighs_reward_against_exploration() {
    let mut a = Edge::new(Action(0, 0), 500_000);
    a.visit_count = 3;
    a.total_value = 3 * ONE_I;
    a.expected_reward = ONE_I;
    let mut b = Edge::new(Action(0, 1), 500_000);
    b.visit_count = 1;
    b.total_value = -ONE_I;
    b.expected_reward = -ONE_I;
    let node: Node<TicTacToeGame> =
        Node { state: TicTacToe::new(), visit_count: 4, children: vec![b, a] };
    // 1 + 0.5 * (2 / 4 + 0.0001) beats -1 + 0.5 * (2 / 2 + 0.0001).
    assert_eq!(node.choose_edge_index(ONE), 1);
    // With a huge exploration factor the less visited edge wins.
    assert_eq!(node.choose_edge_index(100 * ONE), 0);
    // Any exploration factor a game chooses is accepted.
    assert_eq!(node.choose_edge_index(u64::MAX), 0);
    assert_eq!(node.choose_edge_index(0), 1);
}

#[test]
fn rollout_priors_are_uniform_with_small_jitter() {
    let node = rollout_root(TicTacToe::new());
    assert_eq!(node.children.len(), 9);
    assert_eq!(node.visit_count, 0);
    for edge in node.children.iter() {
        assert!(edge.prior_probability >= ONE / 9);
        assert!(edge.prior_probability < ONE / 9 + PRIOR_JITTER);
        assert_eq!(edge.visit_count, 0);
        assert!(edge.node.is_none());
    }
    let actions: Vec<Action> = node.children.iter().map(|e| e.action).collect();
    assert_eq!(actions, TicTacToeGame.get_actions(&TicTacToe::new()));
}

#[test]
fn guided_priors_are_read_at_action_index() {
    let game = TicTacToeGame;
    let policy: Vec<u64> = (0..9).map(|i| 10_000 * (i + 1)).collect();
    let state = board_from(["X..", ".O.", "..."], Player::X);
    let (node, value) = node_from_prediction(&game, state, &policy, 250_000);
    assert_eq!(value, 250_000);
    assert_eq!(node.children.len(), 7);
    for edge in node.children.iter() {
        let Action(x, y) = edge.action;
        assert_eq!(edge.prior_probability, policy[x + 3 * y]);
    }
    // Cell (0, 1) sits at index 3 of the policy.
    assert_eq!(node.children[0].action, Action(0, 1));
    assert_eq!(node.children[0].prior_probability, 40_000);
}

#[test]
fn terminal_scores_for_each_outcome() {
    assert_eq!(score_terminal_victory_state(VictoryState::Won(Player::X), Player::X), ONE_I);
    assert_eq!(score_terminal_victory_state(VictoryState::Won(Player::X), Player::O), -ONE_I);
    assert_eq!(score_terminal_victory_state(VictoryState::Draw, Player::O), 0);
}

#[test]
fn random_rollout_plays_to_the_end() {
    let game = TicTacToeGame;
    for _ in 0..100 {
        let mut state = TicTacToe::new();
        random_rollout(&game, &mut state);
        assert!(game.get_victory_state(&state).is_terminal());
    }
}

#[test]
fn node_rollout_scores_for_the_player_who_moved() {
    let game = TicTacToeGame;
    // X to move can only complete the top row: X wins every playout.
    let node = rollout_root(board_from(["XX.", "OOX", "XOO"], Player::X));
    // The player who moved into this state is O, who then loses.
    assert_eq!(node.random_rollout(&game), -ONE_I);
}

#[test]
fn statistics_list_every_edge_in_order() {
    let game = TicTacToeGame;
    let config = RolloutMctsConfig::default();
    let mut root = rollout_root(TicTacToe::new());
    for _ in 0..50 {
        root.walk_to_leaf(&game, &config);
    }
    let stats = root.statistics();
    assert_eq!(stats.len(), 9);
    for (s, e) in stats.iter().zip(root.children.iter()) {
        assert_eq!(*s, (e.action, e.visit_count, e.expected_reward, e.prior_probability));
    }
    assert_eq!(stats.iter().map(|s| s.1).sum::<u64>(), 50);
}

fn is_center_or_corner(a: Action) -> bool {
    (a.0 != 1) == (a.1 != 1)
}

#[test]
fn tictactoe_opening_after_ten_thousand_simulations() {
    // One search is noisy: a side move that was tried only a few dozen times
    // can swing the means. Over repeated independent searches, center and
    // corners must come out ahead in most of them.
    let game = TicTacToeGame;
    let config = RolloutMctsConfig::default();
    let runs = 31;
    let mut strong_ahead = 0;
    for _ in 0..runs {
        let mut root = rollout_root(TicTacToe::new());
        for _ in 0..10_000 {
            root.walk_to_leaf(&game, &config);
        }
        let mut strong = Vec::new();
        let mut weak = Vec::new();
        for edge in root.children.iter() {
            assert!(edge.visit_count > 0);
            if is_center_or_corner(edge.action) {
                strong.push(edge.expected_reward);
            } else {
                weak.push(edge.expected_reward);
            }
        }
        assert_eq!(strong.len(), 5);
        assert_eq!(weak.len(), 4);
        let strong_mean = strong.iter().sum::<i64>() / strong.len() as i64;
        let weak_mean = weak.iter().sum::<i64>() / weak.len() as i64;
        if strong_mean > weak_mean {
            strong_ahead += 1;
        }
    }
    assert!(2 * strong_ahead > runs, "center and corners ahead in only {strong_ahead} of {runs} runs");
}

#[test]
fn guided_uniform_predictor_orders_visits_like_rollouts() {
    let game = TicTacToeGame;
    // X took the center: the four corners are alike, and so are the four edges.
    let mut start = TicTacToe::new();
    game.apply_action(&mut start, Action(1, 1));
    let guided = GuidedMctsConfig { policy: vec![ONE / 9; 9], value: 0 };
    let rollout = RolloutMctsConfig::default();
    let mut guided_root = guided.node_for_new_state(&game, start).0;
    let mut rollout_root = rollout.node_for_new_state(&game, start).0;
    for _ in 0..20_000 {
        guided_root.walk_to_leaf(&game, &guided);
        rollout_root.walk_to_leaf(&game, &rollout);
    }
    let corner_visits = |root: &Node<TicTacToeGame>| -> u64 {
        root.children.iter().filter(|e| is_center_or_corner(e.action)).map(|e| e.visit_count).sum()
    };
    let side_visits = |root: &Node<TicTacToeGame>| -> u64 {
        root.children.iter().filter(|e| !is_center_or_corner(e.action)).map(|e| e.visit_count).sum()
    };
    assert_eq!(
        corner_visits(&guided_root) > side_visits(&guided_root),
        corner_visits(&rollout_root) > side_visits(&rollout_root)
    );
}
