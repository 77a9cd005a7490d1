use ailib::deterministic_state::{Deterministic, DeterministicState};
use ailib::state::{State, TOTAL_PROB};
use ailib::strategies::full_search_strategy::FullSearchStrategy;
use ailib::strategies::random_strategy::RandomStrategy;
use ailib::strategy::Strategy;
use ailib::tictactoe::{Stone, TicTacToeAction, TicTacToeState};
use ailib::winner::Winner;

fn play(game: &mut TicTacToeState, moves: &[(usize, usize)]) {
    for &(x, y) in moves {
        game.apply_action(&TicTacToeAction::new(x, y));
    }
}

/// Eight moves leaving only cell (2, 2) open, with no line yet on the board;
/// the ninth move draws the game.
const ALMOST_DRAWN: [(usize, usize); 8] = [
    (0, 0),
    (0, 1),
    (0, 2),
    (1, 1),
    (1, 0),
    (1, 2),
    (2, 1),
    (2, 0),
];

#[test]
fn initial_position_is_empty() {
    let s = TicTacToeState::initial();
    assert_eq!(s.turn(), 0);
    assert_eq!(s.winner(), None);
    for x in 0..3 {
        for y in 0..3 {
            assert!(s.empty(x, y));
            assert_eq!(s.at(x, y), None);
        }
    }
    assert_eq!(s.fields(), vec![None; 9]);
}

#[test]
fn opening_is_restricted_to_three_cells() {
    let s = TicTacToeState::initial();
    let actions = s.possible_actions();
    assert_eq!(actions.len(), 3);
    assert_eq!(actions[0], TicTacToeAction::new(0, 0));
    assert_eq!(actions[1], TicTacToeAction::new(1, 0));
    assert_eq!(actions[2], TicTacToeAction::new(1, 1));
}

#[test]
fn players_alternate_starting_with_circle() {
    let mut s = TicTacToeState::initial();
    assert_eq!(s.player(), Stone::Circle);
    s.apply_action(&TicTacToeAction::new(0, 0));
    assert_eq!(s.player(), Stone::Cross);
    assert_eq!(s.at(0, 0), Some(Stone::Circle));
    assert_eq!(s.turn(), 1);
}

#[test]
fn reversibility_of_actions() {
    let mut s = TicTacToeState::initial();
    play(&mut s, &[(0, 0), (2, 2), (1, 1)]);
    let before = s;
    let a = TicTacToeAction::new(2, 1);
    s.apply_action(&a);
    assert_ne!(s, before);
    s.unapply_action(&a);
    assert_eq!(s, before);
}

#[test]
fn reversibility_of_effects_through_adapter() {
    let mut s = Deterministic::new(TicTacToeState::initial());
    let before = *s.game();
    let a = TicTacToeAction::new(1, 1);
    s.apply_effect(&a);
    s.unapply_effect(&a);
    assert_eq!(*s.game(), before);
}

#[test]
fn determinism_lift_yields_single_effect() {
    let s = Deterministic::new(TicTacToeState::initial());
    for a in s.possible_actions() {
        let effects = s.action_effects(&a);
        assert_eq!(effects.len(), 1);
        assert_eq!(effects[0], a);
    }
}

#[test]
fn probability_of_each_action_sums_to_one() {
    let s = Deterministic::new(TicTacToeState::initial());
    for a in s.possible_actions() {
        let mut total: u64 = 0;
        for e in s.action_effects(&a) {
            let mut work = s.duplicate();
            let p = work.apply_effect(&e);
            assert!(0 < p && p <= TOTAL_PROB);
            total += p;
        }
        assert_eq!(total, TOTAL_PROB);
    }
}

#[test]
fn three_in_a_row_wins() {
    let mut s = TicTacToeState::initial();
    play(&mut s, &[(0, 0), (1, 1), (0, 1), (2, 2), (0, 2)]);
    assert_eq!(s.winner(), Some(Winner::Player(Stone::Circle)));
    assert_eq!(s.possible_actions().len(), 0);
}

#[test]
fn full_board_without_line_draws() {
    let mut s = TicTacToeState::initial();
    play(&mut s, &ALMOST_DRAWN);
    assert_eq!(s.winner(), None);
    assert_eq!(s.possible_actions().len(), 1);
    s.apply_action(&TicTacToeAction::new(2, 2));
    assert_eq!(s.winner(), Some(Winner::Draw));
}

#[test]
fn terminal_coverage_draw_reward() {
    let mut g = TicTacToeState::initial();
    play(&mut g, &ALMOST_DRAWN);
    let s = Deterministic::new(g);
    let strat = FullSearchStrategy::new();
    let rated = strat.rated_actions(&s);
    assert_eq!(rated.len(), 1);
    assert_eq!(rated[0].0, TicTacToeAction::new(2, 2));
    assert_eq!(rated[0].1, 200000);
}

#[test]
fn terminal_coverage_win_reward() {
    let mut g = TicTacToeState::initial();
    play(&mut g, &[(0, 0), (2, 2), (0, 1), (2, 1)]);
    let s = Deterministic::new(g);
    let strat = FullSearchStrategy::new();
    let rated = strat.rated_actions(&s);
    let winning = rated
        .iter()
        .find(|(a, _)| *a == TicTacToeAction::new(0, 2))
        .expect("the winning move is a legal action");
    assert_eq!(winning.1, 1000000);
    // (2,0) blocks Cross's bottom row and opens a double threat, so it also
    // rates a certain win; it precedes (0,2) in enumeration order, so the
    // first-maximum tie-break selects it.
    assert_eq!(strat.best_action(&s), Some(TicTacToeAction::new(2, 0)));
    let double_threat = rated
        .iter()
        .find(|(a, _)| *a == TicTacToeAction::new(2, 0))
        .expect("the double-threat move is a legal action");
    assert_eq!(double_threat.1, 1000000);
}

#[test]
fn actions_enumerate_first_coordinate_fastest() {
    let mut g = TicTacToeState::initial();
    play(&mut g, &[(0, 0), (1, 1)]);
    let actions = g.possible_actions();
    let expected = vec![
        TicTacToeAction::new(1, 0),
        TicTacToeAction::new(2, 0),
        TicTacToeAction::new(0, 1),
        TicTacToeAction::new(2, 1),
        TicTacToeAction::new(0, 2),
        TicTacToeAction::new(1, 2),
        TicTacToeAction::new(2, 2),
    ];
    assert_eq!(actions, expected);
}

#[test]
fn terminal_coverage_loose_reward() {
    // Cross to move, but every reply leaves Circle a completed line or Cross
    // cannot avoid losing; the move handing Circle the win at once rates the
    // win for Circle, which is the loss reward from Cross's viewpoint only
    // when Circle finishes. Here: Circle threatens (0,2); Cross blocks or
    // loses, so the non-blocking moves rate 0 for Cross.
    let mut g = TicTacToeState::initial();
    play(&mut g, &[(0, 0), (2, 2), (0, 1)]);
    let s = Deterministic::new(g);
    let strat = FullSearchStrategy::new();
    let rated = strat.rated_actions(&s);
    let losing = rated
        .iter()
        .find(|(a, _)| *a == TicTacToeAction::new(2, 1))
        .expect("a non-blocking move is a legal action");
    assert_eq!(losing.1, 0);
}

#[test]
fn best_action_none_on_finished_game() {
    let mut g = TicTacToeState::initial();
    play(&mut g, &[(0, 0), (1, 1), (0, 1), (2, 2), (0, 2)]);
    let s = Deterministic::new(g);
    let strat = FullSearchStrategy::new();
    assert_eq!(strat.rated_actions(&s).len(), 0);
    assert_eq!(strat.best_action(&s), None);
}

#[test]
fn self_play_between_full_searches_draws() {
    let mut s = Deterministic::new(TicTacToeState::initial());
    let strat = FullSearchStrategy::new();
    loop {
        match strat.best_action(&s) {
            Some(a) => {
                let mut g = s.into_game();
                g.apply_action(&a);
                s = Deterministic::new(g);
            }
            None => break,
        }
    }
    assert_eq!(s.game().winner(), Some(Winner::Draw));
}

#[test]
fn full_search_never_loses_to_random_play() {
    for round in 0..5 {
        let mut s = Deterministic::new(TicTacToeState::initial());
        let random = RandomStrategy::new();
        let search = FullSearchStrategy::new();
        loop {
            let a = if s.player() == Stone::Circle {
                if round % 2 == 0 {
                    random.best_action(&s)
                } else {
                    search.best_action(&s)
                }
            } else {
                if round % 2 == 0 {
                    search.best_action(&s)
                } else {
                    random.best_action(&s)
                }
            };
            match a {
                Some(a) => {
                    let mut g = s.into_game();
                    g.apply_action(&a);
                    s = Deterministic::new(g);
                }
                None => break,
            }
        }
        let searcher = if round % 2 == 0 { Stone::Cross } else { Stone::Circle };
        let loser = if searcher == Stone::Circle { Stone::Cross } else { Stone::Circle };
        assert_ne!(s.game().winner(), Some(Winner::Player(loser)));
    }
}

#[test]
fn random_strategy_rates_every_action() {
    let s = Deterministic::new(TicTacToeState::initial());
    let strat = RandomStrategy::new();
    let rated = strat.rated_actions(&s);
    let actions = s.possible_actions();
    assert_eq!(rated.len(), actions.len());
    for (i, (a, _)) in rated.iter().enumerate() {
        assert_eq!(*a, actions[i]);
    }
    assert!(strat.best_action(&s).is_some());
}

#[test]
fn rewards_are_validated_at_construction() {
    assert_eq!(
        FullSearchStrategy::validated(1000000, 200000, 0),
        Some(FullSearchStrategy::new())
    );
    assert_eq!(FullSearchStrategy::validated(0, 200000, 1000000), None);
    assert_eq!(FullSearchStrategy::validated(1000000, 0, 200000), None);
    let custom = FullSearchStrategy::with_rewards(500000, 100000, 50000);
    assert_eq!(custom.win_reward, 500000);
    assert_eq!(custom.draw_reward, 100000);
    assert_eq!(custom.loose_reward, 50000);
}

#[test]
fn default_strategies_match_new() {
    assert_eq!(FullSearchStrategy::default(), FullSearchStrategy::new());
    let _ = RandomStrategy::default();
}

#[test]
fn winner_is_a_plain_value() {
    let w: Winner<Stone> = Winner::Player(Stone::Cross);
    assert_eq!(w, Winner::Player(Stone::Cross));
    assert_ne!(w, Winner::Draw);
    let copy = w;
    assert_eq!(copy, w);
}
