use triple_triad_solver::card::{Card, Player, Rules, Suit};
use triple_triad_solver::game::{Game, GameMove};
use triple_triad_solver::search::{
    alpha_beta, best_tally_index, monte_carlo, search_best_move, simulate_game_once, tally_results,
    PlayoutTally, SimulationResult, INF,
};

fn deck(first_id: i32, cards: [Card; 5]) -> [(i32, Card); 5] {
    [
        (first_id, cards[0]),
        (first_id + 1, cards[1]),
        (first_id + 2, cards[2]),
        (first_id + 3, cards[3]),
        (first_id + 4, cards[4]),
    ]
}

fn flat(rank: i32) -> Card {
    Card::new(rank, rank, rank, rank, None)
}

fn mv(player: Player, card_idx: usize, placement: usize) -> GameMove {
    GameMove { player, card_idx, placement }
}

fn game_with(red: [Card; 5], blue: [Card; 5], rules: Rules) -> Game {
    let mut g = Game::new(Player::Blue);
    g.set_cards_in_hand(Player::Red, &deck(1, red), 5);
    g.set_cards_in_hand(Player::Blue, &deck(101, blue), 5);
    g.set_rules(rules);
    g
}

fn minimax_by_enumeration(game: &mut Game, depth: usize, player: Player) -> i32 {
    let mut moves = Vec::new();
    game.get_possible_moves(player, &mut moves);
    if depth == 0 || moves.is_empty() {
        return game.evaluate_current_position_for(player);
    }
    let mut best = -INF;
    for m in moves {
        game.apply_move(&m);
        let v = -minimax_by_enumeration(game, depth - 1, player.other());
        game.undo_last_moves(1);
        if v > best {
            best = v;
        }
    }
    best
}

/// Red to move with two cells left and one card each afterwards.
fn two_cells_left() -> Game {
    let red = [
        Card::new(2, 7, 3, 9, None),
        Card::new(6, 1, 8, 2, Some(Suit::Beastman)),
        Card::new(5, 5, 4, 3, None),
        Card::new(1, 9, 9, 1, None),
        Card::new(8, 3, 2, 6, None),
    ];
    let blue = [
        Card::new(3, 3, 7, 7, None),
        Card::new(9, 2, 2, 4, None),
        Card::new(4, 6, 5, 1, Some(Suit::Beastman)),
        Card::new(7, 7, 1, 5, None),
        Card::new(2, 8, 6, 3, None),
    ];
    let mut g = game_with(red, blue, Rules::none());
    let order = [
        mv(Player::Red, 0, 4),
        mv(Player::Blue, 0, 0),
        mv(Player::Red, 1, 8),
        mv(Player::Blue, 1, 2),
        mv(Player::Red, 2, 6),
        mv(Player::Blue, 2, 1),
        mv(Player::Red, 3, 3),
    ];
    for m in order.iter() {
        g.apply_move(m);
    }
    g
}

#[test]
fn alpha_beta_matches_plain_minimax() {
    for depth in 0..4 {
        for player in [Player::Red, Player::Blue] {
            let mut g = two_cells_left();
            let expected = minimax_by_enumeration(&mut g, depth, player);
            let before = *g.current_state();
            let (_, value) = alpha_beta(&mut g, depth, -INF, INF, player);
            assert_eq!(value, expected);
            assert_eq!(*g.current_state(), before);
        }
    }
}

#[test]
fn alpha_beta_matches_plain_minimax_with_rules() {
    let mut rules = Rules::none();
    rules.reverse = true;
    rules.fallen_ace = true;
    rules.ascension = true;
    let red = [flat(1), flat(10), Card::new(3, 8, 5, 2, Some(Suit::Garlean)), flat(6), flat(4)];
    let blue = [flat(10), flat(2), Card::new(9, 1, 4, 7, Some(Suit::Garlean)), flat(5), flat(7)];
    let mut g = game_with(red, blue, rules);
    let order = [
        mv(Player::Blue, 0, 4),
        mv(Player::Red, 2, 0),
        mv(Player::Blue, 2, 8),
        mv(Player::Red, 3, 2),
        mv(Player::Blue, 1, 6),
    ];
    for m in order.iter() {
        g.apply_move(m);
    }
    let expected = minimax_by_enumeration(&mut g, 10, Player::Red);
    let (moves, value) = alpha_beta(&mut g, 10, -INF, INF, Player::Red);
    assert_eq!(value, expected);
    assert!(!moves.is_empty());
}

#[test]
fn alpha_beta_with_no_move_evaluates() {
    let mut g = two_cells_left();
    let (moves, value) = alpha_beta(&mut g, 0, -INF, INF, Player::Blue);
    assert!(moves.is_empty());
    assert_eq!(value, g.evaluate_current_position_for(Player::Blue));
}

/// Red to move with one card and two symmetric cells; every card ranks 1,
/// so nothing ever flips and both moves lead to the same tie.
fn symmetric_position() -> Game {
    let mut g = game_with([flat(1); 5], [flat(1); 5], Rules::none());
    let order = [
        mv(Player::Red, 0, 0),
        mv(Player::Blue, 0, 1),
        mv(Player::Red, 1, 2),
        mv(Player::Blue, 1, 3),
        mv(Player::Red, 2, 4),
        mv(Player::Blue, 2, 5),
        mv(Player::Red, 3, 6),
    ];
    for m in order.iter() {
        g.apply_move(m);
    }
    g
}

#[test]
fn equal_moves_are_all_kept() {
    let mut g = symmetric_position();
    g.apply_move(&mv(Player::Blue, 3, 7));
    // the last cell, Red's last card: a single move
    let (moves, _) = alpha_beta(&mut g, 10, -INF, INF, Player::Red);
    assert_eq!(moves, vec![mv(Player::Red, 4, 8)]);

    let mut g = symmetric_position();
    let (moves, value) = alpha_beta(&mut g, 10, -INF, INF, Player::Blue);
    assert_eq!(value, -30);
    assert_eq!(moves, vec![mv(Player::Blue, 3, 7), mv(Player::Blue, 4, 7), mv(Player::Blue, 3, 8), mv(Player::Blue, 4, 8)]);
}

#[test]
fn single_best_move_skips_playouts() {
    let mut g = symmetric_position();
    g.apply_move(&mv(Player::Blue, 3, 7));
    let (best, score, tally) = search_best_move(&g, Player::Red, 10, 50);
    assert_eq!(best, Some(mv(Player::Red, 4, 8)));
    // the tie is scored -30 for Blue, the side to move after Red
    assert_eq!(score, 30);
    assert_eq!(tally, None);
}

#[test]
fn tied_moves_go_to_playouts() {
    let g = symmetric_position();
    let (best, score, tally) = search_best_move(&g, Player::Blue, 10, 40);
    assert_eq!(score, -30);
    assert!(best.is_some());
    let t = tally.unwrap();
    assert_eq!(t.playouts, 40);
    // every continuation ends in a tie
    assert_eq!(t.ties, 40);
    assert_eq!(t.wins, 0);
    assert!(t.points() <= 10 * 40);
}

#[test]
fn no_move_gives_static_value() {
    let mut g = game_with([flat(1); 5], [flat(1); 5], Rules::none());
    let mut p = Player::Red;
    for cell in 0..9 {
        g.apply_move(&mv(p, cell / 2, cell));
        p = p.other();
    }
    let (best, score, tally) = search_best_move(&g, Player::Blue, 10, 10);
    assert_eq!(best, None);
    assert_eq!(score, -30);
    assert_eq!(tally, None);
}

#[test]
fn forced_win_playouts_all_win() {
    // Blue holds two ones for cells 7 and 8; whichever it takes, Red's ace
    // on the other cell flips a Blue card and Red wins.
    let red = [flat(1), flat(1), flat(1), flat(1), flat(10)];
    let mut g = game_with(red, [flat(1); 5], Rules::none());
    let order = [
        mv(Player::Red, 0, 0),
        mv(Player::Blue, 0, 1),
        mv(Player::Red, 1, 2),
        mv(Player::Blue, 1, 3),
        mv(Player::Red, 2, 4),
        mv(Player::Blue, 2, 6),
        mv(Player::Red, 3, 5),
    ];
    for m in order.iter() {
        g.apply_move(m);
    }
    let t = monte_carlo(g.truncate_history_and_clone(), Player::Red, 200);
    assert_eq!(t, PlayoutTally { wins: 200, ties: 0, playouts: 200 });
    assert_eq!(t.points(), 2000);
    // with Red to move instead, Blue never wins
    let other = monte_carlo(g, Player::Blue, 100);
    assert_eq!(other.wins, 0);
}

#[test]
fn playout_ratio_stays_in_range() {
    let g = two_cells_left();
    let t = monte_carlo(g, Player::Blue, 300);
    assert_eq!(t.playouts, 300);
    assert!(t.wins + t.ties <= 300);
    assert!(t.points() <= 3000);
}

#[test]
fn best_tally_prefers_first_highest() {
    let tallies = vec![
        PlayoutTally { wins: 3, ties: 0, playouts: 10 },
        PlayoutTally { wins: 2, ties: 4, playouts: 10 },
        PlayoutTally { wins: 4, ties: 0, playouts: 10 },
        PlayoutTally { wins: 1, ties: 6, playouts: 10 },
    ];
    // points: 30, 32, 40, 28
    assert_eq!(best_tally_index(&tallies), 2);
    let even = vec![
        PlayoutTally { wins: 3, ties: 0, playouts: 10 },
        PlayoutTally { wins: 0, ties: 10, playouts: 10 },
    ];
    assert_eq!(best_tally_index(&even), 0);
}

fn finished_six_four() -> Game {
    let red = [flat(1), flat(1), flat(1), flat(1), flat(10)];
    let mut g = game_with(red, [flat(1); 5], Rules::none());
    let order = [
        mv(Player::Red, 0, 0),
        mv(Player::Blue, 0, 1),
        mv(Player::Red, 1, 2),
        mv(Player::Blue, 1, 3),
        mv(Player::Red, 2, 4),
        mv(Player::Blue, 2, 6),
        mv(Player::Red, 3, 5),
        mv(Player::Blue, 3, 7),
        mv(Player::Red, 4, 8),
    ];
    for m in order.iter() {
        g.apply_move(m);
    }
    g
}

#[test]
fn playout_on_full_board_is_its_outcome() {
    let mut g = finished_six_four();
    let mut rng = rand::thread_rng();
    let len = g.history_len();
    assert_eq!(simulate_game_once(&mut g, Player::Red, &mut rng), SimulationResult::PlayerWin);
    assert_eq!(simulate_game_once(&mut g, Player::Blue, &mut rng), SimulationResult::OpponentWin);
    assert_eq!(g.history_len(), len);
}

#[test]
fn playouts_on_full_board_count_alike() {
    let g = finished_six_four();
    let t = monte_carlo(g.truncate_history_and_clone(), Player::Red, 30);
    assert_eq!(t, PlayoutTally { wins: 30, ties: 0, playouts: 30 });
    let t = monte_carlo(g, Player::Blue, 30);
    assert_eq!(t, PlayoutTally { wins: 0, ties: 0, playouts: 30 });
}

#[test]
fn tally_counts_results() {
    let results = vec![
        SimulationResult::PlayerWin,
        SimulationResult::Tie,
        SimulationResult::OpponentWin,
        SimulationResult::PlayerWin,
        SimulationResult::Tie,
        SimulationResult::Tie,
    ];
    assert_eq!(tally_results(&results), PlayoutTally { wins: 2, ties: 3, playouts: 6 });
    assert_eq!(tally_results(&Vec::new()), PlayoutTally { wins: 0, ties: 0, playouts: 0 });
}

#[test]
fn tied_moves_come_in_emission_order_without_repeats() {
    let mut g = symmetric_position();
    let (moves, _) = alpha_beta(&mut g, 10, -INF, INF, Player::Blue);
    for i in 1..moves.len() {
        let a = (moves[i - 1].placement, moves[i - 1].card_idx);
        let b = (moves[i].placement, moves[i].card_idx);
        assert!(a < b);
    }
}
