use triple_triad_solver::card::{Card, Direction, Player, Rules, Suit};
use triple_triad_solver::data::{Data, Npc};
use triple_triad_solver::game::{Game, GameMove, SetupError, WinState};

fn deck(first_id: i32, cards: [Card; 5]) -> [(i32, Card); 5] {
    [
        (first_id, cards[0]),
        (first_id + 1, cards[1]),
        (first_id + 2, cards[2]),
        (first_id + 3, cards[3]),
        (first_id + 4, cards[4]),
    ]
}

fn flat(rank: i32) -> Card {
    Card::new(rank, rank, rank, rank, None)
}

fn mv(player: Player, card_idx: usize, placement: usize) -> GameMove {
    GameMove { player, card_idx, placement }
}

fn game_with(red: [Card; 5], blue: [Card; 5], rules: Rules) -> Game {
    let mut g = Game::new(Player::Blue);
    g.set_cards_in_hand(Player::Red, &deck(1, red), 5);
    g.set_cards_in_hand(Player::Blue, &deck(101, blue), 5);
    g.set_rules(rules);
    g
}

#[test]
fn new_game_is_empty() {
    let g = Game::new(Player::Blue);
    assert_eq!(g.history_len(), 1);
    assert!(g.is_human(Player::Blue));
    assert!(!g.is_human(Player::Red));
    let s = g.current_state();
    for i in 0..9 {
        assert!(s.cell(i).is_none());
    }
    assert_eq!(s.hand_size(Player::Red), 0);
    assert_eq!(g.win_state(), WinState::NotFinished);
    assert_eq!(g.rules(), Rules::none());
}

#[test]
fn adjacency_pairs() {
    assert_eq!(Game::adjacency(0, 1), Some(Direction::East));
    assert_eq!(Game::adjacency(1, 0), Some(Direction::West));
    assert_eq!(Game::adjacency(4, 7), Some(Direction::South));
    assert_eq!(Game::adjacency(7, 4), Some(Direction::North));
    assert_eq!(Game::adjacency(2, 3), None);
    assert_eq!(Game::adjacency(0, 4), None);
    assert_eq!(Game::adjacency(4, 4), None);
}

#[test]
fn set_cards_in_hand_fills_first_five_slots() {
    let mut g = Game::new(Player::Blue);
    g.set_cards_in_hand(Player::Blue, &deck(7, [flat(1), flat(2), flat(3), flat(4), flat(5)]), 5);
    let s = g.current_state();
    assert_eq!(s.hand_slot(Player::Blue, 0), Some((7, flat(1))));
    assert_eq!(s.hand_slot(Player::Blue, 4), Some((11, flat(5))));
    for k in 5..10 {
        assert!(s.hand_slot(Player::Blue, k).is_none());
    }
    assert!(s.hand_slot(Player::Red, 0).is_none());
    assert_eq!(s.hand_size(Player::Blue), 5);
    assert_eq!(g.history_len(), 1);
}

#[test]
fn move_enumeration_order() {
    let g = game_with([flat(1); 5], [flat(1); 5], Rules::none());
    let mut moves = Vec::new();
    g.get_possible_moves(Player::Red, &mut moves);
    assert_eq!(moves.len(), 45);
    assert_eq!(moves[0], mv(Player::Red, 0, 0));
    assert_eq!(moves[1], mv(Player::Red, 1, 0));
    assert_eq!(moves[5], mv(Player::Red, 0, 1));
    assert_eq!(moves[44], mv(Player::Red, 4, 8));
}

#[test]
fn order_rule_restricts_human_to_first_card() {
    let mut rules = Rules::none();
    rules.order = true;
    let mut g = game_with([flat(1); 5], [flat(1); 5], rules);
    g.apply_move(&mv(Player::Blue, 0, 4));
    g.apply_move(&mv(Player::Red, 2, 0));
    let mut moves = Vec::new();
    g.get_possible_moves(Player::Blue, &mut moves);
    // seven empty cells, one move each, from slot 1 (slot 0 was played)
    assert_eq!(moves.len(), 7);
    let mut cells = Vec::new();
    for m in &moves {
        assert_eq!(m.card_idx, 1);
        assert!(!cells.contains(&m.placement));
        cells.push(m.placement);
    }
    // the NPC side is not held to the order
    g.get_possible_moves(Player::Red, &mut moves);
    assert_eq!(moves.len(), 28);
}

#[test]
fn order_rule_without_order_flag_allows_all() {
    let g = game_with([flat(1); 5], [flat(1); 5], Rules::none());
    let mut moves = Vec::new();
    g.get_possible_moves(Player::Blue, &mut moves);
    assert_eq!(moves.len(), 45);
}

#[test]
fn higher_rank_flips_neighbour() {
    let mut g = game_with([flat(4); 5], [flat(5), flat(4), flat(3), flat(1), flat(1)], Rules::none());
    g.apply_move(&mv(Player::Red, 0, 4));
    // a 5 on the east side beats the 4
    g.apply_move(&mv(Player::Blue, 0, 5));
    assert_eq!(g.current_state().cell(4), Some((flat(4), Player::Blue)));
    assert_eq!(g.current_state().cell(5), Some((flat(5), Player::Blue)));
    // an equal rank does not flip
    g.apply_move(&mv(Player::Red, 1, 2));
    assert_eq!(g.current_state().cell(5), Some((flat(5), Player::Blue)));
    g.apply_move(&mv(Player::Blue, 1, 1));
    assert_eq!(g.current_state().cell(2), Some((flat(4), Player::Red)));
    let scores = g.current_state().scores();
    assert_eq!(scores, [4, 6]);
}

#[test]
fn reverse_rule_lower_rank_flips() {
    let mut rules = Rules::none();
    rules.reverse = true;
    let mut g = game_with([flat(4); 5], [flat(5), flat(3), flat(1), flat(1), flat(1)], rules);
    g.apply_move(&mv(Player::Red, 0, 4));
    g.apply_move(&mv(Player::Blue, 0, 1));
    assert_eq!(g.current_state().cell(4), Some((flat(4), Player::Red)));
    g.apply_move(&mv(Player::Red, 1, 0));
    g.apply_move(&mv(Player::Blue, 1, 3));
    // the 3 beats both the 4 in the centre and the 4 in the corner
    assert_eq!(g.current_state().cell(4), Some((flat(4), Player::Blue)));
    assert_eq!(g.current_state().cell(0), Some((flat(4), Player::Blue)));
}

#[test]
fn fallen_ace_one_takes_ace() {
    let mut rules = Rules::none();
    rules.fallen_ace = true;
    let mut g = game_with([flat(10); 5], [flat(1); 5], rules);
    g.apply_move(&mv(Player::Red, 0, 4));
    g.apply_move(&mv(Player::Blue, 0, 3));
    assert_eq!(g.current_state().cell(4), Some((flat(10), Player::Blue)));

    let mut plain = game_with([flat(10); 5], [flat(1); 5], Rules::none());
    plain.apply_move(&mv(Player::Red, 0, 4));
    plain.apply_move(&mv(Player::Blue, 0, 3));
    assert_eq!(plain.current_state().cell(4), Some((flat(10), Player::Red)));
}

#[test]
fn ascension_raises_suit() {
    let mut rules = Rules::none();
    rules.ascension = true;
    let primal = Card::new(10, 3, 3, 3, Some(Suit::Primal));
    let mut g = game_with([primal; 5], [flat(1); 5], rules);
    g.apply_move(&mv(Player::Red, 0, 0));
    assert_eq!(g.current_state().modifiers().get(Suit::Primal), 1);
    assert_eq!(g.current_state().modifiers().get(Suit::Scion), 0);
    g.apply_move(&mv(Player::Blue, 0, 8));
    assert_eq!(g.current_state().modifiers().get(Suit::Primal), 1);
    g.apply_move(&mv(Player::Red, 1, 2));
    assert_eq!(g.current_state().modifiers().get(Suit::Primal), 2);
    let m = g.current_state().modifiers();
    // not clamped after adding: 10 + 2
    assert_eq!(primal.get_modified_value(&m, Direction::North), 12);
    assert_eq!(primal.get_modified_value_display(&m, Direction::North), "A");
}

#[test]
fn decension_lowers_suit() {
    let mut rules = Rules::none();
    rules.decension = true;
    let scion = Card::new(2, 2, 2, 2, Some(Suit::Scion));
    let mut g = game_with([scion; 5], [flat(1); 5], rules);
    g.apply_move(&mv(Player::Red, 0, 0));
    assert_eq!(g.current_state().modifiers().get(Suit::Scion), -1);
    let m = g.current_state().modifiers();
    // a negative delta counts as zero
    assert_eq!(scion.get_modified_value(&m, Direction::North), 2);
}

#[test]
fn undo_restores_previous_state() {
    let mut g = game_with([flat(6); 5], [flat(3); 5], Rules::none());
    g.apply_move(&mv(Player::Blue, 0, 4));
    let before = *g.current_state();
    let len = g.history_len();
    g.apply_move(&mv(Player::Red, 3, 1));
    assert_ne!(*g.current_state(), before);
    g.undo_last_moves(1);
    assert_eq!(*g.current_state(), before);
    assert_eq!(g.history_len(), len);
    g.undo_last_moves(0);
    assert_eq!(*g.current_state(), before);
}

#[test]
fn counter_drops_on_each_play() {
    let mut g = game_with([flat(6); 5], [flat(3); 5], Rules::none());
    g.apply_move(&mv(Player::Red, 3, 1));
    let s = g.current_state();
    assert_eq!(s.hand_size(Player::Red), 4);
    assert_eq!(s.hand_size(Player::Blue), 5);
    assert!(s.hand_slot(Player::Red, 3).is_none());
    assert_eq!(s.scores(), [5, 5]);
}

fn play_to_six_four() -> Game {
    let red = [flat(1), flat(1), flat(1), flat(1), flat(10)];
    let mut g = game_with(red, [flat(1); 5], Rules::none());
    let order = [
        mv(Player::Red, 0, 0),
        mv(Player::Blue, 0, 1),
        mv(Player::Red, 1, 2),
        mv(Player::Blue, 1, 3),
        mv(Player::Red, 2, 4),
        mv(Player::Blue, 2, 6),
        mv(Player::Red, 3, 5),
        mv(Player::Blue, 3, 7),
        mv(Player::Red, 4, 8),
    ];
    for m in order.iter() {
        g.apply_move(m);
    }
    g
}

#[test]
fn terminal_scoring_win_and_loss() {
    let g = play_to_six_four();
    assert!(g.current_state().is_game_over());
    assert_eq!(g.current_state().scores(), [6, 4]);
    assert_eq!(g.evaluate_current_position_for(Player::Red), 100);
    assert_eq!(g.evaluate_current_position_for(Player::Blue), -100);
    assert_eq!(g.win_state(), WinState::Winner(Player::Red));
}

#[test]
fn terminal_scoring_tie() {
    let mut g = game_with([flat(1); 5], [flat(1); 5], Rules::none());
    let mut p = Player::Red;
    for cell in 0..9 {
        g.apply_move(&mv(p, cell / 2, cell));
        p = p.other();
    }
    assert_eq!(g.current_state().scores(), [5, 5]);
    assert_eq!(g.evaluate_current_position_for(Player::Red), -30);
    assert_eq!(g.evaluate_current_position_for(Player::Blue), -30);
    assert_eq!(g.win_state(), WinState::Tie);
}

#[test]
fn live_position_scores_difference() {
    let mut g = game_with([flat(6); 5], [flat(3); 5], Rules::none());
    g.apply_move(&mv(Player::Blue, 0, 4));
    g.apply_move(&mv(Player::Red, 0, 1));
    assert_eq!(g.evaluate_current_position_for(Player::Red), 2);
    assert_eq!(g.evaluate_current_position_for(Player::Blue), -2);
    assert_eq!(g.win_state(), WinState::NotFinished);
}

#[test]
fn truncate_keeps_only_current_state() {
    let mut g = game_with([flat(6); 5], [flat(3); 5], Rules::none());
    g.apply_move(&mv(Player::Blue, 0, 4));
    let t = g.truncate_history_and_clone();
    assert_eq!(t.history_len(), 1);
    assert_eq!(*t.current_state(), *g.current_state());
    assert_eq!(t.rules(), g.rules());
    assert!(t.is_human(Player::Blue));
}

fn catalog() -> Data {
    let mut d = Data::empty();
    for id in 1..8 {
        d.card_names.insert(id, format!("Card {}", id));
        d.cards_by_id.insert(id, flat(id));
    }
    d.card_names.insert(50, "Nameless data".to_string());
    let mut rules = Rules::none();
    rules.add_rule_from_csv(10);
    d.npcs_by_name.push((
        "Trainer".to_string(),
        Npc { fixed_cards: [1, 2, 3, 0, 0], variable_cards: [4, 5, 0, 0, 7], rules },
    ));
    d.npcs_by_name.push((
        "Broken".to_string(),
        Npc { fixed_cards: [1, 99, 3, 0, 0], variable_cards: [0; 5], rules: Rules::none() },
    ));
    d
}

#[test]
fn catalog_lookup() {
    let d = catalog();
    assert_eq!(d.get_card(3), Some(&flat(3)));
    assert_eq!(d.get_card(50), None);
    assert_eq!(d.get_card(99), None);
    assert_eq!(d.card_name(2).map(|s| s.as_str()), Some("Card 2"));
    assert!(d.npc(&"Trainer".to_string()).is_some());
    assert!(d.npc(&"Nobody".to_string()).is_none());
}

#[test]
fn npc_hand_from_catalog() {
    let d = catalog();
    let mut g = Game::new(Player::Blue);
    assert_eq!(g.set_cards_for_npc(Player::Red, &d, &"Trainer".to_string()), Ok(()));
    let s = g.current_state();
    assert_eq!(s.hand_slot(Player::Red, 0), Some((1, flat(1))));
    assert_eq!(s.hand_slot(Player::Red, 2), Some((3, flat(3))));
    assert!(s.hand_slot(Player::Red, 3).is_none());
    assert_eq!(s.hand_slot(Player::Red, 5), Some((4, flat(4))));
    assert_eq!(s.hand_slot(Player::Red, 9), Some((7, flat(7))));
    assert!(s.hand_slot(Player::Red, 8).is_none());
    assert_eq!(s.hand_size(Player::Red), 5);
    assert!(g.rules().reverse);
    assert_eq!(g.player_hand_card_name(Player::Red, 9, &d).map(|s| s.as_str()), Some("Card 7"));
    assert_eq!(g.player_hand_card_name(Player::Red, 3, &d), None);
}

#[test]
fn npc_setup_errors() {
    let d = catalog();
    let mut g = Game::new(Player::Blue);
    assert_eq!(g.set_cards_for_npc(Player::Red, &d, &"Nobody".to_string()), Err(SetupError::UnknownNpc));
    assert_eq!(g.set_cards_for_npc(Player::Red, &d, &"Broken".to_string()), Err(SetupError::UnknownCard(99)));
    assert!(g.current_state().hand_slot(Player::Red, 0).is_none());
    assert_eq!(g.rules(), Rules::none());
}
