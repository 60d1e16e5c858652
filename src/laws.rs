//! Properties of the rules of play, stated over the model of a move.
use vstd::prelude::*;
use vstd::array::spec_array_update;

use crate::card::{Card, Player, Rules, other_player, MAX_VALUE, card_suit, effective_rank, opposite_of, suit_index};
use crate::game::{
    BoardCell, GameMove, GameState, adjacent, apply_spec, board_after_flips, filled_upto, flips_at,
    lemma_board_after_flips, lemma_filled_place, lemma_filled_same_shape, moves_of, owned_by,
    owned_upto, played_card, score_of, slot_of, undone, state_wf, lemma_filled_bounds, valid_move, lemma_moves_upto,
};

verus! {

proof fn lemma_owned_split(b: [BoardCell; 9], n: int)
    requires
        0 <= n <= 9,
    ensures
        owned_upto(b, Player::Red, n) + owned_upto(b, Player::Blue, n) == filled_upto(b, n),
    decreases n,
{
    if n > 0 {
        lemma_owned_split(b, n - 1);
    }
}

proof fn lemma_owned_place(b: [BoardCell; 9], k: int, c: Card, q: Player, p: Player, n: int)
    requires
        0 <= n <= 9,
        0 <= k < 9,
        b[k] is None,
    ensures
        owned_upto(spec_array_update(b, k, Some((c, q))), p, n) == owned_upto(b, p, n) + if k < n && q == p {
            1int
        } else {
            0
        },
    decreases n,
{
    if n > 0 {
        lemma_owned_place(b, k, c, q, p, n - 1);
    }
}

/// A move keeps the sum of the two players' scores (cells owned plus
/// remaining-card counter) as long as the mover's counter is not already
/// zero.
pub proof fn law_total_score_kept(s: GameState, rules: Rules, mv: GameMove)
    requires
        valid_move(s, mv),
        crate::game::hand_size_of(s, mv.player) > 0,
    ensures
        score_of(apply_spec(s, rules, mv), Player::Red) + score_of(apply_spec(s, rules, mv), Player::Blue)
            == score_of(s, Player::Red) + score_of(s, Player::Blue),
{
    let t = apply_spec(s, rules, mv);
    let played = played_card(s, mv);
    let fb = board_after_flips(s, rules, played, mv, 9);
    assert forall|i: int| 0 <= i < 9 implies (s.board[i] is Some) == (#[trigger] fb[i] is Some) by {
        lemma_board_after_flips(s, rules, played, mv, 9, i);
    }
    lemma_filled_same_shape(s.board, fb, 9);
    lemma_board_after_flips(s, rules, played, mv, 9, mv.placement as int);
    lemma_filled_place(fb, mv.placement as int, Some((played, mv.player)), 9);
    lemma_owned_split(s.board, 9);
    lemma_owned_split(t.board, 9);
}

/// A move that passes no cell from one player to the other keeps each
/// player's score: the mover's card goes from its counter to the board.
pub proof fn law_scores_kept_without_flips(s: GameState, rules: Rules, mv: GameMove)
    requires
        valid_move(s, mv),
        crate::game::hand_size_of(s, mv.player) > 0,
        forall|i: int|
            0 <= i < 9 ==> !(flips_at(s, rules, played_card(s, mv), mv, i) && !owned_by(#[trigger] s.board[i], mv.player)),
    ensures
        score_of(apply_spec(s, rules, mv), Player::Red) == score_of(s, Player::Red),
        score_of(apply_spec(s, rules, mv), Player::Blue) == score_of(s, Player::Blue),
{
    let played = played_card(s, mv);
    let fb = board_after_flips(s, rules, played, mv, 9);
    assert forall|i: int| 0 <= i < 9 implies #[trigger] fb[i] == s.board[i] by {
        lemma_board_after_flips(s, rules, played, mv, 9, i);
        if flips_at(s, rules, played, mv, i) {
            assert(owned_by(s.board[i], mv.player));
        }
    }
    assert(fb =~= s.board);
    lemma_owned_place(s.board, mv.placement as int, played, mv.player, Player::Red, 9);
    lemma_owned_place(s.board, mv.placement as int, played, mv.player, Player::Blue, 9);
}

/// Without the fallen-ace rule, an occupied neighbour of the target cell
/// passes to the mover exactly when the placed card's facing rank is
/// greater than the neighbour's (lower under `reverse`); otherwise it is
/// left as it was.
pub proof fn law_flip_by_rank(s: GameState, rules: Rules, mv: GameMove, i: int)
    requires
        valid_move(s, mv),
        0 <= i < 9,
        adjacent(i, mv.placement as int) is Some,
        s.board[i] is Some,
        !rules.fallen_ace,
    ensures
        ({
            let d = adjacent(i, mv.placement as int).unwrap();
            let c = s.board[i].unwrap().0;
            let placed = effective_rank(played_card(s, mv), s.modifiers, opposite_of(d));
            let neighbour = effective_rank(c, s.modifiers, d);
            let beaten = if rules.reverse {
                placed < neighbour
            } else {
                placed > neighbour
            };
            apply_spec(s, rules, mv).board[i] == if beaten {
                Some((c, mv.player))
            } else {
                s.board[i]
            }
        }),
{
    lemma_board_after_flips(s, rules, played_card(s, mv), mv, 9, i);
}

/// Under the fallen-ace rule, a placed 1 takes a neighbouring ace (a placed
/// ace takes a neighbouring 1 under `reverse`), though the ranks alone
/// would not flip it.
pub proof fn law_fallen_ace(s: GameState, rules: Rules, mv: GameMove, i: int)
    requires
        valid_move(s, mv),
        0 <= i < 9,
        adjacent(i, mv.placement as int) is Some,
        s.board[i] is Some,
        rules.fallen_ace,
        ({
            let d = adjacent(i, mv.placement as int).unwrap();
            let placed = effective_rank(played_card(s, mv), s.modifiers, opposite_of(d));
            let neighbour = effective_rank(s.board[i].unwrap().0, s.modifiers, d);
            if rules.reverse {
                placed == MAX_VALUE && neighbour == 1
            } else {
                placed == 1 && neighbour == MAX_VALUE
            }
        }),
    ensures
        apply_spec(s, rules, mv).board[i] == Some((s.board[i].unwrap().0, mv.player)),
{
    lemma_board_after_flips(s, rules, played_card(s, mv), mv, 9, i);
}

/// Playing a card of a suit moves that suit's delta by exactly one up
/// under ascension and one down under decension, and leaves the other
/// suits alone; ranks then use the delta clamped into `[0, MAX_VALUE]`.
pub proof fn law_suit_delta_moves(s: GameState, rules: Rules, mv: GameMove, k: int)
    requires
        valid_move(s, mv),
        0 <= k < 4,
        state_wf(s),
    ensures
        apply_spec(s, rules, mv).modifiers.deltas[k] == s.modifiers.deltas[k] + match card_suit(
            played_card(s, mv),
        ) {
            Some(su) => if suit_index(su) == k {
                (if rules.ascension {
                    1int
                } else {
                    0
                }) - (if rules.decension {
                    1int
                } else {
                    0
                })
            } else {
                0
            },
            None => 0,
        },
{
    lemma_filled_bounds(s.board, 9);
}

/// Playing a move and then undoing one state gives back the history as it
/// was, current state included.
pub proof fn law_undo_after_apply(h: Seq<GameState>, rules: Rules, mv: GameMove)
    requires
        h.len() >= 1,
    ensures
        undone(h.push(apply_spec(h.last(), rules, mv)), 1) == h,
{
    assert(undone(h.push(apply_spec(h.last(), rules, mv)), 1) =~= h);
}

/// When only the first card may be played, the moves hold at most one per
/// cell, each in the lowest occupied slot of the hand.
pub proof fn law_first_card_only(s: GameState, p: Player)
    ensures
        forall|j: int|
            0 <= j < moves_of(s, p, true).len() ==> {
                let m = #[trigger] moves_of(s, p, true)[j];
                &&& slot_of(s, p, m.card_idx as int) is Some
                &&& forall|i: int| 0 <= i < m.card_idx ==> slot_of(s, p, i) is None
            },
        forall|i: int, j: int|
            0 <= i < j < moves_of(s, p, true).len() ==> (#[trigger] moves_of(s, p, true)[i]).placement
                != (#[trigger] moves_of(s, p, true)[j]).placement,
{
    lemma_moves_upto(s, p, true, 9);
}


/// Number of cells among the first `n` that a move takes from the
/// opponent.
pub open spec fn taken_upto(s: GameState, rules: Rules, mv: GameMove, n: int) -> int
    decreases n,
{
    if n <= 0 {
        0
    } else {
        taken_upto(s, rules, mv, n - 1) + if flips_at(s, rules, played_card(s, mv), mv, n - 1) && owned_by(
            s.board[n - 1],
            other_player(mv.player),
        ) {
            1int
        } else {
            0
        }
    }
}

proof fn lemma_owned_after_flips(s: GameState, rules: Rules, mv: GameMove, n: int)
    requires
        0 <= n <= 9,
    ensures
        owned_upto(board_after_flips(s, rules, played_card(s, mv), mv, 9), mv.player, n) == owned_upto(
            s.board,
            mv.player,
            n,
        ) + taken_upto(s, rules, mv, n),
        owned_upto(board_after_flips(s, rules, played_card(s, mv), mv, 9), other_player(mv.player), n)
            == owned_upto(s.board, other_player(mv.player), n) - taken_upto(s, rules, mv, n),
    decreases n,
{
    if n > 0 {
        lemma_owned_after_flips(s, rules, mv, n - 1);
        lemma_board_after_flips(s, rules, played_card(s, mv), mv, 9, n - 1);
    }
}

/// A move shifts scores by the cells it takes: the mover gains exactly
/// the neighbours it takes from the opponent (its placed card only moves
/// from its counter to the board), and the opponent loses them.
pub proof fn law_scores_shift_by_flips(s: GameState, rules: Rules, mv: GameMove)
    requires
        valid_move(s, mv),
        crate::game::hand_size_of(s, mv.player) > 0,
    ensures
        score_of(apply_spec(s, rules, mv), mv.player) == score_of(s, mv.player) + taken_upto(s, rules, mv, 9),
        score_of(apply_spec(s, rules, mv), other_player(mv.player)) == score_of(s, other_player(mv.player))
            - taken_upto(s, rules, mv, 9),
{
    let played = played_card(s, mv);
    let fb = board_after_flips(s, rules, played, mv, 9);
    lemma_owned_after_flips(s, rules, mv, 9);
    lemma_board_after_flips(s, rules, played, mv, 9, mv.placement as int);
    lemma_owned_place(fb, mv.placement as int, played, mv.player, mv.player, 9);
    lemma_owned_place(fb, mv.placement as int, played, mv.player, other_player(mv.player), 9);
}

/// The sum of the two players' scores.
pub open spec fn score_total(s: GameState) -> int {
    score_of(s, Player::Red) + score_of(s, Player::Blue)
}

/// Whether `states` is a run of `moves`: each state follows from the one
/// before by a valid move whose mover still has a card on its counter.
pub open spec fn is_run(states: Seq<GameState>, moves: Seq<GameMove>, rules: Rules) -> bool {
    &&& states.len() == moves.len() + 1
    &&& forall|i: int|
        0 <= i < moves.len() ==> {
            &&& valid_move(states[i], #[trigger] moves[i])
            &&& crate::game::hand_size_of(states[i], moves[i].player) > 0
            &&& states[i + 1] == apply_spec(states[i], rules, moves[i])
        }
}

/// Along every run of moves, the sum of the two players' scores never
/// changes: from two full decks on an empty board it stays ten.
pub proof fn law_total_score_along_run(states: Seq<GameState>, moves: Seq<GameMove>, rules: Rules)
    requires
        is_run(states, moves, rules),
    ensures
        forall|i: int| 0 <= i < states.len() ==> score_total(#[trigger] states[i]) == score_total(states[0]),
    decreases moves.len(),
{
    if moves.len() > 0 {
        let n = moves.len() - 1;
        let shorter = states.subrange(0, n + 1);
        assert(is_run(shorter, moves.subrange(0, n), rules)) by {
            assert forall|i: int| 0 <= i < n implies {
                &&& valid_move(shorter[i], #[trigger] moves.subrange(0, n)[i])
                &&& crate::game::hand_size_of(shorter[i], moves.subrange(0, n)[i].player) > 0
                &&& shorter[i + 1] == apply_spec(shorter[i], rules, moves.subrange(0, n)[i])
            } by {
                assert(moves.subrange(0, n)[i] == moves[i]);
            }
        }
        law_total_score_along_run(shorter, moves.subrange(0, n), rules);
        assert(valid_move(states[n], moves[n]));
        law_total_score_kept(states[n], rules, moves[n]);
        assert(shorter[n] == states[n]);
        assert(shorter[0] == states[0]);
        assert(score_total(shorter[n]) == score_total(shorter[0]));
        assert forall|i: int| 0 <= i < states.len() implies score_total(#[trigger] states[i]) == score_total(states[0]) by {
            if i <= n {
                assert(states[i] == shorter[i]);
            }
        }
    }
}

} // verus!
