//! Move search: alpha-beta negamax to a fixed depth, then random playouts
//! to choose among the moves that score alike.
use vstd::prelude::*;
use rand::seq::SliceRandom;
use rand::rngs::ThreadRng;
use rayon::iter::{IntoParallelIterator, ParallelIterator};

use crate::card::{Player, other_player};
use crate::game::{
    Game, GameMove, GameState, WinState, apply_spec, eval_of, valid_move,
    lemma_moves_upto, lemma_moves_ordered, move_key, lemma_apply_wf, filled_upto, lemma_filled_bounds, lemma_empty_cell_count,
};

verus! {

/// Depth of the alpha-beta search.
pub const SEARCH_DEPTH: usize = 10;

/// Number of random playouts run for each tied move.
pub const MONTE_CARLO_ITERATIONS: u64 = 100000;

/// A bound beyond every static value, standing for infinity.
pub const INF: i32 = 1000;

/// The negamax value of a state for `p`, searched `depth` plies deep.
pub open spec fn minimax(g: Game, s: GameState, depth: nat, p: Player) -> int
    decreases depth + 1, 0nat,
{
    let ms = legal_in(g, s, p);
    if depth == 0 || ms.len() == 0 {
        eval_of(s, p)
    } else {
        best_of(g, s, depth, p, ms, ms.len())
    }
}

/// The moves of `p` in state `s` under the rules and human sides of `g`.
pub open spec fn legal_in(g: Game, s: GameState, p: Player) -> Seq<GameMove> {
    crate::game::moves_of(s, p, g.first_only(p))
}

/// The best negated child value among the first `k` moves of `ms`
/// (`-INF` for none).
pub open spec fn best_of(g: Game, s: GameState, depth: nat, p: Player, ms: Seq<GameMove>, k: nat) -> int
    decreases depth, k,
{
    if depth == 0 || k == 0 {
        -INF as int
    } else {
        let prev = best_of(g, s, depth, p, ms, (k - 1) as nat);
        let v = -minimax(g, apply_spec(s, g.rules_spec(), ms[k - 1]), (depth - 1) as nat, other_player(p));
        if v > prev {
            v
        } else {
            prev
        }
    }
}

/// What a search with window `(lo, hi)` tells of the true value `t` when it
/// returns `v`: `v` is exact inside the window, an upper bound at or below
/// it, a lower bound at or above it.
pub open spec fn bounds_value(v: int, t: int, lo: int, hi: int) -> bool {
    &&& (lo < v < hi ==> v == t)
    &&& (v <= lo ==> t <= v)
    &&& (v >= hi ==> t >= v)
}

proof fn lemma_best_of_monotone(g: Game, s: GameState, depth: nat, p: Player, ms: Seq<GameMove>, j: nat, k: nat)
    requires
        j <= k,
    ensures
        best_of(g, s, depth, p, ms, j) <= best_of(g, s, depth, p, ms, k),
    decreases k,
{
    if j < k {
        lemma_best_of_monotone(g, s, depth, p, ms, j, (k - 1) as nat);
    }
}

proof fn lemma_best_of_upper(g: Game, s: GameState, depth: nat, p: Player, ms: Seq<GameMove>, k: nat, j: int)
    requires
        depth > 0,
        0 <= j < k,
    ensures
        move_value(g, s, depth, p, ms[j]) <= best_of(g, s, depth, p, ms, k),
    decreases k,
{
    if j < k - 1 {
        lemma_best_of_upper(g, s, depth, p, ms, (k - 1) as nat, j);
    }
}

/// Games that share rules and human sides search alike.
pub open spec fn same_setup(a: Game, b: Game) -> bool {
    a.rules_spec() == b.rules_spec() && a.humans_spec() == b.humans_spec()
}

proof fn lemma_minimax_setup(a: Game, b: Game, s: GameState, depth: nat, p: Player)
    requires
        same_setup(a, b),
    ensures
        minimax(a, s, depth, p) == minimax(b, s, depth, p),
    decreases depth + 1, 0nat,
{
    let ms = legal_in(a, s, p);
    if depth > 0 && ms.len() > 0 {
        lemma_best_of_setup(a, b, s, depth, p, ms, ms.len());
    }
}

proof fn lemma_best_of_setup(a: Game, b: Game, s: GameState, depth: nat, p: Player, ms: Seq<GameMove>, k: nat)
    requires
        same_setup(a, b),
    ensures
        best_of(a, s, depth, p, ms, k) == best_of(b, s, depth, p, ms, k),
    decreases depth, k,
{
    if depth > 0 && k > 0 {
        lemma_best_of_setup(a, b, s, depth, p, ms, (k - 1) as nat);
        lemma_minimax_setup(a, b, apply_spec(s, a.rules_spec(), ms[k - 1]), (depth - 1) as nat, other_player(p));
    }
}

/// The negamax value for `p` of playing `m` in `s`, searched `depth` plies.
pub open spec fn move_value(g: Game, s: GameState, depth: nat, p: Player, m: GameMove) -> int {
    -minimax(g, apply_spec(s, g.rules_spec(), m), (depth - 1) as nat, other_player(p))
}

/// Negamax with alpha-beta pruning, searching `depth` plies for `player`
/// by playing and undoing moves on `game`. Returns every move whose value
/// equals the best one found, and that value. The value is exact when it
/// falls inside the window `(alpha, beta)`, and a bound otherwise.
pub fn alpha_beta(game: &mut Game, depth: usize, alpha: i32, beta: i32, player: Player) -> (r: (Vec<GameMove>, i32))
    requires
        old(game).wf(),
        -INF <= alpha < beta <= INF,
    ensures
        final(game).wf(),
        final(game).history() == old(game).history(),
        same_setup(*final(game), *old(game)),
        -100 <= r.1 <= 100,
        bounds_value(r.1 as int, minimax(*old(game), old(game).current(), depth as nat, player), alpha as int, beta as int),
        forall|i: int| 0 <= i < r.0@.len() ==> old(game).legal_moves(player).contains(#[trigger] r.0@[i]),
        (r.0@.len() == 0) <==> (depth == 0 || old(game).legal_moves(player).len() == 0),
        (depth == 0 || old(game).legal_moves(player).len() == 0) ==> r.1 == eval_of(old(game).current(), player),
        r.0@.no_duplicates(),
        forall|a: int, b: int| 0 <= a < b < r.0@.len() ==> move_key(#[trigger] r.0@[a]) < move_key(#[trigger] r.0@[b]),
        (alpha == -INF && beta == INF && depth > 0) ==> forall|j: int|
            0 <= j < old(game).legal_moves(player).len() && move_value(
                *old(game),
                old(game).current(),
                depth as nat,
                player,
                #[trigger] old(game).legal_moves(player)[j],
            ) == r.1 ==> r.0@.contains(old(game).legal_moves(player)[j]),
    decreases depth,
{
    if depth == 0 {
        return (Vec::new(), game.evaluate_current_position_for(player));
    }
    let mut possible_moves: Vec<GameMove> = Vec::new();
    game.get_possible_moves(player, &mut possible_moves);
    if possible_moves.len() == 0 {
        return (Vec::new(), game.evaluate_current_position_for(player));
    }
    let ghost g0 = *game;
    let ghost s0 = game.current();
    let ghost ms = possible_moves@;
    proof {
        lemma_moves_upto(s0, player, g0.first_only(player), 9);
        lemma_moves_ordered(s0, player, g0.first_only(player), 9);
    }
    let ghost full = alpha == -INF && beta == INF;
    let mut best_value: i32 = -INF;
    let mut best_moves: Vec<GameMove> = Vec::new();
    let mut a = alpha;
    let mut i: usize = 0;
    while i < possible_moves.len() && a < beta
        invariant
            0 <= i <= ms.len(),
            possible_moves@ == ms,
            ms == g0.legal_moves(player),
            ms == legal_in(g0, s0, player),
            ms.len() > 0,
            depth > 0,
            game.wf(),
            game.history() == g0.history(),
            same_setup(*game, g0),
            s0 == g0.current(),
            forall|j: int| 0 <= j < ms.len() ==> valid_move(s0, #[trigger] ms[j]),
            -INF <= alpha < beta <= INF,
            a == (if alpha >= best_value { alpha } else { best_value }),
            bounds_value(best_value as int, best_of(g0, s0, depth as nat, player, ms, i as nat), alpha as int, beta as int),
            i == 0 ==> best_value == -INF,
            i > 0 ==> -100 <= best_value <= 100 && best_moves@.len() > 0,
            forall|j: int| 0 <= j < best_moves@.len() ==> ms.contains(#[trigger] best_moves@[j]),
            forall|x: int, y: int| 0 <= x < y < ms.len() ==> move_key(#[trigger] ms[x]) < move_key(#[trigger] ms[y]),
            forall|x: int, y: int|
                0 <= x < y < best_moves@.len() ==> move_key(#[trigger] best_moves@[x]) < move_key(#[trigger] best_moves@[y]),
            forall|x: int, y: int|
                0 <= x < best_moves@.len() && i <= y < ms.len() ==> move_key(#[trigger] best_moves@[x]) < move_key(#[trigger] ms[y]),
            full == (alpha == -INF && beta == INF),
            full ==> best_value == best_of(g0, s0, depth as nat, player, ms, i as nat),
            full ==> forall|j: int|
                0 <= j < i && move_value(g0, s0, depth as nat, player, #[trigger] ms[j]) == best_value ==> best_moves@.contains(ms[j]),
        decreases ms.len() - i,
    {
        let mv = possible_moves[i];
        assert(mv == ms[i as int]);
        game.apply_move(&mv);
        let ghost applied = *game;
        let (_, child) = alpha_beta(game, depth - 1, -beta, -a, player.other());
        game.undo_last_moves(1);
        assert(game.history() =~= g0.history());
        proof {
            let child_state = apply_spec(s0, g0.rules_spec(), mv);
            assert(applied.current() == child_state);
            lemma_minimax_setup(applied, g0, child_state, (depth - 1) as nat, other_player(player));
        }
        let value = -child;
        let ghost old_best = best_moves@;
        let ghost old_value = best_value;
        if value > best_value {
            best_value = value;
            best_moves.clear();
            best_moves.push(mv);
            assert(best_moves@[0] == mv);
        } else if value == best_value {
            best_moves.push(mv);
            assert(best_moves@ == old_best.push(mv));
            assert forall|j: int| 0 <= j < old_best.len() implies #[trigger] best_moves@[j] == old_best[j] by {}
        }
        proof {
            if full {
                assert forall|j: int|
                    0 <= j < i + 1 && move_value(g0, s0, depth as nat, player, #[trigger] ms[j]) == best_value
                        implies best_moves@.contains(ms[j]) by {
                    if j == i {
                        assert(best_moves@[best_moves@.len() - 1] == ms[j]);
                    } else {
                        lemma_best_of_upper(g0, s0, depth as nat, player, ms, i as nat, j);
                        if value <= old_value {
                            assert(old_best.contains(ms[j]));
                            let x = choose|x: int| 0 <= x < old_best.len() && old_best[x] == ms[j];
                            assert(best_moves@[x] == ms[j]);
                        }
                    }
                }
            }
        }
        if best_value > a {
            a = best_value;
        }
        i += 1;
    }
    proof {
        if i < ms.len() {
            lemma_best_of_monotone(g0, s0, depth as nat, player, ms, i as nat, ms.len());
        }
        lemma_minimax_setup(g0, *old(game), s0, depth as nat, player);
        assert forall|j: int| 0 <= j < ms.len() implies move_value(*old(game), s0, depth as nat, player, #[trigger] ms[j])
            == move_value(g0, s0, depth as nat, player, ms[j]) by {
            lemma_minimax_setup(g0, *old(game), apply_spec(s0, g0.rules_spec(), ms[j]), (depth - 1) as nat, other_player(player));
        }
    }
    (best_moves, best_value)
}

#[verifier::external_type_specification]
#[verifier::external_body]
pub struct ExThreadRng(ThreadRng);

/// Relies on `rand::thread_rng`: a handle to the generator of this thread.
#[verifier::external_body]
fn new_rng() -> ThreadRng {
    rand::thread_rng()
}

/// Relies on `rand::seq::SliceRandom::choose`: on a non-empty slice, one
/// of its elements, drawn uniformly; `None` comes only from an empty slice.
#[verifier::external_body]
fn choose_move(rng: &mut ThreadRng, moves: &Vec<GameMove>) -> (r: GameMove)
    requires
        moves@.len() > 0,
    ensures
        moves@.contains(r),
{
    *moves.as_slice().choose(rng).unwrap()
}

/// The result of one random playout, for the player who had just moved.
#[derive(Copy, Clone, Debug, PartialEq, Eq, Structural)]
pub enum SimulationResult {
    PlayerWin,
    Tie,
    OpponentWin,
}

/// The counts of a series of random playouts.
#[derive(Copy, Clone, Debug, PartialEq, Eq, Structural)]
pub struct PlayoutTally {
    pub wins: u64,
    pub ties: u64,
    pub playouts: u64,
}

/// The weighted wins of a tally, in tenths: a win counts 10, a tie 3.
pub open spec fn tally_points(t: PlayoutTally) -> int {
    10 * t.wins + 3 * t.ties
}

/// Whether a tally is made of `playouts` playouts.
pub open spec fn tally_of(t: PlayoutTally, playouts: u64) -> bool {
    t.playouts == playouts && t.wins + t.ties <= playouts
}

/// A tally's win ratio lies in `[0, 1]`: its weighted wins are at most ten
/// per playout.
pub proof fn law_tally_ratio_bounds(t: PlayoutTally, playouts: u64)
    requires
        tally_of(t, playouts),
    ensures
        0 <= tally_points(t) <= 10 * playouts,
{
}

impl PlayoutTally {
    /// The weighted wins in tenths; the win ratio is this over ten times
    /// the playouts, which lies in `[0, 1]`.
    pub fn points(&self) -> (r: u128)
        ensures
            r == tally_points(*self),
    {
        10 * (self.wins as u128) + 3 * (self.ties as u128)
    }
}

/// The result for `player` of a state where play stops: a win for the
/// higher score, else a tie or a loss.
pub open spec fn outcome_for(s: GameState, player: Player) -> SimulationResult {
    let mine = crate::game::score_of(s, player);
    let theirs = crate::game::score_of(s, other_player(player));
    if mine > theirs {
        SimulationResult::PlayerWin
    } else if mine == theirs {
        SimulationResult::Tie
    } else {
        SimulationResult::OpponentWin
    }
}

/// The result for `player` of the current state of `game` once play stops.
fn final_outcome(game: &Game, player: Player) -> (r: SimulationResult)
    requires
        game.wf(),
    ensures
        r == outcome_for(game.current(), player),
{
    let scores = game.current_state().scores();
    let mine = scores[player.index()];
    let theirs = scores[player.other().index()];
    if mine > theirs {
        SimulationResult::PlayerWin
    } else if mine == theirs {
        SimulationResult::Tie
    } else {
        SimulationResult::OpponentWin
    }
}

/// Whether a playout stops in state `s` with `mover` to move: the board is
/// full or `mover` has no move.
pub open spec fn stops(g: Game, s: GameState, mover: Player) -> bool {
    crate::game::is_over(s) || legal_in(g, s, mover).len() == 0
}

/// Whether play from `s`, `mover` first and the sides alternating, each
/// playing one of its moves, can stop in state `t` within `n` moves.
pub open spec fn ends_within(g: Game, s: GameState, mover: Player, t: GameState, n: nat) -> bool
    decreases n + 1, 0nat,
{
    if stops(g, s, mover) {
        t == s
    } else {
        some_move_ends(g, s, mover, t, n, legal_in(g, s, mover).len())
    }
}

/// Whether one of the first `k` moves of `mover` in `s` leads to play that
/// can stop in `t` within `n - 1` further moves.
pub open spec fn some_move_ends(g: Game, s: GameState, mover: Player, t: GameState, n: nat, k: nat) -> bool
    decreases n, k,
{
    if n == 0 || k == 0 {
        false
    } else {
        ends_within(
            g,
            apply_spec(s, g.rules_spec(), legal_in(g, s, mover)[k - 1]),
            other_player(mover),
            t,
            (n - 1) as nat,
        ) || some_move_ends(g, s, mover, t, n, (k - 1) as nat)
    }
}

proof fn lemma_some_move_ends(g: Game, s: GameState, mover: Player, t: GameState, n: nat, k: nat, i: int)
    requires
        n > 0,
        0 <= i < k,
        ends_within(g, apply_spec(s, g.rules_spec(), legal_in(g, s, mover)[i]), other_player(mover), t, (n - 1) as nat),
    ensures
        some_move_ends(g, s, mover, t, n, k),
    decreases k,
{
    if i < k - 1 {
        lemma_some_move_ends(g, s, mover, t, n, (k - 1) as nat, i);
    }
}

/// Whether a playout from `s`, `mover` first, can stop in `t`; every move
/// fills a cell, so the empty cells bound its length.
pub open spec fn playout_end(g: Game, s: GameState, mover: Player, t: GameState) -> bool {
    ends_within(g, s, mover, t, (9 - filled_upto(s.board, 9)) as nat)
}

proof fn lemma_ends_setup(a: Game, b: Game, s: GameState, mover: Player, t: GameState, n: nat)
    requires
        same_setup(a, b),
    ensures
        ends_within(a, s, mover, t, n) == ends_within(b, s, mover, t, n),
    decreases n + 1, 0nat,
{
    assert(legal_in(a, s, mover) == legal_in(b, s, mover));
    lemma_some_setup(a, b, s, mover, t, n, legal_in(a, s, mover).len());
}

proof fn lemma_some_setup(a: Game, b: Game, s: GameState, mover: Player, t: GameState, n: nat, k: nat)
    requires
        same_setup(a, b),
    ensures
        some_move_ends(a, s, mover, t, n, k) == some_move_ends(b, s, mover, t, n, k),
    decreases n, k,
{
    assert(legal_in(a, s, mover) == legal_in(b, s, mover));
    if n > 0 && k > 0 {
        lemma_some_setup(a, b, s, mover, t, n, (k - 1) as nat);
        lemma_ends_setup(
            a,
            b,
            apply_spec(s, a.rules_spec(), legal_in(a, s, mover)[k - 1]),
            other_player(mover),
            t,
            (n - 1) as nat,
        );
    }
}

/// One random playout from the current state of `game`, where `player` has
/// just moved: the sides alternate, each playing a move drawn at random,
/// until the board is full or the side to move has no move. The moves are
/// then undone. The result is that of a state where such play can stop, and
/// of the current state itself when play stops there.
pub fn simulate_game_once(game: &mut Game, player: Player, rng: &mut ThreadRng) -> (r: SimulationResult)
    requires
        old(game).wf(),
    ensures
        final(game).wf(),
        final(game).history() == old(game).history(),
        same_setup(*final(game), *old(game)),
        stops(*old(game), old(game).current(), other_player(player)) ==> r == outcome_for(old(game).current(), player),
        exists|t: GameState|
            playout_end(*old(game), old(game).current(), other_player(player), t) && r == outcome_for(t, player),
{
    let ghost h0 = game.history();
    let ghost g0 = *game;
    let ghost s0 = game.current();
    let ghost base = filled_upto(game.current().board, 9);
    let ghost fuel0 = (9 - base) as nat;
    let mut moves_taken: usize = 0;
    let mut current_player = player.other();
    let mut possible_moves: Vec<GameMove> = Vec::new();
    let mut result: Option<SimulationResult> = None;
    proof {
        lemma_filled_bounds(game.current().board, 9);
    }
    while result.is_none()
        invariant
            game.wf(),
            h0.len() >= 1,
            game.history().len() == h0.len() + moves_taken,
            game.history().subrange(0, h0.len() as int) == h0,
            same_setup(*game, g0),
            filled_upto(game.current().board, 9) == base + moves_taken,
            0 <= base,
            base + moves_taken <= 9,
            fuel0 == 9 - base,
            s0 == g0.current(),
            forall|t: GameState|
                #[trigger] ends_within(g0, game.current(), current_player, t, (9 - base - moves_taken) as nat)
                    ==> ends_within(g0, s0, other_player(player), t, fuel0),
            result matches Some(res) ==> stops(g0, game.current(), current_player) && res == outcome_for(
                game.current(),
                player,
            ),
        decreases 9 - filled_upto(game.current().board, 9) + if result is None {
            1int
        } else {
            0
        },
    {
        match game.win_state() {
            WinState::NotFinished => {
                game.get_possible_moves(current_player, &mut possible_moves);
                if possible_moves.len() == 0 {
                    result = Some(final_outcome(game, player));
                } else {
                    let mv = choose_move(rng, &possible_moves);
                    let ghost c = game.current();
                    let ghost f = (9 - base - moves_taken) as nat;
                    proof {
                        let ms = legal_in(g0, c, current_player);
                        assert(ms == possible_moves@);
                        let i = choose|i: int| 0 <= i < possible_moves@.len() && possible_moves@[i] == mv;
                        lemma_moves_upto(c, current_player, g0.first_only(current_player), 9);
                        assert(valid_move(c, ms[i]));
                        lemma_empty_cell_count(c.board, 9, mv.placement as int);
                        lemma_apply_wf(c, game.rules_spec(), mv);
                        lemma_filled_bounds(apply_spec(c, game.rules_spec(), mv).board, 9);
                        assert forall|t: GameState|
                            #[trigger] ends_within(g0, apply_spec(c, g0.rules_spec(), mv), other_player(current_player), t, (f - 1) as nat)
                                implies ends_within(g0, s0, other_player(player), t, fuel0) by {
                            assert(ends_within(g0, apply_spec(c, g0.rules_spec(), ms[i]), other_player(current_player), t, (f - 1) as nat));
                            assert(!stops(g0, c, current_player));
                            lemma_some_move_ends(g0, c, current_player, t, f, ms.len(), i);
                            assert(ends_within(g0, c, current_player, t, f));
                        }
                    }
                    let ghost before = game.history();
                    game.apply_move(&mv);
                    assert(game.history().subrange(0, h0.len() as int) =~= before.subrange(0, h0.len() as int));
                    moves_taken += 1;
                    current_player = current_player.other();
                    assert(game.current() == apply_spec(c, g0.rules_spec(), mv));
                    assert((9 - base - moves_taken) as nat == (f - 1) as nat);
                }
            },
            WinState::Tie => {
                result = Some(SimulationResult::Tie);
            },
            WinState::Winner(w) => {
                if w == player {
                    result = Some(SimulationResult::PlayerWin);
                } else {
                    result = Some(SimulationResult::OpponentWin);
                }
            },
        }
    }
    proof {
        let c = game.current();
        assert(ends_within(g0, c, current_player, c, (9 - base - moves_taken) as nat));
    }
    game.undo_last_moves(moves_taken);
    assert(game.history() =~= h0);
    match result {
        Some(r) => r,
        None => SimulationResult::Tie,
    }
}

/// Whether every playout from `s`, `player` having just moved, has result `k`.
pub open spec fn forced(g: Game, s: GameState, player: Player, k: SimulationResult) -> bool {
    forall|t: GameState| playout_end(g, s, other_player(player), t) ==> outcome_for(t, player) == k
}

/// How many of `results` are `k`.
pub open spec fn count_of(results: Seq<SimulationResult>, k: SimulationResult) -> nat
    decreases results.len(),
{
    if results.len() == 0 {
        0
    } else {
        count_of(results.drop_last(), k) + if results.last() == k {
            1nat
        } else {
            0
        }
    }
}

proof fn lemma_count_sum(results: Seq<SimulationResult>)
    ensures
        count_of(results, SimulationResult::PlayerWin) + count_of(results, SimulationResult::Tie) + count_of(
            results,
            SimulationResult::OpponentWin,
        ) == results.len(),
    decreases results.len(),
{
    if results.len() > 0 {
        lemma_count_sum(results.drop_last());
    }
}

proof fn lemma_count_uniform(results: Seq<SimulationResult>, k: SimulationResult, other: SimulationResult)
    requires
        forall|j: int| 0 <= j < results.len() ==> results[j] == k,
    ensures
        count_of(results, k) == results.len(),
        other != k ==> count_of(results, other) == 0,
    decreases results.len(),
{
    if results.len() > 0 {
        lemma_count_uniform(results.drop_last(), k, other);
    }
}

/// The tally of a series of playout results: the wins and ties counted
/// exactly.
pub fn tally_results(results: &Vec<SimulationResult>) -> (r: PlayoutTally)
    requires
        results@.len() <= u64::MAX,
    ensures
        r.wins == count_of(results@, SimulationResult::PlayerWin),
        r.ties == count_of(results@, SimulationResult::Tie),
        r.playouts == results@.len(),
{
    let mut wins: u64 = 0;
    let mut ties: u64 = 0;
    let mut n: u64 = 0;
    let mut i: usize = 0;
    while i < results.len()
        invariant
            0 <= i <= results@.len(),
            results@.len() <= u64::MAX,
            n == i,
            wins == count_of(results@.subrange(0, i as int), SimulationResult::PlayerWin),
            ties == count_of(results@.subrange(0, i as int), SimulationResult::Tie),
        decreases results@.len() - i,
    {
        proof {
            assert(results@.subrange(0, i as int + 1).drop_last() =~= results@.subrange(0, i as int));
            lemma_count_sum(results@.subrange(0, i as int));
        }
        match results[i] {
            SimulationResult::PlayerWin => {
                wins += 1;
            },
            SimulationResult::Tie => {
                ties += 1;
            },
            SimulationResult::OpponentWin => {},
        }
        n += 1;
        i += 1;
    }
    assert(results@.subrange(0, results@.len() as int) =~= results@);
    PlayoutTally { wins, ties, playouts: n }
}

/// Runs `iterations` random playouts from the current state of `game`,
/// where `player` has just moved, and tallies the results of `player`.
/// When every playout must end alike, the tally says so exactly.
pub fn monte_carlo(game: Game, player: Player, iterations: u64) -> (r: PlayoutTally)
    requires
        game.wf(),
    ensures
        tally_of(r, iterations),
        forced(game, game.current(), player, SimulationResult::PlayerWin) ==> r.wins == iterations && r.ties == 0,
        forced(game, game.current(), player, SimulationResult::Tie) ==> r.ties == iterations && r.wins == 0,
        forced(game, game.current(), player, SimulationResult::OpponentWin) ==> r.wins == 0 && r.ties == 0,
{
    let ghost g0 = game;
    let ghost s0 = game.current();
    let mut game = game;
    let mut rng = new_rng();
    let mut results: Vec<SimulationResult> = Vec::new();
    let mut i: u64 = 0;
    while i < iterations
        invariant
            game.wf(),
            game.history() == g0.history(),
            same_setup(game, g0),
            s0 == g0.current(),
            0 <= i <= iterations,
            results@.len() == i,
            forall|k: SimulationResult|
                forced(g0, s0, player, k) ==> forall|j: int| 0 <= j < results@.len() ==> #[trigger] results@[j] == k,
        decreases iterations - i,
    {
        let ghost before = game;
        let res = simulate_game_once(&mut game, player, &mut rng);
        proof {
            let t = choose|t: GameState| playout_end(before, s0, other_player(player), t) && res == outcome_for(t, player);
            lemma_ends_setup(before, g0, s0, other_player(player), t, (9 - filled_upto(s0.board, 9)) as nat);
        }
        results.push(res);
        i += 1;
    }
    let r = tally_results(&results);
    proof {
        lemma_count_sum(results@);
        if forced(g0, s0, player, SimulationResult::PlayerWin) {
            lemma_count_uniform(results@, SimulationResult::PlayerWin, SimulationResult::Tie);
        }
        if forced(g0, s0, player, SimulationResult::Tie) {
            lemma_count_uniform(results@, SimulationResult::Tie, SimulationResult::PlayerWin);
        }
        if forced(g0, s0, player, SimulationResult::OpponentWin) {
            lemma_count_uniform(results@, SimulationResult::OpponentWin, SimulationResult::PlayerWin);
            lemma_count_uniform(results@, SimulationResult::OpponentWin, SimulationResult::Tie);
        }
    }
    r
}

/// Relies on rayon's `into_par_iter`, `map` and `collect`: one tally per
/// branch, in the order of the branches, each computed by `monte_carlo`
/// on its own branch.
#[verifier::external_body]
fn playouts_in_parallel(branches: Vec<Game>, player: Player, playouts: u64) -> (r: Vec<PlayoutTally>)
    requires
        forall|i: int| 0 <= i < branches@.len() ==> (#[trigger] branches@[i]).wf(),
    ensures
        r@.len() == branches@.len(),
        forall|i: int| 0 <= i < r@.len() ==> tally_of(#[trigger] r@[i], playouts),
{
    branches.into_par_iter().map(|g| monte_carlo(g, player, playouts)).collect()
}

/// The index of the first tally with the most weighted wins.
pub fn best_tally_index(tallies: &Vec<PlayoutTally>) -> (r: usize)
    requires
        tallies@.len() > 0,
    ensures
        r < tallies@.len(),
        forall|j: int| 0 <= j < tallies@.len() ==> tally_points(#[trigger] tallies@[j]) <= tally_points(tallies@[r as int]),
        forall|j: int| 0 <= j < r ==> tally_points(#[trigger] tallies@[j]) < tally_points(tallies@[r as int]),
{
    let mut best: usize = 0;
    let mut best_points = tallies[0].points();
    let mut i: usize = 1;
    while i < tallies.len()
        invariant
            1 <= i <= tallies@.len(),
            best < i,
            best_points == tally_points(tallies@[best as int]),
            forall|j: int| 0 <= j < i ==> tally_points(#[trigger] tallies@[j]) <= best_points,
            forall|j: int| 0 <= j < best ==> tally_points(#[trigger] tallies@[j]) < best_points,
        decreases tallies@.len() - i,
    {
        let p = tallies[i].points();
        if p > best_points {
            best = i;
            best_points = p;
        }
        i += 1;
    }
    best
}

/// The recommended move for `player`: alpha-beta to `depth` plies finds the
/// best value and every move that reaches it; when several do, each is
/// played on its own copy of the match and scored by `playouts` random
/// playouts, and the first with the most weighted wins is kept. Returns the
/// move (none when `player` has no move or `depth` is zero), the value,
/// and the tally of the kept move when playouts ran.
pub fn search_best_move(game: &Game, player: Player, depth: usize, playouts: u64) -> (r: (
    Option<GameMove>,
    i32,
    Option<PlayoutTally>,
))
    requires
        game.wf(),
    ensures
        r.1 == minimax(*game, game.current(), depth as nat, player),
        r.0 is None <==> (depth == 0 || game.legal_moves(player).len() == 0),
        r.0 matches Some(m) ==> game.legal_moves(player).contains(m),
        r.2 matches Some(t) ==> tally_of(t, playouts) && r.0 is Some,
        game.legal_moves(player).len() == 1 ==> r.2 is None,
        (depth > 0 && exists|x: int, y: int|
            0 <= x < y < game.legal_moves(player).len() && move_value(
                *game,
                game.current(),
                depth as nat,
                player,
                #[trigger] game.legal_moves(player)[x],
            ) == r.1 && move_value(*game, game.current(), depth as nat, player, #[trigger] game.legal_moves(player)[y])
                == r.1) ==> r.2 is Some,
{
    let mut g = game.truncate_history_and_clone();
    let ghost g_start = g;
    let (best_moves, score) = alpha_beta(&mut g, depth, -INF, INF, player);
    proof {
        lemma_minimax_setup(g_start, *game, game.current(), depth as nat, player);
        let ms = game.legal_moves(player);
        assert(ms == g_start.legal_moves(player));
        assert forall|j: int| 0 <= j < ms.len() implies move_value(*game, game.current(), depth as nat, player, #[trigger] ms[j])
            == move_value(g_start, g_start.current(), depth as nat, player, ms[j]) by {
            lemma_minimax_setup(
                g_start,
                *game,
                apply_spec(game.current(), game.rules_spec(), ms[j]),
                (depth - 1) as nat,
                other_player(player),
            );
        }
        if ms.len() == 1 && best_moves@.len() >= 2 {
            assert(ms.contains(best_moves@[0]));
            assert(ms.contains(best_moves@[1]));
            assert(best_moves@[0] != best_moves@[1]);
        }
        if depth > 0 && exists|x: int, y: int|
            0 <= x < y < ms.len() && move_value(*game, game.current(), depth as nat, player, #[trigger] ms[x]) == score
                && move_value(*game, game.current(), depth as nat, player, #[trigger] ms[y]) == score {
            let (x, y) = choose|x: int, y: int|
                0 <= x < y < ms.len() && move_value(*game, game.current(), depth as nat, player, #[trigger] ms[x]) == score
                    && move_value(*game, game.current(), depth as nat, player, #[trigger] ms[y]) == score;
            lemma_moves_ordered(game.current(), player, game.first_only(player), 9);
            assert(move_key(ms[x]) < move_key(ms[y]));
            assert(best_moves@.contains(ms[x]));
            assert(best_moves@.contains(ms[y]));
            if best_moves@.len() < 2 {
                let p = choose|p: int| 0 <= p < best_moves@.len() && best_moves@[p] == ms[x];
                let q = choose|q: int| 0 <= q < best_moves@.len() && best_moves@[q] == ms[y];
                assert(p == q);
            }
        }
    }
    if best_moves.len() == 0 {
        (None, score, None)
    } else if best_moves.len() == 1 {
        (Some(best_moves[0]), score, None)
    } else {
        let ghost ms = g.legal_moves(player);
        proof {
            lemma_moves_upto(g.current(), player, g.first_only(player), 9);
        }
        let mut branches: Vec<Game> = Vec::new();
        let mut i: usize = 0;
        while i < best_moves.len()
            invariant
                0 <= i <= best_moves@.len(),
                g.wf(),
                ms == g.legal_moves(player),
                forall|j: int| 0 <= j < ms.len() ==> valid_move(g.current(), #[trigger] ms[j]),
                forall|j: int| 0 <= j < best_moves@.len() ==> ms.contains(#[trigger] best_moves@[j]),
                branches@.len() == i,
                forall|j: int| 0 <= j < branches@.len() ==> (#[trigger] branches@[j]).wf(),
            decreases best_moves@.len() - i,
        {
            let mv = best_moves[i];
            assert(ms.contains(best_moves@[i as int]));
            let mut branch = g.truncate_history_and_clone();
            branch.apply_move(&mv);
            branches.push(branch);
            i += 1;
        }
        let tallies = playouts_in_parallel(branches, player, playouts);
        let k = best_tally_index(&tallies);
        (Some(best_moves[k]), score, Some(tallies[k]))
    }
}

/// The recommended move for `player`, searched `SEARCH_DEPTH` plies deep
/// with `MONTE_CARLO_ITERATIONS` playouts for each tied move.
pub fn get_best_move_for_player(game: &Game, player: Player) -> (r: (
    Option<GameMove>,
    i32,
    Option<PlayoutTally>,
))
    requires
        game.wf(),
    ensures
        r.1 == minimax(*game, game.current(), SEARCH_DEPTH as nat, player),
        r.0 is None <==> game.legal_moves(player).len() == 0,
        r.0 matches Some(m) ==> game.legal_moves(player).contains(m),
        r.2 matches Some(t) ==> tally_of(t, MONTE_CARLO_ITERATIONS) && r.0 is Some,
        game.legal_moves(player).len() == 1 ==> r.2 is None,
        (exists|x: int, y: int|
            0 <= x < y < game.legal_moves(player).len() && move_value(
                *game,
                game.current(),
                SEARCH_DEPTH as nat,
                player,
                #[trigger] game.legal_moves(player)[x],
            ) == r.1 && move_value(*game, game.current(), SEARCH_DEPTH as nat, player, #[trigger] game.legal_moves(player)[y])
                == r.1) ==> r.2 is Some,
{
    search_best_move(game, player, SEARCH_DEPTH, MONTE_CARLO_ITERATIONS)
}

} // verus!
