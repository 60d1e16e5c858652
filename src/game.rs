//! Game states, the rules of placing a card, and the undo history of a match.
use vstd::prelude::*;
use vstd::array::spec_array_update;

use crate::data::{Data, Npc, catalog_card, first_npc_named};
use crate::card::{
    Card, Direction, Player, Rules, Modifiers, card_suit, flips,
    other_player, player_index, suit_index, no_rules,
};

verus! {

/// Number of cells on the board.
pub const BOARD_CELLS: usize = 9;

/// Number of slots in a hand: five fixed cards and five variable ones.
pub const HAND_SLOTS: usize = 10;

/// Number of cards in a deck.
pub const DECK_SIZE: usize = 5;

/// A cell of the board: empty, or a card and its owner.
pub type BoardCell = Option<(Card, Player)>;

/// A slot of a hand: empty, or a card's identifier and the card.
pub type HandSlot = Option<(i32, Card)>;

/// A move: `player` plays the card in hand slot `card_idx` onto cell `placement`.
#[derive(Copy, Clone, Debug, PartialEq, Eq, Structural)]
pub struct GameMove {
    pub player: Player,
    pub card_idx: usize,
    pub placement: usize,
}

/// One snapshot of a match. Cells are numbered row by row:
/// 0 1 2 / 3 4 5 / 6 7 8.
#[derive(Copy, Clone, Debug, PartialEq, Eq)]
pub struct GameState {
    pub board: [BoardCell; 9],
    pub hands: [[HandSlot; 10]; 2],
    pub modifiers: Modifiers,
    pub actual_hand_sizes: [usize; 2],
}

/// The cell `i` of a state.
pub open(crate) spec fn cell_of(s: GameState, i: int) -> BoardCell {
    s.board[i]
}

/// The slot `k` of a player's hand.
pub open(crate) spec fn slot_of(s: GameState, p: Player, k: int) -> HandSlot {
    s.hands[player_index(p)][k]
}

/// The remaining-card counter of a player.
pub open(crate) spec fn hand_size_of(s: GameState, p: Player) -> int {
    s.actual_hand_sizes[player_index(p)] as int
}

/// The suit modifiers of a state.
pub open(crate) spec fn modifiers_of(s: GameState) -> Modifiers {
    s.modifiers
}

/// Number of occupied cells among the first `n`.
pub open spec fn filled_upto(board: [BoardCell; 9], n: int) -> int
    decreases n,
{
    if n <= 0 {
        0
    } else {
        filled_upto(board, n - 1) + if board[n - 1] is Some {
            1int
        } else {
            0
        }
    }
}

/// Whether a cell is occupied by a card owned by `p`.
pub open spec fn owned_by(c: BoardCell, p: Player) -> bool {
    match c {
        Some((_, q)) => q == p,
        None => false,
    }
}

/// Number of cells owned by `p` among the first `n`.
pub open spec fn owned_upto(board: [BoardCell; 9], p: Player, n: int) -> int
    decreases n,
{
    if n <= 0 {
        0
    } else {
        owned_upto(board, p, n - 1) + if owned_by(board[n - 1], p) {
            1int
        } else {
            0
        }
    }
}

/// A player's score: the cells it owns plus its remaining-card counter.
pub open(crate) spec fn score_of(s: GameState, p: Player) -> int {
    owned_upto(s.board, p, 9) + hand_size_of(s, p)
}

/// Whether every cell is occupied.
pub open(crate) spec fn is_over(s: GameState) -> bool {
    forall|i: int| 0 <= i < 9 ==> (#[trigger] s.board[i]) is Some
}

/// The static value of a state for `p`: the score difference while cells
/// remain; once the board is full, 100 for a win, -100 for a loss and -30
/// for a tie.
pub open(crate) spec fn eval_of(s: GameState, p: Player) -> int {
    let mine = score_of(s, p);
    let theirs = score_of(s, other_player(p));
    if is_over(s) {
        if mine > theirs {
            100
        } else if mine == theirs {
            -30
        } else {
            -100
        }
    } else {
        mine - theirs
    }
}

/// The well-formedness of a state: each counter is at most a deck, and
/// each suit delta has moved by at most one per card on the board.
pub open(crate) spec fn state_wf(s: GameState) -> bool {
    &&& s.actual_hand_sizes[0] <= DECK_SIZE
    &&& s.actual_hand_sizes[1] <= DECK_SIZE
    &&& forall|k: int|
        0 <= k < 4 ==> -filled_upto(s.board, 9) <= #[trigger] s.modifiers.deltas[k]
            <= filled_upto(s.board, 9)
}

pub proof fn lemma_filled_bounds(board: [BoardCell; 9], n: int)
    requires
        0 <= n <= 9,
    ensures
        0 <= filled_upto(board, n) <= n,
    decreases n,
{
    if n > 0 {
        lemma_filled_bounds(board, n - 1);
    }
}

pub proof fn lemma_owned_bounds(board: [BoardCell; 9], p: Player, n: int)
    requires
        0 <= n <= 9,
    ensures
        0 <= owned_upto(board, p, n) <= n,
    decreases n,
{
    if n > 0 {
        lemma_owned_bounds(board, p, n - 1);
    }
}

/// A board with an empty cell has fewer than nine cards.
pub proof fn lemma_empty_cell_count(board: [BoardCell; 9], n: int, e: int)
    requires
        0 <= e < n <= 9,
        board[e] is None,
    ensures
        filled_upto(board, n) < n,
    decreases n,
{
    lemma_filled_bounds(board, n - 1);
    if e < n - 1 {
        lemma_empty_cell_count(board, n - 1, e);
    }
}

/// Whether a state has an empty board and hands, zero modifiers and zero
/// counters.
pub open spec fn is_empty_state(s: GameState) -> bool {
    &&& forall|i: int| 0 <= i < 9 ==> (#[trigger] s.board[i]) is None
    &&& forall|p: int, k: int| 0 <= p < 2 && 0 <= k < 10 ==> (#[trigger] s.hands[p][k]) is None
    &&& forall|k: int| 0 <= k < 4 ==> (#[trigger] s.modifiers.deltas[k]) == 0
    &&& s.actual_hand_sizes[0] == 0
    &&& s.actual_hand_sizes[1] == 0
}

impl GameState {
    /// The state at the start of a match: empty board and hands, zero
    /// modifiers and counters.
    pub fn empty() -> (r: GameState)
        ensures
            state_wf(r),
            is_empty_state(r),
    {
        let r = GameState {
            board: [None, None, None, None, None, None, None, None, None],
            hands: [
                [None, None, None, None, None, None, None, None, None, None],
                [None, None, None, None, None, None, None, None, None, None],
            ],
            modifiers: Modifiers::new(),
            actual_hand_sizes: [0, 0],
        };
        proof {
            lemma_filled_bounds(r.board, 9);
        }
        r
    }

    /// The occupant of cell `i`.
    pub fn cell(&self, i: usize) -> (r: BoardCell)
        requires
            i < BOARD_CELLS,
        ensures
            r == cell_of(*self, i as int),
    {
        self.board[i]
    }

    /// The content of slot `k` of a player's hand.
    pub fn hand_slot(&self, p: Player, k: usize) -> (r: HandSlot)
        requires
            k < HAND_SLOTS,
        ensures
            r == slot_of(*self, p, k as int),
    {
        self.hands[p.index()][k]
    }

    /// The suit modifiers.
    pub fn modifiers(&self) -> (r: Modifiers)
        ensures
            r == modifiers_of(*self),
    {
        self.modifiers
    }

    /// A player's remaining-card counter.
    pub fn hand_size(&self, p: Player) -> (r: usize)
        ensures
            r as int == hand_size_of(*self, p),
    {
        self.actual_hand_sizes[p.index()]
    }

    /// Whether every cell is occupied.
    pub fn is_game_over(&self) -> (r: bool)
        ensures
            r == is_over(*self),
    {
        let mut i: usize = 0;
        while i < BOARD_CELLS
            invariant
                0 <= i <= 9,
                forall|j: int| 0 <= j < i ==> (#[trigger] self.board[j]) is Some,
            decreases 9 - i,
        {
            if self.board[i].is_none() {
                return false;
            }
            i += 1;
        }
        true
    }

    /// Each player's score: the cells it owns plus its remaining-card counter.
    pub fn scores(&self) -> (r: [usize; 2])
        requires
            state_wf(*self),
        ensures
            r[0] as int == score_of(*self, Player::Red),
            r[1] as int == score_of(*self, Player::Blue),
            r[0] <= 14,
            r[1] <= 14,
    {
        let mut scores = self.actual_hand_sizes;
        let mut i: usize = 0;
        while i < BOARD_CELLS
            invariant
                0 <= i <= 9,
                state_wf(*self),
                scores[0] as int == self.actual_hand_sizes[0] + owned_upto(self.board, Player::Red, i as int),
                scores[1] as int == self.actual_hand_sizes[1] + owned_upto(self.board, Player::Blue, i as int),
            decreases 9 - i,
        {
            proof {
                lemma_owned_bounds(self.board, Player::Red, i as int);
                lemma_owned_bounds(self.board, Player::Blue, i as int);
            }
            if let Some((_, player)) = self.board[i] {
                let k = player.index();
                scores[k] = scores[k] + 1;
            }
            i += 1;
        }
        proof {
            lemma_owned_bounds(self.board, Player::Red, 9);
            lemma_owned_bounds(self.board, Player::Blue, 9);
        }
        scores
    }

    /// The static value of this state for `player`.
    pub fn eval_position(&self, player: Player) -> (r: i32)
        requires
            state_wf(*self),
        ensures
            r == eval_of(*self, player),
            -100 <= r <= 100,
    {
        let scores = self.scores();
        let mine = scores[player.index()];
        let theirs = scores[player.other().index()];
        if self.is_game_over() {
            if mine > theirs {
                100
            } else if mine == theirs {
                -30
            } else {
                -100
            }
        } else {
            mine as i32 - theirs as i32
        }
    }
}

/// The side of cell `from` on which cell `to` lies, when the two touch.
pub open spec fn adjacent(from: int, to: int) -> Option<Direction> {
    if (from == 0 && to == 1) || (from == 1 && to == 2) || (from == 3 && to == 4) || (from == 4
        && to == 5) || (from == 6 && to == 7) || (from == 7 && to == 8) {
        Some(Direction::East)
    } else if (from == 1 && to == 0) || (from == 2 && to == 1) || (from == 4 && to == 3) || (from
        == 5 && to == 4) || (from == 7 && to == 6) || (from == 8 && to == 7) {
        Some(Direction::West)
    } else if (from == 0 && to == 3) || (from == 1 && to == 4) || (from == 2 && to == 5) || (from
        == 3 && to == 6) || (from == 4 && to == 7) || (from == 5 && to == 8) {
        Some(Direction::South)
    } else if (from == 3 && to == 0) || (from == 4 && to == 1) || (from == 5 && to == 2) || (from
        == 6 && to == 3) || (from == 7 && to == 4) || (from == 8 && to == 5) {
        Some(Direction::North)
    } else {
        None
    }
}

/// Whether the card in cell `i` changes owner when `played` is put on the
/// target cell of `mv`.
pub open(crate) spec fn flips_at(s: GameState, rules: Rules, played: Card, mv: GameMove, i: int) -> bool {
    match adjacent(i, mv.placement as int) {
        Some(d) => match s.board[i] {
            Some((c, _)) => flips(c, played, d, s.modifiers, rules),
            None => false,
        },
        None => false,
    }
}

/// The board once the cells among the first `n` that `played` beats have
/// passed to the mover.
pub open(crate) spec fn board_after_flips(
    s: GameState,
    rules: Rules,
    played: Card,
    mv: GameMove,
    n: int,
) -> [BoardCell; 9]
    decreases n,
{
    if n <= 0 {
        s.board
    } else {
        let b = board_after_flips(s, rules, played, mv, n - 1);
        if flips_at(s, rules, played, mv, n - 1) {
            spec_array_update(b, n - 1, Some((s.board[n - 1].unwrap().0, mv.player)))
        } else {
            b
        }
    }
}

/// The modifiers once `played` is on the board: its suit's delta goes up
/// by one under ascension and down by one under decension.
pub open(crate) spec fn modifiers_after(m: Modifiers, rules: Rules, played: Card) -> Modifiers {
    match card_suit(played) {
        Some(su) => {
            let k = suit_index(su);
            let up = if rules.ascension {
                1int
            } else {
                0
            };
            let down = if rules.decension {
                1int
            } else {
                0
            };
            Modifiers { deltas: spec_array_update(m.deltas, k, (m.deltas[k] + up - down) as i32) }
        },
        None => m,
    }
}

/// The card that a move plays.
pub open(crate) spec fn played_card(s: GameState, mv: GameMove) -> Card {
    s.hands[player_index(mv.player)][mv.card_idx as int].unwrap().1
}

/// Whether a move targets an empty cell with a card that is in hand.
pub open(crate) spec fn valid_move(s: GameState, mv: GameMove) -> bool {
    &&& mv.card_idx < HAND_SLOTS
    &&& mv.placement < BOARD_CELLS
    &&& s.board[mv.placement as int] is None
    &&& s.hands[player_index(mv.player)][mv.card_idx as int] is Some
}

/// The state after a move: the card leaves the hand, the counter drops by
/// one (it stays at zero), the beaten neighbours pass to the mover, the
/// suit modifiers move, and the card lands on its cell.
pub open(crate) spec fn apply_spec(s: GameState, rules: Rules, mv: GameMove) -> GameState {
    let pi = player_index(mv.player);
    let played = played_card(s, mv);
    let size = s.actual_hand_sizes[pi];
    GameState {
        board: spec_array_update(
            board_after_flips(s, rules, played, mv, 9),
            mv.placement as int,
            Some((played, mv.player)),
        ),
        hands: spec_array_update(s.hands, pi, spec_array_update(s.hands[pi], mv.card_idx as int, None)),
        modifiers: modifiers_after(s.modifiers, rules, played),
        actual_hand_sizes: spec_array_update(
            s.actual_hand_sizes,
            pi,
            if size > 0 {
                (size - 1) as usize
            } else {
                0usize
            },
        ),
    }
}

/// Each cell after the flips: a cell that `played` beats keeps its card and
/// passes to the mover; every other cell is unchanged.
pub proof fn lemma_board_after_flips(s: GameState, rules: Rules, played: Card, mv: GameMove, n: int, i: int)
    requires
        0 <= n <= 9,
        0 <= i < 9,
    ensures
        board_after_flips(s, rules, played, mv, n)[i] == if i < n && flips_at(s, rules, played, mv, i) {
            Some((s.board[i].unwrap().0, mv.player))
        } else {
            s.board[i]
        },
    decreases n,
{
    if n > 0 {
        lemma_board_after_flips(s, rules, played, mv, n - 1, i);
    }
}

/// Boards with the same occupied cells have the same count.
pub proof fn lemma_filled_same_shape(a: [BoardCell; 9], b: [BoardCell; 9], n: int)
    requires
        0 <= n <= 9,
        forall|i: int| 0 <= i < 9 ==> (a[i] is Some) == (#[trigger] b[i] is Some),
    ensures
        filled_upto(a, n) == filled_upto(b, n),
    decreases n,
{
    if n > 0 {
        lemma_filled_same_shape(a, b, n - 1);
    }
}

/// Putting a card on an empty cell adds one to the count.
pub proof fn lemma_filled_place(b: [BoardCell; 9], k: int, c: BoardCell, n: int)
    requires
        0 <= n <= 9,
        0 <= k < 9,
        b[k] is None,
        c is Some,
    ensures
        filled_upto(spec_array_update(b, k, c), n) == filled_upto(b, n) + if k < n {
            1int
        } else {
            0
        },
    decreases n,
{
    if n > 0 {
        lemma_filled_place(b, k, c, n - 1);
    }
}

/// A move on a well-formed state gives a well-formed state with one more
/// card on the board.
pub proof fn lemma_apply_wf(s: GameState, rules: Rules, mv: GameMove)
    requires
        state_wf(s),
        valid_move(s, mv),
    ensures
        state_wf(apply_spec(s, rules, mv)),
        filled_upto(apply_spec(s, rules, mv).board, 9) == filled_upto(s.board, 9) + 1,
{
    let played = played_card(s, mv);
    let fb = board_after_flips(s, rules, played, mv, 9);
    let t = apply_spec(s, rules, mv);
    assert forall|i: int| 0 <= i < 9 implies (s.board[i] is Some) == (#[trigger] fb[i] is Some) by {
        lemma_board_after_flips(s, rules, played, mv, 9, i);
    }
    lemma_filled_same_shape(s.board, fb, 9);
    lemma_board_after_flips(s, rules, played, mv, 9, mv.placement as int);
    lemma_filled_place(fb, mv.placement as int, Some((played, mv.player)), 9);
    assert forall|k: int| 0 <= k < 4 implies -filled_upto(t.board, 9) <= #[trigger] t.modifiers.deltas[k]
        <= filled_upto(t.board, 9) by {
        assert(-filled_upto(s.board, 9) <= s.modifiers.deltas[k] <= filled_upto(s.board, 9));
    }
}

/// The hand slots of one cell's moves, slots `0..k` scanned: every occupied
/// slot, or only the first one when `first_only` holds.
pub open(crate) spec fn slot_moves(s: GameState, p: Player, cell: int, first_only: bool, k: int) -> Seq<GameMove>
    decreases k,
{
    if k <= 0 {
        Seq::empty()
    } else {
        let prev = slot_moves(s, p, cell, first_only, k - 1);
        if s.hands[player_index(p)][k - 1] is Some && !(first_only && prev.len() > 0) {
            prev.push(GameMove { player: p, card_idx: (k - 1) as usize, placement: cell as usize })
        } else {
            prev
        }
    }
}

/// The moves of `p` onto cells `0..c`, cells ascending, then slots ascending.
pub open(crate) spec fn moves_upto(s: GameState, p: Player, first_only: bool, c: int) -> Seq<GameMove>
    decreases c,
{
    if c <= 0 {
        Seq::empty()
    } else {
        moves_upto(s, p, first_only, c - 1) + if s.board[c - 1] is None {
            slot_moves(s, p, c - 1, first_only, 10)
        } else {
            Seq::empty()
        }
    }
}

/// All moves of `p` in a state.
pub open(crate) spec fn moves_of(s: GameState, p: Player, first_only: bool) -> Seq<GameMove> {
    moves_upto(s, p, first_only, 9)
}

/// Every move of one cell targets that cell with an occupied slot; under
/// `first_only` there is at most one, in the lowest occupied slot.
pub proof fn lemma_slot_moves(s: GameState, p: Player, cell: int, first_only: bool, k: int)
    requires
        0 <= k <= 10,
        0 <= cell < 9,
    ensures
        forall|j: int|
            0 <= j < slot_moves(s, p, cell, first_only, k).len() ==> {
                let m = #[trigger] slot_moves(s, p, cell, first_only, k)[j];
                &&& m.player == p
                &&& m.placement == cell
                &&& m.card_idx < k
                &&& s.hands[player_index(p)][m.card_idx as int] is Some
            },
        first_only ==> slot_moves(s, p, cell, first_only, k).len() <= 1,
        first_only ==> forall|j: int|
            0 <= j < slot_moves(s, p, cell, first_only, k).len() ==> forall|i: int|
                0 <= i < (#[trigger] slot_moves(s, p, cell, first_only, k)[j]).card_idx
                    ==> s.hands[player_index(p)][i] is None,
        first_only ==> (slot_moves(s, p, cell, first_only, k).len() == 0 <==> forall|i: int|
            0 <= i < k ==> s.hands[player_index(p)][i] is None),
    decreases k,
{
    if k > 0 {
        lemma_slot_moves(s, p, cell, first_only, k - 1);
    }
}

/// Every move of `p` onto cells `0..c` is valid, and under `first_only`
/// no two moves share a cell and each uses the lowest occupied slot.
pub proof fn lemma_moves_upto(s: GameState, p: Player, first_only: bool, c: int)
    requires
        0 <= c <= 9,
    ensures
        forall|j: int|
            0 <= j < moves_upto(s, p, first_only, c).len() ==> {
                let m = #[trigger] moves_upto(s, p, first_only, c)[j];
                &&& m.player == p
                &&& m.placement < c
                &&& valid_move(s, m)
            },
        first_only ==> forall|j: int|
            0 <= j < moves_upto(s, p, first_only, c).len() ==> forall|i: int|
                0 <= i < (#[trigger] moves_upto(s, p, first_only, c)[j]).card_idx
                    ==> s.hands[player_index(p)][i] is None,
        first_only ==> forall|i: int, j: int|
            0 <= i < j < moves_upto(s, p, first_only, c).len() ==> (#[trigger] moves_upto(
                s,
                p,
                first_only,
                c,
            )[i]).placement != (#[trigger] moves_upto(s, p, first_only, c)[j]).placement,
    decreases c,
{
    if c > 0 {
        lemma_moves_upto(s, p, first_only, c - 1);
        lemma_slot_moves(s, p, c - 1, first_only, 10);
        let prev = moves_upto(s, p, first_only, c - 1);
        let tail = if s.board[c - 1] is None {
            slot_moves(s, p, c - 1, first_only, 10)
        } else {
            Seq::empty()
        };
        assert(moves_upto(s, p, first_only, c) == prev + tail);
        assert forall|j: int| 0 <= j < (prev + tail).len() implies {
            let m = #[trigger] (prev + tail)[j];
            &&& m.player == p
            &&& m.placement < c
            &&& valid_move(s, m)
        } by {
            if j >= prev.len() {
                assert((prev + tail)[j] == tail[j - prev.len()]);
            }
        }
        if first_only {
            assert forall|j: int| 0 <= j < (prev + tail).len() implies forall|i: int|
                0 <= i < (#[trigger] (prev + tail)[j]).card_idx ==> s.hands[player_index(p)][i] is None by {
                if j >= prev.len() {
                    assert((prev + tail)[j] == tail[j - prev.len()]);
                }
            }
            assert forall|i: int, j: int| 0 <= i < j < (prev + tail).len() implies (#[trigger] (prev
                + tail)[i]).placement != (#[trigger] (prev + tail)[j]).placement by {
                if j >= prev.len() {
                    assert((prev + tail)[j] == tail[j - prev.len()]);
                    if i >= prev.len() {
                        assert((prev + tail)[i] == tail[i - prev.len()]);
                    }
                }
            }
        }
    }
}

/// A key that orders moves by cell, then by hand slot.
pub open spec fn move_key(m: GameMove) -> int {
    m.placement as int * 10 + m.card_idx as int
}

proof fn lemma_slot_moves_ordered(s: GameState, p: Player, cell: int, first_only: bool, k: int)
    requires
        0 <= k <= 10,
        0 <= cell < 9,
    ensures
        forall|a: int, b: int|
            0 <= a < b < slot_moves(s, p, cell, first_only, k).len() ==> (#[trigger] slot_moves(
                s,
                p,
                cell,
                first_only,
                k,
            )[a]).card_idx < (#[trigger] slot_moves(s, p, cell, first_only, k)[b]).card_idx,
    decreases k,
{
    if k > 0 {
        lemma_slot_moves_ordered(s, p, cell, first_only, k - 1);
        lemma_slot_moves(s, p, cell, first_only, k - 1);
    }
}

/// The moves of a state come in strictly increasing order of cell, then
/// hand slot, so no move appears twice.
pub proof fn lemma_moves_ordered(s: GameState, p: Player, first_only: bool, c: int)
    requires
        0 <= c <= 9,
    ensures
        forall|a: int, b: int|
            0 <= a < b < moves_upto(s, p, first_only, c).len() ==> move_key(
                #[trigger] moves_upto(s, p, first_only, c)[a],
            ) < move_key(#[trigger] moves_upto(s, p, first_only, c)[b]),
    decreases c,
{
    if c > 0 {
        lemma_moves_ordered(s, p, first_only, c - 1);
        lemma_moves_upto(s, p, first_only, c - 1);
        lemma_slot_moves(s, p, c - 1, first_only, 10);
        lemma_slot_moves_ordered(s, p, c - 1, first_only, 10);
        let prev = moves_upto(s, p, first_only, c - 1);
        let tail = if s.board[c - 1] is None {
            slot_moves(s, p, c - 1, first_only, 10)
        } else {
            Seq::empty()
        };
        assert(moves_upto(s, p, first_only, c) == prev + tail);
        assert forall|a: int, b: int| 0 <= a < b < (prev + tail).len() implies move_key(#[trigger] (prev + tail)[a])
            < move_key(#[trigger] (prev + tail)[b]) by {
            if b >= prev.len() {
                assert((prev + tail)[b] == tail[b - prev.len()]);
                if a >= prev.len() {
                    assert((prev + tail)[a] == tail[a - prev.len()]);
                } else {
                    assert(valid_move(s, prev[a]));
                }
            }
        }
    }
}

impl GameState {
    /// The moves of `player`, appended to the cleared `result`: for each
    /// empty cell in ascending order, each occupied hand slot in ascending
    /// order, or only the first one when `first_card_only` holds.
    pub fn get_possible_moves(&self, player: Player, first_card_only: bool, result: &mut Vec<GameMove>)
        ensures
            final(result)@ == moves_of(*self, player, first_card_only),
    {
        result.clear();
        let pi = player.index();
        let mut c: usize = 0;
        while c < BOARD_CELLS
            invariant
                0 <= c <= 9,
                pi as int == player_index(player),
                result@ == moves_upto(*self, player, first_card_only, c as int),
            decreases 9 - c,
        {
            if self.board[c].is_none() {
                let mut k: usize = 0;
                let mut pushed = false;
                while k < HAND_SLOTS
                    invariant
                        0 <= k <= 10,
                        c < 9,
                        self.board[c as int] is None,
                        pi as int == player_index(player),
                        result@ == moves_upto(*self, player, first_card_only, c as int) + slot_moves(
                            *self,
                            player,
                            c as int,
                            first_card_only,
                            k as int,
                        ),
                        pushed == (slot_moves(*self, player, c as int, first_card_only, k as int).len() > 0),
                    decreases 10 - k,
                {
                    if self.hands[pi][k].is_some() && !(first_card_only && pushed) {
                        result.push(GameMove { player, card_idx: k, placement: c });
                        pushed = true;
                    }
                    k += 1;
                }
            }
            c += 1;
        }
    }
}

/// The outcome of a match.
#[derive(Copy, Clone, Debug, PartialEq, Eq, Structural)]
pub enum WinState {
    NotFinished,
    Tie,
    Winner(Player),
}

/// The outcome of a state: unfinished while a cell is empty, else won by
/// the higher score, or tied.
pub open(crate) spec fn win_state_of(s: GameState) -> WinState {
    if !is_over(s) {
        WinState::NotFinished
    } else if score_of(s, Player::Red) > score_of(s, Player::Blue) {
        WinState::Winner(Player::Red)
    } else if score_of(s, Player::Red) == score_of(s, Player::Blue) {
        WinState::Tie
    } else {
        WinState::Winner(Player::Blue)
    }
}

/// A match: its history of states (the last one is current), its rules,
/// and which players are human.
pub struct Game {
    history: Vec<GameState>,
    rules: Rules,
    humans: [bool; 2],
}

/// The history after undoing the last `n` states.
pub open spec fn undone(h: Seq<GameState>, n: int) -> Seq<GameState> {
    h.subrange(0, h.len() - n)
}

impl Game {
    /// The states of the match, oldest first.
    pub closed spec fn history(&self) -> Seq<GameState> {
        self.history@
    }

    /// The rules of the match.
    pub closed spec fn rules_spec(&self) -> Rules {
        self.rules
    }

    /// Whether each player (by index) is human.
    pub closed spec fn humans_spec(&self) -> [bool; 2] {
        self.humans
    }

    /// The current state.
    pub open spec fn current(&self) -> GameState {
        self.history().last()
    }

    /// The well-formedness of a match: at least one state, each well formed.
    pub open spec fn wf(&self) -> bool {
        &&& self.history().len() >= 1
        &&& forall|i: int| 0 <= i < self.history().len() ==> state_wf(#[trigger] self.history()[i])
    }

    /// Whether `p` must play its first card: `p` is human and the order
    /// rule holds.
    pub open spec fn first_only(&self, p: Player) -> bool {
        self.humans_spec()[player_index(p)] && self.rules_spec().order
    }

    /// The moves of `p` in the current state.
    pub open spec fn legal_moves(&self, p: Player) -> Seq<GameMove> {
        moves_of(self.current(), p, self.first_only(p))
    }

    /// A match with one empty state and no optional rule, where `human_color`
    /// is the human side.
    pub fn new(human_color: Player) -> (r: Game)
        ensures
            r.wf(),
            r.history().len() == 1,
            is_empty_state(r.current()),
            r.rules_spec() == no_rules(),
            r.humans_spec()[player_index(human_color)],
            !r.humans_spec()[player_index(other_player(human_color))],
    {
        let mut humans = [false, false];
        humans[human_color.index()] = true;
        let mut history = Vec::new();
        history.push(GameState::empty());
        Game { history, rules: Rules::none(), humans }
    }

    /// The side of cell `from` on which cell `to` lies, when the two touch.
    pub fn adjacency(from: usize, to: usize) -> (r: Option<Direction>)
        ensures
            r == adjacent(from as int, to as int),
    {
        if (from == 0 && to == 1) || (from == 1 && to == 2) || (from == 3 && to == 4) || (from == 4
            && to == 5) || (from == 6 && to == 7) || (from == 7 && to == 8) {
            Some(Direction::East)
        } else if (from == 1 && to == 0) || (from == 2 && to == 1) || (from == 4 && to == 3) || (
        from == 5 && to == 4) || (from == 7 && to == 6) || (from == 8 && to == 7) {
            Some(Direction::West)
        } else if (from == 0 && to == 3) || (from == 1 && to == 4) || (from == 2 && to == 5) || (
        from == 3 && to == 6) || (from == 4 && to == 7) || (from == 5 && to == 8) {
            Some(Direction::South)
        } else if (from == 3 && to == 0) || (from == 4 && to == 1) || (from == 5 && to == 2) || (
        from == 6 && to == 3) || (from == 7 && to == 4) || (from == 8 && to == 5) {
            Some(Direction::North)
        } else {
            None
        }
    }

    /// The current state.
    pub fn current_state(&self) -> (r: &GameState)
        requires
            self.wf(),
        ensures
            *r == self.current(),
    {
        &self.history[self.history.len() - 1]
    }

    /// Number of states in the history.
    pub fn history_len(&self) -> (r: usize)
        ensures
            r == self.history().len(),
    {
        self.history.len()
    }

    /// The rules of the match.
    pub fn rules(&self) -> (r: Rules)
        ensures
            r == self.rules_spec(),
    {
        self.rules
    }

    /// Replaces the rules of the match.
    pub fn set_rules(&mut self, rules: Rules)
        ensures
            final(self).rules_spec() == rules,
            final(self).history() == old(self).history(),
            final(self).humans_spec() == old(self).humans_spec(),
    {
        self.rules = rules;
    }

    /// Whether `p` is human.
    pub fn is_human(&self, p: Player) -> (r: bool)
        ensures
            r == self.humans_spec()[player_index(p)],
    {
        self.humans[p.index()]
    }

    /// Replaces the current state in place, leaving older states alone.
    fn replace_current(&mut self, s: GameState)
        requires
            old(self).wf(),
            state_wf(s),
        ensures
            final(self).wf(),
            final(self).history() == old(self).history().update(old(self).history().len() - 1, s),
            final(self).rules_spec() == old(self).rules_spec(),
            final(self).humans_spec() == old(self).humans_spec(),
    {
        let n = self.history.len();
        self.history[n - 1] = s;
    }

    /// Puts a deck into the first five slots of `player`'s hand, empties
    /// the other five, and sets its counter, in the current state only.
    pub fn set_cards_in_hand(&mut self, player: Player, cards: &[(i32, Card); 5], actual_size: usize)
        requires
            old(self).wf(),
            actual_size <= DECK_SIZE,
        ensures
            final(self).wf(),
            final(self).history().len() == old(self).history().len(),
            forall|i: int| 0 <= i < old(self).history().len() - 1 ==> final(self).history()[i] == old(self).history()[i],
            final(self).current() == with_hand(old(self).current(), player, deck_hand(cards@), actual_size),
            final(self).rules_spec() == old(self).rules_spec(),
            final(self).humans_spec() == old(self).humans_spec(),
    {
        let s = *self.current_state();
        let pi = player.index();
        let mut hand = s.hands[pi];
        let mut i: usize = 0;
        while i < HAND_SLOTS
            invariant
                0 <= i <= 10,
                forall|k: int| 0 <= k < i ==> hand[k] == #[trigger] deck_hand(cards@)[k],
            decreases 10 - i,
        {
            if i < DECK_SIZE {
                hand[i] = Some(cards[i]);
            } else {
                hand[i] = None;
            }
            i += 1;
        }
        let mut hands = s.hands;
        hands[pi] = hand;
        let mut sizes = s.actual_hand_sizes;
        sizes[pi] = actual_size;
        let t = GameState { hands, actual_hand_sizes: sizes, ..s };
        assert(hand =~= deck_hand(cards@));
        assert(t.hands =~= with_hand(s, player, deck_hand(cards@), actual_size).hands);
        assert(t.actual_hand_sizes =~= with_hand(s, player, deck_hand(cards@), actual_size).actual_hand_sizes);
        self.replace_current(t);
    }

    /// Fills `player`'s hand from an NPC: its fixed cards in slots 0 to 4,
    /// its variable cards in slots 5 to 9 (identifier zero: empty slot),
    /// sets the counter to a full deck and takes the NPC's rules. Fails,
    /// changing nothing, with the first identifier that has no card.
    pub fn set_cards_from_npc(&mut self, player: Player, data: &Data, npc: &Npc) -> (r: Result<(), i32>)
        requires
            old(self).wf(),
        ensures
            final(self).wf(),
            final(self).humans_spec() == old(self).humans_spec(),
            r is Ok <==> npc_cards_known(data, npc),
            r is Ok ==> {
                &&& final(self).history().len() == old(self).history().len()
                &&& forall|i: int| 0 <= i < old(self).history().len() - 1 ==> final(self).history()[i] == old(self).history()[i]
                &&& final(self).current() == with_hand(old(self).current(), player, npc_hand(data, npc), DECK_SIZE)
                &&& final(self).rules_spec() == npc.rules
            },
            r matches Err(id) ==> {
                &&& *final(self) == *old(self)
                &&& id != 0
                &&& catalog_card(data, id) is None
            },
    {
        let s = *self.current_state();
        let pi = player.index();
        let mut hand = s.hands[pi];
        let mut i: usize = 0;
        while i < HAND_SLOTS
            invariant
                0 <= i <= 10,
                forall|k: int| 0 <= k < i ==> npc_slot_known(data, npc, k),
                forall|k: int| 0 <= k < i ==> hand[k] == #[trigger] npc_hand(data, npc)[k],
                *self == *old(self),
                self.wf(),
            decreases 10 - i,
        {
            let id = if i < DECK_SIZE {
                npc.fixed_cards[i]
            } else {
                npc.variable_cards[i - DECK_SIZE]
            };
            if id != 0 {
                match data.get_card(id) {
                    Some(c) => {
                        hand[i] = Some((id, *c));
                    },
                    None => {
                        assert(npc_slot_id(npc, i as int) == id);
                        assert(!npc_slot_known(data, npc, i as int));
                        return Err(id);
                    },
                }
            } else {
                hand[i] = None;
            }
            i += 1;
        }
        let mut hands = s.hands;
        hands[pi] = hand;
        let mut sizes = s.actual_hand_sizes;
        sizes[pi] = DECK_SIZE;
        let t = GameState { hands, actual_hand_sizes: sizes, ..s };
        assert(hand =~= npc_hand(data, npc));
        assert(t.hands =~= with_hand(s, player, npc_hand(data, npc), DECK_SIZE).hands);
        assert(t.actual_hand_sizes =~= with_hand(s, player, npc_hand(data, npc), DECK_SIZE).actual_hand_sizes);
        self.replace_current(t);
        self.rules = npc.rules;
        Ok(())
    }

    /// Fills `player`'s hand from the first NPC named `npc_name`.
    pub fn set_cards_for_npc(&mut self, player: Player, data: &Data, npc_name: &String) -> (r: Result<(), SetupError>)
        requires
            old(self).wf(),
        ensures
            final(self).wf(),
            final(self).humans_spec() == old(self).humans_spec(),
            r == Err::<(), SetupError>(SetupError::UnknownNpc) <==> forall|i: int|
                0 <= i < data.npcs_by_name@.len() ==> (#[trigger] data.npcs_by_name@[i]).0@ != npc_name@,
            r is Err ==> *final(self) == *old(self),
            r is Ok <==> exists|i: int|
                first_npc_named(data, npc_name@, i) && npc_cards_known(data, &(#[trigger] data.npcs_by_name@[i]).1),
            r is Ok ==> final(self).history().len() == old(self).history().len(),
            r is Ok ==> forall|i: int|
                0 <= i < old(self).history().len() - 1 ==> final(self).history()[i] == old(self).history()[i],
            r is Ok ==> exists|i: int| {
                &&& first_npc_named(data, npc_name@, i)
                &&& final(self).current() == with_hand(old(self).current(), player, npc_hand(data, &(#[trigger] data.npcs_by_name@[i]).1), DECK_SIZE)
                &&& final(self).rules_spec() == data.npcs_by_name@[i].1.rules
            },
    {
        proof {
            assert forall|i: int, j: int|
                first_npc_named(data, npc_name@, i) && first_npc_named(data, npc_name@, j) implies i == j by {
                if i < j {
                    assert(data.npcs_by_name@[i].0@ != npc_name@);
                } else if j < i {
                    assert(data.npcs_by_name@[j].0@ != npc_name@);
                }
            }
        }
        match data.npc(npc_name) {
            Some(npc) => match self.set_cards_from_npc(player, data, npc) {
                Ok(()) => Ok(()),
                Err(id) => Err(SetupError::UnknownCard(id)),
            },
            None => Err(SetupError::UnknownNpc),
        }
    }

    /// The name of the card in slot `idx` of `player`'s hand, when the slot
    /// holds a card whose name the catalog knows.
    pub fn player_hand_card_name<'a, 'b>(&'a self, player: Player, idx: usize, data: &'b Data) -> (r: Option<&'b String>)
        requires
            self.wf(),
            idx < HAND_SLOTS,
        ensures
            match slot_of(self.current(), player, idx as int) {
                Some((id, _)) => match r {
                    Some(n) => data.card_names@.contains_key(id) && data.card_names@[id] == *n,
                    None => !data.card_names@.contains_key(id),
                },
                None => r is None,
            },
    {
        match self.current_state().hands[player.index()][idx] {
            Some((id, _)) => data.card_name(id),
            None => None,
        }
    }
}

/// Errors of setting up a hand from the catalog.
#[derive(Copy, Clone, Debug, PartialEq, Eq, Structural)]
pub enum SetupError {
    /// No NPC has the name.
    UnknownNpc,
    /// No card has the identifier.
    UnknownCard(i32),
}

/// A state whose hand of `p` is `hand` and whose counter of `p` is `size`.
pub open spec fn with_hand(s: GameState, p: Player, hand: [HandSlot; 10], size: usize) -> GameState {
    GameState {
        hands: spec_array_update(s.hands, player_index(p), hand),
        actual_hand_sizes: spec_array_update(s.actual_hand_sizes, player_index(p), size),
        ..s
    }
}

/// The hand that holds a deck in its first five slots.
pub open spec fn deck_hand(cards: Seq<(i32, Card)>) -> [HandSlot; 10] {
    [
        Some(cards[0]),
        Some(cards[1]),
        Some(cards[2]),
        Some(cards[3]),
        Some(cards[4]),
        None,
        None,
        None,
        None,
        None,
    ]
}

/// The identifier of an NPC's card for hand slot `k`.
pub open spec fn npc_slot_id(npc: &Npc, k: int) -> i32 {
    if k < 5 {
        npc.fixed_cards[k]
    } else {
        npc.variable_cards[k - 5]
    }
}

/// Whether hand slot `k` of an NPC is empty or names a known card.
pub open spec fn npc_slot_known(data: &Data, npc: &Npc, k: int) -> bool {
    npc_slot_id(npc, k) == 0 || catalog_card(data, npc_slot_id(npc, k)) is Some
}

/// Whether every card of an NPC is known.
pub open spec fn npc_cards_known(data: &Data, npc: &Npc) -> bool {
    forall|k: int| 0 <= k < 10 ==> npc_slot_known(data, npc, k)
}

/// The content of hand slot `k` of an NPC.
pub open spec fn npc_slot(data: &Data, npc: &Npc, k: int) -> HandSlot {
    let id = npc_slot_id(npc, k);
    if id == 0 {
        None
    } else {
        Some((id, catalog_card(data, id).unwrap()))
    }
}

/// The hand of an NPC.
pub open spec fn npc_hand(data: &Data, npc: &Npc) -> [HandSlot; 10] {
    [
        npc_slot(data, npc, 0),
        npc_slot(data, npc, 1),
        npc_slot(data, npc, 2),
        npc_slot(data, npc, 3),
        npc_slot(data, npc, 4),
        npc_slot(data, npc, 5),
        npc_slot(data, npc, 6),
        npc_slot(data, npc, 7),
        npc_slot(data, npc, 8),
        npc_slot(data, npc, 9),
    ]
}

impl Game {
    /// The moves of `player` in the current state, into the cleared
    /// `buffer`; a human side under the order rule plays its first card only.
    pub fn get_possible_moves(&self, player: Player, buffer: &mut Vec<GameMove>)
        requires
            self.wf(),
        ensures
            final(buffer)@ == self.legal_moves(player),
    {
        let first_only = self.humans[player.index()] && self.rules.order;
        self.current_state().get_possible_moves(player, first_only, buffer);
    }

    /// The static value of the current state for `player`.
    pub fn evaluate_current_position_for(&self, player: Player) -> (r: i32)
        requires
            self.wf(),
        ensures
            r == eval_of(self.current(), player),
            -100 <= r <= 100,
    {
        self.current_state().eval_position(player)
    }

    /// Plays a move: a new state, derived from the current one, is appended
    /// to the history.
    pub fn apply_move(&mut self, mv: &GameMove)
        requires
            old(self).wf(),
            valid_move(old(self).current(), *mv),
        ensures
            final(self).wf(),
            final(self).history() == old(self).history().push(
                apply_spec(old(self).current(), old(self).rules_spec(), *mv),
            ),
            final(self).rules_spec() == old(self).rules_spec(),
            final(self).humans_spec() == old(self).humans_spec(),
    {
        let s0 = *self.current_state();
        let rules = self.rules;
        let pi = mv.player.index();
        let mut hand = s0.hands[pi];
        let (_, played) = hand[mv.card_idx].unwrap();
        assert(played == played_card(s0, *mv));
        hand[mv.card_idx] = None;
        let mut hands = s0.hands;
        hands[pi] = hand;
        let mut sizes = s0.actual_hand_sizes;
        if sizes[pi] > 0 {
            sizes[pi] = sizes[pi] - 1;
        }
        let mut board = s0.board;
        let mut i: usize = 0;
        while i < BOARD_CELLS
            invariant
                0 <= i <= 9,
                valid_move(s0, *mv),
                board == board_after_flips(s0, rules, played, *mv, i as int),
            decreases 9 - i,
        {
            proof {
                lemma_board_after_flips(s0, rules, played, *mv, i as int, i as int);
            }
            match Game::adjacency(i, mv.placement) {
                Some(d) => match board[i] {
                    Some((c, _)) => {
                        if c.is_flipped_by(&played, d, &s0.modifiers, &rules) {
                            board[i] = Some((c, mv.player));
                        }
                    },
                    None => {},
                },
                None => {},
            }
            assert(board =~= board_after_flips(s0, rules, played, *mv, i + 1));
            i += 1;
        }
        proof {
            lemma_empty_cell_count(s0.board, 9, mv.placement as int);
            lemma_filled_bounds(s0.board, 9);
        }
        let mut modifiers = s0.modifiers;
        if rules.ascension {
            if let Some(su) = played.suit() {
                let k = su.index();
                modifiers.deltas[k] = modifiers.deltas[k] + 1;
            }
        }
        if rules.decension {
            if let Some(su) = played.suit() {
                let k = su.index();
                modifiers.deltas[k] = modifiers.deltas[k] - 1;
            }
        }
        board[mv.placement] = Some((played, mv.player));
        let t = GameState { board, hands, modifiers, actual_hand_sizes: sizes };
        let ghost expected = apply_spec(s0, rules, *mv);
        assert(t.board =~= expected.board);
        assert(hand =~= expected.hands[pi as int]);
        assert(t.hands =~= expected.hands);
        assert(t.modifiers.deltas =~= expected.modifiers.deltas);
        assert(t.actual_hand_sizes =~= expected.actual_hand_sizes);
        proof {
            lemma_apply_wf(s0, rules, *mv);
        }
        self.history.push(t);
    }

    /// Drops the last `n` states of the history.
    pub fn undo_last_moves(&mut self, n: usize)
        requires
            old(self).wf(),
            n < old(self).history().len(),
        ensures
            final(self).wf(),
            final(self).history() == undone(old(self).history(), n as int),
            final(self).rules_spec() == old(self).rules_spec(),
            final(self).humans_spec() == old(self).humans_spec(),
    {
        let mut i: usize = 0;
        while i < n
            invariant
                0 <= i <= n,
                n < old(self).history().len(),
                self.history() == undone(old(self).history(), i as int),
                self.rules_spec() == old(self).rules_spec(),
                self.humans_spec() == old(self).humans_spec(),
                old(self).wf(),
            decreases n - i,
        {
            self.history.pop();
            i += 1;
        }
    }

    /// The outcome of the current state.
    pub fn win_state(&self) -> (r: WinState)
        requires
            self.wf(),
        ensures
            r == win_state_of(self.current()),
    {
        let state = self.current_state();
        if state.is_game_over() {
            let scores = state.scores();
            if scores[0] > scores[1] {
                WinState::Winner(Player::Red)
            } else if scores[0] == scores[1] {
                WinState::Tie
            } else {
                WinState::Winner(Player::Blue)
            }
        } else {
            WinState::NotFinished
        }
    }

    /// A match that holds only the current state, with the same rules and
    /// human sides.
    pub fn truncate_history_and_clone(&self) -> (r: Game)
        requires
            self.wf(),
        ensures
            r.wf(),
            r.history() == seq![self.current()],
            r.rules_spec() == self.rules_spec(),
            r.humans_spec() == self.humans_spec(),
    {
        let mut history = Vec::new();
        history.push(*self.current_state());
        Game { history, rules: self.rules, humans: self.humans }
    }
}

} // verus!
