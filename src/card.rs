//! Players, directions, suits, suit modifiers, cards and optional rules.
use vstd::prelude::*;

verus! {

/// The largest rank printed on a card; it is shown as "A".
pub const MAX_VALUE: i32 = 10;

/// One of the two sides of a match.
#[derive(Copy, Clone, Debug, PartialEq, Eq, Structural, Hash)]
pub enum Player {
    Red,
    Blue,
}

/// Index of a player into per-player arrays.
pub open spec fn player_index(p: Player) -> int {
    match p {
        Player::Red => 0,
        Player::Blue => 1,
    }
}

/// The opponent of a player.
pub open spec fn other_player(p: Player) -> Player {
    match p {
        Player::Red => Player::Blue,
        Player::Blue => Player::Red,
    }
}

impl Player {
    /// The opponent of this player.
    pub fn other(&self) -> (r: Player)
        ensures
            r == other_player(*self),
    {
        match *self {
            Player::Blue => Player::Red,
            Player::Red => Player::Blue,
        }
    }

    /// Index of this player into per-player arrays: 0 for Red, 1 for Blue.
    pub fn index(&self) -> (r: usize)
        ensures
            r as int == player_index(*self),
    {
        match *self {
            Player::Red => 0,
            Player::Blue => 1,
        }
    }

    /// Name of the player, as shown to a user.
    pub fn name(&self) -> (r: &'static str)
        ensures
            r@ == (match *self {
                Player::Red => "Red"@,
                Player::Blue => "Blue"@,
            }),
    {
        proof {
            reveal_strlit("Red");
            reveal_strlit("Blue");
        }
        match *self {
            Player::Red => "Red",
            Player::Blue => "Blue",
        }
    }
}

/// A side of a card.
#[derive(Copy, Clone, Debug, PartialEq, Eq, Structural)]
pub enum Direction {
    North,
    South,
    West,
    East,
}

/// Index of a direction into a card's ranks.
pub open spec fn direction_index(d: Direction) -> int {
    match d {
        Direction::North => 0,
        Direction::South => 1,
        Direction::West => 2,
        Direction::East => 3,
    }
}

/// The side facing the other way.
pub open spec fn opposite_of(d: Direction) -> Direction {
    match d {
        Direction::East => Direction::West,
        Direction::North => Direction::South,
        Direction::South => Direction::North,
        Direction::West => Direction::East,
    }
}

impl Direction {
    /// The side facing the other way.
    pub fn opposite(&self) -> (r: Direction)
        ensures
            r == opposite_of(*self),
    {
        match *self {
            Direction::East => Direction::West,
            Direction::North => Direction::South,
            Direction::South => Direction::North,
            Direction::West => Direction::East,
        }
    }

    /// Index of this direction into a card's ranks.
    pub fn index(&self) -> (r: usize)
        ensures
            r as int == direction_index(*self),
    {
        match *self {
            Direction::North => 0,
            Direction::South => 1,
            Direction::West => 2,
            Direction::East => 3,
        }
    }
}

/// The kind of a card, which the ascension and decension rules track.
#[derive(Copy, Clone, Debug, PartialEq, Eq, Structural)]
pub enum Suit {
    Primal,
    Beastman,
    Scion,
    Garlean,
}

/// Index of a suit into the suit modifiers.
pub open spec fn suit_index(s: Suit) -> int {
    match s {
        Suit::Primal => 0,
        Suit::Beastman => 1,
        Suit::Scion => 2,
        Suit::Garlean => 3,
    }
}

impl Suit {
    /// Index of this suit into the suit modifiers.
    pub fn index(&self) -> (r: usize)
        ensures
            r as int == suit_index(*self),
    {
        match *self {
            Suit::Primal => 0,
            Suit::Beastman => 1,
            Suit::Scion => 2,
            Suit::Garlean => 3,
        }
    }

    /// The one-letter label of the suit.
    pub fn label(&self) -> (r: &'static str)
        ensures
            r@ == (match *self {
                Suit::Primal => "P"@,
                Suit::Beastman => "B"@,
                Suit::Scion => "S"@,
                Suit::Garlean => "G"@,
            }),
    {
        proof {
            reveal_strlit("P");
            reveal_strlit("B");
            reveal_strlit("S");
            reveal_strlit("G");
        }
        match *self {
            Suit::Primal => "P",
            Suit::Beastman => "B",
            Suit::Scion => "S",
            Suit::Garlean => "G",
        }
    }
}

/// The per-suit rank deltas of a match.
#[derive(Copy, Clone, Debug, PartialEq, Eq)]
pub struct Modifiers {
    pub deltas: [i32; 4],
}

/// The delta of a suit, clamped into `[0, MAX_VALUE]`.
pub open spec fn clamped_delta(m: Modifiers, s: Suit) -> int {
    let d = m.deltas[suit_index(s)] as int;
    if d > MAX_VALUE {
        MAX_VALUE as int
    } else if d < 0 {
        0
    } else {
        d
    }
}

impl Modifiers {
    /// Modifiers with every delta at zero.
    pub fn new() -> (r: Modifiers)
        ensures
            forall|i: int| 0 <= i < 4 ==> r.deltas[i] == 0,
    {
        Modifiers { deltas: [0, 0, 0, 0] }
    }

    /// The delta of a suit, as stored (not clamped).
    pub fn get(&self, s: Suit) -> (r: i32)
        ensures
            r == self.deltas[suit_index(s)],
    {
        self.deltas[s.index()]
    }
}

impl Default for Modifiers {
    fn default() -> (r: Modifiers)
        ensures
            forall|i: int| 0 <= i < 4 ==> r.deltas[i] == 0,
    {
        Modifiers::new()
    }
}

/// A card: four ranks, each from 1 to `MAX_VALUE`, and an optional suit.
#[derive(Copy, Clone, Debug, PartialEq, Eq)]
pub struct Card {
    pub(crate) values: [i32; 4],
    pub(crate) suit: Option<Suit>,
}

/// The suit of a card.
pub open(crate) spec fn card_suit(c: Card) -> Option<Suit> {
    c.suit
}

/// The base rank of a card on one side.
pub open(crate) spec fn base_rank(c: Card, d: Direction) -> int {
    c.values[direction_index(d)] as int
}

/// The rank of a card on one side once its suit's clamped delta is added.
pub open(crate) spec fn effective_rank(c: Card, m: Modifiers, d: Direction) -> int {
    base_rank(c, d) + match c.suit {
        Some(s) => clamped_delta(m, s),
        None => 0,
    }
}

/// Whether a card, on the `d` side of which `other` has just been played,
/// changes owner: `other` beats it when its facing rank is greater (lower
/// under `reverse`), and a 1 beats an ace (the other way round under
/// `reverse`) when `fallen_ace` is active.
pub open(crate) spec fn flips(this: Card, other: Card, d: Direction, m: Modifiers, rules: Rules) -> bool {
    let mine = effective_rank(this, m, d);
    let theirs = effective_rank(other, m, opposite_of(d));
    if !rules.reverse {
        (rules.fallen_ace && mine == MAX_VALUE && theirs == 1) || theirs > mine
    } else {
        (rules.fallen_ace && mine == 1 && theirs == MAX_VALUE) || theirs < mine
    }
}

impl Card {
    /// Every card has each rank in `[1, MAX_VALUE]`.
    #[verifier::type_invariant]
    spec fn wf(self) -> bool {
        forall|i: int| 0 <= i < 4 ==> 1 <= #[trigger] self.values[i] <= MAX_VALUE
    }

    /// The card with ranks north, south, west and east, and a suit.
    pub fn new(n: i32, s: i32, w: i32, e: i32, suit: Option<Suit>) -> (r: Card)
        requires
            1 <= n <= MAX_VALUE,
            1 <= s <= MAX_VALUE,
            1 <= w <= MAX_VALUE,
            1 <= e <= MAX_VALUE,
        ensures
            card_suit(r) == suit,
            base_rank(r, Direction::North) == n,
            base_rank(r, Direction::South) == s,
            base_rank(r, Direction::West) == w,
            base_rank(r, Direction::East) == e,
    {
        Card { values: [n, s, w, e], suit }
    }

    /// The suit of the card.
    pub fn suit(&self) -> (r: Option<Suit>)
        ensures
            r == card_suit(*self),
    {
        self.suit
    }

    /// The rank printed on one side.
    pub fn base_value(&self, direction: Direction) -> (r: i32)
        ensures
            r == base_rank(*self, direction),
    {
        self.values[direction.index()]
    }

    /// Whether this card changes owner when `other` is played on its
    /// `direction` side.
    pub fn is_flipped_by(
        &self,
        other: &Card,
        direction: Direction,
        modifiers: &Modifiers,
        rules: &Rules,
    ) -> (r: bool)
        ensures
            r == flips(*self, *other, direction, *modifiers, *rules),
    {
        let my_value = self.get_modified_value(modifiers, direction);
        let other_value = other.get_modified_value(modifiers, direction.opposite());
        if !rules.reverse {
            if rules.fallen_ace && my_value == MAX_VALUE && other_value == 1 {
                true
            } else {
                other_value > my_value
            }
        } else {
            if rules.fallen_ace && my_value == 1 && other_value == MAX_VALUE {
                true
            } else {
                other_value < my_value
            }
        }
    }

    /// The effective rank on one side as shown: "A" from `MAX_VALUE` up.
    pub fn get_modified_value_display(&self, modifiers: &Modifiers, direction: Direction) -> (r: String)
        ensures
            r@ == rank_text(effective_rank(*self, *modifiers, direction)),
    {
        let val = self.get_modified_value(modifiers, direction);
        if val >= MAX_VALUE {
            proof {
                reveal_strlit("A");
            }
            "A".to_owned()
        } else {
            digit_text(val).to_owned()
        }
    }

    /// The effective rank on one side: the base rank plus the suit's delta
    /// clamped into `[0, MAX_VALUE]`; the sum itself is not clamped.
    pub fn get_modified_value(&self, modifiers: &Modifiers, direction: Direction) -> (r: i32)
        ensures
            r == effective_rank(*self, *modifiers, direction),
            1 <= r <= 2 * MAX_VALUE,
    {
        proof {
            use_type_invariant(self);
        }
        let delta: i32 = match self.suit {
            Some(s) => modifiers.get(s),
            None => 0,
        };
        let clamped: i32 = if delta > MAX_VALUE {
            MAX_VALUE
        } else if delta < 0 {
            0
        } else {
            delta
        };
        self.values[direction.index()] + clamped
    }
}

/// The decimal digit `d`.
pub open spec fn digit_char(d: nat) -> char {
    seq!['0', '1', '2', '3', '4', '5', '6', '7', '8', '9'][d as int]
}

/// The decimal digits of a natural number.
pub open spec fn digits_of(n: nat) -> Seq<char>
    decreases n,
{
    if n < 10 {
        seq![digit_char(n)]
    } else {
        digits_of(n / 10) + seq![digit_char(n % 10)]
    }
}

/// The decimal text of an integer, with a minus sign when negative.
pub open spec fn decimal_text(v: int) -> Seq<char> {
    if v < 0 {
        seq!['-'] + digits_of((-v) as nat)
    } else {
        digits_of(v as nat)
    }
}

/// How a rank is shown: "A" from `MAX_VALUE` up, else its decimal text.
pub open spec fn rank_text(v: int) -> Seq<char> {
    if v >= MAX_VALUE {
        seq!['A']
    } else {
        decimal_text(v)
    }
}

/// The text of a rank from 1 to 9: its single digit.
fn digit_text(v: i32) -> (r: &'static str)
    requires
        1 <= v <= 9,
    ensures
        r@ == decimal_text(v as int),
{
    proof {
        reveal_strlit("1");
        reveal_strlit("2");
        reveal_strlit("3");
        reveal_strlit("4");
        reveal_strlit("5");
        reveal_strlit("6");
        reveal_strlit("7");
        reveal_strlit("8");
        reveal_strlit("9");
        assert(decimal_text(v as int) == seq![digit_char(v as nat)]);
    }
    match v {
        1 => {
            assert("1"@ =~= seq!['1']);
            "1"
        },
        2 => {
            assert("2"@ =~= seq!['2']);
            "2"
        },
        3 => {
            assert("3"@ =~= seq!['3']);
            "3"
        },
        4 => {
            assert("4"@ =~= seq!['4']);
            "4"
        },
        5 => {
            assert("5"@ =~= seq!['5']);
            "5"
        },
        6 => {
            assert("6"@ =~= seq!['6']);
            "6"
        },
        7 => {
            assert("7"@ =~= seq!['7']);
            "7"
        },
        8 => {
            assert("8"@ =~= seq!['8']);
            "8"
        },
        _ => {
            assert("9"@ =~= seq!['9']);
            "9"
        },
    }
}

/// The optional rules of a match.
#[derive(Copy, Clone, Debug, PartialEq, Eq, Structural, Default)]
pub struct Rules {
    /// Cards whose touching sides equal those of the played card flip (never applied).
    pub same: bool,
    /// Cards whose touching sides sum alike flip (never applied).
    pub plus: bool,
    /// A human side plays its cards in the order of its deck.
    pub order: bool,
    /// Cards are played in a random order (never applied).
    pub chaos: bool,
    /// Lower ranks beat higher ones.
    pub reverse: bool,
    /// A 1 beats an ace (an ace beats a 1 under `reverse`).
    pub fallen_ace: bool,
    /// Each card played raises the ranks of its suit.
    pub ascension: bool,
    /// Each card played lowers the ranks of its suit.
    pub decension: bool,
    /// One card of each deck is exchanged before the match (never applied).
    pub swap: bool,
}

/// The rules after reading one rule code of the data tables.
pub open spec fn rules_with_code(r: Rules, code: i32) -> Rules {
    if code == 4 {
        Rules { same: true, ..r }
    } else if code == 6 {
        Rules { plus: true, ..r }
    } else if code == 8 {
        Rules { order: true, ..r }
    } else if code == 9 {
        Rules { chaos: true, ..r }
    } else if code == 10 {
        Rules { reverse: true, ..r }
    } else if code == 11 {
        Rules { fallen_ace: true, ..r }
    } else if code == 12 {
        Rules { ascension: true, ..r }
    } else if code == 13 {
        Rules { decension: true, ..r }
    } else if code == 14 {
        Rules { swap: true, ..r }
    } else {
        r
    }
}

/// Whether a rule code is known: the codes above, and those of rules that
/// do not concern the engine (0, 1, 2, 3, 5, 7, 15).
pub open spec fn known_rule_code(code: i32) -> bool {
    0 <= code <= 15
}

/// Rules with every option off.
pub open spec fn no_rules() -> Rules {
    Rules {
        same: false,
        plus: false,
        order: false,
        chaos: false,
        reverse: false,
        fallen_ace: false,
        ascension: false,
        decension: false,
        swap: false,
    }
}

impl Rules {
    /// Rules with every option off.
    pub fn none() -> (r: Rules)
        ensures
            r == no_rules(),
    {
        Rules {
            same: false,
            plus: false,
            order: false,
            chaos: false,
            reverse: false,
            fallen_ace: false,
            ascension: false,
            decension: false,
            swap: false,
        }
    }

    /// Turns on the rule of a rule code. Returns false, leaving the rules as
    /// they are, when the code is unknown.
    pub fn add_rule_from_csv(&mut self, rule: i32) -> (r: bool)
        ensures
            *final(self) == rules_with_code(*old(self), rule),
            r == known_rule_code(rule),
    {
        match rule {
            4 => self.same = true,
            6 => self.plus = true,
            8 => self.order = true,
            9 => self.chaos = true,
            10 => self.reverse = true,
            11 => self.fallen_ace = true,
            12 => self.ascension = true,
            13 => self.decension = true,
            14 => self.swap = true,
            _ => {},
        }
        0 <= rule && rule <= 15
    }
}

} // verus!
