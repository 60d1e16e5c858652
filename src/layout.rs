//! Text layout of a card under its name.
use vstd::prelude::*;
use vstd::string::StringSliceAdditionalSpecFns;

verus! {

/// Width of a card's face, in columns.
pub const CARD_WIDTH: usize = 5;

/// The columns left and right of a card's face so that the face, with a
/// space on each side, stands centred under a name of `width` columns:
/// the padding is `width + 2 - CARD_WIDTH` (at least zero), split in two
/// with the odd column on the right.
pub open spec fn padding_of(width: nat) -> (nat, nat) {
    let p: nat = if width + 2 >= CARD_WIDTH {
        (width + 2 - CARD_WIDTH) as nat
    } else {
        0
    };
    ((p / 2) as nat, (p - p / 2) as nat)
}

/// The padding of a card's face under `name` (measured in bytes).
pub fn get_padding(name: &str) -> (r: (usize, usize))
    requires
        name.spec_bytes().len() + 2 <= usize::MAX,
    ensures
        (r.0 as nat, r.1 as nat) == padding_of(name.spec_bytes().len()),
{
    let padding = (name.len() + 2).saturating_sub(CARD_WIDTH);
    (padding / 2, if padding % 2 == 0 {
        padding / 2
    } else {
        (padding / 2) + 1
    })
}

/// The name of a cell: a compass point, or "Center".
pub open spec fn placement_name_of(cell: int) -> Seq<char> {
    if cell == 0 {
        "NW"@
    } else if cell == 1 {
        "N"@
    } else if cell == 2 {
        "NE"@
    } else if cell == 3 {
        "W"@
    } else if cell == 4 {
        "Center"@
    } else if cell == 5 {
        "E"@
    } else if cell == 6 {
        "SW"@
    } else if cell == 7 {
        "S"@
    } else {
        "SE"@
    }
}

/// The name of cell `cell` of the board.
pub fn placement_name(cell: usize) -> (r: &'static str)
    requires
        cell < 9,
    ensures
        r@ == placement_name_of(cell as int),
{
    proof {
        reveal_strlit("NW");
        reveal_strlit("N");
        reveal_strlit("NE");
        reveal_strlit("W");
        reveal_strlit("Center");
        reveal_strlit("E");
        reveal_strlit("SW");
        reveal_strlit("S");
        reveal_strlit("SE");
    }
    match cell {
        0 => "NW",
        1 => "N",
        2 => "NE",
        3 => "W",
        4 => "Center",
        5 => "E",
        6 => "SW",
        7 => "S",
        _ => "SE",
    }
}

} // verus!
