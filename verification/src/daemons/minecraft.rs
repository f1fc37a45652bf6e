//! The minecraft colour daemon's decision logic: mapping a member's role
//! colours to a server team. The polling of the game server and the role
//! lookups are the host's side-effecting work.

use vstd::prelude::*;

verus! {

/// The recognised role colours, in team priority order: when a member's
/// roles carry several, the earliest listed wins.
#[derive(Clone, Copy, PartialEq, Eq, Structural, Debug)]
pub enum Color {
    Red,
    Cyan,
    Orange,
    Black,
    Yellow,
    Blue,
    Green,
    Purple,
}

/// The colour a role's RGB value stands for, if it is one of the
/// recognised ones.
pub open spec fn spec_from_rgb(rgb: (u8, u8, u8)) -> Option<Color> {
    if rgb == (0xffu8, 0x4cu8, 0x4cu8) {
        Some(Color::Red)
    } else if rgb == (0x00u8, 0xf4u8, 0xffu8) {
        Some(Color::Cyan)
    } else if rgb == (0xffu8, 0x7au8, 0x00u8) {
        Some(Color::Orange)
    } else if rgb == (0xf1u8, 0xc4u8, 0x0fu8) {
        Some(Color::Yellow)
    } else if rgb == (0x34u8, 0x98u8, 0xdbu8) {
        Some(Color::Blue)
    } else if rgb == (0x2eu8, 0xccu8, 0x71u8) {
        Some(Color::Green)
    } else if rgb == (0x84u8, 0x3du8, 0xa4u8) {
        Some(Color::Purple)
    } else if rgb == (0x01u8, 0x01u8, 0x01u8) {
        Some(Color::Black)
    } else {
        None
    }
}

/// A colour's team priority: lower wins.
pub open spec fn spec_precedence(c: Color) -> int {
    match c {
        Color::Red => 0,
        Color::Cyan => 1,
        Color::Orange => 2,
        Color::Black => 3,
        Color::Yellow => 4,
        Color::Blue => 5,
        Color::Green => 6,
        Color::Purple => 7,
    }
}

impl Color {
    /// The colour a role's RGB value stands for, if recognised.
    pub fn from_rgb(rgb: (u8, u8, u8)) -> (r: Option<Color>)
        ensures
            r == spec_from_rgb(rgb),
    {
        match rgb {
            (0xff, 0x4c, 0x4c) => Some(Self::Red),
            (0x00, 0xf4, 0xff) => Some(Self::Cyan),
            (0xff, 0x7a, 0x00) => Some(Self::Orange),
            (0xf1, 0xc4, 0x0f) => Some(Self::Yellow),
            (0x34, 0x98, 0xdb) => Some(Self::Blue),
            (0x2e, 0xcc, 0x71) => Some(Self::Green),
            (0x84, 0x3d, 0xa4) => Some(Self::Purple),
            (0x01, 0x01, 0x01) => Some(Self::Black),
            _ => None,
        }
    }

    /// This colour's team priority: lower wins.
    pub fn precedence(self) -> (p: u8)
        ensures
            p == spec_precedence(self),
    {
        match self {
            Color::Red => 0,
            Color::Cyan => 1,
            Color::Orange => 2,
            Color::Black => 3,
            Color::Yellow => 4,
            Color::Blue => 5,
            Color::Green => 6,
            Color::Purple => 7,
        }
    }

    /// The server team this colour assigns a player to.
    pub fn team_name(self) -> (r: &'static str)
        ensures
            r@ == spec_team_name(self),
    {
        match self {
            Color::Red => "sudoers",
            Color::Cyan => "cool_kids",
            Color::Orange => "cesium",
            Color::Yellow => "4ano",
            Color::Blue => "3ano",
            Color::Green => "2ano",
            Color::Purple => "1ano",
            Color::Black => "blacklist",
        }
    }
}

/// The team name each colour maps to.
pub open spec fn spec_team_name(c: Color) -> Seq<char> {
    match c {
        Color::Red => "sudoers"@,
        Color::Cyan => "cool_kids"@,
        Color::Orange => "cesium"@,
        Color::Yellow => "4ano"@,
        Color::Blue => "3ano"@,
        Color::Green => "2ano"@,
        Color::Purple => "1ano"@,
        Color::Black => "blacklist"@,
    }
}

/// The team for a member whose roles carry the given colours: the
/// highest-priority recognised colour, or none if no colour is recognised
/// (the player then leaves its team).
pub fn choose_team(colors: &Vec<(u8, u8, u8)>) -> (r: Option<Color>)
    ensures
        match r {
            None => forall|i: int|
                0 <= i < colors@.len() ==> #[trigger] spec_from_rgb(colors@[i]) is None,
            Some(c) => (exists|i: int|
                0 <= i < colors@.len() && #[trigger] spec_from_rgb(colors@[i]) == Some(c))
                && (forall|i: int|
                    0 <= i < colors@.len() && #[trigger] spec_from_rgb(colors@[i]) is Some
                        ==> spec_precedence(c) <= spec_precedence(
                            spec_from_rgb(colors@[i])->Some_0,
                        )),
        },
{
    let mut best: Option<Color> = None;
    let n = colors.len();
    let mut i: usize = 0;
    while i < n
        invariant
            i <= n,
            n == colors@.len(),
            match best {
                None => forall|j: int|
                    0 <= j < i ==> #[trigger] spec_from_rgb(colors@[j]) is None,
                Some(c) => (exists|j: int|
                    0 <= j < i && #[trigger] spec_from_rgb(colors@[j]) == Some(c)) && (forall|
                    j: int,
                |
                    0 <= j < i && #[trigger] spec_from_rgb(colors@[j]) is Some
                        ==> spec_precedence(c) <= spec_precedence(
                            spec_from_rgb(colors@[j])->Some_0,
                        )),
            },
        decreases n - i,
    {
        match Color::from_rgb(colors[i]) {
            None => {},
            Some(c) => {
                match best {
                    None => {
                        best = Some(c);
                    },
                    Some(b) => {
                        if c.precedence() < b.precedence() {
                            best = Some(c);
                        }
                    },
                }
            },
        }
        i = i + 1;
    }
    best
}

} // verus!
