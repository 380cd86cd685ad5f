//! The bet categories of the table, and what a wager is made of.

use vstd::prelude::*;
use vstd::std_specs::cmp::PartialEqSpec;
use crate::coins::Coin;

verus! {

/// The mathematical meaning of a bet category: the region of the board that it
/// names. The numbers of a line or a corner form a set, so two ways of writing
/// the same region down have one meaning.
pub enum Category {
    Exact(int),
    Red,
    Black,
    Range1to12,
    Range13to24,
    Range25to36,
    Odd,
    Even,
    Range2to1First,
    Range2to1Second,
    Range2to1Third,
    Line(Set<int>),
    Corner(Set<int>),
    Range1to18,
    Range19to36,
}

/// A bet category as a player writes it down.
#[allow(inconsistent_fields)]
#[derive(Clone, Copy, Debug, Eq)]
pub enum GameResult {
    Exact { num: u32 },
    Red,
    Black,
    Range1to12,
    Range13to24,
    Range25to36,
    Odd,
    Even,
    /// 1, 4, 7, 10...
    Range2to1First,
    /// 2, 5, 8, 11...
    Range2to1Second,
    /// 3, 6, 9, 12...
    Range2to1Third,
    Line { nums: (u32, u32) },
    Corner { nums: (u32, u32, u32, u32) },
    Range1to18,
    Range19to36,
}

/// A wager: a stake and the category that it is placed on.
#[derive(Clone, Debug)]
pub struct Bet {
    pub amount: Coin,
    pub result: GameResult,
}

/// The set that holds the two given numbers.
pub open spec fn pair_set(a: int, b: int) -> Set<int> {
    Set::empty().insert(a).insert(b)
}

/// The set that holds the four given numbers.
pub open spec fn quad_set(a: int, b: int, c: int, d: int) -> Set<int> {
    Set::empty().insert(a).insert(b).insert(c).insert(d)
}

impl View for GameResult {
    type V = Category;

    open spec fn view(&self) -> Category {
        match *self {
            GameResult::Exact { num } => Category::Exact(num as int),
            GameResult::Red => Category::Red,
            GameResult::Black => Category::Black,
            GameResult::Range1to12 => Category::Range1to12,
            GameResult::Range13to24 => Category::Range13to24,
            GameResult::Range25to36 => Category::Range25to36,
            GameResult::Odd => Category::Odd,
            GameResult::Even => Category::Even,
            GameResult::Range2to1First => Category::Range2to1First,
            GameResult::Range2to1Second => Category::Range2to1Second,
            GameResult::Range2to1Third => Category::Range2to1Third,
            GameResult::Line { nums } => Category::Line(pair_set(nums.0 as int, nums.1 as int)),
            GameResult::Corner { nums } => Category::Corner(
                quad_set(nums.0 as int, nums.1 as int, nums.2 as int, nums.3 as int),
            ),
            GameResult::Range1to18 => Category::Range1to18,
            GameResult::Range19to36 => Category::Range19to36,
        }
    }
}

/// Whether `x` is one of the two numbers `a`, `b`.
fn among_two(x: u32, a: u32, b: u32) -> (r: bool)
    ensures
        r == pair_set(a as int, b as int).contains(x as int),
{
    x == a || x == b
}

/// Whether `x` is one of the four numbers `a`, `b`, `c`, `d`.
fn among_four(x: u32, a: u32, b: u32, c: u32, d: u32) -> (r: bool)
    ensures
        r == quad_set(a as int, b as int, c as int, d as int).contains(x as int),
{
    x == a || x == b || x == c || x == d
}

impl PartialEq for GameResult {
    /// Two categories are equal when they name the same region of the board:
    /// the order in which a line's or a corner's numbers are written is of no
    /// account.
    fn eq(&self, other: &Self) -> (r: bool) {
        match (*self, *other) {
            (GameResult::Line { nums: a }, GameResult::Line { nums: b }) => {
                let r = among_two(a.0, b.0, b.1) && among_two(a.1, b.0, b.1) && among_two(
                    b.0,
                    a.0,
                    a.1,
                ) && among_two(b.1, a.0, a.1);
                proof {
                    if r {
                        assert(pair_set(a.0 as int, a.1 as int) =~= pair_set(
                            b.0 as int,
                            b.1 as int,
                        ));
                    }
                }
                r
            },
            (GameResult::Corner { nums: a }, GameResult::Corner { nums: b }) => {
                let r = among_four(a.0, b.0, b.1, b.2, b.3) && among_four(a.1, b.0, b.1, b.2, b.3)
                    && among_four(a.2, b.0, b.1, b.2, b.3) && among_four(a.3, b.0, b.1, b.2, b.3)
                    && among_four(b.0, a.0, a.1, a.2, a.3) && among_four(b.1, a.0, a.1, a.2, a.3)
                    && among_four(b.2, a.0, a.1, a.2, a.3) && among_four(b.3, a.0, a.1, a.2, a.3);
                proof {
                    if r {
                        assert(quad_set(a.0 as int, a.1 as int, a.2 as int, a.3 as int)
                            =~= quad_set(b.0 as int, b.1 as int, b.2 as int, b.3 as int));
                    }
                }
                r
            },
            (GameResult::Black, GameResult::Black) => true,
            (GameResult::Red, GameResult::Red) => true,
            (GameResult::Range1to18, GameResult::Range1to18) => true,
            (GameResult::Range19to36, GameResult::Range19to36) => true,
            (GameResult::Range2to1Third, GameResult::Range2to1Third) => true,
            (GameResult::Range2to1Second, GameResult::Range2to1Second) => true,
            (GameResult::Range2to1First, GameResult::Range2to1First) => true,
            (GameResult::Odd, GameResult::Odd) => true,
            (GameResult::Even, GameResult::Even) => true,
            (GameResult::Range1to12, GameResult::Range1to12) => true,
            (GameResult::Range13to24, GameResult::Range13to24) => true,
            (GameResult::Range25to36, GameResult::Range25to36) => true,
            (GameResult::Exact { num: n1 }, GameResult::Exact { num: n2 }) => n1 == n2,
            _ => false,
        }
    }
}

impl vstd::std_specs::cmp::PartialEqSpecImpl for GameResult {
    open spec fn obeys_eq_spec() -> bool {
        true
    }

    open spec fn eq_spec(&self, other: &Self) -> bool {
        self@ == other@
    }
}

impl GameResult {
    /// Whether the category is consistent in itself: a single number lies on
    /// the wheel, and the numbers of a line or a corner are pairwise distinct.
    pub open spec fn well_formed(self) -> bool {
        match self {
            GameResult::Exact { num } => num < 37,
            GameResult::Line { nums } => nums.0 != nums.1,
            GameResult::Corner { nums } => nums.0 != nums.1 && nums.0 != nums.2 && nums.0 != nums.3
                && nums.1 != nums.2 && nums.1 != nums.3 && nums.2 != nums.3,
            _ => true,
        }
    }

    /// The factor by which a winning stake on this category is multiplied.
    pub open spec fn multiplier(self) -> nat {
        match self {
            GameResult::Exact { .. } => 36,
            GameResult::Line { .. } => 18,
            GameResult::Corner { .. } => 9,
            GameResult::Range1to12
            | GameResult::Range13to24
            | GameResult::Range25to36
            | GameResult::Range2to1First
            | GameResult::Range2to1Second
            | GameResult::Range2to1Third => 3,
            _ => 2,
        }
    }

    pub fn validate(&self) -> (r: bool)
        ensures
            r == self.well_formed(),
    {
        match *self {
            GameResult::Exact { num } => num < 37u32,
            GameResult::Line { nums: (n1, n2) } => n1 != n2,
            GameResult::Corner { nums: (n1, n2, n3, n4) } => {
                n1 != n2 && n1 != n3 && n1 != n4 && n2 != n3 && n2 != n4 && n3 != n4
            },
            _ => true,
        }
    }

    pub fn payout(&self) -> (r: u8)
        ensures
            r == self.multiplier(),
    {
        match *self {
            GameResult::Exact { .. } => 36,
            GameResult::Red => 2,
            GameResult::Black => 2,
            GameResult::Range1to12 => 3,
            GameResult::Range13to24 => 3,
            GameResult::Range25to36 => 3,
            GameResult::Odd => 2,
            GameResult::Even => 2,
            GameResult::Range2to1First => 3,
            GameResult::Range2to1Second => 3,
            GameResult::Range2to1Third => 3,
            GameResult::Line { .. } => 18,
            GameResult::Corner { .. } => 9,
            GameResult::Range1to18 => 2,
            GameResult::Range19to36 => 2,
        }
    }
}

/// Equality of categories is symmetric.
pub proof fn lemma_eq_symmetric(x: GameResult, y: GameResult)
    ensures
        x.eq_spec(&y) == y.eq_spec(&x),
{
}

/// A line is the same line with its two numbers written the other way round.
pub proof fn lemma_line_order(a: u32, b: u32)
    ensures
        (GameResult::Line { nums: (a, b) }).eq_spec(&(GameResult::Line { nums: (b, a) })),
{
    assert(pair_set(a as int, b as int) =~= pair_set(b as int, a as int));
}

/// A corner is the same corner with its four numbers written in any other
/// order: `p` rearranges the places of the four numbers `t`.
pub proof fn lemma_corner_order(t: Seq<u32>, p: Seq<int>)
    requires
        t.len() == 4,
        p.len() == 4,
        forall|i: int| 0 <= i < 4 ==> 0 <= #[trigger] p[i] < 4,
        forall|i: int, j: int| 0 <= i < j < 4 ==> p[i] != p[j],
    ensures
        (GameResult::Corner { nums: (t[p[0]], t[p[1]], t[p[2]], t[p[3]]) }).eq_spec(
            &(GameResult::Corner { nums: (t[0], t[1], t[2], t[3]) }),
        ),
{
    let a = quad_set(t[p[0]] as int, t[p[1]] as int, t[p[2]] as int, t[p[3]] as int);
    let b = quad_set(t[0] as int, t[1] as int, t[2] as int, t[3] as int);
    assert(0 <= p[0] < 4 && 0 <= p[1] < 4 && 0 <= p[2] < 4 && 0 <= p[3] < 4);
    assert(p[0] != p[1] && p[0] != p[2] && p[0] != p[3] && p[1] != p[2] && p[1] != p[3] && p[2]
        != p[3]);
    assert(a =~= b);
}

/// Two lines are equal exactly when each number of either is a number of the
/// other, and two corners likewise.
pub proof fn lemma_region_equality(x: GameResult, y: GameResult)
    ensures
        match (x, y) {
            (GameResult::Line { nums: a }, GameResult::Line { nums: b }) => x.eq_spec(&y) <==> {
                &&& (a.0 == b.0 || a.0 == b.1)
                &&& (a.1 == b.0 || a.1 == b.1)
                &&& (b.0 == a.0 || b.0 == a.1)
                &&& (b.1 == a.0 || b.1 == a.1)
            },
            (GameResult::Corner { nums: a }, GameResult::Corner { nums: b }) => x.eq_spec(&y) <==> {
                &&& (a.0 == b.0 || a.0 == b.1 || a.0 == b.2 || a.0 == b.3)
                &&& (a.1 == b.0 || a.1 == b.1 || a.1 == b.2 || a.1 == b.3)
                &&& (a.2 == b.0 || a.2 == b.1 || a.2 == b.2 || a.2 == b.3)
                &&& (a.3 == b.0 || a.3 == b.1 || a.3 == b.2 || a.3 == b.3)
                &&& (b.0 == a.0 || b.0 == a.1 || b.0 == a.2 || b.0 == a.3)
                &&& (b.1 == a.0 || b.1 == a.1 || b.1 == a.2 || b.1 == a.3)
                &&& (b.2 == a.0 || b.2 == a.1 || b.2 == a.2 || b.2 == a.3)
                &&& (b.3 == a.0 || b.3 == a.1 || b.3 == a.2 || b.3 == a.3)
            },
            _ => true,
        },
{
    match (x, y) {
        (GameResult::Line { nums: a }, GameResult::Line { nums: b }) => {
            let s = pair_set(a.0 as int, a.1 as int);
            let t = pair_set(b.0 as int, b.1 as int);
            assert(s.contains(a.0 as int) && s.contains(a.1 as int));
            assert(t.contains(b.0 as int) && t.contains(b.1 as int));
            if (a.0 == b.0 || a.0 == b.1) && (a.1 == b.0 || a.1 == b.1) && (b.0 == a.0 || b.0
                == a.1) && (b.1 == a.0 || b.1 == a.1) {
                assert(s =~= t);
            }
        },
        (GameResult::Corner { nums: a }, GameResult::Corner { nums: b }) => {
            let s = quad_set(a.0 as int, a.1 as int, a.2 as int, a.3 as int);
            let t = quad_set(b.0 as int, b.1 as int, b.2 as int, b.3 as int);
            assert(s.contains(a.0 as int) && s.contains(a.1 as int) && s.contains(a.2 as int)
                && s.contains(a.3 as int));
            assert(t.contains(b.0 as int) && t.contains(b.1 as int) && t.contains(b.2 as int)
                && t.contains(b.3 as int));
            if x.eq_spec(&y) {
                assert(s == t);
            } else {
                if (a.0 == b.0 || a.0 == b.1 || a.0 == b.2 || a.0 == b.3) && (a.1 == b.0 || a.1
                    == b.1 || a.1 == b.2 || a.1 == b.3) && (a.2 == b.0 || a.2 == b.1 || a.2 == b.2
                    || a.2 == b.3) && (a.3 == b.0 || a.3 == b.1 || a.3 == b.2 || a.3 == b.3) && (b.0
                    == a.0 || b.0 == a.1 || b.0 == a.2 || b.0 == a.3) && (b.1 == a.0 || b.1 == a.1
                    || b.1 == a.2 || b.1 == a.3) && (b.2 == a.0 || b.2 == a.1 || b.2 == a.2 || b.2
                    == a.3) && (b.3 == a.0 || b.3 == a.1 || b.3 == a.2 || b.3 == a.3) {
                    assert(s =~= t);
                }
            }
        },
        _ => {},
    }
}

/// The four squares of which a number can be a member, named by where the
/// square lies as seen from the number.
#[derive(Clone, Copy, Debug, PartialEq, Eq, Structural)]
pub enum CornerType {
    BottomLeft,
    BottomRight,
    TopLeft,
    TopRight,
}

/// The four neighbours that a number can form a line with.
#[derive(Clone, Copy, Debug, PartialEq, Eq, Structural)]
pub enum LineType {
    Over,
    Under,
    Left,
    Right,
}

} // verus!
