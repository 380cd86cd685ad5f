//! The geometry of the board and the expansion of a drawn number into every
//! category that wins on it.
//!
//! The numbers 1 to 36 lie in twelve rows of three: row by row, so that the
//! neighbours of `n` within its row are `n - 1` and `n + 1`, and its neighbours
//! within its column are `n - 3` and `n + 3`. Zero lies apart and has no
//! neighbours.

use vstd::prelude::*;
use crate::types::{pair_set, quad_set, Category, CornerType, GameResult, LineType};

verus! {

/// The eighteen red numbers.
pub open spec fn is_red(n: int) -> bool {
    n == 1 || n == 3 || n == 5 || n == 7 || n == 9 || n == 12 || n == 14 || n == 16 || n == 18
        || n == 19 || n == 21 || n == 23 || n == 25 || n == 27 || n == 30 || n == 32 || n == 34
        || n == 36
}

/// `s` is the pair of `a` and its right-hand neighbour in the same row.
pub open spec fn is_row_pair(s: Set<int>, a: int) -> bool {
    1 <= a <= 35 && a % 3 != 0 && s == pair_set(a, a + 1)
}

/// `s` is the pair of `a` and the number below it in the same column.
pub open spec fn is_column_pair(s: Set<int>, a: int) -> bool {
    1 <= a <= 33 && s == pair_set(a, a + 3)
}

/// `s` is the square of four numbers whose smallest is `k`.
pub open spec fn is_square(s: Set<int>, k: int) -> bool {
    1 <= k <= 32 && k % 3 != 0 && s == quad_set(k, k + 1, k + 3, k + 4)
}

/// `s` is a pair of numbers that lie side by side on the board, in a row or in
/// a column.
pub open spec fn adjacent_pair(s: Set<int>) -> bool {
    ||| exists|a: int| #[trigger] is_row_pair(s, a)
    ||| exists|a: int| #[trigger] is_column_pair(s, a)
}

/// `s` is a square of four numbers on the board.
pub open spec fn board_square(s: Set<int>) -> bool {
    exists|k: int| #[trigger] is_square(s, k)
}

/// Whether a bet on the region `c` wins when `n` is drawn.
pub open spec fn covers(c: Category, n: int) -> bool {
    match c {
        Category::Exact(k) => k == n,
        Category::Red => is_red(n),
        Category::Black => 1 <= n <= 36 && !is_red(n),
        Category::Odd => 1 <= n <= 36 && n % 2 == 1,
        Category::Even => 1 <= n <= 36 && n % 2 == 0,
        Category::Range1to12 => 1 <= n <= 12,
        Category::Range13to24 => 13 <= n <= 24,
        Category::Range25to36 => 25 <= n <= 36,
        Category::Range1to18 => 1 <= n <= 18,
        Category::Range19to36 => 19 <= n <= 36,
        Category::Range2to1First => 1 <= n <= 36 && n % 3 == 1,
        Category::Range2to1Second => 1 <= n <= 36 && n % 3 == 2,
        Category::Range2to1Third => 1 <= n <= 36 && n % 3 == 0,
        Category::Line(s) => s.contains(n) && adjacent_pair(s),
        Category::Corner(s) => s.contains(n) && board_square(s),
    }
}

/// Whether the square that lies in the given direction from `n` is on the
/// board.
pub open spec fn corner_defined(n: int, corner: CornerType) -> bool {
    &&& 1 <= n <= 36
    &&& match corner {
        CornerType::BottomLeft => n % 3 != 1 && n <= 33,
        CornerType::BottomRight => n % 3 != 0 && n <= 33,
        CornerType::TopLeft => n % 3 != 1 && n >= 4,
        CornerType::TopRight => n % 3 != 0 && n >= 4,
    }
}

/// The smallest number of the square that lies in the given direction from `n`.
pub open spec fn corner_anchor(n: int, corner: CornerType) -> int {
    match corner {
        CornerType::BottomLeft => n - 1,
        CornerType::BottomRight => n,
        CornerType::TopLeft => n - 4,
        CornerType::TopRight => n - 3,
    }
}

/// The square that lies in the given direction from `n`, as it is written
/// down: `n` first.
pub open spec fn corner_at(n: u32, corner: CornerType) -> GameResult {
    match corner {
        CornerType::BottomLeft => GameResult::Corner {
            nums: (n, (n + 3) as u32, (n - 1) as u32, (n + 2) as u32),
        },
        CornerType::BottomRight => GameResult::Corner {
            nums: (n, (n + 3) as u32, (n + 1) as u32, (n + 4) as u32),
        },
        CornerType::TopLeft => GameResult::Corner {
            nums: (n, (n - 1) as u32, (n - 3) as u32, (n - 4) as u32),
        },
        CornerType::TopRight => GameResult::Corner {
            nums: (n, (n + 1) as u32, (n - 3) as u32, (n - 2) as u32),
        },
    }
}

/// Whether `n` has a neighbour of the given kind on the board.
pub open spec fn line_defined(n: int, line: LineType) -> bool {
    &&& 1 <= n <= 36
    &&& match line {
        LineType::Over => n >= 4,
        LineType::Under => n <= 33,
        LineType::Left => n % 3 != 0,
        LineType::Right => n % 3 != 1,
    }
}

/// The neighbour of `n` of the given kind.
pub open spec fn line_neighbour(n: int, line: LineType) -> int {
    match line {
        LineType::Over => n - 3,
        LineType::Under => n + 3,
        LineType::Left => n + 1,
        LineType::Right => n - 1,
    }
}

/// The square of `winner` and its three neighbours in the given direction.
pub fn corner_result(winner: u32, corner: CornerType) -> (r: GameResult)
    requires
        corner_defined(winner as int, corner),
    ensures
        r == corner_at(winner, corner),
        r@ == corner_region(winner as int, corner),
        r.well_formed(),
        covers(r@, winner as int),
{
    let r = match corner {
        CornerType::BottomLeft => GameResult::Corner {
            nums: (winner, winner + 3, winner - 1, winner + 2),
        },
        CornerType::BottomRight => GameResult::Corner {
            nums: (winner, winner + 3, winner + 1, winner + 4),
        },
        CornerType::TopLeft => GameResult::Corner {
            nums: (winner, winner - 1, winner - 3, winner - 4),
        },
        CornerType::TopRight => GameResult::Corner {
            nums: (winner, winner + 1, winner - 3, winner - 2),
        },
    };
    proof {
        let k = corner_anchor(winner as int, corner);
        assert(r@->Corner_0 =~= quad_set(k, k + 1, k + 3, k + 4));
        lemma_corner_covers(winner as int, corner);
    }
    r
}

/// The pair of `winner` and its neighbour of the given kind.
pub fn line_result(winner: u32, line: LineType) -> (r: GameResult)
    requires
        line_defined(winner as int, line),
    ensures
        r == (GameResult::Line { nums: (winner, line_neighbour(winner as int, line) as u32) }),
        r@ == line_region(winner as int, line),
        r.well_formed(),
        covers(r@, winner as int),
{
    let r = match line {
        LineType::Over => GameResult::Line { nums: (winner, winner - 3) },
        LineType::Under => GameResult::Line { nums: (winner, winner + 3) },
        LineType::Left => GameResult::Line { nums: (winner, winner + 1) },
        LineType::Right => GameResult::Line { nums: (winner, winner - 1) },
    };
    proof {
        lemma_line_covers(winner as int, line);
    }
    r
}

/// Whether some entry of `s` names the region `c`.
pub open spec fn listed(s: Seq<GameResult>, c: Category) -> bool {
    exists|i: int| 0 <= i < s.len() && (#[trigger] s[i])@ == c
}

/// No two entries of `s` name the same region.
pub open spec fn distinct(s: Seq<GameResult>) -> bool {
    forall|i: int, j: int| 0 <= i < j < s.len() ==> (#[trigger] s[i])@ != (#[trigger] s[j])@
}

/// Every entry of `s` is consistent in itself.
pub open spec fn all_well_formed(s: Seq<GameResult>) -> bool {
    forall|i: int| 0 <= i < s.len() ==> (#[trigger] s[i]).well_formed()
}

/// The column of `n`.
pub open spec fn column_of(n: int) -> Category {
    if n % 3 == 0 {
        Category::Range2to1Third
    } else if n % 3 == 1 {
        Category::Range2to1First
    } else {
        Category::Range2to1Second
    }
}

/// The categories that the rules of the table hand to a drawn number, one by
/// one: the number itself and, unless it is zero, its parity, half, column,
/// dozen and colour, and each square and neighbour that the board has for it.
pub open spec fn awarded(c: Category, n: int) -> bool {
    ||| c == Category::Exact(n)
    ||| 1 <= n <= 36 && {
        ||| c == (if n % 2 == 0 { Category::Even } else { Category::Odd })
        ||| c == (if n >= 19 { Category::Range19to36 } else { Category::Range1to18 })
        ||| c == column_of(n)
        ||| c == (if n <= 12 {
            Category::Range1to12
        } else if n <= 24 {
            Category::Range13to24
        } else {
            Category::Range25to36
        })
        ||| c == (if is_red(n) { Category::Red } else { Category::Black })
        ||| exists|k: CornerType| corner_defined(n, k) && c == #[trigger] corner_region(n, k)
        ||| exists|k: LineType| line_defined(n, k) && c == #[trigger] line_region(n, k)
    }
}

/// The region of the square that lies in the given direction from `n`.
pub open spec fn corner_region(n: int, corner: CornerType) -> Category {
    let k = corner_anchor(n, corner);
    Category::Corner(quad_set(k, k + 1, k + 3, k + 4))
}

/// The region of `n` and its neighbour of the given kind.
pub open spec fn line_region(n: int, line: LineType) -> Category {
    Category::Line(pair_set(n, line_neighbour(n, line)))
}

/// One where the condition holds, zero where it does not.
pub open spec fn one_if(b: bool) -> nat {
    if b {
        1
    } else {
        0
    }
}

/// The number of squares of the board that `n` is part of.
pub open spec fn corner_count(n: int) -> nat {
    one_if(corner_defined(n, CornerType::BottomLeft)) + one_if(
        corner_defined(n, CornerType::BottomRight),
    ) + one_if(corner_defined(n, CornerType::TopLeft)) + one_if(
        corner_defined(n, CornerType::TopRight),
    )
}

/// The number of neighbours that `n` has in its row.
pub open spec fn row_neighbours(n: int) -> nat {
    one_if(line_defined(n, LineType::Left)) + one_if(line_defined(n, LineType::Right))
}

/// The number of neighbours that `n` has in its column.
pub open spec fn column_neighbours(n: int) -> nat {
    one_if(line_defined(n, LineType::Over)) + one_if(line_defined(n, LineType::Under))
}

/// The number of categories that win on `n`: one for zero; for any other
/// number six, which are the number, its parity, half, column, dozen and
/// colour, and one more for each neighbour and each square.
pub open spec fn award_count(n: int) -> nat {
    if n == 0 {
        1
    } else {
        6 + corner_count(n) + row_neighbours(n) + column_neighbours(n)
    }
}

/// Two pairs are the same region exactly when each number of either is a
/// number of the other.
proof fn lemma_pair_members(a: int, b: int, c: int, d: int)
    ensures
        (pair_set(a, b) == pair_set(c, d)) <==> ((a == c || a == d) && (b == c || b == d) && (c == a
            || c == b) && (d == a || d == b)),
{
    if (a == c || a == d) && (b == c || b == d) && (c == a || c == b) && (d == a || d == b) {
        assert(pair_set(a, b) =~= pair_set(c, d));
    }
    assert(pair_set(a, b).contains(a) && pair_set(a, b).contains(b));
    assert(pair_set(c, d).contains(c) && pair_set(c, d).contains(d));
}

/// Two squares of the board with different smallest numbers are different
/// regions.
proof fn lemma_square_anchor(j: int, k: int)
    ensures
        (quad_set(j, j + 1, j + 3, j + 4) == quad_set(k, k + 1, k + 3, k + 4)) <==> j == k,
{
    let s = quad_set(j, j + 1, j + 3, j + 4);
    let t = quad_set(k, k + 1, k + 3, k + 4);
    assert(s.contains(j) && s.contains(j + 4));
    assert(t.contains(k) && t.contains(k + 4));
}

/// The square that lies in a direction from `n` in which the board has one
/// covers `n`.
pub proof fn lemma_corner_covers(n: int, corner: CornerType)
    requires
        corner_defined(n, corner),
    ensures
        covers(corner_region(n, corner), n),
{
    let a = corner_anchor(n, corner);
    let s = quad_set(a, a + 1, a + 3, a + 4);
    assert(is_square(s, a));
    assert(board_square(s));
    assert(s.contains(n));
}

/// The pair of `n` and a neighbour that the board has for it covers `n`.
pub proof fn lemma_line_covers(n: int, line: LineType)
    requires
        line_defined(n, line),
    ensures
        covers(line_region(n, line), n),
{
    let s = pair_set(n, line_neighbour(n, line));
    assert(s.contains(n));
    match line {
        LineType::Over => {
            assert(s =~= pair_set(n - 3, n));
            assert(is_column_pair(s, n - 3));
        },
        LineType::Under => {
            assert(is_column_pair(s, n));
        },
        LineType::Left => {
            assert(is_row_pair(s, n));
        },
        LineType::Right => {
            assert(s =~= pair_set(n - 1, n));
            assert(is_row_pair(s, n - 1));
        },
    }
    assert(adjacent_pair(s));
}

/// A pair that covers `n` is the pair of `n` and one of its neighbours.
proof fn lemma_covering_line(s: Set<int>, n: int)
    requires
        covers(Category::Line(s), n),
    ensures
        exists|k: LineType| line_defined(n, k) && Category::Line(s) == #[trigger] line_region(n, k),
{
    let c = Category::Line(s);
    if exists|a: int| #[trigger] is_row_pair(s, a) {
        let a = choose|a: int| #[trigger] is_row_pair(s, a);
        if n == a {
            assert(line_defined(n, LineType::Left) && c == line_region(n, LineType::Left));
        } else {
            assert(n == a + 1);
            assert(s =~= pair_set(n, n - 1));
            assert(line_defined(n, LineType::Right) && c == line_region(n, LineType::Right));
        }
    } else {
        let a = choose|a: int| #[trigger] is_column_pair(s, a);
        if n == a {
            assert(line_defined(n, LineType::Under) && c == line_region(n, LineType::Under));
        } else {
            assert(n == a + 3);
            assert(s =~= pair_set(n, n - 3));
            assert(line_defined(n, LineType::Over) && c == line_region(n, LineType::Over));
        }
    }
}

/// A square that covers `n` is the square that lies in one of the four
/// directions from `n`.
proof fn lemma_covering_corner(s: Set<int>, n: int)
    requires
        covers(Category::Corner(s), n),
    ensures
        exists|k: CornerType|
            corner_defined(n, k) && Category::Corner(s) == #[trigger] corner_region(n, k),
{
    let c = Category::Corner(s);
    let k = choose|k: int| #[trigger] is_square(s, k);
    if n == k {
        assert(corner_defined(n, CornerType::BottomRight) && c == corner_region(
            n,
            CornerType::BottomRight,
        ));
    } else if n == k + 1 {
        assert(corner_defined(n, CornerType::BottomLeft) && c == corner_region(
            n,
            CornerType::BottomLeft,
        ));
    } else if n == k + 3 {
        assert(corner_defined(n, CornerType::TopRight) && c == corner_region(
            n,
            CornerType::TopRight,
        ));
    } else {
        assert(n == k + 4);
        assert(corner_defined(n, CornerType::TopLeft) && c == corner_region(
            n,
            CornerType::TopLeft,
        ));
    }
}

/// The rules of the table hand out exactly the categories that win: a region
/// is awarded to `n` if and only if it covers `n`.
pub proof fn lemma_awarded_iff_covers(c: Category, n: int)
    requires
        0 <= n <= 36,
    ensures
        awarded(c, n) <==> covers(c, n),
{
    if awarded(c, n) && 1 <= n <= 36 {
        if exists|k: CornerType| corner_defined(n, k) && c == #[trigger] corner_region(n, k) {
            let k = choose|k: CornerType|
                corner_defined(n, k) && c == #[trigger] corner_region(n, k);
            lemma_corner_covers(n, k);
        }
        if exists|k: LineType| line_defined(n, k) && c == #[trigger] line_region(n, k) {
            let k = choose|k: LineType| line_defined(n, k) && c == #[trigger] line_region(n, k);
            lemma_line_covers(n, k);
        }
    }
    if covers(c, n) {
        match c {
            Category::Line(s) => {
                lemma_covering_line(s, n);
            },
            Category::Corner(s) => {
                lemma_covering_corner(s, n);
            },
            _ => {},
        }
    }
}

/// `s` lists the regions of `seen`, each once and in a consistent form.
#[verifier::opaque]
spec fn lists(s: Seq<GameResult>, seen: Set<Category>) -> bool {
    &&& forall|c: Category| listed(s, c) <==> seen.contains(c)
    &&& distinct(s)
    &&& all_well_formed(s)
}

/// A list of winning categories in the making, together with the regions
/// that it names so far.
struct Winners {
    list: Vec<GameResult>,
    seen: Ghost<Set<Category>>,
}

impl Winners {
    /// The list names the regions of `seen`, each once.
    spec fn wf(&self) -> bool {
        lists(self.list@, self.seen@)
    }

    /// The empty list.
    fn new() -> (w: Winners)
        ensures
            w.wf(),
            w.list@.len() == 0,
            w.seen@ == Set::<Category>::empty(),
    {
        proof {
            reveal(lists);
        }
        Winners { list: Vec::new(), seen: Ghost(Set::empty()) }
    }

    /// Appends one category whose region the list does not name yet.
    fn emit(&mut self, g: GameResult)
        requires
            old(self).wf(),
            !old(self).seen@.contains(g@),
            g.well_formed(),
        ensures
            final(self).wf(),
            final(self).list@ == old(self).list@.push(g),
            final(self).seen@ == old(self).seen@.insert(g@),
    {
        let ghost before = self.list@;
        let ghost seen = self.seen@;
        self.list.push(g);
        self.seen = Ghost(seen.insert(g@));
        proof {
            reveal(lists);
            let after = self.list@;
            assert forall|c: Category| listed(after, c) <==> seen.insert(g@).contains(c) by {
                if listed(before, c) {
                    let i = choose|i: int| 0 <= i < before.len() && (#[trigger] before[i])@ == c;
                    assert(after[i]@ == c);
                }
                if c == g@ {
                    assert(after[before.len() as int]@ == c);
                }
                if listed(after, c) {
                    let i = choose|i: int| 0 <= i < after.len() && (#[trigger] after[i])@ == c;
                    if i < before.len() {
                        assert(before[i]@ == c);
                    }
                }
            }
            assert forall|i: int, j: int| 0 <= i < j < after.len() implies (#[trigger] after[i])@
                != (#[trigger] after[j])@ by {
                if j == before.len() {
                    assert(before[i]@ == after[i]@);
                    assert(listed(before, before[i]@));
                } else {
                    assert(before[i] == after[i] && before[j] == after[j]);
                }
            }
            assert forall|i: int| 0 <= i < after.len() implies (#[trigger] after[i]).well_formed() by {
                if i < before.len() {
                    assert(before[i] == after[i]);
                }
            }
        }
    }

    /// Appends the column of `result`, each square that `result` is part of,
    /// and its pairs with the neighbours in its row.
    fn emit_row(&mut self, result: u32)
        requires
            1 <= result <= 36,
            old(self).wf(),
            old(self).list@.len() >= 1,
            forall|c: Category|
                old(self).seen@.contains(c) ==> !(c is Corner) && !(c is Line) && c != column_of(
                    result as int,
                ),
        ensures
            final(self).wf(),
            final(self).list@.len() == old(self).list@.len() + 1 + corner_count(result as int)
                + row_neighbours(result as int),
            final(self).list@[0] == old(self).list@[0],
            forall|c: Category|
                final(self).seen@.contains(c) <==> {
                    ||| old(self).seen@.contains(c)
                    ||| c == column_of(result as int)
                    ||| exists|k: CornerType|
                        corner_defined(result as int, k) && c == #[trigger] corner_region(
                            result as int,
                            k,
                        )
                    ||| line_defined(result as int, LineType::Left) && c == line_region(
                        result as int,
                        LineType::Left,
                    )
                    ||| line_defined(result as int, LineType::Right) && c == line_region(
                        result as int,
                        LineType::Right,
                    )
                },
    {
        let ghost n = result as int;
        proof {
            lemma_regions_differ(n);
        }
        if result % 3 == 0 {
            self.emit(GameResult::Range2to1Third);
            if result != 36 {
                self.emit(corner_result(result, CornerType::BottomLeft));
            }
            if result != 3 {
                self.emit(corner_result(result, CornerType::TopLeft));
            }
            self.emit(line_result(result, LineType::Right));
        } else if result % 3 == 1 {
            self.emit(GameResult::Range2to1First);
            if result != 34 {
                self.emit(corner_result(result, CornerType::BottomRight));
            }
            if result != 1 {
                self.emit(corner_result(result, CornerType::TopRight));
            }
            self.emit(line_result(result, LineType::Left));
        } else {
            self.emit(GameResult::Range2to1Second);
            if result != 2 {
                self.emit(corner_result(result, CornerType::TopRight));
                self.emit(corner_result(result, CornerType::TopLeft));
            }
            if result != 35 {
                self.emit(corner_result(result, CornerType::BottomLeft));
                self.emit(corner_result(result, CornerType::BottomRight));
            }
            self.emit(line_result(result, LineType::Right));
            self.emit(line_result(result, LineType::Left));
        }
        proof {
            assert forall|c: Category|
                self.seen@.contains(c) <==> {
                    ||| old(self).seen@.contains(c)
                    ||| c == column_of(n)
                    ||| exists|k: CornerType|
                        corner_defined(n, k) && c == #[trigger] corner_region(n, k)
                    ||| line_defined(n, LineType::Left) && c == line_region(n, LineType::Left)
                    ||| line_defined(n, LineType::Right) && c == line_region(n, LineType::Right)
                } by {
                lemma_awarded_cases(c, n);
            }
        }
    }

    /// Appends the pairs of `result` with its neighbours in its column.
    fn emit_column(&mut self, result: u32)
        requires
            1 <= result <= 36,
            old(self).wf(),
            old(self).list@.len() >= 1,
            forall|c: Category|
                old(self).seen@.contains(c) ==> c != line_region(result as int, LineType::Over)
                    && c != line_region(result as int, LineType::Under),
        ensures
            final(self).wf(),
            final(self).list@.len() == old(self).list@.len() + column_neighbours(result as int),
            final(self).list@[0] == old(self).list@[0],
            forall|c: Category|
                final(self).seen@.contains(c) <==> {
                    ||| old(self).seen@.contains(c)
                    ||| line_defined(result as int, LineType::Over) && c == line_region(
                        result as int,
                        LineType::Over,
                    )
                    ||| line_defined(result as int, LineType::Under) && c == line_region(
                        result as int,
                        LineType::Under,
                    )
                },
    {
        if result <= 3 {
            self.emit(line_result(result, LineType::Under));
        } else if result >= 34 {
            self.emit(line_result(result, LineType::Over));
        } else {
            proof {
                lemma_regions_differ(result as int);
            }
            self.emit(line_result(result, LineType::Over));
            self.emit(line_result(result, LineType::Under));
        }
    }
}

/// Every category that wins when `result` is drawn, each once.
///
/// Zero wins for itself alone. Any other number wins for itself, for its
/// parity, half, column, dozen and colour, for each pair that it forms with a
/// neighbour on the board and for each square of the board that it is part of.
pub fn return_winning_numbers(result: u32) -> (winners: Vec<GameResult>)
    requires
        result <= 36,
    ensures
        forall|c: Category|
            #![trigger listed(winners@, c)]
            #![trigger covers(c, result as int)]
            listed(winners@, c) <==> covers(c, result as int),
        distinct(winners@),
        all_well_formed(winners@),
        winners@.len() == award_count(result as int),
        winners@[0] == (GameResult::Exact { num: result }),
{
    let ghost n = result as int;
    proof {
        lemma_regions_differ(n);
    }
    let mut winners = Winners::new();

    // exact number
    winners.emit(GameResult::Exact { num: result });

    if result == 0 {
        proof {
            reveal(lists);
            assert forall|c: Category| listed(winners.list@, c) <==> covers(c, n) by {
                lemma_awarded_iff_covers(c, n);
            }
        }
        return winners.list;
    }
    // odd or even

    if result % 2 == 0 {
        winners.emit(GameResult::Even);
    } else {
        winners.emit(GameResult::Odd);
    }

    // upper or lower
    if result >= 19 {
        winners.emit(GameResult::Range19to36);
    } else {
        winners.emit(GameResult::Range1to18);
    }

    // the column, the squares and the neighbours in the row
    winners.emit_row(result);

    // the neighbours in the column
    winners.emit_column(result);

    // the dozen
    if result <= 12 {
        winners.emit(GameResult::Range1to12);
    } else if result <= 24 {
        winners.emit(GameResult::Range13to24);
    } else {
        winners.emit(GameResult::Range25to36);
    }

    // red or black
    if is_red_number(result) {
        winners.emit(GameResult::Red);
    } else {
        winners.emit(GameResult::Black);
    }

    proof {
        reveal(lists);
        assert forall|c: Category| listed(winners.list@, c) <==> covers(c, n) by {
            lemma_awarded_iff_covers(c, n);
            lemma_awarded_cases(c, n);
        }
    }
    winners.list
}

/// Whether `n` is one of the eighteen red numbers.
pub fn is_red_number(n: u32) -> (r: bool)
    ensures
        r == is_red(n as int),
{
    match n {
        1 | 3 | 5 | 7 | 9 | 12 | 14 | 16 | 18 | 19 | 21 | 23 | 25 | 27 | 30 | 32 | 34 | 36 => true,
        _ => false,
    }
}

/// The squares and the pairs of one number are different regions.
proof fn lemma_regions_differ(n: int)
    ensures
        forall|j: CornerType, k: CornerType|
            j != k ==> #[trigger] corner_region(n, j) != #[trigger] corner_region(n, k),
        forall|j: LineType, k: LineType|
            j != k ==> #[trigger] line_region(n, j) != #[trigger] line_region(n, k),
{
    assert forall|j: CornerType, k: CornerType| j != k implies #[trigger] corner_region(n, j)
        != #[trigger] corner_region(n, k) by {
        lemma_square_anchor(corner_anchor(n, j), corner_anchor(n, k));
    }
    assert forall|j: LineType, k: LineType| j != k implies #[trigger] line_region(n, j)
        != #[trigger] line_region(n, k) by {
        lemma_pair_members(n, line_neighbour(n, j), n, line_neighbour(n, k));
    }
}

/// What `awarded` says of squares and pairs, direction by direction.
proof fn lemma_awarded_cases(c: Category, n: int)
    ensures
        (exists|k: CornerType| corner_defined(n, k) && c == #[trigger] corner_region(n, k)) <==> {
            ||| corner_defined(n, CornerType::BottomLeft) && c == corner_region(
                n,
                CornerType::BottomLeft,
            )
            ||| corner_defined(n, CornerType::BottomRight) && c == corner_region(
                n,
                CornerType::BottomRight,
            )
            ||| corner_defined(n, CornerType::TopLeft) && c == corner_region(n, CornerType::TopLeft)
            ||| corner_defined(n, CornerType::TopRight) && c == corner_region(
                n,
                CornerType::TopRight,
            )
        },
        (exists|k: LineType| line_defined(n, k) && c == #[trigger] line_region(n, k)) <==> {
            ||| line_defined(n, LineType::Over) && c == line_region(n, LineType::Over)
            ||| line_defined(n, LineType::Under) && c == line_region(n, LineType::Under)
            ||| line_defined(n, LineType::Left) && c == line_region(n, LineType::Left)
            ||| line_defined(n, LineType::Right) && c == line_region(n, LineType::Right)
        },
{
}

/// A number of the board wins for six categories of its own, for two to four
/// pairs and for up to four squares; the numbers of the first and the last
/// row and of the two outer columns have fewer than the others.
pub proof fn lemma_award_count_bounds(n: int)
    requires
        1 <= n <= 36,
    ensures
        2 <= row_neighbours(n) + column_neighbours(n) <= 4,
        0 <= corner_count(n) <= 4,
        8 <= award_count(n) <= 14,
        (4 <= n <= 33 && n % 3 == 2) ==> award_count(n) == 14,
{
}

/// A drawn number is covered by one single number and no other: itself.
pub proof fn lemma_one_exact(n: int, k: int)
    ensures
        covers(Category::Exact(k), n) <==> k == n,
{
}

/// A number of the board lies in one of the three dozens and in no other.
pub proof fn lemma_one_dozen(n: int)
    requires
        1 <= n <= 36,
    ensures
        covers(Category::Range1to12, n) || covers(Category::Range13to24, n) || covers(
            Category::Range25to36,
            n,
        ),
        !(covers(Category::Range1to12, n) && covers(Category::Range13to24, n)),
        !(covers(Category::Range1to12, n) && covers(Category::Range25to36, n)),
        !(covers(Category::Range13to24, n) && covers(Category::Range25to36, n)),
{
}

/// Zero is covered by itself and by nothing else.
pub proof fn lemma_zero_alone(c: Category)
    ensures
        covers(c, 0) <==> c == Category::Exact(0),
{
    lemma_awarded_iff_covers(c, 0);
}

/// Two lists that each hold every category covering `n`, and each of them
/// once, name the same regions and are of the same length: what the number
/// expands to does not depend on when it is asked for.
pub proof fn lemma_expansion_determined(n: int, a: Seq<GameResult>, b: Seq<GameResult>)
    requires
        forall|c: Category| listed(a, c) <==> covers(c, n),
        forall|c: Category| listed(b, c) <==> covers(c, n),
        distinct(a),
        distinct(b),
    ensures
        forall|c: Category| listed(a, c) <==> listed(b, c),
        a.len() == b.len(),
{
    lemma_same_regions_same_len(a, b);
}

/// The regions that a list names.
pub open spec fn regions(s: Seq<GameResult>) -> Set<Category> {
    Set::new(|c: Category| listed(s, c))
}

/// A list that names no region twice names as many regions as it is long.
pub proof fn lemma_regions_len(s: Seq<GameResult>)
    requires
        distinct(s),
    ensures
        regions(s).finite(),
        regions(s).len() == s.len(),
    decreases s.len(),
{
    if s.len() == 0 {
        assert(regions(s) =~= Set::empty());
    } else {
        let front = s.drop_last();
        let last = s.last();
        assert forall|i: int, j: int| 0 <= i < j < front.len() implies (#[trigger] front[i])@ != (
        #[trigger] front[j])@ by {
            assert(front[i] == s[i] && front[j] == s[j]);
        }
        lemma_regions_len(front);
        assert(!regions(front).contains(last@)) by {
            if listed(front, last@) {
                let i = choose|i: int| 0 <= i < front.len() && (#[trigger] front[i])@ == last@;
                assert(s[i] == front[i]);
                assert(s[s.len() - 1] == last);
            }
        }
        assert(regions(s) =~= regions(front).insert(last@)) by {
            assert forall|c: Category| regions(s).contains(c) <==> regions(front).insert(
                last@,
            ).contains(c) by {
                if listed(s, c) {
                    let i = choose|i: int| 0 <= i < s.len() && (#[trigger] s[i])@ == c;
                    if i < front.len() {
                        assert(front[i]@ == c);
                    }
                }
                if listed(front, c) {
                    let i = choose|i: int| 0 <= i < front.len() && (#[trigger] front[i])@ == c;
                    assert(s[i]@ == c);
                }
                if c == last@ {
                    assert(s[s.len() - 1]@ == c);
                }
            }
        }
    }
}

/// Two lists that name the same regions, neither of them any region twice,
/// are of the same length.
pub proof fn lemma_same_regions_same_len(a: Seq<GameResult>, b: Seq<GameResult>)
    requires
        forall|c: Category| listed(a, c) <==> listed(b, c),
        distinct(a),
        distinct(b),
    ensures
        a.len() == b.len(),
{
    lemma_regions_len(a);
    lemma_regions_len(b);
    assert(regions(a) =~= regions(b));
}

} // verus!
