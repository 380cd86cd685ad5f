use roulette::types::GameResult;

#[test]
fn a_line_is_equal_whichever_way_it_is_written() {
    for a in 0u32..=36u32 {
        for b in 0u32..=36u32 {
            assert!(GameResult::Line { nums: (a, b) } == GameResult::Line { nums: (b, a) });
        }
    }
    assert!(GameResult::Line { nums: (1, 2) } != GameResult::Line { nums: (1, 4) });
    assert!(GameResult::Line { nums: (1, 2) } != GameResult::Line { nums: (2, 3) });
}

#[test]
fn a_corner_is_equal_in_every_order() {
    let t: [u32; 4] = [1, 2, 4, 5];
    let base: GameResult = GameResult::Corner { nums: (1, 2, 4, 5) };
    let mut seen: u32 = 0;
    for i in 0usize..4usize {
        for j in 0usize..4usize {
            for k in 0usize..4usize {
                for l in 0usize..4usize {
                    if i != j && i != k && i != l && j != k && j != l && k != l {
                        let other: GameResult = GameResult::Corner { nums: (t[i], t[j], t[k], t[l]) };
                        assert!(other == base);
                        assert!(base == other);
                        seen += 1;
                    }
                }
            }
        }
    }
    assert_eq!(seen, 24);
    assert!(base != GameResult::Corner { nums: (2, 3, 5, 6) });
    assert!(base != GameResult::Corner { nums: (1, 2, 4, 6) });
}

#[test]
fn equality_looks_at_both_sides() {
    let degenerate: GameResult = GameResult::Line { nums: (1, 1) };
    let line: GameResult = GameResult::Line { nums: (1, 2) };
    assert!(degenerate != line);
    assert!(line != degenerate);
    let repeated: GameResult = GameResult::Corner { nums: (1, 1, 1, 2) };
    let corner: GameResult = GameResult::Corner { nums: (1, 2, 4, 5) };
    assert!(repeated != corner);
    assert!(corner != repeated);
}

#[test]
fn different_kinds_are_never_equal() {
    assert!(GameResult::Red == GameResult::Red);
    assert!(GameResult::Red != GameResult::Black);
    assert!(GameResult::Odd != GameResult::Even);
    assert!(GameResult::Exact { num: 3 } == GameResult::Exact { num: 3 });
    assert!(GameResult::Exact { num: 3 } != GameResult::Exact { num: 4 });
    assert!(GameResult::Range1to12 != GameResult::Range1to18);
    assert!(GameResult::Range2to1First != GameResult::Range2to1Second);
    assert!(GameResult::Exact { num: 1 } != GameResult::Line { nums: (1, 2) });
}

#[test]
fn validate_asks_for_distinct_numbers_on_the_wheel() {
    assert!(GameResult::Exact { num: 0 }.validate());
    assert!(GameResult::Exact { num: 36 }.validate());
    assert!(!GameResult::Exact { num: 37 }.validate());
    assert!(GameResult::Line { nums: (1, 2) }.validate());
    assert!(!GameResult::Line { nums: (2, 2) }.validate());
    assert!(GameResult::Corner { nums: (1, 2, 4, 5) }.validate());
    assert!(!GameResult::Corner { nums: (1, 2, 4, 1) }.validate());
    assert!(!GameResult::Corner { nums: (1, 2, 2, 5) }.validate());
    assert!(!GameResult::Corner { nums: (1, 2, 4, 4) }.validate());
    assert!(GameResult::Red.validate());
    assert!(GameResult::Range19to36.validate());
}

#[test]
fn payout_follows_the_table() {
    assert_eq!(GameResult::Exact { num: 7 }.payout(), 36);
    assert_eq!(GameResult::Line { nums: (1, 2) }.payout(), 18);
    assert_eq!(GameResult::Corner { nums: (1, 2, 4, 5) }.payout(), 9);
    assert_eq!(GameResult::Range1to12.payout(), 3);
    assert_eq!(GameResult::Range13to24.payout(), 3);
    assert_eq!(GameResult::Range25to36.payout(), 3);
    assert_eq!(GameResult::Range2to1First.payout(), 3);
    assert_eq!(GameResult::Range2to1Second.payout(), 3);
    assert_eq!(GameResult::Range2to1Third.payout(), 3);
    assert_eq!(GameResult::Red.payout(), 2);
    assert_eq!(GameResult::Black.payout(), 2);
    assert_eq!(GameResult::Odd.payout(), 2);
    assert_eq!(GameResult::Even.payout(), 2);
    assert_eq!(GameResult::Range1to18.payout(), 2);
    assert_eq!(GameResult::Range19to36.payout(), 2);
}
