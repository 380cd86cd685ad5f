use roulette::board::{corner_result, is_red_number, line_result, return_winning_numbers};
use roulette::types::{CornerType, GameResult, LineType};
use std::collections::HashMap;

fn same_regions(a: &Vec<GameResult>, b: &Vec<GameResult>) -> bool {
    a.iter().all(|g| b.contains(g)) && b.iter().all(|g| a.contains(g))
}

fn no_region_twice(a: &Vec<GameResult>) -> bool {
    let mut i: usize = 0;
    while i < a.len() {
        let mut j: usize = i + 1;
        while j < a.len() {
            if a[i] == a[j] {
                return false;
            }
            j += 1;
        }
        i += 1;
    }
    true
}

#[test]
fn test_return_winning_numbers() {
    let mut test_cases: HashMap<u32, Vec<GameResult>> = HashMap::new();

    test_cases.insert(0, vec![GameResult::Exact { num: 0 }]);

    for i in 1u32..=36u32 {
        let red_numbers: [u32; 18] = [
            1, 3, 5, 7, 9, 12, 14, 16, 18, 19, 21, 23, 25, 27, 30, 32, 34, 36,
        ];
        let is_red: bool = red_numbers.contains(&i);
        let is_even: bool = i % 2 == 0;
        let range: GameResult = match i {
            1..=12 => GameResult::Range1to12,
            13..=24 => GameResult::Range13to24,
            25..=36 => GameResult::Range25to36,
            _ => unreachable!(),
        };

        let range2to1: GameResult = match i % 3 {
            1 => GameResult::Range2to1First,
            2 => GameResult::Range2to1Second,
            0 => GameResult::Range2to1Third,
            _ => unreachable!(),
        };

        let lines: Vec<GameResult> = {
            let mut v: Vec<GameResult> = Vec::new();

            if i < 36 && i % 3 != 0 {
                v.push(GameResult::Line { nums: (i, i + 1) });
            }
            if i > 3 {
                v.push(GameResult::Line { nums: (i - 3, i) });
            }
            if i < 34 {
                v.push(GameResult::Line { nums: (i, i + 3) });
            }
            if i > 1 && i % 3 != 1 {
                v.push(GameResult::Line { nums: (i - 1, i) });
            }

            v
        };

        let corners: Vec<GameResult> = {
            let mut v: Vec<GameResult> = Vec::new();

            if i % 3 != 0 && i <= 33 {
                v.push(GameResult::Corner {
                    nums: (i, i + 1, i + 3, i + 4),
                });
            }
            if i % 3 != 1 && i <= 33 {
                v.push(GameResult::Corner {
                    nums: (i, i - 1, i + 3, i + 2),
                });
            }
            if i % 3 != 0 && i >= 4 {
                v.push(GameResult::Corner {
                    nums: (i, i + 1, i - 3, i - 2),
                });
            }
            if i % 3 != 1 && i >= 5 {
                v.push(GameResult::Corner {
                    nums: (i, i - 1, i - 3, i - 4),
                });
            }

            v
        };

        let mut outcomes: Vec<GameResult> = vec![
            GameResult::Exact { num: i },
            range,
            if is_red { GameResult::Red } else { GameResult::Black },
            if is_even { GameResult::Even } else { GameResult::Odd },
            range2to1,
        ];

        outcomes.extend(lines);
        outcomes.extend(corners);

        if i <= 18 {
            outcomes.push(GameResult::Range1to18);
        } else {
            outcomes.push(GameResult::Range19to36);
        }

        test_cases.insert(i, outcomes);
    }

    for (roll_result, expected_outcomes) in test_cases.iter() {
        let winning_numbers: Vec<GameResult> = return_winning_numbers(*roll_result);
        if winning_numbers != *expected_outcomes {
            let differences = winning_numbers
                .iter()
                .filter(|&g| !expected_outcomes.contains(g))
                .collect::<Vec<&GameResult>>();
            if !differences.is_empty() {
                println!("Test case failed:");
                println!("\tExpected from test: {:?}", expected_outcomes);
                println!("\tReturn from contract: {:?}", winning_numbers);
                println!("\tDifferences: \n\t\t{:?}", differences);
                panic!("There are differences between expected and returned results");
            }

            let differences2 = expected_outcomes
                .iter()
                .filter(|&g| !winning_numbers.contains(g))
                .collect::<Vec<&GameResult>>();
            if !differences2.is_empty() {
                println!("Test case failed:");
                println!("\tExpected from test: {:?}", expected_outcomes);
                println!("\tReturn from contract: {:?}", winning_numbers);
                println!("\tDifferences: \n\t\t{:?}", differences2);
                panic!("There are differences between expected and returned results");
            }
        }
    }
}

#[test]
fn zero_wins_for_itself_alone() {
    let winners: Vec<GameResult> = return_winning_numbers(0);
    assert_eq!(winners.len(), 1);
    assert!(winners[0] == GameResult::Exact { num: 0 });
    assert!(!winners.contains(&GameResult::Red));
    assert!(!winners.contains(&GameResult::Black));
    assert!(!winners.contains(&GameResult::Even));
    assert!(!winners.contains(&GameResult::Range1to12));
    assert!(!winners.contains(&GameResult::Range1to18));
    assert!(!winners.contains(&GameResult::Range2to1Third));
}

#[test]
fn seventeen_expands_to_its_fourteen_categories() {
    let winners: Vec<GameResult> = return_winning_numbers(17);
    let expected: Vec<GameResult> = vec![
        GameResult::Exact { num: 17 },
        GameResult::Odd,
        GameResult::Black,
        GameResult::Range1to18,
        GameResult::Range13to24,
        GameResult::Range2to1Second,
        GameResult::Line { nums: (16, 17) },
        GameResult::Line { nums: (17, 18) },
        GameResult::Line { nums: (14, 17) },
        GameResult::Line { nums: (17, 20) },
        GameResult::Corner { nums: (13, 14, 16, 17) },
        GameResult::Corner { nums: (14, 15, 17, 18) },
        GameResult::Corner { nums: (16, 17, 19, 20) },
        GameResult::Corner { nums: (17, 18, 20, 21) },
    ];
    assert_eq!(winners.len(), 14);
    assert!(same_regions(&winners, &expected));
    assert!(!winners.contains(&GameResult::Red));
    assert!(!winners.contains(&GameResult::Even));
}

#[test]
fn the_four_corners_of_the_board_have_fewest_categories() {
    let one: Vec<GameResult> = return_winning_numbers(1);
    let expected_one: Vec<GameResult> = vec![
        GameResult::Exact { num: 1 },
        GameResult::Odd,
        GameResult::Red,
        GameResult::Range1to18,
        GameResult::Range1to12,
        GameResult::Range2to1First,
        GameResult::Line { nums: (1, 2) },
        GameResult::Line { nums: (1, 4) },
        GameResult::Corner { nums: (1, 2, 4, 5) },
    ];
    assert_eq!(one.len(), 9);
    assert!(same_regions(&one, &expected_one));

    let last: Vec<GameResult> = return_winning_numbers(36);
    let expected_last: Vec<GameResult> = vec![
        GameResult::Exact { num: 36 },
        GameResult::Even,
        GameResult::Red,
        GameResult::Range19to36,
        GameResult::Range25to36,
        GameResult::Range2to1Third,
        GameResult::Line { nums: (35, 36) },
        GameResult::Line { nums: (33, 36) },
        GameResult::Corner { nums: (32, 33, 35, 36) },
    ];
    assert_eq!(last.len(), 9);
    assert!(same_regions(&last, &expected_last));

    assert_eq!(return_winning_numbers(3).len(), 9);
    assert_eq!(return_winning_numbers(34).len(), 9);
    assert_eq!(return_winning_numbers(2).len(), 11);
    assert_eq!(return_winning_numbers(35).len(), 11);
    assert_eq!(return_winning_numbers(4).len(), 11);
    assert_eq!(return_winning_numbers(6).len(), 11);
    assert_eq!(return_winning_numbers(5).len(), 14);
}

#[test]
fn every_expansion_names_each_region_once() {
    for n in 0u32..=36u32 {
        let winners: Vec<GameResult> = return_winning_numbers(n);
        assert!(no_region_twice(&winners));
        assert!(winners.iter().all(|g| g.validate()));
        assert!(winners[0] == GameResult::Exact { num: n });
    }
}

#[test]
fn expanding_twice_gives_the_same() {
    for n in 0u32..=36u32 {
        let first: Vec<GameResult> = return_winning_numbers(n);
        let second: Vec<GameResult> = return_winning_numbers(n);
        assert_eq!(first.len(), second.len());
        assert!(same_regions(&first, &second));
        assert!(first == second);
    }
}

#[test]
fn each_number_has_one_exact_category_and_one_dozen() {
    for n in 1u32..=36u32 {
        let winners: Vec<GameResult> = return_winning_numbers(n);
        let exact: usize = winners
            .iter()
            .filter(|g| matches!(g, GameResult::Exact { .. }))
            .count();
        let dozens: usize = winners
            .iter()
            .filter(|g| {
                matches!(
                    g,
                    GameResult::Range1to12 | GameResult::Range13to24 | GameResult::Range25to36
                )
            })
            .count();
        assert_eq!(exact, 1);
        assert_eq!(dozens, 1);
        assert!(winners.contains(&GameResult::Exact { num: n }));
    }
    assert!(return_winning_numbers(12).contains(&GameResult::Range1to12));
    assert!(return_winning_numbers(13).contains(&GameResult::Range13to24));
    assert!(return_winning_numbers(24).contains(&GameResult::Range13to24));
    assert!(return_winning_numbers(25).contains(&GameResult::Range25to36));
    assert!(return_winning_numbers(18).contains(&GameResult::Range1to18));
    assert!(return_winning_numbers(19).contains(&GameResult::Range19to36));
}

#[test]
fn corners_are_written_with_the_number_first() {
    assert!(matches!(
        corner_result(17, CornerType::BottomLeft),
        GameResult::Corner { nums: (17, 20, 16, 19) }
    ));
    assert!(matches!(
        corner_result(17, CornerType::BottomRight),
        GameResult::Corner { nums: (17, 20, 18, 21) }
    ));
    assert!(matches!(
        corner_result(17, CornerType::TopLeft),
        GameResult::Corner { nums: (17, 16, 14, 13) }
    ));
    assert!(matches!(
        corner_result(17, CornerType::TopRight),
        GameResult::Corner { nums: (17, 18, 14, 15) }
    ));
}

#[test]
fn lines_are_written_with_the_number_first() {
    assert!(matches!(line_result(17, LineType::Over), GameResult::Line { nums: (17, 14) }));
    assert!(matches!(line_result(17, LineType::Under), GameResult::Line { nums: (17, 20) }));
    assert!(matches!(line_result(17, LineType::Left), GameResult::Line { nums: (17, 18) }));
    assert!(matches!(line_result(17, LineType::Right), GameResult::Line { nums: (17, 16) }));
}

#[test]
fn the_red_numbers_are_eighteen() {
    let red: [u32; 18] = [1, 3, 5, 7, 9, 12, 14, 16, 18, 19, 21, 23, 25, 27, 30, 32, 34, 36];
    let mut count: u32 = 0;
    for n in 0u32..=40u32 {
        assert_eq!(is_red_number(n), red.contains(&n));
        if is_red_number(n) {
            count += 1;
        }
    }
    assert_eq!(count, 18);
}
