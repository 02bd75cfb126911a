use connect_four::{calculate_score, evaluate_line, Cell, GameMatrix, Team, NUM_OF_COLS, NUM_OF_ROWS};

fn line_of(picture: &str) -> Vec<Cell> {
    picture
        .chars()
        .map(|ch| match ch {
            'P' => Cell::First,
            'S' => Cell::Second,
            '_' => Cell::Empty,
            _ => unreachable!(),
        })
        .collect()
}

/// The board that a picture shows, built by dropping the markers of each
/// column from the bottom edge upwards.
fn board_of(picture: [&str; NUM_OF_ROWS]) -> GameMatrix {
    let mut board = GameMatrix::new();
    for column in 0..NUM_OF_COLS {
        for row in (0..NUM_OF_ROWS).rev() {
            match picture[row].as_bytes()[column] {
                b'P' => assert_eq!(board.add_value(column, Team::First), Ok(())),
                b'S' => assert_eq!(board.add_value(column, Team::Second), Ok(())),
                _ => break,
            }
        }
    }
    for row in 0..NUM_OF_ROWS {
        let shown: String = (0..NUM_OF_COLS).map(|column| board.cell(row, column).symbol()).collect();
        assert_eq!(shown, picture[row]);
    }
    board
}

fn sides_swapped(picture: [&str; NUM_OF_ROWS]) -> GameMatrix {
    let swapped: Vec<String> = picture
        .iter()
        .map(|row| {
            row.chars()
                .map(|ch| match ch {
                    'P' => 'S',
                    'S' => 'P',
                    other => other,
                })
                .collect()
        })
        .collect();
    let mut rows = [""; NUM_OF_ROWS];
    for row in 0..NUM_OF_ROWS {
        rows[row] = swapped[row].as_str();
    }
    board_of(rows)
}

const RISING_FROM_ROW_EIGHT: [&str; NUM_OF_ROWS] = [
    "_________",
    "_________",
    "_________",
    "_________",
    "_________",
    "___P_____",
    "__PP_____",
    "_PSP_____",
    "PSPS_____",
    "PSPS_____",
    "SPSP_____",
    "SPSP_____",
];

const RISING_FROM_THE_BOTTOM_ROW: [&str; NUM_OF_ROWS] = [
    "_________",
    "_________",
    "_________",
    "_________",
    "_________",
    "_________",
    "_________",
    "_________",
    "___P_____",
    "__PS_____",
    "_PSP_____",
    "PPSP_____",
];

const RISING_FROM_ROW_NINE: [&str; NUM_OF_ROWS] = [
    "_________",
    "_________",
    "_________",
    "_________",
    "_________",
    "_________",
    "_____P___",
    "____PP___",
    "___PPS___",
    "__PSPS___",
    "__SPSP___",
    "__SPSP___",
];

const RISING_INTO_THE_TOP_CORNER: [&str; NUM_OF_ROWS] = [
    "________P",
    "_______PP",
    "______PPS",
    "_____PSPS",
    "_____SPSP",
    "_____SPSP",
    "_____PSPS",
    "_____PSPS",
    "_____SPSP",
    "_____SPSP",
    "_____PSPS",
    "_____PSPS",
];

const FALLING_TO_THE_BOTTOM_ROW: [&str; NUM_OF_ROWS] = [
    "_________",
    "_________",
    "_________",
    "_________",
    "_________",
    "_________",
    "_________",
    "_________",
    "P________",
    "PP_______",
    "SPP______",
    "SPSP_____",
];

const FALLING_FROM_THE_TOP_ROW: [&str; NUM_OF_ROWS] = [
    "_____P___",
    "_____SP__",
    "_____PSP_",
    "_____PSPP",
    "_____SPSP",
    "_____SPSP",
    "_____PSPS",
    "_____PSPS",
    "_____SPSP",
    "_____SPSP",
    "_____PSPS",
    "_____PSPS",
];

const SECOND_SIDE_FALLING: [&str; NUM_OF_ROWS] = [
    "_________",
    "_________",
    "_________",
    "_________",
    "_________",
    "_________",
    "_________",
    "_________",
    "S________",
    "PS_______",
    "SPS______",
    "SPSS_____",
];

const PAIRS: [&str; NUM_OF_ROWS] = [
    "_________",
    "_________",
    "_________",
    "_________",
    "_________",
    "_________",
    "_________",
    "_________",
    "_________",
    "_________",
    "P________",
    "PP__SS___",
];

#[test]
fn a_short_line_scores_nothing() {
    assert_eq!(evaluate_line(line_of("")), 0);
    assert_eq!(evaluate_line(line_of("_")), 0);
    assert_eq!(evaluate_line(line_of("P")), 0);
    assert_eq!(evaluate_line(line_of("S")), 0);
    assert_eq!(evaluate_line(line_of("P_P_P")), 0);
    assert_eq!(evaluate_line(line_of("PSPSPSPSP")), 0);
}

#[test]
fn runs_of_the_first_side_earn_ten_fifty_and_a_hundred() {
    assert_eq!(evaluate_line(line_of("PP")), 10);
    assert_eq!(evaluate_line(line_of("PPP")), 10 + 50);
    assert_eq!(evaluate_line(line_of("PPPP")), 10 + 50 + 100);
    assert_eq!(evaluate_line(line_of("_PP_")), 10);
    assert_eq!(evaluate_line(line_of("PP_______")), 10);
}

#[test]
fn runs_of_the_second_side_cost_as_much() {
    assert_eq!(evaluate_line(line_of("SS")), -10);
    assert_eq!(evaluate_line(line_of("SSS")), -60);
    assert_eq!(evaluate_line(line_of("SSSS")), -160);
    assert_eq!(evaluate_line(line_of("_______SS")), -10);
}

#[test]
fn a_run_past_four_earns_nothing_more() {
    assert_eq!(evaluate_line(line_of("PPPPP")), 160);
    assert_eq!(evaluate_line(line_of("PPPPPPPPP")), 160);
    assert_eq!(evaluate_line(line_of("PPPPPPPPPPPP")), 160);
    assert_eq!(evaluate_line(line_of("SSSSSS")), -160);
    assert_eq!(evaluate_line(line_of("SSSSSSSSSSSS")), -160);
}

#[test]
fn a_run_ends_at_the_other_side_and_at_a_gap() {
    assert_eq!(evaluate_line(line_of("PP_PP")), 20);
    assert_eq!(evaluate_line(line_of("PPSPP")), 20);
    assert_eq!(evaluate_line(line_of("PPSS")), 0);
    assert_eq!(evaluate_line(line_of("PPP_SSSS")), 60 - 160);
    assert_eq!(evaluate_line(line_of("SSPPPP")), 160 - 10);
    assert_eq!(evaluate_line(line_of("PPPPSSSS")), 0);
    assert_eq!(evaluate_line(line_of("PPP_PP_SS")), 60);
}

#[test]
fn a_window_counts_when_one_side_holds_all_four() {
    assert_eq!(calculate_score(4, 0), 100);
    assert_eq!(calculate_score(0, 4), -100);
    assert_eq!(calculate_score(0, 0), 0);
    assert_eq!(calculate_score(3, 1), 0);
    assert_eq!(calculate_score(2, 2), 0);
    assert_eq!(calculate_score(0, 3), 0);
    assert_eq!(calculate_score(5, 0), 0);
    assert_eq!(calculate_score(0, 5), 0);
    assert_eq!(calculate_score(4, 4), 100);
}

#[test]
fn the_empty_board_scores_zero() {
    assert_eq!(GameMatrix::new().evaluate_board(), 0);
}

#[test]
fn a_single_marker_scores_zero() {
    for team in [Team::First, Team::Second] {
        for column in 0..NUM_OF_COLS {
            let mut board = GameMatrix::new();
            assert_eq!(board.add_value(column, team), Ok(()));
            assert_eq!(board.evaluate_board(), 0);
        }
    }
}

#[test]
fn pairs_score_along_rows_and_columns() {
    let mut board = GameMatrix::new();
    assert_eq!(board.add_value(0, Team::First), Ok(()));
    assert_eq!(board.add_value(1, Team::First), Ok(()));
    assert_eq!(board.evaluate_board(), 10);
    assert_eq!(board.add_value(0, Team::First), Ok(()));
    assert_eq!(board.evaluate_board(), 20);
    assert_eq!(board.add_value(4, Team::Second), Ok(()));
    assert_eq!(board.add_value(5, Team::Second), Ok(()));
    assert_eq!(board.evaluate_board(), 10);
    assert_eq!(board_of(PAIRS).evaluate_board(), 10);
}

#[test]
fn a_row_of_three_and_of_four() {
    let mut board = GameMatrix::new();
    for column in [2, 3, 4] {
        assert_eq!(board.add_value(column, Team::First), Ok(()));
    }
    assert_eq!(board.evaluate_board(), 60);
    assert_eq!(board.add_value(5, Team::First), Ok(()));
    assert_eq!(board.evaluate_board(), 160);
    assert_eq!(board.add_value(6, Team::First), Ok(()));
    assert_eq!(board.evaluate_board(), 160);
}

#[test]
fn a_column_of_four_for_the_second_side() {
    let mut board = GameMatrix::new();
    let expected = [0, -10, -60, -160, -160];
    for height in 0..5 {
        assert_eq!(board.add_value(8, Team::Second), Ok(()));
        assert_eq!(board.evaluate_board(), expected[height]);
    }
}

#[test]
fn a_falling_diagonal_of_four_scores_a_hundred() {
    // 20 for the rows, 60 for the columns, 100 for the diagonal
    assert_eq!(board_of(FALLING_TO_THE_BOTTOM_ROW).evaluate_board(), 180);
    // 10 for the rows, 60 for the columns, 100 for the diagonal
    assert_eq!(board_of(FALLING_FROM_THE_TOP_ROW).evaluate_board(), 170);
    // -10 for the rows, -10 for the columns, -100 for the diagonal
    assert_eq!(board_of(SECOND_SIDE_FALLING).evaluate_board(), -120);
}

#[test]
fn a_rising_diagonal_of_four_scores_a_hundred() {
    // 10 for the rows, 60 for the columns, 100 for the diagonal
    assert_eq!(board_of(RISING_FROM_ROW_EIGHT).evaluate_board(), 170);
    // 20 for the rows, 60 for the columns, 100 for the diagonal
    assert_eq!(board_of(RISING_INTO_THE_TOP_CORNER).evaluate_board(), 180);
}

#[test]
fn a_rising_diagonal_from_the_bottom_rows_scores_a_hundred() {
    let lowest = board_of(RISING_FROM_THE_BOTTOM_ROW);
    assert!(lowest.check_win(Team::First));
    // 10 for the rows, 10 for the columns, 100 for the diagonal
    assert_eq!(lowest.evaluate_board(), 120);
    let higher = board_of(RISING_FROM_ROW_NINE);
    assert!(higher.check_win(Team::First));
    // 20 for the rows, 60 for the columns, 100 for the diagonal
    assert_eq!(higher.evaluate_board(), 180);
}

#[test]
fn a_diagonal_scores_the_same_in_both_directions() {
    let mut rising = GameMatrix::new();
    for (column, team) in [
        (0, Team::First),
        (1, Team::Second),
        (1, Team::First),
        (2, Team::Second),
        (2, Team::Second),
        (2, Team::First),
        (3, Team::Second),
        (3, Team::Second),
        (3, Team::Second),
        (3, Team::First),
    ] {
        assert_eq!(rising.add_value(column, team), Ok(()));
    }
    // -70 for the rows, -70 for the columns, 100 for the diagonal
    assert_eq!(rising.evaluate_board(), -40);
    let mut falling = GameMatrix::new();
    for (column, team) in [
        (3, Team::First),
        (2, Team::Second),
        (2, Team::First),
        (1, Team::Second),
        (1, Team::Second),
        (1, Team::First),
        (0, Team::Second),
        (0, Team::Second),
        (0, Team::Second),
        (0, Team::First),
    ] {
        assert_eq!(falling.add_value(column, team), Ok(()));
    }
    assert_eq!(falling.evaluate_board(), -40);
}

#[test]
fn every_diagonal_line_of_four_is_scored() {
    // a line of four on an otherwise empty diagonal, resting on piles of
    // the other side, which form no line of four themselves
    for team in [Team::First, Team::Second] {
        let other = if team == Team::First {
            Team::Second
        } else {
            Team::First
        };
        let sign = if team == Team::First {
            1
        } else {
            -1
        };
        for rising in [true, false] {
            for column in 0..=NUM_OF_COLS - 4 {
                let mut board = GameMatrix::new();
                for k in 0..4 {
                    let height = if rising {
                        k
                    } else {
                        3 - k
                    };
                    for _ in 0..height {
                        assert_eq!(board.add_value(column + k, other), Ok(()));
                    }
                    assert_eq!(board.add_value(column + k, team), Ok(()));
                }
                // the piles hold rows of two and three and columns of two
                // and three of the other side: 70 each
                assert_eq!(board.evaluate_board(), sign * (100 - 70 - 70));
            }
        }
    }
}

#[test]
fn swapping_the_sides_turns_the_sign() {
    let pictures = [
        RISING_FROM_ROW_EIGHT,
        RISING_FROM_THE_BOTTOM_ROW,
        RISING_FROM_ROW_NINE,
        RISING_INTO_THE_TOP_CORNER,
        FALLING_TO_THE_BOTTOM_ROW,
        FALLING_FROM_THE_TOP_ROW,
        SECOND_SIDE_FALLING,
        PAIRS,
    ];
    for picture in pictures {
        assert_eq!(sides_swapped(picture).evaluate_board(), -board_of(picture).evaluate_board());
    }
}

#[test]
fn the_score_is_the_same_at_every_call() {
    let board = board_of(RISING_FROM_ROW_EIGHT);
    let first = board.evaluate_board();
    for _ in 0..50 {
        assert_eq!(board.evaluate_board(), first);
    }
    assert_eq!(board.clone().evaluate_board(), first);
    assert_eq!(board_of(RISING_FROM_ROW_EIGHT).evaluate_board(), first);
}

#[test]
fn the_score_does_not_change_the_board() {
    let board = board_of(FALLING_FROM_THE_TOP_ROW);
    let _ = board.evaluate_board();
    for row in 0..NUM_OF_ROWS {
        let shown: String = (0..NUM_OF_COLS).map(|column| board.cell(row, column).symbol()).collect();
        assert_eq!(shown, FALLING_FROM_THE_TOP_ROW[row]);
    }
}
