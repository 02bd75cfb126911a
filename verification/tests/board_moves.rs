use connect_four::{
    change_to_next_team, Cell, GameMatrix, MoveError, Team, NUM_OF_COLS, NUM_OF_ROWS, SEQ_TO_WIN,
};

fn cells_of(board: &GameMatrix) -> Vec<Cell> {
    let mut cells = Vec::new();
    for row in 0..NUM_OF_ROWS {
        for column in 0..NUM_OF_COLS {
            cells.push(board.cell(row, column));
        }
    }
    cells
}

fn mid_game_board() -> GameMatrix {
    let mut board = GameMatrix::new();
    let moves = [3, 3, 4, 2, 4, 4, 0, 8, 8, 3, 5, 5, 5, 1];
    let mut team = Team::First;
    for column in moves {
        assert_eq!(board.add_value(column, team), Ok(()));
        team = change_to_next_team(team);
    }
    board
}

#[test]
fn board_has_twelve_rows_of_nine_columns() {
    assert_eq!(NUM_OF_ROWS, 12);
    assert_eq!(NUM_OF_COLS, 9);
    assert_eq!(SEQ_TO_WIN, 4);
}

#[test]
fn new_board_is_empty() {
    let board = GameMatrix::new();
    for row in 0..NUM_OF_ROWS {
        for column in 0..NUM_OF_COLS {
            assert_eq!(board.cell(row, column), Cell::Empty);
        }
    }
}

#[test]
fn marker_lands_on_the_bottom_edge() {
    let mut board = GameMatrix::new();
    assert_eq!(board.add_value(4, Team::First), Ok(()));
    assert_eq!(board.cell(NUM_OF_ROWS - 1, 4), Cell::First);
    for row in 0..NUM_OF_ROWS - 1 {
        assert_eq!(board.cell(row, 4), Cell::Empty);
    }
    for column in 0..NUM_OF_COLS {
        if column != 4 {
            assert_eq!(board.cell(NUM_OF_ROWS - 1, column), Cell::Empty);
        }
    }
}

#[test]
fn markers_pile_up_in_a_column() {
    let mut board = GameMatrix::new();
    assert_eq!(board.add_value(7, Team::First), Ok(()));
    assert_eq!(board.add_value(7, Team::Second), Ok(()));
    assert_eq!(board.add_value(7, Team::Second), Ok(()));
    assert_eq!(board.cell(11, 7), Cell::First);
    assert_eq!(board.cell(10, 7), Cell::Second);
    assert_eq!(board.cell(9, 7), Cell::Second);
    assert_eq!(board.cell(8, 7), Cell::Empty);
}

#[test]
fn first_and_last_column_take_markers() {
    let mut board = GameMatrix::new();
    assert_eq!(board.add_value(0, Team::Second), Ok(()));
    assert_eq!(board.add_value(NUM_OF_COLS - 1, Team::First), Ok(()));
    assert_eq!(board.cell(11, 0), Cell::Second);
    assert_eq!(board.cell(11, 8), Cell::First);
}

#[test]
fn column_out_of_range_is_refused() {
    let mut board = mid_game_board();
    let before = cells_of(&board);
    assert_eq!(board.add_value(NUM_OF_COLS, Team::First), Err(MoveError::OutOfRange));
    assert_eq!(board.add_value(42, Team::Second), Err(MoveError::OutOfRange));
    assert_eq!(board.add_value(usize::MAX, Team::First), Err(MoveError::OutOfRange));
    assert_eq!(board.remove_value(NUM_OF_COLS), Err(MoveError::OutOfRange));
    assert_eq!(board.remove_value(usize::MAX), Err(MoveError::OutOfRange));
    assert_eq!(cells_of(&board), before);
}

#[test]
fn full_column_is_refused() {
    let mut board = GameMatrix::new();
    let mut team = Team::First;
    for _ in 0..NUM_OF_ROWS {
        assert_eq!(board.add_value(2, team), Ok(()));
        team = change_to_next_team(team);
    }
    let before = cells_of(&board);
    assert_eq!(board.add_value(2, Team::First), Err(MoveError::ColumnFull));
    assert_eq!(board.add_value(2, Team::Second), Err(MoveError::ColumnFull));
    assert_eq!(cells_of(&board), before);
    assert_eq!(board.cell(0, 2), Cell::Second);
    assert_eq!(board.add_value(3, Team::First), Ok(()));
}

#[test]
fn empty_column_has_nothing_to_take_away() {
    let mut board = GameMatrix::new();
    assert_eq!(board.remove_value(5), Err(MoveError::ColumnEmpty));
    assert_eq!(board.add_value(4, Team::First), Ok(()));
    let before = cells_of(&board);
    assert_eq!(board.remove_value(5), Err(MoveError::ColumnEmpty));
    assert_eq!(cells_of(&board), before);
}

#[test]
fn remove_takes_the_topmost_marker() {
    let mut board = GameMatrix::new();
    assert_eq!(board.add_value(6, Team::First), Ok(()));
    assert_eq!(board.add_value(6, Team::Second), Ok(()));
    assert_eq!(board.add_value(6, Team::First), Ok(()));
    assert_eq!(board.remove_value(6), Ok(()));
    assert_eq!(board.cell(9, 6), Cell::Empty);
    assert_eq!(board.cell(10, 6), Cell::Second);
    assert_eq!(board.cell(11, 6), Cell::First);
    assert_eq!(board.remove_value(6), Ok(()));
    assert_eq!(board.remove_value(6), Ok(()));
    assert_eq!(board.remove_value(6), Err(MoveError::ColumnEmpty));
    assert_eq!(cells_of(&board), cells_of(&GameMatrix::new()));
}

#[test]
fn remove_empties_a_full_column_from_the_top() {
    let mut board = GameMatrix::new();
    for _ in 0..NUM_OF_ROWS {
        assert_eq!(board.add_value(0, Team::First), Ok(()));
    }
    for taken in 0..NUM_OF_ROWS {
        assert_eq!(board.cell(taken, 0), Cell::First);
        assert_eq!(board.remove_value(0), Ok(()));
        assert_eq!(board.cell(taken, 0), Cell::Empty);
    }
    assert_eq!(board.remove_value(0), Err(MoveError::ColumnEmpty));
}

#[test]
fn add_then_remove_restores_every_cell() {
    for team in [Team::First, Team::Second] {
        for column in 0..NUM_OF_COLS {
            let mut board = mid_game_board();
            let before = cells_of(&board);
            assert_eq!(board.add_value(column, team), Ok(()));
            assert_ne!(cells_of(&board), before);
            assert_eq!(board.remove_value(column), Ok(()));
            assert_eq!(cells_of(&board), before);
        }
    }
}

#[test]
fn add_then_remove_restores_the_empty_board() {
    for column in 0..NUM_OF_COLS {
        let mut board = GameMatrix::new();
        assert_eq!(board.add_value(column, Team::Second), Ok(()));
        assert_eq!(board.remove_value(column), Ok(()));
        assert_eq!(cells_of(&board), cells_of(&GameMatrix::new()));
    }
}

#[test]
fn add_changes_one_cell_only() {
    let mut board = mid_game_board();
    let before = cells_of(&board);
    assert_eq!(board.add_value(3, Team::Second), Ok(()));
    let after = cells_of(&board);
    let changed: Vec<usize> = (0..before.len()).filter(|&i| before[i] != after[i]).collect();
    assert_eq!(changed, vec![8 * NUM_OF_COLS + 3]);
    assert_eq!(before[8 * NUM_OF_COLS + 3], Cell::Empty);
    assert_eq!(after[8 * NUM_OF_COLS + 3], Cell::Second);
}

#[test]
fn copies_of_a_board_do_not_share_cells() {
    let board = mid_game_board();
    let mut copy = board.clone();
    assert_eq!(copy.add_value(0, Team::First), Ok(()));
    assert_eq!(board.cell(10, 0), Cell::Empty);
    assert_eq!(copy.cell(10, 0), Cell::First);
}

#[test]
fn turns_alternate() {
    assert_eq!(change_to_next_team(Team::First), Team::Second);
    assert_eq!(change_to_next_team(Team::Second), Team::First);
}

#[test]
fn each_side_has_its_marker_and_symbol() {
    assert_eq!(Team::First.marker(), Cell::First);
    assert_eq!(Team::Second.marker(), Cell::Second);
    assert_eq!(Cell::Empty.symbol(), '_');
    assert_eq!(Cell::First.symbol(), 'P');
    assert_eq!(Cell::Second.symbol(), 'S');
}
