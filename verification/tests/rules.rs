use game_of_life::{Board, CellState};

#[test]
fn dead_cell_with_two_alive_neighbours_stays_dead() {
    let mut board = Board::new(3, 3).unwrap();
    board.toggle_cell_state(0, 0).unwrap();
    board.toggle_cell_state(0, 1).unwrap();

    board.update_board();
    assert_eq!(CellState::Dead, board.get(1, 1).unwrap());
}

#[test]
fn dead_cell_with_three_alive_neighbours_revives() {
    let mut board = Board::new(3, 3).unwrap();
    board.toggle_cell_state(0, 0).unwrap();
    board.toggle_cell_state(0, 1).unwrap();
    board.toggle_cell_state(1, 0).unwrap();

    board.update_board();
    assert_eq!(CellState::Alive, board.get(1, 1).unwrap());
}

#[test]
fn alive_cell_with_two_alive_neighbours_stays_alive() {
    let mut board = Board::new(3, 3).unwrap();
    board.toggle_cell_state(0, 0).unwrap();
    board.toggle_cell_state(0, 1).unwrap();
    board.toggle_cell_state(1, 0).unwrap();

    board.update_board();
    assert_eq!(CellState::Alive, board.get(1, 0).unwrap());
}

#[test]
fn alive_cell_with_three_alive_neighbours_stays_alive() {
    let mut board = Board::new(3, 3).unwrap();
    board.toggle_cell_state(0, 0).unwrap();
    board.toggle_cell_state(0, 1).unwrap();
    board.toggle_cell_state(1, 0).unwrap();
    board.toggle_cell_state(1, 1).unwrap();

    board.update_board();
    assert_eq!(CellState::Alive, board.get(1, 0).unwrap());
}

#[test]
fn alive_cell_with_four_alive_neighbours_dies() {
    let mut board = Board::new(4, 4).unwrap();
    board.toggle_cell_state(1, 1).unwrap();
    board.toggle_cell_state(0, 1).unwrap();
    board.toggle_cell_state(0, 2).unwrap();
    board.toggle_cell_state(1, 0).unwrap();
    board.toggle_cell_state(2, 0).unwrap();

    board.update_board();
    assert_eq!(CellState::Dead, board.get(1, 1).unwrap());
}

#[test]
fn alive_cell_with_one_alive_neighbour_dies() {
    let mut board = Board::new(3, 3).unwrap();
    board.toggle_cell_state(1, 1).unwrap();
    board.toggle_cell_state(1, 0).unwrap();

    board.update_board();
    assert_eq!(CellState::Dead, board.get(1, 1).unwrap());
}

#[test]
fn rule_for_a_live_cell_by_neighbour_count() {
    let expected = [
        CellState::Dead,
        CellState::Dead,
        CellState::Alive,
        CellState::Alive,
        CellState::Dead,
        CellState::Dead,
        CellState::Dead,
        CellState::Dead,
        CellState::Dead,
    ];
    for (count, state) in expected.iter().enumerate() {
        assert_eq!(*state, CellState::Alive.next(count as u8), "{} neighbours", count);
    }
}

#[test]
fn rule_for_a_dead_cell_by_neighbour_count() {
    let expected = [
        CellState::Dead,
        CellState::Dead,
        CellState::Dead,
        CellState::Alive,
        CellState::Dead,
        CellState::Dead,
        CellState::Dead,
        CellState::Dead,
        CellState::Dead,
    ];
    for (count, state) in expected.iter().enumerate() {
        assert_eq!(*state, CellState::Dead.next(count as u8), "{} neighbours", count);
    }
}

#[test]
fn rule_kills_on_any_count_above_three() {
    for count in 4..=u8::MAX {
        assert_eq!(CellState::Dead, CellState::Alive.next(count));
        assert_eq!(CellState::Dead, CellState::Dead.next(count));
    }
}

#[test]
fn toggled_gives_the_other_state() {
    assert_eq!(CellState::Dead, CellState::Alive.toggled());
    assert_eq!(CellState::Alive, CellState::Dead.toggled());
}
