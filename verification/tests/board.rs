use connectk_server::board::{ConnectK, GameStatus, MoveError, Player};

fn occupied(game: &ConnectK) -> usize {
    game.board_linear().iter().filter(|v| **v != 0).count()
}

fn play(game: &mut ConnectK, columns: &[usize]) {
    for c in columns {
        assert_eq!(game.insert(*c), Ok(()));
    }
}

#[test]
fn new_game_is_empty() {
    let game = ConnectK::new(5, 7, 4, Player::One);
    assert_eq!(game.width(), 5);
    assert_eq!(game.height(), 7);
    assert_eq!(game.k(), 4);
    assert_eq!(game.curr_player(), Player::One);
    assert_eq!(game.status(), GameStatus::InProcess);
    assert_eq!(game.board_linear(), vec![0u8; 35]);
}

#[test]
fn first_move_lands_at_the_bottom() {
    let mut game = ConnectK::new(5, 7, 4, Player::One);
    assert_eq!(game.insert(0), Ok(()));
    let cells = game.board_linear();
    assert_eq!(cells[0], 1);
    assert_eq!(occupied(&game), 1);
    assert_eq!(game.cell(0, 0), Some(1));
    assert_eq!(game.cell(0, 1), Some(0));
    assert_eq!(game.cell(5, 0), None);
    assert_eq!(game.cell(0, 7), None);
    assert_eq!(game.curr_player(), Player::Two);
    assert_eq!(game.status(), GameStatus::InProcess);
}

#[test]
fn pieces_stack_in_a_column() {
    let mut game = ConnectK::new(3, 3, 3, Player::Two);
    assert_eq!(game.lowest_empty(1), Some(0));
    assert_eq!(game.lowest_empty(3), None);
    play(&mut game, &[1, 1]);
    assert_eq!(game.lowest_empty(1), Some(2));
    assert_eq!(game.board_linear(), vec![0, 2, 0, 0, 1, 0, 0, 0, 0]);
    assert_eq!(game.cell(1, 0), Some(2));
    assert_eq!(game.cell(1, 1), Some(1));
    assert_eq!(game.curr_player(), Player::Two);
}

#[test]
fn linear_board_has_one_marker_per_cell() {
    let mut game = ConnectK::new(4, 3, 3, Player::One);
    let mut before = occupied(&game);
    for c in [0usize, 1, 1, 2, 3, 3] {
        assert_eq!(game.insert(c), Ok(()));
        let cells = game.board_linear();
        assert_eq!(cells.len(), 12);
        assert!(cells.iter().all(|v| *v <= 2));
        assert_eq!(occupied(&game), before + 1);
        before += 1;
    }
}

#[test]
fn turns_alternate_while_the_game_goes_on() {
    let mut game = ConnectK::new(5, 7, 4, Player::One);
    let mut expected = Player::One;
    for c in [0usize, 1, 2, 3, 4, 0, 1] {
        assert_eq!(game.curr_player(), expected);
        assert_eq!(game.insert(c), Ok(()));
        assert_eq!(game.status(), GameStatus::InProcess);
        expected = if expected == Player::One { Player::Two } else { Player::One };
    }
    assert_eq!(game.curr_player(), expected);
}

#[test]
fn column_off_the_board_is_rejected() {
    let mut game = ConnectK::new(5, 7, 4, Player::One);
    play(&mut game, &[2]);
    let cells = game.board_linear();
    assert_eq!(game.insert(5), Err(MoveError::InvalidColumn));
    assert_eq!(game.insert(usize::MAX), Err(MoveError::InvalidColumn));
    assert_eq!(game.board_linear(), cells);
    assert_eq!(game.curr_player(), Player::Two);
    assert_eq!(game.status(), GameStatus::InProcess);
}

#[test]
fn full_column_is_rejected() {
    let mut game = ConnectK::new(2, 2, 3, Player::One);
    play(&mut game, &[0, 0]);
    let cells = game.board_linear();
    assert_eq!(game.lowest_empty(0), None);
    assert_eq!(game.insert(0), Err(MoveError::ColumnFull));
    assert_eq!(game.board_linear(), cells);
    assert_eq!(game.curr_player(), Player::One);
    assert_eq!(game.status(), GameStatus::InProcess);
}

#[test]
fn horizontal_line_wins() {
    let mut game = ConnectK::new(5, 7, 4, Player::One);
    play(&mut game, &[0, 0, 1, 1, 2, 2]);
    assert_eq!(game.status(), GameStatus::InProcess);
    play(&mut game, &[3]);
    assert_eq!(game.status(), GameStatus::PlayerOneWin);
    assert_eq!(game.curr_player(), Player::One);
    assert!(game.won_at(3, 0, 1));
    assert!(game.won_at(1, 0, 1));
    assert!(!game.won_at(1, 1, 2));
    assert!(!game.won_at(3, 0, 2));
    assert!(!game.won_at(4, 0, 1));
    assert!(!game.won_at(9, 9, 1));
}

#[test]
fn line_closed_in_the_middle_wins() {
    let mut game = ConnectK::new(5, 7, 4, Player::One);
    play(&mut game, &[0, 0, 1, 1, 3, 3]);
    assert_eq!(game.status(), GameStatus::InProcess);
    play(&mut game, &[2]);
    assert_eq!(game.status(), GameStatus::PlayerOneWin);
}

#[test]
fn vertical_line_wins_for_player_two() {
    let mut game = ConnectK::new(5, 7, 4, Player::One);
    play(&mut game, &[0, 1, 0, 1, 0, 1, 2, 1]);
    assert_eq!(game.status(), GameStatus::PlayerTwoWin);
    assert_eq!(game.curr_player(), Player::Two);
}

#[test]
fn rising_diagonal_wins() {
    let mut game = ConnectK::new(4, 4, 3, Player::One);
    // One takes (0,0), (1,1), (2,2).
    play(&mut game, &[0, 1, 1, 2, 3, 2]);
    assert_eq!(game.status(), GameStatus::InProcess);
    play(&mut game, &[2]);
    assert_eq!(game.cell(2, 2), Some(1));
    assert_eq!(game.status(), GameStatus::PlayerOneWin);
}

#[test]
fn falling_diagonal_wins() {
    let mut game = ConnectK::new(4, 4, 3, Player::One);
    // One takes (2,0), (1,1), (0,2).
    play(&mut game, &[2, 1, 1, 0, 3, 0]);
    assert_eq!(game.status(), GameStatus::InProcess);
    play(&mut game, &[0]);
    assert_eq!(game.cell(0, 2), Some(1));
    assert_eq!(game.status(), GameStatus::PlayerOneWin);
}

#[test]
fn three_in_a_line_do_not_win_at_four() {
    let mut game = ConnectK::new(5, 7, 4, Player::One);
    play(&mut game, &[0, 0, 1, 1, 2]);
    assert_eq!(game.status(), GameStatus::InProcess);
    assert!(!game.won_at(2, 0, 1));
    assert_eq!(game.curr_player(), Player::Two);
}

#[test]
fn filled_board_without_line_is_a_tie() {
    let mut game = ConnectK::new(2, 2, 3, Player::One);
    play(&mut game, &[0, 1, 0]);
    assert!(!game.is_full());
    play(&mut game, &[1]);
    assert!(game.is_full());
    assert_eq!(game.status(), GameStatus::Tie);
    assert_eq!(game.curr_player(), Player::Two);
    assert_eq!(game.board_linear(), vec![1, 2, 1, 2]);
}

#[test]
fn finished_game_accepts_no_move() {
    let mut game = ConnectK::new(5, 7, 4, Player::One);
    play(&mut game, &[0, 0, 1, 1, 2, 2, 3]);
    assert_eq!(game.status(), GameStatus::PlayerOneWin);
    let cells = game.board_linear();
    assert_eq!(game.insert(4), Err(MoveError::GameOver));
    assert_eq!(game.insert(9), Err(MoveError::GameOver));
    assert_eq!(game.board_linear(), cells);
    assert_eq!(game.curr_player(), Player::One);
    assert_eq!(game.status(), GameStatus::PlayerOneWin);
}

#[test]
fn one_in_a_line_wins_at_once() {
    let mut game = ConnectK::new(3, 3, 1, Player::Two);
    play(&mut game, &[1]);
    assert_eq!(game.status(), GameStatus::PlayerTwoWin);
}

#[test]
fn line_of_zero_is_never_won() {
    let mut game = ConnectK::new(1, 2, 0, Player::One);
    play(&mut game, &[0, 0]);
    assert_eq!(game.status(), GameStatus::Tie);
}

#[test]
fn board_without_cells_takes_no_piece() {
    let mut game = ConnectK::new(0, 3, 4, Player::One);
    assert_eq!(game.board_linear(), Vec::<u8>::new());
    assert_eq!(game.insert(0), Err(MoveError::InvalidColumn));
    let mut flat = ConnectK::new(3, 0, 4, Player::One);
    assert_eq!(flat.insert(0), Err(MoveError::ColumnFull));
}

#[test]
fn clone_is_independent() {
    let mut game = ConnectK::new(5, 7, 4, Player::One);
    let copy = game.clone();
    play(&mut game, &[0]);
    assert_eq!(copy.board_linear(), vec![0u8; 35]);
    assert_eq!(copy.curr_player(), Player::One);
    assert_eq!(game.board_linear()[0], 1);
}

#[test]
fn players_and_their_numbers() {
    assert_eq!(Player::One.mark(), 1);
    assert_eq!(Player::Two.mark(), 2);
    assert_eq!(Player::One.opponent(), Player::Two);
    assert_eq!(Player::Two.opponent(), Player::One);
    assert_eq!(Player::One.winning_status(), GameStatus::PlayerOneWin);
    assert_eq!(Player::Two.winning_status(), GameStatus::PlayerTwoWin);
}
