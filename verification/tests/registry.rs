use connectk_server::board::{ConnectK, GameStatus, MoveError, Player};
use connectk_server::registry::{GameServer, MutateError};

#[test]
fn new_store_is_empty() {
    let server = GameServer::new();
    assert_eq!(server.count(), 0);
    assert!(server.select(0).is_none());
    assert!(server.select_all().is_empty());
}

#[test]
fn seeded_store_holds_one_game() {
    let server = GameServer::seeded();
    assert_eq!(server.count(), 1);
    let game = server.select(0).unwrap();
    assert_eq!(game.width(), 5);
    assert_eq!(game.height(), 7);
    assert_eq!(game.k(), 4);
    assert_eq!(game.curr_player(), Player::One);
    assert_eq!(game.board_linear(), vec![0u8; 35]);
}

#[test]
fn ids_count_up_from_the_number_of_games() {
    let mut server = GameServer::seeded();
    assert_eq!(server.insert(ConnectK::new(3, 3, 3, Player::Two)), 1);
    assert_eq!(server.insert(ConnectK::new(4, 2, 2, Player::One)), 2);
    assert_eq!(server.insert(ConnectK::new(6, 6, 5, Player::One)), 3);
    assert_eq!(server.count(), 4);
}

#[test]
fn inserted_game_is_found_under_its_id() {
    let mut server = GameServer::new();
    let mut game = ConnectK::new(3, 4, 3, Player::Two);
    assert_eq!(game.insert(2), Ok(()));
    let id = server.insert(game.clone());
    assert_eq!(id, 0);
    let found = server.select(id as i64).unwrap();
    assert_eq!(found.width(), 3);
    assert_eq!(found.height(), 4);
    assert_eq!(found.k(), 3);
    assert_eq!(found.curr_player(), Player::One);
    assert_eq!(found.status(), GameStatus::InProcess);
    assert_eq!(found.board_linear(), game.board_linear());
}

#[test]
fn unknown_ids_are_not_found() {
    let server = GameServer::seeded();
    assert!(server.select(1).is_none());
    assert!(server.select(-1).is_none());
    assert!(server.select(i64::MAX).is_none());
    assert!(server.select(i64::MIN).is_none());
}

#[test]
fn select_all_is_in_id_order() {
    let mut server = GameServer::new();
    server.insert(ConnectK::new(2, 2, 2, Player::One));
    server.insert(ConnectK::new(3, 3, 3, Player::Two));
    server.insert(ConnectK::new(4, 4, 4, Player::One));
    let all = server.select_all();
    assert_eq!(all.len(), 3);
    assert_eq!(all[0].width(), 2);
    assert_eq!(all[1].width(), 3);
    assert_eq!(all[2].width(), 4);
}

#[test]
fn copies_do_not_reach_the_store() {
    let server = GameServer::seeded();
    let mut copy = server.select(0).unwrap();
    assert_eq!(copy.insert(0), Ok(()));
    assert_eq!(server.select(0).unwrap().board_linear(), vec![0u8; 35]);
    let mut all = server.select_all();
    assert_eq!(all[0].insert(1), Ok(()));
    assert_eq!(server.select(0).unwrap().board_linear(), vec![0u8; 35]);
}

#[test]
fn move_changes_the_stored_game_only() {
    let mut server = GameServer::seeded();
    server.insert(ConnectK::new(3, 3, 3, Player::Two));
    assert_eq!(server.apply_move(1, 2), Ok(()));
    assert_eq!(server.select(0).unwrap().board_linear(), vec![0u8; 35]);
    let game = server.select(1).unwrap();
    assert_eq!(game.board_linear(), vec![0, 0, 2, 0, 0, 0, 0, 0, 0]);
    assert_eq!(game.curr_player(), Player::One);
    assert_eq!(server.count(), 2);
}

#[test]
fn move_on_unknown_id_is_not_found() {
    let mut server = GameServer::seeded();
    assert_eq!(server.apply_move(1, 0), Err(MutateError::NotFound));
    assert_eq!(server.apply_move(usize::MAX, 0), Err(MutateError::NotFound));
    assert_eq!(server.select(0).unwrap().board_linear(), vec![0u8; 35]);
}

#[test]
fn rejected_move_leaves_the_store_alone() {
    let mut server = GameServer::new();
    server.insert(ConnectK::new(2, 1, 2, Player::One));
    assert_eq!(server.apply_move(0, 2), Err(MutateError::Rejected(MoveError::InvalidColumn)));
    assert_eq!(server.apply_move(0, 0), Ok(()));
    assert_eq!(server.apply_move(0, 0), Err(MutateError::Rejected(MoveError::ColumnFull)));
    let game = server.select(0).unwrap();
    assert_eq!(game.board_linear(), vec![1, 0]);
    assert_eq!(game.curr_player(), Player::Two);
    assert_eq!(server.apply_move(0, 1), Ok(()));
    assert_eq!(server.select(0).unwrap().status(), GameStatus::Tie);
    assert_eq!(server.apply_move(0, 1), Err(MutateError::Rejected(MoveError::GameOver)));
}

#[test]
fn moves_played_one_after_another_are_all_kept() {
    let mut server = GameServer::new();
    let id = server.insert(ConnectK::new(6, 1, 7, Player::One));
    for c in 0..5usize {
        assert_eq!(server.apply_move(id, c), Ok(()));
    }
    let cells = server.select(id as i64).unwrap().board_linear();
    assert_eq!(cells.iter().filter(|v| **v != 0).count(), 5);
}

#[test]
fn won_game_in_the_store_accepts_no_move() {
    let mut server = GameServer::new();
    let id = server.insert(ConnectK::new(3, 3, 2, Player::One));
    assert_eq!(server.apply_move(id, 0), Ok(()));
    assert_eq!(server.apply_move(id, 2), Ok(()));
    assert_eq!(server.apply_move(id, 0), Ok(()));
    assert_eq!(server.select(0).unwrap().status(), GameStatus::PlayerOneWin);
    for c in 0..4usize {
        assert_eq!(server.apply_move(id, c), Err(MutateError::Rejected(MoveError::GameOver)));
    }
}
