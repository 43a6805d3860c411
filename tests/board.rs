use mancala::{index_of, label_of, new_board, new_game, other_player, MoveError, Player, PocketKind};

fn total_seeds(game: &mancala::GameState) -> usize {
    game.board.pockets.iter().map(|p| p.seeds).sum()
}

#[test]
fn test_move_correct_player() {
    let mut game = new_game();
    assert_eq!(game.player, Player::First);
    assert_eq!(game.board.pockets[1].seeds, 4);
    game.play('A');
    assert_eq!(game.board.pockets[1].seeds, 0);

    assert_eq!(game.player, Player::Second);
    game.play('a');
    assert_eq!(game.board.pockets[8].seeds, 0);
    assert_eq!(game.player, Player::First);
}

#[test]
fn test_player_gets_another_turn_if_landed_on_store() {
    let mut game = new_game();
    game.play('C');
    assert_eq!(game.player, Player::First);
}

#[test]
fn test_game_over() {
    let mut game = new_game();
    assert!(!game.board.is_game_over());
    for i in 1..7 {
        game.board.pockets[i].seeds = 0;
    }
    assert!(game.board.is_game_over());
}

#[test]
fn test_dont_populate_enemy_store() {
    let mut game = new_game();
    game.board.pockets[6].seeds = 8;
    game.play('F');
    assert_eq!(game.board.pockets[7].seeds, 1);
    // Should wrap around past enemy pocket
    assert_eq!(game.board.pockets[0].seeds, 0);
    assert_eq!(game.board.pockets[1].seeds, 5);
    for i in 8..14 {
        assert_eq!(game.board.pockets[i].seeds, 5);
    }
}

#[test]
fn test_capture_enemy_pocket() {
    let mut game = new_game();
    game.board.pockets[6].seeds = 0;
    game.play('B');
    assert_eq!(game.player, Player::Second);
    assert_eq!(game.board.pockets[6].seeds, 0);
    assert_eq!(game.board.pockets[8].seeds, 0);
    assert_eq!(game.board.pockets[7].seeds, 5);
}

#[test]
fn test_capture_second_enemy_pocket() {
    let mut game = new_game();
    game.play('B');
    game.board.pockets[13].seeds = 0;
    game.play('b');
    assert_eq!(game.player, Player::First);
    assert_eq!(game.board.pockets[13].seeds, 0);
    assert_eq!(game.board.pockets[0].seeds, 5);
    assert_eq!(game.board.pockets[1].seeds, 0);
}

#[test]
fn test_big_move() {
    let mut game = new_game();
    game.board.pockets[0].seeds = 7;
    game.board.pockets[1].seeds = 0;
    game.board.pockets[2].seeds = 0;
    game.board.pockets[3].seeds = 0;
    game.board.pockets[4].seeds = 1;
    game.board.pockets[5].seeds = 9;
    game.board.pockets[6].seeds = 1;
    game.board.pockets[7].seeds = 11;
    game.board.pockets[8].seeds = 1;
    game.board.pockets[9].seeds = 1;
    game.board.pockets[10].seeds = 0;
    game.board.pockets[11].seeds = 0;
    game.board.pockets[12].seeds = 10;
    game.board.pockets[13].seeds = 7;

    // Triggers a capture
    game.play('E');

    assert_eq!(game.board.pockets[7].seeds, 21);
    assert_eq!(game.board.pockets[1].seeds, 0);
    assert_eq!(game.board.pockets[13].seeds, 0);
}

#[test]
fn new_board_layout() {
    let board = new_board();
    let seeds: Vec<usize> = board.pockets.iter().map(|p| p.seeds).collect();
    assert_eq!(seeds, vec![0, 4, 4, 4, 4, 4, 4, 0, 4, 4, 4, 4, 4, 4]);
    assert_eq!(board.pockets[0].kind, PocketKind::Store);
    assert_eq!(board.pockets[0].player, Player::Second);
    assert_eq!(board.pockets[7].kind, PocketKind::Store);
    assert_eq!(board.pockets[7].player, Player::First);
    assert_eq!(board.pockets[1].kind, PocketKind::Row('A'));
    assert_eq!(board.pockets[6].kind, PocketKind::Row('F'));
    assert_eq!(board.pockets[8].kind, PocketKind::Row('a'));
    assert_eq!(board.pockets[13].kind, PocketKind::Row('f'));
    assert_eq!(board.pockets[13].player, Player::Second);
}

#[test]
fn board_play_returns_landing_index() {
    let mut board = new_board();
    assert_eq!(board.play('C'), Ok(7));
    assert_eq!(board.play('a'), Ok(12));
    assert_eq!(board.pockets[8].seeds, 0);
    assert_eq!(board.pockets[12].seeds, 5);
}

#[test]
fn board_play_rejects_unknown_label() {
    let mut board = new_board();
    assert_eq!(board.play('x'), Err(MoveError::InvalidLabel));
    assert_eq!(board.play('G'), Err(MoveError::InvalidLabel));
    assert_eq!(board.play('1'), Err(MoveError::InvalidLabel));
    let seeds: Vec<usize> = board.pockets.iter().map(|p| p.seeds).collect();
    assert_eq!(seeds, vec![0, 4, 4, 4, 4, 4, 4, 0, 4, 4, 4, 4, 4, 4]);
}

#[test]
fn board_play_rejects_empty_pocket() {
    let mut board = new_board();
    board.pockets[2].seeds = 0;
    assert_eq!(board.play('B'), Err(MoveError::EmptyPocket));
    assert_eq!(board.pockets[3].seeds, 4);
}

#[test]
fn game_ignores_other_sides_label() {
    let mut game = new_game();
    game.play('a');
    assert_eq!(game.player, Player::First);
    assert_eq!(game.board.pockets[8].seeds, 4);
    game.play('z');
    assert_eq!(game.player, Player::First);
}

#[test]
fn game_ignores_empty_pocket() {
    let mut game = new_game();
    game.board.pockets[4].seeds = 0;
    game.play('D');
    assert_eq!(game.player, Player::First);
    assert_eq!(total_seeds(&game), 44);
}

#[test]
fn valid_move_by_side() {
    let mut game = new_game();
    assert!(game.valid_move('A'));
    assert!(game.valid_move('F'));
    assert!(!game.valid_move('a'));
    assert!(!game.valid_move('G'));
    game.player = Player::Second;
    assert!(game.valid_move('f'));
    assert!(!game.valid_move('C'));
    assert!(!game.valid_move('g'));
}

#[test]
fn landing_on_empty_pocket_across_from_empty_pocket_keeps_seed() {
    let mut game = new_game();
    game.board.pockets[6].seeds = 0;
    game.board.pockets[8].seeds = 0;
    game.play('B');
    assert_eq!(game.board.pockets[6].seeds, 1);
    assert_eq!(game.board.pockets[8].seeds, 0);
    assert_eq!(game.board.pockets[7].seeds, 0);
    assert_eq!(game.player, Player::Second);
}

#[test]
fn long_move_never_feeds_opponent_store() {
    let mut game = new_game();
    game.board.pockets[6].seeds = 30;
    game.play('F');
    // 30 seeds over the 13 pockets that First's seeds travel: two full laps
    // and four more.
    assert_eq!(game.board.pockets[0].seeds, 0);
    assert_eq!(game.board.pockets[7].seeds, 3);
    assert_eq!(game.board.pockets[6].seeds, 2);
    assert_eq!(game.board.pockets[8].seeds, 7);
    assert_eq!(game.board.pockets[10].seeds, 7);
    assert_eq!(game.board.pockets[11].seeds, 6);
    assert_eq!(game.board.pockets[12].seeds, 6);
    assert_eq!(game.player, Player::Second);
    assert_eq!(total_seeds(&game), 74);
}

#[test]
fn second_side_skips_first_store() {
    let mut game = new_game();
    game.player = Player::Second;
    game.board.pockets[13].seeds = 10;
    game.play('f');
    assert_eq!(game.board.pockets[7].seeds, 0);
    assert_eq!(game.board.pockets[0].seeds, 1);
    assert_eq!(game.board.pockets[8].seeds, 5);
    assert_eq!(game.player, Player::First);
}

#[test]
fn seeds_are_conserved_over_a_game() {
    let mut game = new_game();
    let moves = ['C', 'A', 'b', 'f', 'E', 'B', 'c', 'a', 'F', 'D', 'd', 'e'];
    for round in 0..5 {
        for m in moves.iter() {
            game.play(*m);
            assert_eq!(total_seeds(&game), 48, "round {}", round);
            if game.board.is_game_over() {
                return;
            }
        }
    }
}

#[test]
fn game_over_when_second_row_empty() {
    let mut board = new_board();
    for i in 8..14 {
        board.pockets[i].seeds = 0;
    }
    assert!(board.is_game_over());
    board.pockets[10].seeds = 1;
    assert!(!board.is_game_over());
    board.pockets[3].seeds = 0;
    assert!(!board.is_game_over());
}

#[test]
fn label_table() {
    assert_eq!(index_of('A'), Some(1));
    assert_eq!(index_of('F'), Some(6));
    assert_eq!(index_of('a'), Some(8));
    assert_eq!(index_of('f'), Some(13));
    assert_eq!(index_of('g'), None);
    assert_eq!(label_of(3), Some('C'));
    assert_eq!(label_of(11), Some('d'));
    assert_eq!(label_of(7), None);
    assert_eq!(label_of(0), None);
    assert_eq!(label_of(14), None);
    assert_eq!(other_player(Player::First), Player::Second);
    assert_eq!(other_player(Player::Second), Player::First);
}

#[test]
fn well_formed_board_checks() {
    let mut board = new_board();
    assert!(board.is_well_formed());
    board.pockets[2].seeds = 40;
    assert!(board.is_well_formed());
    board.pockets[1].seeds = usize::MAX;
    assert!(!board.is_well_formed());
    let mut board = new_board();
    board.pockets[3].kind = PocketKind::Store;
    assert!(!board.is_well_formed());
    let mut board = new_board();
    board.pockets[9].player = Player::First;
    assert!(!board.is_well_formed());
    let mut board = new_board();
    board.pockets[4].kind = PocketKind::Row('E');
    assert!(!board.is_well_formed());
}
