use autochess::state::entities::Controller;
use autochess::state::game::Game;
use autochess::state::units::UnitType;
use autochess::ErrorCode;

#[test]
fn lock_in_test() {
    let mut test_game = Game::new_client();
    assert!(!test_game.i_locked_in && !test_game.i_locked_in, "Initial state");
    test_game.lock_in_player(Controller::Initializer).ok();
    test_game.lock_in_player(Controller::Opponent).ok();
    assert!(test_game.both_players_locked());
}

#[test]
fn place_piece_hidden_test_valid() {
    let mut test_game = Game::new_client();
    let result = test_game.place_piece_hidden(Controller::Initializer, 5, 2, 2);
    assert_eq!(result, Some(0));
    assert_eq!(test_game.entities.all.len(), 1);
    assert_eq!(
        test_game.entities.all[0].unit_type,
        UnitType::Hidden { hand_position: 2 }
    );
}

#[test]
fn place_piece_hidden_test_invalid() {
    let mut test_game = Game::new_client();
    let result = test_game.place_piece_hidden(Controller::Opponent, 5, 2, 2);
    assert_eq!(result, None);
    assert_eq!(test_game.entities.all.len(), 0);
}

#[test]
fn lock_in_rejects_non_players() {
    let mut test_game = Game::new_client();
    assert_eq!(
        test_game.lock_in_player(Controller::Contract),
        Err(ErrorCode::InvalidArgument)
    );
    assert_eq!(
        test_game.lock_in_player(Controller::Graveyard),
        Err(ErrorCode::InvalidArgument)
    );
    assert!(!test_game.both_players_locked());
}

#[test]
fn hidden_piece_duplicate_slot_rejected() {
    let mut game = Game::new_client();
    assert_eq!(game.place_piece_hidden(Controller::Initializer, 1, 1, 0), Some(0));
    // the same hand slot cannot be placed twice
    assert_eq!(game.place_piece_hidden(Controller::Initializer, 3, 1, 0), None);
    // another slot is fine
    assert_eq!(game.place_piece_hidden(Controller::Initializer, 3, 1, 1), Some(1));
}

#[test]
fn hidden_piece_slot_out_of_bounds_rejected() {
    let mut game = Game::new_client();
    assert_eq!(game.place_piece_hidden(Controller::Initializer, 1, 1, 5), None);
    assert_eq!(game.entities.all.len(), 0);
}

#[test]
fn move_piece_hidden_moves_the_slot() {
    let mut game = Game::new_client();
    assert_eq!(game.place_piece_hidden(Controller::Initializer, 1, 1, 0), Some(0));
    let moved = game.move_piece_hidden(Controller::Initializer, 2, 3, 0);
    assert_eq!(moved, Some(0));
    assert_eq!(game.entities.all[0].position.x, 250);
    assert_eq!(game.entities.all[0].position.y, 350);
    // a slot that was never placed cannot be moved
    assert_eq!(game.move_piece_hidden(Controller::Initializer, 2, 2, 4), None);
}

#[test]
fn remove_piece_hidden_removes_the_slot() {
    let mut game = Game::new_client();
    assert_eq!(game.place_piece_hidden(Controller::Initializer, 1, 1, 0), Some(0));
    assert_eq!(game.place_piece_hidden(Controller::Initializer, 3, 1, 1), Some(1));
    assert_eq!(game.remove_piece_hidden(Controller::Initializer, 0), Some(0));
    assert_eq!(game.entities.all.len(), 1);
    assert_eq!(game.entities.all[0].id, 1);
    // removing it again fails
    assert_eq!(game.remove_piece_hidden(Controller::Initializer, 0), None);
}
