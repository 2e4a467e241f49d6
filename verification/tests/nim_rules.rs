use nim_server::nim::{Nim, NimAction, NimError, TokenState};

fn take(game: &mut Nim, indices: Vec<usize>) -> Result<(), NimError> {
    game.execute(&NimAction::from_vec(indices))
}

#[test]
fn take_some_tokens() {
    let mut game = Nim::new(15, 2);
    game.execute(&NimAction::from_vec(vec![2, 4, 6])).unwrap();
    game.execute(&NimAction::from_vec(vec![1, 7])).unwrap();
    game.execute(&NimAction::from_vec(vec![11])).unwrap();
    game.execute(&NimAction::from_vec(vec![13, 3, 5])).unwrap();
    game.execute(&NimAction::from_vec(vec![8, 9])).unwrap();
    game.execute(&NimAction::from_vec(vec![12, 14])).unwrap();
    game.execute(&NimAction::from_vec(vec![0, 10])).unwrap();
    assert_eq!(game.last_token_taken_by(), Some(0));
}

#[test]
fn test_double_take() {
    let mut game = Nim::new(15, 2);
    game.execute(&NimAction::from_vec(vec![2, 4, 6])).unwrap();
    let game_clone = game.clone();
    let result = game.execute(&NimAction::from_vec(vec![1, 7, 2]));
    assert_eq!(result, Err(NimError::TokenAlreadyMissing));
    assert_eq!(game_clone, game);
}

#[test]
fn new_game_has_all_tokens_and_player_zero_to_move() {
    let game = Nim::new(4, 3);
    assert_eq!(game.tokens(), &vec![TokenState::TokenPresent; 4]);
    assert_eq!(game.current_player(), 0);
    assert_eq!(game.player_count(), 3);
    assert_eq!(game.last_token_taken_by(), None);
}

#[test]
fn a_move_marks_exactly_its_tokens() {
    let mut game = Nim::new(5, 2);
    assert_eq!(take(&mut game, vec![3, 0]), Ok(()));
    assert_eq!(
        game.tokens(),
        &vec![
            TokenState::TokenMissing,
            TokenState::TokenPresent,
            TokenState::TokenPresent,
            TokenState::TokenMissing,
            TokenState::TokenPresent,
        ]
    );
    assert_eq!(game.current_player(), 1);
    assert_eq!(game.last_token_taken_by(), None);
}

#[test]
fn missing_tokens_are_the_union_of_all_moves() {
    let mut game = Nim::new(10, 3);
    let moves: Vec<Vec<usize>> = vec![vec![9], vec![0, 5], vec![2, 3, 4]];
    let mut submitted: Vec<usize> = Vec::new();
    for indices in moves {
        submitted.extend(indices.iter().copied());
        assert_eq!(take(&mut game, indices), Ok(()));
    }
    for (position, state) in game.tokens().iter().enumerate() {
        let expected = if submitted.contains(&position) {
            TokenState::TokenMissing
        } else {
            TokenState::TokenPresent
        };
        assert_eq!(*state, expected);
    }
    // An index that was submitted before cannot be submitted again.
    assert_eq!(take(&mut game, vec![5]), Err(NimError::TokenAlreadyMissing));
}

#[test]
fn index_out_of_bounds_is_rejected_and_changes_nothing() {
    let mut game = Nim::new(15, 2);
    take(&mut game, vec![1]).unwrap();
    let before = game.clone();
    assert_eq!(take(&mut game, vec![15]), Err(NimError::TokenOutOfBounds));
    assert_eq!(game, before);
    assert_eq!(take(&mut game, vec![0, 2, 1000]), Err(NimError::TokenOutOfBounds));
    assert_eq!(game, before);
}

#[test]
fn out_of_bounds_is_reported_before_already_missing() {
    let mut game = Nim::new(3, 2);
    take(&mut game, vec![0]).unwrap();
    assert_eq!(take(&mut game, vec![0, 3]), Err(NimError::TokenOutOfBounds));
}

#[test]
fn empty_move_is_rejected_and_changes_nothing() {
    let mut game = Nim::new(15, 2);
    let before = game.clone();
    assert_eq!(take(&mut game, vec![]), Err(NimError::NotEnoughtTokens));
    assert_eq!(game, before);
}

#[test]
fn four_indices_are_rejected_and_change_nothing() {
    let mut game = Nim::new(15, 2);
    let before = game.clone();
    assert_eq!(take(&mut game, vec![0, 1, 2, 3]), Err(NimError::ToManyTokens));
    assert_eq!(game, before);
    // Too many is reported before out of bounds.
    assert_eq!(take(&mut game, vec![0, 1, 2, 99]), Err(NimError::ToManyTokens));
    assert_eq!(game, before);
}

#[test]
fn repeated_indices_count_once() {
    let mut game = Nim::new(15, 2);
    assert_eq!(take(&mut game, vec![4, 4, 4, 4, 4]), Ok(()));
    assert_eq!(game.tokens()[4], TokenState::TokenMissing);
    assert_eq!(
        game.tokens().iter().filter(|t| **t == TokenState::TokenMissing).count(),
        1
    );
    assert_eq!(take(&mut game, vec![1, 2, 3, 3, 2, 1]), Ok(()));
}

#[test]
fn finished_game_rejects_every_move() {
    let mut game = Nim::new(2, 2);
    assert_eq!(take(&mut game, vec![0, 1]), Ok(()));
    assert_eq!(game.last_token_taken_by(), Some(0));
    let finished = game.clone();
    assert_eq!(take(&mut game, vec![0]), Err(NimError::GameAlreadyOver));
    assert_eq!(take(&mut game, vec![]), Err(NimError::GameAlreadyOver));
    assert_eq!(take(&mut game, vec![0, 1, 2, 3]), Err(NimError::GameAlreadyOver));
    assert_eq!(take(&mut game, vec![7]), Err(NimError::GameAlreadyOver));
    assert_eq!(game, finished);
}

#[test]
fn the_winner_is_the_player_who_takes_the_last_token() {
    let mut game = Nim::new(4, 3);
    take(&mut game, vec![0]).unwrap();
    take(&mut game, vec![1, 2]).unwrap();
    assert_eq!(game.current_player(), 2);
    take(&mut game, vec![3]).unwrap();
    assert_eq!(game.last_token_taken_by(), Some(2));
    assert_eq!(game.current_player(), 2);
}

#[test]
fn turns_go_round_robin() {
    let players: u8 = 3;
    let mut game = Nim::new(20, players);
    for n in 0..10usize {
        assert_eq!(game.current_player(), (n % players as usize) as u8);
        assert_eq!(take(&mut game, vec![n]), Ok(()));
    }
    assert_eq!(game.current_player(), (10 % 3) as u8);
}

#[test]
fn a_rejected_move_does_not_pass_the_turn() {
    let mut game = Nim::new(6, 2);
    take(&mut game, vec![0]).unwrap();
    assert_eq!(game.current_player(), 1);
    assert_eq!(take(&mut game, vec![0]), Err(NimError::TokenAlreadyMissing));
    assert_eq!(game.current_player(), 1);
}

#[test]
fn single_player_always_moves() {
    let mut game = Nim::new(7, 1);
    for n in 0..6usize {
        assert_eq!(take(&mut game, vec![n]), Ok(()));
        assert_eq!(game.current_player(), 0);
        assert_eq!(game.last_token_taken_by(), None);
    }
    assert_eq!(take(&mut game, vec![6]), Ok(()));
    assert_eq!(game.last_token_taken_by(), Some(0));
}

#[test]
fn game_without_tokens_never_ends_and_takes_no_move() {
    let mut game = Nim::new(0, 2);
    assert_eq!(game.last_token_taken_by(), None);
    assert_eq!(take(&mut game, vec![0]), Err(NimError::TokenOutOfBounds));
    assert_eq!(take(&mut game, vec![]), Err(NimError::NotEnoughtTokens));
    assert_eq!(game, Nim::new(0, 2));
}

#[test]
fn the_last_of_255_players_hands_over_to_the_first() {
    let mut game = Nim::new(300, 255);
    for n in 0..255usize {
        assert_eq!(game.current_player() as usize, n);
        assert_eq!(take(&mut game, vec![n]), Ok(()));
    }
    assert_eq!(game.current_player(), 0);
}

#[test]
fn a_copied_action_takes_the_same_tokens() {
    let action = NimAction::from_vec(vec![1, 2]);
    let copy = action.clone();
    let mut first = Nim::new(3, 2);
    let mut second = Nim::new(3, 2);
    assert_eq!(first.execute(&action), Ok(()));
    assert_eq!(second.execute(&copy), Ok(()));
    assert_eq!(first, second);
}
