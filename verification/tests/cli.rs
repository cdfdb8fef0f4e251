use sphere_wars::cli::Cli;
use sphere_wars::GameState;

fn cli(difficulty: &str) -> Cli {
    Cli { host: "127.0.0.1".to_string(), port: 8080, difficulty: difficulty.to_string() }
}

#[test]
fn the_three_difficulties_are_valid() {
    assert_eq!(cli("easy").validate(), Ok(()));
    assert_eq!(cli("medium").validate(), Ok(()));
    assert_eq!(cli("hard").validate(), Ok(()));
}

#[test]
fn every_other_difficulty_is_named_in_the_error() {
    assert_eq!(
        cli("insane").validate(),
        Err("Invalid difficulty 'insane'. Valid options are: easy, medium, hard".to_string())
    );
    assert_eq!(
        cli("").validate(),
        Err("Invalid difficulty ''. Valid options are: easy, medium, hard".to_string())
    );
    assert!(cli("Easy").validate().is_err());
    assert!(cli("hard ").validate().is_err());
}

#[test]
fn the_states_of_a_session() {
    assert_ne!(GameState::WaitingForPlayers, GameState::GameStarted);
    assert_ne!(GameState::GameStarted, GameState::GameOver);
    let state = GameState::WaitingForPlayers;
    let copy = state;
    assert_eq!(state, copy);
}
