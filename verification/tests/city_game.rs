use ccb_labs::city_game::{GameStage, GameState, TurnOutcome};
use ccb_labs::text::trim_and_lowercase;

fn players(g: &GameState) -> Vec<String> {
    g.players.iter().cloned().collect()
}

#[test]
fn opening_position() {
    let g = GameState::new();
    assert_eq!(g.stage, GameStage::Start);
    assert_eq!(players(&g), vec!["Player1", "Player2"]);
    assert_eq!(g.cities, vec!["abobus"]);
    assert_eq!(g.current_word, "abobus");
    assert_eq!(g.last_char, 's');
}

#[test]
fn accepted_city_moves_the_game_on() {
    let mut g = GameState::new();
    let o = g.play_turn("sydney".to_string());
    assert_eq!(o, TurnOutcome::Accepted);
    assert_eq!(g.current_word, "sydney");
    assert_eq!(g.last_char, 'y');
    assert_eq!(g.cities, vec!["abobus", "sydney"]);
    assert_eq!(players(&g), vec!["Player2", "Player1"]);
}

#[test]
fn wrong_letter_is_refused_and_same_player_retries() {
    let mut g = GameState::new();
    let o = g.play_turn("moscow".to_string());
    assert_eq!(o, TurnOutcome::WrongLetter { expected: 's', got: 'm' });
    assert_eq!(players(&g), vec!["Player1", "Player2"]);
    assert_eq!(g.cities, vec!["abobus"]);
    assert_eq!(g.last_char, 's');
}

#[test]
fn named_city_is_refused() {
    let mut g = GameState::new();
    assert_eq!(g.play_turn("seoul".to_string()), TurnOutcome::Accepted);
    assert_eq!(g.play_turn("lisbon".to_string()), TurnOutcome::Accepted);
    assert_eq!(g.play_turn("nis".to_string()), TurnOutcome::Accepted);
    assert_eq!(g.play_turn("seoul".to_string()), TurnOutcome::AlreadyGuessed);
    assert_eq!(players(&g), vec!["Player2", "Player1"]);
    assert_eq!(g.cities, vec!["abobus", "seoul", "lisbon", "nis"]);
}

#[test]
fn raw_answers_are_trimmed_and_lowercased() {
    assert_eq!(trim_and_lowercase("  SaMaRa \n"), "samara");
    let mut g = GameState::new();
    assert_eq!(g.take_turn("  Samara\r\n"), Some(TurnOutcome::Accepted));
    assert_eq!(g.current_word, "samara");
    assert_eq!(g.last_char, 'a');
}

#[test]
fn blank_answer_cannot_be_played() {
    let mut g = GameState::new();
    assert_eq!(g.take_turn("   \n"), None);
    assert_eq!(players(&g), vec!["Player1", "Player2"]);
}

#[test]
fn winner_is_announced_only_with_one_player_left() {
    let mut g = GameState::new();
    assert_eq!(g.announce_winner(), None);
    g.players.pop_back();
    assert_eq!(g.announce_winner(), Some("Player1".to_string()));
    assert!(g.players.is_empty());
    assert_eq!(g.announce_winner(), Some("NO ONE".to_string()));
    assert_eq!(g.take_turn("sochi"), None);
}
