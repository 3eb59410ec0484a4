use hexagolm::state::{farming_transition, GameState, StateFlow};

#[test]
fn game_starts_entering_farming() {
    let mut f = StateFlow::new();
    assert_eq!(f.take_entered(), Some(GameState::FARMING));
    assert_eq!(f.take_entered(), None);
}

#[test]
fn transition_enters_next_and_exits_current() {
    let mut f = StateFlow::new();
    f.take_entered();
    assert_eq!(f.transition(None), None);
    assert_eq!(f.state, GameState::FARMING);
    assert_eq!(f.transition(Some(GameState::COMBAT)), Some(GameState::FARMING));
    assert_eq!(f.take_entered(), Some(GameState::COMBAT));
    assert_eq!(f.take_entered(), None);
}

#[test]
fn farm_moves_to_combat_on_key() {
    assert_eq!(farming_transition(true), Some(GameState::COMBAT));
    assert_eq!(farming_transition(false), None);
}
