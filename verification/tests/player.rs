use hexagolm::draw::ArtHandle;
use hexagolm::phys::movement::WalkDirectionArtConfig;
use hexagolm::world::player::{Direction, EachDirection, WalkAnimator};

#[test]
fn direction_of_movement() {
    assert_eq!(Direction::of_movement(true, true), Direction::Side);
    assert_eq!(Direction::of_movement(false, true), Direction::Up);
    assert_eq!(Direction::of_movement(false, false), Direction::Down);
}

#[test]
fn each_direction_get() {
    let e = EachDirection { up: 1, side: 2, down: 3 };
    assert_eq!(*e.get(Direction::Up), 1);
    assert_eq!(*e.get(Direction::Side), 2);
    assert_eq!(*e.get(Direction::Down), 3);
}

#[test]
fn walk_animator_turns_once() {
    let mut w = WalkAnimator::new();
    assert_eq!(w.direction, Direction::Down);
    assert!(!w.turn(false, false));
    assert!(w.turn(true, false));
    assert_eq!(w.direction, Direction::Side);
    assert!(!w.turn(true, true));
}

#[test]
fn walk_art_for() {
    let c = WalkDirectionArtConfig { side: ArtHandle(1), down: ArtHandle(2) };
    assert_eq!(c.art_for(true), ArtHandle(1));
    assert_eq!(c.art_for(false), ArtHandle(2));
}
