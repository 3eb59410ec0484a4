use hexagolm::combat::aiming::{WeaponTiming, Wielder, WielderState, SUMMONING_TIME};
use hexagolm::draw::Spritesheet;
use hexagolm::world::player::aiming::{
    readying_animation_length, ThrowLooks, Wielder as PlayerWielder, WielderState as PlayerWielderState,
};
use hexagolm::world::player::PlayerState;

fn timing() -> WeaponTiming {
    WeaponTiming { equip_time: 3, readying_time: 2 }
}

#[test]
fn wielder_starts_loaded() {
    let w = Wielder::new();
    assert_eq!(w.state(), WielderState::Loaded);
    assert!(!w.shooting());
}

#[test]
fn wielder_full_cycle() {
    let t = timing();
    let mut w = Wielder::new();
    w.advance_state(false, &t);
    assert_eq!(w.state(), WielderState::Loaded);
    w.advance_state(true, &t);
    assert_eq!(w.state(), WielderState::Readying { timer: 0 });
    w.advance_state(true, &t);
    assert_eq!(w.state(), WielderState::Readying { timer: 1 });
    w.advance_state(true, &t);
    assert_eq!(w.state(), WielderState::Readied);
    w.advance_state(true, &t);
    assert_eq!(w.state(), WielderState::Readied);
    w.advance_state(false, &t);
    assert_eq!(w.state(), WielderState::Shooting);
    assert!(w.shooting());
    w.advance_state(false, &t);
    assert_eq!(w.state(), WielderState::Summoning { timer: 0 });
    assert!(!w.shooting());
    for _ in 0..SUMMONING_TIME - 1 {
        w.advance_state(false, &t);
    }
    assert_eq!(w.state(), WielderState::Summoning { timer: SUMMONING_TIME - 1 });
    w.advance_state(true, &t);
    assert_eq!(w.state(), WielderState::Reloading { timer: 0 });
    w.advance_state(true, &t);
    assert_eq!(w.state(), WielderState::Reloading { timer: 1 });
    w.advance_state(true, &t);
    assert_eq!(w.state(), WielderState::Reloading { timer: 2 });
    w.advance_state(true, &t);
    assert_eq!(w.state(), WielderState::Loaded);
}

#[test]
fn wielder_release_while_readying_goes_back_to_loaded() {
    let t = timing();
    let mut w = Wielder::new();
    w.advance_state(true, &t);
    w.advance_state(false, &t);
    assert_eq!(w.state(), WielderState::Loaded);
}

#[test]
fn wielder_shooting_lasts_one_frame() {
    let t = WeaponTiming { equip_time: 1, readying_time: 1 };
    let mut w = Wielder::new();
    w.advance_state(true, &t);
    w.advance_state(true, &t);
    assert_eq!(w.state(), WielderState::Readied);
    w.advance_state(false, &t);
    assert!(w.shooting());
    w.advance_state(true, &t);
    assert!(!w.shooting());
}

#[test]
fn player_wielder_cycle() {
    let mut w = PlayerWielder::new();
    assert_eq!(w.state(), PlayerWielderState::Loaded);
    assert_eq!(w.throwing_frame(4), None);
    w.advance_state(true, 2, 3);
    assert_eq!(w.state(), PlayerWielderState::Readying { timer: 0 });
    assert_eq!(w.throwing_frame(3), Some(0));
    w.advance_state(true, 2, 3);
    w.advance_state(true, 2, 3);
    assert_eq!(w.state(), PlayerWielderState::Readying { timer: 2 });
    w.advance_state(true, 2, 3);
    assert_eq!(w.state(), PlayerWielderState::Readied);
    assert_eq!(w.throwing_frame(3), Some(3));
    w.advance_state(false, 2, 3);
    assert!(w.shooting());
    w.advance_state(false, 2, 3);
    assert_eq!(w.state(), PlayerWielderState::Reloading { timer: 0 });
    assert_eq!(w.throwing_frame(3), None);
    w.advance_state(false, 2, 3);
    assert_eq!(w.state(), PlayerWielderState::Reloading { timer: 1 });
    w.advance_state(false, 2, 3);
    assert_eq!(w.state(), PlayerWielderState::Loaded);
}

#[test]
fn player_wielder_needs_release_to_shoot() {
    let mut w = PlayerWielder::new();
    w.advance_state(true, 1, 1);
    w.advance_state(true, 1, 1);
    assert_eq!(w.state(), PlayerWielderState::Readied);
    for _ in 0..5 {
        w.advance_state(true, 1, 1);
        assert_eq!(w.state(), PlayerWielderState::Readied);
    }
}

#[test]
fn readying_length_from_sheet() {
    use_readying();
}

fn use_readying() {
    let ss = Spritesheet { rows: 1, columns: 4, total: 4, frame_rate: 3, hold_at: 0 };
    assert_eq!(readying_animation_length(Some(ss)), 10);
    let small = Spritesheet { rows: 1, columns: 2, total: 2, frame_rate: 5, hold_at: 0 };
    assert_eq!(readying_animation_length(Some(small)), 8);
    assert_eq!(readying_animation_length(None), 10);
}

#[test]
fn throw_looks_follow_the_mouse() {
    let mut w = PlayerWielder::new();
    assert_eq!(w.throw_looks(5, true), None);
    w.advance_state(true, 2, 5);
    assert_eq!(
        w.throw_looks(5, true),
        Some(ThrowLooks { frame: 0, state: PlayerState::Throwing, face_side: false })
    );
    assert_eq!(
        w.throw_looks(5, false),
        Some(ThrowLooks { frame: 0, state: PlayerState::Walking, face_side: true })
    );
}

#[test]
fn thrown_weapon_leaves_hand_unless_boomerang() {
    let mut w = PlayerWielder::new();
    assert!(w.keeps_weapon(false));
    w.advance_state(true, 1, 1);
    w.advance_state(true, 1, 1);
    w.advance_state(false, 1, 1);
    assert!(w.shooting());
    assert!(!w.keeps_weapon(false));
    assert!(w.keeps_weapon(true));

    let t = WeaponTiming { equip_time: 2, readying_time: 1 };
    let mut c = Wielder::new();
    c.advance_state(true, &t);
    c.advance_state(true, &t);
    c.advance_state(false, &t);
    assert!(!c.keeps_weapon(false));
    for _ in 0..SUMMONING_TIME + 1 {
        c.advance_state(false, &t);
    }
    assert_eq!(c.state(), WielderState::Reloading { timer: 0 });
    assert!(c.rearms());
    c.advance_state(false, &t);
    assert!(!c.rearms());
}
