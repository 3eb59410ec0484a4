use hexagolm::draw::ArtFiles;
use hexagolm::draw::insert_ghosts;
use std::collections::HashMap;
use hexagolm::draw::{
    animate, clear_ghosts, Align, AnimatingDeath, AnimationFrame, ArtHandle, DeathAnimation,
    GhostState, Spritesheet,
};
use hexagolm::farm::{growing, Growth};
use hexagolm::graphics::fade::{fade, Fade, FadeStep, Transparency};
use hexagolm::graphics::sprite_sheet::{animate as animate_sheets, Animated, Animation, Error};
use hexagolm::world::Dead;

#[test]
fn fade_no_visual() {
    assert_eq!(Fade::no_visual(5), Fade { duration: 5, fade_start: 5 });
}

#[test]
fn fade_counts_down_and_despawns() {
    let mut fading = vec![(1u64, Fade { duration: 4, fade_start: 10 }), (2u64, Fade::no_visual(1)), (3u64, Fade::no_visual(3))];
    let steps = fade(&mut fading);
    assert_eq!(
        steps,
        vec![
            FadeStep { entity: 1, transparency: Some(Transparency { left: 3, over: 10 }), despawn: false },
            FadeStep { entity: 2, transparency: Some(Transparency { left: 0, over: 1 }), despawn: true },
            FadeStep { entity: 3, transparency: Some(Transparency { left: 2, over: 3 }), despawn: false },
        ]
    );
    assert_eq!(fading[0].1.duration, 3);
    assert_eq!(fading[1].1.duration, 0);
}

#[test]
fn fade_before_fade_start_is_opaque() {
    let mut fading = vec![(1u64, Fade { duration: 10, fade_start: 4 })];
    let steps = fade(&mut fading);
    assert_eq!(steps[0].transparency, None);
    assert!(!steps[0].despawn);
}

#[test]
fn animation_advances_through_frames() {
    let durations: Vec<u128> = vec![100, 200];
    let mut a = Animation::new();
    assert_eq!(a.advance(&durations, 0), Some(1));
    assert_eq!(a.advance(&durations, 150), None);
    assert_eq!(a.advance(&durations, 60), Some(0));
    assert_eq!(a.advance(&durations, 100), None);
    assert_eq!(a.advance(&durations, 1), Some(1));
}

#[test]
fn animate_reports_missing_entries() {
    let mut ok = vec![Animated {
        appearance_name: "cow".to_string(),
        sheet: Some(Some(vec![5, 5])),
        animation: Animation::default(),
        index: 0,
    }];
    assert_eq!(animate_sheets(&mut ok, 1), Ok(()));
    assert_eq!(ok[0].index, 1);

    let mut bad = vec![
        Animated { appearance_name: "cow".to_string(), sheet: Some(Some(vec![5])), animation: Animation::new(), index: 3 },
        Animated { appearance_name: "rock".to_string(), sheet: Some(None), animation: Animation::new(), index: 0 },
        Animated { appearance_name: "tree".to_string(), sheet: None, animation: Animation::new(), index: 0 },
    ];
    assert_eq!(animate_sheets(&mut bad, 1), Err(Error::NoFrameMillisField("rock".to_string())));
    assert_eq!(bad[0].index, 0);

    let mut none = vec![Animated { appearance_name: "tree".to_string(), sheet: None, animation: Animation::new(), index: 0 }];
    assert_eq!(animate_sheets(&mut none, 1), Err(Error::NoEntry("tree".to_string())));
}

#[test]
fn growth_counts_down() {
    let mut growths = vec![
        (1u64, Growth { after: "wheat".to_string(), duration: 1 }),
        (2u64, Growth { after: "corn".to_string(), duration: 3 }),
    ];
    let grown = growing(&mut growths);
    assert_eq!(grown, vec![(1u64, "wheat".to_string())]);
    assert_eq!(growths[1].1.duration, 2);
    let mut g = Growth { after: "x".to_string(), duration: 2 };
    assert!(!g.grow());
    assert!(g.grow());
}

#[test]
fn spritesheet_frames() {
    let ss = Spritesheet { rows: 1, columns: 4, total: 4, frame_rate: 3, hold_at: 2 };
    assert_eq!(AnimationFrame(0).current_frame(ss), 0);
    assert_eq!(AnimationFrame(7).current_frame(ss), 2);
    assert_eq!(AnimationFrame(13).current_frame(ss), 0);
    assert!(AnimationFrame(8).at_holding_frame(ss));
    assert!(!AnimationFrame(9).at_holding_frame(ss));
    assert_eq!(Spritesheet::default(), Spritesheet { rows: 1, columns: 1, total: 1, frame_rate: 1, hold_at: 0 });
}

#[test]
fn animation_frames_tick() {
    let mut frames = vec![AnimationFrame(0), AnimationFrame(5)];
    animate(&mut frames);
    assert_eq!(frames, vec![AnimationFrame(1), AnimationFrame(6)]);
}

#[test]
fn align_and_death_animation() {
    assert!(Align::default().is_bottom());
    assert!(!Align::Center.is_bottom());
    assert_eq!(DeathAnimation::new(ArtHandle::new_unchecked(3)).art, ArtHandle(3));
}

#[test]
fn ghosts_die_after_their_animation() {
    let ss = Spritesheet { rows: 1, columns: 2, total: 2, frame_rate: 1, hold_at: 0 };
    let mut ghosts = vec![
        GhostState { entity: 1, animating: AnimatingDeath(false), frame: AnimationFrame(1), sheet: ss },
        GhostState { entity: 2, animating: AnimatingDeath(true), frame: AnimationFrame(2), sheet: ss },
        GhostState { entity: 3, animating: AnimatingDeath(false), frame: AnimationFrame(0), sheet: ss },
    ];
    let mut dead = Dead::new();
    clear_ghosts(&mut ghosts, &mut dead);
    assert!(ghosts[0].animating.0);
    assert!(!dead.is_marked(1));
    assert!(dead.is_marked(2));
    assert!(!dead.is_marked(3));
}

#[test]
fn art_files_lookup() {
    let files = ArtFiles { files: vec!["a.png".to_string(), "b.png".to_string(), "a.png".to_string()] };
    assert_eq!(files.art("b.png"), ArtHandle(1));
    assert_eq!(files.art("a.png"), ArtHandle(0));
}

#[test]
fn ghosts_for_dead_with_animations() {
    let mut dead = Dead::new();
    dead.mark(1);
    dead.mark(2);
    let mut anims = HashMap::new();
    anims.insert(2u64, DeathAnimation::new(ArtHandle(5)));
    anims.insert(3u64, DeathAnimation::new(ArtHandle(6)));
    assert_eq!(insert_ghosts(&dead, &anims), vec![(2u64, DeathAnimation { art: ArtHandle(5) })]);
}
