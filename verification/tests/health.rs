use hexagolm::combat::health::{remove_out_of_health, Health};

#[test]
fn health_sub() {
    assert!((Health::Dead - Health::Dead).is_dead());
    assert!((Health::new(20) - Health::Dead).is_alive());

    let mut my_health = Health::new(10);

    assert!((my_health - Health::Dead).is_alive());

    assert!((my_health - Health::new(20)).is_dead());

    assert_eq!(my_health - Health::new(3), Health::new(7));

    my_health -= Health::new(std::usize::MAX);

    assert!(my_health.is_dead());

    assert!((my_health + Health::new(1)).is_dead());

    my_health = Health::new(5);

    my_health -= Health::new(1);
    assert_eq!(my_health, Health::new(4));

    my_health -= Health::new(4);
    assert!(my_health.is_dead());
}

#[test]
fn health_add() {
    assert!((Health::Dead + Health::Dead).is_dead());
    assert!((Health::new(20) + Health::Dead).is_alive());

    let mut my_health = Health::Dead;
    assert!(my_health.is_dead());

    assert!((my_health + Health::Dead).is_dead());
    assert!((my_health + Health::new(20)).is_dead());

    my_health += Health::new(std::usize::MAX);
    assert!(my_health.is_dead());

    my_health = Health::new(1);

    assert_eq!(my_health + Health::new(1), Health::new(2));

    my_health += Health::new(1);
    assert_eq!(my_health, Health::new(2));
}

#[test]
fn health_misc() {
    let my_health = Health::Dead;
    assert_eq!(*my_health, 0);

    assert!(*my_health < 4);
    assert!(*my_health < *Health::new(4));
}

#[test]
fn health_from_count() {
    assert_eq!(Health::from(0usize), Health::Dead);
    assert_eq!(Health::from(7usize), Health::new(7));
}

#[test]
fn health_points_accessors() {
    let mut h = Health::new(9);
    assert_eq!(h.points(), Some(9));
    assert_eq!(h.points_ref(), Some(&9));
    if let Some(p) = h.points_mut() {
        *p = 3;
    }
    assert_eq!(h, Health::new(3));
    let mut d = Health::Dead;
    assert_eq!(d.points(), None);
    assert_eq!(d.points_ref(), None);
    assert!(d.points_mut().is_none());
}

#[test]
fn health_overflowing_heal_is_death() {
    assert!((Health::new(2) + Health::new(std::usize::MAX)).is_dead());
}

#[test]
fn health_heal_undoes_damage() {
    let h = Health::new(10);
    assert_eq!((h - Health::new(4)) + Health::new(4), h);
}

#[test]
fn health_zero_points_minus_nothing_is_death() {
    assert!((Health::new(0) - Health::Dead).is_dead());
}

#[test]
fn health_remove_out_of_health() {
    let healths = vec![(1u64, Health::new(3)), (2u64, Health::Dead), (3u64, Health::new(0)), (4u64, Health::Dead)];
    assert_eq!(remove_out_of_health(&healths), vec![2u64, 3u64, 4u64]);
}
