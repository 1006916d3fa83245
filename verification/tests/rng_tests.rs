use roguelite::rng::Rng;

#[test]
fn seeding_gives_the_known_state() {
    assert_eq!(Rng::new(1000).state, 1885529420806173946);
    assert_eq!(Rng::new(0).state, 1876011003808476466);
}

#[test]
fn draws_follow_the_known_sequence() {
    let mut rng = Rng::new(1000);
    let draws: Vec<u32> = (0..4).map(|_| rng.rand()).collect();
    assert_eq!(draws, vec![145417784, 121836839, 2011689480, 4234839764]);
    let mut zero = Rng::new(0);
    assert_eq!(zero.rand(), 3894649422);
}

#[test]
fn ranges_follow_the_known_sequence() {
    let mut rng = Rng::new(1000);
    let draws: Vec<i32> = (0..6).map(|_| rng.gen_range(0, 50)).collect();
    assert_eq!(draws, vec![1, 1, 23, 49, 40, 40]);
}

#[test]
fn ranges_hold_every_draw() {
    let mut rng = Rng::new(7);
    for _ in 0..10_000 {
        let r = rng.gen_range(-1000, 1000);
        assert!(r >= -1000 && r < 1000);
    }
    for _ in 0..1000 {
        assert_eq!(rng.gen_range(0, 9) == 9, false);
    }
}

#[test]
fn empty_range_gives_its_low_end_and_still_draws() {
    let mut rng = Rng::new(5);
    let before = rng.state;
    assert_eq!(rng.gen_range(4, 4), 4);
    assert_ne!(rng.state, before);
    assert_eq!(rng.gen_range(9, 2), 9);
}

#[test]
fn choosing_from_nothing_gives_nothing() {
    let mut rng = Rng::new(5);
    assert_eq!(rng.choose_index(0), None);
    for _ in 0..1000 {
        let i = rng.choose_index(7).unwrap();
        assert!(i < 7);
    }
}

#[test]
fn equal_generators_draw_equal_numbers() {
    let mut a = Rng::new(42);
    let mut b = a;
    for _ in 0..100 {
        assert_eq!(a.rand(), b.rand());
    }
    assert_eq!(a, b);
}
