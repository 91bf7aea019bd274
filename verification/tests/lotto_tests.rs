use broadcast_hub::lotto::Lotto;
use rand::rngs::SmallRng;
use rand::SeedableRng;

#[test]
fn fresh_pot_holds_one_through_size() {
    let mut rng = SmallRng::seed_from_u64(7);
    let mut lotto = Lotto::new(10);
    let mut all = lotto.take(10, &mut rng);
    all.sort();
    assert_eq!(all, (1..=10).collect::<Vec<u32>>());
}

#[test]
fn draw_hands_out_distinct_numbers_in_range() {
    let mut rng = SmallRng::seed_from_u64(42);
    let mut lotto = Lotto::new(49);
    let drawn = lotto.take(6, &mut rng);
    assert_eq!(drawn.len(), 6);
    for &n in &drawn {
        assert!((1..=49).contains(&n));
    }
    let mut sorted = drawn.clone();
    sorted.sort();
    sorted.dedup();
    assert_eq!(sorted.len(), 6);
}

#[test]
fn draw_actually_reorders_the_pot() {
    let mut rng = SmallRng::seed_from_u64(42);
    let mut lotto = Lotto::new(49);
    let drawn = lotto.take(49, &mut rng);
    assert_ne!(drawn, (1..=49).collect::<Vec<u32>>());
    let mut sorted = drawn;
    sorted.sort();
    assert_eq!(sorted, (1..=49).collect::<Vec<u32>>());
}

#[test]
fn asking_for_more_than_the_pot_gives_the_whole_pot() {
    let mut rng = SmallRng::seed_from_u64(1);
    let mut lotto = Lotto::new(5);
    let mut drawn = lotto.take(100, &mut rng);
    assert_eq!(drawn.len(), 5);
    drawn.sort();
    assert_eq!(drawn, vec![1, 2, 3, 4, 5]);
}
