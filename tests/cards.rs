use pool_game::cards::{action_from_draws, card_from_draws, CardDistribution};
use pool_game::stack::Action;
use rand::rngs::StdRng;
use rand::SeedableRng;

fn drawable(a: &Action) -> bool {
    match a {
        Action::Push(n) => (-9..=9).contains(n),
        Action::Add(n) => (2..=4).contains(n) || (-4..=-2).contains(n),
        _ => true,
    }
}

#[test]
fn push_draws_map_bucket_minus_nine() {
    assert_eq!(action_from_draws(0, 0, false), Action::Push(-9));
    assert_eq!(action_from_draws(0, 0, true), Action::Push(9));
    assert_eq!(action_from_draws(0, 6, true), Action::Push(3));
    assert_eq!(action_from_draws(0, 9, false), Action::Push(0));
}

#[test]
fn add_draws_map_to_magnitudes() {
    assert_eq!(action_from_draws(3, 0, false), Action::Add(2));
    assert_eq!(action_from_draws(3, 1, true), Action::Add(-3));
    assert_eq!(action_from_draws(3, 2, false), Action::Add(4));
    assert_eq!(action_from_draws(3, 3, true), Action::Add(-4));
}

#[test]
fn other_kinds_carry_no_value() {
    assert_eq!(action_from_draws(1, 0, false), Action::Pop);
    assert_eq!(action_from_draws(2, 0, true), Action::Reverse);
    assert_eq!(action_from_draws(4, 0, false), Action::Neg);
}

#[test]
fn sampled_cards_are_drawable() {
    let dist = CardDistribution::default();
    let mut rng = StdRng::seed_from_u64(7);
    let mut lengths = [0usize; 5];
    for _ in 0..500 {
        let card = dist.sample(&mut rng);
        assert!((1..=4).contains(&card.actions.len()));
        assert!(card.actions.iter().all(drawable));
        lengths[card.actions.len()] += 1;
    }
    assert!(lengths[2] > lengths[4]);
    assert!(lengths[1..].iter().all(|n| *n > 0));
}

#[test]
fn sampled_actions_cover_every_kind() {
    let dist = CardDistribution::default();
    let mut rng = StdRng::seed_from_u64(11);
    let mut seen = [false; 5];
    for _ in 0..500 {
        let a = dist.sample_action(&mut rng);
        assert!(drawable(&a));
        let k = match a {
            Action::Push(_) => 0,
            Action::Pop => 1,
            Action::Reverse => 2,
            Action::Add(_) => 3,
            Action::Neg => 4,
        };
        seen[k] = true;
    }
    assert!(seen.iter().all(|s| *s));
}

#[test]
fn same_seed_same_cards() {
    let dist = CardDistribution::default();
    let a = dist.deal(&mut StdRng::seed_from_u64(3));
    let b = dist.deal(&mut StdRng::seed_from_u64(3));
    assert_eq!(a.len(), 3);
    assert_eq!(a, b);
}

#[test]
fn card_follows_its_draws() {
    let card = card_from_draws(2, &vec![(0, 0, true), (1, 0, false), (3, 2, true)]);
    assert_eq!(card.actions, vec![Action::Push(9), Action::Pop, Action::Add(-4)]);
    let single = card_from_draws(0, &vec![(4, 0, false)]);
    assert_eq!(single.actions, vec![Action::Neg]);
}

#[test]
fn sampled_slots_name_actions() {
    let dist = CardDistribution::default();
    let mut rng = StdRng::seed_from_u64(5);
    let mut kinds = [0usize; 5];
    for _ in 0..1000 {
        let (kind, bucket, _) = dist.sample_slot(&mut rng);
        assert!(kind < 5);
        if kind == 0 {
            assert!(bucket < 10);
        }
        if kind == 3 {
            assert!(bucket < 4);
        }
        kinds[kind] += 1;
    }
    assert!(kinds[0] > kinds[4]);
    assert!(kinds.iter().all(|n| *n > 0));
}
