use pool_game::stack::{Action, Card, Overflow, Stack};

fn pushed(cap: usize, values: &[i32]) -> (Stack, Vec<Option<Overflow>>) {
    let mut s = Stack::new(cap);
    let mut outs = Vec::new();
    for v in values {
        outs.push(s.push(*v));
    }
    (s, outs)
}

#[test]
fn capacity_three_overflow_pays_first_and_last() {
    let (s, outs) = pushed(3, &[5, 2, 7]);
    assert_eq!(outs[0], None);
    assert_eq!(outs[1], None);
    assert_eq!(outs[2], Some(Overflow { other_lost: 5, self_gain: 7 }));
    assert!(s.contents().is_empty());
}

#[test]
fn pool_never_reaches_capacity() {
    let (s, outs) = pushed(4, &[1, 2, 3, 4, 5, 6, 7, 8, 9]);
    let fired: Vec<usize> = outs.iter().enumerate().filter(|(_, o)| o.is_some()).map(|(i, _)| i).collect();
    assert_eq!(fired, vec![3, 7]);
    assert_eq!(outs[7], Some(Overflow { other_lost: 5, self_gain: 8 }));
    assert_eq!(s.contents(), &vec![9]);
    assert!(s.contents().len() < s.len());
}

#[test]
fn capacity_one_pays_every_push() {
    let (s, outs) = pushed(1, &[4, -3]);
    assert_eq!(outs[0], Some(Overflow { other_lost: 4, self_gain: 4 }));
    assert_eq!(outs[1], Some(Overflow { other_lost: -3, self_gain: -3 }));
    assert!(s.contents().is_empty());
}

#[test]
fn default_pool_holds_ten() {
    let s = Stack::default();
    assert_eq!(s.len(), 10);
    assert!(s.contents().is_empty());
    let (s, outs) = pushed(10, &[1, 2, 3, 4, 5, 6, 7, 8, 9]);
    assert!(outs.iter().all(|o| o.is_none()));
    assert_eq!(s.contents().len(), 9);
}

#[test]
fn empty_pool_forgives_pop_add_and_neg() {
    let mut s = Stack::new(5);
    s.pop();
    s.add(3);
    s.neg();
    s.reverse();
    assert!(s.contents().is_empty());
}

#[test]
fn pop_reverse_add_neg_change_the_pool() {
    let (mut s, _) = pushed(10, &[1, 2, 3]);
    s.reverse();
    assert_eq!(s.contents(), &vec![3, 2, 1]);
    s.add(4);
    assert_eq!(s.contents(), &vec![3, 2, 5]);
    s.neg();
    assert_eq!(s.contents(), &vec![3, 2, -5]);
    s.pop();
    assert_eq!(s.contents(), &vec![3, 2]);
}

#[test]
fn add_and_neg_wrap() {
    let (mut s, _) = pushed(10, &[i32::MAX]);
    s.add(1);
    assert_eq!(s.contents(), &vec![i32::MIN]);
    s.neg();
    assert_eq!(s.contents(), &vec![i32::MIN]);
}

#[test]
fn use_action_dispatches() {
    let mut s = Stack::new(2);
    assert_eq!(s.use_action(&Action::Push(6)), None);
    assert_eq!(s.use_action(&Action::Add(-2)), None);
    assert_eq!(s.contents(), &vec![4]);
    assert_eq!(s.use_action(&Action::Neg), None);
    assert_eq!(s.use_action(&Action::Push(1)), Some(Overflow { other_lost: -4, self_gain: 1 }));
    assert_eq!(s.use_action(&Action::Pop), None);
    assert_eq!(s.use_action(&Action::Reverse), None);
    assert!(s.contents().is_empty());
}

#[test]
fn card_may_overflow_twice() {
    let mut s = Stack::new(2);
    let card = Card { actions: vec![Action::Push(1), Action::Push(2), Action::Push(3), Action::Push(4)] };
    let outs = s.use_card(&card);
    assert_eq!(outs, vec![Overflow { other_lost: 1, self_gain: 2 }, Overflow { other_lost: 3, self_gain: 4 }]);
    assert!(s.contents().is_empty());
}

#[test]
fn card_without_overflow_returns_nothing() {
    let mut s = Stack::new(10);
    let card = Card { actions: vec![Action::Push(1), Action::Push(2), Action::Reverse, Action::Pop] };
    assert!(s.use_card(&card).is_empty());
    assert_eq!(s.contents(), &vec![2]);
    let copy = card.duplicate();
    assert_eq!(copy, card);
}

#[test]
fn pool_holds_pushes_since_last_payout() {
    let (s, outs) = pushed(3, &[1, 2, 3, 4, 5, 6, 7, 8]);
    let paid: Vec<Overflow> = outs.into_iter().flatten().collect();
    assert_eq!(paid, vec![Overflow { other_lost: 1, self_gain: 3 }, Overflow { other_lost: 4, self_gain: 6 }]);
    assert_eq!(s.contents(), &vec![7, 8]);
}
