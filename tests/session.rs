use pool_game::player::{Outgoing, PlayerAction, PlayerMessage, Recipient};
use pool_game::session::{next_id, settle_points, GameError, Message, Phase, Session, Standing};
use pool_game::stack::Card;
use rand::rngs::StdRng;
use rand::SeedableRng;

fn act(s: &mut Session, rng: &mut StdRng, action: PlayerAction, id: usize) -> Result<Vec<Outgoing>, GameError> {
    s.handle(Message::Internal(action, id), rng)
}

fn join(s: &mut Session, rng: &mut StdRng, name: &str) -> Vec<Outgoing> {
    act(s, rng, PlayerAction::JoinWithPlayer { name: name.to_string() }, 0).unwrap()
}

fn to(r: Recipient, msg: PlayerMessage) -> Outgoing {
    Outgoing { to: r, msg }
}

fn lobby_of(names: &[&str], rng: &mut StdRng) -> Session {
    let mut s = Session::new();
    for n in names {
        join(&mut s, rng, n);
    }
    s
}

#[test]
fn first_join_registers_and_may_start() {
    let mut rng = StdRng::seed_from_u64(1);
    let mut s = Session::new();
    let out = join(&mut s, &mut rng, "ann");
    assert_eq!(
        out,
        vec![
            to(Recipient::Joiner, PlayerMessage::Register(1)),
            to(Recipient::Joiner, PlayerMessage::Joined { players_name: vec![] }),
            to(Recipient::Joiner, PlayerMessage::HostStart),
        ]
    );
    assert_eq!(s.player_count(), 1);
    assert_eq!(s.phase(), Phase::Lobby);
}

#[test]
fn second_join_is_announced() {
    let mut rng = StdRng::seed_from_u64(1);
    let mut s = lobby_of(&["ann"], &mut rng);
    let out = join(&mut s, &mut rng, "bob");
    assert_eq!(
        out,
        vec![
            to(Recipient::Player(1), PlayerMessage::NewPlayer { name: "bob".to_string() }),
            to(Recipient::Joiner, PlayerMessage::Register(2)),
            to(Recipient::Joiner, PlayerMessage::Joined { players_name: vec!["ann".to_string()] }),
        ]
    );
}

#[test]
fn ids_are_not_reused_after_quit() {
    let mut rng = StdRng::seed_from_u64(1);
    let mut s = lobby_of(&["ann", "bob"], &mut rng);
    assert!(act(&mut s, &mut rng, PlayerAction::Quit, 2).unwrap().is_empty());
    let out = join(&mut s, &mut rng, "cat");
    assert_eq!(out[1], to(Recipient::Joiner, PlayerMessage::Register(3)));
}

#[test]
fn start_alone_fails() {
    let mut rng = StdRng::seed_from_u64(1);
    let mut s = lobby_of(&["ann"], &mut rng);
    let out = act(&mut s, &mut rng, PlayerAction::Start, 1).unwrap();
    assert_eq!(out, vec![to(Recipient::Player(1), PlayerMessage::StartFailed)]);
    assert_eq!(s.phase(), Phase::Lobby);
    assert_eq!(s.point(1), None);
}

#[test]
fn start_with_two_gives_ten_points() {
    let mut rng = StdRng::seed_from_u64(2);
    let mut s = lobby_of(&["ann", "bob"], &mut rng);
    let out = act(&mut s, &mut rng, PlayerAction::Start, 1).unwrap();
    assert_eq!(s.phase(), Phase::Playing);
    assert_eq!(s.point(1), Some(10));
    assert_eq!(s.point(2), Some(10));
    assert_eq!(out[0], to(Recipient::Player(1), PlayerMessage::Start { point: 10 }));
    assert_eq!(out[1], to(Recipient::Player(2), PlayerMessage::Start { point: 10 }));
    let actor = s.actor();
    assert!(actor == 1 || actor == 2);
    let hands: Vec<&Vec<Card>> = out
        .iter()
        .filter_map(|o| match &o.msg {
            PlayerMessage::NewRound { cards, .. } => {
                assert_eq!(o.to, Recipient::Player(actor));
                Some(cards)
            }
            _ => None,
        })
        .collect();
    assert_eq!(hands.len(), 1);
    assert_eq!(hands[0].len(), 3);
    let starts = out.iter().filter(|o| matches!(o.msg, PlayerMessage::RoundStart { .. })).count();
    assert_eq!(starts, 2);
}

#[test]
fn quit_leaves_one_winner() {
    let mut rng = StdRng::seed_from_u64(3);
    let mut s = lobby_of(&["ann", "bob"], &mut rng);
    act(&mut s, &mut rng, PlayerAction::Start, 1).unwrap();
    let out = act(&mut s, &mut rng, PlayerAction::Quit, 2).unwrap();
    assert_eq!(s.phase(), Phase::Ended);
    assert_eq!(
        out,
        vec![
            to(Recipient::Player(1), PlayerMessage::Win),
            to(Recipient::Player(1), PlayerMessage::GameEnd { winner_name: Some("ann".to_string()) }),
        ]
    );
    let closing = s.close();
    assert_eq!(closing, vec![to(Recipient::Player(1), PlayerMessage::GameEnded)]);
    assert_eq!(s.phase(), Phase::Terminated);
}

#[test]
fn quit_of_three_opens_new_round() {
    let mut rng = StdRng::seed_from_u64(4);
    let mut s = lobby_of(&["ann", "bob", "cat"], &mut rng);
    act(&mut s, &mut rng, PlayerAction::Start, 1).unwrap();
    let actor = s.actor();
    let out = act(&mut s, &mut rng, PlayerAction::Quit, actor).unwrap();
    assert_eq!(s.phase(), Phase::Playing);
    let next = s.actor();
    assert_ne!(next, actor);
    let expected = if actor == 3 { 1 } else { actor + 1 };
    assert_eq!(next, expected);
    assert_eq!(out.iter().filter(|o| matches!(o.msg, PlayerMessage::RoundStart { .. })).count(), 2);
}

#[test]
fn empty_lobby_is_abandoned_on_tick() {
    let mut rng = StdRng::seed_from_u64(1);
    let mut s = Session::new();
    assert_eq!(s.handle(Message::CheckAlive, &mut rng), Err(GameError::Abandoned));
    assert_eq!(s.phase(), Phase::Ended);
    assert!(s.close().is_empty());
}

#[test]
fn tick_in_busy_lobby_does_nothing() {
    let mut rng = StdRng::seed_from_u64(1);
    let mut s = lobby_of(&["ann"], &mut rng);
    assert_eq!(s.handle(Message::CheckAlive, &mut rng), Ok(vec![]));
    assert_eq!(s.phase(), Phase::Lobby);
}

#[test]
fn raw_join_is_a_protocol_violation() {
    let mut rng = StdRng::seed_from_u64(1);
    let mut s = lobby_of(&["ann"], &mut rng);
    let r = act(&mut s, &mut rng, PlayerAction::Join { name: "x".to_string() }, 0);
    assert_eq!(r, Err(GameError::ProtocolViolation));
    assert_eq!(s.close(), vec![to(Recipient::Player(1), PlayerMessage::GameEnded)]);
}

#[test]
fn last_quit_in_lobby_ends_session() {
    let mut rng = StdRng::seed_from_u64(1);
    let mut s = lobby_of(&["ann"], &mut rng);
    assert_eq!(act(&mut s, &mut rng, PlayerAction::Quit, 1), Err(GameError::AllQuit));
    assert_eq!(s.player_count(), 0);
}

#[test]
fn join_after_start_is_refused() {
    let mut rng = StdRng::seed_from_u64(5);
    let mut s = lobby_of(&["ann", "bob"], &mut rng);
    act(&mut s, &mut rng, PlayerAction::Start, 1).unwrap();
    let out = join(&mut s, &mut rng, "cat");
    assert_eq!(out, vec![to(Recipient::Joiner, PlayerMessage::GameStarted)]);
    let out = act(&mut s, &mut rng, PlayerAction::Start, 2).unwrap();
    assert_eq!(out, vec![to(Recipient::Player(2), PlayerMessage::GameStarted)]);
    assert_eq!(s.player_count(), 2);
}

#[test]
fn wrong_turn_or_index_is_invalid() {
    let mut rng = StdRng::seed_from_u64(6);
    let mut s = lobby_of(&["ann", "bob"], &mut rng);
    act(&mut s, &mut rng, PlayerAction::Start, 1).unwrap();
    let actor = s.actor();
    let other = if actor == 1 { 2 } else { 1 };
    let out = act(&mut s, &mut rng, PlayerAction::UseCard { card_index: 0 }, other).unwrap();
    assert_eq!(out, vec![to(Recipient::Player(other), PlayerMessage::InvalidOperation)]);
    let out = act(&mut s, &mut rng, PlayerAction::UseCard { card_index: 3 }, actor).unwrap();
    assert_eq!(out, vec![to(Recipient::Player(actor), PlayerMessage::InvalidOperation)]);
    assert_eq!(s.actor(), actor);
}

#[test]
fn playing_a_card_passes_the_turn() {
    let mut rng = StdRng::seed_from_u64(8);
    let mut s = lobby_of(&["ann", "bob"], &mut rng);
    act(&mut s, &mut rng, PlayerAction::Start, 1).unwrap();
    let actor = s.actor();
    let other = if actor == 1 { 2 } else { 1 };
    let out = act(&mut s, &mut rng, PlayerAction::UseCard { card_index: 1 }, actor).unwrap();
    let seen: Vec<&Outgoing> = out.iter().filter(|o| matches!(o.msg, PlayerMessage::OtherUseCard { .. })).collect();
    assert_eq!(seen.len(), 1);
    assert_eq!(seen[0].to, Recipient::Player(other));
    assert_eq!(s.phase(), Phase::Playing);
    assert_eq!(s.actor(), other);
}

#[test]
fn many_turns_keep_players_above_zero() {
    let mut rng = StdRng::seed_from_u64(9);
    let mut s = lobby_of(&["ann", "bob", "cat"], &mut rng);
    act(&mut s, &mut rng, PlayerAction::Start, 1).unwrap();
    let mut turns = 0;
    while s.phase() == Phase::Playing && turns < 300 {
        let actor = s.actor();
        assert!(s.point(actor).unwrap() > 0);
        let out = act(&mut s, &mut rng, PlayerAction::UseCard { card_index: turns % 3 }, actor).unwrap();
        for o in &out {
            if o.msg == PlayerMessage::Lose {
                if let Recipient::Player(id) = o.to {
                    assert_eq!(s.point(id), None);
                }
            }
        }
        assert!(s.pool().len() < 10);
        for id in 1..=3 {
            assert!(s.point(id).map_or(true, |p| p > 0));
        }
        turns += 1;
    }
    let closing = s.close();
    assert_eq!(closing.len(), 3);
    assert!(closing.iter().all(|o| o.msg == PlayerMessage::GameEnded));
}

#[test]
fn next_id_wraps_round() {
    let active = vec![Standing { id: 2, point: 1 }, Standing { id: 5, point: 1 }, Standing { id: 9, point: 1 }];
    assert_eq!(next_id(&active, 2), 5);
    assert_eq!(next_id(&active, 3), 5);
    assert_eq!(next_id(&active, 5), 9);
    assert_eq!(next_id(&active, 9), 2);
    assert_eq!(next_id(&active, 0), 2);
    let alone = vec![Standing { id: 4, point: 3 }];
    assert_eq!(next_id(&alone, 4), 4);
}

#[test]
fn settle_pays_actor_and_charges_others() {
    let mut active = vec![Standing { id: 1, point: 10 }, Standing { id: 2, point: 3 }, Standing { id: 3, point: 8 }];
    let lost = settle_points(&mut active, 1, 7, 5);
    assert_eq!(lost, vec![2]);
    assert_eq!(active, vec![Standing { id: 1, point: 17 }, Standing { id: 3, point: 3 }]);
}

#[test]
fn settle_can_eliminate_the_actor() {
    let mut active = vec![Standing { id: 1, point: 2 }, Standing { id: 2, point: 3 }];
    let lost = settle_points(&mut active, 1, -2, -1);
    assert_eq!(lost, vec![1]);
    assert_eq!(active, vec![Standing { id: 2, point: 4 }]);
}

#[test]
fn settle_holds_points_within_i32() {
    let mut active = vec![Standing { id: 1, point: i32::MAX - 1 }];
    let lost = settle_points(&mut active, 1, 100, 0);
    assert!(lost.is_empty());
    assert_eq!(active, vec![Standing { id: 1, point: i32::MAX }]);
}
