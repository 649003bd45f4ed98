use pool_game::player::{Bridge, PlayerAction, PlayerMessage, Relay};

#[test]
fn bridge_tags_with_zero_before_register() {
    let b = Bridge::new();
    assert_eq!(b.id(), 0);
    assert_eq!(b.closed_by_client(), (PlayerAction::Quit, 0));
}

#[test]
fn bridge_learns_its_id() {
    let mut b = Bridge::new();
    assert_eq!(b.from_session(PlayerMessage::Register(4)), Relay::Keep);
    assert_eq!(b.id(), 4);
    assert_eq!(b.from_client(PlayerAction::UseCard { card_index: 2 }), (PlayerAction::UseCard { card_index: 2 }, 4));
    assert_eq!(b.failed("gone".to_string()), (PlayerAction::Error("gone".to_string()), 4));
}

#[test]
fn bridge_upgrades_join() {
    let b = Bridge::new();
    let r = b.from_client(PlayerAction::Join { name: "ann".to_string() });
    assert_eq!(r, (PlayerAction::JoinWithPlayer { name: "ann".to_string() }, 0));
}

#[test]
fn bridge_closes_after_terminal_notices() {
    let mut b = Bridge::new();
    assert_eq!(b.from_session(PlayerMessage::GameStarted), Relay::SendAndClose(PlayerMessage::GameStarted));
    assert_eq!(b.from_session(PlayerMessage::GameEnded), Relay::SendAndClose(PlayerMessage::GameEnded));
    assert_eq!(b.from_session(PlayerMessage::Lose), Relay::Send(PlayerMessage::Lose));
    assert!(PlayerMessage::GameEnded.is_terminal());
    assert!(!PlayerMessage::Win.is_terminal());
}
