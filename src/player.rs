use vstd::prelude::*;

use crate::stack::{Action, Card, Stack};

verus! {

/// A notification from the session to one player's connection.
#[derive(Debug, PartialEq, Eq)]
pub enum PlayerMessage {
    /// The id the session gave the player; kept by the connection, never sent on.
    Register(usize),
    NewPlayer { name: String },
    HostStart,
    Joined { players_name: Vec<String> },
    GameEnded,
    GameStarted,
    Start { point: i32 },
    StartFailed,
    RoundStart { player_name: String, stack: Stack, point: Option<i32> },
    OtherUseCard { card: Card },
    NewRound { cards: Vec<Card>, stack: Stack },
    Lose,
    GameEnd { winner_name: Option<String> },
    Win,
    InvalidOperation,
}

/// What a player's connection asks of the session.
#[derive(Debug, PartialEq, Eq)]
pub enum PlayerAction {
    /// A failure on the connection, with its cause.
    Error(String),
    /// A join whose connection can take replies before it has an id.
    JoinWithPlayer { name: String },
    /// A join as it comes off the wire, with no way to reply to it.
    Join { name: String },
    Start,
    UseCard { card_index: usize },
    Quit,
}

/// Who a notification goes to: a player by id, or the connection whose
/// join is being handled.
#[derive(Debug, Clone, Copy, PartialEq, Eq, Structural)]
pub enum Recipient {
    Player(usize),
    Joiner,
}

/// A notification and its recipient.
#[derive(Debug, PartialEq, Eq)]
pub struct Outgoing {
    pub to: Recipient,
    pub msg: PlayerMessage,
}

/// A notification with its text, pool and cards seen as sequences.
pub enum Note {
    Register(usize),
    NewPlayer(Seq<char>),
    HostStart,
    Joined(Seq<Seq<char>>),
    GameEnded,
    GameStarted,
    Start(i32),
    StartFailed,
    RoundStart(Seq<char>, Seq<i32>, Option<i32>),
    OtherUseCard(Seq<Action>),
    NewRound(Seq<Seq<Action>>, Seq<i32>),
    Lose,
    GameEnd(Option<Seq<char>>),
    Win,
    InvalidOperation,
}

/// The names, as sequences of characters.
pub open spec fn names_view(v: Seq<String>) -> Seq<Seq<char>> {
    v.map_values(|s: String| s@)
}

/// The cards, as sequences of actions.
pub open spec fn cards_view(v: Seq<Card>) -> Seq<Seq<Action>> {
    v.map_values(|c: Card| c.actions@)
}

impl View for PlayerMessage {
    type V = Note;

    open spec fn view(&self) -> Note {
        match self {
            PlayerMessage::Register(id) => Note::Register(*id),
            PlayerMessage::NewPlayer { name } => Note::NewPlayer(name@),
            PlayerMessage::HostStart => Note::HostStart,
            PlayerMessage::Joined { players_name } => Note::Joined(names_view(players_name@)),
            PlayerMessage::GameEnded => Note::GameEnded,
            PlayerMessage::GameStarted => Note::GameStarted,
            PlayerMessage::Start { point } => Note::Start(*point),
            PlayerMessage::StartFailed => Note::StartFailed,
            PlayerMessage::RoundStart { player_name, stack, point } => Note::RoundStart(
                player_name@,
                stack@,
                *point,
            ),
            PlayerMessage::OtherUseCard { card } => Note::OtherUseCard(card.actions@),
            PlayerMessage::NewRound { cards, stack } => Note::NewRound(cards_view(cards@), stack@),
            PlayerMessage::Lose => Note::Lose,
            PlayerMessage::GameEnd { winner_name } => Note::GameEnd(
                match winner_name {
                    Some(n) => Some(n@),
                    None => None,
                },
            ),
            PlayerMessage::Win => Note::Win,
            PlayerMessage::InvalidOperation => Note::InvalidOperation,
        }
    }
}

impl View for Outgoing {
    type V = (Recipient, Note);

    open spec fn view(&self) -> (Recipient, Note) {
        (self.to, self.msg@)
    }
}

/// The notifications with their recipients, in order.
pub open spec fn outgoing_view(v: Seq<Outgoing>) -> Seq<(Recipient, Note)> {
    v.map_values(|o: Outgoing| o@)
}

impl PlayerMessage {
    /// Whether the connection closes after passing this notification on.
    pub fn is_terminal(&self) -> (r: bool)
        ensures
            r <==> (self@ is GameStarted || self@ is GameEnded),
    {
        match self {
            PlayerMessage::GameStarted => true,
            PlayerMessage::GameEnded => true,
            _ => false,
        }
    }
}

/// What a connection does with a notification from the session.
#[derive(Debug, PartialEq, Eq)]
pub enum Relay {
    /// Nothing goes out (the session told the connection its id).
    Keep,
    /// The notification goes out to the client.
    Send(PlayerMessage),
    /// The notification goes out, then the connection closes.
    SendAndClose(PlayerMessage),
}

/// One player's connection to its session: it learns its id once, from
/// the session, and tags every action it passes on with it (0 before).
pub struct Bridge {
    id: Option<usize>,
}

impl Bridge {
    /// The id the connection tags its actions with.
    pub closed spec fn tag(&self) -> usize {
        match self.id {
            Some(id) => id,
            None => 0,
        }
    }

    /// A connection that has no id yet.
    pub fn new() -> (r: Bridge)
        ensures
            r.tag() == 0,
    {
        Bridge { id: None }
    }

    /// The id the connection tags its actions with.
    pub fn id(&self) -> (r: usize)
        ensures
            r == self.tag(),
    {
        match self.id {
            Some(id) => id,
            None => 0,
        }
    }

    /// Takes a notification from the session: an id is kept and goes no
    /// further; the notice that the game had started and the closing notice
    /// go out and close the connection; everything else goes out.
    pub fn from_session(&mut self, msg: PlayerMessage) -> (r: Relay)
        ensures
            msg is Register ==> r == Relay::Keep && final(self).tag() == msg->Register_0,
            !(msg is Register) ==> final(self).tag() == old(self).tag(),
            (msg is GameStarted || msg is GameEnded) ==> r == Relay::SendAndClose(msg),
            !(msg is Register || msg is GameStarted || msg is GameEnded) ==> r == Relay::Send(msg),
    {
        match msg {
            PlayerMessage::Register(id) => {
                self.id = Some(id);
                Relay::Keep
            },
            PlayerMessage::GameStarted => Relay::SendAndClose(msg),
            PlayerMessage::GameEnded => Relay::SendAndClose(msg),
            _ => Relay::Send(msg),
        }
    }

    /// Takes an action decoded from the client: a join gets a way to reply
    /// to it; the action goes to the session with the connection's id.
    pub fn from_client(&self, action: PlayerAction) -> (r: (PlayerAction, usize))
        ensures
            r.1 == self.tag(),
            action is Join ==> r.0 == (PlayerAction::JoinWithPlayer { name: action->Join_name }),
            !(action is Join) ==> r.0 == action,
    {
        let id = self.id();
        match action {
            PlayerAction::Join { name } => (PlayerAction::JoinWithPlayer { name }, id),
            _ => (action, id),
        }
    }

    /// The client went away: the session is told the player quit.
    pub fn closed_by_client(&self) -> (r: (PlayerAction, usize))
        ensures
            r == (PlayerAction::Quit, self.tag()),
    {
        (PlayerAction::Quit, self.id())
    }

    /// The connection failed: the session is told why.
    pub fn failed(&self, cause: String) -> (r: (PlayerAction, usize))
        ensures
            r == (PlayerAction::Error(cause), self.tag()),
    {
        (PlayerAction::Error(cause), self.id())
    }
}

} // verus!
