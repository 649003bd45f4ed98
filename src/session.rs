use rand::rngs::StdRng;
use rand::Rng;
use vstd::prelude::*;

use crate::cards::{drawable_card, CardDistribution};
use crate::player::{cards_view, names_view, outgoing_view, Note, Outgoing, PlayerAction, PlayerMessage, Recipient};
use crate::stack::{Action, Card, Overflow, Stack};

verus! {

/// Where a session stands: it only ever moves forward through these.
#[derive(Debug, Clone, Copy, PartialEq, Eq, Structural)]
pub enum Phase {
    Lobby,
    Playing,
    Ended,
    Terminated,
}

/// Why a session has to close early.
#[derive(Debug, Clone, Copy, PartialEq, Eq, Structural)]
pub enum GameError {
    /// A liveness check found the lobby empty.
    Abandoned,
    /// A join arrived with no way to reply to it.
    ProtocolViolation,
    /// Every player has left.
    AllQuit,
}

/// One input to the session: a player's action with the sender's id, or a liveness tick.
#[derive(Debug, PartialEq, Eq)]
pub enum Message {
    Internal(PlayerAction, usize),
    CheckAlive,
}

/// A player on the roster.
#[derive(Debug)]
pub struct Member {
    pub id: usize,
    pub name: String,
}

/// A player still in the round, and their points.
#[derive(Debug, Clone, Copy, PartialEq, Eq)]
pub struct Standing {
    pub id: usize,
    pub point: i32,
}

/// What a session holds, seen as values.
pub struct SessionView {
    pub phase: Phase,
    /// The players by id, ascending, with their names.
    pub roster: Seq<(usize, Seq<char>)>,
    /// The players still in the round by id, ascending, with their points.
    pub active: Seq<(usize, i32)>,
    pub pool: Seq<i32>,
    /// The id of the player whose turn it is.
    pub actor: usize,
    /// The three cards offered to that player.
    pub hand: Seq<Seq<Action>>,
    /// The last id given out.
    pub last_id: usize,
}

/// The ids of a keyed sequence, in order.
pub open spec fn keys<T>(s: Seq<(usize, T)>) -> Seq<usize> {
    s.map_values(|e: (usize, T)| e.0)
}

/// Strictly ascending.
pub open spec fn ascending(s: Seq<usize>) -> bool {
    forall|i: int, j: int| 0 <= i < j < s.len() ==> s[i] < s[j]
}

/// The entries without the one keyed `id`.
pub open spec fn without<T>(s: Seq<(usize, T)>, id: usize) -> Seq<(usize, T)>
    decreases s.len(),
{
    if s.len() == 0 {
        s
    } else if s.last().0 == id {
        without(s.drop_last(), id)
    } else {
        without(s.drop_last(), id).push(s.last())
    }
}

/// The value keyed `id`, if any.
pub open spec fn lookup<T>(s: Seq<(usize, T)>, id: usize) -> Option<T>
    decreases s.len(),
{
    if s.len() == 0 {
        None
    } else if s.last().0 == id {
        Some(s.last().1)
    } else {
        lookup(s.drop_last(), id)
    }
}

/// The same notification to each of the ids, in order.
pub open spec fn to_all(ids: Seq<usize>, n: Note) -> Seq<(Recipient, Note)> {
    ids.map_values(|id: usize| (Recipient::Player(id), n))
}

/// The smallest of the ids (0 for none).
pub open spec fn least(s: Seq<usize>) -> usize
    decreases s.len(),
{
    if s.len() == 0 {
        0
    } else if s.len() == 1 || s.last() < least(s.drop_last()) {
        s.last()
    } else {
        least(s.drop_last())
    }
}

/// The smallest of the ids above `id`, if any.
pub open spec fn least_above(s: Seq<usize>, id: usize) -> Option<usize>
    decreases s.len(),
{
    if s.len() == 0 {
        None
    } else {
        let p = least_above(s.drop_last(), id);
        if s.last() > id && (p is None || s.last() < p->0) {
            Some(s.last())
        } else {
            p
        }
    }
}

/// Whose turn follows `id`'s: the smallest id above it, or else the smallest of all.
pub open spec fn next_active(ids: Seq<usize>, id: usize) -> usize {
    match least_above(ids, id) {
        Some(n) => n,
        None => least(ids),
    }
}

/// `x` held within the range of `i32`.
pub open spec fn clamp(x: int) -> int {
    if x > i32::MAX {
        i32::MAX as int
    } else if x < i32::MIN {
        i32::MIN as int
    } else {
        x
    }
}

/// The sum of the gains of the payouts.
pub open spec fn gain_total(os: Seq<Overflow>) -> int
    decreases os.len(),
{
    if os.len() == 0 {
        0
    } else {
        gain_total(os.drop_last()) + os.last().self_gain
    }
}

/// The sum of the losses of the payouts.
pub open spec fn loss_total(os: Seq<Overflow>) -> int
    decreases os.len(),
{
    if os.len() == 0 {
        0
    } else {
        loss_total(os.drop_last()) + os.last().other_lost
    }
}

/// A player's points after a payout: the actor gains, everyone else loses.
pub open spec fn paid(id: usize, point: i32, actor: usize, gain: int, loss: int) -> int {
    clamp(if id == actor { point + gain } else { point - loss })
}

/// The players still in after a payout, with their new points, and the ids
/// of those whose points fell to zero or below, in order.
pub open spec fn settle(active: Seq<(usize, i32)>, actor: usize, gain: int, loss: int) -> (Seq<(usize, i32)>, Seq<usize>)
    decreases active.len(),
{
    if active.len() == 0 {
        (active, Seq::empty())
    } else {
        let prev = settle(active.drop_last(), actor, gain, loss);
        let (id, point) = active.last();
        let np = paid(id, point, actor, gain, loss);
        if np > 0 {
            (prev.0.push((id, np as i32)), prev.1)
        } else {
            (prev.0, prev.1.push(id))
        }
    }
}

/// The notifications that open a turn: to each player, in order, the
/// actor's name, the pool and their own points; to the actor also the hand.
pub open spec fn round_notes(
    members: Seq<(usize, Seq<char>)>,
    actor_name: Seq<char>,
    active: Seq<(usize, i32)>,
    actor: usize,
    pool: Seq<i32>,
    hand: Seq<Seq<Action>>,
) -> Seq<(Recipient, Note)>
    decreases members.len(),
{
    if members.len() == 0 {
        Seq::empty()
    } else {
        let id = members.last().0;
        let prev = round_notes(members.drop_last(), actor_name, active, actor, pool, hand);
        let with_start = prev.push((Recipient::Player(id), Note::RoundStart(actor_name, pool, lookup(active, id))));
        if id == actor {
            with_start.push((Recipient::Player(id), Note::NewRound(hand, pool)))
        } else {
            with_start
        }
    }
}

/// The notifications that end a game: a win to the player left, if any,
/// then the winner's name (if still on the roster) to everyone.
pub open spec fn end_notes(roster: Seq<(usize, Seq<char>)>, active: Seq<(usize, i32)>) -> Seq<(Recipient, Note)> {
    if active.len() == 0 {
        to_all(keys(roster), Note::GameEnd(None))
    } else {
        seq![(Recipient::Player(active[0].0), Note::Win)] + to_all(keys(roster), Note::GameEnd(lookup(roster, active[0].0)))
    }
}

/// The names on the roster, in order.
pub open spec fn names(roster: Seq<(usize, Seq<char>)>) -> Seq<Seq<char>> {
    roster.map_values(|e: (usize, Seq<char>)| e.1)
}

/// Everyone on the roster, in the round with 10 points.
pub open spec fn initial_points(roster: Seq<(usize, Seq<char>)>) -> Seq<(usize, i32)> {
    roster.map_values(|e: (usize, Seq<char>)| (e.0, 10i32))
}

/// A hand that a deal can produce: three cards of one to four drawable actions.
pub open spec fn drawable_hand(hand: Seq<Seq<Action>>) -> bool {
    hand.len() == 3 && forall|i: int| 0 <= i < 3 ==> {
        let c = #[trigger] hand[i];
        &&& 1 <= c.len() <= 4
        &&& forall|j: int| 0 <= j < c.len() ==> crate::cards::drawable(#[trigger] c[j])
    }
}

/// The notifications as seen by their recipients, or the error.
pub open spec fn result_view(r: Result<Vec<Outgoing>, GameError>) -> Result<Seq<(Recipient, Note)>, GameError> {
    match r {
        Ok(v) => Ok(outgoing_view(v@)),
        Err(e) => Err(e),
    }
}

/// A turn opens: a fresh hand is dealt to the actor, and everyone is told
/// whose turn it is (the actor also sees the hand); nothing else changes.
pub open spec fn opens_turn(pre: SessionView, post: SessionView, notes: Seq<(Recipient, Note)>) -> bool {
    &&& post == (SessionView { hand: post.hand, ..pre })
    &&& drawable_hand(post.hand)
    &&& notes == round_notes(pre.roster, lookup(pre.roster, pre.actor)->0, pre.active, pre.actor, pre.pool, post.hand)
}

/// After a turn or a departure: with at most one player left the game ends
/// (a win for that player, the result to everyone), else a new turn opens.
pub open spec fn next_turn(pre: SessionView, post: SessionView, notes: Seq<(Recipient, Note)>) -> bool {
    if pre.active.len() <= 1 {
        post == (SessionView { phase: Phase::Ended, ..pre }) && notes == end_notes(pre.roster, pre.active)
    } else {
        opens_turn(pre, post, notes)
    }
}

/// The round starts: everyone on the roster gets 10 points and is told so,
/// a player on the roster is picked to act, and the first turn opens.
pub open spec fn starts(pre: SessionView, post: SessionView, notes: Seq<(Recipient, Note)>) -> bool {
    let k = pre.roster.len() as int;
    let mid = SessionView { phase: Phase::Playing, active: initial_points(pre.roster), actor: post.actor, ..pre };
    &&& keys(pre.roster).contains(post.actor)
    &&& notes.len() >= k
    &&& notes.take(k) == to_all(keys(pre.roster), Note::Start(10))
    &&& opens_turn(mid, post, notes.skip(k))
}

/// The actor plays a card from the hand: it is applied to the pool, the
/// summed payouts settle the points, those who dropped out are told they
/// lost, everyone else on the roster sees the card, the turn passes on.
pub open spec fn plays(pre: SessionView, index: int, post: SessionView, notes: Seq<(Recipient, Note)>) -> bool {
    let card = pre.hand[index];
    let applied = crate::stack::card_result(pre.pool, 10, card);
    let settled = settle(pre.active, pre.actor, gain_total(applied.1), loss_total(applied.1));
    let mid = SessionView {
        pool: applied.0,
        active: settled.0,
        actor: next_active(keys(settled.0), pre.actor),
        ..pre
    };
    let told = to_all(settled.1, Note::Lose) + to_all(keys(without(pre.roster, pre.actor)), Note::OtherUseCard(card));
    &&& notes.len() >= told.len()
    &&& notes.take(told.len() as int) == told
    &&& next_turn(mid, post, notes.skip(told.len() as int))
}

/// What one input does to a session in its lobby or in play: the session
/// after it, and the notifications it sends or the error that closes it
/// (an error leaves the session ended, waiting to be closed).
pub open spec fn transition(pre: SessionView, msg: Message, post: SessionView, r: Result<Seq<(Recipient, Note)>, GameError>) -> bool {
    let ended = SessionView { phase: Phase::Ended, ..pre };
    match msg {
        Message::Internal(PlayerAction::Join { .. }, _) => post == ended && r == Err::<Seq<(Recipient, Note)>, GameError>(GameError::ProtocolViolation),
        Message::CheckAlive => if pre.phase == Phase::Lobby && pre.roster.len() == 0 {
            post == ended && r == Err::<Seq<(Recipient, Note)>, GameError>(GameError::Abandoned)
        } else {
            post == pre && r == Ok::<Seq<(Recipient, Note)>, GameError>(Seq::empty())
        },
        Message::Internal(PlayerAction::Error(_), _) => post == pre && r == Ok::<Seq<(Recipient, Note)>, GameError>(Seq::empty()),
        Message::Internal(PlayerAction::JoinWithPlayer { name }, _) => if pre.phase == Phase::Playing {
            post == pre && r == Ok::<Seq<(Recipient, Note)>, GameError>(seq![(Recipient::Joiner, Note::GameStarted)])
        } else if pre.last_id == usize::MAX {
            post == pre && r == Ok::<Seq<(Recipient, Note)>, GameError>(seq![(Recipient::Joiner, Note::InvalidOperation)])
        } else {
            let id = (pre.last_id + 1) as usize;
            let greet = seq![(Recipient::Joiner, Note::Register(id)), (Recipient::Joiner, Note::Joined(names(pre.roster)))];
            let host = if pre.roster.len() == 0 { seq![(Recipient::Joiner, Note::HostStart)] } else { Seq::empty() };
            &&& post == (SessionView { roster: pre.roster.push((id, name@)), last_id: id, ..pre })
            &&& r == Ok::<Seq<(Recipient, Note)>, GameError>(to_all(keys(pre.roster), Note::NewPlayer(name@)) + greet + host)
        },
        Message::Internal(PlayerAction::Start, id) => if pre.phase == Phase::Playing {
            post == pre && r == Ok::<Seq<(Recipient, Note)>, GameError>(seq![(Recipient::Player(id), Note::GameStarted)])
        } else if pre.roster.len() > 1 {
            r matches Ok(notes) && starts(pre, post, notes)
        } else {
            post == pre && r == Ok::<Seq<(Recipient, Note)>, GameError>(seq![(Recipient::Player(id), Note::StartFailed)])
        },
        Message::Internal(PlayerAction::UseCard { card_index }, id) => if pre.phase == Phase::Lobby {
            post == pre && r == Ok::<Seq<(Recipient, Note)>, GameError>(Seq::empty())
        } else if id == pre.actor && card_index < 3 {
            r matches Ok(notes) && plays(pre, card_index as int, post, notes)
        } else {
            post == pre && r == Ok::<Seq<(Recipient, Note)>, GameError>(seq![(Recipient::Player(id), Note::InvalidOperation)])
        },
        Message::Internal(PlayerAction::Quit, id) => {
            let left = SessionView { roster: without(pre.roster, id), active: without(pre.active, id), ..pre };
            if pre.phase == Phase::Lobby {
                if left.roster.len() == 0 {
                    post == (SessionView { phase: Phase::Ended, ..left }) && r == Err::<Seq<(Recipient, Note)>, GameError>(GameError::AllQuit)
                } else {
                    post == left && r == Ok::<Seq<(Recipient, Note)>, GameError>(Seq::empty())
                }
            } else if left.active.len() == 0 {
                post == (SessionView { phase: Phase::Ended, ..left }) && r == Err::<Seq<(Recipient, Note)>, GameError>(GameError::AllQuit)
            } else {
                let actor = if keys(left.active).contains(pre.actor) { pre.actor } else { next_active(keys(left.active), pre.actor) };
                r matches Ok(notes) && next_turn(SessionView { actor, ..left }, post, notes)
            }
        },
    }
}

/// The roster as ids and names.
pub open spec fn members_view(v: Seq<Member>) -> Seq<(usize, Seq<char>)> {
    v.map_values(|m: Member| (m.id, m.name@))
}

/// The players in the round as ids and points.
pub open spec fn standings_view(v: Seq<Standing>) -> Seq<(usize, i32)> {
    v.map_values(|s: Standing| (s.id, s.point))
}

/// An optional name as characters.
pub open spec fn opt_name(o: Option<String>) -> Option<Seq<char>> {
    match o {
        Some(s) => Some(s@),
        None => None,
    }
}

/// Whose turn follows `id`'s among the players in the round.
pub fn next_id(active: &Vec<Standing>, id: usize) -> (r: usize)
    ensures
        r == next_active(keys(standings_view(active@)), id),
{
    let ghost ks = keys(standings_view(active@));
    let mut above: Option<usize> = None;
    let mut low: usize = 0;
    let mut i: usize = 0;
    while i < active.len()
        invariant
            i <= active@.len(),
            ks == keys(standings_view(active@)),
            above == least_above(ks.take(i as int), id),
            low == least(ks.take(i as int)),
        decreases active@.len() - i,
    {
        let k = active[i].id;
        assert(ks.take(i + 1).drop_last() =~= ks.take(i as int));
        assert(ks.take(i + 1).last() == k);
        if k > id {
            match above {
                Some(a) => {
                    if k < a {
                        above = Some(k);
                    }
                },
                None => {
                    above = Some(k);
                },
            }
        }
        if i == 0 || k < low {
            low = k;
        }
        i = i + 1;
    }
    assert(ks.take(i as int) =~= ks);
    match above {
        Some(a) => a,
        None => low,
    }
}

/// The roster without the player `id`.
fn remove_member(v: &mut Vec<Member>, id: usize)
    ensures
        members_view(final(v)@) == without(members_view(old(v)@), id),
{
    let ghost start = members_view(v@);
    let mut out: Vec<Member> = Vec::new();
    let mut i: usize = 0;
    while i < v.len()
        invariant
            i <= v@.len(),
            start == members_view(v@),
            members_view(out@) == without(start.take(i as int), id),
        decreases v@.len() - i,
    {
        assert(start.take(i + 1).drop_last() =~= start.take(i as int));
        if v[i].id != id {
            let m = Member { id: v[i].id, name: v[i].name.clone() };
            out.push(m);
            assert(members_view(out@) =~= without(start.take(i as int), id).push(start[i as int]));
        }
        i = i + 1;
    }
    assert(start.take(i as int) =~= start);
    *v = out;
}

/// The players in the round without the player `id`.
fn remove_standing(v: &mut Vec<Standing>, id: usize)
    ensures
        standings_view(final(v)@) == without(standings_view(old(v)@), id),
{
    let ghost start = standings_view(v@);
    let mut out: Vec<Standing> = Vec::new();
    let mut i: usize = 0;
    while i < v.len()
        invariant
            i <= v@.len(),
            start == standings_view(v@),
            standings_view(out@) == without(start.take(i as int), id),
        decreases v@.len() - i,
    {
        assert(start.take(i + 1).drop_last() =~= start.take(i as int));
        if v[i].id != id {
            out.push(v[i]);
            assert(standings_view(out@) =~= without(start.take(i as int), id).push(start[i as int]));
        }
        i = i + 1;
    }
    assert(start.take(i as int) =~= start);
    *v = out;
}

/// The name of the player `id`, if on the roster.
fn name_of(v: &Vec<Member>, id: usize) -> (r: Option<String>)
    ensures
        opt_name(r) == lookup(members_view(v@), id),
{
    let ghost start = members_view(v@);
    let mut found: Option<String> = None;
    let mut i: usize = 0;
    while i < v.len()
        invariant
            i <= v@.len(),
            start == members_view(v@),
            opt_name(found) == lookup(start.take(i as int), id),
        decreases v@.len() - i,
    {
        assert(start.take(i + 1).drop_last() =~= start.take(i as int));
        if v[i].id == id {
            found = Some(v[i].name.clone());
        }
        i = i + 1;
    }
    assert(start.take(i as int) =~= start);
    found
}

/// The points of the player `id`, if still in the round.
fn point_of(v: &Vec<Standing>, id: usize) -> (r: Option<i32>)
    ensures
        r == lookup(standings_view(v@), id),
{
    let ghost start = standings_view(v@);
    let mut found: Option<i32> = None;
    let mut i: usize = 0;
    while i < v.len()
        invariant
            i <= v@.len(),
            start == standings_view(v@),
            found == lookup(start.take(i as int), id),
        decreases v@.len() - i,
    {
        assert(start.take(i + 1).drop_last() =~= start.take(i as int));
        if v[i].id == id {
            found = Some(v[i].point);
        }
        i = i + 1;
    }
    assert(start.take(i as int) =~= start);
    found
}

/// The summed gains and losses of the payouts of one card.
fn totals(os: &Vec<Overflow>) -> (r: (i64, i64))
    requires
        os@.len() <= 4,
    ensures
        r.0 == gain_total(os@),
        r.1 == loss_total(os@),
        -8589934592 <= r.0 <= 8589934592,
        -8589934592 <= r.1 <= 8589934592,
{
    let mut gain: i64 = 0;
    let mut loss: i64 = 0;
    let mut i: usize = 0;
    while i < os.len()
        invariant
            i <= os@.len() <= 4,
            gain == gain_total(os@.take(i as int)),
            loss == loss_total(os@.take(i as int)),
            -2147483648 * i <= gain <= 2147483647 * i,
            -2147483648 * i <= loss <= 2147483647 * i,
        decreases os@.len() - i,
    {
        assert(os@.take(i + 1).drop_last() =~= os@.take(i as int));
        gain = gain + os[i].self_gain as i64;
        loss = loss + os[i].other_lost as i64;
        i = i + 1;
    }
    assert(os@.take(i as int) =~= os@);
    (gain, loss)
}

/// Applies a payout to the players in the round: the actor gains `gain`,
/// everyone else loses `loss`, points held within `i32`; those left with
/// zero or less drop out, and their ids come back in order.
pub fn settle_points(v: &mut Vec<Standing>, actor: usize, gain: i64, loss: i64) -> (r: Vec<usize>)
    requires
        -8589934592 <= gain <= 8589934592,
        -8589934592 <= loss <= 8589934592,
    ensures
        (standings_view(final(v)@), r@) == settle(standings_view(old(v)@), actor, gain as int, loss as int),
{
    let ghost start = standings_view(v@);
    let mut kept: Vec<Standing> = Vec::new();
    let mut lost: Vec<usize> = Vec::new();
    let mut i: usize = 0;
    while i < v.len()
        invariant
            i <= v@.len(),
            start == standings_view(v@),
            -8589934592 <= gain <= 8589934592,
            -8589934592 <= loss <= 8589934592,
            (standings_view(kept@), lost@) == settle(start.take(i as int), actor, gain as int, loss as int),
        decreases v@.len() - i,
    {
        assert(start.take(i + 1).drop_last() =~= start.take(i as int));
        let s = v[i];
        let moved: i64 = if s.id == actor { s.point as i64 + gain } else { s.point as i64 - loss };
        let np: i32 = if moved > 2147483647 {
            2147483647
        } else if moved < -2147483648 {
            -2147483648
        } else {
            moved as i32
        };
        if np > 0 {
            kept.push(Standing { id: s.id, point: np });
            assert(standings_view(kept@) =~= settle(start.take(i as int), actor, gain as int, loss as int).0.push((s.id, np)));
        } else {
            lost.push(s.id);
        }
        i = i + 1;
    }
    assert(start.take(i as int) =~= start);
    *v = kept;
    lost
}

/// Each id of `s` except `id` is kept, in order, and nothing else.
pub proof fn lemma_without<T>(s: Seq<(usize, T)>, id: usize)
    ensures
        forall|x: usize| keys(without(s, id)).contains(x) <==> (keys(s).contains(x) && x != id),
        ascending(keys(s)) ==> ascending(keys(without(s, id))),
        forall|i: int| 0 <= i < without(s, id).len() ==> s.contains(#[trigger] without(s, id)[i]),
    decreases s.len(),
{
    if s.len() > 0 {
        let p = s.drop_last();
        lemma_without(p, id);
        let kp = keys(p);
        let ks = keys(s);
        assert(ks =~= kp.push(s.last().0));
        assert forall|j: int| 0 <= j < kp.len() implies #[trigger] kp[j] == ks[j] by {}
        assert(ks[ks.len() - 1] == s.last().0);
        assert forall|x: usize| ks.contains(x) <==> (kp.contains(x) || x == s.last().0) by {
            if ks.contains(x) {
                let j = choose|j: int| 0 <= j < ks.len() && ks[j] == x;
                if j < kp.len() {
                    assert(kp[j] == x);
                }
            }
            if kp.contains(x) {
                let j = choose|j: int| 0 <= j < kp.len() && kp[j] == x;
                assert(ks[j] == x);
            }
        }
        if s.last().0 != id {
            let kw = keys(without(s, id));
            let kq = keys(without(p, id));
            assert(kw =~= kq.push(s.last().0));
            assert forall|x: usize| kw.contains(x) <==> (kq.contains(x) || x == s.last().0) by {
                if kw.contains(x) {
                    let j = choose|j: int| 0 <= j < kw.len() && kw[j] == x;
                    if j < kq.len() {
                        assert(kq[j] == x);
                    }
                }
                if kq.contains(x) {
                    let j = choose|j: int| 0 <= j < kq.len() && kq[j] == x;
                    assert(kw[j] == x);
                }
                if x == s.last().0 {
                    assert(kw[kw.len() - 1] == x);
                }
            }
        }
        assert forall|i: int| 0 <= i < without(s, id).len() implies s.contains(#[trigger] without(s, id)[i]) by {
            if i < without(p, id).len() {
                let j = choose|j: int| 0 <= j < p.len() && p[j] == without(p, id)[i];
                assert(s[j] == p[j]);
            } else {
                assert(s[s.len() - 1] == s.last());
            }
        }
        if ascending(ks) {
            assert forall|a: int, b: int| 0 <= a < b < kp.len() implies kp[a] < kp[b] by {
                assert(ks[a] < ks[b]);
            }
            let kw = keys(without(s, id));
            let kq = keys(without(p, id));
            assert forall|a: int, b: int| 0 <= a < b < kw.len() implies kw[a] < kw[b] by {
                if s.last().0 != id && b == kw.len() - 1 {
                    assert(kq.contains(kq[a]));
                    assert(kp.contains(kq[a]));
                    let j = choose|j: int| 0 <= j < kp.len() && kp[j] == kq[a];
                    assert(ks[j] < ks[ks.len() - 1]);
                } else if s.last().0 != id {
                    assert(kw[a] == kq[a] && kw[b] == kq[b]);
                } else {
                    assert(without(s, id) == without(p, id));
                }
            }
        }
    } else {
        assert(keys(without(s, id)) =~= Seq::<usize>::empty());
    }
}

/// The players left after a payout were all in the round, keep their
/// order, and all have points above zero.
pub proof fn lemma_settle(active: Seq<(usize, i32)>, actor: usize, gain: int, loss: int)
    ensures
        forall|x: usize| keys(settle(active, actor, gain, loss).0).contains(x) ==> keys(active).contains(x),
        ascending(keys(active)) ==> ascending(keys(settle(active, actor, gain, loss).0)),
        forall|i: int| 0 <= i < settle(active, actor, gain, loss).0.len() ==> #[trigger] settle(active, actor, gain, loss).0[i].1 > 0,
    decreases active.len(),
{
    if active.len() > 0 {
        let p = active.drop_last();
        lemma_settle(p, actor, gain, loss);
        let q = settle(p, actor, gain, loss).0;
        let r = settle(active, actor, gain, loss).0;
        let kp = keys(p);
        let ka = keys(active);
        assert(ka =~= kp.push(active.last().0));
        assert forall|j: int| 0 <= j < kp.len() implies #[trigger] kp[j] == ka[j] by {}
        assert(ka[ka.len() - 1] == active.last().0);
        if r.len() > q.len() {
            assert(keys(r) =~= keys(q).push(active.last().0));
        } else {
            assert(keys(r) =~= keys(q));
        }
        assert forall|x: usize| keys(r).contains(x) implies ka.contains(x) by {
            if keys(q).contains(x) {
                assert(kp.contains(x));
                let j = choose|j: int| 0 <= j < kp.len() && kp[j] == x;
                assert(ka[j] == x);
            }
        }
        if ascending(ka) {
            assert forall|a: int, b: int| 0 <= a < b < kp.len() implies kp[a] < kp[b] by {
                assert(ka[a] < ka[b]);
            }
            assert forall|a: int, b: int| 0 <= a < b < keys(r).len() implies keys(r)[a] < keys(r)[b] by {
                if r.len() > q.len() && b == keys(r).len() - 1 {
                    assert(keys(q).contains(keys(q)[a]));
                    assert(kp.contains(keys(q)[a]));
                    let j = choose|j: int| 0 <= j < kp.len() && kp[j] == keys(q)[a];
                    assert(ka[j] < ka[ka.len() - 1]);
                } else {
                    assert(keys(r)[a] == keys(q)[a] && keys(r)[b] == keys(q)[b]);
                }
            }
        }
    }
}

/// A payout settles each player in the round once: the actor's points move
/// by the gain and everyone else's by the loss (held within `i32`); a player
/// stays in, with the new points, exactly when those are above zero, and
/// otherwise is named among those who dropped out, where no id repeats.
pub proof fn lemma_settle_each(active: Seq<(usize, i32)>, actor: usize, gain: int, loss: int)
    requires
        ascending(keys(active)),
    ensures
        forall|i: int| 0 <= i < active.len() ==> {
            let e = #[trigger] active[i];
            let np = paid(e.0, e.1, actor, gain, loss);
            &&& np > 0 ==> lookup(settle(active, actor, gain, loss).0, e.0) == Some(np as i32)
            &&& np <= 0 ==> lookup(settle(active, actor, gain, loss).0, e.0) is None && settle(active, actor, gain, loss).1.contains(e.0)
        },
        ascending(settle(active, actor, gain, loss).1),
        forall|x: usize| settle(active, actor, gain, loss).1.contains(x) ==> keys(active).contains(x),
    decreases active.len(),
{
    if active.len() > 0 {
        let p = active.drop_last();
        let kp = keys(p);
        let ka = keys(active);
        assert(ka =~= kp.push(active.last().0));
        assert forall|j: int| 0 <= j < kp.len() implies #[trigger] kp[j] == ka[j] by {}
        assert(ka[ka.len() - 1] == active.last().0);
        assert forall|a: int, b: int| 0 <= a < b < kp.len() implies kp[a] < kp[b] by {
            assert(ka[a] < ka[b]);
        }
        lemma_settle_each(p, actor, gain, loss);
        lemma_settle(p, actor, gain, loss);
        lemma_lookup_some(settle(p, actor, gain, loss).0, active.last().0);
        let prev = settle(p, actor, gain, loss);
        let cur = settle(active, actor, gain, loss);
        let (id, point) = active.last();
        let np = paid(id, point, actor, gain, loss);
        assert(!kp.contains(id)) by {
            if kp.contains(id) {
                let j = choose|j: int| 0 <= j < kp.len() && kp[j] == id;
                assert(ka[j] < ka[ka.len() - 1]);
            }
        }
        assert(!keys(prev.0).contains(id));
        assert(!prev.1.contains(id));
        assert forall|i: int| 0 <= i < active.len() implies {
            let e = #[trigger] active[i];
            let np = paid(e.0, e.1, actor, gain, loss);
            &&& np > 0 ==> lookup(cur.0, e.0) == Some(np as i32)
            &&& np <= 0 ==> lookup(cur.0, e.0) is None && cur.1.contains(e.0)
        } by {
            if i < p.len() {
                assert(active[i] == p[i]);
                assert(kp[i] == active[i].0);
                assert(active[i].0 != id) by {
                    assert(ka[i] < ka[ka.len() - 1]);
                }
                if np > 0 {
                    assert(cur.0 == prev.0.push((id, np as i32)));
                    assert(cur.0.drop_last() =~= prev.0);
                } else {
                    assert(cur.1 == prev.1.push(id));
                    if prev.1.contains(active[i].0) {
                        let j = choose|j: int| 0 <= j < prev.1.len() && prev.1[j] == active[i].0;
                        assert(cur.1[j] == active[i].0);
                    }
                }
            } else {
                assert(active[i] == active.last());
                if np > 0 {
                    assert(cur.0.last() == (id, np as i32));
                } else {
                    assert(cur.1[cur.1.len() - 1] == id);
                }
            }
        }
        if np <= 0 {
            assert forall|a: int, b: int| 0 <= a < b < cur.1.len() implies cur.1[a] < cur.1[b] by {
                if b == cur.1.len() - 1 {
                    assert(prev.1.contains(prev.1[a]));
                    assert(kp.contains(prev.1[a]));
                    let j = choose|j: int| 0 <= j < kp.len() && kp[j] == prev.1[a];
                    assert(ka[j] < ka[ka.len() - 1]);
                } else {
                    assert(cur.1[a] == prev.1[a] && cur.1[b] == prev.1[b]);
                }
            }
        }
        assert forall|x: usize| cur.1.contains(x) implies ka.contains(x) by {
            let j = choose|j: int| 0 <= j < cur.1.len() && cur.1[j] == x;
            if j < prev.1.len() {
                assert(prev.1[j] == x);
                assert(kp.contains(x));
                let k = choose|k: int| 0 <= k < kp.len() && kp[k] == x;
                assert(ka[k] == x);
            } else {
                assert(x == id);
            }
        }
    }
}

/// Everyone starting a round has exactly 10 points.
pub proof fn lemma_initial_points(roster: Seq<(usize, Seq<char>)>, id: usize)
    requires
        keys(roster).contains(id),
    ensures
        lookup(initial_points(roster), id) == Some(10i32),
    decreases roster.len(),
{
    let p = roster.drop_last();
    assert(initial_points(roster).drop_last() =~= initial_points(p));
    assert(keys(roster) =~= keys(p).push(roster.last().0));
    if roster.last().0 != id {
        let j = choose|j: int| 0 <= j < keys(roster).len() && keys(roster)[j] == id;
        assert(keys(p)[j] == id);
        lemma_initial_points(p, id);
    }
}

/// A start in the lobby (whose pool is empty): with fewer than two players
/// nothing changes and the sender alone is told the start failed; with two
/// or more the round begins with an empty pool, exactly the players on the
/// roster are in it, each with exactly 10 points, and each is told so once,
/// in order, before anything else.
pub proof fn lemma_start(pre: SessionView, id: usize, post: SessionView, r: Result<Seq<(Recipient, Note)>, GameError>)
    requires
        pre.phase == Phase::Lobby,
        pre.pool.len() == 0,
        transition(pre, Message::Internal(PlayerAction::Start, id), post, r),
    ensures
        pre.roster.len() < 2 ==> post == pre && r == Ok::<Seq<(Recipient, Note)>, GameError>(seq![(Recipient::Player(id), Note::StartFailed)]),
        pre.roster.len() >= 2 ==> {
            &&& post.phase == Phase::Playing
            &&& post.roster == pre.roster
            &&& post.pool.len() == 0
            &&& keys(post.active) == keys(pre.roster)
            &&& forall|x: usize| keys(pre.roster).contains(x) ==> lookup(post.active, x) == Some(10i32)
            &&& r matches Ok(notes) && notes.take(pre.roster.len() as int) == to_all(keys(pre.roster), Note::Start(10))
        },
{
    if pre.roster.len() >= 2 {
        assert(keys(initial_points(pre.roster)) =~= keys(pre.roster));
        assert forall|x: usize| keys(pre.roster).contains(x) implies lookup(post.active, x) == Some(10i32) by {
            lemma_initial_points(pre.roster, x);
        }
    }
}

/// In the lobby the pool is empty.
pub proof fn lemma_lobby_pool(s: &Session)
    requires
        s.wf(),
        s@.phase == Phase::Lobby,
    ensures
        s@.pool.len() == 0,
{
}

/// No input terminates a session: each leaves it taking input (in its
/// lobby or in play) or ended, and a fatal error always leaves it ended;
/// from there only `close` is left, which tells everyone on the roster.
pub proof fn lemma_input_never_terminates(pre: SessionView, msg: Message, post: SessionView, r: Result<Seq<(Recipient, Note)>, GameError>)
    requires
        pre.phase == Phase::Lobby || pre.phase == Phase::Playing,
        transition(pre, msg, post, r),
    ensures
        post.phase != Phase::Terminated,
        r is Err ==> post.phase == Phase::Ended,
{
}

/// Whose turn follows: always one of the players in the round; the same
/// player only when every id in the round is theirs (with ids ascending:
/// when they are the only one left); the smallest id above `id` if there is
/// one, else the smallest id of all.
pub proof fn lemma_next_active(ids: Seq<usize>, id: usize)
    requires
        ids.len() > 0,
    ensures
        ids.contains(next_active(ids, id)),
        next_active(ids, id) == id ==> forall|j: int| 0 <= j < ids.len() ==> ids[j] == id,
        next_active(ids, id) == id && ascending(ids) ==> ids.len() == 1,
        (exists|j: int| 0 <= j < ids.len() && ids[j] > id) ==> (next_active(ids, id) > id && forall|j: int|
            0 <= j < ids.len() && ids[j] > id ==> next_active(ids, id) <= ids[j]),
        (forall|j: int| 0 <= j < ids.len() ==> ids[j] <= id) ==> (forall|j: int| 0 <= j < ids.len() ==> next_active(ids, id) <= ids[j]),
{
    lemma_least(ids);
    lemma_least_above(ids, id);
    if next_active(ids, id) == id && ascending(ids) && ids.len() > 1 {
        assert(ids[0] < ids[1]);
    }
}

/// How a game with one player left ends: a win to that player, then the
/// winner's name from the roster to everyone on it, in order, and nothing else.
pub proof fn lemma_game_end(roster: Seq<(usize, Seq<char>)>, active: Seq<(usize, i32)>)
    requires
        active.len() == 1,
        keys(roster).contains(active[0].0),
    ensures
        lookup(roster, active[0].0) is Some,
        end_notes(roster, active) == seq![(Recipient::Player(active[0].0), Note::Win)]
            + to_all(keys(roster), Note::GameEnd(Some(lookup(roster, active[0].0)->0))),
{
    lemma_lookup_some(roster, active[0].0);
}

/// The smallest id is one of them and no larger than any.
proof fn lemma_least(s: Seq<usize>)
    requires
        s.len() > 0,
    ensures
        s.contains(least(s)),
        forall|j: int| 0 <= j < s.len() ==> least(s) <= s[j],
    decreases s.len(),
{
    if s.len() > 1 {
        lemma_least(s.drop_last());
        assert forall|j: int| 0 <= j < s.len() - 1 implies #[trigger] s[j] == s.drop_last()[j] by {}
        let j = choose|j: int| 0 <= j < s.len() - 1 && s.drop_last()[j] == least(s.drop_last());
        assert(s[j] == s.drop_last()[j]);
    } else {
        assert(s[0] == s.last());
    }
    assert(s[s.len() - 1] == s.last());
}

/// The smallest id above `id` is one of them, above `id`, and no larger
/// than any other above `id`; there is none only when no id is above `id`.
proof fn lemma_least_above(s: Seq<usize>, id: usize)
    ensures
        least_above(s, id) is None <==> forall|j: int| 0 <= j < s.len() ==> s[j] <= id,
        least_above(s, id) matches Some(n) ==> (s.contains(n) && n > id && forall|j: int|
            0 <= j < s.len() && s[j] > id ==> n <= s[j]),
    decreases s.len(),
{
    if s.len() > 0 {
        let p = s.drop_last();
        lemma_least_above(p, id);
        assert(s[s.len() - 1] == s.last());
        assert forall|j: int| 0 <= j < p.len() implies p[j] == s[j] by {}
        if let Some(n) = least_above(p, id) {
            let j = choose|j: int| 0 <= j < p.len() && p[j] == n;
            assert(s[j] == n);
        }
    }
}

/// A game session: its roster, its round, and the pool.
pub struct Session {
    players: Vec<Member>,
    active: Vec<Standing>,
    phase: Phase,
    stack: Stack,
    playing_id: usize,
    cards: Vec<Card>,
    distribution: CardDistribution,
    last_id: usize,
}

impl View for Session {
    type V = SessionView;

    closed spec fn view(&self) -> SessionView {
        SessionView {
            phase: self.phase,
            roster: members_view(self.players@),
            active: standings_view(self.active@),
            pool: self.stack@,
            actor: self.playing_id,
            hand: cards_view(self.cards@),
            last_id: self.last_id,
        }
    }
}

impl Session {
    /// Ids are ascending and given out once; everyone in the round is on
    /// the roster with points above zero; the pool holds fewer than 10.
    pub closed spec fn shape(&self) -> bool {
        let v = self@;
        &&& ascending(keys(v.roster))
        &&& ascending(keys(v.active))
        &&& forall|x: usize| keys(v.active).contains(x) ==> keys(v.roster).contains(x)
        &&& forall|i: int| 0 <= i < v.roster.len() ==> 1 <= #[trigger] v.roster[i].0 <= v.last_id
        &&& forall|i: int| 0 <= i < v.active.len() ==> #[trigger] v.active[i].1 > 0
        &&& self.stack.wf()
        &&& self.stack.capacity() == 10
        &&& self.distribution.wf()
    }

    /// Besides the shape: nobody is in a round, and the pool is empty, in
    /// the lobby; a round in
    /// play has at least two players, an actor among them and a drawable
    /// hand.
    pub closed spec fn wf(&self) -> bool {
        let v = self@;
        &&& self.shape()
        &&& (v.phase == Phase::Lobby ==> v.active.len() == 0 && v.pool.len() == 0)
        &&& (v.phase == Phase::Playing ==> {
            &&& v.active.len() >= 2
            &&& keys(v.active).contains(v.actor)
            &&& drawable_hand(v.hand)
        })
    }

    /// A session in its lobby, with nobody in it.
    pub fn new() -> (r: Session)
        ensures
            r.wf(),
            r@.phase == Phase::Lobby,
            r@.roster.len() == 0,
            r@.active.len() == 0,
            r@.pool.len() == 0,
            r@.last_id == 0,
    {
        Session {
            players: Vec::new(),
            active: Vec::new(),
            phase: Phase::Lobby,
            stack: Stack::new(10),
            playing_id: 0,
            cards: Vec::new(),
            distribution: CardDistribution::default(),
            last_id: 0,
        }
    }

    /// The phase the session is in.
    pub fn phase(&self) -> (r: Phase)
        ensures
            r == self@.phase,
    {
        self.phase
    }

    /// The id of the player whose turn it is.
    pub fn actor(&self) -> (r: usize)
        ensures
            r == self@.actor,
    {
        self.playing_id
    }

    /// The values in the pool, first to last.
    pub fn pool(&self) -> (r: &Vec<i32>)
        ensures
            r@ == self@.pool,
    {
        self.stack.contents()
    }

    /// The number of players on the roster.
    pub fn player_count(&self) -> (r: usize)
        ensures
            r == self@.roster.len(),
    {
        self.players.len()
    }

    /// The points of the player `id`, if still in the round.
    pub fn point(&self, id: usize) -> (r: Option<i32>)
        ensures
            r == lookup(self@.active, id),
    {
        point_of(&self.active, id)
    }

    /// Deals a hand to the actor and tells everyone whose turn it is.
    fn open_turn(&mut self, rng: &mut StdRng) -> (r: Vec<Outgoing>)
        requires
            old(self).shape(),
            old(self)@.phase == Phase::Playing,
            old(self)@.active.len() >= 2,
            keys(old(self)@.active).contains(old(self)@.actor),
        ensures
            final(self).wf(),
            opens_turn(old(self)@, final(self)@, outgoing_view(r@)),
    {
        let cards = self.distribution.deal(rng);
        assert(drawable_hand(cards_view(cards@))) by {
            assert forall|i: int| 0 <= i < 3 implies crate::cards::drawable_card(#[trigger] cards@[i]) by {}
        }
        proof {
            lemma_lookup_some(self@.active, self@.actor);
            lemma_lookup_some(self@.roster, self@.actor);
        }
        let actor_name = match name_of(&self.players, self.playing_id) {
            Some(n) => n,
            None => vstd::pervasive::unreached(),
        };
        let ghost ms = self@.roster;
        let ghost hand = cards_view(cards@);
        let mut out: Vec<Outgoing> = Vec::new();
        let mut i: usize = 0;
        while i < self.players.len()
            invariant
                i <= self.players@.len(),
                ms == members_view(self.players@),
                outgoing_view(out@) == round_notes(ms.take(i as int), actor_name@, self@.active, self@.actor, self@.pool, hand),
                hand == cards_view(cards@),
            decreases self.players@.len() - i,
        {
            assert(ms.take(i + 1).drop_last() =~= ms.take(i as int));
            let id = self.players[i].id;
            let point = point_of(&self.active, id);
            let ghost prev = outgoing_view(out@);
            out.push(Outgoing {
                to: Recipient::Player(id),
                msg: PlayerMessage::RoundStart { player_name: actor_name.clone(), stack: self.stack.duplicate(), point },
            });
            assert(outgoing_view(out@) =~= prev.push((Recipient::Player(id), Note::RoundStart(actor_name@, self@.pool, point))));
            if id == self.playing_id {
                let ghost prev2 = outgoing_view(out@);
                out.push(Outgoing {
                    to: Recipient::Player(id),
                    msg: PlayerMessage::NewRound { cards: copy_cards(&cards), stack: self.stack.duplicate() },
                });
                assert(outgoing_view(out@) =~= prev2.push((Recipient::Player(id), Note::NewRound(hand, self@.pool))));
            }
            i = i + 1;
        }
        assert(ms.take(i as int) =~= ms);
        self.cards = cards;
        out
    }

    /// Ends the game: a win to the player left, if any, and the result to everyone.
    fn finish(&mut self) -> (r: Vec<Outgoing>)
        requires
            old(self).shape(),
            old(self)@.active.len() <= 1,
        ensures
            final(self).wf(),
            final(self)@ == (SessionView { phase: Phase::Ended, ..old(self)@ }),
            outgoing_view(r@) == end_notes(old(self)@.roster, old(self)@.active),
    {
        let mut out: Vec<Outgoing> = Vec::new();
        if self.active.len() == 0 {
            send_all(&mut out, &self.players, &PlayerMessage::GameEnd { winner_name: None });
        } else {
            let winner = self.active[0].id;
            out.push(Outgoing { to: Recipient::Player(winner), msg: PlayerMessage::Win });
            let winner_name = name_of(&self.players, winner);
            send_all(&mut out, &self.players, &PlayerMessage::GameEnd { winner_name });
            assert(outgoing_view(out@) =~= end_notes(self@.roster, self@.active));
        }
        self.phase = Phase::Ended;
        out
    }

    /// Ends the game if at most one player is left, else opens a new turn.
    fn next_turn(&mut self, rng: &mut StdRng) -> (r: Vec<Outgoing>)
        requires
            old(self).shape(),
            old(self)@.phase == Phase::Playing,
            old(self)@.active.len() >= 2 ==> keys(old(self)@.active).contains(old(self)@.actor),
        ensures
            final(self).wf(),
            next_turn(old(self)@, final(self)@, outgoing_view(r@)),
    {
        if self.active.len() <= 1 {
            self.finish()
        } else {
            self.open_turn(rng)
        }
    }

    /// Starts the round: 10 points to everyone, a random actor, the first turn.
    fn begin(&mut self, rng: &mut StdRng) -> (r: Vec<Outgoing>)
        requires
            old(self).wf(),
            old(self)@.phase == Phase::Lobby,
            old(self)@.roster.len() > 1,
        ensures
            final(self).wf(),
            starts(old(self)@, final(self)@, outgoing_view(r@)),
    {
        let ghost pre = self@;
        let ghost ms = self@.roster;
        let mut standings: Vec<Standing> = Vec::new();
        let mut out: Vec<Outgoing> = Vec::new();
        let mut i: usize = 0;
        while i < self.players.len()
            invariant
                i <= self.players@.len(),
                ms == members_view(self.players@),
                standings_view(standings@) == initial_points(ms.take(i as int)),
                outgoing_view(out@) == to_all(keys(ms.take(i as int)), Note::Start(10)),
            decreases self.players@.len() - i,
        {
            let id = self.players[i].id;
            let ghost prev = outgoing_view(out@);
            let ghost prev_st = standings_view(standings@);
            standings.push(Standing { id, point: 10 });
            assert(standings_view(standings@) =~= prev_st.push((id, 10i32)));
            assert(initial_points(ms.take(i + 1)) =~= initial_points(ms.take(i as int)).push((id, 10i32)));
            out.push(Outgoing { to: Recipient::Player(id), msg: PlayerMessage::Start { point: 10 } });
            assert(outgoing_view(out@) =~= prev.push((Recipient::Player(id), Note::Start(10))));
            i = i + 1;
            assert(to_all(keys(ms.take(i as int)), Note::Start(10)) =~= prev.push((Recipient::Player(id), Note::Start(10))));
        }
        assert(ms.take(i as int) =~= ms);
        let ghost init = initial_points(ms);
        assert(keys(init) =~= keys(ms));
        self.active = standings;
        self.phase = Phase::Playing;
        let k = pick_below(rng, self.players.len());
        self.playing_id = self.players[k].id;
        assert(keys(ms)[k as int] == self.playing_id);
        let ghost mid = self@;
        let mut rest = self.open_turn(rng);
        let ghost told = outgoing_view(out@);
        let ghost more = outgoing_view(rest@);
        out.append(&mut rest);
        assert(outgoing_view(out@) =~= told + more);
        assert(outgoing_view(out@).take(ms.len() as int) =~= told);
        assert(outgoing_view(out@).skip(ms.len() as int) =~= more);
        assert(mid == (SessionView { phase: Phase::Playing, active: initial_points(pre.roster), actor: self@.actor, ..pre }));
        out
    }

    /// Plays card `index` of the hand for the actor.
    fn play(&mut self, index: usize, rng: &mut StdRng) -> (r: Vec<Outgoing>)
        requires
            old(self).wf(),
            old(self)@.phase == Phase::Playing,
            index < 3,
        ensures
            final(self).wf(),
            plays(old(self)@, index as int, final(self)@, outgoing_view(r@)),
    {
        let ghost pre = self@;
        let card = self.cards[index].duplicate();
        assert(card.actions@ == pre.hand[index as int]);
        let overflows = self.stack.use_card(&card);
        let (gain, loss) = totals(&overflows);
        let lost = settle_points(&mut self.active, self.playing_id, gain, loss);
        proof {
            lemma_settle(pre.active, pre.actor, gain as int, loss as int);
        }
        let mut out: Vec<Outgoing> = Vec::new();
        let mut i: usize = 0;
        while i < lost.len()
            invariant
                i <= lost@.len(),
                outgoing_view(out@) == to_all(lost@.take(i as int), Note::Lose),
            decreases lost@.len() - i,
        {
            let ghost prev = outgoing_view(out@);
            out.push(Outgoing { to: Recipient::Player(lost[i]), msg: PlayerMessage::Lose });
            assert(outgoing_view(out@) =~= prev.push((Recipient::Player(lost@[i as int]), Note::Lose)));
            assert(to_all(lost@.take(i + 1), Note::Lose) =~= prev.push((Recipient::Player(lost@[i as int]), Note::Lose)));
            i = i + 1;
        }
        assert(lost@.take(i as int) =~= lost@);
        send_others(&mut out, &self.players, self.playing_id, &PlayerMessage::OtherUseCard { card });
        self.playing_id = next_id(&self.active, self.playing_id);
        proof {
            if self@.active.len() >= 1 {
                lemma_next_active(keys(self@.active), pre.actor);
            }
        }
        let ghost mid = self@;
        let ghost told = outgoing_view(out@);
        let mut rest = self.next_turn(rng);
        let ghost more = outgoing_view(rest@);
        out.append(&mut rest);
        assert(outgoing_view(out@) =~= told + more);
        assert(outgoing_view(out@).take(told.len() as int) =~= told);
        assert(outgoing_view(out@).skip(told.len() as int) =~= more);
        out
    }

    /// Adds a player to the lobby under the next id.
    fn join(&mut self, name: String) -> (r: Vec<Outgoing>)
        requires
            old(self).wf(),
            old(self)@.phase == Phase::Lobby,
        ensures
            final(self).wf(),
            transition(
                old(self)@,
                Message::Internal(PlayerAction::JoinWithPlayer { name }, 0),
                final(self)@,
                Ok::<Seq<(Recipient, Note)>, GameError>(outgoing_view(r@)),
            ),
    {
        if self.last_id == usize::MAX {
            return single(Recipient::Joiner, PlayerMessage::InvalidOperation);
        }
        let id = self.last_id + 1;
        let mut out: Vec<Outgoing> = Vec::new();
        send_all(&mut out, &self.players, &PlayerMessage::NewPlayer { name: name.clone() });
        let ghost prev = outgoing_view(out@);
        out.push(Outgoing { to: Recipient::Joiner, msg: PlayerMessage::Register(id) });
        let players_name = names_of(&self.players);
        out.push(Outgoing { to: Recipient::Joiner, msg: PlayerMessage::Joined { players_name } });
        let ghost greet = seq![(Recipient::Joiner, Note::Register(id)), (Recipient::Joiner, Note::Joined(names(self@.roster)))];
        assert(outgoing_view(out@) =~= prev + greet);
        if self.players.len() == 0 {
            let ghost prev2 = outgoing_view(out@);
            out.push(Outgoing { to: Recipient::Joiner, msg: PlayerMessage::HostStart });
            assert(outgoing_view(out@) =~= prev2 + seq![(Recipient::Joiner, Note::HostStart)]);
        } else {
            assert(outgoing_view(out@) =~= prev + greet + Seq::<(Recipient, Note)>::empty());
        }
        let ghost ks = keys(self@.roster);
        let ghost before = self@.roster;
        let ghost name_view = name@;
        self.players.push(Member { id, name });
        self.last_id = id;
        assert(self@.roster =~= before.push((id, name_view)));
        assert(keys(self@.roster) =~= ks.push(id));
        assert forall|a: int| 0 <= a < self@.roster.len() implies 1 <= #[trigger] self@.roster[a].0 <= self@.last_id by {
            if a < before.len() {
                assert(before[a] == self@.roster[a]);
                assert(1 <= before[a].0 <= id - 1);
            }
        }
        assert forall|a: int, b: int| 0 <= a < b < keys(self@.roster).len() implies keys(self@.roster)[a] < keys(self@.roster)[b] by {
            if b == ks.len() {
                assert(before[a] == self@.roster[a]);
                assert(before[a].0 <= id - 1);
            } else {
                assert(ks[a] < ks[b]);
            }
        }
        assert forall|x: usize| keys(self@.active).contains(x) implies keys(self@.roster).contains(x) by {
            assert(keys(self@.active).len() == 0);
        }
        out
    }

    /// Takes the player `id` off the roster and out of the round.
    fn quit(&mut self, id: usize, rng: &mut StdRng) -> (r: Result<Vec<Outgoing>, GameError>)
        requires
            old(self).wf(),
            old(self)@.phase == Phase::Lobby || old(self)@.phase == Phase::Playing,
        ensures
            final(self).wf(),
            transition(old(self)@, Message::Internal(PlayerAction::Quit, id), final(self)@, result_view(r)),
    {
        let ghost pre = self@;
        remove_member(&mut self.players, id);
        remove_standing(&mut self.active, id);
        proof {
            lemma_without(pre.roster, id);
            lemma_without(pre.active, id);
            assert forall|i: int| 0 <= i < self@.roster.len() implies 1 <= #[trigger] self@.roster[i].0 <= self@.last_id by {
                assert(pre.roster.contains(self@.roster[i]));
            }
            assert forall|i: int| 0 <= i < self@.active.len() implies #[trigger] self@.active[i].1 > 0 by {
                assert(pre.active.contains(self@.active[i]));
            }
            assert forall|x: usize| keys(self@.active).contains(x) implies keys(self@.roster).contains(x) by {
                assert(keys(pre.active).contains(x));
            }
        }
        if self.phase == Phase::Lobby {
            assert(self@.active.len() == 0) by {
                assert(pre.active.len() == 0);
            }
            if self.players.len() == 0 {
                self.phase = Phase::Ended;
                Err(GameError::AllQuit)
            } else {
                Ok(nothing())
            }
        } else if self.active.len() == 0 {
            self.phase = Phase::Ended;
            Err(GameError::AllQuit)
        } else {
            proof {
                lemma_lookup_some(self@.active, pre.actor);
            }
            if point_of(&self.active, self.playing_id).is_none() {
                self.playing_id = next_id(&self.active, self.playing_id);
                proof {
                    lemma_next_active(keys(self@.active), pre.actor);
                }
            }
            Ok(self.next_turn(rng))
        }
    }

    /// Handles one input: a player's action or a liveness tick.
    pub fn handle(&mut self, msg: Message, rng: &mut StdRng) -> (r: Result<Vec<Outgoing>, GameError>)
        requires
            old(self).wf(),
            old(self)@.phase == Phase::Lobby || old(self)@.phase == Phase::Playing,
        ensures
            final(self).wf(),
            transition(old(self)@, msg, final(self)@, result_view(r)),
    {
        match msg {
            Message::CheckAlive => {
                if self.phase == Phase::Lobby && self.players.len() == 0 {
                    self.phase = Phase::Ended;
                    Err(GameError::Abandoned)
                } else {
                    Ok(nothing())
                }
            },
            Message::Internal(action, id) => match action {
                PlayerAction::Join { .. } => {
                    self.phase = Phase::Ended;
                    Err(GameError::ProtocolViolation)
                },
                PlayerAction::Error(_) => Ok(nothing()),
                PlayerAction::JoinWithPlayer { name } => {
                    if self.phase == Phase::Playing {
                        Ok(single(Recipient::Joiner, PlayerMessage::GameStarted))
                    } else {
                        Ok(self.join(name))
                    }
                },
                PlayerAction::Start => {
                    if self.phase == Phase::Playing {
                        Ok(single(Recipient::Player(id), PlayerMessage::GameStarted))
                    } else if self.players.len() > 1 {
                        Ok(self.begin(rng))
                    } else {
                        Ok(single(Recipient::Player(id), PlayerMessage::StartFailed))
                    }
                },
                PlayerAction::UseCard { card_index } => {
                    if self.phase == Phase::Lobby {
                        Ok(nothing())
                    } else if id == self.playing_id && card_index < 3 {
                        Ok(self.play(card_index, rng))
                    } else {
                        Ok(single(Recipient::Player(id), PlayerMessage::InvalidOperation))
                    }
                },
                PlayerAction::Quit => self.quit(id, rng),
            },
        }
    }

    /// Closes the session: every player on the roster is told, in order,
    /// that it is over, and the session is terminated.
    pub fn close(&mut self) -> (r: Vec<Outgoing>)
        requires
            old(self).wf(),
            old(self)@.phase != Phase::Terminated,
        ensures
            final(self)@ == (SessionView { phase: Phase::Terminated, ..old(self)@ }),
            outgoing_view(r@) == to_all(keys(old(self)@.roster), Note::GameEnded),
    {
        let mut out: Vec<Outgoing> = Vec::new();
        send_all(&mut out, &self.players, &PlayerMessage::GameEnded);
        self.phase = Phase::Terminated;
        out
    }
}

/// Relies on rand's `Rng::gen_range` over `0..n`: a value below `n` (the
/// range is never empty here, on which it would panic).
#[verifier::external_body]
fn pick_below(rng: &mut StdRng, n: usize) -> (r: usize)
    requires
        n > 0,
    ensures
        r < n,
{
    rng.gen_range(0..n)
}

/// An id is among the keys exactly when a value is found for it.
proof fn lemma_lookup_some<T>(s: Seq<(usize, T)>, id: usize)
    ensures
        keys(s).contains(id) <==> lookup(s, id) is Some,
    decreases s.len(),
{
    if s.len() > 0 {
        let p = s.drop_last();
        lemma_lookup_some(p, id);
        let kp = keys(p);
        let ks = keys(s);
        assert(ks =~= kp.push(s.last().0));
        assert(ks[ks.len() - 1] == s.last().0);
        if kp.contains(id) {
            let j = choose|j: int| 0 <= j < kp.len() && kp[j] == id;
            assert(ks[j] == id);
        }
        if ks.contains(id) && s.last().0 != id {
            let j = choose|j: int| 0 <= j < ks.len() && ks[j] == id;
            assert(kp[j] == id);
        }
    }
}

/// No notification at all.
fn nothing() -> (r: Vec<Outgoing>)
    ensures
        outgoing_view(r@) == Seq::<(Recipient, Note)>::empty(),
{
    let out: Vec<Outgoing> = Vec::new();
    assert(outgoing_view(out@) =~= Seq::<(Recipient, Note)>::empty());
    out
}

/// A single notification.
fn single(to: Recipient, msg: PlayerMessage) -> (r: Vec<Outgoing>)
    ensures
        outgoing_view(r@) == seq![(to, msg@)],
{
    let mut out: Vec<Outgoing> = Vec::new();
    out.push(Outgoing { to, msg });
    assert(outgoing_view(out@) =~= seq![(to, msg@)]);
    out
}

/// The names on the roster, in order.
fn names_of(v: &Vec<Member>) -> (r: Vec<String>)
    ensures
        names_view(r@) == names(members_view(v@)),
{
    let mut out: Vec<String> = Vec::new();
    let mut i: usize = 0;
    while i < v.len()
        invariant
            i <= v@.len(),
            out@.len() == i,
            forall|j: int| 0 <= j < i ==> #[trigger] out@[j]@ == v@[j].name@,
        decreases v@.len() - i,
    {
        out.push(v[i].name.clone());
        i = i + 1;
    }
    assert(names_view(out@) =~= names(members_view(v@)));
    out
}

/// Appends the message for each player on the roster, in order.
fn send_all(out: &mut Vec<Outgoing>, members: &Vec<Member>, msg: &PlayerMessage)
    ensures
        outgoing_view(final(out)@) == outgoing_view(old(out)@) + to_all(keys(members_view(members@)), msg@),
{
    let ghost start = outgoing_view(out@);
    let ghost ks = keys(members_view(members@));
    let mut i: usize = 0;
    while i < members.len()
        invariant
            i <= members@.len(),
            ks == keys(members_view(members@)),
            outgoing_view(out@) == start + to_all(ks.take(i as int), msg@),
        decreases members@.len() - i,
    {
        let ghost prev = outgoing_view(out@);
        let m = copy_message(msg);
        out.push(Outgoing { to: Recipient::Player(members[i].id), msg: m });
        assert(outgoing_view(out@) =~= prev.push((Recipient::Player(ks[i as int]), msg@)));
        assert(to_all(ks.take(i + 1), msg@) =~= to_all(ks.take(i as int), msg@).push((Recipient::Player(ks[i as int]), msg@)));
        i = i + 1;
    }
    assert(ks.take(i as int) =~= ks);
}

/// Appends the message for each player on the roster but `except`, in order.
fn send_others(out: &mut Vec<Outgoing>, members: &Vec<Member>, except: usize, msg: &PlayerMessage)
    ensures
        outgoing_view(final(out)@) == outgoing_view(old(out)@) + to_all(keys(without(members_view(members@), except)), msg@),
{
    let ghost start = outgoing_view(out@);
    let ghost ms = members_view(members@);
    let mut i: usize = 0;
    while i < members.len()
        invariant
            i <= members@.len(),
            ms == members_view(members@),
            outgoing_view(out@) == start + to_all(keys(without(ms.take(i as int), except)), msg@),
        decreases members@.len() - i,
    {
        assert(ms.take(i + 1).drop_last() =~= ms.take(i as int));
        if members[i].id != except {
            let ghost prev = outgoing_view(out@);
            let m = copy_message(msg);
            out.push(Outgoing { to: Recipient::Player(members[i].id), msg: m });
            assert(outgoing_view(out@) =~= prev.push((Recipient::Player(ms[i as int].0), msg@)));
            let ghost w = without(ms.take(i as int), except);
            assert(keys(w.push(ms[i as int])) =~= keys(w).push(ms[i as int].0));
            assert(to_all(keys(w).push(ms[i as int].0), msg@) =~= to_all(keys(w), msg@).push((Recipient::Player(ms[i as int].0), msg@)));
        }
        i = i + 1;
    }
    assert(ms.take(i as int) =~= ms);
}

/// A copy of the names.
fn copy_names(v: &Vec<String>) -> (r: Vec<String>)
    ensures
        names_view(r@) == names_view(v@),
{
    let mut out: Vec<String> = Vec::new();
    let mut i: usize = 0;
    while i < v.len()
        invariant
            i <= v@.len(),
            names_view(out@) == names_view(v@.take(i as int)),
        decreases v@.len() - i,
    {
        let ghost prev = names_view(out@);
        out.push(v[i].clone());
        assert(names_view(out@) =~= prev.push(v@[i as int]@));
        assert(names_view(v@.take(i + 1)) =~= names_view(v@.take(i as int)).push(v@[i as int]@));
        i = i + 1;
    }
    assert(v@.take(i as int) =~= v@);
    out
}

/// A copy of the cards.
fn copy_cards(v: &Vec<Card>) -> (r: Vec<Card>)
    ensures
        cards_view(r@) == cards_view(v@),
{
    let mut out: Vec<Card> = Vec::new();
    let mut i: usize = 0;
    while i < v.len()
        invariant
            i <= v@.len(),
            cards_view(out@) == cards_view(v@.take(i as int)),
        decreases v@.len() - i,
    {
        let ghost prev = cards_view(out@);
        out.push(v[i].duplicate());
        assert(cards_view(out@) =~= prev.push(v@[i as int].actions@));
        assert(cards_view(v@.take(i + 1)) =~= cards_view(v@.take(i as int)).push(v@[i as int].actions@));
        i = i + 1;
    }
    assert(v@.take(i as int) =~= v@);
    out
}

/// A copy of the message.
fn copy_message(m: &PlayerMessage) -> (r: PlayerMessage)
    ensures
        r@ == m@,
{
    match m {
        PlayerMessage::Register(id) => PlayerMessage::Register(*id),
        PlayerMessage::NewPlayer { name } => PlayerMessage::NewPlayer { name: name.clone() },
        PlayerMessage::HostStart => PlayerMessage::HostStart,
        PlayerMessage::Joined { players_name } => PlayerMessage::Joined { players_name: copy_names(players_name) },
        PlayerMessage::GameEnded => PlayerMessage::GameEnded,
        PlayerMessage::GameStarted => PlayerMessage::GameStarted,
        PlayerMessage::Start { point } => PlayerMessage::Start { point: *point },
        PlayerMessage::StartFailed => PlayerMessage::StartFailed,
        PlayerMessage::RoundStart { player_name, stack, point } => PlayerMessage::RoundStart {
            player_name: player_name.clone(),
            stack: stack.duplicate(),
            point: *point,
        },
        PlayerMessage::OtherUseCard { card } => PlayerMessage::OtherUseCard { card: card.duplicate() },
        PlayerMessage::NewRound { cards, stack } => PlayerMessage::NewRound { cards: copy_cards(cards), stack: stack.duplicate() },
        PlayerMessage::Lose => PlayerMessage::Lose,
        PlayerMessage::GameEnd { winner_name } => PlayerMessage::GameEnd {
            winner_name: match winner_name {
                Some(n) => Some(n.clone()),
                None => None,
            },
        },
        PlayerMessage::Win => PlayerMessage::Win,
        PlayerMessage::InvalidOperation => PlayerMessage::InvalidOperation,
    }
}

} // verus!
