use rand::distributions::{Distribution, Standard, WeightedIndex};
use rand::rngs::StdRng;
use vstd::prelude::*;

use crate::stack::{Action, Card};

verus! {

#[verifier::external_type_specification]
#[verifier::external_body]
pub struct ExStdRng(StdRng);

/// A table of weights, ready to draw positions from in proportion to them.
#[verifier::external_body]
pub struct WeightTable {
    index: WeightedIndex<u32>,
}

/// The weights a table was built from.
pub uninterp spec fn weights_of(w: WeightTable) -> Seq<u32>;

/// The sum of a table of weights.
pub open spec fn total(s: Seq<u32>) -> int
    decreases s.len(),
{
    if s.len() == 0 {
        0
    } else {
        total(s.drop_last()) + s.last()
    }
}

/// Relies on rand's `WeightedIndex::new`: with unsigned weights it fails only
/// on an empty table or one whose weights are all zero, and the index it
/// builds draws among the positions of the weights it was given.
#[verifier::external_body]
fn weighted_index(weights: &Vec<u32>) -> (r: Option<WeightTable>)
    requires
        total(weights@) <= u32::MAX,
    ensures
        r is Some <==> (weights@.len() > 0 && total(weights@) > 0),
        r matches Some(w) ==> weights_of(w) == weights@,
{
    WeightedIndex::new(weights.iter()).ok().map(|index| WeightTable { index })
}

/// Relies on rand's `Distribution::sample` for `WeightedIndex`: the result
/// is the position of one of the weights.
#[verifier::external_body]
fn draw_index(w: &WeightTable, rng: &mut StdRng) -> (r: usize)
    ensures
        r < weights_of(*w).len(),
{
    w.index.sample(rng)
}

/// Relies on rand's `Standard` distribution for `bool`: a fair coin.
#[verifier::external_body]
fn fair_coin(rng: &mut StdRng) -> bool {
    Standard.sample(rng)
}

/// The value of a push drawn from magnitude bucket `bucket`, sign flipped on `flip`.
pub open spec fn push_value(bucket: int, flip: bool) -> int {
    if flip {
        9 - bucket
    } else {
        bucket - 9
    }
}

/// The magnitude of an add drawn from bucket `bucket`.
pub open spec fn add_magnitude(bucket: int) -> int {
    if bucket == 0 {
        2
    } else if bucket == 1 {
        3
    } else {
        4
    }
}

/// The value of an add drawn from bucket `bucket`, negative on `negative`.
pub open spec fn add_value(bucket: int, negative: bool) -> int {
    if negative {
        -add_magnitude(bucket)
    } else {
        add_magnitude(bucket)
    }
}

/// The action that the draws name: the kind (push, pop, reverse, add,
/// negate), the magnitude bucket and the sign.
pub open spec fn action_of(kind: int, bucket: int, flip: bool) -> Action {
    if kind == 0 {
        Action::Push(push_value(bucket, flip) as i32)
    } else if kind == 1 {
        Action::Pop
    } else if kind == 2 {
        Action::Reverse
    } else if kind == 3 {
        Action::Add(add_value(bucket, flip) as i32)
    } else {
        Action::Neg
    }
}

/// An action that a draw can produce: pushes of -9 to 9, adds of 2 to 4 either way.
pub open spec fn drawable(a: Action) -> bool {
    match a {
        Action::Push(n) => -9 <= n <= 9,
        Action::Add(n) => (2 <= n <= 4) || (-4 <= n <= -2),
        _ => true,
    }
}

/// A card that a draw can produce: one to four drawable actions.
pub open spec fn drawable_card(c: Card) -> bool {
    1 <= c.actions@.len() <= 4 && forall|i: int| 0 <= i < c.actions@.len() ==> drawable(#[trigger] c.actions@[i])
}

/// The action named by a kind, a magnitude bucket and a sign.
pub fn action_from_draws(kind: usize, bucket: usize, flip: bool) -> (r: Action)
    requires
        kind < 5,
        kind == 0 ==> bucket < 10,
        kind == 3 ==> bucket < 4,
    ensures
        r == action_of(kind as int, bucket as int, flip),
        drawable(r),
{
    if kind == 0 {
        let v: i32 = bucket as i32 - 9;
        Action::Push(if flip { -v } else { v })
    } else if kind == 1 {
        Action::Pop
    } else if kind == 2 {
        Action::Reverse
    } else if kind == 3 {
        let m: i32 = if bucket == 0 { 2 } else if bucket == 1 { 3 } else { 4 };
        Action::Add(if flip { -m } else { m })
    } else {
        Action::Neg
    }
}

/// Draws that name an action: a kind below 5, a push bucket below 10, an
/// add bucket below 4.
pub open spec fn slot_ok(d: (usize, usize, bool)) -> bool {
    &&& d.0 < 5
    &&& d.0 == 0 ==> d.1 < 10
    &&& d.0 == 3 ==> d.1 < 4
}

/// Every slot's draws name an action.
pub open spec fn slots_ok(draws: Seq<(usize, usize, bool)>) -> bool {
    forall|i: int| 0 <= i < draws.len() ==> slot_ok(#[trigger] draws[i])
}

/// The actions that the slots' draws name, in order.
pub open spec fn actions_of(draws: Seq<(usize, usize, bool)>) -> Seq<Action> {
    draws.map_values(|d: (usize, usize, bool)| action_of(d.0 as int, d.1 as int, d.2))
}

/// The card that the draws name: one action more than the count draw, each
/// named by its slot's draws.
pub fn card_from_draws(count_draw: usize, draws: &Vec<(usize, usize, bool)>) -> (r: Card)
    requires
        count_draw < 4,
        draws@.len() == count_draw + 1,
        slots_ok(draws@),
    ensures
        r.actions@ == actions_of(draws@),
        r.actions@.len() == count_draw + 1,
        drawable_card(r),
{
    let mut actions: Vec<Action> = Vec::new();
    let mut i: usize = 0;
    while i < draws.len()
        invariant
            i <= draws@.len(),
            slots_ok(draws@),
            actions@ == actions_of(draws@.take(i as int)),
        decreases draws@.len() - i,
    {
        let d = draws[i];
        assert(slot_ok(draws@[i as int]));
        let a = action_from_draws(d.0, d.1, d.2);
        actions.push(a);
        i = i + 1;
        assert(actions@ =~= actions_of(draws@.take(i as int)));
    }
    assert(draws@.take(i as int) =~= draws@);
    let r = Card { actions };
    assert forall|j: int| 0 <= j < r.actions@.len() implies drawable(#[trigger] r.actions@[j]) by {
        let d = draws@[j];
        assert(slot_ok(d));
        assert(r.actions@[j] == action_of(d.0 as int, d.1 as int, d.2));
    }
    r
}

/// The weight tables that cards are drawn from, in order: the action count
/// (1 to 4), the kind (push, pop, reverse, add, negate), the push bucket,
/// the add bucket, and the push sign (kept, flipped).
pub open spec fn card_tables() -> Seq<Seq<u32>> {
    seq![
        seq![4u32, 6, 3, 1],
        seq![7u32, 3, 3, 2, 1],
        seq![1u32, 1, 1, 2, 3, 4, 8, 8, 8, 1],
        seq![1u32, 2, 3, 3],
        seq![1u32, 7],
    ]
}

/// The weighted tables that cards are drawn from.
pub struct CardDistribution {
    action_number_weight: WeightTable,
    card_weight: WeightTable,
    push_number_weight: WeightTable,
    add_number_weight: WeightTable,
    neg_weight: WeightTable,
}

/// Builds the index of a table that is known to be non-empty, with a
/// positive total that fits in `u32`.
fn index_of(weights: &Vec<u32>) -> (r: WeightTable)
    requires
        weights@.len() > 0,
        0 < total(weights@) <= u32::MAX,
    ensures
        weights_of(r) == weights@,
{
    match weighted_index(weights) {
        Some(w) => w,
        None => vstd::pervasive::unreached(),
    }
}

impl CardDistribution {
    /// The tables it draws from, in the order of `card_tables`.
    pub closed spec fn tables(&self) -> Seq<Seq<u32>> {
        seq![
            weights_of(self.action_number_weight),
            weights_of(self.card_weight),
            weights_of(self.push_number_weight),
            weights_of(self.add_number_weight),
            weights_of(self.neg_weight),
        ]
    }

    /// It draws from the game's tables.
    pub open spec fn wf(&self) -> bool {
        self.tables() == card_tables()
    }

    /// Draws the kind of one action, then for a push a magnitude bucket and
    /// a sign flip, for an add a magnitude bucket and a fair sign; other
    /// kinds draw nothing more.
    pub fn sample_slot(&self, rng: &mut StdRng) -> (r: (usize, usize, bool))
        requires
            self.wf(),
        ensures
            slot_ok(r),
    {
        let kind = draw_index(&self.card_weight, rng);
        if kind == 0 {
            let bucket = draw_index(&self.push_number_weight, rng);
            let flip = draw_index(&self.neg_weight, rng) == 1;
            (kind, bucket, flip)
        } else if kind == 3 {
            let bucket = draw_index(&self.add_number_weight, rng);
            let negative = fair_coin(rng);
            (kind, bucket, negative)
        } else {
            (kind, 0, false)
        }
    }

    /// Draws one action.
    pub fn sample_action(&self, rng: &mut StdRng) -> (r: Action)
        requires
            self.wf(),
        ensures
            exists|d: (usize, usize, bool)| slot_ok(d) && r == action_of(d.0 as int, d.1 as int, d.2),
            drawable(r),
    {
        let d = self.sample_slot(rng);
        action_from_draws(d.0, d.1, d.2)
    }

    /// Draws one card: the number of actions (the count draw plus one),
    /// then the draws of each action in turn.
    pub fn sample(&self, rng: &mut StdRng) -> (r: Card)
        requires
            self.wf(),
        ensures
            exists|d: Seq<(usize, usize, bool)>| 1 <= d.len() <= 4 && slots_ok(d) && r.actions@ == actions_of(d),
            drawable_card(r),
    {
        let count_draw = draw_index(&self.action_number_weight, rng);
        let mut draws: Vec<(usize, usize, bool)> = Vec::new();
        let mut i: usize = 0;
        while i <= count_draw
            invariant
                self.wf(),
                count_draw < 4,
                i <= count_draw + 1,
                draws@.len() == i,
                slots_ok(draws@),
            decreases count_draw + 1 - i,
        {
            let d = self.sample_slot(rng);
            draws.push(d);
            i = i + 1;
        }
        card_from_draws(count_draw, &draws)
    }

    /// Draws the three cards offered to a player for one turn.
    pub fn deal(&self, rng: &mut StdRng) -> (r: Vec<Card>)
        requires
            self.wf(),
        ensures
            r@.len() == 3,
            forall|i: int| 0 <= i < 3 ==> drawable_card(#[trigger] r@[i]),
    {
        let mut cards: Vec<Card> = Vec::new();
        let mut i: usize = 0;
        while i < 3
            invariant
                self.wf(),
                i <= 3,
                cards@.len() == i,
                forall|j: int| 0 <= j < i ==> drawable_card(#[trigger] cards@[j]),
            decreases 3 - i,
        {
            let c = self.sample(rng);
            cards.push(c);
            i = i + 1;
        }
        cards
    }
}

impl Default for CardDistribution {
    fn default() -> (r: CardDistribution)
        ensures
            r.tables() == card_tables(),
    {
        let counts: Vec<u32> = vec![4, 6, 3, 1];
        let kinds: Vec<u32> = vec![7, 3, 3, 2, 1];
        let pushes: Vec<u32> = vec![1, 1, 1, 2, 3, 4, 8, 8, 8, 1];
        let adds: Vec<u32> = vec![1, 2, 3, 3];
        let flips: Vec<u32> = vec![1, 7];
        assert(total(counts@) == 14) by { reveal_with_fuel(total, 5); }
        assert(total(kinds@) == 16) by { reveal_with_fuel(total, 6); }
        assert(total(pushes@) == 37) by { reveal_with_fuel(total, 11); }
        assert(total(adds@) == 9) by { reveal_with_fuel(total, 5); }
        assert(total(flips@) == 8) by { reveal_with_fuel(total, 3); }
        let r = CardDistribution {
            action_number_weight: index_of(&counts),
            card_weight: index_of(&kinds),
            push_number_weight: index_of(&pushes),
            add_number_weight: index_of(&adds),
            neg_weight: index_of(&flips),
        };
        assert(r.tables() =~= card_tables());
        r
    }
}

} // verus!
