use vstd::prelude::*;
use vstd::wrapping::i32_specs::{wrapping_add, wrapping_sub};

verus! {

/// What the pool pays out when it fills up: the actor gains `self_gain`
/// (the last value) and every other player loses `other_lost` (the first).
#[derive(Debug, Clone, Copy, PartialEq, Eq)]
pub struct Overflow {
    pub other_lost: i32,
    pub self_gain: i32,
}

/// One effect of a card on the pool.
#[derive(Debug, Clone, Copy, PartialEq, Eq)]
pub enum Action {
    Push(i32),
    Pop,
    Reverse,
    Add(i32),
    Neg,
}

/// A card: the actions it applies to the pool, in order.
#[derive(Debug, PartialEq, Eq)]
pub struct Card {
    pub actions: Vec<Action>,
}

/// The pool: a sequence of numbers that empties itself, with a payout,
/// whenever a push brings it to its capacity.
#[derive(Debug, PartialEq, Eq)]
pub struct Stack {
    vec: Vec<i32>,
    len: usize,
}

/// The pool after pushing `n`, and the payout if that push filled it.
pub open spec fn push_result(s: Seq<i32>, cap: nat, n: i32) -> (Seq<i32>, Option<Overflow>) {
    let t = s.push(n);
    if t.len() == cap {
        (Seq::empty(), Some(Overflow { other_lost: t[0], self_gain: t.last() }))
    } else {
        (t, None)
    }
}

/// The pool without its last value; an empty pool stays empty.
pub open spec fn pop_result(s: Seq<i32>) -> Seq<i32> {
    if s.len() == 0 { s } else { s.drop_last() }
}

/// The pool with `n` added (wrapping) to its last value; an empty pool stays empty.
pub open spec fn add_result(s: Seq<i32>, n: i32) -> Seq<i32> {
    if s.len() == 0 { s } else { s.update(s.len() - 1, wrapping_add(s.last(), n)) }
}

/// The pool with its last value negated (wrapping); an empty pool stays empty.
pub open spec fn neg_result(s: Seq<i32>) -> Seq<i32> {
    if s.len() == 0 { s } else { s.update(s.len() - 1, wrapping_sub(0, s.last())) }
}

/// The pool after one action, and the payout that action produced.
pub open spec fn action_result(s: Seq<i32>, cap: nat, a: Action) -> (Seq<i32>, Option<Overflow>) {
    match a {
        Action::Push(n) => push_result(s, cap, n),
        Action::Pop => (pop_result(s), None),
        Action::Reverse => (s.reverse(), None),
        Action::Add(n) => (add_result(s, n), None),
        Action::Neg => (neg_result(s), None),
    }
}

/// The pool after a run of actions, and every payout produced on the way, in order.
pub open spec fn card_result(s: Seq<i32>, cap: nat, acts: Seq<Action>) -> (Seq<i32>, Seq<Overflow>)
    decreases acts.len(),
{
    if acts.len() == 0 {
        (s, Seq::empty())
    } else {
        let prev = card_result(s, cap, acts.drop_last());
        let step = action_result(prev.0, cap, acts.last());
        (step.0, match step.1 {
            Some(o) => prev.1.push(o),
            None => prev.1,
        })
    }
}

/// Pushing keeps the pool below its capacity: a push pays out exactly when it
/// brings the pool to its capacity, the pool is empty right after, and the
/// payout is the first value then held as the loss and the last (the pushed
/// value) as the gain.
pub proof fn lemma_push_overflow(s: Seq<i32>, cap: nat, n: i32)
    requires
        s.len() < cap,
    ensures
        push_result(s, cap, n).0.len() < cap,
        push_result(s, cap, n).1 is Some <==> s.len() + 1 == cap,
        push_result(s, cap, n).1 is Some ==> push_result(s, cap, n).0.len() == 0,
        push_result(s, cap, n).1 is None ==> push_result(s, cap, n).0 == s.push(n),
        push_result(s, cap, n).1 == Some(Overflow { other_lost: s.push(n)[0], self_gain: s.push(n).last() })
            || push_result(s, cap, n).1 is None,
{
}

/// Pushes as actions, in order.
pub open spec fn pushes(ns: Seq<i32>) -> Seq<Action> {
    ns.map_values(|n: i32| Action::Push(n))
}

/// Over any run of pushes, the pool never reaches its capacity.
pub proof fn lemma_pushes_bounded(s: Seq<i32>, cap: nat, ns: Seq<i32>)
    requires
        s.len() < cap,
    ensures
        card_result(s, cap, pushes(ns)).0.len() < cap,
    decreases ns.len(),
{
    if ns.len() > 0 {
        lemma_pushes_bounded(s, cap, ns.drop_last());
        assert(pushes(ns).drop_last() =~= pushes(ns.drop_last()));
        let prev = card_result(s, cap, pushes(ns.drop_last()));
        lemma_push_overflow(prev.0, cap, ns.last());
    }
}

/// Counting pushes: one more push either completes a multiple of `c` (the
/// remainder wraps to 0 and the quotient grows by one) or only grows the
/// remainder.
proof fn lemma_next_count(m: int, c: int)
    requires
        m >= 0,
        c >= 1,
    ensures
        0 <= m % c < c,
        c * (m / c) == m - m % c,
        m % c + 1 == c ==> (m + 1) % c == 0 && (m + 1) / c == m / c + 1,
        m % c + 1 < c ==> (m + 1) % c == m % c + 1 && (m + 1) / c == m / c,
{
    vstd::arithmetic::div_mod::lemma_fundamental_div_mod(m, c);
    vstd::arithmetic::div_mod::lemma_mod_pos_bound(m, c);
    let q = m / c;
    let r = m % c;
    assert(c * q == q * c) by (nonlinear_arith);
    if r + 1 == c {
        assert(m + 1 == (q + 1) * c + 0) by (nonlinear_arith)
            requires m == c * q + r, r + 1 == c;
        vstd::arithmetic::div_mod::lemma_fundamental_div_mod_converse(m + 1, c, q + 1, 0);
    } else {
        assert(m + 1 == q * c + (r + 1)) by (nonlinear_arith)
            requires m == c * q + r;
        vstd::arithmetic::div_mod::lemma_fundamental_div_mod_converse(m + 1, c, q, r + 1);
    }
}

/// From an empty pool, a run of pushes leaves exactly the values pushed
/// since the last payout (the last `(ns.len() as int) % cap` of them), pays out once
/// for each `cap` pushes, and payout `k` holds push `k * cap` (the first
/// value of the pool then) as the loss and push `k * cap + cap - 1` (the
/// last) as the gain: nothing is dropped silently.
pub proof fn lemma_pushes_exact(cap: nat, ns: Seq<i32>)
    requires
        cap >= 1,
    ensures
        card_result(Seq::empty(), cap, pushes(ns)).0 == ns.skip(ns.len() - (ns.len() as int) % (cap as int)),
        card_result(Seq::empty(), cap, pushes(ns)).1.len() == (ns.len() as int) / (cap as int),
        forall|k: int| 0 <= k < (ns.len() as int) / (cap as int) ==> #[trigger] card_result(Seq::empty(), cap, pushes(ns)).1[k]
            == (Overflow { other_lost: ns[k * cap], self_gain: ns[k * cap + cap - 1] }),
    decreases ns.len(),
{
    let c = cap as int;
    if ns.len() == 0 {
        assert(0int % c == 0 && 0int / c == 0) by (nonlinear_arith)
            requires c >= 1;
        assert(ns.skip(0) =~= Seq::<i32>::empty());
    } else {
        let p = ns.drop_last();
        let m = p.len() as int;
        lemma_pushes_exact(cap, p);
        lemma_next_count(m, c);
        assert(pushes(ns).drop_last() =~= pushes(p));
        assert(pushes(ns).last() == Action::Push(ns.last()));
        let prev = card_result(Seq::empty(), cap, pushes(p));
        let cur = card_result(Seq::empty(), cap, pushes(ns));
        let t = prev.0.push(ns.last());
        assert(prev.0.len() == m % c);
        assert(t =~= ns.subrange(m - m % c, m + 1));
        assert forall|k: int| 0 <= k < m / c implies #[trigger] prev.1[k]
            == (Overflow { other_lost: ns[k * c], self_gain: ns[k * c + c - 1] }) by {
            assert(k * c + c <= (m / c) * c) by (nonlinear_arith)
                requires k + 1 <= m / c, c >= 1;
            assert((m / c) * c == c * (m / c)) by (nonlinear_arith);
            assert(0 <= k * c) by (nonlinear_arith)
                requires k >= 0, c >= 1;
            assert(p[k * c] == ns[k * c]);
            assert(p[k * c + c - 1] == ns[k * c + c - 1]);
        }
        if m % c + 1 == c {
            assert(cur.0 =~= Seq::<i32>::empty());
            assert(ns.skip(ns.len() - (ns.len() as int) % c) =~= Seq::<i32>::empty());
            let o = Overflow { other_lost: t[0], self_gain: t.last() };
            assert(cur.1 == prev.1.push(o));
            assert((m / c) * c == c * (m / c)) by (nonlinear_arith);
            assert forall|k: int| 0 <= k < (ns.len() as int) / c implies #[trigger] cur.1[k]
                == (Overflow { other_lost: ns[k * c], self_gain: ns[k * c + c - 1] }) by {
                if k < m / c {
                    assert(cur.1[k] == prev.1[k]);
                } else {
                    assert(k == m / c);
                    assert(cur.1[k] == o);
                }
            }
        } else {
            assert(cur.0 == t);
            assert(cur.1 == prev.1);
            assert(ns.skip(ns.len() - (ns.len() as int) % c) =~= t);
        }
    }
}

impl Card {
    /// A copy of the card.
    pub fn duplicate(&self) -> (r: Card)
        ensures
            r.actions@ == self.actions@,
    {
        let mut actions: Vec<Action> = Vec::new();
        let mut i: usize = 0;
        while i < self.actions.len()
            invariant
                i <= self.actions@.len(),
                actions@ == self.actions@.subrange(0, i as int),
            decreases self.actions@.len() - i,
        {
            actions.push(self.actions[i]);
            i = i + 1;
            assert(actions@ =~= self.actions@.subrange(0, i as int));
        }
        assert(actions@ =~= self.actions@);
        Card { actions }
    }
}

impl View for Stack {
    type V = Seq<i32>;

    closed spec fn view(&self) -> Seq<i32> {
        self.vec@
    }
}

impl Stack {
    /// The number of values at which the pool overflows.
    pub closed spec fn capacity(&self) -> nat {
        self.len as nat
    }

    /// The pool holds fewer values than its capacity.
    pub open spec fn wf(&self) -> bool {
        self@.len() < self.capacity()
    }

    /// An empty pool that overflows at `len` values.
    pub fn new(len: usize) -> (r: Stack)
        requires
            len >= 1,
        ensures
            r.wf(),
            r@ == Seq::<i32>::empty(),
            r.capacity() == len,
    {
        Stack { vec: Vec::with_capacity(10), len }
    }

    /// The capacity of the pool.
    pub fn len(&self) -> (r: usize)
        ensures
            r == self.capacity(),
    {
        self.len
    }

    /// The values in the pool, first to last.
    pub fn contents(&self) -> (r: &Vec<i32>)
        ensures
            r@ == self@,
    {
        &self.vec
    }

    /// A copy of the pool.
    pub fn duplicate(&self) -> (r: Stack)
        ensures
            r@ == self@,
            r.capacity() == self.capacity(),
    {
        Stack { vec: self.vec.clone(), len: self.len }
    }

    /// Pushes `num`; when that brings the pool to its capacity, the pool
    /// empties and pays out its first and last values.
    pub fn push(&mut self, num: i32) -> (r: Option<Overflow>)
        requires
            old(self).wf(),
        ensures
            final(self).wf(),
            final(self).capacity() == old(self).capacity(),
            (final(self)@, r) == push_result(old(self)@, old(self).capacity(), num),
    {
        self.vec.push(num);
        if self.vec.len() == self.len {
            let overflow = Overflow { other_lost: self.vec[0], self_gain: self.vec[self.vec.len() - 1] };
            self.vec.clear();
            assert(self.vec@ =~= Seq::<i32>::empty());
            Some(overflow)
        } else {
            None
        }
    }

    /// Removes the last value, if there is one.
    pub fn pop(&mut self)
        requires
            old(self).wf(),
        ensures
            final(self).wf(),
            final(self).capacity() == old(self).capacity(),
            final(self)@ == pop_result(old(self)@),
    {
        let _ = self.vec.pop();
    }

    /// Reverses the order of the values.
    pub fn reverse(&mut self)
        requires
            old(self).wf(),
        ensures
            final(self).wf(),
            final(self).capacity() == old(self).capacity(),
            final(self)@ == old(self)@.reverse(),
    {
        let n = self.vec.len();
        let mut out: Vec<i32> = Vec::with_capacity(n);
        let mut i: usize = 0;
        while i < n
            invariant
                n == self.vec@.len(),
                i <= n,
                out@.len() == i,
                forall|j: int| 0 <= j < i ==> out@[j] == self.vec@[n - 1 - j],
            decreases n - i,
        {
            out.push(self.vec[n - 1 - i]);
            i = i + 1;
        }
        assert(out@ =~= self.vec@.reverse());
        self.vec = out;
    }

    /// Adds `num` to the last value, wrapping on overflow; no effect on an empty pool.
    pub fn add(&mut self, num: i32)
        requires
            old(self).wf(),
        ensures
            final(self).wf(),
            final(self).capacity() == old(self).capacity(),
            final(self)@ == add_result(old(self)@, num),
    {
        match self.vec.pop() {
            Some(n) => {
                self.vec.push(n.wrapping_add(num));
                assert(self.vec@ =~= add_result(old(self)@, num));
            },
            None => {},
        }
    }

    /// Negates the last value, wrapping on overflow; no effect on an empty pool.
    pub fn neg(&mut self)
        requires
            old(self).wf(),
        ensures
            final(self).wf(),
            final(self).capacity() == old(self).capacity(),
            final(self)@ == neg_result(old(self)@),
    {
        match self.vec.pop() {
            Some(n) => {
                self.vec.push(0i32.wrapping_sub(n));
                assert(self.vec@ =~= neg_result(old(self)@));
            },
            None => {},
        }
    }

    /// Applies one action, returning the payout if it filled the pool.
    pub fn use_action(&mut self, action: &Action) -> (r: Option<Overflow>)
        requires
            old(self).wf(),
        ensures
            final(self).wf(),
            final(self).capacity() == old(self).capacity(),
            (final(self)@, r) == action_result(old(self)@, old(self).capacity(), *action),
    {
        match action {
            Action::Push(num) => self.push(*num),
            Action::Pop => {
                self.pop();
                None
            },
            Action::Reverse => {
                self.reverse();
                None
            },
            Action::Add(num) => {
                self.add(*num);
                None
            },
            Action::Neg => {
                self.neg();
                None
            },
        }
    }

    /// Applies the card's actions in order and returns every payout they produced.
    pub fn use_card(&mut self, card: &Card) -> (r: Vec<Overflow>)
        requires
            old(self).wf(),
        ensures
            final(self).wf(),
            final(self).capacity() == old(self).capacity(),
            (final(self)@, r@) == card_result(old(self)@, old(self).capacity(), card.actions@),
            r@.len() <= card.actions@.len(),
    {
        let ghost start = self@;
        let ghost cap = self.capacity();
        let mut out: Vec<Overflow> = Vec::new();
        let mut i: usize = 0;
        while i < card.actions.len()
            invariant
                i <= card.actions@.len(),
                self.wf(),
                self.capacity() == cap,
                (self@, out@) == card_result(start, cap, card.actions@.subrange(0, i as int)),
                out@.len() <= i,
            decreases card.actions@.len() - i,
        {
            let ghost before = card.actions@.subrange(0, i as int);
            let produced = self.use_action(&card.actions[i]);
            match produced {
                Some(o) => out.push(o),
                None => {},
            }
            i = i + 1;
            assert(card.actions@.subrange(0, i as int).drop_last() =~= before);
        }
        assert(card.actions@.subrange(0, i as int) =~= card.actions@);
        out
    }
}

impl Default for Stack {
    fn default() -> (r: Stack)
        ensures
            r.wf(),
            r@ == Seq::<i32>::empty(),
            r.capacity() == 10,
    {
        Stack::new(10)
    }
}

} // verus!
