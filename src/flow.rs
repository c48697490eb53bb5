//! Amortization of purchases over time: a pool of money per spending
//! category that releases a constant share each day until exhausted.
use vstd::prelude::*;
use crate::money::{CentsAmount, SignedCentsAmount, magnitude};

verus! {

/// The state of a pool: the amount still to absorb and the days left.
pub type PoolView = (nat, nat);

/// A pool holds money exactly when it has days left.
pub open spec fn pool_wf(s: PoolView) -> bool {
    (s.0 == 0) == (s.1 == 0)
}

/// What the pool releases today.
pub open spec fn pool_flow(s: PoolView) -> nat {
    if s.1 == 0 {
        0
    } else {
        s.0 / s.1
    }
}

/// The pool one day later.
pub open spec fn pool_step(s: PoolView) -> PoolView {
    if s.1 == 0 {
        s
    } else {
        ((s.0 - s.0 / s.1) as nat, (s.1 - 1) as nat)
    }
}

/// The pool after `amount` more is put in it, to be absorbed over `dur`
/// days from now.
pub open spec fn pool_add(s: PoolView, amount: nat, dur: nat) -> PoolView {
    if amount == 0 {
        s
    } else {
        (s.0 + amount, dur)
    }
}

/// The pool after `k` days.
pub open spec fn pool_steps(s: PoolView, k: nat) -> PoolView
    decreases k,
{
    if k == 0 {
        s
    } else {
        pool_step(pool_steps(s, (k - 1) as nat))
    }
}

/// What the pool releases over `k` days.
pub open spec fn pool_released(s: PoolView, k: nat) -> nat
    decreases k,
{
    if k == 0 {
        0
    } else {
        pool_released(s, (k - 1) as nat) + pool_flow(pool_steps(s, (k - 1) as nat))
    }
}

/// A day later, a well-formed pool stays well formed, and what it releases
/// is what it loses.
pub proof fn lemma_step_wf(s: PoolView)
    requires
        pool_wf(s),
    ensures
        pool_wf(pool_step(s)),
        pool_flow(s) <= s.0,
        pool_step(s).0 + pool_flow(s) == s.0,
        pool_step(s).0 <= s.0,
{
    if s.1 > 0 {
        assert(s.0 / s.1 <= s.0) by (nonlinear_arith)
            requires s.1 > 0;
        if s.1 > 1 {
            assert(s.0 / s.1 < s.0) by (nonlinear_arith)
                requires s.1 > 1, s.0 > 0;
        }
    }
}

/// A pool with `d` days left releases, over those `d` days, exactly what it
/// holds, and is then empty.
pub proof fn lemma_pool_drains(s: PoolView)
    requires
        pool_wf(s),
    ensures
        pool_steps(s, s.1) == (0nat, 0nat),
        pool_released(s, s.1) == s.0,
{
    lemma_pool_drains_upto(s, s.1);
}

proof fn lemma_pool_drains_upto(s: PoolView, k: nat)
    requires
        pool_wf(s),
        k <= s.1,
    ensures
        pool_wf(pool_steps(s, k)),
        pool_steps(s, k).1 == s.1 - k,
        pool_steps(s, k).0 + pool_released(s, k) == s.0,
        k == s.1 ==> pool_steps(s, k) == (0nat, 0nat),
    decreases k,
{
    if k > 0 {
        lemma_pool_drains_upto(s, (k - 1) as nat);
        lemma_step_wf(pool_steps(s, (k - 1) as nat));
    }
}

/// The external balance of an account.
#[derive(Debug, Copy, Clone)]
pub struct Balance {
    pub external: SignedCentsAmount,
}

/// The balance of each account.
pub struct Balances(pub crate::keyed::StrMap<Balance>);

/// An amount released per day.
#[derive(Debug, Copy, Clone)]
pub struct Flow(pub CentsAmount);

/// A signed amount released per day.
#[derive(Debug, Copy, Clone)]
pub struct SignedFlow(pub SignedCentsAmount);

/// `amount` times `rate` over `span`: the share of a flow of `rate` that is
/// due to `amount` out of a growth of `span`.
pub open spec fn approx_flow(amount: nat, rate: nat, span: nat) -> nat {
    if amount == 0 {
        0
    } else {
        amount * rate / span
    }
}

/// The signed share, rounded toward zero.
pub open spec fn approx_signed_flow(amount: int, rate: nat, span: nat) -> int {
    if amount < 0 {
        -approx_flow(magnitude(amount), rate, span)
    } else {
        approx_flow(magnitude(amount), rate, span) as int
    }
}

impl Flow {
    /// The part of the flow of `with` due to `amount`, taking `with` to be
    /// `without` plus contributions in proportion to their amounts.
    pub fn approx(amount: CentsAmount, without: &FlowState, with: &FlowState) -> (r: Self)
        requires
            without.wf(),
            with.wf(),
            amount@ != 0 ==> without@.0 < with@.0,
            approx_flow(amount@, pool_flow(with@), (with@.0 - without@.0) as nat) <= u64::MAX,
        ensures
            r.0@ == approx_flow(amount@, pool_flow(with@), (with@.0 - without@.0) as nat),
    {
        if amount.cents() == 0 {
            Flow(CentsAmount::new(0))
        } else {
            let rate = with.flow().0.cents();
            let span = with.amount.cents() - without.amount.cents();
            proof {
                assert(amount@ * rate <= u64::MAX * u64::MAX) by (nonlinear_arith)
                    requires amount@ <= u64::MAX, rate <= u64::MAX;
            }
            Flow(CentsAmount::new((amount.cents() as u128 * rate as u128 / span as u128) as u64))
        }
    }
}

impl SignedFlow {
    /// The signed part of the flow of `with` due to `amount`, rounded toward
    /// zero.
    pub fn approx(amount: SignedCentsAmount, without: &FlowState, with: &FlowState) -> (r: Self)
        requires
            without.wf(),
            with.wf(),
            amount@ != 0 ==> without@.0 < with@.0,
            approx_flow(magnitude(amount@), pool_flow(with@), (with@.0 - without@.0) as nat)
                <= i64::MAX,
        ensures
            r.0@ == approx_signed_flow(amount@, pool_flow(with@), (with@.0 - without@.0) as nat),
    {
        if amount.cents() == 0 {
            SignedFlow(SignedCentsAmount::new(0))
        } else {
            let rate = with.flow().0.cents();
            let span = with.amount.cents() - without.amount.cents();
            let size = amount.abs().cents();
            proof {
                assert(size * rate <= u64::MAX * u64::MAX) by (nonlinear_arith)
                    requires size <= u64::MAX, rate <= u64::MAX;
            }
            let share = (size as u128 * rate as u128 / span as u128) as i64;
            if amount.cents() < 0 {
                SignedFlow(SignedCentsAmount::new(-share))
            } else {
                SignedFlow(SignedCentsAmount::new(share))
            }
        }
    }
}

/// The pool of one spending category.
#[derive(Debug, Copy, Clone)]
pub struct FlowState {
    amount: CentsAmount,
    days: usize,
}

impl View for FlowState {
    type V = PoolView;

    closed spec fn view(&self) -> PoolView {
        (self.amount@, self.days as nat)
    }
}

impl FlowState {
    /// Money is left exactly when days are.
    pub open spec fn wf(&self) -> bool {
        pool_wf(self@)
    }

    /// The amount left fits in a `u64`, the days in a `usize`.
    pub proof fn lemma_bound(&self)
        ensures
            self@.0 <= u64::MAX,
            self@.1 <= usize::MAX,
    {
        self.amount.lemma_bound();
    }

    /// An empty pool.
    pub fn new() -> (r: Self)
        ensures
            r@ == (0nat, 0nat),
            r.wf(),
    {
        FlowState { amount: CentsAmount::new(0), days: 0 }
    }

    /// Whether the pool is empty.
    pub fn inactive(&self) -> (r: bool)
        requires
            self.wf(),
        ensures
            r == (self@.1 == 0),
    {
        self.days == 0
    }

    /// What the pool releases today, without advancing it.
    pub fn flow(&self) -> (r: Flow)
        requires
            self.wf(),
        ensures
            r.0@ == pool_flow(self@),
    {
        if self.inactive() {
            return Flow(CentsAmount::new(0));
        }
        Flow(self.amount.divided(self.days))
    }

    /// Advances the pool by one day; returns what it released.
    pub fn step(&mut self) -> (r: Flow)
        requires
            old(self).wf(),
        ensures
            final(self)@ == pool_step(old(self)@),
            final(self).wf(),
            r.0@ == pool_flow(old(self)@),
    {
        proof {
            lemma_step_wf(self@);
        }
        if self.inactive() {
            return Flow(CentsAmount::new(0));
        }
        let absorbed = self.amount.divided(self.days);
        self.amount = self.amount.minus(absorbed);
        self.days = self.days - 1;
        Flow(absorbed)
    }

    /// The pool one day later.
    pub fn next(&self) -> (r: Self)
        requires
            self.wf(),
        ensures
            r@ == pool_step(self@),
            r.wf(),
    {
        let mut ret = *self;
        ret.step();
        ret
    }

    /// Puts `amount` in the pool and sets the days left to `dur`; nothing
    /// changes when `amount` is zero.
    pub fn add(&mut self, amount: CentsAmount, dur: usize)
        requires
            old(self).wf(),
            amount@ != 0 ==> dur > 0,
            old(self)@.0 + amount@ <= u64::MAX,
        ensures
            final(self)@ == pool_add(old(self)@, amount@, dur as nat),
            final(self).wf(),
    {
        if amount.cents() == 0 {
            return;
        }
        self.amount = self.amount.plus(amount);
        self.days = dur;
    }
}

} // verus!
