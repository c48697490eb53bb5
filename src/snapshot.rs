//! The pools of every category, and their state as of a given day.
use vstd::prelude::*;
use crate::accounts::AccountRef;
use crate::date::{Date, MAX_DAY};
use crate::flow::{FlowState, PoolView, SignedFlow, pool_wf, pool_step, pool_add, pool_flow, lemma_step_wf, approx_signed_flow};
use crate::keyed::{StrMap, keys_of, values_of, lemma_entry_lookup, lemma_str_lt_irreflexive};
use crate::ledger::{Purchase, Transaction, Transactions, tx_day, sorted_by_day};
use crate::tags::{Tags, TagView};

verus! {

/// Pools by category, in category order.
pub type PoolsView = Seq<(Seq<char>, PoolView)>;

/// Every pool holds money exactly when it has days left.
pub open spec fn pools_wf(v: PoolsView) -> bool {
    forall|i: int| 0 <= i < v.len() ==> pool_wf(#[trigger] v[i].1)
}

/// No pool holds more than `b`.
pub open spec fn pools_bounded(v: PoolsView, b: nat) -> bool {
    forall|i: int| 0 <= i < v.len() ==> (#[trigger] v[i].1).0 <= b
}

/// Every pool one day later.
pub open spec fn pools_step(v: PoolsView) -> PoolsView {
    v.map_values(|e: (Seq<char>, PoolView)| (e.0, pool_step(e.1)))
}

/// Every pool `k` days later.
pub open spec fn pools_steps(v: PoolsView, k: nat) -> PoolsView
    decreases k,
{
    if k == 0 {
        v
    } else {
        pools_step(pools_steps(v, (k - 1) as nat))
    }
}

/// The pools after `amount` is put in the pool of `tag`, over `dur` days.
pub open spec fn pools_add(v: PoolsView, tag: Seq<char>, amount: nat, dur: nat) -> PoolsView {
    v.map_values(
        |e: (Seq<char>, PoolView)|
            if e.0 == tag {
                (e.0, pool_add(e.1, amount, dur))
            } else {
                e
            },
    )
}

/// Empty pools for the categories `ks`.
pub open spec fn empty_pools(ks: Seq<Seq<char>>) -> PoolsView {
    ks.map_values(|k: Seq<char>| (k, (0nat, 0nat)))
}

/// A day later, well-formed pools stay well formed and bounded, with the same
/// categories.
pub proof fn lemma_pools_step(v: PoolsView, b: nat)
    requires
        pools_wf(v),
        pools_bounded(v, b),
    ensures
        pools_wf(pools_step(v)),
        pools_bounded(pools_step(v), b),
        keys_of(pools_step(v)) == keys_of(v),
{
    assert forall|i: int| 0 <= i < v.len() implies pool_wf(#[trigger] pools_step(v)[i].1) && pools_step(v)[i].1.0 <= b by {
        lemma_step_wf(v[i].1);
    }
    assert(keys_of(pools_step(v)) =~= keys_of(v));
}

/// Any number of days later, well-formed pools stay well formed and bounded,
/// with the same categories.
pub proof fn lemma_pools_steps(v: PoolsView, b: nat, k: nat)
    requires
        pools_wf(v),
        pools_bounded(v, b),
    ensures
        pools_wf(pools_steps(v, k)),
        pools_bounded(pools_steps(v, k), b),
        keys_of(pools_steps(v, k)) == keys_of(v),
    decreases k,
{
    if k > 0 {
        lemma_pools_steps(v, b, (k - 1) as nat);
        lemma_pools_step(pools_steps(v, (k - 1) as nat), b);
    }
}

/// The pool of every category.
pub struct FlowStates(pub StrMap<FlowState>);

impl FlowStates {
    /// The pools, as views.
    pub open spec fn pools(&self) -> PoolsView {
        self.0@.map_values(|e: (Seq<char>, FlowState)| (e.0, e.1@))
    }

    /// Empty pools for the categories of `tags`.
    pub fn new(tags: &Tags) -> (r: Self)
        ensures
            r.pools() == empty_pools(keys_of(tags.0@)),
            keys_of(r.0@) == keys_of(tags.0@),
    {
        let n = tags.0.len();
        let mut empty: Vec<FlowState> = Vec::new();
        let mut i: usize = 0;
        while i < n
            invariant
                i <= n == tags.0@.len(),
                empty@.len() == i,
                forall|j: int| 0 <= j < i ==> (#[trigger] empty@[j])@ == (0nat, 0nat),
            decreases n - i,
        {
            empty.push(FlowState::new());
            i = i + 1;
        }
        let r = FlowStates(tags.0.with_values(&empty));
        assert(r.pools() =~= empty_pools(keys_of(tags.0@))) by {
            assert forall|j: int| 0 <= j < r.0@.len() implies r.0@[j].0 == keys_of(r.0@)[j] && r.0@[j].1
                == values_of(r.0@)[j] by {}
        }
        r
    }

    /// Advances every pool by one day.
    pub fn step(&mut self)
        requires
            pools_wf(old(self).pools()),
        ensures
            final(self).pools() == pools_step(old(self).pools()),
            keys_of(final(self).0@) == keys_of(old(self).0@),
    {
        let n = self.0.len();
        let ghost v = self.pools();
        let mut i: usize = 0;
        while i < n
            invariant
                i <= n == self.0@.len() == v.len(),
                pools_wf(v),
                forall|j: int| 0 <= j < i ==> #[trigger] self.pools()[j] == pools_step(v)[j],
                forall|j: int| i <= j < n ==> #[trigger] self.pools()[j] == v[j],
                keys_of(self.0@) == keys_of(old(self).0@),
            decreases n - i,
        {
            let mut pool = *self.0.value_at(i);
            proof {
                assert(self.pools()[i as int] == v[i as int]);
                assert(pool@ == v[i as int].1);
            }
            let ghost before = self.pools();
            pool.step();
            self.0.set_value_at(i, pool);
            proof {
                assert forall|j: int| 0 <= j < n implies #[trigger] self.pools()[j] == (if j == i {
                    pools_step(v)[j]
                } else {
                    before[j]
                }) by {}
            }
            i = i + 1;
        }
        assert(self.pools() =~= pools_step(v));
    }

    /// Puts `account`'s share of `purchase` in the pool of its category, to
    /// be absorbed over the category's duration.
    pub fn add(&mut self, purchase: &Purchase, account: &AccountRef, tags: &Tags)
        requires
            old(self).0.wf(),
            pools_wf(old(self).pools()),
            keys_of(old(self).0@) == keys_of(tags.0@),
            tags.0.wf(),
            tags.map().contains_key(purchase.tag@),
            purchase.splittable(),
            purchase.share(account@) != 0 ==> tags.map()[purchase.tag@].0 > 0,
            forall|i: int|
                0 <= i < old(self).pools().len() && (#[trigger] old(self).pools()[i]).0 == purchase.tag@
                    ==> old(self).pools()[i].1.0 + purchase.share(account@) <= u64::MAX,
        ensures
            final(self).0.wf(),
            final(self).pools() == pools_add(
                old(self).pools(),
                purchase.tag@,
                purchase.share(account@),
                tags.map()[purchase.tag@].0,
            ),
            keys_of(final(self).0@) == keys_of(old(self).0@),
    {
        let ghost v = self.pools();
        let tag = &purchase.tag;
        let dur = match tags.0.get(tag) {
            Some(data) => data.dur(),
            None => 0,
        };
        let amount = purchase.internal_delta(account).abs();
        match self.0.find(tag) {
            Some(i) => {
                let mut pool = *self.0.value_at(i);
                proof {
                    assert(v[i as int].0 == purchase.tag@);
                }
                pool.add(amount, dur);
                self.0.set_value_at(i, pool);
                proof {
                    assert forall|j: int| 0 <= j < v.len() implies #[trigger] self.pools()[j] == pools_add(
                        v,
                        purchase.tag@,
                        purchase.share(account@),
                        tags.map()[purchase.tag@].0,
                    )[j] by {
                        if j != i {
                            let ks = keys_of(old(self).0@);
                            lemma_str_lt_irreflexive(ks[j]);
                            assert(ks[i as int] == purchase.tag@);
                        }
                    }
                    assert(self.pools() =~= pools_add(
                        v,
                        purchase.tag@,
                        purchase.share(account@),
                        tags.map()[purchase.tag@].0,
                    ));
                }
            },
            None => {
                proof {
                    let j = keys_of(tags.0@).index_of(purchase.tag@);
                    assert(keys_of(self.0@)[j] == purchase.tag@);
                }
            },
        }
    }
}

/// The day of a snapshot and its pools.
pub type SnapshotView = (int, PoolsView);

/// A snapshot moved forward to day `d` (unchanged if already there).
pub open spec fn snapshot_forward(s: SnapshotView, d: int) -> SnapshotView {
    if d > s.0 {
        (d, pools_steps(s.1, (d - s.0) as nat))
    } else {
        s
    }
}

/// A snapshot with `account`'s share of `p` put in the pool of its category,
/// once moved forward to the day of `p`.
pub open spec fn snapshot_add(
    s: SnapshotView,
    p: Purchase,
    account: Seq<char>,
    tags: Map<Seq<char>, TagView>,
) -> SnapshotView {
    let f = snapshot_forward(s, p.date@);
    (f.0, pools_add(f.1, p.tag@, p.share(account), tags[p.tag@].0))
}

/// The pools of every category as of a day.
pub struct FlowStatesSnapshot {
    date: Date,
    state: FlowStates,
}

impl View for FlowStatesSnapshot {
    type V = SnapshotView;

    closed spec fn view(&self) -> SnapshotView {
        (self.date@, self.state.pools())
    }
}

impl FlowStatesSnapshot {
    /// The snapshot's pools are in category order, each well formed.
    pub closed spec fn wf(&self) -> bool {
        self.state.0.wf() && pools_wf(self.state.pools())
    }

    /// The categories of the snapshot, in order.
    pub closed spec fn categories(&self) -> Seq<Seq<char>> {
        keys_of(self.state.0@)
    }

    /// Empty pools for the categories of `tags`, as of `date`.
    pub fn new(date: Date, tags: &Tags) -> (r: Self)
        requires
            tags.0.wf(),
        ensures
            r@ == (date@, empty_pools(keys_of(tags.0@))),
            r.wf(),
            r.categories() == keys_of(tags.0@),
    {
        let state = FlowStates::new(tags);
        proof {
            assert forall|j: int| 0 <= j < state.pools().len() implies pool_wf(#[trigger] state.pools()[j].1) by {
                assert(state.pools()[j] == empty_pools(keys_of(tags.0@))[j]);
            }
        }
        FlowStatesSnapshot { date, state }
    }

    pub fn date(&self) -> (r: &Date)
        ensures
            r@ == self@.0,
    {
        &self.date
    }

    pub fn state(&self) -> (r: &FlowStates)
        ensures
            r.pools() == self@.1,
    {
        &self.state
    }

    /// Moves one day forward.
    pub fn step(&mut self)
        requires
            old(self).wf(),
            old(self)@.0 < MAX_DAY,
        ensures
            final(self)@ == (old(self)@.0 + 1, pools_step(old(self)@.1)),
            final(self).wf(),
            final(self).categories() == old(self).categories(),
    {
        self.state.step();
        self.date.incr();
        proof {
            let v = old(self)@.1;
            assert forall|i: int| 0 <= i < v.len() implies (#[trigger] v[i].1).0 <= u64::MAX by {
                old(self).state.0@[i].1.lemma_bound();
            }
            lemma_pools_step(v, u64::MAX as nat);
        }
    }

    /// Moves forward, a day at a time, to `date`.
    pub fn forward(&mut self, date: &Date)
        requires
            old(self).wf(),
            date@ >= old(self)@.0,
        ensures
            final(self)@ == snapshot_forward(old(self)@, date@),
            final(self).wf(),
            final(self).categories() == old(self).categories(),
    {
        let target = date.days();
        let ghost d0 = self@.0;
        let ghost v0 = self@.1;
        while self.date.days() < target
            invariant
                self.wf(),
                self.categories() == old(self).categories(),
                d0 <= self@.0 <= target,
                target == date@,
                target <= MAX_DAY,
                self@.1 == pools_steps(v0, (self@.0 - d0) as nat),
            decreases target - self@.0,
        {
            self.step();
            proof {
                assert(pools_steps(v0, (self@.0 - d0) as nat) == pools_step(pools_steps(v0, (self@.0 - d0 - 1) as nat)));
            }
        }
    }

    /// Moves forward to the day of `purchase`, then puts `account`'s share of
    /// it in the pool of its category.
    pub fn add(&mut self, purchase: &Purchase, account: &AccountRef, tags: &Tags)
        requires
            old(self).wf(),
            old(self).categories() == keys_of(tags.0@),
            tags.0.wf(),
            purchase.date@ >= old(self)@.0,
            tags.map().contains_key(purchase.tag@),
            purchase.splittable(),
            purchase.share(account@) != 0 ==> tags.map()[purchase.tag@].0 > 0,
            forall|i: int|
                0 <= i < old(self)@.1.len() && (#[trigger] snapshot_forward(old(self)@, purchase.date@).1[i]).0
                    == purchase.tag@ ==> snapshot_forward(old(self)@, purchase.date@).1[i].1.0
                    + purchase.share(account@) <= u64::MAX,
        ensures
            final(self)@ == snapshot_add(old(self)@, *purchase, account@, tags.map()),
            final(self).wf(),
            final(self).categories() == old(self).categories(),
    {
        self.forward(&purchase.date);
        proof {
            assert(self@.1.len() == old(self)@.1.len());
        }
        self.state.add(purchase, account, tags);
        proof {
            let v = self.state.pools();
            assert forall|i: int| 0 <= i < v.len() implies pool_wf(#[trigger] v[i].1) by {}
        }
    }
}

/// The transaction is a purchase that can be split and whose category is
/// known, with a positive duration where `account` has a share.
pub open spec fn replayable(t: Transaction, account: Seq<char>, tags: Map<Seq<char>, TagView>) -> bool {
    let p = t.purchase();
    &&& p.splittable()
    &&& tags.contains_key(p.tag@)
    &&& p.share(account) != 0 ==> tags[p.tag@].0 > 0
}

/// The total amount of the transactions.
pub open spec fn ledger_total(txs: Seq<Transaction>) -> nat
    decreases txs.len(),
{
    if txs.len() == 0 {
        0
    } else {
        ledger_total(txs.drop_last()) + txs.last().purchase().amount@
    }
}

/// Whether a transaction of day `day` is counted as of day `d`: strictly
/// before it, or also on it (`upto`).
pub open spec fn counted(day: int, d: int, upto: bool) -> bool {
    if upto {
        day <= d
    } else {
        day < d
    }
}

/// From position `i`, the position of the first transaction not counted as
/// of day `d`.
pub open spec fn counted_len(txs: Seq<Transaction>, d: int, upto: bool, i: nat) -> nat
    decreases txs.len() - i,
{
    if i >= txs.len() {
        txs.len()
    } else if counted(tx_day(txs[i as int]), d, upto) {
        counted_len(txs, d, upto, i + 1)
    } else {
        i
    }
}

/// The snapshot `s` with `account`'s share of each of the first `k`
/// transactions put in, in order.
pub open spec fn replay(
    s: SnapshotView,
    txs: Seq<Transaction>,
    account: Seq<char>,
    tags: Map<Seq<char>, TagView>,
    k: nat,
) -> SnapshotView
    decreases k,
{
    if k == 0 || k > txs.len() {
        s
    } else {
        snapshot_add(replay(s, txs, account, tags, (k - 1) as nat), txs[k - 1].purchase(), account, tags)
    }
}

/// The pools of `account` as of day `d`: empty pools from the first day of
/// the ledger (or from `d` for an empty ledger), each transaction counted as
/// of `d` put in on its day, then moved forward to `d`.
pub open spec fn ledger_snapshot(
    txs: Seq<Transaction>,
    d: int,
    upto: bool,
    account: Seq<char>,
    categories: Seq<Seq<char>>,
    tags: Map<Seq<char>, TagView>,
) -> SnapshotView {
    let start = if txs.len() > 0 {
        tx_day(txs[0])
    } else {
        d
    };
    snapshot_forward(
        replay((start, empty_pools(categories)), txs, account, tags, counted_len(txs, d, upto, 0)),
        d,
    )
}

proof fn lemma_ledger_total_take(txs: Seq<Transaction>, i: int)
    requires
        0 <= i < txs.len(),
    ensures
        ledger_total(txs.take(i + 1)) == ledger_total(txs.take(i)) + txs[i].purchase().amount@,
        ledger_total(txs.take(i + 1)) <= ledger_total(txs),
{
    assert(txs.take(i + 1).drop_last() =~= txs.take(i));
    lemma_ledger_total_le(txs, i + 1);
}

/// The transactions counted as of day `d` (see `counted`), from the start of
/// the ledger.
pub open spec fn counted_prefix(txs: Seq<Transaction>, d: int, upto: bool) -> Seq<Transaction> {
    txs.take(counted_len(txs, d, upto, 0) as int)
}

/// The transactions counted as of day `d` can be replayed for `account`, and
/// their total fits a `u64`.
pub open spec fn replay_ready(
    txs: Seq<Transaction>,
    d: int,
    upto: bool,
    account: Seq<char>,
    tags: Map<Seq<char>, TagView>,
) -> bool {
    &&& forall|i: int| 0 <= i < counted_len(txs, d, upto, 0) ==> replayable(#[trigger] txs[i], account, tags)
    &&& ledger_total(counted_prefix(txs, d, upto)) <= u64::MAX
}

proof fn lemma_prefix_total(txs: Seq<Transaction>, i: int, k: int)
    requires
        0 <= i <= k <= txs.len(),
    ensures
        ledger_total(txs.take(i)) <= ledger_total(txs.take(k)),
{
    lemma_ledger_total_le(txs.take(k), i);
    assert(txs.take(k).take(i) =~= txs.take(i));
}

proof fn lemma_ledger_total_le(txs: Seq<Transaction>, i: int)
    requires
        0 <= i <= txs.len(),
    ensures
        ledger_total(txs.take(i)) <= ledger_total(txs),
    decreases txs.len(),
{
    if i < txs.len() {
        assert(txs.drop_last().take(i) =~= txs.take(i));
        lemma_ledger_total_le(txs.drop_last(), i);
    } else {
        assert(txs.take(i) =~= txs);
    }
}

impl Transactions {
    /// Empty pools for the categories of `tags`, as of the day of the first
    /// transaction, or of today for an empty ledger.
    pub fn initial_snapshot(&self, tags: &Tags) -> (r: FlowStatesSnapshot)
        requires
            tags.0.wf(),
        ensures
            r.wf(),
            r.categories() == keys_of(tags.0@),
            r@.1 == empty_pools(keys_of(tags.0@)),
            self@.len() > 0 ==> r@.0 == tx_day(self@[0]),
    {
        let txs = self.vec();
        if txs.len() > 0 {
            FlowStatesSnapshot::new(*txs[0].date(), tags)
        } else {
            FlowStatesSnapshot::new(Date::today(), tags)
        }
    }

    fn replay_until(&self, date: &Date, upto: bool, account: &AccountRef, tags: &Tags) -> (r: FlowStatesSnapshot)
        requires
            self.wf(),
            tags.0.wf(),
            self@.len() > 0 ==> tx_day(self@[0]) <= date@,
            replay_ready(self@, date@, upto, account@, tags.map()),
        ensures
            r@ == ledger_snapshot(self@, date@, upto, account@, keys_of(tags.0@), tags.map()),
            r.wf(),
            r.categories() == keys_of(tags.0@),
            pools_wf(r@.1),
            pools_bounded(r@.1, ledger_total(counted_prefix(self@, date@, upto))),
    {
        let ghost txs = self@;
        let ghost tm = tags.map();
        let ghost d = date@;
        let ghost k = counted_len(self@, d, upto, 0);
        proof {
            lemma_counted_len_props(self@, d, upto, 0);
        }
        let txv = self.vec();
        let mut ret = if txv.len() == 0 {
            FlowStatesSnapshot::new(*date, tags)
        } else {
            self.initial_snapshot(tags)
        };
        let ghost init = ret@;
        let target = date.days();
        let mut i: usize = 0;
        while i < txv.len()
            invariant_except_break
                counted_len(txs, d, upto, 0) == counted_len(txs, d, upto, i as nat),
            invariant
                txv@ == txs,
                txs == self@,
                sorted_by_day(txs),
                tm == tags.map(),
                tags.0.wf(),
                target == d,
                txs.len() > 0 ==> tx_day(txs[0]) <= d,
                k == counted_len(txs, d, upto, 0),
                k <= txs.len(),
                forall|j: int| 0 <= j < k ==> replayable(#[trigger] txs[j], account@, tm),
                ledger_total(txs.take(k as int)) <= u64::MAX,
                i <= k,
                i <= txs.len(),
                init == (if txs.len() > 0 { tx_day(txs[0]) } else { d }, empty_pools(keys_of(tags.0@))),
                ret.wf(),
                ret.categories() == keys_of(tags.0@),
                ret@ == replay(init, txs, account@, tm, i as nat),
                ret@.1.len() == tags.0@.len(),
                pools_bounded(ret@.1, ledger_total(txs.take(i as int))),
                ledger_total(txs.take(i as int)) <= ledger_total(txs.take(k as int)),
                i == 0 ==> ret@.0 == init.0,
                i > 0 ==> ret@.0 == tx_day(txs[i - 1]),
                ret@.0 <= d,
            ensures
                ret@ == replay(init, txs, account@, tm, counted_len(txs, d, upto, 0)),
                pools_bounded(ret@.1, ledger_total(txs.take(k as int))),
                ret.wf(),
                ret.categories() == keys_of(tags.0@),
                ret@.0 <= d,
            decreases txs.len() - i,
        {
            let day = txv[i].date().days();
            if (upto && day > target) || (!upto && day >= target) {
                break;
            }
            proof {
                lemma_counted_len_props(txs, d, upto, (i + 1) as nat);
                assert(counted_len(txs, d, upto, i as nat) == counted_len(txs, d, upto, (i + 1) as nat));
                lemma_prefix_total(txs, i + 1, k as int);
                let t = txs[i as int];
                let p = t.purchase();
                let b = ledger_total(txs.take(i as int));
                lemma_ledger_total_take(txs, i as int);
                p.lemma_share_le(account@);
                if i > 0 {
                    assert(tx_day(txs[i - 1]) <= tx_day(txs[i as int]));
                } else {
                    assert(txs.len() > 0);
                }
                let f = snapshot_forward(ret@, p.date@);
                lemma_pools_steps(ret@.1, b, (p.date@ - ret@.0) as nat);
                assert(pools_bounded(f.1, b));
                assert(keys_of(f.1).len() == f.1.len());
                assert(keys_of(ret@.1).len() == ret@.1.len());
                assert(f.1.len() == ret@.1.len());
                assert(b + p.amount@ <= u64::MAX);
                assert forall|j: int| 0 <= j < ret@.1.len() implies (#[trigger] f.1[j]).1.0 + p.share(account@) <= u64::MAX by {
                    assert(f.1[j].1.0 <= b);
                }
            }
            match &txv[i] {
                Transaction::Purchase(purchase) => {
                    ret.add(purchase, account, tags);
                },
            }
            proof {
                let p = txs[i as int].purchase();
                let b = ledger_total(txs.take(i as int));
                let nb = ledger_total(txs.take(i + 1));
                let f = snapshot_forward(replay(init, txs, account@, tm, i as nat), p.date@);
                assert(ret@.1 == pools_add(f.1, p.tag@, p.share(account@), tm[p.tag@].0));
                assert forall|j: int| 0 <= j < ret@.1.len() implies (#[trigger] ret@.1[j]).1.0 <= nb by {
                    assert(f.1[j].1.0 <= b);
                }
            }
            i = i + 1;
        }
        proof {
            lemma_pools_steps(ret@.1, ledger_total(txs.take(k as int)), (d - ret@.0) as nat);
        }
        ret.forward(date);
        ret
    }

    /// The pools of `account` as of `date`, counting the transactions of days
    /// before `date`.
    pub fn snapshot_before(&self, date: &Date, account: &AccountRef, tags: &Tags) -> (r: FlowStatesSnapshot)
        requires
            self.wf(),
            tags.0.wf(),
            self@.len() > 0 ==> tx_day(self@[0]) <= date@,
            replay_ready(self@, date@, false, account@, tags.map()),
        ensures
            r@ == ledger_snapshot(self@, date@, false, account@, keys_of(tags.0@), tags.map()),
            pools_wf(r@.1),
            pools_bounded(r@.1, ledger_total(counted_prefix(self@, date@, false))),
            keys_of(r@.1) == keys_of(tags.0@),
    {
        self.replay_until(date, false, account, tags)
    }

    /// The pools of `account` as of `date`, counting the transactions of
    /// `date` and before.
    pub fn snapshot_after(&self, date: &Date, account: &AccountRef, tags: &Tags) -> (r: FlowStatesSnapshot)
        requires
            self.wf(),
            tags.0.wf(),
            self@.len() > 0 ==> tx_day(self@[0]) <= date@,
            replay_ready(self@, date@, true, account@, tags.map()),
        ensures
            r@ == ledger_snapshot(self@, date@, true, account@, keys_of(tags.0@), tags.map()),
            pools_wf(r@.1),
            pools_bounded(r@.1, ledger_total(counted_prefix(self@, date@, true))),
            keys_of(r@.1) == keys_of(tags.0@),
    {
        self.replay_until(date, true, account, tags)
    }
}

/// The pool of category `tag` in a snapshot.
pub open spec fn tag_pool(s: SnapshotView, tag: Seq<char>) -> PoolView {
    s.1[keys_of(s.1).index_of(tag)].1
}

proof fn lemma_counted_len_props(txs: Seq<Transaction>, d: int, upto: bool, i: nat)
    requires
        i <= txs.len(),
    ensures
        i <= counted_len(txs, d, upto, i) <= txs.len(),
        forall|j: int| i <= j < counted_len(txs, d, upto, i) ==> counted(tx_day(#[trigger] txs[j]), d, upto),
        counted_len(txs, d, upto, i) < txs.len() ==> !counted(
            tx_day(txs[counted_len(txs, d, upto, i) as int]),
            d,
            upto,
        ),
    decreases txs.len() - i,
{
    if i < txs.len() && counted(tx_day(txs[i as int]), d, upto) {
        lemma_counted_len_props(txs, d, upto, (i + 1) as nat);
    }
}

proof fn lemma_steps_keys(v: PoolsView, k: nat)
    ensures
        keys_of(pools_steps(v, k)) == keys_of(v),
    decreases k,
{
    if k > 0 {
        lemma_steps_keys(v, (k - 1) as nat);
        assert(keys_of(pools_step(pools_steps(v, (k - 1) as nat))) =~= keys_of(pools_steps(v, (k - 1) as nat)));
    }
}

proof fn lemma_replay_shape(
    init: SnapshotView,
    txs: Seq<Transaction>,
    account: Seq<char>,
    tags: Map<Seq<char>, TagView>,
    k: nat,
)
    requires
        sorted_by_day(txs),
        k <= txs.len(),
        txs.len() > 0 ==> init.0 <= tx_day(txs[0]),
    ensures
        k > 0 ==> replay(init, txs, account, tags, k).0 == tx_day(txs[k - 1]),
        k == 0 ==> replay(init, txs, account, tags, k).0 == init.0,
        keys_of(replay(init, txs, account, tags, k).1) == keys_of(init.1),
    decreases k,
{
    if k > 0 {
        lemma_replay_shape(init, txs, account, tags, (k - 1) as nat);
        let prev = replay(init, txs, account, tags, (k - 1) as nat);
        let p = txs[k - 1].purchase();
        if k > 1 {
            assert(tx_day(txs[k - 2]) <= tx_day(txs[k - 1]));
        }
        let f = snapshot_forward(prev, p.date@);
        lemma_steps_keys(prev.1, (p.date@ - prev.0) as nat);
        assert(keys_of(pools_add(f.1, p.tag@, p.share(account), tags[p.tag@].0)) =~= keys_of(f.1));
    }
}

/// Replaying transactions of day `d` onto a snapshot moved forward to `d`
/// only adds to the pool of each category: at least the share of each such
/// transaction of that category.
proof fn lemma_same_day_growth(
    init: SnapshotView,
    txs: Seq<Transaction>,
    account: Seq<char>,
    tags: Map<Seq<char>, TagView>,
    d: int,
    kb: nat,
    k: nat,
    idx: int,
)
    requires
        sorted_by_day(txs),
        kb <= k <= txs.len(),
        txs.len() > 0 ==> init.0 <= tx_day(txs[0]),
        init.0 <= d,
        forall|j: int| 0 <= j < kb ==> tx_day(#[trigger] txs[j]) <= d,
        forall|j: int| kb <= j < k ==> tx_day(#[trigger] txs[j]) == d,
        0 <= idx < init.1.len(),
    ensures
        snapshot_forward(replay(init, txs, account, tags, k), d).1[idx].1.0 >= snapshot_forward(
            replay(init, txs, account, tags, kb),
            d,
        ).1[idx].1.0,
        forall|m: int|
            kb <= m < k && (#[trigger] txs[m]).purchase().tag@ == keys_of(init.1)[idx] ==> snapshot_forward(
                replay(init, txs, account, tags, k),
                d,
            ).1[idx].1.0 >= snapshot_forward(replay(init, txs, account, tags, kb), d).1[idx].1.0
                + txs[m].purchase().share(account),
    decreases k,
{
    if k > kb {
        lemma_same_day_growth(init, txs, account, tags, d, kb, (k - 1) as nat, idx);
        lemma_replay_shape(init, txs, account, tags, (k - 1) as nat);
        let prev = replay(init, txs, account, tags, (k - 1) as nat);
        let p = txs[k - 1].purchase();
        let f = snapshot_forward(prev, d);
        lemma_steps_keys(prev.1, (d - prev.0) as nat);
        assert(prev.0 <= d) by {
            if k - 1 > 0 {
                assert(tx_day(txs[k - 2]) <= d);
            }
        }
        assert(keys_of(f.1).len() == f.1.len());
        assert(keys_of(init.1).len() == init.1.len());
        assert(keys_of(f.1)[idx] == keys_of(init.1)[idx]);
        assert(f.1[idx].0 == keys_of(init.1)[idx]);
        let cur = replay(init, txs, account, tags, k);
        assert(p.date@ == d);
        assert(cur == (f.0, pools_add(f.1, p.tag@, p.share(account), tags[p.tag@].0)));
        assert(f.0 == d);
        assert(snapshot_forward(cur, d) == cur);
        let x = f.1[idx].1;
        assert(pool_add(x, p.share(account), tags[p.tag@].0).0 == x.0 + p.share(account));
        assert(cur.1[idx].1.0 == x.0 + (if f.1[idx].0 == p.tag@ {
            p.share(account)
        } else {
            0
        }));
    }
}

impl Purchase {
    /// The part of the daily flow of the purchase's category that is due to
    /// `account`'s share of it: the pool of the category as of the
    /// purchase's day with the transactions of that day (`with`) and without
    /// them (`without`), the flow of `with` taken in proportion to the share
    /// out of the growth from `without` to `with`, rounded toward zero.
    pub fn internal_flow(&self, account: &AccountRef, tags: &Tags, transactions: &Transactions) -> (r: SignedFlow)
        requires
            transactions.wf(),
            tags.0.wf(),
            transactions@.contains(Transaction::Purchase(*self)),
            forall|i: int|
                0 <= i < counted_len(transactions@, self.date@, true, 0) ==> replayable(
                    #[trigger] transactions@[i],
                    account@,
                    tags.map(),
                ),
            ledger_total(counted_prefix(transactions@, self.date@, true)) <= i64::MAX,
        ensures
            ({
                let without = tag_pool(
                    ledger_snapshot(transactions@, self.date@, false, account@, keys_of(tags.0@), tags.map()),
                    self.tag@,
                );
                let with = tag_pool(
                    ledger_snapshot(transactions@, self.date@, true, account@, keys_of(tags.0@), tags.map()),
                    self.tag@,
                );
                r.0@ == approx_signed_flow(-self.share(account@), pool_flow(with), (with.0 - without.0) as nat)
            }),
    {
        let ghost txs = transactions@;
        let ghost d = self.date@;
        let ghost m = txs.index_of(Transaction::Purchase(*self));
        let ghost kb = counted_len(txs, d, false, 0);
        let ghost ka = counted_len(txs, d, true, 0);
        proof {
            assert(txs[m] == Transaction::Purchase(*self));
            if txs.len() > 0 {
                assert(tx_day(txs[0]) <= tx_day(txs[m]));
            }
            lemma_counted_len_props(txs, d, false, 0);
            lemma_counted_len_props(txs, d, true, 0);
            assert(kb <= ka) by {
                if ka < kb {
                    assert(counted(tx_day(txs[ka as int]), d, false));
                }
            }
            assert(kb <= m < ka) by {
                if m < kb {
                    assert(counted(tx_day(txs[m]), d, false));
                }
                if m >= ka {
                    assert(tx_day(txs[ka as int]) <= tx_day(txs[m]));
                }
            }
            assert(replayable(txs[m], account@, tags.map()));
            lemma_prefix_total(txs, kb as int, ka as int);
        }
        let before = transactions.snapshot_before(&self.date, account, tags);
        let after = transactions.snapshot_after(&self.date, account, tags);
        let delta = self.internal_delta(account);
        let before_states = before.state();
        let after_states = after.state();
        proof {
            assert(keys_of(before_states.0@) =~= keys_of(before_states.pools()));
            assert(keys_of(after_states.0@) =~= keys_of(after_states.pools()));
        }
        match before_states.0.find(&self.tag) {
            Some(i) => {
                let without = before_states.0.value_at(i);
                let with = after_states.0.value_at(i);
                proof {
                    let ks = keys_of(tags.0@);
                    let tm = tags.map();
                    assert(ks[i as int] == keys_of(before@.1)[i as int]);
                    lemma_entry_lookup(tags.0@, i as int);
                    assert(ks.index_of(self.tag@) == i);
                    assert(before@.1[i as int] == before_states.pools()[i as int]);
                    assert(before@.1[i as int].1 == without@);
                    assert(after@.1[i as int].1 == with@);
                    assert(keys_of(before@.1) == ks);
                    assert(keys_of(after@.1) == ks);
                    assert(tag_pool(before@, self.tag@) == without@);
                    assert(tag_pool(after@, self.tag@) == with@);
                    assert forall|j: int| kb <= j < ka implies tx_day(#[trigger] txs[j]) == d by {
                        if kb < txs.len() {
                            assert(tx_day(txs[kb as int]) <= tx_day(txs[j]));
                        }
                    }
                    let start = if txs.len() > 0 {
                        tx_day(txs[0])
                    } else {
                        d
                    };
                    let init = (start, empty_pools(ks));
                    assert(keys_of(init.1) =~= ks);
                    lemma_same_day_growth(init, txs, account@, tm, d, kb, ka, i as int);
                    assert(txs[m].purchase() == *self);
                    let span = (with@.0 - without@.0) as nat;
                    let share = self.share(account@);
                    assert(with@.0 >= without@.0 + share);
                    with.lemma_bound();
                    let rate = pool_flow(with@);
                    assert(rate <= with@.0) by {
                        crate::flow::lemma_step_wf(with@);
                    }
                    assert(with@.0 <= ledger_total(counted_prefix(txs, d, true)));
                    if share != 0 {
                        assert(share * rate / span <= rate) by (nonlinear_arith)
                            requires share <= span, span > 0;
                    }
                }
                SignedFlow::approx(delta, without, with)
            },
            None => {
                proof {
                    let ks = keys_of(tags.0@);
                    assert(replayable(txs[m], account@, tags.map()));
                    assert(tags.map().contains_key(self.tag@));
                    assert(ks.contains(self.tag@));
                    let j = ks.index_of(self.tag@);
                    assert(keys_of(before_states.0@)[j] == self.tag@);
                    assert(keys_of(before_states.0@).contains(self.tag@));
                }
                SignedFlow(delta)
            },
        }
    }
}

impl Transaction {
    /// The part of the daily flow of the transaction's category that is due
    /// to `account` (see `Purchase::internal_flow`).
    pub fn internal_flow(&self, account: &AccountRef, tags: &Tags, transactions: &Transactions) -> (r: SignedFlow)
        requires
            transactions.wf(),
            tags.0.wf(),
            transactions@.contains(*self),
            forall|i: int|
                0 <= i < counted_len(transactions@, self.purchase().date@, true, 0) ==> replayable(
                    #[trigger] transactions@[i],
                    account@,
                    tags.map(),
                ),
            ledger_total(counted_prefix(transactions@, self.purchase().date@, true)) <= i64::MAX,
        ensures
            ({
                let p = self.purchase();
                let without = tag_pool(
                    ledger_snapshot(transactions@, p.date@, false, account@, keys_of(tags.0@), tags.map()),
                    p.tag@,
                );
                let with = tag_pool(
                    ledger_snapshot(transactions@, p.date@, true, account@, keys_of(tags.0@), tags.map()),
                    p.tag@,
                );
                r.0@ == approx_signed_flow(-p.share(account@), pool_flow(with), (with.0 - without.0) as nat)
            }),
    {
        match self {
            Transaction::Purchase(purchase) => purchase.internal_flow(account, tags, transactions),
        }
    }
}

/// For a purchase that is the first transaction of the ledger, the pools
/// without the transactions of its day are the empty pools, as of its day,
/// and `Transactions::snapshot_before` asks nothing of the transactions.
pub proof fn lemma_first_purchase_before(
    txs: Seq<Transaction>,
    account: Seq<char>,
    categories: Seq<Seq<char>>,
    tags: Map<Seq<char>, TagView>,
)
    requires
        txs.len() > 0,
        sorted_by_day(txs),
    ensures
        ledger_snapshot(txs, tx_day(txs[0]), false, account, categories, tags) == (
            tx_day(txs[0]),
            empty_pools(categories),
        ),
        replay_ready(txs, tx_day(txs[0]), false, account, tags),
{
    let d = tx_day(txs[0]);
    assert(counted_len(txs, d, false, 0) == 0);
    assert(counted_prefix(txs, d, false) =~= Seq::<Transaction>::empty());
}

/// In a ledger holding one purchase, of a known category with a positive
/// duration, `Purchase::internal_flow` asks nothing more than that the
/// purchase can be split, though the pool without it is empty, and gives
/// minus `account`'s share spread over the duration, rounded toward zero.
pub proof fn lemma_first_purchase_flow(
    p: Purchase,
    account: Seq<char>,
    categories: Seq<Seq<char>>,
    tags: Map<Seq<char>, TagView>,
)
    requires
        p.splittable(),
        categories.contains(p.tag@),
        tags.contains_key(p.tag@),
        tags[p.tag@].0 > 0,
    ensures
        ({
            let txs = seq![Transaction::Purchase(p)];
            let d = p.date@;
            let without = tag_pool(ledger_snapshot(txs, d, false, account, categories, tags), p.tag@);
            let with = tag_pool(ledger_snapshot(txs, d, true, account, categories, tags), p.tag@);
            &&& sorted_by_day(txs)
            &&& txs.contains(Transaction::Purchase(p))
            &&& forall|i: int| 0 <= i < counted_len(txs, d, true, 0) ==> replayable(#[trigger] txs[i], account, tags)
            &&& ledger_total(counted_prefix(txs, d, true)) <= i64::MAX
            &&& without == (0nat, 0nat)
            &&& approx_signed_flow(-p.share(account), pool_flow(with), (with.0 - without.0) as nat) == -((
                p.share(account) / tags[p.tag@].0) as int)
        }),
{
    let t = Transaction::Purchase(p);
    let txs = seq![t];
    let d = p.date@;
    let dur = tags[p.tag@].0;
    let share = p.share(account);
    assert(txs[0] == t);
    assert(txs.contains(t));
    assert(counted_len(txs, d, false, 0) == 0);
    assert(counted_len(txs, d, true, 1) == 1);
    assert(counted_len(txs, d, true, 0) == 1);
    assert(counted_prefix(txs, d, true) =~= txs);
    assert(txs.drop_last() =~= Seq::<Transaction>::empty());
    assert(ledger_total(Seq::<Transaction>::empty()) == 0);
    assert(txs.last().purchase() == p);
    assert(ledger_total(txs) == p.amount@);
    let empty = empty_pools(categories);
    assert(keys_of(empty) =~= categories);
    let idx = categories.index_of(p.tag@);
    assert(categories[idx] == p.tag@);
    let init = (d, empty);
    assert(tag_pool(init, p.tag@) == (0nat, 0nat));
    assert(replay(init, txs, account, tags, 0) == init);
    assert(txs[0].purchase() == p);
    assert(replay(init, txs, account, tags, 1) == snapshot_add(init, p, account, tags));
    let added = pools_add(empty, p.tag@, share, dur);
    assert(keys_of(added) =~= categories);
    assert(snapshot_add(init, p, account, tags) == (d, added));
    let with = tag_pool((d, added), p.tag@);
    assert(with == pool_add((0nat, 0nat), share, dur));
    if share != 0 {
        assert(pool_flow(with) == share / dur);
        vstd::arithmetic::div_mod::lemma_div_multiples_vanish((share / dur) as int, share as int);
        assert(share * (share / dur) == share * (share / dur));
    }
}

impl Transactions {
    /// Whether the flows of `account` can be worked out over the ledger with
    /// the categories `tags` (see `Purchase::internal_flow`): the ledger is in
    /// order, each transaction can be replayed, and the total fits a signed
    /// amount.
    pub fn flow_ready(&self, account: &AccountRef, tags: &Tags) -> (r: bool)
        ensures
            r == (self.wf() && tags.0.wf() && (forall|i: int|
                0 <= i < self@.len() ==> replayable(#[trigger] self@[i], account@, tags.map()))
                && ledger_total(self@) <= i64::MAX),
    {
        if !self.check_sorted() || !tags.0.check_wf() {
            return false;
        }
        let txs = self.vec();
        let mut total: u64 = 0;
        let mut i: usize = 0;
        while i < txs.len()
            invariant
                i <= txs@.len(),
                txs@ == self@,
                tags.0.wf(),
                forall|j: int| 0 <= j < i ==> replayable(#[trigger] self@[j], account@, tags.map()),
                total == ledger_total(self@.take(i as int)),
                total <= i64::MAX,
            decreases txs@.len() - i,
        {
            let p = match &txs[i] {
                Transaction::Purchase(p) => p,
            };
            proof {
                lemma_ledger_total_take(self@, i as int);
                assert(txs@[i as int].purchase() == *p);
            }
            if !p.check_splittable() {
                return false;
            }
            let dur = match tags.0.get(&p.tag) {
                Some(data) => data.dur(),
                None => {
                    return false;
                },
            };
            if p.internal_delta(account).cents() != 0 && dur == 0 {
                return false;
            }
            if p.amount.cents() > i64::MAX as u64 - total {
                proof {
                    lemma_ledger_total_le(self@, i + 1);
                }
                return false;
            }
            total = total + p.amount.cents();
            i = i + 1;
        }
        assert(self@.take(i as int) =~= self@);
        true
    }
}

} // verus!
