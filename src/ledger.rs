//! Purchases, how their cost is split, and the date-ordered ledger.
use vstd::multiset::Multiset;
use vstd::prelude::*;
use crate::accounts::AccountRef;
use crate::date::Date;
use crate::keyed::{StrMap, keys_of, values_of, lemma_entry_lookup};
use crate::money::{CentsAmount, SignedCentsAmount, subdiv_part, weight_sum, lemma_part_le};
use crate::tags::TagRef;

verus! {

/// The accounts that consumed a purchase, each with its number of shares.
#[derive(Debug, Clone, PartialEq, Eq)]
pub struct Consumers(pub StrMap<usize>);

/// The part of `total` that falls to `account` when split among `consumers`
/// by their shares; zero for an account that is not among them.
pub open spec fn share_of(total: nat, consumers: Seq<(Seq<char>, usize)>, account: Seq<char>) -> nat {
    if keys_of(consumers).contains(account) {
        subdiv_part(total, values_of(consumers), keys_of(consumers).index_of(account))
    } else {
        0
    }
}

proof fn lemma_weight_sum_positive(ws: Seq<usize>)
    ensures
        weight_sum(ws) > 0 <==> exists|i: int| 0 <= i < ws.len() && ws[i] > 0,
    decreases ws.len(),
{
    if ws.len() > 0 {
        lemma_weight_sum_positive(ws.drop_last());
        if exists|i: int| 0 <= i < ws.len() && ws[i] > 0 {
            let i = choose|i: int| 0 <= i < ws.len() && ws[i] > 0;
            if i < ws.len() - 1 {
                assert(ws.drop_last()[i] > 0);
            }
        }
        if exists|i: int| 0 <= i < ws.drop_last().len() && ws.drop_last()[i] > 0 {
            let i = choose|i: int| 0 <= i < ws.drop_last().len() && ws.drop_last()[i] > 0;
            assert(ws[i] > 0);
        }
    }
}

impl Consumers {
    /// Whether the consumers can split an amount.
    pub fn check_valid(&self) -> (r: bool)
        ensures
            r == self.valid(),
    {
        if !self.0.check_wf() {
            return false;
        }
        proof {
            lemma_weight_sum_positive(self.weights());
        }
        let mut i: usize = 0;
        while i < self.0.len()
            invariant
                i <= self.0@.len(),
                self.0.wf(),
                forall|j: int| 0 <= j < i ==> self.weights()[j] == 0,
            decreases self.0@.len() - i,
        {
            if *self.0.value_at(i) > 0 {
                assert(self.weights()[i as int] > 0);
                proof {
                    lemma_weight_sum_positive(self.weights());
                }
                return true;
            }
            i = i + 1;
        }
        proof {
            lemma_weight_sum_positive(self.weights());
        }
        false
    }

    /// The shares, in account order.
    pub open spec fn weights(&self) -> Seq<usize> {
        values_of(self.0@)
    }

    /// The consumers can split an amount: accounts in order, some share.
    pub open spec fn valid(&self) -> bool {
        self.0.wf() && weight_sum(self.weights()) > 0
    }

    /// `total` split among the consumers by their shares (see
    /// `CentsAmount::subdiv`), in account order.
    pub fn amounts(&self, total: CentsAmount) -> (r: StrMap<CentsAmount>)
        requires
            self.valid(),
        ensures
            r.wf(),
            keys_of(r@) == keys_of(self.0@),
            values_of(r@).len() == self.weights().len(),
            forall|i: int|
                0 <= i < values_of(r@).len() ==> (#[trigger] values_of(r@)[i])@ == subdiv_part(
                    total@,
                    self.weights(),
                    i,
                ),
    {
        let n = self.0.len();
        let mut weights: Vec<usize> = Vec::new();
        let mut i: usize = 0;
        while i < n
            invariant
                i <= n == self.0@.len(),
                weights@ == self.weights().take(i as int),
            decreases n - i,
        {
            weights.push(*self.0.value_at(i));
            i = i + 1;
            assert(weights@ =~= self.weights().take(i as int));
        }
        assert(weights@ =~= self.weights());
        let parts = total.subdiv(weights);
        self.0.with_values(&parts)
    }
}

/// A purchase of `amount`, bought by `buyer` and consumed by `consumers`.
#[derive(Debug, Clone, PartialEq, Eq)]
pub struct Purchase {
    pub date: Date,
    pub amount: CentsAmount,
    pub desc: String,
    pub tag: TagRef,
    pub buyer: AccountRef,
    pub consumers: Consumers,
}

impl Purchase {
    /// The purchase can be split: its consumers can share it, and its amount
    /// fits a signed amount.
    pub open spec fn splittable(&self) -> bool {
        self.consumers.valid() && self.amount@ <= i64::MAX
    }

    /// The part of the purchase that falls to `account`.
    pub open spec fn share(&self, account: Seq<char>) -> nat {
        share_of(self.amount@, self.consumers.0@, account)
    }

    /// What `account` pays for the purchase as buyer.
    pub open spec fn paid(&self, account: Seq<char>) -> nat {
        if self.buyer@ == account {
            self.amount@
        } else {
            0
        }
    }

    /// Whether the purchase can be split.
    pub fn check_splittable(&self) -> (r: bool)
        ensures
            r == self.splittable(),
    {
        self.consumers.check_valid() && self.amount.cents() <= i64::MAX as u64
    }

    /// No share exceeds the amount.
    pub proof fn lemma_share_le(&self, account: Seq<char>)
        requires
            self.splittable(),
        ensures
            self.share(account) <= self.amount@,
    {
        if keys_of(self.consumers.0@).contains(account) {
            lemma_part_le(
                self.amount@,
                self.consumers.weights(),
                keys_of(self.consumers.0@).index_of(account),
            );
        }
    }

    /// What the purchase costs `account`: minus its share.
    pub fn internal_delta(&self, account: &AccountRef) -> (r: SignedCentsAmount)
        requires
            self.splittable(),
        ensures
            r@ == -self.share(account@),
    {
        let amounts = self.consumers.amounts(self.amount);
        proof {
            self.lemma_share_le(account@);
        }
        match amounts.find(account) {
            Some(i) => {
                let part = *amounts.value_at(i);
                proof {
                    let ks = keys_of(self.consumers.0@);
                    assert(ks[i as int] == account@);
                    lemma_entry_lookup(self.consumers.0@, i as int);
                    assert(values_of(amounts@)[i as int] == part);
                }
                SignedCentsAmount::negative(part)
            },
            None => SignedCentsAmount::new(0),
        }
    }

    /// How the purchase moves `account`'s money: what it paid as buyer,
    /// minus its share.
    pub fn external_delta(&self, account: &AccountRef) -> (r: SignedCentsAmount)
        requires
            self.splittable(),
        ensures
            r@ == self.paid(account@) - self.share(account@),
    {
        proof {
            self.lemma_share_le(account@);
        }
        if self.buyer == *account {
            SignedCentsAmount::positive(self.amount).plus(self.internal_delta(account))
        } else {
            self.internal_delta(account)
        }
    }
}

/// A movement of money in the ledger.
#[derive(Debug, Clone, PartialEq, Eq)]
pub enum Transaction {
    Purchase(Purchase),
}

/// The day of a transaction.
pub open spec fn tx_day(t: Transaction) -> int {
    match t {
        Transaction::Purchase(p) => p.date@,
    }
}

/// The accounts `ks` but `buyer`, in order, among the first `k`.
pub open spec fn others(ks: Seq<Seq<char>>, buyer: Seq<char>, k: nat) -> Seq<Seq<char>>
    decreases k,
{
    if k == 0 || k > ks.len() {
        Seq::empty()
    } else if ks[k - 1] == buyer {
        others(ks, buyer, (k - 1) as nat)
    } else {
        others(ks, buyer, (k - 1) as nat).push(ks[k - 1])
    }
}

impl Transaction {
    /// The purchase behind the transaction.
    pub open spec fn purchase(&self) -> Purchase {
        match self {
            Transaction::Purchase(p) => *p,
        }
    }

    pub fn date(&self) -> (r: &Date)
        ensures
            r@ == tx_day(*self),
    {
        match self {
            Transaction::Purchase(purchase) => &purchase.date,
        }
    }

    /// The amount that changes hands.
    pub fn abs_amount(&self) -> (r: CentsAmount)
        ensures
            r == self.purchase().amount,
    {
        match self {
            Transaction::Purchase(purchase) => purchase.amount,
        }
    }

    pub fn internal_delta(&self, account: &AccountRef) -> (r: SignedCentsAmount)
        requires
            self.purchase().splittable(),
        ensures
            r@ == -self.purchase().share(account@),
    {
        match self {
            Transaction::Purchase(purchase) => purchase.internal_delta(account),
        }
    }

    pub fn external_delta(&self, account: &AccountRef) -> (r: SignedCentsAmount)
        requires
            self.purchase().splittable(),
        ensures
            r@ == self.purchase().paid(account@) - self.purchase().share(account@),
    {
        match self {
            Transaction::Purchase(purchase) => purchase.external_delta(account),
        }
    }

    /// The accounts involved: the buyer first, then the other consumers in
    /// account order.
    pub fn accounts(&self) -> (r: Vec<AccountRef>)
        ensures
            r@.map_values(|a: AccountRef| a@) == seq![self.purchase().buyer@] + others(
                keys_of(self.purchase().consumers.0@),
                self.purchase().buyer@,
                self.purchase().consumers.0@.len(),
            ),
    {
        match self {
            Transaction::Purchase(purchase) => {
                let ghost ks = keys_of(purchase.consumers.0@);
                let mut ret: Vec<AccountRef> = Vec::new();
                ret.push(purchase.buyer.clone());
                let n = purchase.consumers.0.len();
                let mut i: usize = 0;
                while i < n
                    invariant
                        i <= n == ks.len(),
                        ks == keys_of(purchase.consumers.0@),
                        ret@.map_values(|a: AccountRef| a@) == seq![purchase.buyer@] + others(
                            ks,
                            purchase.buyer@,
                            i as nat,
                        ),
                    decreases n - i,
                {
                    let account = purchase.consumers.0.key_at(i);
                    if *account != purchase.buyer {
                        let ghost before = ret@;
                        ret.push(account.clone());
                        assert(ret@.map_values(|a: AccountRef| a@) =~= before.map_values(
                            |a: AccountRef| a@,
                        ).push(ks[i as int]));
                    }
                    i = i + 1;
                }
                ret
            },
        }
    }

    pub fn desc(&self) -> (r: &String)
        ensures
            r@ == self.purchase().desc@,
    {
        match self {
            Transaction::Purchase(purchase) => &purchase.desc,
        }
    }

    /// What kind of transaction it is: a purchase's category.
    pub fn kind_str(&self) -> (r: String)
        ensures
            r@ == self.purchase().tag@,
    {
        match self {
            Transaction::Purchase(purchase) => purchase.tag.clone(),
        }
    }
}

/// The transactions are in order of their days.
pub open spec fn sorted_by_day(s: Seq<Transaction>) -> bool {
    forall|i: int, j: int| 0 <= i < j < s.len() ==> tx_day(#[trigger] s[i]) <= tx_day(#[trigger] s[j])
}

/// The ledger: transactions in order of their days, those of one day in the
/// order they were added.
#[derive(Debug, Clone)]
pub struct Transactions(Vec<Transaction>);

impl View for Transactions {
    type V = Seq<Transaction>;

    closed spec fn view(&self) -> Seq<Transaction> {
        self.0@
    }
}

impl Transactions {
    /// The transactions are in order of their days.
    pub open spec fn wf(&self) -> bool {
        sorted_by_day(self@)
    }

    /// An empty ledger.
    pub fn new() -> (r: Self)
        ensures
            r@ == Seq::<Transaction>::empty(),
            r.wf(),
    {
        Transactions(Vec::new())
    }

    /// A ledger holding `transactions` as they are, in any order (see `fix`).
    pub fn from_vec(transactions: Vec<Transaction>) -> (r: Self)
        ensures
            r@ == transactions@,
    {
        Transactions(transactions)
    }

    /// Puts the transactions in order of their days, keeping the order of
    /// those of one day.
    pub fn fix(&mut self)
        ensures
            final(self).wf(),
            final(self)@.to_multiset() == old(self)@.to_multiset(),
            forall|d: int| #[trigger] same_day(final(self)@, d) == same_day(old(self)@, d),
    {
        let ghost s = self@;
        let total = self.0.len();
        let mut sorted = Transactions::new();
        let mut k: usize = 0;
        assert(s.take(0) =~= Seq::<Transaction>::empty());
        assert forall|d: int| #[trigger] same_day(sorted@, d) == same_day(s.take(0), d) by {
            assert(same_day(sorted@, d) =~= Seq::<Transaction>::empty()) by {
                reveal(Seq::filter);
            }
            assert(same_day(s.take(0), d) =~= Seq::<Transaction>::empty()) by {
                reveal(Seq::filter);
            }
        }
        while self.0.len() > 0
            invariant
                k <= s.len() == total,
                self@ == s.skip(k as int),
                sorted.wf(),
                sorted@.to_multiset() == s.take(k as int).to_multiset(),
                forall|d: int| #[trigger] same_day(sorted@, d) == same_day(s.take(k as int), d),
            decreases self@.len(),
        {
            let t = self.0.remove(0);
            let ghost before = sorted@;
            proof {
                assert(self@ =~= s.skip(k + 1));
                assert(t == s[k as int]);
                assert(s.take(k + 1) =~= s.take(k as int).push(t));
            }
            let p = sorted.add(t);
            proof {
                before.insert_ensures(p as int, t);
                assert(before.insert(p as int, t).to_multiset() =~= before.to_multiset().insert(t)) by {
                    vstd::seq_lib::to_multiset_build(s.take(k as int), t);
                    lemma_insert_multiset(before, p as int, t);
                }
                vstd::seq_lib::to_multiset_build(s.take(k as int), t);
                lemma_add_filters(before, p as int, t);
                assert forall|d: int| #[trigger] same_day(sorted@, d) == same_day(s.take(k + 1), d) by {
                    Seq::filter_distributes_over_add(s.take(k as int), seq![t], |x: Transaction| tx_day(x) == d);
                    assert(s.take(k as int).push(t) == s.take(k as int) + seq![t]);
                }
            }
            k = k + 1;
        }
        assert(s.take(k as int) =~= s);
        *self = sorted;
    }

    /// Inserts `transaction` after every transaction of the same day or
    /// before; returns where it went.
    pub fn add(&mut self, transaction: Transaction) -> (r: usize)
        requires
            old(self).wf(),
        ensures
            final(self).wf(),
            final(self)@ == old(self)@.insert(r as int, transaction),
            r <= old(self)@.len(),
            forall|j: int| 0 <= j < r ==> tx_day(#[trigger] old(self)@[j]) <= tx_day(transaction),
            forall|j: int| r <= j < old(self)@.len() ==> tx_day(#[trigger] old(self)@[j]) > tx_day(transaction),
    {
        let day = transaction.date().days();
        let mut index: usize = 0;
        while index < self.0.len() && self.0[index].date().days() <= day
            invariant
                index <= self@.len(),
                self@ == old(self)@,
                day == tx_day(transaction),
                forall|j: int| 0 <= j < index ==> tx_day(#[trigger] self@[j]) <= day,
            decreases self@.len() - index,
        {
            index = index + 1;
        }
        self.0.insert(index, transaction);
        proof {
            let s = old(self)@;
            let t = self@;
            assert(t =~= s.insert(index as int, transaction));
            assert forall|j: int| index <= j < s.len() implies tx_day(#[trigger] s[j]) > day by {
                assert(tx_day(s[index as int]) <= tx_day(s[j]));
            }
            assert forall|i: int, j: int| 0 <= i < j < t.len() implies tx_day(#[trigger] t[i]) <= tx_day(#[trigger] t[j]) by {
                if i < index && j > index {
                    assert(t[j] == s[j - 1]);
                } else if i > index {
                    assert(t[i] == s[i - 1] && t[j] == s[j - 1]);
                }
            }
        }
        index
    }

    /// Removes the transaction at `index`.
    pub fn remove(&mut self, index: usize)
        requires
            index < old(self)@.len(),
        ensures
            final(self)@ == old(self)@.remove(index as int),
            old(self).wf() ==> final(self).wf(),
    {
        self.0.remove(index);
        proof {
            let s = old(self)@;
            let t = self@;
            assert forall|i: int, j: int| 0 <= i < j < t.len() && sorted_by_day(s) implies tx_day(#[trigger] t[i]) <= tx_day(#[trigger] t[j]) by {
                if j >= index {
                    assert(t[j] == s[j + 1]);
                }
                if i >= index {
                    assert(t[i] == s[i + 1]);
                }
            }
        }
    }

    pub fn len(&self) -> (r: usize)
        ensures
            r == self@.len(),
    {
        self.0.len()
    }

    /// Whether the transactions are in order of their days.
    pub fn check_sorted(&self) -> (r: bool)
        ensures
            r == self.wf(),
    {
        let n = self.0.len();
        if n == 0 {
            return true;
        }
        let mut i: usize = 1;
        while i < n
            invariant
                1 <= i <= n == self@.len(),
                sorted_by_day(self@.take(i as int)),
            decreases n - i,
        {
            if self.0[i - 1].date().days() > self.0[i].date().days() {
                assert(!sorted_by_day(self@)) by {
                    assert(tx_day(self@[i - 1]) > tx_day(self@[i as int]));
                }
                return false;
            }
            proof {
                let t = self@.take(i + 1);
                assert forall|a: int, b: int| 0 <= a < b < t.len() implies tx_day(#[trigger] t[a]) <= tx_day(#[trigger] t[b]) by {
                    if b == i && a < i - 1 {
                        assert(tx_day(self@.take(i as int)[a]) <= tx_day(self@.take(i as int)[i - 1]));
                    } else if b < i {
                        assert(tx_day(self@.take(i as int)[a]) <= tx_day(self@.take(i as int)[b]));
                    }
                }
            }
            i = i + 1;
        }
        assert(self@.take(n as int) =~= self@);
        true
    }

    /// The transactions, in order.
    pub fn vec(&self) -> (r: &Vec<Transaction>)
        ensures
            r@ == self@,
    {
        &self.0
    }
}

/// The transactions of day `d`, in order.
pub open spec fn same_day(s: Seq<Transaction>, d: int) -> Seq<Transaction> {
    s.filter(|x: Transaction| tx_day(x) == d)
}

proof fn lemma_insert_multiset(s: Seq<Transaction>, p: int, t: Transaction)
    requires
        0 <= p <= s.len(),
    ensures
        s.insert(p, t).to_multiset() == s.to_multiset().insert(t),
{
    let a = s.take(p);
    let b = s.skip(p);
    assert(s =~= a + b);
    assert(s.insert(p, t) =~= a + (seq![t] + b));
    vstd::seq_lib::lemma_multiset_commutative(a, seq![t] + b);
    vstd::seq_lib::lemma_multiset_commutative(seq![t], b);
    vstd::seq_lib::lemma_multiset_commutative(a, b);
    assert(seq![t].to_multiset() =~= Multiset::singleton(t)) by {
        vstd::seq_lib::to_multiset_build(Seq::<Transaction>::empty(), t);
        assert(Seq::<Transaction>::empty().push(t) =~= seq![t]);
        assert(Seq::<Transaction>::empty().to_multiset() =~= Multiset::empty()) by {
            Seq::<Transaction>::empty().to_multiset_ensures();
        }
    }
    assert(s.insert(p, t).to_multiset() =~= s.to_multiset().insert(t));
}

/// Inserting `t` where `Transactions::add` puts it adds `t` to the end of the
/// transactions of its day, and changes no other day.
proof fn lemma_add_filters(s: Seq<Transaction>, p: int, t: Transaction)
    requires
        0 <= p <= s.len(),
        forall|j: int| 0 <= j < p ==> tx_day(#[trigger] s[j]) <= tx_day(t),
        forall|j: int| p <= j < s.len() ==> tx_day(#[trigger] s[j]) > tx_day(t),
    ensures
        forall|d: int| #[trigger] same_day(s.insert(p, t), d) == same_day(s, d) + same_day(seq![t], d),
{
    assert forall|d: int| #[trigger] same_day(s.insert(p, t), d) == same_day(s, d) + same_day(seq![t], d) by {
        let f = |x: Transaction| tx_day(x) == d;
        let a = s.take(p);
        let b = s.skip(p);
        assert(s =~= a + b);
        assert(s.insert(p, t) =~= a + seq![t] + b);
        Seq::filter_distributes_over_add(a, b, f);
        Seq::filter_distributes_over_add(a + seq![t], b, f);
        Seq::filter_distributes_over_add(a, seq![t], f);
        if tx_day(t) == d {
            assert forall|j: int| 0 <= j < b.len() implies !f(b[j]) by {
                assert(b[j] == s[p + j]);
            }
            b.lemma_all_neg_filter_empty(f);
            assert(b.filter(f) =~= Seq::<Transaction>::empty());
        } else {
            assert forall|j: int| 0 <= j < seq![t].len() implies !f(seq![t][j]) by {}
            seq![t].lemma_all_neg_filter_empty(f);
        }
    }
}

} // verus!
