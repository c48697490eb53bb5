//! Maps keyed by strings, kept in ascending key order.
use vstd::prelude::*;

verus! {

/// Lexicographic order on strings, character by character.
pub open spec fn str_lt(a: Seq<char>, b: Seq<char>) -> bool
    decreases a.len(),
{
    if a.len() == 0 {
        b.len() > 0
    } else if b.len() == 0 {
        false
    } else if a[0] != b[0] {
        (a[0] as int) < (b[0] as int)
    } else {
        str_lt(a.skip(1), b.skip(1))
    }
}

/// No string sorts before itself.
pub proof fn lemma_str_lt_irreflexive(a: Seq<char>)
    ensures
        !str_lt(a, a),
    decreases a.len(),
{
    if a.len() > 0 {
        lemma_str_lt_irreflexive(a.skip(1));
    }
}

/// The order on strings is transitive.
pub proof fn lemma_str_lt_transitive(a: Seq<char>, b: Seq<char>, c: Seq<char>)
    requires
        str_lt(a, b),
        str_lt(b, c),
    ensures
        str_lt(a, c),
    decreases a.len(),
{
    if a.len() > 0 && b.len() > 0 && c.len() > 0 && a[0] == b[0] && b[0] == c[0] {
        lemma_str_lt_transitive(a.skip(1), b.skip(1), c.skip(1));
    }
}

/// Of two different strings, one sorts before the other.
pub proof fn lemma_str_lt_total(a: Seq<char>, b: Seq<char>)
    ensures
        a == b || str_lt(a, b) || str_lt(b, a),
    decreases a.len(),
{
    if a.len() > 0 && b.len() > 0 && a[0] == b[0] {
        lemma_str_lt_total(a.skip(1), b.skip(1));
        if a.skip(1) == b.skip(1) {
            assert(a =~= seq![a[0]] + a.skip(1));
            assert(b =~= seq![b[0]] + b.skip(1));
        }
    } else if a.len() > 0 && b.len() > 0 {
        assert((a[0] as int) != (b[0] as int));
    } else if a.len() == 0 && b.len() == 0 {
        assert(a =~= b);
    }
}

/// Whether `a` sorts strictly before `b`.
pub fn str_less(a: &String, b: &String) -> (r: bool)
    ensures
        r == str_lt(a@, b@),
{
    let la = a.as_str().unicode_len();
    let lb = b.as_str().unicode_len();
    let mut i: usize = 0;
    assert(a@.skip(0) =~= a@);
    assert(b@.skip(0) =~= b@);
    while i < la && i < lb
        invariant
            i <= la == a@.len(),
            i <= lb == b@.len(),
            str_lt(a@, b@) == str_lt(a@.skip(i as int), b@.skip(i as int)),
        decreases la - i,
    {
        let ca = a.as_str().get_char(i);
        let cb = b.as_str().get_char(i);
        if ca != cb {
            return (ca as u32) < (cb as u32);
        }
        assert(a@.skip(i as int).skip(1) =~= a@.skip(i + 1));
        assert(b@.skip(i as int).skip(1) =~= b@.skip(i + 1));
        i = i + 1;
    }
    i == la && i < lb
}

/// The keys of a sequence of entries.
pub open spec fn keys_of<V>(s: Seq<(Seq<char>, V)>) -> Seq<Seq<char>> {
    s.map_values(|e: (Seq<char>, V)| e.0)
}

/// The values of a sequence of entries.
pub open spec fn values_of<V>(s: Seq<(Seq<char>, V)>) -> Seq<V> {
    s.map_values(|e: (Seq<char>, V)| e.1)
}

/// The keys are in strictly ascending order (hence distinct).
pub open spec fn sorted_keys(ks: Seq<Seq<char>>) -> bool {
    forall|i: int, j: int| 0 <= i < j < ks.len() ==> str_lt(#[trigger] ks[i], #[trigger] ks[j])
}

/// The map that the entries stand for.
pub open spec fn map_of<V>(s: Seq<(Seq<char>, V)>) -> Map<Seq<char>, V> {
    Map::new(|k: Seq<char>| keys_of(s).contains(k), |k: Seq<char>| s[keys_of(s).index_of(k)].1)
}

/// A map from strings to values, its entries in ascending key order.
#[derive(Debug, Clone, PartialEq, Eq)]
pub struct StrMap<V> {
    entries: Vec<(String, V)>,
}

impl<V> View for StrMap<V> {
    type V = Seq<(Seq<char>, V)>;

    closed spec fn view(&self) -> Seq<(Seq<char>, V)> {
        self.entries@.map_values(|e: (String, V)| (e.0@, e.1))
    }
}

/// In entries with ascending keys, the entry at `i` is the one of its key.
pub proof fn lemma_entry_lookup<V>(s: Seq<(Seq<char>, V)>, i: int)
    requires
        sorted_keys(keys_of(s)),
        0 <= i < s.len(),
    ensures
        map_of(s).contains_key(s[i].0),
        map_of(s)[s[i].0] == s[i].1,
        keys_of(s).index_of(s[i].0) == i,
{
    let ks = keys_of(s);
    assert(ks[i] == s[i].0);
    assert(ks.contains(s[i].0));
    let j = ks.index_of(s[i].0);
    if j != i {
        if j < i {
            assert(str_lt(ks[j], ks[i]));
        } else {
            assert(str_lt(ks[i], ks[j]));
        }
        lemma_str_lt_irreflexive(s[i].0);
    }
}

impl<V> StrMap<V> {
    /// The entries are in strictly ascending key order.
    pub open spec fn wf(&self) -> bool {
        sorted_keys(keys_of(self@))
    }

    /// The map that the entries stand for.
    pub open spec fn map(&self) -> Map<Seq<char>, V> {
        map_of(self@)
    }

    pub fn new() -> (r: Self)
        ensures
            r@ == Seq::<(Seq<char>, V)>::empty(),
            r.wf(),
    {
        StrMap { entries: Vec::new() }
    }

    pub fn len(&self) -> (r: usize)
        ensures
            r == self@.len(),
    {
        self.entries.len()
    }

    pub fn key_at(&self, i: usize) -> (r: &String)
        requires
            i < self@.len(),
        ensures
            r@ == self@[i as int].0,
    {
        &self.entries[i].0
    }

    pub fn value_at(&self, i: usize) -> (r: &V)
        requires
            i < self@.len(),
        ensures
            *r == self@[i as int].1,
    {
        &self.entries[i].1
    }

    /// The position of `key`, if it is there.
    pub fn find(&self, key: &String) -> (r: Option<usize>)
        ensures
            match r {
                Some(i) => i < self@.len() && self@[i as int].0 == key@,
                None => !keys_of(self@).contains(key@),
            },
    {
        let mut i: usize = 0;
        while i < self.entries.len()
            invariant
                i <= self@.len(),
                forall|j: int| 0 <= j < i ==> self@[j].0 != key@,
            decreases self@.len() - i,
        {
            if self.entries[i].0 == *key {
                return Some(i);
            }
            i = i + 1;
        }
        assert forall|j: int| 0 <= j < keys_of(self@).len() implies keys_of(self@)[j] != key@ by {}
        None
    }

    /// The value of `key`, if it is there.
    pub fn get(&self, key: &String) -> (r: Option<&V>)
        requires
            self.wf(),
        ensures
            match r {
                Some(v) => self.map().contains_key(key@) && self.map()[key@] == *v,
                None => !self.map().contains_key(key@),
            },
    {
        match self.find(key) {
            Some(i) => {
                proof {
                    lemma_entry_lookup(self@, i as int);
                }
                Some(&self.entries[i].1)
            },
            None => None,
        }
    }

    /// Whether `key` is there.
    pub fn contains_key(&self, key: &String) -> (r: bool)
        ensures
            r == self.map().contains_key(key@),
    {
        match self.find(key) {
            Some(i) => {
                assert(keys_of(self@)[i as int] == key@);
                true
            },
            None => false,
        }
    }

    /// Replaces the value at position `i`.
    pub fn set_value_at(&mut self, i: usize, value: V)
        requires
            i < old(self)@.len(),
        ensures
            final(self)@ == old(self)@.update(i as int, (old(self)@[i as int].0, value)),
            keys_of(final(self)@) == keys_of(old(self)@),
    {
        let key = self.entries.remove(i);
        self.entries.insert(i, (key.0, value));
        assert(self@ =~= old(self)@.update(i as int, (old(self)@[i as int].0, value)));
        assert(keys_of(self@) =~= keys_of(old(self)@));
    }

    /// Sets the value of `key`, in its place in the key order.
    pub fn insert(&mut self, key: String, value: V)
        requires
            old(self).wf(),
        ensures
            final(self).wf(),
            final(self).map() == old(self).map().insert(key@, value),
    {
        let ghost s = self@;
        let ghost ks = keys_of(s);
        let mut p: usize = 0;
        while p < self.entries.len() && str_less(&self.entries[p].0, &key)
            invariant
                p <= self@.len(),
                self@ == s,
                ks == keys_of(s),
                ks.len() == s.len() == self.entries@.len(),
                forall|j: int| 0 <= j < p ==> str_lt(#[trigger] ks[j], key@),
            decreases self@.len() - p,
        {
            assert(ks[p as int] == self.entries@[p as int].0@);
            p = p + 1;
        }
        if p < self.entries.len() && self.entries[p].0 == key {
            self.set_value_at(p, value);
            proof {
                let t = self@;
                assert(keys_of(t) =~= ks);
                assert(ks[p as int] == key@);
                assert forall|k: Seq<char>| #[trigger] self.map().contains_key(k) == old(self).map().insert(key@, value).contains_key(k)
                    by {}
                assert forall|k: Seq<char>| #[trigger] self.map().contains_key(k) implies self.map()[k]
                    == old(self).map().insert(key@, value)[k] by {
                    let j = keys_of(t).index_of(k);
                    lemma_entry_lookup(t, j);
                    if j != p {
                        lemma_entry_lookup(s, j);
                    }
                }
                assert(self.map() =~= old(self).map().insert(key@, value));
            }
        } else {
            proof {
                if p < s.len() {
                    assert(ks[p as int] == self.entries@[p as int].0@);
                    lemma_str_lt_total(ks[p as int], key@);
                }
            }
            self.entries.insert(p, (key, value));
            proof {
                let t = self@;
                let kt = keys_of(t);
                assert(t =~= s.take(p as int).push((key@, value)) + s.skip(p as int));
                assert(kt.len() == ks.len() + 1);
                assert(forall|j: int| 0 <= j < p ==> t[j] == s[j]);
                assert(t[p as int] == (key@, value));
                assert(forall|j: int| p < j < t.len() ==> t[j] == s[j - 1]);
                assert(forall|j: int| 0 <= j < p ==> kt[j] == ks[j]);
                assert(kt[p as int] == key@);
                assert(forall|j: int| p < j < kt.len() ==> kt[j] == ks[j - 1]);
                assert forall|i: int, j: int| 0 <= i < j < kt.len() implies str_lt(#[trigger] kt[i], #[trigger] kt[j]) by {
                    if j == p {
                    } else if i == p {
                        if j > p + 1 {
                            lemma_str_lt_transitive(key@, ks[p as int], ks[j - 1]);
                        }
                    } else if j < p {
                    } else if i < p {
                        assert(kt[j] == ks[j - 1]);
                        assert(str_lt(ks[i], ks[j - 1]));
                    } else {
                        assert(kt[i] == ks[i - 1] && kt[j] == ks[j - 1]);
                    }
                }
                assert forall|k: Seq<char>| #[trigger] self.map().contains_key(k) == old(self).map().insert(key@, value).contains_key(k)
                    by {
                    if kt.contains(k) {
                        let j = kt.index_of(k);
                        if j < p {
                            assert(ks[j] == k);
                        } else if j > p {
                            assert(ks[j - 1] == k);
                        }
                    }
                    if ks.contains(k) {
                        let j = ks.index_of(k);
                        if j < p {
                            assert(kt[j] == k);
                        } else {
                            assert(kt[j + 1] == k);
                        }
                    }
                }
                assert forall|k: Seq<char>| #[trigger] self.map().contains_key(k) implies self.map()[k]
                    == old(self).map().insert(key@, value)[k] by {
                    let j = kt.index_of(k);
                    lemma_entry_lookup(t, j);
                    lemma_str_lt_irreflexive(key@);
                    if j < p {
                        lemma_entry_lookup(s, j);
                    } else if j > p {
                        assert(str_lt(kt[p as int], kt[j]));
                        lemma_entry_lookup(s, j - 1);
                    }
                }
                assert(self.map() =~= old(self).map().insert(key@, value));
            }
        }
    }

    /// The same keys, in the same order, with the given values.
    pub fn with_values<W: Copy>(&self, values: &Vec<W>) -> (r: StrMap<W>)
        requires
            values@.len() == self@.len(),
        ensures
            keys_of(r@) == keys_of(self@),
            values_of(r@) == values@,
    {
        let mut entries: Vec<(String, W)> = Vec::new();
        let mut i: usize = 0;
        while i < self.entries.len()
            invariant
                i <= self@.len() == values@.len(),
                entries@.len() == i,
                forall|j: int| 0 <= j < i ==> (#[trigger] entries@[j]).0@ == self@[j].0 && entries@[j].1 == values@[j],
            decreases self@.len() - i,
        {
            entries.push((self.entries[i].0.clone(), values[i]));
            i = i + 1;
        }
        let r = StrMap { entries };
        assert(keys_of(r@) =~= keys_of(self@));
        assert(values_of(r@) =~= values@);
        r
    }

    /// Whether the keys are in strictly ascending order.
    pub fn check_wf(&self) -> (r: bool)
        ensures
            r == self.wf(),
    {
        let ghost ks = keys_of(self@);
        let n = self.entries.len();
        if n == 0 {
            return true;
        }
        let mut i: usize = 1;
        while i < n
            invariant
                1 <= i <= n == self@.len() == ks.len(),
                ks == keys_of(self@),
                sorted_keys(ks.take(i as int)),
            decreases n - i,
        {
            assert(ks[i - 1] == self.entries@[i - 1].0@);
            assert(ks[i as int] == self.entries@[i as int].0@);
            if !str_less(&self.entries[i - 1].0, &self.entries[i].0) {
                assert(!sorted_keys(ks)) by {
                    assert(!str_lt(ks[i - 1], ks[i as int]));
                }
                return false;
            }
            proof {
                let t = ks.take(i + 1);
                assert forall|a: int, b: int| 0 <= a < b < t.len() implies str_lt(#[trigger] t[a], #[trigger] t[b]) by {
                    if b == i {
                        if a < i - 1 {
                            assert(str_lt(ks.take(i as int)[a], ks.take(i as int)[i - 1]));
                            lemma_str_lt_transitive(ks[a], ks[i - 1], ks[i as int]);
                        }
                    } else {
                        assert(str_lt(ks.take(i as int)[a], ks.take(i as int)[b]));
                    }
                }
            }
            i = i + 1;
        }
        assert(ks.take(n as int) =~= ks);
        true
    }
}

} // verus!
