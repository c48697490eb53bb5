//! Suggestions for what is being typed, from a fixed list of words.
use vstd::prelude::*;

verus! {

/// The lowercase form of `s`.
pub uninterp spec fn lower_of(s: Seq<char>) -> Seq<char>;

/// `needle` occurs in `hay` at character position `i`.
pub open spec fn occurs_at(hay: Seq<char>, needle: Seq<char>, i: int) -> bool {
    0 <= i && i + needle.len() <= hay.len() && hay.subrange(i, i + needle.len()) == needle
}

/// From character position `i`, the first position where `needle` occurs in
/// `hay`, if any.
pub open spec fn first_occurrence(hay: Seq<char>, needle: Seq<char>, i: nat) -> Option<nat>
    decreases hay.len() + 1 - i,
{
    if i > hay.len() {
        None
    } else if occurs_at(hay, needle, i as int) {
        Some(i)
    } else {
        first_occurrence(hay, needle, i + 1)
    }
}

/// The byte position in UTF-8 of the first occurrence of `needle` in `hay`,
/// if any.
pub open spec fn find_in(hay: Seq<char>, needle: Seq<char>) -> Option<nat> {
    match first_occurrence(hay, needle, 0) {
        Some(i) => Some(vstd::utf8::encode_utf8(hay.take(i as int)).len()),
        None => None,
    }
}

/// Relies on std's `str::to_lowercase`: the lowercase form of a string, which
/// depends on its characters alone.
#[verifier::external_body]
fn lowercase(s: &String) -> (r: String)
    ensures
        r@ == lower_of(s@),
{
    s.to_lowercase()
}

/// Relies on std's `str::find`: the byte index of the first character of
/// `hay` where `needle` matches, if any.
#[verifier::external_body]
fn find_position(hay: &String, needle: &String) -> (r: Option<usize>)
    ensures
        match r {
            Some(k) => find_in(hay@, needle@) == Some(k as nat),
            None => find_in(hay@, needle@).is_none(),
        },
{
    hay.find(needle.as_str())
}

/// The texts of a sequence of strings.
pub open spec fn texts(v: Seq<String>) -> Seq<Seq<char>> {
    v.map_values(|s: String| s@)
}

/// Where `word` matches what is typed, `q`, ignoring case: the byte position
/// of `q` in it.
pub open spec fn match_key(word: Seq<char>, q: Seq<char>) -> Option<nat> {
    find_in(lower_of(word), lower_of(q))
}

/// The first `k` words that match `q`, each with its position of the match.
pub open spec fn candidates(dict: Seq<Seq<char>>, q: Seq<char>, k: nat) -> Seq<(nat, Seq<char>)>
    decreases k,
{
    if k == 0 || k > dict.len() {
        Seq::empty()
    } else {
        let prev = candidates(dict, q, (k - 1) as nat);
        match match_key(dict[k - 1], q) {
            Some(p) => prev.push((p, dict[k - 1])),
            None => prev,
        }
    }
}

/// From `i`, the position after the leading entries whose key is at most `key`.
pub open spec fn insert_pos(s: Seq<(nat, Seq<char>)>, key: nat, i: nat) -> nat
    decreases s.len() - i,
{
    if i >= s.len() {
        s.len()
    } else if s[i as int].0 <= key {
        insert_pos(s, key, i + 1)
    } else {
        i
    }
}

/// The first `k` entries of `s` sorted by key, those of equal keys in their
/// order in `s`: each entry goes after the entries with a key at most its own.
pub open spec fn sort_by_key(s: Seq<(nat, Seq<char>)>, k: nat) -> Seq<(nat, Seq<char>)>
    decreases k,
{
    if k == 0 || k > s.len() {
        Seq::empty()
    } else {
        let t = sort_by_key(s, (k - 1) as nat);
        t.insert(insert_pos(t, s[k - 1].0, 0) as int, s[k - 1])
    }
}

/// The words that match `q`, earliest match first, in list order between
/// equal positions.
pub open spec fn suggestions_for(dict: Seq<Seq<char>>, q: Seq<char>) -> Seq<Seq<char>> {
    let c = candidates(dict, q, dict.len());
    sort_by_key(c, c.len()).map_values(|e: (nat, Seq<char>)| e.1)
}

/// A list of words and the ones that match what is typed.
#[derive(Debug, Clone)]
pub struct Completor {
    dict: Vec<String>,
    matches: Vec<String>,
}

impl View for Completor {
    type V = (Seq<Seq<char>>, Seq<Seq<char>>);

    closed spec fn view(&self) -> (Seq<Seq<char>>, Seq<Seq<char>>) {
        (texts(self.dict@), texts(self.matches@))
    }
}

fn copy_strings(v: &Vec<String>) -> (r: Vec<String>)
    ensures
        texts(r@) == texts(v@),
{
    let mut r: Vec<String> = Vec::new();
    let mut i: usize = 0;
    while i < v.len()
        invariant
            i <= v@.len(),
            texts(r@) == texts(v@).take(i as int),
        decreases v@.len() - i,
    {
        let ghost prev = r@;
        let word = v[i].clone();
        assert(word@ == v@[i as int]@);
        r.push(word);
        assert(texts(r@) =~= texts(prev).push(word@));
        i = i + 1;
        assert(texts(r@) =~= texts(v@).take(i as int));
    }
    assert(texts(v@).take(v@.len() as int) =~= texts(v@));
    r
}

impl Completor {
    /// All of `dict` matches at first.
    pub fn new(dict: Vec<String>) -> (r: Self)
        ensures
            r@.0 == texts(dict@),
            r@.1 == texts(dict@),
    {
        let matches = copy_strings(&dict);
        Completor { dict, matches }
    }

    /// Keeps the words that hold `curr`, ignoring case, earliest match first.
    pub fn update(&mut self, curr: &String)
        ensures
            final(self)@.0 == old(self)@.0,
            final(self)@.1 == suggestions_for(old(self)@.0, curr@),
    {
        let ghost dict = self@.0;
        let lower = lowercase(curr);
        let mut found: Vec<(usize, String)> = Vec::new();
        let mut i: usize = 0;
        while i < self.dict.len()
            invariant
                i <= self.dict@.len(),
                dict == texts(self.dict@),
                lower@ == lower_of(curr@),
                found@.map_values(|e: (usize, String)| (e.0 as nat, e.1@)) == candidates(dict, curr@, i as nat),
            decreases self.dict@.len() - i,
        {
            let word = lowercase(&self.dict[i]);
            let ghost before = found@;
            match find_position(&word, &lower) {
                Some(p) => {
                    found.push((p, self.dict[i].clone()));
                    assert(found@.map_values(|e: (usize, String)| (e.0 as nat, e.1@)) =~= before.map_values(
                        |e: (usize, String)| (e.0 as nat, e.1@),
                    ).push((p as nat, dict[i as int])));
                },
                None => {},
            }
            i = i + 1;
        }
        let ghost cands = candidates(dict, curr@, dict.len());
        let mut sorted: Vec<(usize, String)> = Vec::new();
        let mut k: usize = 0;
        while k < found.len()
            invariant
                k <= found@.len() == cands.len(),
                found@.map_values(|e: (usize, String)| (e.0 as nat, e.1@)) == cands,
                sorted@.map_values(|e: (usize, String)| (e.0 as nat, e.1@)) == sort_by_key(cands, k as nat),
            decreases found@.len() - k,
        {
            let key = found[k].0;
            let ghost t = sort_by_key(cands, k as nat);
            let mut p: usize = 0;
            while p < sorted.len() && sorted[p].0 <= key
                invariant
                    p <= sorted@.len() == t.len(),
                    sorted@.map_values(|e: (usize, String)| (e.0 as nat, e.1@)) == t,
                    insert_pos(t, key as nat, 0) == insert_pos(t, key as nat, p as nat),
                decreases sorted@.len() - p,
            {
                assert(t[p as int].0 == sorted@[p as int].0);
                p = p + 1;
            }
            let ghost before = sorted@;
            sorted.insert(p, (key, found[k].1.clone()));
            assert(sorted@.map_values(|e: (usize, String)| (e.0 as nat, e.1@)) =~= t.insert(
                p as int,
                cands[k as int],
            ));
            k = k + 1;
        }
        let mut matches: Vec<String> = Vec::new();
        let mut j: usize = 0;
        while j < sorted.len()
            invariant
                j <= sorted@.len(),
                texts(matches@) == sorted@.map_values(|e: (usize, String)| e.1@).take(j as int),
            decreases sorted@.len() - j,
        {
            let ghost prev = matches@;
            let word = sorted[j].1.clone();
            assert(word@ == sorted@[j as int].1@);
            matches.push(word);
            assert(texts(matches@) =~= texts(prev).push(word@));
            j = j + 1;
            assert(texts(matches@) =~= sorted@.map_values(|e: (usize, String)| e.1@).take(j as int));
        }
        assert(texts(matches@) =~= suggestions_for(dict, curr@));
        self.matches = matches;
    }

    /// The words that match, in order.
    pub fn matches(&self) -> (r: &Vec<String>)
        ensures
            texts(r@) == self@.1,
    {
        &self.matches
    }

    /// Whether `text` is one of the words.
    pub fn contains(&self, text: &String) -> (r: bool)
        ensures
            r == self@.0.contains(text@),
    {
        let mut i: usize = 0;
        while i < self.dict.len()
            invariant
                i <= self.dict@.len(),
                forall|j: int| 0 <= j < i ==> self@.0[j] != text@,
            decreases self.dict@.len() - i,
        {
            if self.dict[i] == *text {
                assert(self@.0[i as int] == text@);
                return true;
            }
            i = i + 1;
        }
        false
    }
}

} // verus!
