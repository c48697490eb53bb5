//! Spending categories and how long a purchase of each is spread over.
use vstd::prelude::*;
use crate::keyed::StrMap;

verus! {

/// The name of a spending category.
pub type TagRef = String;

/// What a category holds: its duration in days and its parent, if any.
pub type TagView = (nat, Option<Seq<char>>);

/// A spending category's settings.
#[derive(Debug, Clone)]
pub struct TagData {
    dur: usize,
    parent: Option<TagRef>,
}

impl View for TagData {
    type V = TagView;

    closed spec fn view(&self) -> TagView {
        (
            self.dur as nat,
            match self.parent {
                Some(p) => Some(p@),
                None => None,
            },
        )
    }
}

impl TagData {
    /// A category of `dur` days, without parent.
    pub fn new(dur: usize) -> (r: Self)
        ensures
            r@ == (dur as nat, None::<Seq<char>>),
    {
        TagData { dur, parent: None }
    }

    /// A category of `dur` days under `parent`.
    pub fn with_parent(dur: usize, parent: TagRef) -> (r: Self)
        ensures
            r@ == (dur as nat, Some(parent@)),
    {
        TagData { dur, parent: Some(parent) }
    }

    /// The number of days a purchase of the category is spread over.
    pub fn dur(&self) -> (r: usize)
        ensures
            r == self@.0,
    {
        self.dur
    }

    /// The parent category, if any.
    pub fn parent(&self) -> (r: Option<&TagRef>)
        ensures
            match r {
                Some(p) => self@.1 == Some(p@),
                None => self@.1.is_none(),
            },
    {
        match &self.parent {
            Some(p) => Some(p),
            None => None,
        }
    }
}

/// The settings of each category, as views.
pub open spec fn tag_views(m: Map<Seq<char>, TagData>) -> Map<Seq<char>, TagView> {
    m.map_values(|t: TagData| t@)
}

/// One step of completing the categories: a parent that is named by the
/// entry `e` but not defined gets the entry's duration.
pub open spec fn fix_entry(m: Map<Seq<char>, TagView>, e: (Seq<char>, TagView)) -> Map<Seq<char>, TagView> {
    match e.1.1 {
        Some(p) => if m.contains_key(p) {
            m
        } else {
            m.insert(p, (e.1.0, None))
        },
        None => m,
    }
}

/// The categories `m` completed with the parents named by the first `k`
/// entries, in order.
pub open spec fn fix_entries(m: Map<Seq<char>, TagView>, es: Seq<(Seq<char>, TagView)>, k: nat) -> Map<
    Seq<char>,
    TagView,
>
    decreases k,
{
    if k == 0 || k > es.len() {
        m
    } else {
        fix_entry(fix_entries(m, es, (k - 1) as nat), es[k - 1])
    }
}

/// The configured categories.
#[derive(Debug, Clone)]
pub struct Tags(pub StrMap<TagData>);

impl Tags {
    /// The categories, by name.
    pub open spec fn map(&self) -> Map<Seq<char>, TagView> {
        tag_views(self.0.map())
    }

    /// No categories.
    pub fn new() -> (r: Self)
        ensures
            r.0@.len() == 0,
            r.0.wf(),
    {
        Tags(StrMap::new())
    }

    /// Defines each parent that some category names but that is not defined,
    /// with the duration of the first category (in name order) naming it.
    pub fn fix(&mut self)
        requires
            old(self).0.wf(),
        ensures
            final(self).0.wf(),
            final(self).map() == fix_entries(
                old(self).map(),
                old(self).0@.map_values(|e: (Seq<char>, TagData)| (e.0, e.1@)),
                old(self).0@.len(),
            ),
    {
        let ghost es = self.0@.map_values(|e: (Seq<char>, TagData)| (e.0, e.1@));
        let ghost m0 = self.map();
        let n = self.0.len();
        let mut named: Vec<(usize, Option<TagRef>)> = Vec::new();
        let mut i: usize = 0;
        while i < n
            invariant
                i <= n == self.0@.len() == es.len(),
                es == self.0@.map_values(|e: (Seq<char>, TagData)| (e.0, e.1@)),
                named@.len() == i,
                forall|j: int|
                    0 <= j < i ==> (#[trigger] named@[j]).0 == es[j].1.0 && match named@[j].1 {
                        Some(p) => es[j].1.1 == Some(p@),
                        None => es[j].1.1.is_none(),
                    },
            decreases n - i,
        {
            let data = self.0.value_at(i);
            let parent = match data.parent() {
                Some(p) => Some(p.clone()),
                None => None,
            };
            named.push((data.dur(), parent));
            i = i + 1;
        }
        i = 0;
        while i < n
            invariant
                i <= n == named@.len() == es.len(),
                self.0.wf(),
                self.map() == fix_entries(m0, es, i as nat),
                forall|j: int|
                    0 <= j < n ==> (#[trigger] named@[j]).0 == es[j].1.0 && match named@[j].1 {
                        Some(p) => es[j].1.1 == Some(p@),
                        None => es[j].1.1.is_none(),
                    },
            decreases n - i,
        {
            let entry = &named[i];
            match &entry.1 {
                Some(parent) => {
                    if !self.0.contains_key(parent) {
                        let ghost before = self.0.map();
                        self.0.insert(parent.clone(), TagData::new(entry.0));
                        assert(tag_views(self.0.map()) =~= tag_views(before).insert(parent@, (entry.0 as nat, None)));
                    }
                },
                None => {},
            }
            i = i + 1;
        }
    }
}

} // verus!
