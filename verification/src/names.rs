//! Sets of string identifiers.
//!
//! The runtime "unlocked" sets — unlocked node ids, capability flags,
//! research tabs, recipe ids — are monotonic: identifiers are only ever
//! added, never removed. [`NameSet`] keeps them in insertion order without
//! duplicates, so a save file round-trips them deterministically.

use vstd::prelude::*;
use crate::strutil::str_eq;

verus! {

/// `s` with later repetitions of an identifier dropped: the first
/// occurrence keeps its place.
pub open spec fn dedup(s: Seq<Seq<char>>) -> Seq<Seq<char>>
    decreases s.len(),
{
    if s.len() == 0 {
        Seq::empty()
    } else {
        let d = dedup(s.drop_last());
        if d.contains(s.last()) {
            d
        } else {
            d.push(s.last())
        }
    }
}

/// An insertion-ordered set of identifiers; identifiers are only added.
pub struct NameSet {
    items: Vec<String>,
}

impl View for NameSet {
    type V = Seq<Seq<char>>;

    closed spec fn view(&self) -> Seq<Seq<char>> {
        self.items.deep_view()
    }
}

impl NameSet {
    /// No identifier appears twice.
    pub open spec fn wf(self) -> bool {
        forall|i: int, j: int| 0 <= i < j < self@.len() ==> self@[i] != self@[j]
    }

    /// Whether `id` is a member.
    pub open spec fn has(self, id: Seq<char>) -> bool {
        self@.contains(id)
    }

    /// The empty set.
    pub fn new() -> (s: NameSet)
        ensures
            s@ == Seq::<Seq<char>>::empty(),
            s.wf(),
    {
        NameSet { items: Vec::new() }
    }

    /// The members of `names`, in order of first occurrence.
    pub fn from_names(names: &Vec<String>) -> (s: NameSet)
        ensures
            s@ == dedup(names.deep_view()),
            s.wf(),
    {
        let ghost dv = names.deep_view();
        let mut s = NameSet::new();
        let n = names.len();
        let mut i: usize = 0;
        proof {
            assert(dv.take(0) =~= Seq::<Seq<char>>::empty());
        }
        while i < n
            invariant
                i <= n,
                n == names.len(),
                dv == names.deep_view(),
                s@ == dedup(dv.take(i as int)),
                s.wf(),
            decreases n - i,
        {
            s.insert(names[i].as_str());
            proof {
                assert(dv.take(i + 1).drop_last() =~= dv.take(i as int));
                assert(dv.take(i + 1).last() == dv[i as int]);
            }
            i += 1;
        }
        proof {
            assert(dv.take(n as int) =~= dv);
        }
        s
    }

    /// How many identifiers are members.
    pub fn len(&self) -> (n: usize)
        ensures
            n == self@.len(),
    {
        self.items.len()
    }

    /// Whether `id` is a member.
    pub fn contains(&self, id: &str) -> (r: bool)
        ensures
            r == self.has(id@),
    {
        let n = self.items.len();
        let mut i: usize = 0;
        while i < n
            invariant
                i <= n,
                n == self.items.len(),
                forall|j: int| 0 <= j < i ==> self@[j] != id@,
            decreases n - i,
        {
            if str_eq(self.items[i].as_str(), id) {
                proof {
                    assert(self@[i as int] == id@);
                }
                return true;
            }
            i += 1;
        }
        false
    }

    /// Add `id`; adding a member again changes nothing.
    pub fn insert(&mut self, id: &str)
        ensures
            final(self)@ == if old(self).has(id@) {
                old(self)@
            } else {
                old(self)@.push(id@)
            },
            old(self).wf() ==> final(self).wf(),
    {
        if !self.contains(id) {
            self.items.push(id.to_owned());
            proof {
                assert(self@ =~= old(self)@.push(id@));
            }
        }
    }

    /// The first member added, if any.
    pub fn first(&self) -> (r: Option<&String>)
        ensures
            match r {
                Some(id) => self@.len() > 0 && id@ == self@[0],
                None => self@.len() == 0,
            },
    {
        if self.items.len() > 0 {
            Some(&self.items[0])
        } else {
            None
        }
    }

    /// The members, in insertion order, for display or saving.
    pub fn to_names(&self) -> (r: Vec<String>)
        ensures
            r.deep_view() == self@,
    {
        let n = self.items.len();
        let mut r: Vec<String> = Vec::new();
        let mut i: usize = 0;
        while i < n
            invariant
                i <= n,
                n == self.items.len(),
                r.deep_view() == self@.take(i as int),
            decreases n - i,
        {
            let ghost before = r.deep_view();
            let x = self.items[i].clone();
            proof {
                assert(self@[i as int] == self.items@[i as int].deep_view());
                assert(x.deep_view() == self@[i as int]);
            }
            r.push(x);
            proof {
                assert(r.deep_view() =~= before.push(self@[i as int]));
                assert(before.push(self@[i as int]) =~= self@.take(i + 1));
            }
            i += 1;
        }
        proof {
            assert(self@.take(n as int) =~= self@);
        }
        r
    }
}

/// The write-once-true capability switches of a session: named boolean
/// flags, unlocked research tabs, and recipe ids unlocked by research.
pub struct Capabilities {
    pub flags: NameSet,
    pub tabs: NameSet,
    pub recipes: NameSet,
}

impl Capabilities {
    /// Every member set is free of duplicates.
    pub open spec fn wf(self) -> bool {
        self.flags.wf() && self.tabs.wf() && self.recipes.wf()
    }

    /// A session with nothing unlocked.
    pub fn new() -> (c: Capabilities)
        ensures
            c.flags@ == Seq::<Seq<char>>::empty(),
            c.tabs@ == Seq::<Seq<char>>::empty(),
            c.recipes@ == Seq::<Seq<char>>::empty(),
            c.wf(),
    {
        Capabilities { flags: NameSet::new(), tabs: NameSet::new(), recipes: NameSet::new() }
    }
}

} // verus!
