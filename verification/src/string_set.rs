//! A set of strings that remembers the order in which its members came.

use vstd::prelude::*;
use vstd::hash_set::StringHashSet;
use crate::text::views;

verus! {

/// A finite set of strings. Its members can be listed, in the order in which
/// each was first inserted.
pub struct StringSet {
    items: Vec<String>,
    members: StringHashSet,
}

impl View for StringSet {
    type V = Set<Seq<char>>;

    closed spec fn view(&self) -> Set<Seq<char>> {
        views(self.items@).to_set()
    }
}

impl StringSet {
    #[verifier::type_invariant]
    spec fn well_formed(self) -> bool {
        &&& self.members@ == views(self.items@).to_set()
        &&& views(self.items@).no_duplicates()
    }

    /// The members in the order of their first insertion.
    pub closed spec fn order(&self) -> Seq<Seq<char>> {
        views(self.items@)
    }

    /// The set without members.
    pub fn new() -> (s: Self)
        ensures
            s@ == Set::<Seq<char>>::empty(),
            s.order() == Seq::<Seq<char>>::empty(),
    {
        let items: Vec<String> = Vec::new();
        let members = StringHashSet::new();
        proof {
            assert(views(items@).to_set() =~= Set::<Seq<char>>::empty());
        }
        StringSet { items, members }
    }

    /// Adds `value`; says whether it was new.
    pub fn insert(&mut self, value: String) -> (fresh: bool)
        ensures
            final(self)@ == old(self)@.insert(value@),
            fresh == !old(self)@.contains(value@),
            final(self).order() == if fresh {
                old(self).order().push(value@)
            } else {
                old(self).order()
            },
    {
        let mut taken = StringSet::new();
        std::mem::swap(self, &mut taken);
        proof {
            use_type_invariant(&taken);
        }
        let StringSet { mut items, mut members } = taken;
        let ghost before = views(items@);
        let fresh = !members.contains(value.as_str());
        if fresh {
            let copy = value.clone();
            members.insert(copy);
            items.push(value);
            proof {
                assert(views(items@) =~= before.push(value@));
                before.lemma_push_to_set_commute(value@);
            }
        }
        *self = StringSet { items, members };
        fresh
    }

    /// Whether `value` is a member.
    pub fn contains(&self, value: &str) -> (r: bool)
        ensures
            r == self@.contains(value@),
    {
        proof {
            use_type_invariant(self);
        }
        self.members.contains(value)
    }

    /// The number of members.
    pub fn len(&self) -> (n: usize)
        ensures
            n == self@.len(),
            n == self.order().len(),
            self@.finite(),
    {
        proof {
            use_type_invariant(self);
            views(self.items@).unique_seq_to_set();
            vstd::seq_lib::seq_to_set_is_finite(views(self.items@));
        }
        self.items.len()
    }

    /// Whether there is no member.
    pub fn is_empty(&self) -> (r: bool)
        ensures
            r == self@.is_empty(),
            r == (self.order().len() == 0),
    {
        let n = self.len();
        proof {
            if n == 0 {
                assert(self@ =~= Set::<Seq<char>>::empty());
            }
        }
        n == 0
    }

    /// The members, each once, in the order of their first insertion.
    pub fn items(&self) -> (v: &Vec<String>)
        ensures
            views(v@) == self.order(),
            views(v@).no_duplicates(),
            views(v@).to_set() == self@,
    {
        proof {
            use_type_invariant(self);
        }
        &self.items
    }

    /// A set with the same members in the same order.
    pub fn duplicate(&self) -> (s: Self)
        ensures
            s@ == self@,
            s.order() == self.order(),
    {
        let items = self.items();
        let mut s = StringSet::new();
        let mut i: usize = 0;
        while i < items.len()
            invariant
                i <= items.len(),
                views(items@).no_duplicates(),
                s.order() == views(items@).take(i as int),
                s@ == views(items@).take(i as int).to_set(),
            decreases items.len() - i,
        {
            let ghost done = views(items@).take(i as int);
            proof {
                if done.contains(items@[i as int]@) {
                    let k = choose|k: int| 0 <= k < done.len() && done[k] == items@[i as int]@;
                    assert(views(items@)[k] == views(items@)[i as int]);
                }
                done.lemma_push_to_set_commute(items@[i as int]@);
            }
            s.insert(items[i].clone());
            i = i + 1;
        }
        assert(views(items@).take(items@.len() as int) =~= views(items@));
        s
    }

    /// The set of the strings of `values`; what occurs twice is kept once.
    pub fn from_vec(values: Vec<String>) -> (s: Self)
        ensures
            s@ == views(values@).to_set(),
    {
        let mut s = StringSet::new();
        let mut i: usize = 0;
        while i < values.len()
            invariant
                i <= values.len(),
                s@ == views(values@).take(i as int).to_set(),
            decreases values.len() - i,
        {
            let ghost done = views(values@).take(i as int);
            let item = values[i].clone();
            s.insert(item);
            proof {
                assert(views(values@).take(i + 1) =~= done.push(values@[i as int]@));
                done.lemma_push_to_set_commute(values@[i as int]@);
            }
            i = i + 1;
        }
        assert(views(values@).take(values@.len() as int) =~= views(values@));
        s
    }
}

} // verus!
