//! A set of strings.

use crate::text::{same_text, views};
use vstd::prelude::*;

verus! {

/// A set of strings, viewed as the set of their texts. No text is held twice.
#[derive(Debug)]
pub struct StringSet {
    items: Vec<String>,
}

impl View for StringSet {
    type V = Set<Seq<char>>;

    closed spec fn view(&self) -> Set<Seq<char>> {
        views(self.items@).to_set()
    }
}

impl StringSet {
    #[verifier::type_invariant]
    spec fn distinct(self) -> bool {
        views(self.items@).no_duplicates()
    }

    /// The empty set.
    pub fn new() -> (r: Self)
        ensures
            r@ == Set::<Seq<char>>::empty(),
    {
        let r = StringSet { items: Vec::new() };
        assert(r@ =~= Set::<Seq<char>>::empty());
        r
    }

    /// Whether `item` is in the set.
    pub fn contains(&self, item: &str) -> (r: bool)
        ensures
            r == self@.contains(item@),
    {
        let mut i: usize = 0;
        while i < self.items.len()
            invariant
                i <= self.items.len(),
                forall|j: int| 0 <= j < i ==> #[trigger] self.items@[j]@ != item@,
            decreases self.items.len() - i,
        {
            if same_text(self.items[i].as_str(), item) {
                assert(views(self.items@)[i as int] == item@);
                return true;
            }
            i = i + 1;
        }
        assert forall|j: int| 0 <= j < views(self.items@).len() implies views(self.items@)[j]
            != item@ by {
            assert(self.items@[j]@ != item@);
        }
        false
    }

    /// Adds `item`, and says whether it was missing.
    pub fn insert(&mut self, item: String) -> (r: bool)
        ensures
            final(self)@ == old(self)@.insert(item@),
            r == !old(self)@.contains(item@),
    {
        proof {
            use_type_invariant(&*self);
        }
        if self.contains(item.as_str()) {
            assert(self@ =~= self@.insert(item@));
            return false;
        }
        let ghost text = item@;
        let ghost before = self.items@;
        let mut items: Vec<String> = Vec::new();
        std::mem::swap(&mut items, &mut self.items);
        items.push(item);
        proof {
            assert(views(items@) == views(before).push(text));
            assert forall|i: int, j: int|
                0 <= i < items.len() && 0 <= j < items.len() && i != j implies views(items@)[i]
                != views(items@)[j] by {
                if i == before.len() {
                    assert(views(before).contains(views(before)[j]));
                }
                if j == before.len() {
                    assert(views(before).contains(views(before)[i]));
                }
            }
            assert(views(items@).to_set() =~= views(before).to_set().insert(text)) by {
                assert forall|s: Seq<char>|
                    views(items@).contains(s) == (views(before).contains(s) || s == text) by {
                    if views(before).contains(s) {
                        let j = views(before).index_of(s);
                        assert(views(items@)[j] == s);
                    }
                    if s == text {
                        assert(views(items@)[before.len() as int] == s);
                    }
                    if views(items@).contains(s) {
                        let j = views(items@).index_of(s);
                        if j < before.len() {
                            assert(views(before)[j] == s);
                        }
                    }
                }
            }
        }
        self.items = items;
        true
    }

    /// The number of texts in the set.
    pub fn len(&self) -> (r: usize)
        ensures
            r == self@.len(),
            self@.finite(),
    {
        proof {
            use_type_invariant(self);
            views(self.items@).unique_seq_to_set();
            vstd::seq_lib::seq_to_set_is_finite(views(self.items@));
        }
        self.items.len()
    }

    /// Whether the set holds nothing.
    pub fn is_empty(&self) -> (r: bool)
        ensures
            r == (self@ == Set::<Seq<char>>::empty()),
    {
        proof {
            if self.items.len() == 0 {
                assert(self@ =~= Set::<Seq<char>>::empty());
            } else {
                assert(views(self.items@).contains(views(self.items@)[0]));
                assert(self@.contains(views(self.items@)[0]));
            }
        }
        self.items.len() == 0
    }

    /// The texts of the set, each once.
    pub fn to_vec(&self) -> (r: Vec<String>)
        ensures
            views(r@).to_set() == self@,
            views(r@).no_duplicates(),
    {
        proof {
            use_type_invariant(self);
        }
        let r = clone_strings(&self.items);
        r
    }

    /// Adds every text of `other`.
    pub fn extend(&mut self, other: &StringSet)
        ensures
            final(self)@ == old(self)@.union(other@),
    {
        let items = other.to_vec();
        self.extend_from(&items);
        assert(self@ =~= old(self)@.union(other@));
    }

    /// Adds every text of the list.
    pub fn extend_from(&mut self, items: &Vec<String>)
        ensures
            final(self)@ == old(self)@.union(views(items@).to_set()),
    {
        let ghost start = self@;
        let mut i: usize = 0;
        assert(self@ =~= start.union(views(items@).take(0).to_set()));
        while i < items.len()
            invariant
                i <= items.len(),
                self@ == start.union(views(items@).take(i as int).to_set()),
            decreases items.len() - i,
        {
            self.insert(items[i].clone());
            proof {
                lemma_take_insert(views(items@), i as int);
                assert(self@ =~= start.union(views(items@).take(i + 1).to_set()));
            }
            i = i + 1;
        }
        assert(views(items@).take(items.len() as int) == views(items@));
    }

    /// The texts of the list, as a set.
    pub fn from_vec(items: &Vec<String>) -> (r: Self)
        ensures
            r@ == views(items@).to_set(),
    {
        let mut r = StringSet::new();
        r.extend_from(items);
        assert(r@ =~= views(items@).to_set());
        r
    }

    /// The texts of this set that `other` does not hold.
    pub fn difference(&self, other: &StringSet) -> (r: Self)
        ensures
            r@ == self@.difference(other@),
    {
        let items = self.to_vec();
        let mut r = StringSet::new();
        let mut i: usize = 0;
        assert(r@ =~= views(items@).take(0).to_set().difference(other@));
        while i < items.len()
            invariant
                i <= items.len(),
                r@ == views(items@).take(i as int).to_set().difference(other@),
            decreases items.len() - i,
        {
            let missing = !other.contains(items[i].as_str());
            if missing {
                r.insert(items[i].clone());
            }
            proof {
                lemma_take_insert(views(items@), i as int);
                assert(r@ =~= views(items@).take(i + 1).to_set().difference(other@));
            }
            i = i + 1;
        }
        assert(views(items@).take(items.len() as int) == views(items@));
        r
    }

    /// Whether every text of this set is in `other`.
    pub fn is_subset(&self, other: &StringSet) -> (r: bool)
        ensures
            r == self@.subset_of(other@),
    {
        let mut i: usize = 0;
        while i < self.items.len()
            invariant
                i <= self.items.len(),
                forall|j: int| 0 <= j < i ==> other@.contains(#[trigger] self.items@[j]@),
            decreases self.items.len() - i,
        {
            if !other.contains(self.items[i].as_str()) {
                assert(views(self.items@)[i as int] == self.items@[i as int]@);
                assert(self@.contains(self.items@[i as int]@));
                return false;
            }
            i = i + 1;
        }
        assert forall|s: Seq<char>| self@.contains(s) implies other@.contains(s) by {
            let j = views(self.items@).index_of(s);
            assert(views(self.items@)[j] == s);
            assert(other@.contains(self.items@[j]@));
        }
        true
    }

    /// Whether the two sets hold the same texts.
    pub fn same(&self, other: &StringSet) -> (r: bool)
        ensures
            r == (self@ == other@),
    {
        let r = self.is_subset(other) && other.is_subset(self);
        assert(r ==> self@ =~= other@);
        r
    }
}

impl Clone for StringSet {
    fn clone(&self) -> (r: Self)
        ensures
            r@ == self@,
    {
        proof {
            use_type_invariant(self);
        }
        StringSet { items: clone_strings(&self.items) }
    }
}

impl PartialEq for StringSet {
    fn eq(&self, other: &Self) -> (r: bool) {
        self.same(other)
    }
}

impl vstd::std_specs::cmp::PartialEqSpecImpl for StringSet {
    open spec fn obeys_eq_spec() -> bool {
        true
    }

    open spec fn eq_spec(&self, other: &Self) -> bool {
        self@ == other@
    }
}

impl Eq for StringSet {

}

/// A copy of a list of strings.
pub fn clone_strings(items: &Vec<String>) -> (r: Vec<String>)
    ensures
        views(r@) == views(items@),
{
    let mut r: Vec<String> = Vec::new();
    let mut i: usize = 0;
    while i < items.len()
        invariant
            i <= items.len(),
            views(r@) == views(items@).take(i as int),
        decreases items.len() - i,
    {
        let ghost before = r@;
        r.push(items[i].clone());
        assert(views(r@) == views(before).push(items@[i as int]@));
        assert(views(items@).take(i + 1) == views(items@).take(i as int).push(items@[i as int]@));
        i = i + 1;
    }
    assert(views(items@).take(items.len() as int) == views(items@));
    r
}

/// Lengthening a prefix by one adds one element to its set.
pub proof fn lemma_take_insert<T>(s: Seq<T>, i: int)
    requires
        0 <= i < s.len(),
    ensures
        s.take(i + 1).to_set() == s.take(i).to_set().insert(s[i]),
{
    assert forall|x: T| #[trigger]
        s.take(i + 1).to_set().contains(x) == s.take(i).to_set().insert(s[i]).contains(x) by {
        if s.take(i).contains(x) {
            let j = s.take(i).index_of(x);
            assert(s.take(i + 1)[j] == x);
        }
        if x == s[i] {
            assert(s.take(i + 1)[i] == x);
        }
        if s.take(i + 1).contains(x) {
            let j = s.take(i + 1).index_of(x);
            if j < i {
                assert(s.take(i)[j] == x);
            }
        }
    }
    assert(s.take(i + 1).to_set() =~= s.take(i).to_set().insert(s[i]));
}

} // verus!
