//! A map keyed by strings.

use crate::string_set::clone_strings;
use crate::text::{same_text, views};
use vstd::prelude::*;

verus! {

/// A map from strings to `V`, viewed as the map from their texts to the views of the values.
/// No key is held twice.
#[derive(Debug)]
pub struct StringMap<V: View> {
    keys: Vec<String>,
    values: Vec<V>,
}

impl<V: View> View for StringMap<V> {
    type V = Map<Seq<char>, V::V>;

    closed spec fn view(&self) -> Map<Seq<char>, V::V> {
        Map::new(
            |k: Seq<char>| views(self.keys@).contains(k),
            |k: Seq<char>| views(self.values@)[views(self.keys@).index_of(k)],
        )
    }
}

impl<V: View> StringMap<V> {
    #[verifier::type_invariant]
    spec fn paired(self) -> bool {
        &&& views(self.keys@).no_duplicates()
        &&& self.keys@.len() == self.values@.len()
    }

    /// The empty map.
    pub fn new() -> (r: Self)
        ensures
            r@ == Map::<Seq<char>, V::V>::empty(),
    {
        let r = StringMap { keys: Vec::new(), values: Vec::new() };
        assert(r@ =~= Map::<Seq<char>, V::V>::empty());
        r
    }

    /// The place of `key`, or the number of keys where it is missing.
    fn place(&self, key: &str) -> (r: usize)
        ensures
            r <= self.keys@.len(),
            r < self.keys@.len() ==> self.keys@[r as int]@ == key@ && self@.contains_key(key@),
            r == self.keys@.len() ==> !self@.contains_key(key@),
    {
        let mut i: usize = 0;
        while i < self.keys.len()
            invariant
                i <= self.keys.len(),
                forall|j: int| 0 <= j < i ==> #[trigger] self.keys@[j]@ != key@,
            decreases self.keys.len() - i,
        {
            if same_text(self.keys[i].as_str(), key) {
                assert(views(self.keys@)[i as int] == key@);
                return i;
            }
            i = i + 1;
        }
        assert forall|j: int| 0 <= j < views(self.keys@).len() implies views(self.keys@)[j]
            != key@ by {
            assert(self.keys@[j]@ != key@);
        }
        i
    }

    /// Whether `key` has a value.
    pub fn contains_key(&self, key: &str) -> (r: bool)
        ensures
            r == self@.contains_key(key@),
    {
        self.place(key) < self.keys.len()
    }

    /// The value of `key`.
    pub fn get(&self, key: &str) -> (r: Option<&V>)
        ensures
            r is Some == self@.contains_key(key@),
            r matches Some(v) ==> v@ == self@[key@],
    {
        proof {
            use_type_invariant(self);
        }
        let i = self.place(key);
        if i < self.keys.len() {
            proof {
                self.lemma_at(i as int);
            }
            Some(&self.values[i])
        } else {
            None
        }
    }

    /// The value in a place is the value of the key in that place.
    proof fn lemma_at(&self, i: int)
        requires
            self.paired(),
            0 <= i < self.keys@.len(),
        ensures
            self@.contains_key(self.keys@[i]@),
            self@[self.keys@[i]@] == self.values@[i]@,
    {
        let k = self.keys@[i]@;
        assert(views(self.keys@)[i] == k);
        assert(views(self.keys@).contains(k));
        assert(views(self.keys@).index_of(k) == i);
        assert(views(self.values@)[i] == self.values@[i]@);
    }

    /// Gives `key` the value `value`, in place of any it had.
    pub fn insert(&mut self, key: String, value: V)
        ensures
            final(self)@ == old(self)@.insert(key@, value@),
    {
        proof {
            use_type_invariant(&*self);
        }
        let i = self.place(key.as_str());
        let ghost k = key@;
        let ghost v = value@;
        let ghost start = *self;
        let mut both = StringMap { keys: Vec::new(), values: Vec::new() };
        std::mem::swap(&mut both, self);
        let StringMap { keys: mut new_keys, values: mut new_values } = both;
        if i < new_keys.len() {
            new_values.set(i, value);
        } else {
            new_keys.push(key);
            new_values.push(value);
        }
        proof {
            let n = start.keys@.len() as int;
            if i == n {
                assert(views(new_keys@) == views(start.keys@).push(k));
                assert forall|a: int, b: int|
                    0 <= a < new_keys.len() && 0 <= b < new_keys.len() && a != b implies views(
                    new_keys@,
                )[a] != views(new_keys@)[b] by {
                    if a == n {
                        assert(views(start.keys@).contains(views(start.keys@)[b]));
                    }
                    if b == n {
                        assert(views(start.keys@).contains(views(start.keys@)[a]));
                    }
                }
            } else {
                assert(new_keys@ == start.keys@);
            }
        }
        *self = StringMap { keys: new_keys, values: new_values };
        proof {
            lemma_inserted(start, *self, i as int, k, v);
        }
    }

    /// The number of keys.
    pub fn len(&self) -> (r: usize)
        ensures
            r == self@.len(),
            self@.dom().finite(),
    {
        proof {
            use_type_invariant(self);
            views(self.keys@).unique_seq_to_set();
            vstd::seq_lib::seq_to_set_is_finite(views(self.keys@));
            assert(self@.dom() =~= views(self.keys@).to_set());
        }
        self.keys.len()
    }

    /// Whether the map holds nothing.
    pub fn is_empty(&self) -> (r: bool)
        ensures
            r == (self@ == Map::<Seq<char>, V::V>::empty()),
    {
        proof {
            if self.keys.len() == 0 {
                assert(self@ =~= Map::<Seq<char>, V::V>::empty());
            } else {
                assert(views(self.keys@).contains(views(self.keys@)[0]));
                assert(self@.contains_key(views(self.keys@)[0]));
            }
        }
        self.keys.len() == 0
    }

    /// The keys, each once.
    pub fn keys(&self) -> (r: Vec<String>)
        ensures
            views(r@).to_set() == self@.dom(),
            views(r@).no_duplicates(),
    {
        proof {
            use_type_invariant(self);
            assert(self@.dom() =~= views(self.keys@).to_set());
        }
        clone_strings(&self.keys)
    }
}

impl Clone for StringMap<String> {
    fn clone(&self) -> (r: Self)
        ensures
            r@ == self@,
    {
        proof {
            use_type_invariant(self);
        }
        let keys = clone_strings(&self.keys);
        let values = clone_strings(&self.values);
        proof {
            assert(keys@.len() == views(keys@).len() && values@.len() == views(values@).len());
            assert(self.keys@.len() == views(self.keys@).len());
            assert(self.values@.len() == views(self.values@).len());
        }
        StringMap { keys, values }
    }
}

/// What the view of a map becomes when a key is added at the end or its value replaced.
proof fn lemma_inserted<V: View>(
    start: StringMap<V>,
    end: StringMap<V>,
    i: int,
    k: Seq<char>,
    v: V::V,
)
    requires
        start.paired(),
        end.paired(),
        0 <= i <= start.keys@.len(),
        i < start.keys@.len() ==> {
            &&& end.keys@ == start.keys@
            &&& start.keys@[i]@ == k
            &&& end.values@.len() == start.values@.len()
            &&& end.values@[i]@ == v
            &&& forall|j: int| 0 <= j < start.keys@.len() && j != i ==> end.values@[j] == start.values@[j]
        },
        i == start.keys@.len() ==> {
            &&& !start@.contains_key(k)
            &&& end.keys@.len() == i + 1
            &&& end.keys@[i]@ == k
            &&& end.values@[i]@ == v
            &&& forall|j: int| 0 <= j < i ==> end.keys@[j] == start.keys@[j] && end.values@[j] == start.values@[j]
        },
    ensures
        end@ == start@.insert(k, v),
{
    end.lemma_at(i);
    assert forall|x: Seq<char>| #[trigger] end@.contains_key(x) == start@.insert(k, v).contains_key(x) by {
        if end@.contains_key(x) {
            let j = views(end.keys@).index_of(x);
            assert(views(end.keys@)[j] == x);
            if j != i {
                assert(start.keys@[j]@ == x);
                start.lemma_at(j);
            }
        }
        if start@.contains_key(x) {
            let j = views(start.keys@).index_of(x);
            assert(views(start.keys@)[j] == x);
            assert(end.keys@[j]@ == x);
            end.lemma_at(j);
        }
    }
    assert forall|x: Seq<char>| #[trigger] end@.contains_key(x) implies end@[x] == start@.insert(k, v)[x] by {
        let j = views(end.keys@).index_of(x);
        assert(views(end.keys@)[j] == x);
        end.lemma_at(j);
        if j != i {
            assert(start.keys@[j]@ == x);
            start.lemma_at(j);
            assert(views(end.keys@)[i] == k);
        }
    }
    assert(end@ =~= start@.insert(k, v));
}

} // verus!
