//! A growing set of normalised keys.
use vstd::prelude::*;

verus! {

/// A set of keys held as a list of distinct strings.
///
/// vstd specifies `HashSet` only for keys that obey its key model, which
/// `String` does not, so membership here is a scan of the list: proved, but
/// linear in the number of keys.
#[derive(Debug)]
pub struct KeySet {
    keys: Vec<String>,
}

impl View for KeySet {
    type V = Set<Seq<char>>;

    closed spec fn view(&self) -> Set<Seq<char>> {
        Set::new(|k: Seq<char>| exists|i: int| 0 <= i < self.keys@.len() && self.keys@[i]@ == k)
    }
}

impl KeySet {
    /// The keys are pairwise distinct.
    pub closed spec fn wf(&self) -> bool {
        forall|i: int, j: int|
            0 <= i < j < self.keys@.len() ==> self.keys@[i]@ != self.keys@[j]@
    }

    /// An empty set.
    pub fn new() -> (s: KeySet)
        ensures
            s.wf(),
            s@ == Set::<Seq<char>>::empty(),
    {
        let s = KeySet { keys: Vec::new() };
        assert(s@ =~= Set::<Seq<char>>::empty());
        s
    }

    /// Whether `key` is in the set.
    pub fn contains(&self, key: &String) -> (r: bool)
        ensures
            r == self@.contains(key@),
    {
        let mut i: usize = 0;
        while i < self.keys.len()
            invariant
                i <= self.keys@.len(),
                forall|j: int| 0 <= j < i ==> self.keys@[j]@ != key@,
            decreases self.keys@.len() - i,
        {
            if self.keys[i] == *key {
                return true;
            }
            i = i + 1;
        }
        false
    }

    /// Adds `key`; returns whether it was not in the set before.
    pub fn insert(&mut self, key: String) -> (r: bool)
        requires
            old(self).wf(),
        ensures
            final(self).wf(),
            final(self)@ == old(self)@.insert(key@),
            r == !old(self)@.contains(key@),
    {
        if self.contains(&key) {
            return false;
        }
        let ghost k = key@;
        let ghost before = self.keys@;
        self.keys.push(key);
        assert(self.keys@[before.len() as int]@ == k);
        assert forall|x: Seq<char>| self@.contains(x) <==> old(self)@.insert(k).contains(x) by {
            if old(self)@.contains(x) {
                let i = choose|i: int| 0 <= i < before.len() && before[i]@ == x;
                assert(self.keys@[i]@ == x);
            }
            if self@.contains(x) && x != k {
                let i = choose|i: int| 0 <= i < self.keys@.len() && self.keys@[i]@ == x;
                assert(before[i]@ == x);
            }
        }
        assert(self@ =~= old(self)@.insert(k));
        true
    }

    /// The number of keys in the set.
    pub fn len(&self) -> (n: usize)
        requires
            self.wf(),
        ensures
            n == self@.len(),
    {
        proof {
            self.lemma_len();
        }
        self.keys.len()
    }

    proof fn lemma_len(&self)
        requires
            self.wf(),
        ensures
            self@.finite(),
            self@.len() == self.keys@.len(),
    {
        let vs = self.keys@.map_values(|k: String| k@);
        assert forall|x: Seq<char>| self@.contains(x) <==> vs.to_set().contains(x) by {
            if self@.contains(x) {
                let i = choose|i: int| 0 <= i < self.keys@.len() && self.keys@[i]@ == x;
                assert(vs[i] == x);
            }
            if vs.contains(x) {
                let i = choose|i: int| 0 <= i < vs.len() && vs[i] == x;
                assert(self.keys@[i]@ == x);
            }
        }
        assert(self@ =~= vs.to_set());
        assert(vs.no_duplicates());
        vs.unique_seq_to_set();
    }
}

} // verus!
