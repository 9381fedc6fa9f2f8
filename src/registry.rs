use vstd::prelude::*;
use crate::text::copy_text;

verus! {

/// The streams in flight, each with its cancellation flag.
pub struct StreamRegistry {
    entries: Vec<(String, bool)>,
    flags: Ghost<Map<Seq<char>, bool>>,
}

impl View for StreamRegistry {
    type V = Map<Seq<char>, bool>;

    closed spec fn view(&self) -> Map<Seq<char>, bool> {
        self.flags@
    }
}

impl StreamRegistry {
    /// Ids are unique, and the flags are those that the entries hold.
    pub closed spec fn wf(&self) -> bool {
        &&& forall|i: int, j: int| 0 <= i < j < self.entries@.len()
            ==> self.entries@[i].0@ != self.entries@[j].0@
        &&& forall|i: int| 0 <= i < self.entries@.len()
            ==> #[trigger] self.flags@.contains_key(self.entries@[i].0@)
                && self.flags@[self.entries@[i].0@] == self.entries@[i].1
        &&& forall|k: Seq<char>| #[trigger] self.flags@.contains_key(k)
            ==> exists|i: int| 0 <= i < self.entries@.len() && self.entries@[i].0@ == k
    }

    pub fn new() -> (r: StreamRegistry)
        ensures
            r.wf(),
            r@ == Map::<Seq<char>, bool>::empty(),
    {
        StreamRegistry { entries: Vec::new(), flags: Ghost(Map::empty()) }
    }

    fn find(&self, id: &str) -> (r: Option<usize>)
        ensures
            r matches Some(i) ==> i < self.entries@.len() && self.entries@[i as int].0@ == id@,
            r is None ==> forall|j: int| 0 <= j < self.entries@.len() ==> self.entries@[j].0@ != id@,
    {
        let mut i: usize = 0;
        while i < self.entries.len()
            invariant
                i <= self.entries@.len(),
                forall|j: int| 0 <= j < i ==> self.entries@[j].0@ != id@,
            decreases self.entries@.len() - i,
        {
            if crate::text::same_text(self.entries[i].0.as_str(), id) {
                return Some(i);
            }
            i = i + 1;
        }
        None
    }

    /// Whether `id` is registered.
    pub fn contains(&self, id: &str) -> (r: bool)
        requires
            self.wf(),
        ensures
            r == self@.contains_key(id@),
    {
        let r = self.find(id);
        proof {
            if r is None && self.flags@.contains_key(id@) {
                let j = choose|j: int| 0 <= j < self.entries@.len() && self.entries@[j].0@ == id@;
            }
            if r is Some {
                assert(self.flags@.contains_key(self.entries@[r->0 as int].0@));
            }
        }
        r.is_some()
    }

    /// Registers `id` with a cleared flag.
    pub fn register(&mut self, id: &str)
        requires
            old(self).wf(),
        ensures
            final(self).wf(),
            final(self)@ == old(self)@.insert(id@, false),
    {
        match self.find(id) {
            Some(i) => {
                let ghost before = self.entries@;
                let key = copy_text(id);
                self.entries.set(i, (key, false));
                self.flags = Ghost(self.flags@.insert(id@, false));
                assert forall|a: int| 0 <= a < self.entries@.len() implies self.entries@[a].0@ == before[a].0@ by {
                    if a != i { assert(self.entries@[a] == before[a]); }
                }
                assert forall|a: int| 0 <= a < self.entries@.len() && a != i implies self.entries@[a] == before[a] by {}
                assert forall|k: Seq<char>| #[trigger] self.flags@.contains_key(k)
                    implies exists|j: int| 0 <= j < self.entries@.len() && self.entries@[j].0@ == k by {
                    if k != id@ {
                        let j = choose|j: int| 0 <= j < old(self).entries@.len() && old(self).entries@[j].0@ == k;
                        assert(self.entries@[j].0@ == k);
                    } else {
                        assert(self.entries@[i as int].0@ == k);
                    }
                }
            },
            None => {
                let ghost before = self.entries@;
                let key = copy_text(id);
                self.entries.push((key, false));
                self.flags = Ghost(self.flags@.insert(id@, false));
                assert forall|a: int| 0 <= a < before.len() implies self.entries@[a] == before[a] by {}
                assert forall|k: Seq<char>| #[trigger] self.flags@.contains_key(k)
                    implies exists|j: int| 0 <= j < self.entries@.len() && self.entries@[j].0@ == k by {
                    if k != id@ {
                        let j = choose|j: int| 0 <= j < old(self).entries@.len() && old(self).entries@[j].0@ == k;
                        assert(self.entries@[j].0@ == k);
                    } else {
                        assert(self.entries@[old(self).entries@.len() as int].0@ == k);
                    }
                }
            },
        }
    }

    /// Removes `id`; afterwards it is not registered.
    pub fn unregister(&mut self, id: &str)
        requires
            old(self).wf(),
        ensures
            final(self).wf(),
            final(self)@ == old(self)@.remove(id@),
            !final(self)@.contains_key(id@),
    {
        match self.find(id) {
            Some(i) => {
                let ghost before = self.entries@;
                self.entries.remove(i);
                self.flags = Ghost(self.flags@.remove(id@));
                assert forall|a: int| 0 <= a < self.entries@.len() implies
                    #[trigger] self.flags@.contains_key(self.entries@[a].0@)
                    && self.flags@[self.entries@[a].0@] == self.entries@[a].1 by {
                    if a < i {
                        assert(self.entries@[a] == before[a]);
                    } else {
                        assert(self.entries@[a] == before[a + 1]);
                    }
                }
                assert forall|k: Seq<char>| #[trigger] self.flags@.contains_key(k)
                    implies exists|j: int| 0 <= j < self.entries@.len() && self.entries@[j].0@ == k by {
                    let j = choose|j: int| 0 <= j < before.len() && before[j].0@ == k;
                    if j < i {
                        assert(self.entries@[j] == before[j]);
                    } else {
                        assert(j != i);
                        assert(self.entries@[j - 1] == before[j]);
                    }
                }
                assert forall|a: int, b: int| 0 <= a < b < self.entries@.len()
                    implies self.entries@[a].0@ != self.entries@[b].0@ by {
                    let a2 = if a < i { a } else { a + 1 };
                    let b2 = if b < i { b } else { b + 1 };
                    assert(self.entries@[a] == before[a2]);
                    assert(self.entries@[b] == before[b2]);
                }
            },
            None => {
                assert(self.flags@.remove(id@) =~= self.flags@);
            },
        }
    }

    /// Sets the flag of `id`; an unknown id is left alone.
    pub fn cancel(&mut self, id: &str)
        requires
            old(self).wf(),
        ensures
            final(self).wf(),
            old(self)@.contains_key(id@) ==> final(self)@ == old(self)@.insert(id@, true),
            !old(self)@.contains_key(id@) ==> final(self)@ == old(self)@,
    {
        match self.find(id) {
            Some(i) => {
                let key = copy_text(id);
                self.entries.set(i, (key, true));
                self.flags = Ghost(self.flags@.insert(id@, true));
                assert forall|k: Seq<char>| #[trigger] self.flags@.contains_key(k)
                    implies exists|j: int| 0 <= j < self.entries@.len() && self.entries@[j].0@ == k by {
                    let j = choose|j: int| 0 <= j < old(self).entries@.len() && old(self).entries@[j].0@ == k;
                    assert(self.entries@[j].0@ == k);
                }
            },
            None => {},
        }
    }

    /// Sets every registered flag.
    pub fn cancel_all(&mut self)
        requires
            old(self).wf(),
        ensures
            final(self).wf(),
            final(self)@.dom() == old(self)@.dom(),
            forall|k: Seq<char>| #[trigger] final(self)@.contains_key(k) ==> final(self)@[k],
    {
        let ghost before = self.entries@;
        let ghost flags0 = self.flags@;
        let mut i: usize = 0;
        while i < self.entries.len()
            invariant
                i <= self.entries@.len(),
                self.entries@.len() == before.len(),
                forall|j: int| 0 <= j < before.len() ==> (#[trigger] self.entries@[j]).0@ == before[j].0@,
                forall|j: int| 0 <= j < i ==> self.entries@[j].1,
                forall|j: int| i <= j < before.len() ==> self.entries@[j].1 == before[j].1,
            decreases self.entries@.len() - i,
        {
            let key = copy_text(self.entries[i].0.as_str());
            self.entries.set(i, (key, true));
            i = i + 1;
        }
        self.flags = Ghost(Map::new(|k: Seq<char>| flags0.contains_key(k), |k: Seq<char>| true));
        assert(self.flags@.dom() =~= flags0.dom());
        assert forall|a: int, b: int| 0 <= a < b < self.entries@.len()
            implies self.entries@[a].0@ != self.entries@[b].0@ by {
            assert(self.entries@[a].0@ == before[a].0@);
            assert(self.entries@[b].0@ == before[b].0@);
        }
        assert forall|a: int| 0 <= a < self.entries@.len() implies
            #[trigger] self.flags@.contains_key(self.entries@[a].0@)
            && self.flags@[self.entries@[a].0@] == self.entries@[a].1 by {
            assert(self.entries@[a].0@ == before[a].0@);
            assert(flags0.contains_key(before[a].0@));
        }
        assert forall|k: Seq<char>| #[trigger] self.flags@.contains_key(k)
            implies exists|j: int| 0 <= j < self.entries@.len() && self.entries@[j].0@ == k by {
            assert(flags0.contains_key(k));
            let j = choose|j: int| 0 <= j < before.len() && before[j].0@ == k;
            assert(self.entries@[j].0@ == k);
        }
    }

    /// Whether the flag of `id` is set; false for an unknown id.
    pub fn is_cancelled(&self, id: &str) -> (r: bool)
        requires
            self.wf(),
        ensures
            r == (self@.contains_key(id@) && self@[id@]),
    {
        match self.find(id) {
            Some(i) => {
                assert(self.flags@.contains_key(self.entries@[i as int].0@));
                self.entries[i].1
            },
            None => {
                proof {
                    if self.flags@.contains_key(id@) {
                        let j = choose|j: int| 0 <= j < self.entries@.len() && self.entries@[j].0@ == id@;
                    }
                }
                false
            },
        }
    }
}

} // verus!
