use vstd::prelude::*;

verus! {

/// The views of a sequence of strings.
pub open spec fn names_view(v: Seq<String>) -> Seq<Seq<char>> {
    v.map_values(|s: String| s@)
}

/// A set of function names, kept in the order in which they were added.
pub struct NameSet {
    names: Vec<String>,
}

impl View for NameSet {
    type V = Set<Seq<char>>;

    closed spec fn view(&self) -> Set<Seq<char>> {
        names_view(self.names@).to_set()
    }
}

impl NameSet {
    /// No name is held twice.
    pub closed spec fn wf(&self) -> bool {
        &&& names_view(self.names@).no_duplicates()
        &&& self.names@.len() <= usize::MAX
    }

    /// How many names the set holds.
    pub closed spec fn size(&self) -> nat {
        self.names@.len()
    }

    /// A well-formed set's size fits in a `usize`.
    pub proof fn lemma_bounded(&self)
        requires
            self.wf(),
        ensures
            self.size() <= usize::MAX,
    {
    }

    pub fn new() -> (r: NameSet)
        ensures
            r.wf(),
            r@ == Set::<Seq<char>>::empty(),
            r.size() == 0,
    {
        let r = NameSet { names: Vec::new() };
        proof {
            assert(names_view(r.names@) =~= Seq::<Seq<char>>::empty());
            assert(names_view(r.names@).to_set() =~= Set::<Seq<char>>::empty());
        }
        r
    }

    pub fn contains(&self, name: &String) -> (r: bool)
        ensures
            r == self@.contains(name@),
    {
        let mut i: usize = 0;
        while i < self.names.len()
            invariant
                i <= self.names@.len(),
                forall|j: int| 0 <= j < i ==> self.names@[j]@ != name@,
            decreases self.names@.len() - i,
        {
            if self.names[i] == *name {
                proof {
                    assert(names_view(self.names@)[i as int] == name@);
                }
                return true;
            }
            i += 1;
        }
        proof {
            if names_view(self.names@).to_set().contains(name@) {
                let k = names_view(self.names@).index_of(name@);
                assert(self.names@[k]@ == name@);
            }
        }
        false
    }

    /// Adds `name`; returns whether it was absent before.
    pub fn insert(&mut self, name: String) -> (r: bool)
        requires
            old(self).wf(),
        ensures
            final(self).wf(),
            r == !old(self)@.contains(name@),
            final(self)@ == old(self)@.insert(name@),
            final(self).size() == old(self).size() + (if r { 1nat } else { 0nat }),
    {
        if self.contains(&name) {
            proof {
                assert(self@.insert(name@) =~= self@);
            }
            false
        } else {
            let ghost old_names = self.names@;
            let ghost n = name@;
            self.names.push(name);
            let _ = self.names.len();
            proof {
                assert(names_view(self.names@) =~= names_view(old_names).push(n));
                assert(names_view(self.names@).to_set() =~= names_view(old_names).to_set().insert(n))
                    by {
                    names_view(old_names).lemma_push_to_set_commute(n);
                }
            }
            true
        }
    }
}

} // verus!
