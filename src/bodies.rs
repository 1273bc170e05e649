use vstd::prelude::*;

verus! {

/// The text of one function's definition.
pub struct FnBody {
    name: String,
    body: String,
}

/// Each function name's most recently recorded definition text.
pub struct BodyTable {
    entries: Vec<FnBody>,
    model: Ghost<Map<Seq<char>, Seq<char>>>,
}

impl View for BodyTable {
    type V = Map<Seq<char>, Seq<char>>;

    closed spec fn view(&self) -> Map<Seq<char>, Seq<char>> {
        self.model@
    }
}

impl BodyTable {
    /// Names are unique among the entries, and the model holds exactly the entries.
    pub closed spec fn wf(&self) -> bool {
        &&& forall|i: int, j: int|
            0 <= i < j < self.entries@.len() ==> self.entries@[i].name@ != self.entries@[j].name@
        &&& forall|i: int|
            0 <= i < self.entries@.len() ==> #[trigger] self.model@.contains_key(self.entries@[i].name@)
                && self.model@[self.entries@[i].name@] == self.entries@[i].body@
        &&& forall|k: Seq<char>|
            #[trigger] self.model@.contains_key(k) ==> exists|i: int|
                0 <= i < self.entries@.len() && self.entries@[i].name@ == k
    }

    pub fn new() -> (r: BodyTable)
        ensures
            r.wf(),
            r@ == Map::<Seq<char>, Seq<char>>::empty(),
    {
        BodyTable { entries: Vec::new(), model: Ghost(Map::empty()) }
    }

    fn find(&self, name: &String) -> (r: Option<usize>)
        requires
            self.wf(),
        ensures
            r matches Some(i) ==> i < self.entries@.len() && self.entries@[i as int].name@ == name@,
            r is None ==> !self@.contains_key(name@),
    {
        let mut i: usize = 0;
        while i < self.entries.len()
            invariant
                i <= self.entries@.len(),
                forall|j: int| 0 <= j < i ==> self.entries@[j].name@ != name@,
            decreases self.entries@.len() - i,
        {
            if self.entries[i].name == *name {
                return Some(i);
            }
            i += 1;
        }
        None
    }

    /// The recorded text of `name`, if any.
    pub fn get(&self, name: &String) -> (r: Option<&String>)
        requires
            self.wf(),
        ensures
            r is None <==> !self@.contains_key(name@),
            r matches Some(b) ==> b@ == self@[name@],
    {
        match self.find(name) {
            Some(i) => {
                proof {
                    assert(self.model@.contains_key(self.entries@[i as int].name@));
                }
                Some(&self.entries[i].body)
            },
            None => None,
        }
    }

    /// Records `body` as the text of `name`, replacing any earlier one.
    pub fn insert(&mut self, name: String, body: String)
        requires
            old(self).wf(),
        ensures
            final(self).wf(),
            final(self)@ == old(self)@.insert(name@, body@),
    {
        let ghost old_model = self@;
        let ghost n = name@;
        let ghost b = body@;
        match self.find(&name) {
            Some(i) => {
                self.entries.set(i, FnBody { name, body });
                self.model = Ghost(old_model.insert(n, b));
                proof {
                    assert(old_model.contains_key(old(self).entries@[i as int].name@));
                    assert forall|j: int| 0 <= j < self.entries@.len() implies #[trigger] self.model@.contains_key(self.entries@[j].name@)
                        && self.model@[self.entries@[j].name@] == self.entries@[j].body@ by {
                        if j != i {
                            assert(old_model.contains_key(old(self).entries@[j].name@));
                        }
                    }
                    assert forall|k: Seq<char>| #[trigger] self.model@.contains_key(k) implies exists|j: int|
                        0 <= j < self.entries@.len() && self.entries@[j].name@ == k by {
                        if k != n {
                            let j = choose|j: int| 0 <= j < old(self).entries@.len() && old(self).entries@[j].name@ == k;
                            assert(self.entries@[j].name@ == k);
                        } else {
                            assert(self.entries@[i as int].name@ == k);
                        }
                    }
                }
            },
            None => {
                self.entries.push(FnBody { name, body });
                self.model = Ghost(old_model.insert(n, b));
                proof {
                    let last = self.entries@.len() - 1;
                    assert(self.entries@[last].name@ == n);
                    assert forall|j: int| 0 <= j < self.entries@.len() implies #[trigger] self.model@.contains_key(self.entries@[j].name@)
                        && self.model@[self.entries@[j].name@] == self.entries@[j].body@ by {
                        if j != last {
                            assert(old_model.contains_key(old(self).entries@[j].name@));
                        }
                    }
                    assert forall|k: Seq<char>| #[trigger] self.model@.contains_key(k) implies exists|j: int|
                        0 <= j < self.entries@.len() && self.entries@[j].name@ == k by {
                        if k != n {
                            let j = choose|j: int| 0 <= j < old(self).entries@.len() && old(self).entries@[j].name@ == k;
                            assert(self.entries@[j].name@ == k);
                        } else {
                            assert(self.entries@[last].name@ == k);
                        }
                    }
                }
            },
        }
    }

    /// Records every text of `other`, each replacing any earlier one of its name.
    pub fn merge(&mut self, other: &BodyTable)
        requires
            old(self).wf(),
            other.wf(),
        ensures
            final(self).wf(),
            final(self)@ == old(self)@.union_prefer_right(other@),
    {
        let ghost start = self@;
        let mut i: usize = 0;
        while i < other.entries.len()
            invariant
                self.wf(),
                other.wf(),
                i <= other.entries@.len(),
                self@ == start.union_prefer_right(prefix_bodies(other, i as int)),
            decreases other.entries@.len() - i,
        {
            let e = &other.entries[i];
            let name = e.name.clone();
            let body = e.body.clone();
            self.insert(name, body);
            proof {
                let k0 = e.name@;
                assert(other@.contains_key(k0));
                assert forall|k: Seq<char>| prefix_bodies(other, i + 1).contains_key(k) == (prefix_bodies(other, i as int).contains_key(k) || k == k0) by {
                    if prefix_bodies(other, i + 1).contains_key(k) && k != k0 {
                        let j = choose|j: int| 0 <= j < i + 1 && other.entries@[j].name@ == k;
                        assert(j < i);
                    }
                    if k == k0 {
                        assert(other.entries@[i as int].name@ == k);
                    }
                }
                assert(self@ =~= start.union_prefer_right(prefix_bodies(other, i + 1)));
            }
            i += 1;
        }
        proof {
            assert(prefix_bodies(other, i as int) =~= other@) by {
                assert forall|k: Seq<char>| #[trigger] other@.contains_key(k) implies prefix_bodies(other, i as int).contains_key(k) by {
                    let j = choose|j: int| 0 <= j < other.entries@.len() && other.entries@[j].name@ == k;
                    assert(other.entries@[j].name@ == k);
                }
            }
        }
    }
}

/// The part of `t` held by its first `i` entries.
spec fn prefix_bodies(t: &BodyTable, i: int) -> Map<Seq<char>, Seq<char>> {
    t.model@.restrict(Set::new(|k: Seq<char>| exists|j: int| 0 <= j < i && t.entries@[j].name@ == k))
}

} // verus!
