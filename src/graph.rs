use vstd::prelude::*;
use crate::names::names_view;

verus! {

/// The abstract call graph: each caller's name to its callee names, in call order.
pub type CallMap = Map<Seq<char>, Seq<Seq<char>>>;

/// The callees of `n`; empty where `n` has no entry.
pub open spec fn callees(g: CallMap, n: Seq<char>) -> Seq<Seq<char>> {
    if g.contains_key(n) {
        g[n]
    } else {
        Seq::empty()
    }
}

/// `b` merged into `a`: a name's callee lists are concatenated, those of `a` first.
pub open spec fn merge_calls(a: CallMap, b: CallMap) -> CallMap {
    Map::new(|k: Seq<char>| a.contains_key(k) || b.contains_key(k), |k: Seq<char>| callees(a, k) + callees(b, k))
}

/// The calls made by the functions of one name.
pub struct FnCalls {
    name: String,
    callees: Vec<String>,
}

/// A call graph keyed by function name.
pub struct CallGraph {
    entries: Vec<FnCalls>,
    model: Ghost<CallMap>,
}

impl View for CallGraph {
    type V = CallMap;

    closed spec fn view(&self) -> CallMap {
        self.model@
    }
}

impl CallGraph {
    /// Names are unique among the entries, and the model holds exactly the entries.
    pub closed spec fn wf(&self) -> bool {
        &&& self.model@.dom().finite()
        &&& forall|i: int, j: int|
            0 <= i < j < self.entries@.len() ==> self.entries@[i].name@ != self.entries@[j].name@
        &&& forall|i: int|
            0 <= i < self.entries@.len() ==> #[trigger] self.model@.contains_key(self.entries@[i].name@)
                && self.model@[self.entries@[i].name@] == names_view(self.entries@[i].callees@)
        &&& forall|k: Seq<char>|
            #[trigger] self.model@.contains_key(k) ==> exists|i: int|
                0 <= i < self.entries@.len() && self.entries@[i].name@ == k
    }

    /// A well-formed graph has finitely many names.
    pub proof fn lemma_finite(&self)
        requires
            self.wf(),
        ensures
            self@.dom().finite(),
    {
    }

    pub fn new() -> (r: CallGraph)
        ensures
            r.wf(),
            r@ == CallMap::empty(),
    {
        CallGraph { entries: Vec::new(), model: Ghost(CallMap::empty()) }
    }

    fn find(&self, name: &String) -> (r: Option<usize>)
        requires
            self.wf(),
        ensures
            r matches Some(i) ==> i < self.entries@.len() && self.entries@[i as int].name@ == name@,
            r is None ==> !self@.contains_key(name@),
    {
        let mut i: usize = 0;
        while i < self.entries.len()
            invariant
                i <= self.entries@.len(),
                forall|j: int| 0 <= j < i ==> self.entries@[j].name@ != name@,
            decreases self.entries@.len() - i,
        {
            if self.entries[i].name == *name {
                return Some(i);
            }
            i += 1;
        }
        None
    }

    /// The callees of `name` in call order, or `None` where it has no entry.
    pub fn get(&self, name: &String) -> (r: Option<&Vec<String>>)
        requires
            self.wf(),
        ensures
            r is None <==> !self@.contains_key(name@),
            r matches Some(v) ==> names_view(v@) == self@[name@],
    {
        match self.find(name) {
            Some(i) => {
                proof {
                    assert(self.model@.contains_key(self.entries@[i as int].name@));
                }
                Some(&self.entries[i].callees)
            },
            None => None,
        }
    }

    /// The callees of `name` in call order; empty where it has no entry.
    pub fn callees_of(&self, name: &String) -> (r: Vec<String>)
        requires
            self.wf(),
        ensures
            names_view(r@) == callees(self@, name@),
    {
        match self.get(name) {
            Some(calls) => clone_names(calls),
            None => {
                let r: Vec<String> = Vec::new();
                proof {
                    assert(names_view(r@) =~= Seq::<Seq<char>>::empty());
                }
                r
            },
        }
    }

    /// Appends `callee` to the calls of `name`, making an entry where there is none.
    pub fn push_call(&mut self, name: &String, callee: String)
        requires
            old(self).wf(),
        ensures
            final(self).wf(),
            final(self)@ == old(self)@.insert(name@, callees(old(self)@, name@).push(callee@)),
    {
        let mut one: Vec<String> = Vec::new();
        one.push(callee);
        self.extend_calls(name, one);
        proof {
            assert(callees(old(self)@, name@) + names_view(one@) =~= callees(old(self)@, name@).push(one@[0]@));
        }
    }

    /// Appends `calls` to the calls of `name`, making an entry where there is none.
    pub fn extend_calls(&mut self, name: &String, calls: Vec<String>)
        requires
            old(self).wf(),
        ensures
            final(self).wf(),
            final(self)@ == old(self)@.insert(name@, callees(old(self)@, name@) + names_view(calls@)),
    {
        let ghost new_calls = callees(self@, name@) + names_view(calls@);
        let ghost old_model = self@;
        match self.find(name) {
            Some(i) => {
                let mut entry = self.entries.remove(i);
                let mut calls = calls;
                let ghost before = entry.callees@;
                let ghost added = calls@;
                entry.callees.append(&mut calls);
                proof {
                    assert(names_view(entry.callees@) =~= names_view(before) + names_view(added));
                }
                let ghost updated = entry;
                self.entries.insert(i, entry);
                self.model = Ghost(old_model.insert(name@, new_calls));
                proof {
                    assert(self.entries@ =~= old(self).entries@.update(i as int, updated));
                    assert(old_model.contains_key(old(self).entries@[i as int].name@));
                    assert forall|j: int| 0 <= j < self.entries@.len() implies #[trigger] self.model@.contains_key(self.entries@[j].name@)
                        && self.model@[self.entries@[j].name@] == names_view(self.entries@[j].callees@) by {
                        if j != i {
                            assert(old_model.contains_key(old(self).entries@[j].name@));
                        }
                    }
                    assert forall|k: Seq<char>| #[trigger] self.model@.contains_key(k) implies exists|j: int|
                        0 <= j < self.entries@.len() && self.entries@[j].name@ == k by {
                        if k != name@ {
                            let j = choose|j: int| 0 <= j < old(self).entries@.len() && old(self).entries@[j].name@ == k;
                            assert(self.entries@[j].name@ == k);
                        } else {
                            assert(self.entries@[i as int].name@ == k);
                        }
                    }
                }
            },
            None => {
                let ghost n = name@;
                let ghost calls_view = names_view(calls@);
                self.entries.push(FnCalls { name: name.clone(), callees: calls });
                self.model = Ghost(old_model.insert(n, new_calls));
                proof {
                    assert(new_calls =~= calls_view);
                    let last = self.entries@.len() - 1;
                    assert(self.entries@[last].name@ == n);
                    assert forall|j: int| 0 <= j < self.entries@.len() implies #[trigger] self.model@.contains_key(self.entries@[j].name@)
                        && self.model@[self.entries@[j].name@] == names_view(self.entries@[j].callees@) by {
                        if j != last {
                            assert(old_model.contains_key(old(self).entries@[j].name@));
                        }
                    }
                    assert forall|k: Seq<char>| #[trigger] self.model@.contains_key(k) implies exists|j: int|
                        0 <= j < self.entries@.len() && self.entries@[j].name@ == k by {
                        if k != n {
                            let j = choose|j: int| 0 <= j < old(self).entries@.len() && old(self).entries@[j].name@ == k;
                            assert(self.entries@[j].name@ == k);
                        } else {
                            assert(self.entries@[last].name@ == k);
                        }
                    }
                }
            },
        }
    }

    /// Merges `other` into this graph: each name's calls in `other` follow its calls here.
    pub fn merge(&mut self, other: &CallGraph)
        requires
            old(self).wf(),
            other.wf(),
        ensures
            final(self).wf(),
            final(self)@ == merge_calls(old(self)@, other@),
    {
        let ghost start = self@;
        let mut i: usize = 0;
        while i < other.entries.len()
            invariant
                self.wf(),
                other.wf(),
                i <= other.entries@.len(),
                self@ == merge_calls(start, prefix_calls(other, i as int)),
            decreases other.entries@.len() - i,
        {
            let e = &other.entries[i];
            let calls = clone_names(&e.callees);
            self.extend_calls(&e.name, calls);
            proof {
                let k0 = e.name@;
                assert(other@.contains_key(k0));
                assert(!prefix_calls(other, i as int).contains_key(k0)) by {
                    if prefix_calls(other, i as int).contains_key(k0) {
                        let j = choose|j: int| 0 <= j < i && other.entries@[j].name@ == k0;
                        assert(other.entries@[j].name@ != other.entries@[i as int].name@);
                    }
                }
                assert forall|k: Seq<char>| prefix_calls(other, i + 1).contains_key(k) == (prefix_calls(other, i as int).contains_key(k) || k == k0) by {
                    if prefix_calls(other, i + 1).contains_key(k) && k != k0 {
                        let j = choose|j: int| 0 <= j < i + 1 && other.entries@[j].name@ == k;
                        assert(j < i);
                    }
                    if k == k0 {
                        assert(other.entries@[i as int].name@ == k);
                    }
                }
                assert(self@ =~= merge_calls(start, prefix_calls(other, i + 1)));
            }
            i += 1;
        }
        proof {
            assert(prefix_calls(other, i as int) =~= other@) by {
                assert forall|k: Seq<char>| #[trigger] other@.contains_key(k) implies prefix_calls(other, i as int).contains_key(k) by {
                    let j = choose|j: int| 0 <= j < other.entries@.len() && other.entries@[j].name@ == k;
                    assert(other.entries@[j].name@ == k);
                }
            }
        }
    }
}

/// The part of `g` held by its first `i` entries.
spec fn prefix_calls(g: &CallGraph, i: int) -> CallMap {
    g.model@.restrict(Set::new(|k: Seq<char>| exists|j: int| 0 <= j < i && g.entries@[j].name@ == k))
}

/// A copy of a list of names.
pub fn clone_names(v: &Vec<String>) -> (r: Vec<String>)
    ensures
        names_view(r@) == names_view(v@),
{
    let mut r: Vec<String> = Vec::new();
    let mut i: usize = 0;
    while i < v.len()
        invariant
            i <= v@.len(),
            names_view(r@) == names_view(v@).take(i as int),
        decreases v@.len() - i,
    {
        let s: String = v[i].clone();
        proof {
            assert(s@ == v@[i as int]@);
        }
        let ghost before = r@;
        r.push(s);
        proof {
            assert(names_view(r@) =~= names_view(before).push(s@));
            assert(names_view(v@).take(i + 1) =~= names_view(v@).take(i as int).push(names_view(v@)[i as int]));
            assert(names_view(r@) =~= names_view(v@).take(i + 1));
        }
        i += 1;
    }
    proof {
        assert(names_view(v@).take(i as int) =~= names_view(v@));
    }
    r
}

} // verus!
