use vstd::prelude::*;
use crate::bodies::BodyTable;
use crate::graph::{CallGraph, CallMap, callees};
use crate::names::names_view;

verus! {

/// The facts gathered from one source file while its syntax tree is walked:
/// each function's calls in order, each function's definition text, and the
/// functions whose bodies are open, innermost last.
pub struct FnCallVisitor {
    calls: CallGraph,
    bodies: BodyTable,
    open_fns: Vec<String>,
}

/// The view of an optional name.
pub open spec fn opt_view(o: Option<String>) -> Option<Seq<char>> {
    match o {
        Some(s) => Some(s@),
        None => None,
    }
}

/// The innermost of the open functions, if any.
pub open spec fn innermost(open: Seq<Seq<char>>) -> Option<Seq<char>> {
    if open.len() == 0 {
        None
    } else {
        Some(open.last())
    }
}

impl FnCallVisitor {
    pub closed spec fn wf(&self) -> bool {
        self.calls.wf() && self.bodies.wf()
    }

    /// The calls recorded so far.
    pub closed spec fn calls_view(&self) -> CallMap {
        self.calls@
    }

    /// The definition texts recorded so far.
    pub closed spec fn bodies_view(&self) -> Map<Seq<char>, Seq<char>> {
        self.bodies@
    }

    /// The functions whose bodies are being walked, outermost first.
    pub closed spec fn open_fns(&self) -> Seq<Seq<char>> {
        names_view(self.open_fns@)
    }

    /// The innermost function whose body is being walked, if any.
    pub open spec fn current(&self) -> Option<Seq<char>> {
        innermost(self.open_fns())
    }

    pub fn new() -> (r: Self)
        ensures
            r.wf(),
            r.calls_view() == CallMap::empty(),
            r.bodies_view() == Map::<Seq<char>, Seq<char>>::empty(),
            r.open_fns() == Seq::<Seq<char>>::empty(),
    {
        let r = Self { calls: CallGraph::new(), bodies: BodyTable::new(), open_fns: Vec::new() };
        proof {
            assert(r.open_fns() =~= Seq::<Seq<char>>::empty());
        }
        r
    }

    /// A function definition named `name` with text `body` is entered:
    /// the calls that follow belong to it until it is left.
    pub fn enter_fn(&mut self, name: String, body: String)
        requires
            old(self).wf(),
        ensures
            final(self).wf(),
            final(self).open_fns() == old(self).open_fns().push(name@),
            final(self).bodies_view() == old(self).bodies_view().insert(name@, body@),
            final(self).calls_view() == old(self).calls_view(),
    {
        let ghost before = self.open_fns@;
        self.open_fns.push(name.clone());
        proof {
            assert(self.open_fns() =~= names_view(before).push(name@));
        }
        self.bodies.insert(name, body);
    }

    /// The walk of the innermost open function has ended: the calls that follow
    /// belong to the function that encloses it, if any.
    pub fn leave_fn(&mut self)
        requires
            old(self).wf(),
        ensures
            final(self).wf(),
            final(self).open_fns() == (if old(self).open_fns().len() == 0 {
                old(self).open_fns()
            } else {
                old(self).open_fns().drop_last()
            }),
            final(self).bodies_view() == old(self).bodies_view(),
            final(self).calls_view() == old(self).calls_view(),
    {
        let ghost before = self.open_fns@;
        let _ = self.open_fns.pop();
        proof {
            if before.len() > 0 {
                assert(self.open_fns() =~= names_view(before).drop_last());
            }
        }
    }

    /// A call expression is met. `callee` is the last segment of its target
    /// where the target is a plain path, and `None` for any other target.
    /// Inside a function a named callee is appended to its calls.
    pub fn record_call(&mut self, callee: Option<String>)
        requires
            old(self).wf(),
        ensures
            final(self).wf(),
            final(self).open_fns() == old(self).open_fns(),
            final(self).bodies_view() == old(self).bodies_view(),
            final(self).calls_view() == (match (old(self).current(), opt_view(callee)) {
                (Some(cur), Some(c)) => old(self).calls_view().insert(cur, callees(old(self).calls_view(), cur).push(c)),
                _ => old(self).calls_view(),
            }),
    {
        let n = self.open_fns.len();
        if n > 0 {
            match callee {
                Some(c) => {
                    proof {
                        assert(self.open_fns()[n - 1] == self.open_fns@[n - 1]@);
                    }
                    self.calls.push_call(&self.open_fns[n - 1], c);
                },
                None => {},
            }
        }
    }

    /// The calls recorded so far.
    pub fn calls(&self) -> (r: &CallGraph)
        requires
            self.wf(),
        ensures
            r.wf(),
            r@ == self.calls_view(),
    {
        &self.calls
    }

    /// The definition texts recorded so far.
    pub fn bodies(&self) -> (r: &BodyTable)
        requires
            self.wf(),
        ensures
            r.wf(),
            r@ == self.bodies_view(),
    {
        &self.bodies
    }
}

} // verus!
