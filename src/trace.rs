use vstd::prelude::*;
use crate::graph::CallMap;

verus! {

/// One step of a depth-first traversal of a call graph.
pub enum Step {
    /// A function is expanded at the given depth.
    Expand { name: Seq<char>, depth: nat },
    /// While `caller` is expanded at `depth`, its next call names `callee`.
    Call { caller: Seq<char>, callee: Seq<char>, depth: nat },
}

/// How many names of the graph are not yet visited.
pub open spec fn unvisited(g: CallMap, v: Set<Seq<char>>) -> nat {
    g.dom().difference(v).len()
}

/// The traversal from `n` at depth `d` with the names `v` already visited:
/// the steps taken and the visited names afterwards.
/// A visited name is not expanded again; a name without an entry expands to nothing.
pub open spec fn walk(g: CallMap, n: Seq<char>, d: nat, v: Set<Seq<char>>) -> (Seq<Step>, Set<Seq<char>>)
    decreases unvisited(g, v), 0nat,
    when g.dom().finite()
{
    if v.contains(n) {
        (Seq::empty(), v)
    } else if !g.contains_key(n) {
        (seq![Step::Expand { name: n, depth: d }], v.insert(n))
    } else {
        proof {
            assert(g.dom().difference(v.insert(n)) =~= g.dom().difference(v).remove(n));
        }
        let rest = walk_calls(g, n, g[n], d, v.insert(n));
        (seq![Step::Expand { name: n, depth: d }] + rest.0, rest.1)
    }
}

/// The traversal of the calls `cs` made by `caller` expanded at depth `d`, in call order.
pub open spec fn walk_calls(g: CallMap, caller: Seq<char>, cs: Seq<Seq<char>>, d: nat, v: Set<Seq<char>>) -> (Seq<Step>, Set<Seq<char>>)
    decreases unvisited(g, v), cs.len() + 1,
    when g.dom().finite()
{
    if cs.len() == 0 {
        (Seq::empty(), v)
    } else {
        let first = walk(g, cs[0], d + 1, v);
        proof {
            vstd::set_lib::lemma_len_subset(
                g.dom().difference(v.union(first.1)),
                g.dom().difference(v),
            );
        }
        let rest = walk_calls(g, caller, cs.drop_first(), d, v.union(first.1));
        (seq![Step::Call { caller, callee: cs[0], depth: d }] + first.0 + rest.0, rest.1)
    }
}

/// The whole traversal from the entry `e`.
pub open spec fn trace(g: CallMap, e: Seq<char>) -> Seq<Step> {
    walk(g, e, 0, Set::empty()).0
}

/// Walking only adds to the visited names.
pub proof fn lemma_walk_grows(g: CallMap, n: Seq<char>, d: nat, v: Set<Seq<char>>)
    requires
        g.dom().finite(),
    ensures
        v.subset_of(walk(g, n, d, v).1),
        walk(g, n, d, v).1.contains(n),
    decreases unvisited(g, v), 0nat,
{
    if !v.contains(n) && g.contains_key(n) {
        assert(g.dom().difference(v.insert(n)) =~= g.dom().difference(v).remove(n));
        lemma_walk_calls_grows(g, n, g[n], d, v.insert(n));
    }
}

pub proof fn lemma_walk_calls_grows(g: CallMap, caller: Seq<char>, cs: Seq<Seq<char>>, d: nat, v: Set<Seq<char>>)
    requires
        g.dom().finite(),
    ensures
        v.subset_of(walk_calls(g, caller, cs, d, v).1),
    decreases unvisited(g, v), cs.len() + 1,
{
    if cs.len() > 0 {
        let first = walk(g, cs[0], d + 1, v);
        lemma_walk_grows(g, cs[0], d + 1, v);
        vstd::set_lib::lemma_len_subset(g.dom().difference(v.union(first.1)), g.dom().difference(v));
        lemma_walk_calls_grows(g, caller, cs.drop_first(), d, v.union(first.1));
    }
}

} // verus!
