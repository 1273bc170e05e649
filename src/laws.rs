use vstd::prelude::*;
use crate::analyzer::{collected, diagram_header, diagram_report, text_report};
use crate::graph::{CallMap, callees, merge_calls};
use crate::render::{diagram_lines, joined, text_line, text_lines};
use crate::trace::{Step, lemma_walk_calls_grows, lemma_walk_grows, trace, walk, walk_calls};

verus! {

/// What a step says of `n`: `None` where `n` is expanded, `Some(c)` where `n` calls `c`.
pub open spec fn step_of(s: Step, n: Seq<char>) -> Seq<Option<Seq<char>>> {
    match s {
        Step::Expand { name, .. } => if name == n { seq![None] } else { Seq::empty() },
        Step::Call { caller, callee, .. } => if caller == n { seq![Some(callee)] } else { Seq::empty() },
    }
}

/// The steps of `t` that belong to `n`, in order.
pub open spec fn owned(t: Seq<Step>, n: Seq<char>) -> Seq<Option<Seq<char>>>
    decreases t.len(),
{
    if t.len() == 0 {
        Seq::empty()
    } else {
        step_of(t[0], n) + owned(t.drop_first(), n)
    }
}

/// The names that the traversal from `e` expands.
pub open spec fn reached(g: CallMap, e: Seq<char>) -> Set<Seq<char>> {
    walk(g, e, 0, Set::empty()).1
}

/// `p` is a path of calls: each name after the first is a callee of the one before.
pub open spec fn is_path(g: CallMap, p: Seq<Seq<char>>) -> bool {
    &&& p.len() > 0
    &&& forall|i: int| 0 <= i < p.len() - 1 ==> #[trigger] callees(g, p[i]).contains(p[i + 1])
}

/// `n` is reachable from `a` along callee lists (every name reaches itself).
pub open spec fn reaches(g: CallMap, a: Seq<char>, n: Seq<char>) -> bool {
    exists|p: Seq<Seq<char>>| is_path(g, p) && p[0] == a && p.last() == n
}

/// The names reachable from `e` along callee lists.
pub open spec fn reachable(g: CallMap, e: Seq<char>) -> Set<Seq<char>> {
    Set::new(|n: Seq<char>| reaches(g, e, n))
}

/// The steps that a name expanded once contributes: its expansion, then each of its calls.
pub open spec fn expansion_of(g: CallMap, n: Seq<char>) -> Seq<Option<Seq<char>>> {
    seq![None] + callees(g, n).map_values(|c: Seq<char>| Some(c))
}

proof fn lemma_owned_add(a: Seq<Step>, b: Seq<Step>, n: Seq<char>)
    ensures
        owned(a + b, n) == owned(a, n) + owned(b, n),
    decreases a.len(),
{
    if a.len() == 0 {
        assert(a + b =~= b);
        assert(owned(a, n) + owned(b, n) =~= owned(b, n));
    } else {
        assert((a + b).drop_first() =~= a.drop_first() + b);
        assert((a + b)[0] == a[0]);
        lemma_owned_add(a.drop_first(), b, n);
        assert(owned(a + b, n) =~= step_of(a[0], n) + (owned(a.drop_first(), n) + owned(b, n)));
    }
}

proof fn lemma_owned_single(s: Step, n: Seq<char>)
    ensures
        owned(seq![s], n) == step_of(s, n),
{
    reveal_with_fuel(owned, 2);
    assert(seq![s].drop_first() =~= Seq::<Step>::empty());
    assert(step_of(s, n) + Seq::<Option<Seq<char>>>::empty() =~= step_of(s, n));
}

proof fn lemma_walk_owned(g: CallMap, m: Seq<char>, d: nat, v: Set<Seq<char>>, n: Seq<char>)
    requires
        g.dom().finite(),
    ensures
        owned(walk(g, m, d, v).0, n) == (if walk(g, m, d, v).1.contains(n) && !v.contains(n) {
            expansion_of(g, n)
        } else {
            Seq::empty()
        }),
    decreases crate::trace::unvisited(g, v), 0nat,
{
    let r = walk(g, m, d, v);
    let own = Step::Expand { name: m, depth: d };
    if v.contains(m) {
    } else if !g.contains_key(m) {
        lemma_owned_single(own, n);
        if n == m {
            assert(expansion_of(g, n) =~= seq![None]);
        }
    } else {
        assert(g.dom().difference(v.insert(m)) =~= g.dom().difference(v).remove(m));
        let rest = walk_calls(g, m, g[m], d, v.insert(m));
        lemma_walk_calls_owned(g, m, g[m], d, v.insert(m), n);
        lemma_walk_calls_grows(g, m, g[m], d, v.insert(m));
        lemma_owned_add(seq![own], rest.0, n);
        lemma_owned_single(own, n);
        if n == m {
            assert(owned(r.0, n) =~= expansion_of(g, n));
        } else {
            assert(owned(r.0, n) =~= owned(rest.0, n));
        }
    }
}

proof fn lemma_walk_calls_owned(g: CallMap, p: Seq<char>, cs: Seq<Seq<char>>, d: nat, v: Set<Seq<char>>, n: Seq<char>)
    requires
        g.dom().finite(),
        v.contains(p),
    ensures
        owned(walk_calls(g, p, cs, d, v).0, n) == (if n == p {
            cs.map_values(|c: Seq<char>| Some(c))
        } else {
            Seq::empty()
        }) + (if walk_calls(g, p, cs, d, v).1.contains(n) && !v.contains(n) {
            expansion_of(g, n)
        } else {
            Seq::empty()
        }),
    decreases crate::trace::unvisited(g, v), cs.len() + 1,
{
    let r = walk_calls(g, p, cs, d, v);
    if cs.len() == 0 {
        assert(cs.map_values(|c: Seq<char>| Some(c)) =~= Seq::<Option<Seq<char>>>::empty());
        assert(owned(r.0, n) =~= Seq::<Option<Seq<char>>>::empty() + Seq::<Option<Seq<char>>>::empty());
    } else {
        let first = walk(g, cs[0], d + 1, v);
        let w = first.1;
        lemma_walk_grows(g, cs[0], d + 1, v);
        assert(v.union(w) =~= w);
        vstd::set_lib::lemma_len_subset(g.dom().difference(v.union(w)), g.dom().difference(v));
        let tail = walk_calls(g, p, cs.drop_first(), d, w);
        lemma_walk_owned(g, cs[0], d + 1, v, n);
        lemma_walk_calls_owned(g, p, cs.drop_first(), d, w, n);
        lemma_walk_calls_grows(g, p, cs.drop_first(), d, w);
        let call = Step::Call { caller: p, callee: cs[0], depth: d };
        lemma_owned_single(call, n);
        lemma_owned_add(seq![call], first.0, n);
        lemma_owned_add(seq![call] + first.0, tail.0, n);
        assert(r.0 == seq![call] + first.0 + tail.0);
        if n == p {
            assert(cs.map_values(|c: Seq<char>| Some(c)) =~= seq![Some(cs[0])] + cs.drop_first().map_values(|c: Seq<char>| Some(c)));
            assert(owned(r.0, n) =~= cs.map_values(|c: Seq<char>| Some(c)) + Seq::<Option<Seq<char>>>::empty());
        } else {
            assert(Seq::<Option<Seq<char>>>::empty() + owned(first.0, n) + owned(tail.0, n) =~= owned(r.0, n));
            assert(owned(r.0, n) =~= Seq::<Option<Seq<char>>>::empty() + (if r.1.contains(n) && !v.contains(n) {
                expansion_of(g, n)
            } else {
                Seq::empty()
            }));
        }
    }
}

/// Whatever cycles the graph holds, the traversal from `e` expands each name
/// reachable from `e` along callee lists exactly once, followed by each of that
/// name's calls in call order (repeated calls kept), and nothing of any other
/// name. Both the text chain and the diagram are read off this one traversal.
pub proof fn law_each_name_expanded_once(g: CallMap, e: Seq<char>, n: Seq<char>)
    requires
        g.dom().finite(),
    ensures
        owned(trace(g, e), n) == (if reaches(g, e, n) { expansion_of(g, n) } else { Seq::empty() }),
{
    lemma_walk_owned(g, e, 0, Set::empty(), n);
    law_reached_is_reachable(g, e);
    assert(reached(g, e).contains(n) == reachable(g, e).contains(n));
}

/// A callee with no definition among the facts is a leaf: where the traversal
/// reaches it, it is expanded once and calls nothing.
pub proof fn law_unknown_callee_is_leaf(g: CallMap, e: Seq<char>, n: Seq<char>)
    requires
        g.dom().finite(),
        !g.contains_key(n),
        reaches(g, e, n),
    ensures
        owned(trace(g, e), n) == seq![Option::<Seq<char>>::None],
{
    law_each_name_expanded_once(g, e, n);
    assert(expansion_of(g, n) =~= seq![Option::<Seq<char>>::None]);
}

/// An entry with no definition gives the text chain `<entry>()` alone and a
/// diagram of its header alone.
pub proof fn law_absent_entry(g: CallMap, e: Seq<char>)
    requires
        g.dom().finite(),
        !g.contains_key(e),
    ensures
        text_report(g, e) == e + seq!['(', ')'],
        diagram_report(g, e) == diagram_header(),
{
    let own = Step::Expand { name: e, depth: 0 };
    assert(trace(g, e) == seq![own]);
    assert(crate::render::indent(0) =~= Seq::<char>::empty());
    assert(text_lines(seq![own]) =~= seq![text_line(own)]);
    assert(text_line(own) =~= e + seq!['(', ')']);
    reveal_with_fuel(diagram_lines, 2);
    assert(seq![own].drop_first() =~= Seq::<Step>::empty());
    assert(diagram_lines(seq![own]) =~= Seq::<Seq<char>>::empty());
    assert(seq![diagram_header()] + diagram_lines(seq![own]) =~= seq![diagram_header()]);
}

/// The same files, merged in the same order, give the same text chain and the
/// same diagram from the same entry.
pub proof fn law_deterministic(files1: Seq<CallMap>, files2: Seq<CallMap>, e: Seq<char>)
    requires
        files1 == files2,
    ensures
        text_report(collected(files1), e) == text_report(collected(files2), e),
        diagram_report(collected(files1), e) == diagram_report(collected(files2), e),
{
}

/// Functions of one name in two files are one node: its calls are those of the
/// first file followed by those of the second.
pub proof fn law_same_name_merges(a: CallMap, b: CallMap, n: Seq<char>)
    ensures
        callees(collected(seq![a, b]), n) == callees(a, n) + callees(b, n),
{
    let files = seq![a, b];
    assert(files.drop_last() =~= seq![a]);
    assert(seq![a].drop_last() =~= Seq::<CallMap>::empty());
    let m1 = merge_calls(CallMap::empty(), a);
    assert(collected(seq![a]) == merge_calls(collected(Seq::<CallMap>::empty()), a));
    assert(collected(files) == merge_calls(collected(seq![a]), b));
    assert(callees(m1, n) =~= callees(a, n));
    assert(callees(merge_calls(m1, b), n) =~= callees(m1, n) + callees(b, n));
}

proof fn lemma_reaches_self(g: CallMap, a: Seq<char>)
    ensures
        reaches(g, a, a),
{
    let p = seq![a];
    assert(is_path(g, p));
    assert(p[0] == a && p.last() == a);
}

proof fn lemma_reaches_prepend(g: CallMap, m: Seq<char>, c: Seq<char>, n: Seq<char>)
    requires
        callees(g, m).contains(c),
        reaches(g, c, n),
    ensures
        reaches(g, m, n),
{
    let p = choose|p: Seq<Seq<char>>| is_path(g, p) && p[0] == c && p.last() == n;
    let q = seq![m] + p;
    assert forall|i: int| 0 <= i < q.len() - 1 implies #[trigger] callees(g, q[i]).contains(q[i + 1]) by {
        if i > 0 {
            assert(q[i] == p[i - 1] && q[i + 1] == p[i]);
            assert(callees(g, p[i - 1]).contains(p[(i - 1) + 1]));
        }
    }
    assert(q.last() == p.last());
    assert(is_path(g, q) && q[0] == m && q.last() == n);
}

/// Every name that a walk from `m` newly visits is reachable from `m`, and every
/// such name has all of its callees visited by the end.
proof fn lemma_walk_reach(g: CallMap, m: Seq<char>, d: nat, v: Set<Seq<char>>)
    requires
        g.dom().finite(),
    ensures
        forall|n: Seq<char>| #[trigger] walk(g, m, d, v).1.contains(n) && !v.contains(n) ==> reaches(g, m, n),
        forall|n: Seq<char>, c: Seq<char>|
            walk(g, m, d, v).1.contains(n) && !v.contains(n) && #[trigger] callees(g, n).contains(c)
                ==> #[trigger] walk(g, m, d, v).1.contains(c),
    decreases crate::trace::unvisited(g, v), 0nat,
{
    let r = walk(g, m, d, v).1;
    lemma_reaches_self(g, m);
    if v.contains(m) {
    } else if !g.contains_key(m) {
        assert(callees(g, m) =~= Seq::<Seq<char>>::empty());
    } else {
        assert(g.dom().difference(v.insert(m)) =~= g.dom().difference(v).remove(m));
        let v1 = v.insert(m);
        lemma_walk_calls_reach(g, m, g[m], d, v1);
        assert(r == walk_calls(g, m, g[m], d, v1).1);
        assert(callees(g, m) == g[m]);
        assert forall|n: Seq<char>| #[trigger] r.contains(n) && !v.contains(n) implies reaches(g, m, n) by {
            if n != m {
                assert(!v1.contains(n));
                assert(walk_calls(g, m, g[m], d, v1).1.contains(n));
                let c = choose|c: Seq<char>| g[m].contains(c) && reaches(g, c, n);
                lemma_reaches_prepend(g, m, c, n);
            }
        }
        assert forall|n: Seq<char>, c: Seq<char>|
            r.contains(n) && !v.contains(n) && #[trigger] callees(g, n).contains(c) implies #[trigger] r.contains(c) by {
            if n == m {
                assert(g[m].contains(c));
            } else {
                assert(!v1.contains(n));
                assert(walk_calls(g, m, g[m], d, v1).1.contains(n));
            }
        }
    }
}

proof fn lemma_walk_calls_reach(g: CallMap, p: Seq<char>, cs: Seq<Seq<char>>, d: nat, v: Set<Seq<char>>)
    requires
        g.dom().finite(),
    ensures
        forall|c: Seq<char>| #[trigger] cs.contains(c) ==> walk_calls(g, p, cs, d, v).1.contains(c),
        forall|n: Seq<char>| #[trigger] walk_calls(g, p, cs, d, v).1.contains(n) && !v.contains(n)
            ==> exists|c: Seq<char>| cs.contains(c) && reaches(g, c, n),
        forall|n: Seq<char>, c: Seq<char>|
            walk_calls(g, p, cs, d, v).1.contains(n) && !v.contains(n) && #[trigger] callees(g, n).contains(c)
                ==> #[trigger] walk_calls(g, p, cs, d, v).1.contains(c),
    decreases crate::trace::unvisited(g, v), cs.len() + 1,
{
    let r = walk_calls(g, p, cs, d, v).1;
    if cs.len() > 0 {
        let w = walk(g, cs[0], d + 1, v).1;
        lemma_walk_grows(g, cs[0], d + 1, v);
        assert(v.union(w) =~= w);
        vstd::set_lib::lemma_len_subset(g.dom().difference(v.union(w)), g.dom().difference(v));
        let rest = cs.drop_first();
        lemma_walk_reach(g, cs[0], d + 1, v);
        lemma_walk_calls_reach(g, p, rest, d, w);
        lemma_walk_calls_grows(g, p, rest, d, w);
        assert(r == walk_calls(g, p, rest, d, w).1);
        assert forall|c: Seq<char>| #[trigger] cs.contains(c) implies r.contains(c) by {
            let i = choose|i: int| 0 <= i < cs.len() && cs[i] == c;
            if i > 0 {
                assert(rest[i - 1] == c);
                assert(rest.contains(c));
            }
        }
        assert forall|n: Seq<char>| #[trigger] r.contains(n) && !v.contains(n)
            implies exists|c: Seq<char>| cs.contains(c) && reaches(g, c, n) by {
            assert(cs.contains(cs[0]));
            if !w.contains(n) {
                let c = choose|c: Seq<char>| rest.contains(c) && reaches(g, c, n);
                let j = choose|j: int| 0 <= j < rest.len() && rest[j] == c;
                assert(cs[j + 1] == c);
                assert(cs.contains(c));
            }
        }
        assert forall|n: Seq<char>, c: Seq<char>|
            r.contains(n) && !v.contains(n) && #[trigger] callees(g, n).contains(c) implies #[trigger] r.contains(c) by {
            if w.contains(n) {
                assert(w.contains(c));
            }
        }
    }
}

proof fn lemma_closed_contains_path(g: CallMap, r: Set<Seq<char>>, q: Seq<Seq<char>>, k: int)
    requires
        is_path(g, q),
        r.contains(q[0]),
        forall|n: Seq<char>, c: Seq<char>| r.contains(n) && #[trigger] callees(g, n).contains(c) ==> r.contains(c),
        0 <= k < q.len(),
    ensures
        r.contains(q[k]),
    decreases k,
{
    if k > 0 {
        lemma_closed_contains_path(g, r, q, k - 1);
        assert(callees(g, q[k - 1]).contains(q[(k - 1) + 1]));
    }
}

/// The names that the traversal from `e` expands are exactly the names
/// reachable from `e` along callee lists, `e` among them.
pub proof fn law_reached_is_reachable(g: CallMap, e: Seq<char>)
    requires
        g.dom().finite(),
    ensures
        reached(g, e) == reachable(g, e),
{
    let r = reached(g, e);
    lemma_walk_reach(g, e, 0, Set::empty());
    lemma_walk_grows(g, e, 0, Set::empty());
    assert forall|n: Seq<char>| reachable(g, e).contains(n) implies r.contains(n) by {
        let q = choose|q: Seq<Seq<char>>| is_path(g, q) && q[0] == e && q.last() == n;
        assert forall|x: Seq<char>, c: Seq<char>| r.contains(x) && #[trigger] callees(g, x).contains(c) implies r.contains(c) by {
            assert(!Set::<Seq<char>>::empty().contains(x));
        }
        lemma_closed_contains_path(g, r, q, q.len() - 1);
    }
    assert forall|n: Seq<char>| r.contains(n) implies reachable(g, e).contains(n) by {
        assert(!Set::<Seq<char>>::empty().contains(n));
    }
    assert(r =~= reachable(g, e));
}

} // verus!
