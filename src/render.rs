use vstd::prelude::*;
use vstd::string::*;
use crate::graph::{CallGraph, CallMap};
use crate::names::{NameSet, names_view};
use crate::trace::{Step, lemma_walk_grows, unvisited, walk, walk_calls};

verus! {

/// Two spaces per level of depth.
pub open spec fn indent(d: nat) -> Seq<char> {
    Seq::new(2 * d, |i: int| ' ')
}

/// The text line of one step: `<indent><name>()` or `<indent>→ <callee>()`.
pub open spec fn text_line(s: Step) -> Seq<char> {
    match s {
        Step::Expand { name, depth } => indent(depth) + name + seq!['(', ')'],
        Step::Call { callee, depth, .. } => indent(depth) + seq!['\u{2192}', ' '] + callee + seq!['(', ')'],
    }
}

/// The text lines of a sequence of steps.
pub open spec fn text_lines(t: Seq<Step>) -> Seq<Seq<char>> {
    t.map_values(|s: Step| text_line(s))
}

fn indent_of(depth: usize) -> (r: String)
    ensures
        r@ == indent(depth as nat),
{
    let mut r = String::new();
    let mut i: usize = 0;
    while i < depth
        invariant
            i <= depth,
            r@ == indent(i as nat),
        decreases depth - i,
    {
        r.append("  ");
        proof {
            reveal_strlit("  ");
            assert(r@ =~= indent((i + 1) as nat));
        }
        i += 1;
    }
    r
}

fn own_line(pad: &String, name: &String) -> (r: String)
    ensures
        r@ == pad@ + name@ + seq!['(', ')'],
{
    let mut r = pad.clone();
    r.append(name.as_str());
    r.append("()");
    proof {
        reveal_strlit("()");
    }
    r
}

fn arrow_line(pad: &String, callee: &String) -> (r: String)
    ensures
        r@ == pad@ + seq!['\u{2192}', ' '] + callee@ + seq!['(', ')'],
{
    let mut r = pad.clone();
    r.append("\u{2192} ");
    r.append(callee.as_str());
    r.append("()");
    proof {
        reveal_strlit("\u{2192} ");
        reveal_strlit("()");
        assert(r@ =~= pad@ + seq!['\u{2192}', ' '] + callee@ + seq!['(', ')']);
    }
    r
}

proof fn lemma_unvisited_shrinks(g: CallMap, v: Set<Seq<char>>, n: Seq<char>, w: Set<Seq<char>>)
    requires
        g.dom().finite(),
        g.contains_key(n),
        !v.contains(n),
        v.insert(n).subset_of(w),
    ensures
        unvisited(g, w) < unvisited(g, v),
{
    assert(g.dom().difference(v.insert(n)) =~= g.dom().difference(v).remove(n));
    vstd::set_lib::lemma_len_subset(g.dom().difference(w), g.dom().difference(v.insert(n)));
}

/// Appends to `lines` the text trace from `fn_name` at `depth`, skipping names
/// already in `visited` and adding each name it expands.
pub(crate) fn build_chain(
    fn_name: &String,
    fn_map: &CallGraph,
    depth: usize,
    visited: &mut NameSet,
    lines: &mut Vec<String>,
)
    requires
        fn_map.wf(),
        old(visited).wf(),
        depth <= old(visited).size(),
    ensures
        final(visited).wf(),
        final(visited).size() >= old(visited).size(),
        final(visited)@ == walk(fn_map@, fn_name@, depth as nat, old(visited)@).1,
        names_view(final(lines)@) == names_view(old(lines)@) + text_lines(walk(fn_map@, fn_name@, depth as nat, old(visited)@).0),
    decreases unvisited(fn_map@, visited@),
{
    let ghost g = fn_map@;
    let ghost n = fn_name@;
    let ghost d = depth as nat;
    let ghost v0 = visited@;
    let ghost lines0 = names_view(lines@);
    proof {
        fn_map.lemma_finite();
    }
    if !visited.insert(fn_name.clone()) {
        proof {
            assert(names_view(lines@) =~= lines0 + text_lines(Seq::<Step>::empty()));
        }
        return;
    }
    let pad = indent_of(depth);
    let own = own_line(&pad, fn_name);
    lines.push(own);
    let ghost own_step = Step::Expand { name: n, depth: d };
    proof {
        assert(names_view(lines@) =~= lines0.push(text_line(own_step)));
    }
    match fn_map.get(fn_name) {
        None => {
            proof {
                assert(text_lines(seq![own_step]) =~= seq![text_line(own_step)]);
                assert(names_view(lines@) =~= lines0 + text_lines(seq![own_step]));
            }
        },
        Some(calls) => {
            let ghost cs = g[n];
            let ghost v1 = v0.insert(n);
            let ghost target = walk_calls(g, n, cs, d, v1);
            proof {
                assert(cs.subrange(0, cs.len() as int) =~= cs);
                assert(text_lines(seq![own_step] + target.0) =~= seq![text_line(own_step)] + text_lines(target.0));
            }
            let mut i: usize = 0;
            while i < calls.len()
                invariant
                    fn_map.wf(),
                    g == fn_map@,
                    v0 == old(visited)@,
                    n == fn_name@,
                    d == depth as nat,
                    pad@ == indent(d),
                    g.dom().finite(),
                    g.contains_key(n),
                    !v0.contains(n),
                    v1 == v0.insert(n),
                    cs == g[n],
                    names_view(calls@) == cs,
                    i <= cs.len(),
                    visited.wf(),
                    visited.size() >= old(visited).size() + 1,
                    depth <= old(visited).size(),
                    v1.subset_of(visited@),
                    walk_calls(g, n, cs.subrange(i as int, cs.len() as int), d, visited@).1 == target.1,
                    names_view(lines@) + text_lines(walk_calls(g, n, cs.subrange(i as int, cs.len() as int), d, visited@).0)
                        == lines0 + text_lines(seq![own_step] + target.0),
                decreases cs.len() - i,
            {
                let ghost vi = visited@;
                let ghost li = names_view(lines@);
                let ghost rest = cs.subrange(i as int, cs.len() as int);
                let ghost c = cs[i as int];
                let ghost first = walk(g, c, d + 1, vi);
                let ghost tail = walk_calls(g, n, cs.subrange(i + 1, cs.len() as int), d, vi.union(first.1));
                proof {
                    assert(rest[0] == c);
                    assert(rest.drop_first() =~= cs.subrange(i + 1, cs.len() as int));
                    lemma_walk_grows(g, c, d + 1, vi);
                    assert(vi.union(first.1) =~= first.1);
                    lemma_unvisited_shrinks(g, v0, n, vi);
                    visited.lemma_bounded();
                }
                let call_step = arrow_line(&pad, &calls[i]);
                proof {
                    assert(names_view(calls@)[i as int] == calls@[i as int]@);
                    let call = Step::Call { caller: n, callee: c, depth: d };
                    assert(call_step@ == text_line(call));
                }
                lines.push(call_step);
                proof {
                    let call = Step::Call { caller: n, callee: c, depth: d };
                    assert(names_view(lines@) =~= li.push(text_line(call)));
                }
                build_chain(&calls[i], fn_map, depth + 1, visited, lines);
                proof {
                    let call = Step::Call { caller: n, callee: c, depth: d };
                    assert(names_view(lines@) =~= li.push(text_line(call)) + text_lines(first.0));
                    assert(text_lines(seq![call] + first.0 + tail.0) =~= seq![text_line(call)] + text_lines(first.0) + text_lines(tail.0));
                    assert(names_view(lines@) + text_lines(tail.0) =~= li + text_lines(seq![call] + first.0 + tail.0));
                }
                i += 1;
            }
            proof {
                assert(cs.subrange(i as int, cs.len() as int) =~= Seq::<Seq<char>>::empty());
                assert(text_lines(Seq::<Step>::empty()) =~= Seq::<Seq<char>>::empty());
                assert(names_view(lines@) =~= lines0 + text_lines(seq![own_step] + target.0));
            }
        },
    }
}

} // verus!

verus! {

/// The diagram line of one call: `<caller>[<caller>] --> <callee>[<callee>]`.
pub open spec fn edge_line(caller: Seq<char>, callee: Seq<char>) -> Seq<char> {
    caller + seq!['['] + caller + seq![']', ' ', '-', '-', '>', ' '] + callee + seq!['['] + callee + seq![']']
}

/// The diagram lines of a sequence of steps: one edge per call, in order.
pub open spec fn diagram_lines(t: Seq<Step>) -> Seq<Seq<char>>
    decreases t.len(),
{
    if t.len() == 0 {
        Seq::empty()
    } else {
        let head = match t[0] {
            Step::Call { caller, callee, .. } => seq![edge_line(caller, callee)],
            Step::Expand { .. } => Seq::empty(),
        };
        head + diagram_lines(t.drop_first())
    }
}

pub proof fn lemma_diagram_lines_add(a: Seq<Step>, b: Seq<Step>)
    ensures
        diagram_lines(a + b) == diagram_lines(a) + diagram_lines(b),
    decreases a.len(),
{
    if a.len() == 0 {
        assert(a + b =~= b);
        assert(diagram_lines(a) =~= Seq::<Seq<char>>::empty());
        assert(diagram_lines(a) + diagram_lines(b) =~= diagram_lines(b));
    } else {
        assert((a + b).drop_first() =~= a.drop_first() + b);
        lemma_diagram_lines_add(a.drop_first(), b);
        assert((a + b)[0] == a[0]);
        let head = match a[0] {
            Step::Call { caller, callee, .. } => seq![edge_line(caller, callee)],
            Step::Expand { .. } => Seq::<Seq<char>>::empty(),
        };
        assert(diagram_lines(a + b) =~= head + (diagram_lines(a.drop_first()) + diagram_lines(b)));
        assert(diagram_lines(a) + diagram_lines(b) =~= head + (diagram_lines(a.drop_first()) + diagram_lines(b)));
    }
}

fn edge_text(caller: &String, callee: &String) -> (r: String)
    ensures
        r@ == edge_line(caller@, callee@),
{
    let mut r = caller.clone();
    r.append("[");
    r.append(caller.as_str());
    r.append("] --> ");
    r.append(callee.as_str());
    r.append("[");
    r.append(callee.as_str());
    r.append("]");
    proof {
        reveal_strlit("[");
        reveal_strlit("] --> ");
        reveal_strlit("]");
        assert(r@ =~= edge_line(caller@, callee@));
    }
    r
}

/// Appends to `lines` the diagram edges of the traversal from `fn_name`,
/// skipping names already in `visited` and adding each name it expands.
pub(crate) fn build_mermaid_chain(
    fn_name: &String,
    fn_map: &CallGraph,
    Ghost(depth): Ghost<nat>,
    visited: &mut NameSet,
    lines: &mut Vec<String>,
)
    requires
        fn_map.wf(),
        old(visited).wf(),
    ensures
        final(visited).wf(),
        final(visited)@ == walk(fn_map@, fn_name@, depth, old(visited)@).1,
        names_view(final(lines)@) == names_view(old(lines)@) + diagram_lines(walk(fn_map@, fn_name@, depth, old(visited)@).0),
    decreases unvisited(fn_map@, visited@),
{
    let ghost g = fn_map@;
    let ghost n = fn_name@;
    let ghost v0 = visited@;
    let ghost lines0 = names_view(lines@);
    proof {
        fn_map.lemma_finite();
    }
    if !visited.insert(fn_name.clone()) {
        proof {
            assert(names_view(lines@) =~= lines0 + diagram_lines(Seq::<Step>::empty()));
        }
        return;
    }
    let ghost own_step = Step::Expand { name: n, depth };
    proof {
        reveal_with_fuel(diagram_lines, 2);
        assert(seq![own_step].drop_first() =~= Seq::<Step>::empty());
        assert(diagram_lines(seq![own_step]) =~= Seq::<Seq<char>>::empty());
    }
    match fn_map.get(fn_name) {
        None => {
            proof {
                assert(names_view(lines@) =~= lines0 + diagram_lines(seq![own_step]));
            }
        },
        Some(calls) => {
            let ghost cs = g[n];
            let ghost v1 = v0.insert(n);
            let ghost target = walk_calls(g, n, cs, depth, v1);
            proof {
                assert(cs.subrange(0, cs.len() as int) =~= cs);
                lemma_diagram_lines_add(seq![own_step], target.0);
                assert(lines0 =~= lines0 + diagram_lines(seq![own_step]));
            }
            let mut i: usize = 0;
            while i < calls.len()
                invariant
                    fn_map.wf(),
                    g == fn_map@,
                    v0 == old(visited)@,
                    n == fn_name@,
                    g.dom().finite(),
                    g.contains_key(n),
                    !v0.contains(n),
                    v1 == v0.insert(n),
                    cs == g[n],
                    names_view(calls@) == cs,
                    i <= cs.len(),
                    visited.wf(),
                    v1.subset_of(visited@),
                    walk_calls(g, n, cs.subrange(i as int, cs.len() as int), depth, visited@).1 == target.1,
                    names_view(lines@) + diagram_lines(walk_calls(g, n, cs.subrange(i as int, cs.len() as int), depth, visited@).0)
                        == lines0 + diagram_lines(seq![own_step] + target.0),
                decreases cs.len() - i,
            {
                let ghost vi = visited@;
                let ghost li = names_view(lines@);
                let ghost rest = cs.subrange(i as int, cs.len() as int);
                let ghost c = cs[i as int];
                let ghost first = walk(g, c, depth + 1, vi);
                let ghost tail = walk_calls(g, n, cs.subrange(i + 1, cs.len() as int), depth, vi.union(first.1));
                let ghost call = Step::Call { caller: n, callee: c, depth };
                proof {
                    assert(rest[0] == c);
                    assert(rest.drop_first() =~= cs.subrange(i + 1, cs.len() as int));
                    lemma_walk_grows(g, c, depth + 1, vi);
                    assert(vi.union(first.1) =~= first.1);
                    lemma_unvisited_shrinks(g, v0, n, vi);
                    assert(names_view(calls@)[i as int] == calls@[i as int]@);
                }
                let edge = edge_text(fn_name, &calls[i]);
                lines.push(edge);
                proof {
                    assert(names_view(lines@) =~= li.push(edge_line(n, c)));
                }
                build_mermaid_chain(&calls[i], fn_map, Ghost(depth + 1), visited, lines);
                proof {
                    reveal_with_fuel(diagram_lines, 2);
                    assert(seq![call].drop_first() =~= Seq::<Step>::empty());
                    assert(diagram_lines(seq![call]) =~= seq![edge_line(n, c)]);
                    lemma_diagram_lines_add(seq![call], first.0);
                    lemma_diagram_lines_add(seq![call] + first.0, tail.0);
                    assert(names_view(lines@) + diagram_lines(tail.0) =~= li + diagram_lines(seq![call] + first.0 + tail.0));
                }
                i += 1;
            }
            proof {
                assert(cs.subrange(i as int, cs.len() as int) =~= Seq::<Seq<char>>::empty());
                assert(names_view(lines@) =~= lines0 + diagram_lines(seq![own_step] + target.0));
            }
        },
    }
}

} // verus!

verus! {

/// Lines joined by newlines, with no newline after the last.
pub open spec fn joined(s: Seq<Seq<char>>) -> Seq<char>
    decreases s.len(),
{
    if s.len() == 0 {
        Seq::empty()
    } else if s.len() == 1 {
        s[0]
    } else {
        joined(s.drop_last()) + seq!['\n'] + s.last()
    }
}

pub(crate) fn join_lines(lines: &Vec<String>) -> (r: String)
    ensures
        r@ == joined(names_view(lines@)),
{
    let ghost all = names_view(lines@);
    let mut r = String::new();
    let mut i: usize = 0;
    while i < lines.len()
        invariant
            i <= lines@.len(),
            all == names_view(lines@),
            r@ == joined(all.take(i as int)),
        decreases lines@.len() - i,
    {
        if i > 0 {
            r.append("\n");
        }
        r.append(lines[i].as_str());
        proof {
            reveal_strlit("\n");
            assert(all.take(i + 1).drop_last() =~= all.take(i as int));
            assert(all.take(i + 1).last() == lines@[i as int]@);
            if i == 0 {
                assert(r@ =~= joined(all.take(1)));
            } else {
                assert(r@ =~= joined(all.take(i + 1)));
            }
        }
        i += 1;
    }
    proof {
        assert(all.take(i as int) =~= all);
    }
    r
}

} // verus!
