use vstd::prelude::*;
use crate::bodies::BodyTable;
use crate::graph::{CallGraph, CallMap, merge_calls};
use crate::names::NameSet;
use crate::render::{build_chain, build_mermaid_chain, diagram_lines, join_lines, joined, text_lines};
use crate::trace::trace;
use crate::visitor::FnCallVisitor;

verus! {

/// The name traced when no entry is given.
pub open spec fn default_entry() -> Seq<char> {
    seq!['m', 'a', 'i', 'n']
}

/// The entry to trace: the given name where it is present and non-empty, else `main`.
pub open spec fn entry_name(h: Option<&str>) -> Seq<char> {
    match h {
        Some(s) => if s@.len() > 0 { s@ } else { default_entry() },
        None => default_entry(),
    }
}

/// The header line of a diagram: `graph TD`.
pub open spec fn diagram_header() -> Seq<char> {
    seq!['g', 'r', 'a', 'p', 'h', ' ', 'T', 'D']
}

/// The text chain from `e`: one line per step of the traversal.
pub open spec fn text_report(g: CallMap, e: Seq<char>) -> Seq<char> {
    joined(text_lines(trace(g, e)))
}

/// The diagram from `e`: the header, then one edge per call of the traversal.
pub open spec fn diagram_report(g: CallMap, e: Seq<char>) -> Seq<char> {
    joined(seq![diagram_header()] + diagram_lines(trace(g, e)))
}

/// The call graph of a sequence of files, merged in order.
pub open spec fn collected(files: Seq<CallMap>) -> CallMap
    decreases files.len(),
{
    if files.len() == 0 {
        CallMap::empty()
    } else {
        merge_calls(collected(files.drop_last()), files.last())
    }
}

/// The facts of a whole project: the merged call graph and the definition texts.
pub struct ProjectFacts {
    fn_map: CallGraph,
    fn_bodies: BodyTable,
}

impl ProjectFacts {
    pub closed spec fn wf(&self) -> bool {
        self.fn_map.wf() && self.fn_bodies.wf()
    }

    /// The merged call graph.
    pub closed spec fn graph(&self) -> CallMap {
        self.fn_map@
    }

    /// The definition texts, the last one recorded for each name.
    pub closed spec fn bodies_view(&self) -> Map<Seq<char>, Seq<char>> {
        self.fn_bodies@
    }

    pub fn new() -> (r: Self)
        ensures
            r.wf(),
            r.graph() == CallMap::empty(),
            r.bodies_view() == Map::<Seq<char>, Seq<char>>::empty(),
    {
        ProjectFacts { fn_map: CallGraph::new(), fn_bodies: BodyTable::new() }
    }

    /// Adds the facts of one more file: a name's calls there follow its calls
    /// from the files added before, and its text there replaces any earlier one.
    pub fn add_file(&mut self, file: &FnCallVisitor)
        requires
            old(self).wf(),
            file.wf(),
        ensures
            final(self).wf(),
            final(self).graph() == merge_calls(old(self).graph(), file.calls_view()),
            final(self).bodies_view() == old(self).bodies_view().union_prefer_right(file.bodies_view()),
    {
        self.fn_map.merge(file.calls());
        self.fn_bodies.merge(file.bodies());
    }

    /// The merged call graph.
    pub fn fn_map(&self) -> (r: &CallGraph)
        requires
            self.wf(),
        ensures
            r.wf(),
            r@ == self.graph(),
    {
        &self.fn_map
    }

    /// The definition texts.
    pub fn fn_bodies(&self) -> (r: &BodyTable)
        requires
            self.wf(),
        ensures
            r.wf(),
            r@ == self.bodies_view(),
    {
        &self.fn_bodies
    }
}

/// Renders the text chain of `fn_map` from `entry_fn`.
pub fn render_text(fn_map: &CallGraph, entry_fn: &String) -> (r: String)
    requires
        fn_map.wf(),
    ensures
        r@ == text_report(fn_map@, entry_fn@),
{
    let mut visited = NameSet::new();
    let mut lines: Vec<String> = Vec::new();
    build_chain(entry_fn, fn_map, 0, &mut visited, &mut lines);
    proof {
        assert(crate::names::names_view(Seq::<String>::empty()) =~= Seq::<Seq<char>>::empty());
        assert(crate::names::names_view(lines@) =~= text_lines(trace(fn_map@, entry_fn@)));
    }
    join_lines(&lines)
}

/// Renders the diagram of `fn_map` from `entry_fn`.
pub fn render_diagram(fn_map: &CallGraph, entry_fn: &String) -> (r: String)
    requires
        fn_map.wf(),
    ensures
        r@ == diagram_report(fn_map@, entry_fn@),
{
    let mut visited = NameSet::new();
    let mut lines: Vec<String> = Vec::new();
    let header_text = "graph TD";
    proof {
        reveal_strlit("graph TD");
        assert(header_text@ =~= diagram_header());
    }
    let header = header_text.to_owned();
    lines.push(header);
    proof {
        assert(crate::names::names_view(lines@) =~= seq![diagram_header()]);
    }
    build_mermaid_chain(entry_fn, fn_map, Ghost(0), &mut visited, &mut lines);
    join_lines(&lines)
}

/// The text chain of the project's call graph from `entry_fn`.
pub fn extract_call_chain_real(facts: &ProjectFacts, entry_fn: &str) -> (r: String)
    requires
        facts.wf(),
    ensures
        r@ == text_report(facts.graph(), entry_fn@),
{
    render_text(facts.fn_map(), &entry_fn.to_owned())
}

/// The diagram of the project's call graph from `entry_fn`.
pub fn extract_call_chain_mermaid_real(facts: &ProjectFacts, entry_fn: &str) -> (r: String)
    requires
        facts.wf(),
    ensures
        r@ == diagram_report(facts.graph(), entry_fn@),
{
    render_diagram(facts.fn_map(), &entry_fn.to_owned())
}

/// The entry to trace: `test_hash` where it is given and non-empty, else `main`.
pub fn resolve_entry(test_hash: Option<&str>) -> (r: String)
    ensures
        r@ == entry_name(test_hash),
{
    match test_hash {
        Some(s) => {
            if !s.is_empty() {
                return s.to_owned();
            }
        },
        None => {},
    }
    proof {
        reveal_strlit("main");
    }
    "main".to_owned()
}

/// The text chain of the project from the entry that `test_hash` selects.
pub fn analyze_project(facts: &ProjectFacts, test_hash: Option<&str>) -> (r: String)
    requires
        facts.wf(),
    ensures
        r@ == text_report(facts.graph(), entry_name(test_hash)),
{
    let entry_fn = resolve_entry(test_hash);
    render_text(facts.fn_map(), &entry_fn)
}

} // verus!
