use rust_static::{
    BodyTable, CallGraph, FnCallVisitor, NameSet, ProjectFacts, analyze_project,
    extract_call_chain_mermaid_real, extract_call_chain_real, render_diagram, render_text,
    resolve_entry,
};

fn s(x: &str) -> String {
    x.to_string()
}

/// One file's facts: each function with the callees in its body, in order.
fn file(fns: &[(&str, &[&str])]) -> FnCallVisitor {
    let mut v = FnCallVisitor::new();
    for (name, calls) in fns {
        v.enter_fn(s(name), format!("fn {}() {{}}", name));
        for c in calls.iter() {
            v.record_call(Some(s(c)));
        }
        v.leave_fn();
    }
    v
}

fn project(files: &[FnCallVisitor]) -> ProjectFacts {
    let mut p = ProjectFacts::new();
    for f in files {
        p.add_file(f);
    }
    p
}

fn example_project() -> ProjectFacts {
    project(&[file(&[("main", &["a", "b"]), ("a", &["c"]), ("b", &[]), ("c", &[])])])
}

#[test]
fn text_chain_of_example_graph() {
    let p = example_project();
    assert_eq!(
        extract_call_chain_real(&p, "main"),
        "main()\n→ a()\n  a()\n  → c()\n    c()\n→ b()\n  b()"
    );
}

#[test]
fn diagram_of_example_graph() {
    let p = example_project();
    assert_eq!(
        extract_call_chain_mermaid_real(&p, "main"),
        "graph TD\nmain[main] --> a[a]\na[a] --> c[c]\nmain[main] --> b[b]"
    );
}

#[test]
fn absent_entry_is_a_single_line() {
    let p = example_project();
    assert_eq!(extract_call_chain_real(&p, "nowhere"), "nowhere()");
    assert_eq!(extract_call_chain_mermaid_real(&p, "nowhere"), "graph TD");
}

#[test]
fn empty_project_gives_degenerate_output() {
    let p = ProjectFacts::new();
    assert_eq!(analyze_project(&p, None), "main()");
    assert_eq!(extract_call_chain_mermaid_real(&p, "main"), "graph TD");
}

#[test]
fn cycle_terminates_and_expands_each_name_once() {
    let p = project(&[file(&[("a", &["b"]), ("b", &["a"])])]);
    assert_eq!(extract_call_chain_real(&p, "a"), "a()\n→ b()\n  b()\n  → a()");
    assert_eq!(
        extract_call_chain_mermaid_real(&p, "a"),
        "graph TD\na[a] --> b[b]\nb[b] --> a[a]"
    );
}

#[test]
fn self_recursion_terminates() {
    let p = project(&[file(&[("r", &["r", "r"])])]);
    assert_eq!(extract_call_chain_real(&p, "r"), "r()\n→ r()\n→ r()");
    assert_eq!(extract_call_chain_mermaid_real(&p, "r"), "graph TD\nr[r] --> r[r]\nr[r] --> r[r]");
}

#[test]
fn repeated_calls_keep_their_order() {
    let p = project(&[file(&[("m", &["f", "g", "f"])])]);
    assert_eq!(extract_call_chain_real(&p, "m"), "m()\n→ f()\n  f()\n→ g()\n  g()\n→ f()");
    assert_eq!(
        extract_call_chain_mermaid_real(&p, "m"),
        "graph TD\nm[m] --> f[f]\nm[m] --> g[g]\nm[m] --> f[f]"
    );
}

#[test]
fn unknown_callee_is_a_leaf() {
    let p = project(&[file(&[("main", &["println_helper", "known"]), ("known", &[])])]);
    assert_eq!(
        extract_call_chain_real(&p, "main"),
        "main()\n→ println_helper()\n  println_helper()\n→ known()\n  known()"
    );
}

#[test]
fn same_name_in_two_files_merges_calls() {
    let p = project(&[
        file(&[("main", &["helper"]), ("helper", &["x"])]),
        file(&[("helper", &["y", "x"])]),
    ]);
    let g = p.fn_map();
    let helper = s("helper");
    let calls: Vec<String> = g.get(&helper).unwrap().clone();
    assert_eq!(calls, vec![s("x"), s("y"), s("x")]);
    assert_eq!(
        extract_call_chain_real(&p, "main"),
        "main()\n→ helper()\n  helper()\n  → x()\n    x()\n  → y()\n    y()\n  → x()"
    );
}

#[test]
fn analysis_is_deterministic() {
    let files = || {
        vec![
            file(&[("main", &["a", "b"]), ("b", &["a"])]),
            file(&[("a", &["b", "c"])]),
        ]
    };
    let first = project(&files());
    let second = project(&files());
    assert_eq!(analyze_project(&first, Some("main")), analyze_project(&second, Some("main")));
    assert_eq!(
        extract_call_chain_mermaid_real(&first, "main"),
        extract_call_chain_mermaid_real(&second, "main")
    );
    assert_eq!(analyze_project(&first, Some("main")), analyze_project(&first, Some("main")));
}

#[test]
fn entry_defaults_to_main() {
    assert_eq!(resolve_entry(None), "main");
    assert_eq!(resolve_entry(Some("")), "main");
    assert_eq!(resolve_entry(Some("run")), "run");
}

#[test]
fn analyze_project_uses_resolved_entry() {
    let p = example_project();
    assert_eq!(analyze_project(&p, None), extract_call_chain_real(&p, "main"));
    assert_eq!(analyze_project(&p, Some("")), extract_call_chain_real(&p, "main"));
    assert_eq!(analyze_project(&p, Some("a")), "a()\n→ c()\n  c()");
}

#[test]
fn calls_outside_a_function_are_ignored() {
    let mut v = FnCallVisitor::new();
    v.record_call(Some(s("stray")));
    v.enter_fn(s("f"), s("fn f() { g(); }"));
    v.record_call(None);
    v.record_call(Some(s("g")));
    v.leave_fn();
    v.record_call(Some(s("late")));
    let f = s("f");
    assert_eq!(v.calls().get(&f).unwrap().clone(), vec![s("g")]);
    assert!(v.calls().get(&s("stray")).is_none());
    assert!(v.calls().get(&s("late")).is_none());
}

#[test]
fn last_body_wins() {
    let mut a = FnCallVisitor::new();
    a.enter_fn(s("helper"), s("fn helper() { one(); }"));
    a.leave_fn();
    let mut b = FnCallVisitor::new();
    b.enter_fn(s("helper"), s("fn helper() { two(); }"));
    b.leave_fn();
    let p = project(&[a, b]);
    assert_eq!(p.fn_bodies().get(&s("helper")).unwrap(), "fn helper() { two(); }");
    assert!(p.fn_bodies().get(&s("other")).is_none());
}

#[test]
fn body_table_insert_replaces() {
    let mut t = BodyTable::new();
    t.insert(s("f"), s("one"));
    t.insert(s("g"), s("two"));
    t.insert(s("f"), s("three"));
    assert_eq!(t.get(&s("f")).unwrap(), "three");
    assert_eq!(t.get(&s("g")).unwrap(), "two");
}

#[test]
fn call_graph_push_and_extend() {
    let mut g = CallGraph::new();
    let n = s("n");
    assert!(g.get(&n).is_none());
    g.push_call(&n, s("a"));
    g.extend_calls(&n, vec![s("b"), s("a")]);
    assert_eq!(g.get(&n).unwrap().clone(), vec![s("a"), s("b"), s("a")]);
    let mut h = CallGraph::new();
    h.push_call(&n, s("z"));
    h.push_call(&s("m"), s("n"));
    g.merge(&h);
    assert_eq!(g.get(&n).unwrap().clone(), vec![s("a"), s("b"), s("a"), s("z")]);
    assert_eq!(render_text(&g, &s("m")), "m()\n→ n()\n  n()\n  → a()\n    a()\n  → b()\n    b()\n  → a()\n  → z()\n    z()");
    assert_eq!(
        render_diagram(&g, &s("m")),
        "graph TD\nm[m] --> n[n]\nn[n] --> a[a]\nn[n] --> b[b]\nn[n] --> a[a]\nn[n] --> z[z]"
    );
}

#[test]
fn name_set_insert_reports_novelty() {
    let mut v = NameSet::new();
    assert!(!v.contains(&s("a")));
    assert!(v.insert(s("a")));
    assert!(!v.insert(s("a")));
    assert!(v.contains(&s("a")));
}

#[test]
fn deep_chain_indents_two_spaces_per_level() {
    let p = project(&[file(&[("a", &["b"]), ("b", &["c"]), ("c", &["d"])])]);
    assert_eq!(
        extract_call_chain_real(&p, "a"),
        "a()\n→ b()\n  b()\n  → c()\n    c()\n    → d()\n      d()"
    );
}

#[test]
fn calls_after_a_nested_fn_belong_to_the_enclosing_fn() {
    // fn o() { fn inner() { x(); } y(); }
    let mut v = FnCallVisitor::new();
    v.enter_fn(s("o"), s("fn o() { fn inner() { x(); } y(); }"));
    v.enter_fn(s("inner"), s("fn inner() { x(); }"));
    v.record_call(Some(s("x")));
    v.leave_fn();
    v.record_call(Some(s("y")));
    v.leave_fn();
    assert_eq!(v.calls().callees_of(&s("o")), vec![s("y")]);
    assert_eq!(v.calls().callees_of(&s("inner")), vec![s("x")]);
    v.leave_fn();
    v.record_call(Some(s("after")));
    assert!(v.calls().get(&s("after")).is_none());
}

#[test]
fn callees_of_unknown_name_is_empty() {
    let p = example_project();
    assert_eq!(p.fn_map().callees_of(&s("main")), vec![s("a"), s("b")]);
    assert_eq!(p.fn_map().callees_of(&s("b")), Vec::<String>::new());
    assert_eq!(p.fn_map().callees_of(&s("nowhere")), Vec::<String>::new());
}
