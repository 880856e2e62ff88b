use rtop::proc_tree::{
    build_child_items, build_nodes, build_path, render_line, render_process_graph, str_less,
    ChildItem, LineKind, ProcEntry, ProcessGraph,
};

fn entry(pid: u32, name: &str, parent: Option<u32>) -> ProcEntry {
    ProcEntry { pid, name: name.to_string(), parent }
}

fn sample() -> Vec<ProcEntry> {
    vec![
        entry(30, "rtop", Some(20)),
        entry(1, "systemd", None),
        entry(41, "worker", Some(1)),
        entry(10, "sshd", Some(1)),
        entry(20, "bash", Some(10)),
        entry(40, "worker", Some(1)),
        entry(50, "cron", Some(1)),
    ]
}

fn graph(selected: Option<u32>, max_lines: usize, width: usize) -> ProcessGraph {
    let nodes = build_nodes(&sample());
    render_process_graph(&nodes, selected, max_lines, width)
}

fn lines(g: ProcessGraph) -> Vec<(String, LineKind)> {
    match g {
        ProcessGraph::Lines(v) => v.into_iter().map(|l| (l.text, l.kind)).collect(),
        _ => panic!("expected lines"),
    }
}

#[test]
fn children_sorted_by_name_then_pid() {
    let nodes = build_nodes(&sample());
    assert_eq!(nodes.len(), 7);
    assert_eq!(nodes[&1].children, vec![50, 10, 40, 41]);
    assert_eq!(nodes[&10].children, vec![20]);
    assert!(nodes[&30].children.is_empty());
    assert_eq!(nodes[&30].parent, Some(20));
}

#[test]
fn path_from_root() {
    let nodes = build_nodes(&sample());
    assert_eq!(build_path(30, &nodes), vec![1, 10, 20, 30]);
    assert_eq!(build_path(1, &nodes), vec![1]);
    let orphan = build_nodes(&vec![entry(7, "x", Some(99))]);
    assert_eq!(build_path(7, &orphan), vec![7]);
}

#[test]
fn path_stops_at_a_cycle() {
    let nodes = build_nodes(&vec![entry(1, "a", Some(2)), entry(2, "b", Some(1))]);
    assert_eq!(build_path(1, &nodes), vec![2, 1]);
}

#[test]
fn same_named_leaves_grouped() {
    let nodes = build_nodes(&sample());
    let items = build_child_items(&vec![50, 10, 40, 41], &nodes, true);
    assert_eq!(items.len(), 3);
    assert!(matches!(items[0], ChildItem::Node(50)));
    assert!(matches!(items[1], ChildItem::Node(10)));
    match &items[2] {
        ChildItem::Group { name, count } => {
            assert_eq!(name, "worker");
            assert_eq!(*count, 2);
        }
        _ => panic!("expected a group"),
    }
    let items = build_child_items(&vec![50, 10, 40, 41], &nodes, false);
    assert_eq!(items.len(), 4);
}

#[test]
fn tree_lines() {
    let prefix: Vec<char> = "|   ".chars().collect();
    let label: Vec<char> = "bash (20)".chars().collect();
    assert_eq!(render_line(&prefix, true, false, &label, 40), "|   \\-- bash (20)");
    assert_eq!(render_line(&prefix, false, false, &label, 40), "|   |-- bash (20)");
    assert_eq!(render_line(&Vec::new(), true, true, &label, 40), "bash (20)");
    assert_eq!(render_line(&prefix, true, false, &label, 10), "|   \\--...");
}

#[test]
fn graph_along_the_path() {
    let l = lines(graph(Some(30), 10, 40));
    assert_eq!(
        l,
        vec![
            ("systemd (1)".to_string(), LineKind::Process),
            ("\\-- sshd (10)".to_string(), LineKind::Process),
            ("    \\-- bash (20)".to_string(), LineKind::Process),
            ("        \\-- rtop (30)".to_string(), LineKind::Selected),
        ]
    );
}

#[test]
fn graph_of_the_root() {
    let l = lines(graph(Some(1), 20, 40));
    let texts: Vec<&str> = l.iter().map(|(t, _)| t.as_str()).collect();
    assert_eq!(
        texts,
        vec![
            "systemd (1)",
            "|-- cron (50)",
            "|-- sshd (10)",
            "|   \\-- bash (20)",
            "|       \\-- rtop (30)",
            "\\-- worker (x2)",
        ]
    );
    assert_eq!(l[0].1, LineKind::Selected);
    assert_eq!(l[5].1, LineKind::Group);
}

#[test]
fn graph_truncated() {
    let l = lines(graph(Some(1), 3, 40));
    let texts: Vec<&str> = l.iter().map(|(t, _)| t.as_str()).collect();
    assert_eq!(texts, vec!["systemd (1)", "|-- cron (50)", "... truncated ..."]);
    assert_eq!(l[2].1, LineKind::Note);
    let l = lines(graph(Some(30), 4, 40));
    assert_eq!(l.len(), 4);
    assert_eq!(l[3].0, "... truncated ...");
}

#[test]
fn graph_without_room() {
    let l = lines(graph(Some(30), 0, 40));
    assert_eq!(l, vec![("... truncated ...".to_string(), LineKind::Note)]);
}

#[test]
fn graph_without_selection() {
    assert!(matches!(graph(None, 10, 40), ProcessGraph::NoSelection));
    assert!(matches!(graph(Some(999), 10, 40), ProcessGraph::Unavailable));
}

#[test]
fn names_ordered_like_str() {
    let a: Vec<char> = "abc".chars().collect();
    let b: Vec<char> = "abd".chars().collect();
    let c: Vec<char> = "ab".chars().collect();
    assert!(str_less(&a, &b));
    assert!(!str_less(&b, &a));
    assert!(str_less(&c, &a));
    assert!(!str_less(&a, &a));
}
