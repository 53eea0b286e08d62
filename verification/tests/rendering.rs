use reason_tree::graph::BuildResult;
use reason_tree::graph::Module;
use reason_tree::graph::Reason;
use reason_tree::render::RenderEntry;
use reason_tree::render::render;
use reason_tree::render::render_entries;

fn make_module(id: &str, name: &str, reason_ids: Vec<Option<&str>>) -> Module {
    Module {
        id: id.to_string(),
        identifier: format!("./src/{}", id),
        name: name.to_string(),
        reasons: reason_ids
            .into_iter()
            .map(|r| Reason { module_id: r.map(|s| s.to_string()), user_request: None })
            .collect(),
    }
}

#[test]
fn cycle_is_reported_once_and_stops() {
    let root = BuildResult {
        modules: vec![
            make_module("A", "A", vec![Some("B")]),
            make_module("B", "B", vec![Some("A")]),
        ],
    };
    let lines = render(&root, "A".to_string()).unwrap();
    assert_eq!(
        lines,
        vec![
            "A (A)".to_string(),
            "  - B (B)".to_string(),
            "    - A (A)".to_string(),
            "       <Circular dependency>".to_string(),
        ]
    );
}

#[test]
fn self_loop_is_reported() {
    let root = BuildResult { modules: vec![make_module("A", "A", vec![Some("A")])] };
    let lines = render(&root, "A".to_string()).unwrap();
    assert_eq!(
        lines,
        vec![
            "A (A)".to_string(),
            "  - A (A)".to_string(),
            "     <Circular dependency>".to_string(),
        ]
    );
}

#[test]
fn absent_reason_renders_end_marker() {
    let root = BuildResult { modules: vec![make_module("A", "A", vec![None])] };
    let lines = render(&root, "A".to_string()).unwrap();
    assert_eq!(lines, vec!["A (A)".to_string(), "  - <End>".to_string()]);
}

#[test]
fn absent_reason_with_user_request_still_renders_end_marker() {
    let root = BuildResult {
        modules: vec![Module {
            id: "A".to_string(),
            identifier: "./src/A".to_string(),
            name: "A".to_string(),
            reasons: vec![Reason {
                module_id: None,
                user_request: Some("entry point".to_string()),
            }],
        }],
    };
    let lines = render(&root, "A".to_string()).unwrap();
    assert_eq!(lines, vec!["A (A)".to_string(), "  - <End>".to_string()]);
}

#[test]
fn dangling_reason_renders_like_absent_reason() {
    let dangling = BuildResult { modules: vec![make_module("A", "A", vec![Some("zzz")])] };
    let absent = BuildResult { modules: vec![make_module("A", "A", vec![None])] };
    let dangling_lines = render(&dangling, "A".to_string()).unwrap();
    let absent_lines = render(&absent, "A".to_string()).unwrap();
    assert_eq!(dangling_lines, absent_lines);
}

#[test]
fn missing_root_fails_with_no_output() {
    let root = BuildResult { modules: vec![make_module("A", "A", vec![])] };
    let result = render(&root, "X".to_string());
    assert!(result.is_err());
    let entries = render_entries(&root, "X".to_string());
    assert!(entries.is_err());
}

#[test]
fn module_with_no_reasons_is_a_leaf() {
    let root = BuildResult { modules: vec![make_module("A", "A", vec![])] };
    let lines = render(&root, "A".to_string()).unwrap();
    assert_eq!(lines, vec!["A (A)".to_string()]);
}

#[test]
fn module_reached_on_two_branches_is_rendered_twice() {
    let root = BuildResult {
        modules: vec![
            make_module("A", "A", vec![Some("B"), Some("C")]),
            make_module("B", "B", vec![Some("D")]),
            make_module("C", "C", vec![Some("D")]),
            make_module("D", "D", vec![]),
        ],
    };
    let lines = render(&root, "A".to_string()).unwrap();
    assert_eq!(
        lines,
        vec![
            "A (A)".to_string(),
            "  - B (B)".to_string(),
            "    - D (D)".to_string(),
            "  - C (C)".to_string(),
            "    - D (D)".to_string(),
        ]
    );
}

#[test]
fn reasons_render_in_their_listed_order() {
    let root = BuildResult {
        modules: vec![
            make_module("A", "A", vec![Some("C"), None, Some("B")]),
            make_module("B", "B", vec![]),
            make_module("C", "C", vec![]),
        ],
    };
    let lines = render(&root, "A".to_string()).unwrap();
    assert_eq!(
        lines,
        vec![
            "A (A)".to_string(),
            "  - C (C)".to_string(),
            "  - <End>".to_string(),
            "  - B (B)".to_string(),
        ]
    );
}

#[test]
fn each_hop_indents_two_levels_deeper() {
    let root = BuildResult {
        modules: vec![
            make_module("A", "A", vec![Some("B")]),
            make_module("B", "B", vec![Some("C")]),
            make_module("C", "C", vec![None]),
        ],
    };
    let lines = render(&root, "A".to_string()).unwrap();
    assert_eq!(
        lines,
        vec![
            "A (A)".to_string(),
            "  - B (B)".to_string(),
            "    - C (C)".to_string(),
            "      - <End>".to_string(),
        ]
    );
}

#[test]
fn render_is_deterministic_across_runs() {
    let root = BuildResult {
        modules: vec![
            make_module("A", "A", vec![Some("B"), None]),
            make_module("B", "B", vec![Some("A")]),
        ],
    };
    let first = render(&root, "A".to_string()).unwrap();
    let second = render(&root, "A".to_string()).unwrap();
    assert_eq!(first, second);
}

#[test]
fn entries_expose_the_walk_structure() {
    let root = BuildResult { modules: vec![make_module("A", "modA", vec![None])] };
    let entries = render_entries(&root, "A".to_string()).unwrap();
    assert_eq!(entries.len(), 2);
    match &entries[0] {
        RenderEntry::Visited { level, name, id } => {
            assert_eq!(*level, 0);
            assert_eq!(name, "modA");
            assert_eq!(id, "A");
        },
        _ => panic!("expected a visited module first"),
    }
    match &entries[1] {
        RenderEntry::End { level } => assert_eq!(*level, 2),
        _ => panic!("expected an end marker"),
    }
}

#[test]
fn display_name_differs_from_id_in_output() {
    let root = BuildResult {
        modules: vec![
            make_module("./a.js", "module a", vec![Some("./b.js")]),
            make_module("./b.js", "module b", vec![]),
        ],
    };
    let lines = render(&root, "./a.js".to_string()).unwrap();
    assert_eq!(
        lines,
        vec!["module a (./a.js)".to_string(), "  - module b (./b.js)".to_string()]
    );
}
