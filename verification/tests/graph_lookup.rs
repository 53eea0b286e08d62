use reason_tree::graph::BuildResult;
use reason_tree::graph::Module;
use reason_tree::graph::Reason;
use reason_tree::graph::find_module_by_id;
use reason_tree::render::render;

fn plain_module(id: &str, name: &str) -> Module {
    Module {
        id: id.to_string(),
        identifier: format!("./src/{}", id),
        name: name.to_string(),
        reasons: vec![],
    }
}

#[test]
fn lookup_finds_a_module_by_id() {
    let modules = vec![plain_module("A", "first"), plain_module("B", "second")];
    let found = find_module_by_id(&modules, "B".to_string()).unwrap();
    assert_eq!(found.id, "B");
    assert_eq!(found.name, "second");
}

#[test]
fn lookup_of_an_absent_id_is_none() {
    let modules = vec![plain_module("A", "first")];
    assert!(find_module_by_id(&modules, "B".to_string()).is_none());
}

#[test]
fn of_two_modules_sharing_an_id_the_first_wins() {
    let modules = vec![plain_module("A", "first"), plain_module("A", "second")];
    let found = find_module_by_id(&modules, "A".to_string()).unwrap();
    assert_eq!(found.name, "first");

    let root = BuildResult { modules };
    let lines = render(&root, "A".to_string()).unwrap();
    assert_eq!(lines, vec!["first (A)".to_string()]);
}

#[test]
fn cloned_records_carry_the_same_fields() {
    let module = Module {
        id: "A".to_string(),
        identifier: "./src/A".to_string(),
        name: "module a".to_string(),
        reasons: vec![Reason {
            module_id: Some("B".to_string()),
            user_request: Some("import".to_string()),
        }],
    };
    let copy = module.clone();
    assert_eq!(copy.id, module.id);
    assert_eq!(copy.identifier, module.identifier);
    assert_eq!(copy.name, module.name);
    assert_eq!(copy.reasons.len(), 1);
    assert_eq!(copy.reasons[0].module_id, Some("B".to_string()));
    assert_eq!(copy.reasons[0].user_request, Some("import".to_string()));

    let root = BuildResult { modules: vec![module] };
    let root_copy = root.clone();
    assert_eq!(root_copy.modules.len(), 1);
    assert_eq!(root_copy.modules[0].id, "A");
}
