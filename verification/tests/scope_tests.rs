use crush::errors::ErrorKind;
use crush::scope::ScopeGraph;
use crush::value::Value;

fn text(s: &str) -> Value {
    Value::Text(s.to_string())
}

fn as_text(v: Option<Value>) -> Option<String> {
    match v {
        Some(Value::Text(s)) => Some(s),
        _ => None,
    }
}

#[test]
fn new_graph_holds_the_global_root() {
    let g = ScopeGraph::new();
    assert_eq!(g.len(), 1);
    assert!(g.contains(0));
    assert!(!g.contains(1));
    let root = g.export(0);
    assert_eq!(root.name, Some("global".to_string()));
    assert_eq!(root.parent_scope, None);
    assert!(root.mapping.is_empty());
    assert!(!root.is_readonly);
}

#[test]
fn create_gives_consecutive_identities() {
    let mut g = ScopeGraph::new();
    let a = g.create(Some("a".to_string()), true, false, false);
    let b = g.create(None, false, false, true);
    assert_eq!(a, 1);
    assert_eq!(b, 2);
    let na = g.export(a);
    assert_eq!(na.name, Some("a".to_string()));
    assert!(na.is_loop);
    let nb = g.export(b);
    assert_eq!(nb.name, None);
    assert!(nb.is_readonly);
}

#[test]
fn declare_fails_on_a_bound_name() {
    let mut g = ScopeGraph::new();
    assert!(g.declare(0, "x", text("one")).is_ok());
    let err = g.declare(0, "x", text("two")).unwrap_err();
    assert_eq!(err.kind, ErrorKind::Generic);
    assert_eq!(err.message, "Variable already exists");
    assert_eq!(as_text(g.get_str(0, "x")), Some("one".to_string()));
}

#[test]
fn redeclare_overwrites_in_place() {
    let mut g = ScopeGraph::new();
    g.declare(0, "x", text("one")).unwrap();
    g.declare(0, "y", text("why")).unwrap();
    g.redeclare(0, "x", text("two")).unwrap();
    let node = g.export(0);
    assert_eq!(node.mapping.len(), 2);
    assert_eq!(node.mapping[0].0, "x");
    assert_eq!(node.mapping[1].0, "y");
    assert_eq!(as_text(g.get_str(0, "x")), Some("two".to_string()));
    g.redeclare(0, "z", text("zed")).unwrap();
    assert_eq!(g.export(0).mapping.len(), 3);
}

#[test]
fn redeclare_fails_on_a_read_only_scope() {
    let mut g = ScopeGraph::new();
    let s = g.create(None, false, false, true);
    let err = g.redeclare(s, "x", text("one")).unwrap_err();
    assert_eq!(err.message, "Scope is read only");
    assert!(g.export(s).mapping.is_empty());
}

#[test]
fn lookup_goes_local_then_uses_then_parent() {
    let mut g = ScopeGraph::new();
    let parent = g.create(None, false, false, false);
    let used1 = g.create(None, false, false, false);
    let used2 = g.create(None, false, false, false);
    let s = g.create(None, false, false, false);
    g.set_parent(s, Some(parent));
    g.use_scope(s, used1);
    g.use_scope(s, used2);
    g.declare(parent, "a", text("parent")).unwrap();
    g.declare(parent, "b", text("parent")).unwrap();
    g.declare(parent, "c", text("parent")).unwrap();
    g.declare(used2, "a", text("used2")).unwrap();
    g.declare(used2, "b", text("used2")).unwrap();
    g.declare(used1, "a", text("used1")).unwrap();
    g.declare(s, "c", text("local")).unwrap();
    assert_eq!(as_text(g.get_str(s, "c")), Some("local".to_string()));
    assert_eq!(as_text(g.get_str(s, "a")), Some("used1".to_string()));
    assert_eq!(as_text(g.get_str(s, "b")), Some("used2".to_string()));
    g.declare(parent, "d", text("parent")).unwrap();
    assert_eq!(as_text(g.get_str(s, "d")), Some("parent".to_string()));
    assert!(g.get_str(s, "missing").is_none());
}

#[test]
fn lookup_ends_on_a_cycle_of_parents() {
    let mut g = ScopeGraph::new();
    let a = g.create(None, false, false, false);
    let b = g.create(None, false, false, false);
    g.set_parent(a, Some(b));
    g.set_parent(b, Some(a));
    assert!(g.get_str(a, "x").is_none());
    assert!(g.full_path(a).is_err());
}

#[test]
fn use_scope_appends_once() {
    let mut g = ScopeGraph::new();
    let a = g.create(None, false, false, false);
    let b = g.create(None, false, false, false);
    g.use_scope(a, b);
    g.use_scope(a, 0);
    g.use_scope(a, b);
    assert_eq!(g.export(a).uses, vec![b, 0]);
}

#[test]
fn get_walks_a_dotted_path() {
    let mut g = ScopeGraph::new();
    let inner = g.create(Some("inner".to_string()), false, false, false);
    g.declare(0, "inner", Value::Scope(inner)).unwrap();
    g.declare(inner, "x", text("deep")).unwrap();
    let path = vec!["inner".to_string(), "x".to_string()];
    assert_eq!(as_text(g.get(0, &path)), Some("deep".to_string()));
    let bad = vec!["inner".to_string(), "y".to_string()];
    assert!(g.get(0, &bad).is_none());
    let through_text = vec!["inner".to_string(), "x".to_string(), "z".to_string()];
    assert!(g.get(0, &through_text).is_none());
    assert!(g.get(0, &Vec::new()).is_none());
}

#[test]
fn full_path_needs_a_named_chain_to_the_root() {
    let mut g = ScopeGraph::new();
    let types = g.create(Some("types".to_string()), false, false, false);
    let file = g.create(Some("file".to_string()), false, false, false);
    let anonymous = g.create(None, false, false, false);
    let orphan = g.create(Some("orphan".to_string()), false, false, false);
    g.set_parent(types, Some(0));
    g.set_parent(file, Some(types));
    g.set_parent(anonymous, Some(0));
    assert_eq!(g.full_path(0).unwrap(), vec!["global".to_string()]);
    assert_eq!(
        g.full_path(file).unwrap(),
        vec!["global".to_string(), "types".to_string(), "file".to_string()]
    );
    let err = g.full_path(anonymous).unwrap_err();
    assert_eq!(err.message, "Scope has no full path");
    assert!(g.full_path(orphan).is_err());
}

#[test]
fn global_value_follows_the_mappings_from_the_root() {
    let mut g = ScopeGraph::new();
    let types = g.create(Some("types".to_string()), false, false, false);
    g.declare(0, "types", Value::Scope(types)).unwrap();
    g.declare(types, "answer", Value::Integer(42)).unwrap();
    let path = vec!["global".to_string(), "types".to_string(), "answer".to_string()];
    assert!(matches!(g.global_value(&path), Ok(Value::Integer(42))));
    let scope_path = vec!["global".to_string(), "types".to_string()];
    assert!(matches!(g.global_value(&scope_path), Ok(Value::Scope(s)) if s == types));
    let root_path = vec!["global".to_string()];
    assert!(matches!(g.global_value(&root_path), Ok(Value::Scope(0))));
    let wrong_root = vec!["local".to_string(), "types".to_string()];
    let err = g.global_value(&wrong_root).unwrap_err();
    assert_eq!(err.kind, ErrorKind::Lookup);
    assert_eq!(err.message, "Unknown path");
    assert!(g.global_value(&Vec::new()).is_err());
}

#[test]
fn stop_is_kept() {
    let mut g = ScopeGraph::new();
    let s = g.create(None, true, false, false);
    assert!(!g.export(s).is_stopped);
    g.stop(s);
    assert!(g.export(s).is_stopped);
    g.declare(s, "x", text("one")).unwrap();
    g.set_parent(s, Some(0));
    g.stop(s);
    assert!(g.export(s).is_stopped);
}
