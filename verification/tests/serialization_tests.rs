use crush::deserialization::{deserialize, deserialize_scope, DeserializationState};
use crush::scope::ScopeGraph;
use crush::serialization::{
    serialize, serialize_scope, Calling, Element, Name, Parent, SerializationState, SerializedGraph,
    SerializedScope,
};
use crush::value::{Duration, Value};

fn round_trip(g: &ScopeGraph, scope: usize) -> (ScopeGraph, usize) {
    let message = serialize(g, scope).unwrap();
    let mut state = DeserializationState::new(ScopeGraph::new());
    let root = deserialize(&message, &mut state).unwrap();
    (state.env, root)
}

#[test]
fn scope_cycle_serialization() {
    let mut g = ScopeGraph::new();
    let a = g.create(None, false, false, false);
    let b = g.create(None, false, false, false);
    g.set_calling(a, Some(b));
    g.set_parent(b, Some(a));
    let message = serialize(&g, a).unwrap();
    let scopes = message
        .elements
        .iter()
        .filter(|e| matches!(e, Element::UserScope(_)))
        .count();
    assert_eq!(scopes, 2);
    let mut state = DeserializationState::new(ScopeGraph::new());
    let a2 = deserialize(&message, &mut state).unwrap();
    let env = state.env;
    assert_eq!(env.len(), 3);
    let b2 = env.export(a2).calling_scope.unwrap();
    assert_ne!(a2, b2);
    assert_eq!(env.export(b2).parent_scope, Some(a2));
    assert_eq!(env.export(a2).parent_scope, None);
    assert_eq!(env.export(b2).calling_scope, None);
}

#[test]
fn round_trip_keeps_names_flags_and_bindings() {
    let mut g = ScopeGraph::new();
    let s = g.create(Some("mine".to_string()), true, true, false);
    g.declare(s, "b", Value::Integer(7)).unwrap();
    g.declare(s, "a", Value::Text("alpha".to_string())).unwrap();
    g.declare(s, "d", Value::Duration(Duration { nanos: 5 })).unwrap();
    g.declare(s, "e", Value::Empty).unwrap();
    g.declare(s, "t", Value::Bool(true)).unwrap();
    let (env, s2) = round_trip(&g, s);
    let node = env.export(s2);
    assert_eq!(node.name, Some("mine".to_string()));
    assert!(node.is_loop);
    assert!(node.is_stopped);
    assert!(!node.is_readonly);
    let names: Vec<&str> = node.mapping.iter().map(|(k, _)| k.as_str()).collect();
    assert_eq!(names, vec!["b", "a", "d", "e", "t"]);
    assert!(matches!(node.mapping[0].1, Value::Integer(7)));
    assert!(matches!(&node.mapping[1].1, Value::Text(t) if t == "alpha"));
    assert!(matches!(node.mapping[2].1, Value::Duration(Duration { nanos: 5 })));
    assert!(matches!(node.mapping[3].1, Value::Empty));
    assert!(matches!(node.mapping[4].1, Value::Bool(true)));
}

#[test]
fn round_trip_keeps_sharing_and_the_order_of_uses() {
    let mut g = ScopeGraph::new();
    let shared = g.create(None, false, false, false);
    let other = g.create(None, false, false, false);
    let s = g.create(None, false, false, false);
    g.declare(shared, "x", Value::Integer(1)).unwrap();
    g.use_scope(s, other);
    g.use_scope(s, shared);
    g.set_calling(s, Some(shared));
    g.declare(s, "again", Value::Scope(shared)).unwrap();
    g.declare(s, "myself", Value::Scope(s)).unwrap();
    let (env, s2) = round_trip(&g, s);
    // the receiver's root, and one new scope for each of the three
    assert_eq!(env.len(), 4);
    let node = env.export(s2);
    assert_eq!(node.uses.len(), 2);
    let other2 = node.uses[0];
    let shared2 = node.uses[1];
    assert_ne!(other2, shared2);
    assert_eq!(node.calling_scope, Some(shared2));
    assert!(matches!(node.mapping[0].1, Value::Scope(t) if t == shared2));
    assert!(matches!(node.mapping[1].1, Value::Scope(t) if t == s2));
    assert!(matches!(env.get_str(shared2, "x"), Some(Value::Integer(1))));
    assert!(env.export(other2).mapping.is_empty());
}

#[test]
fn a_scope_with_a_full_path_is_written_as_the_path() {
    let mut g = ScopeGraph::new();
    let s = g.create(None, false, false, false);
    g.set_parent(s, Some(0));
    let message = serialize(&g, s).unwrap();
    let paths: Vec<&Vec<String>> = message
        .elements
        .iter()
        .filter_map(|e| match e {
            Element::InternalScope(p) => Some(p),
            _ => None,
        })
        .collect();
    assert_eq!(paths, vec![&vec!["global".to_string()]]);
    let mut state = DeserializationState::new(ScopeGraph::new());
    let s2 = deserialize(&message, &mut state).unwrap();
    assert_eq!(state.env.export(s2).parent_scope, Some(0));
    assert_eq!(state.env.len(), 2);
}

#[test]
fn a_path_that_names_nothing_is_refused() {
    let mut g = ScopeGraph::new();
    let builtin = g.create(Some("types".to_string()), false, false, false);
    g.set_parent(builtin, Some(0));
    let message = serialize(&g, builtin).unwrap();
    assert!(matches!(&message.elements[message.root as usize], Element::InternalScope(_)));
    // the fresh environment binds no `types` in its root
    let mut state = DeserializationState::new(ScopeGraph::new());
    let err = deserialize(&message, &mut state).unwrap_err();
    assert_eq!(err.message, "Invalid path for scope lookup");
    // an environment that does bind it resolves the path
    let mut env = ScopeGraph::new();
    let types = env.create(Some("types".to_string()), false, false, false);
    env.declare(0, "types", Value::Scope(types)).unwrap();
    let mut state = DeserializationState::new(env);
    assert_eq!(deserialize(&message, &mut state).unwrap(), types);
}

#[test]
fn a_value_that_cannot_be_written_is_refused() {
    let refused = |value: Value| {
        let mut g = ScopeGraph::new();
        let s = g.create(None, false, false, false);
        g.declare(s, "v", value).unwrap();
        let err = serialize(&g, s).unwrap_err();
        assert_eq!(err.message, "Cannot serialize value");
    };
    // a scope inside a list would keep the identity it has here
    refused(Value::List(crush::value::ValueType::Scope, vec![Value::Scope(0)]));
    refused(crush::stream::empty_table_stream());
    refused(Value::Closure(crush::definition::Closure { body: std::sync::Arc::new(vec![]), env: None }));
    refused(Value::Dict(
        crush::value::ValueType::Text,
        crush::value::ValueType::Scope,
        vec![(Value::Text("k".to_string()), Value::Scope(0))],
    ));
}

#[test]
fn composite_data_round_trips() {
    let mut g = ScopeGraph::new();
    let s = g.create(None, false, false, false);
    let list = Value::List(crush::value::ValueType::Integer, vec![Value::Integer(1), Value::Integer(2)]);
    let inner = crush::value::Struct::new(vec![("a".to_string(), Value::Bool(true))], None);
    let outer = crush::value::Struct::new(vec![("l".to_string(), list.clone())], Some(Box::new(inner)));
    g.declare(s, "list", list).unwrap();
    g.declare(s, "struct", Value::Struct(outer)).unwrap();
    g.declare(s, "re", Value::Regex("a+".to_string(), regex::Regex::new("a+").unwrap())).unwrap();
    let (env, s2) = round_trip(&g, s);
    let node = env.export(s2);
    assert!(matches!(&node.mapping[0].1, Value::List(crush::value::ValueType::Integer, cells) if cells.len() == 2));
    match &node.mapping[1].1 {
        Value::Struct(st) => {
            assert!(matches!(&st.fields[0].1, Value::List(_, cells) if matches!(cells[1], Value::Integer(2))));
            assert_eq!(st.parent.as_ref().unwrap().fields[0].0, "a");
        }
        other => panic!("no struct: {:?}", other),
    }
    assert!(matches!(&node.mapping[2].1, Value::Regex(src, m) if src == "a+" && m.is_match("caab")));
    assert!(Value::Integer(1).is_data());
    assert!(!Value::Scope(0).is_data());
}

#[test]
fn a_read_only_scope_round_trips_with_its_bindings() {
    let mut g = ScopeGraph::new();
    let s = g.create(None, false, false, false);
    g.declare(s, "x", Value::Integer(1)).unwrap();
    let mut message = serialize(&g, s).unwrap();
    let root = message.root as usize;
    if let Element::UserScope(ss) = &mut message.elements[root] {
        ss.is_readonly = true;
    }
    let mut state = DeserializationState::new(ScopeGraph::new());
    let s2 = deserialize(&message, &mut state).unwrap();
    let mut env = state.env;
    assert!(env.export(s2).is_readonly);
    assert!(matches!(env.get_str(s2, "x"), Some(Value::Integer(1))));
    // what was read back is read-only as any other scope is
    assert_eq!(env.redeclare(s2, "x", Value::Integer(2)).unwrap_err().message, "Scope is read only");
    assert!(matches!(env.get_str(s2, "x"), Some(Value::Integer(1))));

    let mut g = ScopeGraph::new();
    let r = g.create(Some("locked".to_string()), false, false, true);
    let (env, r2) = round_trip(&g, r);
    assert!(env.export(r2).is_readonly);
}

#[test]
fn the_table_holds_one_entry_for_each_scope() {
    // a cycle of two scopes
    let mut g = ScopeGraph::new();
    let a = g.create(None, false, false, false);
    let b = g.create(None, false, false, false);
    g.set_calling(a, Some(b));
    g.set_parent(b, Some(a));
    let message = serialize(&g, a).unwrap();
    assert_eq!(message.root, 0);
    assert_eq!(message.elements.len(), 2);
    match (&message.elements[0], &message.elements[1]) {
        (Element::UserScope(x), Element::UserScope(y)) => {
            assert_eq!(x.calling, Some(Calling::CallingValue(1)));
            assert_eq!(x.parent, Some(Parent::HasParent(false)));
            assert_eq!(x.name, Some(Name::HasName(false)));
            assert_eq!(y.parent, Some(Parent::ParentValue(0)));
            assert_eq!(y.calling, Some(Calling::HasCalling(false)));
            assert!(x.uses.is_empty() && x.members.is_empty() && y.uses.is_empty() && y.members.is_empty());
        }
        other => panic!("no scopes: {:?}", other),
    }
    // a scope that is reached twice
    let mut g = ScopeGraph::new();
    let a = g.create(None, false, false, false);
    let p = g.create(None, false, false, false);
    g.set_parent(a, Some(p));
    g.use_scope(a, p);
    let message = serialize(&g, a).unwrap();
    assert_eq!(message.root, 0);
    assert_eq!(message.elements.len(), 2);
    match &message.elements[0] {
        Element::UserScope(x) => {
            assert_eq!(x.parent, Some(Parent::ParentValue(1)));
            assert_eq!(x.uses, vec![1]);
        }
        other => panic!("no scope: {:?}", other),
    }
    // a name, a plain binding and a binding of the scope itself
    let mut g = ScopeGraph::new();
    let s = g.create(Some("n".to_string()), false, false, false);
    g.declare(s, "x", Value::Integer(1)).unwrap();
    g.declare(s, "me", Value::Scope(s)).unwrap();
    let message = serialize(&g, s).unwrap();
    // the scope, its name, and for the bindings two names, one value and two members
    assert_eq!(message.elements.len(), 7);
    assert!(matches!(&message.elements[1], Element::String(n) if n == "n"));
    assert!(matches!(&message.elements[message.elements.len() - 1], Element::Member { value: 0, .. }));
}

#[test]
fn a_scope_that_was_written_is_not_written_again() {
    let mut g = ScopeGraph::new();
    let a = g.create(None, false, false, false);
    let builtin = 0;
    let mut elements = vec![];
    let mut state = SerializationState::new();
    assert_eq!(serialize_scope(&g, a, &mut elements, &mut state).unwrap(), 0);
    assert_eq!(serialize_scope(&g, builtin, &mut elements, &mut state).unwrap(), 1);
    assert_eq!(elements.len(), 2);
    assert!(matches!(&elements[1], Element::InternalScope(p) if p == &vec!["global".to_string()]));
    assert_eq!(serialize_scope(&g, a, &mut elements, &mut state).unwrap(), 0);
    assert_eq!(serialize_scope(&g, builtin, &mut elements, &mut state).unwrap(), 1);
    assert_eq!(elements.len(), 2);
    assert_eq!(state.with_id.len(), 2);
}

#[test]
fn an_element_that_was_read_is_not_read_again() {
    let mut g = ScopeGraph::new();
    let a = g.create(None, false, false, false);
    let b = g.create(None, false, false, false);
    g.set_calling(a, Some(b));
    g.set_parent(b, Some(a));
    let message = serialize(&g, a).unwrap();
    let mut state = DeserializationState::new(ScopeGraph::new());
    let a2 = deserialize(&message, &mut state).unwrap();
    assert_eq!(state.scopes.len(), 2);
    assert_eq!(state.env.len(), 3);
    assert_eq!(deserialize(&message, &mut state).unwrap(), a2);
    let b2 = deserialize_scope(1, &message.elements, &mut state).unwrap();
    assert_ne!(a2, b2);
    assert_eq!(state.scopes.len(), 2);
    assert_eq!(state.env.len(), 3);
}

#[test]
fn early_failures_leave_the_reader_as_it_was() {
    let fault = |message: SerializedGraph| -> String {
        let mut state = DeserializationState::new(ScopeGraph::new());
        let e = deserialize(&message, &mut state).unwrap_err();
        assert!(state.scopes.is_empty());
        assert_eq!(state.env.len(), 1);
        e.message
    };
    assert_eq!(fault(SerializedGraph { elements: vec![], root: 0 }), "Invalid element index");
    assert_eq!(fault(SerializedGraph { elements: vec![Element::Unset], root: 0 }), "Expected a scope");
    let path = |p: &[&str]| Element::InternalScope(p.iter().map(|s| s.to_string()).collect());
    assert_eq!(
        fault(SerializedGraph { elements: vec![path(&["global", "nothing"])], root: 0 }),
        "Invalid path for scope lookup"
    );
    let named = |name: u64| {
        Element::UserScope(SerializedScope {
            name: Some(Name::NameValue(name)),
            parent: None,
            calling: None,
            uses: vec![],
            members: vec![],
            is_loop: false,
            is_stopped: false,
            is_readonly: false,
        })
    };
    assert_eq!(fault(SerializedGraph { elements: vec![named(0)], root: 0 }), "Expected a string");
    assert_eq!(fault(SerializedGraph { elements: vec![named(5)], root: 0 }), "Invalid element index");
    // a path that names a value that is no scope
    let mut env = ScopeGraph::new();
    env.declare(0, "x", Value::Integer(1)).unwrap();
    let mut state = DeserializationState::new(env);
    let message = SerializedGraph { elements: vec![path(&["global", "x"])], root: 0 };
    assert_eq!(deserialize(&message, &mut state).unwrap_err().message, "Value is not a scope");
    assert!(state.scopes.is_empty());
}

#[test]
fn malformed_tables_are_refused() {
    let empty = SerializedGraph { elements: vec![], root: 0 };
    let mut state = DeserializationState::new(ScopeGraph::new());
    assert!(deserialize(&empty, &mut state).is_err());

    let not_a_scope = SerializedGraph { elements: vec![Element::String("x".to_string())], root: 0 };
    let mut state = DeserializationState::new(ScopeGraph::new());
    assert_eq!(deserialize(&not_a_scope, &mut state).unwrap_err().message, "Expected a scope");

    let bad_member = SerializedGraph {
        elements: vec![
            Element::UserScope(SerializedScope {
                name: Some(Name::HasName(false)),
                parent: Some(Parent::HasParent(false)),
                calling: Some(Calling::HasCalling(false)),
                uses: vec![],
                members: vec![1],
                is_loop: false,
                is_stopped: false,
                is_readonly: false,
            }),
            Element::String("not a member".to_string()),
        ],
        root: 0,
    };
    let mut state = DeserializationState::new(ScopeGraph::new());
    assert_eq!(deserialize(&bad_member, &mut state).unwrap_err().message, "Invalid scope member");
}

#[test]
fn a_hand_written_table_is_read() {
    let message = SerializedGraph {
        elements: vec![
            Element::UserScope(SerializedScope {
                name: Some(Name::NameValue(1)),
                parent: Some(Parent::ParentValue(0)),
                calling: None,
                uses: vec![0, 0],
                members: vec![2, 5],
                is_loop: false,
                is_stopped: false,
                is_readonly: false,
            }),
            Element::String("loop".to_string()),
            Element::Member { name: 3, value: 4 },
            Element::String("x".to_string()),
            Element::Value(Value::Integer(1)),
            Element::Member { name: 3, value: 0 },
        ],
        root: 0,
    };
    let mut state = DeserializationState::new(ScopeGraph::new());
    let s = deserialize(&message, &mut state).unwrap();
    let node = state.env.export(s);
    assert_eq!(node.name, Some("loop".to_string()));
    assert_eq!(node.parent_scope, Some(s));
    assert_eq!(node.calling_scope, None);
    // imported twice, kept once; bound twice, the last value in the first place
    assert_eq!(node.uses, vec![s]);
    assert_eq!(node.mapping.len(), 1);
    assert!(matches!(node.mapping[0].1, Value::Scope(t) if t == s));
}
