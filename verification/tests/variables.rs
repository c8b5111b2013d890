use redscript_dap::frame::StackFramePtr;
use redscript_dap::protocol::Variable;
use redscript_dap::state::{DebugState, Scope};
use redscript_dap::value::{Instance, ObjectReader, Property, Snapshot, Value};
use redscript_dap::variables::{count_variables, list_variables, ScopeContents};

fn instance(id: usize) -> Instance {
    Instance {
        id,
        fields: id + 0x40,
        class: 7,
    }
}

fn property(name: &str, in_value_holder: bool, value: Value) -> Property {
    Property {
        name: name.to_owned(),
        in_value_holder,
        value,
    }
}

fn contents(this: Option<Instance>, is_static: bool) -> ScopeContents {
    ScopeContents {
        this,
        is_static,
        properties: vec![
            property("count", true, Value::Other("5".to_owned())),
            property("pos$12", false, point()),
            property("target", true, Value::Ref(None)),
            property("list", true, list()),
            property("owner", false, Value::Ref(Some(instance(9)))),
        ],
    }
}

fn point() -> Value {
    Value::Struct {
        container: 0x500,
        class: 3,
        text: "(1, 2)".to_owned(),
    }
}

fn list() -> Value {
    Value::Array {
        ptr: 0x600,
        typ: 0x700,
        text: "[]".to_owned(),
    }
}

fn objects() -> Snapshot {
    let mut objects = Snapshot::new();
    objects.insert(9, vec![]);
    objects
}

fn rows(variables: &[Variable]) -> Vec<(&str, &str, i64)> {
    variables
        .iter()
        .map(|v| (v.name.as_str(), v.value.as_str(), v.variables_reference))
        .collect()
}

#[test]
fn parameters_of_a_frame() {
    let mut state = DebugState::default();
    let scope = Scope::Params(StackFramePtr::PreCall(1));
    let c = contents(Some(instance(1)), false);
    assert_eq!(count_variables(scope, &c), 5);
    let r = list_variables(&mut state, scope, &c, &objects()).unwrap();
    assert_eq!(
        rows(&r),
        vec![
            ("count", "5", 0),
            ("pos", "(1, 2)", 1),
            ("target", "null", 0),
            ("list", "[]", 2),
            ("owner", "{}", 3),
        ]
    );
    assert_eq!(state.scope(1), Some(&Scope::Struct(0x500, 3)));
    assert_eq!(state.scope(2), Some(&Scope::Array(0x600, 0x700)));
    assert_eq!(state.scope(3), Some(&Scope::Object(9 + 0x40, 7)));
    assert_eq!(state.scope(4), None);
}

#[test]
fn locals_with_this() {
    let mut state = DebugState::default();
    state.add_scope(Scope::Object(1, 1));
    let scope = Scope::Locals(StackFramePtr::PreCall(1));
    let c = contents(Some(instance(1)), false);
    assert_eq!(count_variables(scope, &c), 6);
    let r = list_variables(&mut state, scope, &c, &objects()).unwrap();
    assert_eq!(
        rows(&r),
        vec![
            ("this", "", 2),
            ("count", "5", 0),
            ("pos", "(1, 2)", 3),
            ("target", "null", 0),
            ("list", "[]", 4),
            ("owner", "{}", 5),
        ]
    );
    assert_eq!(state.scope(1), Some(&Scope::Object(1, 1)));
    assert_eq!(state.scope(2), Some(&Scope::Object(1 + 0x40, 7)));
    assert_eq!(state.scope(3), Some(&Scope::Struct(0x500, 3)));
}

#[test]
fn locals_without_this() {
    let scope = Scope::Locals(StackFramePtr::PostCall(1));
    for c in [contents(Some(instance(1)), true), contents(None, false)] {
        let mut state = DebugState::default();
        assert_eq!(count_variables(scope, &c), 5);
        let r = list_variables(&mut state, scope, &c, &objects()).unwrap();
        assert_eq!(r[0].name, "count");
        assert_eq!(r[1].variables_reference, 1);
    }
}

#[test]
fn fields_of_an_object() {
    let mut state = DebugState::default();
    let scope = Scope::Object(0x40, 7);
    let c = contents(None, false);
    assert_eq!(count_variables(scope, &c), 3);
    let r = list_variables(&mut state, scope, &c, &Snapshot::new()).unwrap();
    assert_eq!(
        rows(&r),
        vec![("count", "5", 0), ("target", "null", 0), ("list", "[]", 1)]
    );
}

#[test]
fn fields_of_a_struct() {
    let mut state = DebugState::default();
    let scope = Scope::Struct(0x40, 7);
    let c = contents(None, false);
    assert_eq!(count_variables(scope, &c), 5);
    let r = list_variables(&mut state, scope, &c, &objects()).unwrap();
    assert_eq!(r.len(), 5);
    assert_eq!(r[1].name, "pos");
}

#[test]
fn elements_of_an_array() {
    let mut state = DebugState::default();
    let scope = Scope::Array(0x600, 0x700);
    let c = ScopeContents {
        this: None,
        is_static: false,
        properties: (0..12)
            .map(|i| property("", i % 2 == 0, Value::Other(format!("v{i}"))))
            .collect(),
    };
    assert_eq!(count_variables(scope, &c), 12);
    let r = list_variables(&mut state, scope, &c, &Snapshot::new()).unwrap();
    assert_eq!(rows(&r)[0], ("0", "v0", 0));
    assert_eq!(rows(&r)[9], ("9", "v9", 0));
    assert_eq!(rows(&r)[11], ("11", "v11", 0));
}

#[test]
fn missing_object_opens_nothing() {
    let mut state = DebugState::default();
    let scope = Scope::Locals(StackFramePtr::PreCall(1));
    let c = contents(Some(instance(1)), false);
    let r = list_variables(&mut state, scope, &c, &Snapshot::new());
    assert_eq!(r.err(), Some(9));
    assert_eq!(state.scope(1), None);
}

#[test]
fn finished_reader_lists_every_scope() {
    let c = ScopeContents {
        this: None,
        is_static: false,
        properties: vec![
            property("a", true, Value::Ref(Some(instance(1)))),
            property("b", false, Value::Ref(Some(instance(2)))),
            property("c", true, list()),
            property("d", true, Value::Ref(None)),
        ],
    };
    let mut reader = ObjectReader::new();
    for p in &c.properties {
        reader.want(&p.value);
    }
    while let Some(id) = reader.next() {
        // every object leads to the next one, up to the last
        let next = Value::Ref((id < 6).then(|| instance(id + 1)));
        reader.provide(id, vec![property("next", true, next)]);
    }
    let frame = StackFramePtr::PreCall(1);
    for scope in [
        Scope::Params(frame),
        Scope::Locals(frame),
        Scope::Object(1, 1),
        Scope::Struct(1, 1),
        Scope::Array(1, 1),
    ] {
        let mut state = DebugState::default();
        assert!(list_variables(&mut state, scope, &c, reader.snapshot()).is_ok());
    }
}
