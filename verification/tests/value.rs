use redscript_dap::value::{Instance, ObjectReader, Property, Snapshot, Value, ValueFormatter};

fn object(id: usize) -> Value {
    Value::Ref(Some(Instance {
        id,
        fields: id + 0x40,
        class: 7,
    }))
}

fn text(s: &str) -> Value {
    Value::Other(s.to_owned())
}

fn field(name: &str, value: Value) -> Property {
    Property {
        name: name.to_owned(),
        in_value_holder: true,
        value,
    }
}

fn elsewhere(name: &str, value: Value) -> Property {
    Property {
        name: name.to_owned(),
        in_value_holder: false,
        value,
    }
}

fn show(value: &Value, objects: &Snapshot) -> Result<String, usize> {
    ValueFormatter::new(value).fmt(objects)
}

#[test]
fn values_with_a_text() {
    let objects = Snapshot::new();
    assert_eq!(show(&text("12"), &objects), Ok("12".to_owned()));
    let point = Value::Struct {
        container: 1,
        class: 2,
        text: "(x: 1)".to_owned(),
    };
    assert_eq!(show(&point, &objects), Ok("(x: 1)".to_owned()));
    let list = Value::Array {
        ptr: 1,
        typ: 2,
        text: "[1, 2]".to_owned(),
    };
    assert_eq!(show(&list, &objects), Ok("[1, 2]".to_owned()));
}

#[test]
fn null_reference() {
    assert_eq!(show(&Value::Ref(None), &Snapshot::new()), Ok("null".to_owned()));
}

#[test]
fn object_with_fields() {
    let mut objects = Snapshot::new();
    objects.insert(
        1,
        vec![
            field("hp", text("100")),
            elsewhere("hidden", text("x")),
            field("owner", Value::Ref(None)),
        ],
    );
    assert_eq!(
        show(&object(1), &objects),
        Ok("{hp: 100, owner: null, }".to_owned())
    );
}

#[test]
fn object_without_fields() {
    let mut objects = Snapshot::new();
    objects.insert(1, vec![]);
    objects.insert(2, vec![elsewhere("hidden", text("x"))]);
    assert_eq!(show(&object(1), &objects), Ok("{}".to_owned()));
    assert_eq!(show(&object(2), &objects), Ok("{}".to_owned()));
}

fn with_fields(n: usize) -> Snapshot {
    let mut objects = Snapshot::new();
    let fields = (0..n).map(|i| field(&format!("f{i}"), text("0"))).collect();
    objects.insert(1, fields);
    objects
}

#[test]
fn eight_fields_are_shown() {
    assert_eq!(
        show(&object(1), &with_fields(8)),
        Ok("{f0: 0, f1: 0, f2: 0, f3: 0, f4: 0, f5: 0, f6: 0, f7: 0, }".to_owned())
    );
}

#[test]
fn more_fields_are_hinted_at() {
    assert_eq!(
        show(&object(1), &with_fields(9)),
        Ok("{f0: 0, f1: 0, f2: 0, f3: 0, f4: 0, f5: 0, f6: 0, f7: 0, ...}".to_owned())
    );
}

#[test]
fn fields_that_lie_elsewhere_are_not_counted() {
    let mut fields = vec![];
    for i in 0..8 {
        fields.push(elsewhere("x", text("1")));
        fields.push(field(&format!("f{i}"), text("0")));
    }
    fields.push(elsewhere("x", text("1")));
    let mut objects = Snapshot::new();
    objects.insert(1, fields);
    assert_eq!(show(&object(1), &objects), show(&object(1), &with_fields(8)));
}

#[test]
fn object_inside_itself() {
    let mut objects = Snapshot::new();
    objects.insert(1, vec![field("me", object(1)), field("other", object(2))]);
    objects.insert(2, vec![field("back", object(1)), field("me", object(2))]);
    assert_eq!(
        show(&object(1), &objects),
        Ok("{me: <cyclic>, other: {back: <cyclic>, me: <cyclic>, }, }".to_owned())
    );
}

#[test]
fn object_beside_itself() {
    let mut objects = Snapshot::new();
    objects.insert(1, vec![field("a", object(2)), field("b", object(2))]);
    objects.insert(2, vec![field("n", text("5"))]);
    assert_eq!(
        show(&object(1), &objects),
        Ok("{a: {n: 5, }, b: {n: 5, }, }".to_owned())
    );
}

#[test]
fn missing_object() {
    let mut objects = Snapshot::new();
    assert_eq!(show(&object(1), &objects), Err(1));
    objects.insert(1, vec![field("a", object(2)), field("b", object(3))]);
    assert_eq!(show(&object(1), &objects), Err(2));
}

#[test]
fn snapshot_holds_objects() {
    let mut objects = Snapshot::new();
    assert!(objects.get(4).is_none());
    objects.insert(4, vec![field("a", text("1"))]);
    assert_eq!(objects.get(4).map(|p| p.len()), Some(1));
    objects.insert(4, vec![]);
    assert_eq!(objects.get(4).map(|p| p.len()), Some(0));
}

fn read_all(reader: &mut ObjectReader, world: &dyn Fn(usize) -> Vec<Property>) -> Vec<usize> {
    let mut asked = vec![];
    while let Some(id) = reader.next() {
        asked.push(id);
        assert!(asked.len() < 100);
        reader.provide(id, world(id));
    }
    asked
}

#[test]
fn nothing_to_read() {
    let mut reader = ObjectReader::new();
    assert_eq!(reader.next(), None);
    reader.want(&text("1"));
    reader.want(&Value::Ref(None));
    assert_eq!(reader.next(), None);
    assert!(reader.snapshot().get(0).is_none());
}

#[test]
fn objects_are_read_once_and_as_far_as_they_are_shown() {
    let world = |id: usize| match id {
        1 => vec![
            field("a", object(2)),
            elsewhere("x", object(9)),
            field("b", object(1)),
        ],
        2 => {
            let mut fields: Vec<Property> = (0..8).map(|_| field("n", text("0"))).collect();
            fields.push(field("ninth", object(8)));
            fields
        }
        3 => vec![field("c", object(2))],
        _ => vec![],
    };
    let mut reader = ObjectReader::new();
    reader.want(&object(1));
    reader.want(&object(3));
    reader.want(&object(1));
    let mut asked = read_all(&mut reader, &world);
    asked.sort();
    assert_eq!(asked, vec![1, 2, 3]);
    assert!(show(&object(1), reader.snapshot()).is_ok());
    assert_eq!(
        show(&object(3), reader.snapshot()),
        Ok("{c: {n: 0, n: 0, n: 0, n: 0, n: 0, n: 0, n: 0, n: 0, ...}, }".to_owned())
    );
}

#[test]
fn whatever_was_read_can_be_shown() {
    // each object leads to two others
    let world = |id: usize| {
        vec![
            field("l", object(id * 2 % 7)),
            field("r", object((id * 2 + 1) % 7)),
        ]
    };
    let mut reader = ObjectReader::new();
    reader.want(&object(3));
    let mut asked = read_all(&mut reader, &world);
    asked.sort();
    assert_eq!(asked, vec![0, 1, 2, 3, 4, 5, 6]);
    for id in 0..7 {
        assert!(show(&object(id), reader.snapshot()).is_ok());
    }
}
