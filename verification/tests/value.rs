use vrl::path::{OwnedSegment, OwnedTargetPath, OwnedValuePath, PathPrefix};
use vrl::table::Table;
use vrl::value::{ObjectMap, Value};

fn path(segments: Vec<OwnedSegment>) -> OwnedValuePath {
    OwnedValuePath { segments }
}

fn field(name: &str) -> OwnedSegment {
    OwnedSegment::Field(name.to_string())
}

fn sample() -> Value {
    let mut fields = ObjectMap::new();
    fields.insert(
        "items".to_string(),
        Value::from(vec![Value::from(10), Value::from(20), Value::from(30)]),
    );
    fields.insert("name".to_string(), Value::Bytes(b"x".to_vec()));
    Value::from(fields)
}

#[test]
fn values_are_found_by_path() {
    let value = sample();
    let item = |index| path(vec![field("items"), OwnedSegment::Index(index)]);

    assert_eq!(value.get(&OwnedValuePath::root()), Some(&value));
    assert_eq!(value.get(&item(0)), Some(&Value::from(10)));
    assert_eq!(value.get(&item(2)), Some(&Value::from(30)));
    assert_eq!(value.get(&item(3)), None);
    assert_eq!(value.get(&item(-1)), Some(&Value::from(30)));
    assert_eq!(value.get(&item(-3)), Some(&Value::from(10)));
    assert_eq!(value.get(&item(-4)), None);
    assert_eq!(value.get(&item(isize::MIN)), None);
    assert_eq!(value.get(&item(isize::MAX)), None);
    assert_eq!(value.get(&path(vec![field("nope")])), None);
    assert_eq!(value.get(&path(vec![OwnedSegment::Index(0)])), None);
    assert_eq!(value.get(&path(vec![field("name"), field("x")])), None);
}

#[test]
fn values_are_compared_by_what_they_hold() {
    assert_eq!(sample(), sample().clone());
    assert_ne!(Value::from(1), Value::Float(1));
    assert_ne!(Value::from(1), Value::Timestamp(1));
    assert_ne!(Value::Null, Value::from(false));
    assert_ne!(
        Value::from(vec![Value::from(1)]),
        Value::from(vec![Value::from(1), Value::from(1)])
    );

    let mut one = ObjectMap::new();
    one.insert("a".to_string(), Value::from(1));
    one.insert("b".to_string(), Value::from(2));
    let mut two = ObjectMap::new();
    two.insert("b".to_string(), Value::from(2));
    two.insert("a".to_string(), Value::from(1));
    assert_eq!(Value::from(one), Value::from(two));
}

#[test]
fn tables_hold_one_value_for_each_key() {
    let mut table: Table<String, u8> = Table::new();
    assert_eq!(table.insert("a".to_string(), 1), None);
    assert_eq!(table.insert("b".to_string(), 2), None);
    assert_eq!(table.insert("a".to_string(), 3), Some(1));
    assert_eq!(table.len(), 2);
    assert_eq!(table.get(&"a".to_string()), Some(&3));
    assert_eq!(table.get(&"c".to_string()), None);

    *table.get_mut(&"b".to_string()).unwrap() = 9;
    assert!(table.get_mut(&"c".to_string()).is_none());
    assert_eq!(table.clone().remove(&"b".to_string()), Some(9));
    assert_eq!(table.remove(&"c".to_string()), None);

    let mut entries = vec![table.pop().unwrap(), table.pop().unwrap()];
    entries.sort();
    assert_eq!(entries, [("a".to_string(), 3), ("b".to_string(), 9)]);
    assert_eq!(table.pop(), None);

    table.insert("z".to_string(), 0);
    table.clear();
    assert_eq!(table.len(), 0);
}

#[test]
fn how_paths_are_written() {
    assert_eq!(OwnedValuePath::root().to_text(), "");
    assert_eq!(
        path(vec![field("a"), OwnedSegment::Index(-12), field("b_2")]).to_text(),
        "a[-12].b_2"
    );
    assert_eq!(
        path(vec![OwnedSegment::Index(0), field("a.b"), field("")]).to_text(),
        "[0].\"a.b\".\"\""
    );
    assert_eq!(path(vec![field("@timestamp")]).to_text(), "@timestamp");
    assert_eq!(
        path(vec![OwnedSegment::Index(isize::MIN)]).to_text(),
        format!("[{}]", isize::MIN)
    );
    assert_eq!(
        path(vec![field("back\\slash")]).to_text(),
        "\"back\\\\slash\""
    );
}

#[test]
fn paths_begin_with_other_paths() {
    let long = path(vec![field("a"), OwnedSegment::Index(1)]);
    assert!(long.can_start_with(&path(vec![field("a")])));
    assert!(long.can_start_with(&long));
    assert!(long.can_start_with(&OwnedValuePath::root()));
    assert!(!long.can_start_with(&path(vec![OwnedSegment::Index(1)])));
    assert!(!path(vec![field("a")]).can_start_with(&long));
    assert!(OwnedValuePath::root().is_root());
    assert!(!long.is_root());
    assert!(long.segments[1].is_index());

    let event = OwnedTargetPath {
        prefix: PathPrefix::Event,
        path: long.clone(),
    };
    assert!(event.can_start_with(&OwnedTargetPath::event_root()));
    assert!(!event.can_start_with(&OwnedTargetPath::metadata_root()));
    assert_eq!(event, event.clone());
}
