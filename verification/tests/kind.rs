use vrl::kind::{Collection, Kind, Position};
use vrl::path::{OwnedSegment, OwnedValuePath};
use vrl::value::{ObjectMap, Value};

fn field(name: &str) -> OwnedValuePath {
    OwnedValuePath {
        segments: vec![OwnedSegment::Field(name.to_string())],
    }
}

fn index(index: isize) -> OwnedValuePath {
    OwnedValuePath {
        segments: vec![OwnedSegment::Index(index)],
    }
}

fn array(items: Vec<Kind>, unknown: Kind) -> Kind {
    Kind::array(Collection::from_parts(
        items
            .into_iter()
            .enumerate()
            .map(|(i, kind)| (Position(i), kind))
            .collect(),
        unknown,
    ))
}

fn object(fields: Vec<(&str, Kind)>, unknown: Kind) -> Kind {
    Kind::object(Collection::from_parts(
        fields
            .into_iter()
            .map(|(name, kind)| (name.to_string(), kind))
            .collect(),
        unknown,
    ))
}

#[test]
fn kinds_are_equal_if_they_say_the_same() {
    assert_eq!(Kind::any(), Kind::any().or_undefined());
    assert_ne!(Kind::bytes(), Kind::bytes().or_undefined());
    assert_eq!(
        object(vec![("a", Kind::undefined())], Kind::undefined()),
        object(vec![], Kind::undefined())
    );
    assert_ne!(
        object(vec![("a", Kind::null())], Kind::undefined()),
        object(vec![], Kind::undefined())
    );
    assert_eq!(
        object(vec![("a", Kind::any())], Kind::any()),
        Kind::object(Collection::any())
    );
    assert_ne!(
        array(vec![], Kind::undefined()),
        object(vec![], Kind::undefined())
    );
    assert_eq!(
        object(
            vec![("a", Kind::bytes()), ("b", Kind::null())],
            Kind::float()
        ),
        object(
            vec![("b", Kind::null()), ("a", Kind::bytes())],
            Kind::float()
        )
    );
}

#[test]
fn the_last_entry_with_a_key_counts() {
    assert_eq!(
        object(
            vec![("a", Kind::bytes()), ("a", Kind::null())],
            Kind::undefined()
        ),
        object(vec![("a", Kind::null())], Kind::undefined())
    );
}

#[test]
fn unions() {
    let one = object(vec![("a", Kind::bytes())], Kind::undefined());
    let two = object(vec![("b", Kind::null())], Kind::integer());
    let both = one.union(&two);

    assert_eq!(
        both.at_path(&field("a")),
        Kind::bytes().union(&Kind::integer()).or_undefined()
    );
    assert_eq!(both.at_path(&field("b")), Kind::null().or_undefined());
    assert_eq!(both.at_path(&field("c")), Kind::integer().or_undefined());
    assert_eq!(both, two.union(&one));
    assert_eq!(both, both.union(&one));
    assert_eq!(Kind::any(), Kind::any().union(&one));
    assert_eq!(one, one.union(&Kind::never()));
    assert_eq!(
        Kind::timestamp().union(&Kind::regex()),
        Kind::regex().union(&Kind::timestamp())
    );
}

#[test]
fn fields_are_found_in_objects() {
    let kind = object(vec![("a", Kind::bytes())], Kind::undefined());
    assert_eq!(kind.at_path(&OwnedValuePath::root()), kind);
    assert_eq!(kind.at_path(&field("a")), Kind::bytes());
    assert_eq!(kind.at_path(&field("b")), Kind::undefined());
    assert_eq!(kind.at_path(&index(0)), Kind::undefined());
    assert_eq!(
        kind.union(&Kind::null()).at_path(&field("a")),
        Kind::bytes().or_undefined()
    );
    assert_eq!(Kind::null().at_path(&field("a")), Kind::undefined());
    assert_eq!(Kind::never().at_path(&field("a")), Kind::never());
    assert_eq!(Kind::any().at_path(&field("a")), Kind::any());
}

#[test]
fn items_are_found_in_arrays() {
    let kind = array(vec![Kind::bytes(), Kind::integer()], Kind::undefined());
    assert_eq!(kind.at_path(&index(0)), Kind::bytes());
    assert_eq!(kind.at_path(&index(1)), Kind::integer());
    assert_eq!(kind.at_path(&index(2)), Kind::undefined());
    assert_eq!(kind.at_path(&index(-1)), Kind::integer());
    assert_eq!(kind.at_path(&index(-2)), Kind::bytes());
    assert_eq!(kind.at_path(&index(-3)), Kind::undefined());
}

#[test]
fn items_before_an_open_end_may_be_any() {
    let kind = array(vec![Kind::bytes(), Kind::integer()], Kind::null());
    let any_of_them = Kind::bytes()
        .union(&Kind::integer())
        .union(&Kind::null())
        .or_undefined();
    assert_eq!(kind.at_path(&index(2)), Kind::null().or_undefined());
    assert_eq!(kind.at_path(&index(-1)), any_of_them);
    assert_eq!(kind.at_path(&index(isize::MIN)), any_of_them);

    let kind = array(vec![Kind::bytes().or_undefined()], Kind::undefined());
    assert_eq!(kind.at_path(&index(-1)), Kind::bytes().or_undefined());
}

#[test]
fn the_kind_of_a_value() {
    assert_eq!(Kind::of(&Value::Null), Kind::null());
    assert_eq!(Kind::of(&Value::from(1)), Kind::integer());
    assert_eq!(Kind::of(&Value::from(true)), Kind::boolean());
    assert_eq!(Kind::of(&Value::Bytes(vec![1])), Kind::bytes());
    assert_eq!(Kind::of(&Value::Float(0)), Kind::float());
    assert_eq!(Kind::of(&Value::Timestamp(0)), Kind::timestamp());

    let mut fields = ObjectMap::new();
    fields.insert(
        "a".to_string(),
        Value::from(vec![Value::from(1), Value::Null]),
    );
    assert_eq!(
        Kind::of(&Value::from(fields)),
        object(
            vec![(
                "a",
                array(vec![Kind::integer(), Kind::null()], Kind::undefined())
            )],
            Kind::undefined()
        )
    );
}

#[test]
fn removing_a_field() {
    let mut kind = object(vec![("a", Kind::bytes())], Kind::integer());
    kind.remove(&field("a"), false);
    assert_eq!(
        kind,
        object(vec![("a", Kind::undefined())], Kind::integer())
    );

    kind.remove(&field("b"), false);
    assert_eq!(kind.at_path(&field("b")), Kind::undefined());
    assert_eq!(kind.at_path(&field("c")), Kind::integer().or_undefined());

    let mut scalar = Kind::bytes();
    scalar.remove(&field("a"), true);
    assert_eq!(scalar, Kind::bytes());
}

#[test]
fn removing_an_item_before_an_open_end() {
    let mut kind = array(vec![Kind::bytes(), Kind::integer()], Kind::null());
    kind.remove(&index(-1), false);
    assert_eq!(
        kind,
        array(
            vec![
                Kind::bytes().union(&Kind::integer()),
                Kind::integer().union(&Kind::null()).or_undefined(),
            ],
            Kind::null()
        )
    );
}

#[test]
fn removing_the_whole_value() {
    let mut kind = array(vec![Kind::bytes()], Kind::any()).union(&Kind::bytes());
    kind.remove(&OwnedValuePath::root(), false);
    assert_eq!(
        kind,
        Kind::array(Collection::empty()).union(&Kind::null())
    );
}

#[test]
fn compaction_removes_what_may_be_empty() {
    let inner = OwnedValuePath {
        segments: vec![
            OwnedSegment::Field("a".to_string()),
            OwnedSegment::Index(0),
        ],
    };
    // The array is empty afterwards, each time.
    let mut always = object(
        vec![("a", array(vec![Kind::bytes()], Kind::undefined()))],
        Kind::undefined(),
    );
    always.remove(&inner, true);
    assert_eq!(always, object(vec![], Kind::undefined()));

    // It may be empty afterwards.
    let mut maybe = object(
        vec![("a", array(vec![Kind::bytes()], Kind::bytes()))],
        Kind::undefined(),
    );
    maybe.remove(&inner, true);
    assert_eq!(
        maybe,
        object(
            vec![("a", array(vec![], Kind::bytes()).or_undefined())],
            Kind::undefined()
        )
    );

    // It is not empty afterwards.
    let mut never = object(
        vec![(
            "a",
            array(vec![Kind::bytes(), Kind::null()], Kind::undefined()),
        )],
        Kind::undefined(),
    );
    never.remove(&inner, true);
    assert_eq!(
        never,
        object(
            vec![("a", array(vec![Kind::null()], Kind::undefined()))],
            Kind::undefined()
        )
    );
}

#[test]
fn a_missing_value_may_be_taken_for_null() {
    assert_eq!(Kind::undefined().upgrade_undefined(), Kind::null());
    assert_eq!(Kind::bytes().upgrade_undefined(), Kind::bytes());
    assert_eq!(
        Kind::bytes().or_undefined().upgrade_undefined(),
        Kind::bytes().union(&Kind::null())
    );
}

#[test]
fn objects_are_told_from_what_may_be_one() {
    let kind = object(vec![], Kind::any());
    assert!(kind.is_object());
    assert!(kind.as_object().unwrap().is_any());
    assert!(!kind.union(&Kind::null()).is_object());
    assert!(kind.union(&Kind::null()).as_object().is_some());
    assert!(Kind::null().as_object().is_none());
    assert!(!object(vec![("a", Kind::null())], Kind::any())
        .as_object()
        .unwrap()
        .is_any());
}
