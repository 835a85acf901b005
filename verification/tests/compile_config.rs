use std::sync::Arc;
use vrl::compiler::any_map::AnyMap;
use vrl::compiler::compile_config::CompileConfig;
use vrl::compiler::regex_cache::{compile_in, remember, RegexCache, RegexMap};
use vrl::path::{OwnedSegment, OwnedTargetPath, OwnedValuePath, PathPrefix};
use vrl::value_regex::{RegexError, ValueRegex, SIZE_LIMIT};

#[derive(PartialEq, Eq, Debug)]
struct Potato(usize);

#[derive(PartialEq, Eq, Debug)]
struct Carrot(String);

fn field(name: &str) -> OwnedSegment {
    OwnedSegment::Field(name.to_string())
}

fn event_path(fields: &[&str]) -> OwnedTargetPath {
    OwnedTargetPath {
        prefix: PathPrefix::Event,
        path: OwnedValuePath {
            segments: fields.iter().map(|name| field(name)).collect(),
        },
    }
}

fn metadata_path(fields: &[&str]) -> OwnedTargetPath {
    OwnedTargetPath {
        prefix: PathPrefix::Metadata,
        ..event_path(fields)
    }
}

#[test]
fn can_get_custom() {
    let mut config = CompileConfig::default();
    config.set_custom(Potato(42));

    assert_eq!(&Potato(42), config.get_custom::<Potato>().unwrap());
}

#[test]
fn can_get_custom_mut() {
    let mut config = CompileConfig::default();
    config.set_custom(Potato(42));

    let potato = config.get_custom_mut::<Potato>().unwrap();
    potato.0 = 43;

    assert_eq!(&Potato(43), config.get_custom::<Potato>().unwrap());
}

#[test]
fn custom_data_is_kept_by_type() {
    let mut config = CompileConfig::default();
    assert!(config.get_custom::<Potato>().is_none());
    assert!(config.get_custom_mut::<Carrot>().is_none());

    config.set_custom(Potato(1));
    config.set_custom(Carrot("orange".to_string()));
    config.set_custom(Potato(2));

    assert_eq!(Some(&Potato(2)), config.get_custom::<Potato>());
    assert_eq!(
        Some(&Carrot("orange".to_string())),
        config.get_custom::<Carrot>()
    );
    assert_eq!(None, config.get_custom::<u8>());
}

#[test]
fn custom_data_can_be_replaced_as_a_whole() {
    let mut config = CompileConfig::default();
    config.set_custom(Potato(1));

    let mut other = AnyMap::new();
    other.insert(Carrot("purple".to_string()));
    *config.custom_mut() = other;

    assert!(config.get_custom::<Potato>().is_none());
    assert_eq!("purple", config.get_custom::<Carrot>().unwrap().0);

    config.custom_mut().insert(Potato(7));
    assert_eq!(7, config.get_custom::<Potato>().unwrap().0);
}

#[test]
fn custom_data_can_be_taken_out() {
    let mut config = CompileConfig::default();
    assert!(!config.custom_mut().remove::<Potato>());

    config.set_custom(Potato(1));
    config.set_custom(Carrot("orange".to_string()));
    assert!(!config.custom_mut().remove::<u8>());
    assert!(config.custom_mut().remove::<Potato>());
    assert!(!config.custom_mut().remove::<Potato>());

    assert!(config.get_custom::<Potato>().is_none());
    assert_eq!("orange", config.get_custom::<Carrot>().unwrap().0);

    config.set_custom(Potato(2));
    assert_eq!(Some(&Potato(2)), config.get_custom::<Potato>());
}

trait Taste<'a> {
    fn taste(&self) -> u8;
}

struct Sweet;

impl<'a> Taste<'a> for Sweet {
    fn taste(&self) -> u8 {
        1
    }
}

struct Sour;

impl<'a> Taste<'a> for Sour {
    fn taste(&self) -> u8 {
        2
    }
}

#[test]
fn types_that_differ_only_in_lifetimes_are_kept_apart() {
    let mut config = CompileConfig::default();
    config.set_custom::<Box<dyn for<'a> Taste<'a>>>(Box::new(Sweet));
    assert!(config.get_custom::<Box<dyn Taste<'static>>>().is_none());

    config.set_custom::<Box<dyn Taste<'static>>>(Box::new(Sour));
    let sweet = config.get_custom::<Box<dyn for<'a> Taste<'a>>>().unwrap();
    assert_eq!(1, sweet.taste());
    let sour = config.get_custom::<Box<dyn Taste<'static>>>().unwrap();
    assert_eq!(2, sour.taste());

    assert!(config
        .custom_mut()
        .remove::<Box<dyn for<'a> Taste<'a>>>());
    assert!(config.get_custom::<Box<dyn Taste<'static>>>().is_some());
}

#[test]
fn regex_literals_are_compiled_per_config_by_default() {
    let config = CompileConfig::default();

    let first = config.compile_regex_literal("a+b").unwrap();
    let second = config.compile_regex_literal("a+b").unwrap();

    assert!(!Arc::ptr_eq(&first.into_inner(), &second.into_inner()));
}

#[test]
fn a_shared_cache_compiles_each_pattern_once() {
    let cache = RegexCache::default();
    let mut one = CompileConfig::default();
    let mut two = CompileConfig::default();
    one.set_regex_cache(cache.clone());
    two.set_regex_cache(cache.clone());

    let from_one = one.compile_regex_literal("a+b").unwrap().into_inner();
    let from_two = two.compile_regex_literal("a+b").unwrap().into_inner();
    let other = two.compile_regex_literal("c+d").unwrap().into_inner();

    assert!(Arc::ptr_eq(&from_one, &from_two));
    assert!(!Arc::ptr_eq(&from_two, &other));
    assert_eq!(2, cache.entries().len());
}

#[test]
fn an_invalid_pattern_is_not_cached() {
    let cache = RegexCache::default();
    let mut config = CompileConfig::default();
    config.set_regex_cache(cache.clone());

    assert!(config.compile_regex_literal("a(").is_err());
    assert_eq!(0, cache.entries().len());
}

#[test]
fn compiled_literals_match_what_their_pattern_says() {
    let config = CompileConfig::default();
    let literal = config.compile_regex_literal("^a+b$").unwrap();
    let regex = literal.clone().into_inner();

    assert_eq!("^a+b$", literal.as_str());
    assert_eq!("^a+b$", regex.as_str());
    assert!(regex.is_match("aaab"));
    assert!(!regex.is_match("b"));
    assert_eq!(literal, config.compile_regex_literal("^a+b$").unwrap());
    assert_ne!(literal, config.compile_regex_literal("^a*b$").unwrap());
}

#[test]
fn a_syntax_error_says_what_is_wrong() {
    let config = CompileConfig::default();
    match config.compile_regex_literal("a(") {
        Err(RegexError::Syntax(message)) => assert!(message.contains("unclosed group")),
        other => panic!("expected a syntax error, got {other:?}"),
    }
}

#[test]
fn a_pattern_whose_compiled_form_is_too_big_is_refused() {
    let config = CompileConfig::default();
    match config.compile_regex_literal("[\\pL]{100000}") {
        Err(RegexError::CompiledTooBig(limit)) => {
            assert_eq!(10485760, limit);
            assert_eq!(SIZE_LIMIT, limit);
        }
        other => panic!("expected a size error, got {other:?}"),
    }
}

#[test]
fn the_cache_that_was_set_is_handed_out() {
    let cache = RegexCache::default();
    let mut config = CompileConfig::default();
    assert!(config.regex_cache().is_none());

    config.set_regex_cache(cache.clone());
    config.compile_regex_literal("x").unwrap();

    assert_eq!(1, config.regex_cache().unwrap().entries().len());
    assert_eq!(1, cache.entries().len());
}

#[test]
fn a_map_of_literals_keeps_what_compiled() {
    let mut map = RegexMap::new();
    let first = compile_in(&mut map, "a|b").unwrap();
    let again = compile_in(&mut map, "a|b").unwrap();
    assert!(Arc::ptr_eq(
        &first.clone().into_inner(),
        &again.into_inner()
    ));
    assert_eq!(1, map.len());
    assert_eq!(Some(&first), map.get(&"a|b".to_string()));

    assert!(compile_in(&mut map, "*").is_err());
    assert_eq!(1, map.len());
}

#[test]
fn an_outcome_is_remembered_if_it_is_a_compiled_form() {
    let mut map = RegexMap::new();
    let refused = remember(&mut map, "x", Err(RegexError::CompiledTooBig(12)));
    assert!(matches!(refused, Err(RegexError::CompiledTooBig(12))));
    assert_eq!(0, map.len());

    let kept = remember(&mut map, "x", Ok(regex::Regex::new("x").unwrap())).unwrap();
    assert_eq!(Some(&kept), map.get(&"x".to_string()));
    assert_eq!("x", kept.as_str());
}

#[test]
fn a_value_says_what_it_was_compiled_from() {
    let one = ValueRegex::new(regex::Regex::new("a|b").unwrap());
    let same = ValueRegex::new(regex::Regex::new("a|b").unwrap());
    let other = ValueRegex::new(regex::Regex::new("b|a").unwrap());

    assert_eq!("a|b", one.as_str());
    assert_eq!(one, same);
    assert_ne!(one, other);
}

#[test]
fn nothing_is_read_only_at_first() {
    let config = CompileConfig::default();
    assert!(!config.is_read_only_path(&OwnedTargetPath::event_root()));
    assert!(!config.is_read_only_path(&metadata_path(&["a"])));
}

#[test]
fn everything_can_be_read_only() {
    let mut config = CompileConfig::default();
    config.set_read_only();

    assert!(config.is_read_only_path(&OwnedTargetPath::event_root()));
    assert!(config.is_read_only_path(&OwnedTargetPath::metadata_root()));
    assert!(config.is_read_only_path(&event_path(&["a", "b"])));
    assert!(config.is_read_only_path(&metadata_path(&["a", "b"])));
}

#[test]
fn a_recursive_read_only_path_protects_what_is_above_and_below() {
    let mut config = CompileConfig::default();
    config.set_read_only_path(event_path(&["a", "b"]), true);

    assert!(config.is_read_only_path(&OwnedTargetPath::event_root()));
    assert!(config.is_read_only_path(&event_path(&["a"])));
    assert!(config.is_read_only_path(&event_path(&["a", "b"])));
    assert!(config.is_read_only_path(&event_path(&["a", "b", "c"])));
    assert!(!config.is_read_only_path(&event_path(&["a", "x"])));
    assert!(!config.is_read_only_path(&event_path(&["b"])));
    assert!(!config.is_read_only_path(&metadata_path(&["a", "b"])));
}

#[test]
fn a_single_read_only_path_leaves_what_is_below_alone() {
    let mut config = CompileConfig::default();
    config.set_read_only_path(metadata_path(&["a", "b"]), false);
    config.set_read_only_path(metadata_path(&["a", "b"]), false);

    assert!(config.is_read_only_path(&OwnedTargetPath::metadata_root()));
    assert!(config.is_read_only_path(&metadata_path(&["a"])));
    assert!(config.is_read_only_path(&metadata_path(&["a", "b"])));
    assert!(!config.is_read_only_path(&metadata_path(&["a", "b", "c"])));
    assert!(!config.is_read_only_path(&event_path(&["a", "b"])));
}

#[test]
fn another_read_only_path_takes_none_away() {
    let mut config = CompileConfig::default();
    config.set_read_only_path(event_path(&["a"]), true);
    config.set_read_only_path(event_path(&["a"]), false);

    assert!(config.is_read_only_path(&event_path(&["a", "b"])));
}

#[test]
fn the_unused_expression_check_can_be_disabled() {
    let mut config = CompileConfig::default();
    assert!(config.unused_expression_check_enabled());

    config.disable_unused_expression_check();
    assert!(!config.unused_expression_check_enabled());
}
