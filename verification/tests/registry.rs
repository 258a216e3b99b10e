//! Tests of the type registry, the lexicographic order, and the sort.

use scene_codec::lexical::{str_eq, str_lex_leq};
use scene_codec::sorting::sort_values;
use scene_codec::value::canonicalize;
use scene_codec::{CanonicalHook, SceneError, TypeDescriptor, TypeRegistry, Value};

fn descriptor(id: u64, name: &str, arity: usize, hook: CanonicalHook) -> TypeDescriptor {
    TypeDescriptor { id, name: name.to_string(), arity, hook }
}

#[test]
fn registry_resolves_by_name_and_tag() {
    let mut registry = TypeRegistry::new();
    assert!(registry.register(descriptor(10, "Alpha", 2, CanonicalHook::Absent)));
    assert!(registry.register(descriptor(20, "Beta", 1, CanonicalHook::Rebuilding)));
    assert_eq!(2, registry.len());

    let alpha = registry.resolve_by_name("Alpha").unwrap();
    assert_eq!(10, alpha.id);
    assert_eq!(2, alpha.arity);

    let beta = registry.resolve_by_tag(20).unwrap();
    assert_eq!("Beta", beta.name);
    assert_eq!(CanonicalHook::Rebuilding, beta.hook);

    assert!(registry.resolve_by_name("Gamma").is_none());
    assert!(registry.resolve_by_tag(30).is_none());
}

#[test]
fn registry_refuses_taken_name_or_identity() {
    let mut registry = TypeRegistry::new();
    assert!(registry.register(descriptor(10, "Alpha", 2, CanonicalHook::Absent)));
    assert!(!registry.register(descriptor(11, "Alpha", 1, CanonicalHook::Absent)));
    assert!(!registry.register(descriptor(10, "Beta", 1, CanonicalHook::Absent)));
    assert_eq!(1, registry.len());
    assert_eq!(2, registry.resolve_by_name("Alpha").unwrap().arity);
}

#[test]
fn lexicographic_order_on_names() {
    assert!(str_lex_leq("A", "B"));
    assert!(!str_lex_leq("B", "A"));
    assert!(str_lex_leq("A", "A"));
    assert!(str_lex_leq("", "A"));
    assert!(!str_lex_leq("A", ""));
    assert!(str_lex_leq("Ab", "B"));
    assert!(str_lex_leq("Alpha", "Alphabet"));
    assert!(!str_lex_leq("Alphabet", "Alpha"));
    assert!(str_eq("Alpha", "Alpha"));
    assert!(!str_eq("Alpha", "Alphabet"));
    assert!(!str_eq("Alpha", "Beta"));
}

#[test]
fn sort_orders_values_by_type_name() {
    let vals = vec![
        Value { name: "Gamma".to_string(), words: vec![3], canonical: false },
        Value { name: "Alpha".to_string(), words: vec![1], canonical: false },
        Value { name: "Beta".to_string(), words: vec![2], canonical: false },
    ];
    let sorted = sort_values(&vals);
    let names: Vec<&str> = sorted.iter().map(|v| v.name.as_str()).collect();
    assert_eq!(vec!["Alpha", "Beta", "Gamma"], names);
    assert_eq!(vec![1], sorted[0].words);
    assert_eq!(vec![2], sorted[1].words);
    assert_eq!(vec![3], sorted[2].words);
}

#[test]
fn canonicalize_follows_hook_outcome() {
    let raw = canonicalize(&descriptor(1, "Plain", 1, CanonicalHook::Absent), vec![5]);
    assert_eq!("Plain", raw.name);
    assert_eq!(vec![5], raw.words);
    assert!(!raw.canonical);

    let kept = canonicalize(&descriptor(2, "Flaky", 1, CanonicalHook::Failing), vec![5]);
    assert!(!kept.canonical);

    let rebuilt = canonicalize(&descriptor(3, "Whole", 1, CanonicalHook::Rebuilding), vec![5]);
    assert!(rebuilt.canonical);
    assert_eq!(vec![5], rebuilt.words);
}

#[test]
fn error_kinds_name_their_variant() {
    assert_eq!("duplicate type", SceneError::DuplicateType { name: "A".to_string() }.kind());
    assert_eq!(
        "missing field",
        SceneError::MissingField { field: "entities".to_string() }.kind()
    );
    assert_eq!("invalid structure", SceneError::InvalidStructure.kind());
}
