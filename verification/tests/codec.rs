//! End-to-end tests of the scene codec over the structured token stream.

use scene_codec::{
    CanonicalHook, DynamicEntity, DynamicScene, Entity, SceneDeserializer, SceneError,
    SceneSerializer, Token, TypeDescriptor, TypeKey, TypeRegistry, Value,
};

fn descriptor(id: u64, name: &str, arity: usize, hook: CanonicalHook) -> TypeDescriptor {
    TypeDescriptor { id, name: name.to_string(), arity, hook }
}

fn create_registry() -> TypeRegistry {
    let mut registry = TypeRegistry::new();
    assert!(registry.register(descriptor(1, "A", 1, CanonicalHook::Absent)));
    assert!(registry.register(descriptor(2, "B", 1, CanonicalHook::Absent)));
    assert!(registry.register(descriptor(3, "MyResource", 1, CanonicalHook::Absent)));
    assert!(registry.register(descriptor(4, "Rebuilt", 2, CanonicalHook::Rebuilding)));
    assert!(registry.register(descriptor(5, "Flaky", 1, CanonicalHook::Failing)));
    registry
}

fn value(name: &str, words: &[u64]) -> Value {
    Value { name: name.to_string(), words: words.to_vec(), canonical: false }
}

fn entity(bits: u64, components: Vec<Value>) -> DynamicEntity {
    DynamicEntity { entity: Entity { bits }, components }
}

fn str_token(s: &str) -> Token {
    Token::Str { value: s.to_string() }
}

fn field(s: &str) -> Token {
    Token::Field { name: s.to_string() }
}

fn struct_start(s: &str) -> Token {
    Token::StructStart { name: s.to_string() }
}

/// The two scenes hold the same records under the same keys in the same
/// order, and the same represented values, ignoring the canonical flag.
fn assert_scene_matches(expected: &DynamicScene, received: &DynamicScene) {
    assert_eq!(expected.entities.len(), received.entities.len(), "entity count did not match");
    assert_values_match(&expected.resources, &received.resources);
    for (e, r) in expected.entities.iter().zip(received.entities.iter()) {
        assert_eq!(e.entity, r.entity, "entities did not match");
        assert_values_match(&e.components, &r.components);
    }
}

fn assert_values_match(expected: &[Value], received: &[Value]) {
    assert_eq!(expected.len(), received.len(), "value count did not match");
    for v in expected {
        assert!(
            received.iter().any(|w| w.name == v.name && w.words == v.words),
            "missing value of type `{}`",
            v.name
        );
    }
}

#[test]
fn should_serialize_sorted_by_type_name() {
    let registry = create_registry();
    let scene = DynamicScene {
        resources: vec![],
        entities: vec![
            entity(7, vec![value("A", &[1])]),
            entity(3, vec![value("B", &[5]), value("A", &[2])]),
        ],
    };
    let out = SceneSerializer::new(&scene, &registry).serialize().unwrap();
    let expected = vec![
        struct_start("Scene"),
        field("resources"),
        Token::MapStart,
        Token::MapEnd,
        field("entities"),
        Token::MapStart,
        Token::U64 { value: 7 },
        struct_start("Entity"),
        field("components"),
        Token::MapStart,
        str_token("A"),
        Token::Opaque { words: vec![1] },
        Token::MapEnd,
        Token::StructEnd,
        Token::U64 { value: 3 },
        struct_start("Entity"),
        field("components"),
        Token::MapStart,
        str_token("A"),
        Token::Opaque { words: vec![2] },
        str_token("B"),
        Token::Opaque { words: vec![5] },
        Token::MapEnd,
        Token::StructEnd,
        Token::MapEnd,
        Token::StructEnd,
    ];
    assert_eq!(expected, out);
}

#[test]
fn should_roundtrip_scene() {
    let registry = create_registry();
    let scene = DynamicScene {
        resources: vec![value("MyResource", &[123])],
        entities: vec![
            entity(7, vec![value("A", &[1])]),
            entity(3, vec![value("B", &[5]), value("A", &[2])]),
        ],
    };
    let tokens = SceneSerializer::new(&scene, &registry).serialize().unwrap();
    let decoded = SceneDeserializer { type_registry: &registry }.deserialize(&tokens).unwrap();
    assert_eq!(2, decoded.entities.len());
    assert_eq!(Entity { bits: 7 }, decoded.entities[0].entity);
    assert_eq!(Entity { bits: 3 }, decoded.entities[1].entity);
    assert_scene_matches(&scene, &decoded);
}

#[test]
fn should_roundtrip_empty_scene() {
    let registry = create_registry();
    let scene = DynamicScene { resources: vec![], entities: vec![] };
    let tokens = SceneSerializer::new(&scene, &registry).serialize().unwrap();
    let decoded = SceneDeserializer { type_registry: &registry }.deserialize(&tokens).unwrap();
    assert_eq!(scene, decoded);
}

#[test]
fn encode_is_deterministic_across_insertion_orders() {
    let registry = create_registry();
    let one = DynamicScene {
        resources: vec![],
        entities: vec![entity(1, vec![value("B", &[5]), value("A", &[2])])],
    };
    let two = DynamicScene {
        resources: vec![],
        entities: vec![entity(1, vec![value("A", &[2]), value("B", &[5])])],
    };
    let t1 = SceneSerializer::new(&one, &registry).serialize().unwrap();
    let t2 = SceneSerializer::new(&two, &registry).serialize().unwrap();
    assert_eq!(t1, t2);
}

#[test]
fn encode_rejects_unregistered_type() {
    let registry = create_registry();
    let scene = DynamicScene { resources: vec![value("Nope", &[9])], entities: vec![] };
    let err = SceneSerializer::new(&scene, &registry).serialize().unwrap_err();
    assert_eq!(SceneError::UnknownType { key: TypeKey::Name { name: "Nope".to_string() } }, err);
}

#[test]
fn decode_rejects_duplicate_type() {
    let registry = create_registry();
    let tokens = vec![
        struct_start("Scene"),
        field("resources"),
        Token::MapStart,
        Token::MapEnd,
        field("entities"),
        Token::MapStart,
        Token::U64 { value: 3 },
        struct_start("Entity"),
        field("components"),
        Token::MapStart,
        str_token("A"),
        Token::Opaque { words: vec![1] },
        str_token("A"),
        Token::Opaque { words: vec![2] },
        Token::MapEnd,
        Token::StructEnd,
        Token::MapEnd,
        Token::StructEnd,
    ];
    let err = SceneDeserializer { type_registry: &registry }.deserialize(&tokens).unwrap_err();
    assert_eq!(SceneError::DuplicateType { name: "A".to_string() }, err);
}

#[test]
fn decode_rejects_duplicate_type_through_tag_alias() {
    // The same identity reached once by name and once by integer tag is still
    // one type used twice.
    let registry = create_registry();
    let tokens = vec![
        Token::MapStart,
        str_token("A"),
        Token::Opaque { words: vec![1] },
        Token::U64 { value: 1 },
        Token::Opaque { words: vec![2] },
        Token::MapEnd,
    ];
    let err = scene_codec::SceneMapDeserializer { registry: &registry }
        .deserialize(&tokens, 0)
        .unwrap_err();
    assert_eq!(SceneError::DuplicateType { name: "A".to_string() }, err);
}

#[test]
fn decode_rejects_unknown_type_name() {
    let registry = create_registry();
    let tokens = vec![
        Token::MapStart,
        str_token("Mystery"),
        Token::Opaque { words: vec![1] },
        Token::MapEnd,
    ];
    let err = scene_codec::SceneMapDeserializer { registry: &registry }
        .deserialize(&tokens, 0)
        .unwrap_err();
    assert_eq!(
        SceneError::UnknownType { key: TypeKey::Name { name: "Mystery".to_string() } },
        err
    );
}

#[test]
fn decode_rejects_unknown_type_tag() {
    let registry = create_registry();
    let tokens = vec![
        Token::MapStart,
        Token::U64 { value: 999 },
        Token::Opaque { words: vec![1] },
        Token::MapEnd,
    ];
    let err = scene_codec::SceneMapDeserializer { registry: &registry }
        .deserialize(&tokens, 0)
        .unwrap_err();
    assert_eq!(SceneError::UnknownType { key: TypeKey::Tag { tag: 999 } }, err);
}

#[test]
fn decode_rejects_malformed_payload() {
    let registry = create_registry();
    // Type `A` declares one payload word; two words are a value-decode error.
    let tokens = vec![
        Token::MapStart,
        str_token("A"),
        Token::Opaque { words: vec![1, 2] },
        Token::MapEnd,
    ];
    let err = scene_codec::SceneMapDeserializer { registry: &registry }
        .deserialize(&tokens, 0)
        .unwrap_err();
    assert_eq!(SceneError::ValueDecode { name: "A".to_string() }, err);
}

#[test]
fn decode_rejects_missing_entities_field() {
    let registry = create_registry();
    let tokens = vec![
        struct_start("Scene"),
        field("resources"),
        Token::MapStart,
        Token::MapEnd,
        Token::StructEnd,
    ];
    let err = SceneDeserializer { type_registry: &registry }.deserialize(&tokens).unwrap_err();
    assert_eq!(SceneError::MissingField { field: "entities".to_string() }, err);
}

#[test]
fn decode_rejects_missing_resources_field() {
    let registry = create_registry();
    let tokens = vec![struct_start("Scene"), Token::StructEnd];
    let err = SceneDeserializer { type_registry: &registry }.deserialize(&tokens).unwrap_err();
    assert_eq!(SceneError::MissingField { field: "resources".to_string() }, err);
}

#[test]
fn decode_rejects_duplicate_resources_field() {
    let registry = create_registry();
    let tokens = vec![
        struct_start("Scene"),
        field("resources"),
        Token::MapStart,
        Token::MapEnd,
        field("resources"),
        Token::MapStart,
        Token::MapEnd,
        Token::StructEnd,
    ];
    let err = SceneDeserializer { type_registry: &registry }.deserialize(&tokens).unwrap_err();
    assert_eq!(SceneError::DuplicateField { field: "resources".to_string() }, err);
}

#[test]
fn decode_rejects_missing_components_field() {
    let registry = create_registry();
    let tokens = vec![
        struct_start("Scene"),
        field("resources"),
        Token::MapStart,
        Token::MapEnd,
        field("entities"),
        Token::MapStart,
        Token::U64 { value: 1 },
        struct_start("Entity"),
        Token::StructEnd,
        Token::MapEnd,
        Token::StructEnd,
    ];
    let err = SceneDeserializer { type_registry: &registry }.deserialize(&tokens).unwrap_err();
    assert_eq!(SceneError::MissingField { field: "components".to_string() }, err);
}

#[test]
fn decode_rejects_duplicate_components_field() {
    let registry = create_registry();
    let tokens = vec![
        struct_start("Entity"),
        field("components"),
        Token::MapStart,
        Token::MapEnd,
        field("components"),
        Token::MapStart,
        Token::MapEnd,
        Token::StructEnd,
    ];
    let de = scene_codec::SceneEntityDeserializer {
        entity: Entity { bits: 1 },
        type_registry: &registry,
    };
    let err = de.deserialize(&tokens, 0).unwrap_err();
    assert_eq!(SceneError::DuplicateField { field: "components".to_string() }, err);
}

#[test]
fn decode_accepts_named_fields_in_any_order() {
    let registry = create_registry();
    let tokens = vec![
        struct_start("Scene"),
        field("entities"),
        Token::MapStart,
        Token::MapEnd,
        field("resources"),
        Token::MapStart,
        str_token("MyResource"),
        Token::Opaque { words: vec![123] },
        Token::MapEnd,
        Token::StructEnd,
    ];
    let decoded = SceneDeserializer { type_registry: &registry }.deserialize(&tokens).unwrap();
    assert_eq!(1, decoded.resources.len(), "expected `resources` to contain 1 resource");
    assert_eq!("MyResource", decoded.resources[0].name);
    assert_eq!(vec![123], decoded.resources[0].words);
    assert!(decoded.entities.is_empty());
}

#[test]
fn decode_accepts_positional_scene_and_entity() {
    let registry = create_registry();
    let tokens = vec![
        struct_start("Scene"),
        Token::MapStart,
        Token::MapEnd,
        Token::MapStart,
        Token::U64 { value: 9 },
        struct_start("Entity"),
        Token::MapStart,
        str_token("A"),
        Token::Opaque { words: vec![4] },
        Token::MapEnd,
        Token::StructEnd,
        Token::MapEnd,
        Token::StructEnd,
    ];
    let decoded = SceneDeserializer { type_registry: &registry }.deserialize(&tokens).unwrap();
    assert_eq!(1, decoded.entities.len());
    assert_eq!(Entity { bits: 9 }, decoded.entities[0].entity);
    assert_eq!(vec![value("A", &[4])], decoded.entities[0].components);
}

#[test]
fn decode_accepts_sequential_collection_fallback() {
    let registry = create_registry();
    let map_form = vec![
        Token::MapStart,
        str_token("A"),
        Token::Opaque { words: vec![4] },
        str_token("B"),
        Token::Opaque { words: vec![5] },
        Token::MapEnd,
    ];
    let seq_form = vec![
        Token::SeqStart,
        str_token("A"),
        Token::Opaque { words: vec![4] },
        str_token("B"),
        Token::Opaque { words: vec![5] },
        Token::SeqEnd,
    ];
    let de = scene_codec::SceneMapDeserializer { registry: &registry };
    let (from_map, _) = de.deserialize(&map_form, 0).unwrap();
    let (from_seq, _) = de.deserialize(&seq_form, 0).unwrap();
    assert_eq!(from_map, from_seq);
    assert_eq!(2, from_map.len());
}

#[test]
fn sequential_fallback_still_rejects_duplicates() {
    let registry = create_registry();
    let tokens = vec![
        Token::SeqStart,
        str_token("A"),
        Token::Opaque { words: vec![4] },
        str_token("A"),
        Token::Opaque { words: vec![5] },
        Token::SeqEnd,
    ];
    let err = scene_codec::SceneMapDeserializer { registry: &registry }
        .deserialize(&tokens, 0)
        .unwrap_err();
    assert_eq!(SceneError::DuplicateType { name: "A".to_string() }, err);
}

#[test]
fn canonicalization_absent_hook_keeps_raw_value() {
    let registry = create_registry();
    let tokens = vec![
        Token::MapStart,
        str_token("A"),
        Token::Opaque { words: vec![7] },
        Token::MapEnd,
    ];
    let (vals, _) = scene_codec::SceneMapDeserializer { registry: &registry }
        .deserialize(&tokens, 0)
        .unwrap();
    assert_eq!(vec![value("A", &[7])], vals);
    assert!(!vals[0].canonical);
}

#[test]
fn canonicalization_failing_hook_falls_back_to_raw_value() {
    let registry = create_registry();
    let tokens = vec![
        Token::MapStart,
        str_token("Flaky"),
        Token::Opaque { words: vec![7] },
        Token::MapEnd,
    ];
    let (vals, _) = scene_codec::SceneMapDeserializer { registry: &registry }
        .deserialize(&tokens, 0)
        .unwrap();
    assert_eq!(vec![value("Flaky", &[7])], vals);
    assert!(!vals[0].canonical);
}

#[test]
fn canonicalization_rebuilding_hook_marks_value_canonical() {
    let registry = create_registry();
    let tokens = vec![
        Token::MapStart,
        str_token("Rebuilt"),
        Token::Opaque { words: vec![7, 8] },
        Token::MapEnd,
    ];
    let (vals, _) = scene_codec::SceneMapDeserializer { registry: &registry }
        .deserialize(&tokens, 0)
        .unwrap();
    assert_eq!(1, vals.len());
    assert_eq!("Rebuilt", vals[0].name);
    assert_eq!(vec![7, 8], vals[0].words);
    assert!(vals[0].canonical);
}

#[test]
fn entities_deserializer_reads_records_in_stream_order() {
    let registry = create_registry();
    let tokens = vec![
        Token::MapStart,
        Token::U64 { value: 7 },
        struct_start("Entity"),
        field("components"),
        Token::MapStart,
        Token::MapEnd,
        Token::StructEnd,
        Token::U64 { value: 3 },
        struct_start("Entity"),
        field("components"),
        Token::MapStart,
        Token::MapEnd,
        Token::StructEnd,
        Token::MapEnd,
    ];
    let de = scene_codec::SceneEntitiesDeserializer { type_registry: &registry };
    let (es, consumed) = de.deserialize(&tokens, 0).unwrap();
    assert_eq!(tokens.len(), consumed);
    assert_eq!(2, es.len());
    assert_eq!(Entity { bits: 7 }, es[0].entity);
    assert_eq!(Entity { bits: 3 }, es[1].entity);
}

#[test]
fn roundtrip_value_with_empty_payload() {
    let mut registry = create_registry();
    assert!(registry.register(descriptor(6, "Marker", 0, CanonicalHook::Absent)));
    let scene = DynamicScene { resources: vec![value("Marker", &[])], entities: vec![] };
    let tokens = SceneSerializer::new(&scene, &registry).serialize().unwrap();
    let decoded = SceneDeserializer { type_registry: &registry }.deserialize(&tokens).unwrap();
    assert_eq!(scene, decoded);
}

#[test]
fn roundtrip_keeps_canonical_representation_equal() {
    // A scene holding an already canonical value round-trips to a value that
    // represents the same instance, whatever the canonical flag says.
    let registry = create_registry();
    let scene = DynamicScene {
        resources: vec![Value {
            name: "Rebuilt".to_string(),
            words: vec![1, 2],
            canonical: true,
        }],
        entities: vec![],
    };
    let tokens = SceneSerializer::new(&scene, &registry).serialize().unwrap();
    let decoded = SceneDeserializer { type_registry: &registry }.deserialize(&tokens).unwrap();
    assert_scene_matches(&scene, &decoded);
    assert!(decoded.resources[0].canonical);
}
