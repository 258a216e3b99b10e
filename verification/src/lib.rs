//! A self-describing, heterogeneous-collection serialization engine.
//!
//! The engine encodes and decodes scenes whose elements are runtime-typed
//! values: the type of each element is not known at compile time but is
//! recovered from a dynamic type registry during encoding and decoding.
//! Collections of uniquely typed values are emitted sorted by type name for
//! reproducible output; decoding enforces the invariants a compile-time type
//! system cannot express — one instance per type, each required structural
//! field exactly once — and bridges every raw decoded value back through its
//! type's optional canonicalization hook.
//!
//! Encoding and decoding are written against an abstract structured
//! encoder/decoder interface, a stream of [`token::Token`]s; concrete byte
//! formats sit outside the library and translate that stream. The laws the
//! codec obeys — round trip, sorted-encode determinism, duplicate- and
//! unknown-type rejection, missing- and duplicate-field rejection, and the
//! canonicalization fallback — are stated and proved in [`laws`].

pub mod de;
pub mod error;
pub mod laws;
pub mod lexical;
pub mod registry;
pub mod ser;
pub mod sorting;
pub mod token;
pub mod value;

pub use de::{
    SceneDeserializer, SceneEntitiesDeserializer, SceneEntityDeserializer, SceneMapDeserializer,
};
pub use error::{SceneError, TypeKey};
pub use registry::{CanonicalHook, TypeDescriptor, TypeRegistry};
pub use ser::{EntitiesSerializer, EntitySerializer, SceneMapSerializer, SceneSerializer};
pub use token::Token;
pub use value::{DynamicEntity, DynamicScene, Entity, Value};
