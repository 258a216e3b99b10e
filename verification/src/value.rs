//! The data model: opaque values, records, and scenes.
//!
//! A [`Value`] is a type-erased handle to one instance of a registered type:
//! the generic codec layers only ever ask it for its type name and its encoded
//! payload, never for its concrete shape. A [`DynamicEntity`] is one keyed
//! record owning a uniquely typed collection of component values, and a
//! [`DynamicScene`] composes a collection of global resource values with an
//! ordered association of record keys to records.

use vstd::prelude::*;

use crate::registry::{lookup_name, CanonicalHook, DescV, TypeDescriptor};

verus! {

/// An opaque, totally ordered record key. The engine never interprets its
/// internal structure: it is used purely as an association key and re-emitted
/// verbatim.
#[derive(Clone, Copy, PartialEq, Eq, Structural, Debug)]
pub struct Entity {
    /// The packed identifier bits.
    pub bits: u64,
}

/// The ghost model of a [`Value`].
#[verifier::ext_equal]
pub struct ValueV {
    pub name: Seq<char>,
    pub words: Seq<u64>,
    pub canonical: bool,
}

/// A type-erased handle to one instance of a registered type.
#[derive(Debug, PartialEq, Eq)]
pub struct Value {
    /// The stable name of the instance's type, as the registry knows it.
    pub name: String,
    /// The instance's encoded payload, one opaque word per field.
    pub words: Vec<u64>,
    /// Whether the instance has been rebuilt into its canonical in-memory
    /// form by the type's canonicalization hook.
    pub canonical: bool,
}

impl View for Value {
    type V = ValueV;

    open spec fn view(&self) -> ValueV {
        ValueV { name: self.name@, words: self.words@, canonical: self.canonical }
    }
}

impl Clone for Value {
    fn clone(&self) -> (r: Self)
        ensures
            r@ == self@,
    {
        Value {
            name: self.name.clone(),
            words: copy_words(&self.words),
            canonical: self.canonical,
        }
    }
}

/// The ghost model of a [`DynamicEntity`].
#[verifier::ext_equal]
pub struct DynamicEntityV {
    pub entity: u64,
    pub components: Seq<ValueV>,
}

/// One keyed record: a record key plus its uniquely typed collection of
/// component values.
#[derive(Debug, PartialEq, Eq)]
pub struct DynamicEntity {
    /// The record key.
    pub entity: Entity,
    /// The record's component values; no two may share a type name.
    pub components: Vec<Value>,
}

impl View for DynamicEntity {
    type V = DynamicEntityV;

    open spec fn view(&self) -> DynamicEntityV {
        DynamicEntityV { entity: self.entity.bits, components: values_view(self.components@) }
    }
}

/// The ghost model of a [`DynamicScene`].
#[verifier::ext_equal]
pub struct DynamicSceneV {
    pub resources: Seq<ValueV>,
    pub entities: Seq<DynamicEntityV>,
}

/// The top-level container: a uniquely typed collection of global resource
/// values plus an ordered association of record keys to records.
#[derive(Debug, PartialEq, Eq)]
pub struct DynamicScene {
    /// The scene's global singleton values; no two may share a type name.
    pub resources: Vec<Value>,
    /// The scene's keyed records, in caller-supplied order.
    pub entities: Vec<DynamicEntity>,
}

impl View for DynamicScene {
    type V = DynamicSceneV;

    open spec fn view(&self) -> DynamicSceneV {
        DynamicSceneV {
            resources: values_view(self.resources@),
            entities: entities_view(self.entities@),
        }
    }
}

/// The ghost models of a sequence of values.
pub open spec fn values_view(s: Seq<Value>) -> Seq<ValueV> {
    s.map_values(|v: Value| v@)
}

/// The ghost models of a sequence of records.
pub open spec fn entities_view(s: Seq<DynamicEntity>) -> Seq<DynamicEntityV> {
    s.map_values(|e: DynamicEntity| e@)
}

/// Two values represent the same instance: same type, same payload. The
/// canonical flag is not part of the represented instance, exactly as a
/// rebuilt value still compares equal to the raw decoded one.
pub open spec fn same_represented(a: ValueV, b: ValueV) -> bool {
    a.name == b.name && a.words == b.words
}

/// No two values of the sequence share a type name: the invariant of a
/// uniquely typed collection.
pub open spec fn distinct_names(s: Seq<ValueV>) -> bool {
    forall|i: int, j: int| 0 <= i < j < s.len() ==> s[i].name != s[j].name
}

/// The value's type is registered and the payload has the shape the
/// descriptor declares.
pub open spec fn value_registered(v: ValueV, reg: Seq<DescV>) -> bool {
    match lookup_name(reg, v.name) {
        Some(d) => d.arity == v.words.len(),
        None => false,
    }
}

/// A uniquely typed collection all of whose values are registered with
/// well-shaped payloads.
pub open spec fn collection_wf(s: Seq<ValueV>, reg: Seq<DescV>) -> bool {
    distinct_names(s) && forall|i: int| 0 <= i < s.len() ==> value_registered(#[trigger] s[i], reg)
}

/// A scene whose resources and whose every record's components are
/// well-formed uniquely typed collections over the given registry.
pub open spec fn scene_wf(s: DynamicSceneV, reg: Seq<DescV>) -> bool {
    collection_wf(s.resources, reg) && forall|i: int|
        0 <= i < s.entities.len() ==> collection_wf(#[trigger] s.entities[i].components, reg)
}

/// The canonicalization step applied to one raw decoded payload: the raw
/// value is kept unless the type's hook rebuilds it, and a hook that fails
/// never aborts the decode.
pub open spec fn spec_canonicalize(d: DescV, words: Seq<u64>) -> ValueV {
    ValueV { name: d.name, words, canonical: d.hook is Rebuilding }
}

/// Applies the canonicalization hook dispatch to one raw decoded payload of
/// the type `d` describes.
pub fn canonicalize(d: &TypeDescriptor, words: Vec<u64>) -> (v: Value)
    ensures
        v@ == spec_canonicalize(d@, words@),
{
    let canonical = match d.hook {
        CanonicalHook::Rebuilding => true,
        _ => false,
    };
    Value { name: d.name.clone(), words, canonical }
}

/// Copies a payload word for word.
pub fn copy_words(v: &Vec<u64>) -> (r: Vec<u64>)
    ensures
        r@ == v@,
{
    let mut out: Vec<u64> = Vec::new();
    let mut i: usize = 0;
    while i < v.len()
        invariant
            0 <= i <= v.len(),
            out@ =~= v@.take(i as int),
        decreases v.len() - i,
    {
        out.push(v[i]);
        proof {
            assert(out@ =~= v@.take(i as int + 1));
        }
        i = i + 1;
    }
    proof {
        assert(v@.take(v@.len() as int) =~= v@);
    }
    out
}

} // verus!
