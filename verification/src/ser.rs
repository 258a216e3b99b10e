//! Encoding: from scenes to the structured token stream.
//!
//! Encode walks Scene → record set → record → uniquely typed collection →
//! per-value payload, writing into the structured encoder. Every collection is
//! emitted as an association of type name to value, sorted ascending by type
//! name; the record set is emitted in the caller-supplied key order, which is
//! assumed already meaningful. Encoding fails only when a value's type was
//! never registered, and the first such type, in emission order, names the
//! error.

use vstd::prelude::*;

use crate::error::{SceneError, SceneErrorV, TypeKey, TypeKeyV};
use crate::registry::{lookup_name, DescV, TypeRegistry};
use crate::sorting::{sort_by_name, sort_values};
use crate::token::{lemma_tokens_view_add, lemma_tokens_view_push, tokens_view, Token, TokenV};
use crate::value::{copy_words, entities_view, values_view, DynamicEntity, DynamicEntityV, DynamicScene, DynamicSceneV, Value, ValueV};

verus! {

/// The token run of an already sorted run of collection entries: for each
/// value, its type name as the association key, then its payload.
pub open spec fn spec_encode_map_entries(s: Seq<ValueV>, reg: Seq<DescV>) -> Result<
    Seq<TokenV>,
    SceneErrorV,
>
    decreases s.len(),
{
    if s.len() == 0 {
        Ok(Seq::empty())
    } else {
        match lookup_name(reg, s[0].name) {
            None => Err(SceneErrorV::UnknownType { key: TypeKeyV::Name { name: s[0].name } }),
            Some(_) => match spec_encode_map_entries(s.drop_first(), reg) {
                Ok(rest) => Ok(
                    seq![
                        TokenV::Str { value: s[0].name },
                        TokenV::Opaque { words: s[0].words },
                    ] + rest,
                ),
                Err(e) => Err(e),
            },
        }
    }
}

/// The encoded form of a uniquely typed collection: an association holding
/// the collection's values sorted ascending by type name.
pub open spec fn spec_encode_map(entries: Seq<ValueV>, reg: Seq<DescV>) -> Result<
    Seq<TokenV>,
    SceneErrorV,
> {
    match spec_encode_map_entries(sort_by_name(entries), reg) {
        Ok(t) => Ok(seq![TokenV::MapStart] + t + seq![TokenV::MapEnd]),
        Err(e) => Err(e),
    }
}

/// The encoded form of one record: an object with the single named field
/// `components` holding the record's collection. The record key is not part
/// of the record's own payload.
pub open spec fn spec_encode_entity(components: Seq<ValueV>, reg: Seq<DescV>) -> Result<
    Seq<TokenV>,
    SceneErrorV,
> {
    match spec_encode_map(components, reg) {
        Ok(t) => Ok(
            seq![
                TokenV::StructStart { name: "Entity"@ },
                TokenV::Field { name: "components"@ },
            ] + t + seq![TokenV::StructEnd],
        ),
        Err(e) => Err(e),
    }
}

/// The token run of the record set's entries, in caller-supplied order: for
/// each record, its key, then the record itself.
pub open spec fn spec_encode_entities_entries(es: Seq<DynamicEntityV>, reg: Seq<DescV>) -> Result<
    Seq<TokenV>,
    SceneErrorV,
>
    decreases es.len(),
{
    if es.len() == 0 {
        Ok(Seq::empty())
    } else {
        match spec_encode_entity(es[0].components, reg) {
            Err(e) => Err(e),
            Ok(t0) => match spec_encode_entities_entries(es.drop_first(), reg) {
                Ok(rest) => Ok(seq![TokenV::U64 { value: es[0].entity }] + t0 + rest),
                Err(e) => Err(e),
            },
        }
    }
}

/// The encoded form of the record set: an association of record key to
/// record, in caller-supplied order.
pub open spec fn spec_encode_entities(es: Seq<DynamicEntityV>, reg: Seq<DescV>) -> Result<
    Seq<TokenV>,
    SceneErrorV,
> {
    match spec_encode_entities_entries(es, reg) {
        Ok(t) => Ok(seq![TokenV::MapStart] + t + seq![TokenV::MapEnd]),
        Err(e) => Err(e),
    }
}

/// The encoded form of a whole scene: a two-field object, `resources` then
/// `entities`, in that fixed order.
pub open spec fn spec_encode_scene(s: DynamicSceneV, reg: Seq<DescV>) -> Result<
    Seq<TokenV>,
    SceneErrorV,
> {
    match spec_encode_map(s.resources, reg) {
        Err(e) => Err(e),
        Ok(rt) => match spec_encode_entities(s.entities, reg) {
            Err(e) => Err(e),
            Ok(et) => Ok(
                seq![
                    TokenV::StructStart { name: "Scene"@ },
                    TokenV::Field { name: "resources"@ },
                ] + rt + seq![TokenV::Field { name: "entities"@ }] + et + seq![TokenV::StructEnd],
            ),
        },
    }
}

/// Encodes a list of values with unique types as an association of type name
/// to value, sorted by type name before emission.
///
/// Used to encode scene resources in [`SceneSerializer`] and record
/// components in [`EntitySerializer`]. Duplicate type names are not rejected
/// on this path — the caller is responsible for not constructing them, and a
/// decoder of the emitted association will reject them.
pub struct SceneMapSerializer<'a> {
    /// List of values of unique type to encode.
    pub entries: &'a Vec<Value>,
    /// Type registry in which the types used in `entries` are registered.
    pub registry: &'a TypeRegistry,
}

impl<'a> SceneMapSerializer<'a> {
    /// Encodes the collection, or reports the first value, in sorted order,
    /// whose type was never registered.
    pub fn serialize(&self) -> (r: Result<Vec<Token>, SceneError>)
        ensures
            match r {
                Ok(out) => spec_encode_map(values_view(self.entries@), self.registry@) == Ok::<
                    Seq<TokenV>,
                    SceneErrorV,
                >(tokens_view(out@)),
                Err(e) => spec_encode_map(values_view(self.entries@), self.registry@) == Err::<
                    Seq<TokenV>,
                    SceneErrorV,
                >(e@),
            },
    {
        broadcast use lemma_tokens_view_push;

        let ghost reg = self.registry@;
        let ghost sv = sort_by_name(values_view(self.entries@));
        let sorted = sort_values(self.entries);
        let mut out: Vec<Token> = Vec::new();
        out.push(Token::MapStart);
        let ghost mut acc: Seq<TokenV> = Seq::empty();
        let mut i: usize = 0;
        proof {
            assert(sv.skip(0) =~= sv);
            assert(tokens_view(out@) =~= seq![TokenV::MapStart] + acc);
        }
        while i < sorted.len()
            invariant
                0 <= i <= sorted@.len(),
                values_view(sorted@) == sv,
                sorted@.len() == sv.len(),
                reg == self.registry@,
                sv == sort_by_name(values_view(self.entries@)),
                tokens_view(out@) =~= seq![TokenV::MapStart] + acc,
                spec_encode_map_entries(sv, reg) == (match spec_encode_map_entries(
                    sv.skip(i as int),
                    reg,
                ) {
                    Ok(t) => Ok::<Seq<TokenV>, SceneErrorV>(acc + t),
                    Err(e) => Err::<Seq<TokenV>, SceneErrorV>(e),
                }),
            decreases sorted@.len() - i,
        {
            broadcast use lemma_tokens_view_push;

            proof {
                assert(sv.skip(i as int).len() > 0);
                assert(sv.skip(i as int)[0] == sv[i as int]);
                assert(sv[i as int] == sorted@[i as int]@);
                assert(sv.skip(i as int).drop_first() =~= sv.skip(i as int + 1));
            }
            match self.registry.resolve_by_name(sorted[i].name.as_str()) {
                None => {
                    let e = SceneError::UnknownType {
                        key: TypeKey::Name { name: sorted[i].name.clone() },
                    };
                    proof {
                        assert(spec_encode_map_entries(sv, reg) == Err::<Seq<TokenV>, SceneErrorV>(
                            e@,
                        ));
                    }
                    return Err(e);
                },
                Some(_) => {
                    out.push(Token::Str { value: sorted[i].name.clone() });
                    out.push(Token::Opaque { words: copy_words(&sorted[i].words) });
                    proof {
                        let entry = seq![
                            TokenV::Str { value: sv[i as int].name },
                            TokenV::Opaque { words: sv[i as int].words },
                        ];
                        let acc0 = acc;
                        acc = acc + entry;
                        assert(tokens_view(out@) =~= seq![TokenV::MapStart] + acc);
                        match spec_encode_map_entries(sv.skip(i as int + 1), reg) {
                            Ok(t) => {
                                assert(acc0 + (entry + t) =~= acc + t);
                            },
                            Err(_) => {},
                        }
                    }
                },
            }
            i = i + 1;
        }
        proof {
            assert(sv.skip(i as int).len() == 0);
            assert(acc + Seq::<TokenV>::empty() =~= acc);
        }
        out.push(Token::MapEnd);
        proof {
            assert(tokens_view(out@) =~= seq![TokenV::MapStart] + acc + seq![TokenV::MapEnd]);
        }
        Ok(out)
    }
}

/// Encodes one record as an object with the single named field `components`
/// holding the record's uniquely typed collection.
pub struct EntitySerializer<'a> {
    /// The record to encode.
    pub entity: &'a DynamicEntity,
    /// Type registry in which the component types used by the record are
    /// registered.
    pub registry: &'a TypeRegistry,
}

impl<'a> EntitySerializer<'a> {
    /// Encodes the record, or reports the first component type, in sorted
    /// order, that was never registered.
    pub fn serialize(&self) -> (r: Result<Vec<Token>, SceneError>)
        ensures
            match r {
                Ok(out) => spec_encode_entity(self.entity@.components, self.registry@) == Ok::<
                    Seq<TokenV>,
                    SceneErrorV,
                >(tokens_view(out@)),
                Err(e) => spec_encode_entity(self.entity@.components, self.registry@) == Err::<
                    Seq<TokenV>,
                    SceneErrorV,
                >(e@),
            },
    {
        broadcast use lemma_tokens_view_push, lemma_tokens_view_add;

        let map_ser = SceneMapSerializer { entries: &self.entity.components, registry: self.registry };
        match map_ser.serialize() {
            Err(e) => Err(e),
            Ok(mut mt) => {
                let ghost mv = tokens_view(mt@);
                let mut out: Vec<Token> = Vec::new();
                out.push(Token::StructStart { name: "Entity".to_owned() });
                out.push(Token::Field { name: "components".to_owned() });
                out.append(&mut mt);
                out.push(Token::StructEnd);
                proof {
                    assert(tokens_view(out@) =~= seq![
                        TokenV::StructStart { name: "Entity"@ },
                        TokenV::Field { name: "components"@ },
                    ] + mv + seq![TokenV::StructEnd]);
                }
                Ok(out)
            },
        }
    }
}

/// Encodes the record set as an association of record key to record, in the
/// caller-supplied order.
pub struct EntitiesSerializer<'a> {
    /// The records to encode.
    pub entities: &'a Vec<DynamicEntity>,
    /// Type registry in which the component types used by the records are
    /// registered.
    pub registry: &'a TypeRegistry,
}

impl<'a> EntitiesSerializer<'a> {
    /// Encodes the record set, or reports the first component type, in
    /// emission order, that was never registered.
    pub fn serialize(&self) -> (r: Result<Vec<Token>, SceneError>)
        ensures
            match r {
                Ok(out) => spec_encode_entities(entities_view(self.entities@), self.registry@)
                    == Ok::<Seq<TokenV>, SceneErrorV>(tokens_view(out@)),
                Err(e) => spec_encode_entities(entities_view(self.entities@), self.registry@)
                    == Err::<Seq<TokenV>, SceneErrorV>(e@),
            },
    {
        broadcast use lemma_tokens_view_push, lemma_tokens_view_add;

        let ghost reg = self.registry@;
        let ghost ev = entities_view(self.entities@);
        let mut out: Vec<Token> = Vec::new();
        out.push(Token::MapStart);
        let ghost mut acc: Seq<TokenV> = Seq::empty();
        let mut i: usize = 0;
        proof {
            assert(ev.skip(0) =~= ev);
            assert(tokens_view(out@) =~= seq![TokenV::MapStart] + acc);
        }
        while i < self.entities.len()
            invariant
                0 <= i <= self.entities@.len(),
                ev == entities_view(self.entities@),
                ev.len() == self.entities@.len(),
                reg == self.registry@,
                tokens_view(out@) =~= seq![TokenV::MapStart] + acc,
                spec_encode_entities_entries(ev, reg) == (match spec_encode_entities_entries(
                    ev.skip(i as int),
                    reg,
                ) {
                    Ok(t) => Ok::<Seq<TokenV>, SceneErrorV>(acc + t),
                    Err(e) => Err::<Seq<TokenV>, SceneErrorV>(e),
                }),
            decreases self.entities@.len() - i,
        {
            broadcast use lemma_tokens_view_push, lemma_tokens_view_add;

            proof {
                assert(ev.skip(i as int).len() > 0);
                assert(ev.skip(i as int)[0] == ev[i as int]);
                assert(ev[i as int] == self.entities@[i as int]@);
                assert(ev.skip(i as int).drop_first() =~= ev.skip(i as int + 1));
            }
            let ent_ser = EntitySerializer { entity: &self.entities[i], registry: self.registry };
            match ent_ser.serialize() {
                Err(e) => {
                    return Err(e);
                },
                Ok(mut ts) => {
                    let ghost tsv = tokens_view(ts@);
                    out.push(Token::U64 { value: self.entities[i].entity.bits });
                    out.append(&mut ts);
                    proof {
                        let entry = seq![TokenV::U64 { value: ev[i as int].entity }] + tsv;
                        let acc0 = acc;
                        acc = acc + entry;
                        assert(tokens_view(out@) =~= seq![TokenV::MapStart] + acc);
                        match spec_encode_entities_entries(ev.skip(i as int + 1), reg) {
                            Ok(t) => {
                                assert(acc0 + ((seq![TokenV::U64 { value: ev[i as int].entity }]
                                    + tsv) + t) =~= acc + t);
                            },
                            Err(_) => {},
                        }
                    }
                },
            }
            i = i + 1;
        }
        proof {
            assert(ev.skip(i as int).len() == 0);
            assert(acc + Seq::<TokenV>::empty() =~= acc);
        }
        out.push(Token::MapEnd);
        proof {
            assert(tokens_view(out@) =~= seq![TokenV::MapStart] + acc + seq![TokenV::MapEnd]);
        }
        Ok(out)
    }
}

/// Encoder for a [`DynamicScene`].
///
/// Helper object defining the engine's encoded form of a scene: a two-field
/// object holding the `resources` collection and the `entities` record set,
/// in that fixed order.
pub struct SceneSerializer<'a> {
    /// The scene to encode.
    pub scene: &'a DynamicScene,
    /// The type registry containing the types present in the scene.
    pub registry: &'a TypeRegistry,
}

impl<'a> SceneSerializer<'a> {
    /// Create a new serializer from a [`DynamicScene`] and an associated
    /// [`TypeRegistry`].
    ///
    /// The type registry must contain all types present in the scene for the
    /// encode to succeed.
    pub fn new(scene: &'a DynamicScene, registry: &'a TypeRegistry) -> (r: Self)
        ensures
            r.scene == scene,
            r.registry == registry,
    {
        SceneSerializer { scene, registry }
    }

    /// Encodes the scene, or reports the first type, in emission order, that
    /// was never registered.
    pub fn serialize(&self) -> (r: Result<Vec<Token>, SceneError>)
        ensures
            match r {
                Ok(out) => spec_encode_scene(self.scene@, self.registry@) == Ok::<
                    Seq<TokenV>,
                    SceneErrorV,
                >(tokens_view(out@)),
                Err(e) => spec_encode_scene(self.scene@, self.registry@) == Err::<
                    Seq<TokenV>,
                    SceneErrorV,
                >(e@),
            },
    {
        broadcast use lemma_tokens_view_push, lemma_tokens_view_add;

        let map_ser = SceneMapSerializer { entries: &self.scene.resources, registry: self.registry };
        let mut rt = match map_ser.serialize() {
            Err(e) => {
                return Err(e);
            },
            Ok(rt) => rt,
        };
        let ents_ser = EntitiesSerializer { entities: &self.scene.entities, registry: self.registry };
        let mut et = match ents_ser.serialize() {
            Err(e) => {
                return Err(e);
            },
            Ok(et) => et,
        };
        let ghost rv = tokens_view(rt@);
        let ghost ev = tokens_view(et@);
        let mut out: Vec<Token> = Vec::new();
        out.push(Token::StructStart { name: "Scene".to_owned() });
        out.push(Token::Field { name: "resources".to_owned() });
        out.append(&mut rt);
        out.push(Token::Field { name: "entities".to_owned() });
        out.append(&mut et);
        out.push(Token::StructEnd);
        proof {
            assert(tokens_view(out@) =~= seq![
                TokenV::StructStart { name: "Scene"@ },
                TokenV::Field { name: "resources"@ },
            ] + rv + seq![TokenV::Field { name: "entities"@ }] + ev + seq![TokenV::StructEnd]);
        }
        Ok(out)
    }
}

} // verus!
