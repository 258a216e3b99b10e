//! Decoding: from the structured token stream back to scenes.
//!
//! Decode mirrors encode, reading from the structured decoder and
//! reconstituting the same nesting, with the registry consulted at every
//! collection boundary to resolve type tags into concrete decode logic. Each
//! struct-like layer accepts both a purely positional encoding and a
//! named-field encoding, so one state machine serves self-describing and
//! tuple-like wire formats alike. A uniquely typed collection is additionally
//! accepted as a positional sequence of self-describing elements. All decode
//! functions consume a suffix of the stream and report how far they read;
//! a failed decode yields no partial scene.

use vstd::prelude::*;

use crate::error::{SceneError, SceneErrorV, TypeKey, TypeKeyV};
use crate::registry::{lookup_name, lookup_tag, DescV, TypeRegistry};
use crate::token::{tokens_view, Token, TokenV};
use crate::value::{canonicalize, copy_words, entities_view, spec_canonicalize, values_view, DynamicEntity, DynamicEntityV, DynamicScene, DynamicSceneV, Entity, Value, ValueV};

verus! {

/// One collection entry after its key resolved to the descriptor `d`: the
/// duplicate-type check, the payload read, the per-type shape check, the
/// canonicalization dispatch, and the rest of the entries.
pub open spec fn spec_decode_entry_value(
    tokens: Seq<TokenV>,
    d: DescV,
    reg: Seq<DescV>,
    seen: Seq<u64>,
    sequential: bool,
) -> Result<(Seq<ValueV>, Seq<TokenV>), SceneErrorV>
    decreases tokens.len(),
{
    if seen.contains(d.id) {
        Err(SceneErrorV::DuplicateType { name: d.name })
    } else if tokens.len() == 0 {
        Err(SceneErrorV::InvalidStructure)
    } else {
        match tokens[0] {
            TokenV::Opaque { words } => if words.len() != d.arity {
                Err(SceneErrorV::ValueDecode { name: d.name })
            } else {
                let rec = if sequential {
                    spec_decode_seq_entries(tokens.drop_first(), reg, seen.push(d.id))
                } else {
                    spec_decode_map_entries(tokens.drop_first(), reg, seen.push(d.id))
                };
                match rec {
                    Ok((vals, rest)) => Ok((seq![spec_canonicalize(d, words)] + vals, rest)),
                    Err(e) => Err(e),
                }
            },
            _ => Err(SceneErrorV::InvalidStructure),
        }
    }
}

/// The entries of an associative collection encoding: repeatedly one key —
/// a type name or an integer type tag, resolved before the value is touched —
/// then one value, until the association's end.
pub open spec fn spec_decode_map_entries(
    tokens: Seq<TokenV>,
    reg: Seq<DescV>,
    seen: Seq<u64>,
) -> Result<(Seq<ValueV>, Seq<TokenV>), SceneErrorV>
    decreases tokens.len(),
{
    if tokens.len() == 0 {
        Err(SceneErrorV::InvalidStructure)
    } else {
        match tokens[0] {
            TokenV::MapEnd => Ok((Seq::empty(), tokens.drop_first())),
            TokenV::Str { value } => match lookup_name(reg, value) {
                None => Err(SceneErrorV::UnknownType { key: TypeKeyV::Name { name: value } }),
                Some(d) => spec_decode_entry_value(tokens.drop_first(), d, reg, seen, false),
            },
            TokenV::U64 { value } => match lookup_tag(reg, value) {
                None => Err(SceneErrorV::UnknownType { key: TypeKeyV::Tag { tag: value } }),
                Some(d) => spec_decode_entry_value(tokens.drop_first(), d, reg, seen, false),
            },
            _ => Err(SceneErrorV::InvalidStructure),
        }
    }
}

/// The entries of the sequential fallback encoding: self-describing elements,
/// each carrying its own embedded type tag, read positionally until the
/// sequence's end.
pub open spec fn spec_decode_seq_entries(
    tokens: Seq<TokenV>,
    reg: Seq<DescV>,
    seen: Seq<u64>,
) -> Result<(Seq<ValueV>, Seq<TokenV>), SceneErrorV>
    decreases tokens.len(),
{
    if tokens.len() == 0 {
        Err(SceneErrorV::InvalidStructure)
    } else {
        match tokens[0] {
            TokenV::SeqEnd => Ok((Seq::empty(), tokens.drop_first())),
            TokenV::Str { value } => match lookup_name(reg, value) {
                None => Err(SceneErrorV::UnknownType { key: TypeKeyV::Name { name: value } }),
                Some(d) => spec_decode_entry_value(tokens.drop_first(), d, reg, seen, true),
            },
            TokenV::U64 { value } => match lookup_tag(reg, value) {
                None => Err(SceneErrorV::UnknownType { key: TypeKeyV::Tag { tag: value } }),
                Some(d) => spec_decode_entry_value(tokens.drop_first(), d, reg, seen, true),
            },
            _ => Err(SceneErrorV::InvalidStructure),
        }
    }
}

/// A uniquely typed collection: either an association of type keys to values,
/// or the sequential fallback. Both entry points yield the same kind of
/// result sequence.
pub open spec fn spec_decode_map(tokens: Seq<TokenV>, reg: Seq<DescV>) -> Result<
    (Seq<ValueV>, Seq<TokenV>),
    SceneErrorV,
> {
    if tokens.len() == 0 {
        Err(SceneErrorV::InvalidStructure)
    } else {
        match tokens[0] {
            TokenV::MapStart => spec_decode_map_entries(tokens.drop_first(), reg, Seq::empty()),
            TokenV::SeqStart => spec_decode_seq_entries(tokens.drop_first(), reg, Seq::empty()),
            _ => Err(SceneErrorV::InvalidStructure),
        }
    }
}

/// A successful entry run always consumes at least the end token.
proof fn lemma_decode_entry_value_rest(
    tokens: Seq<TokenV>,
    d: DescV,
    reg: Seq<DescV>,
    seen: Seq<u64>,
    sequential: bool,
)
    ensures
        spec_decode_entry_value(tokens, d, reg, seen, sequential) matches Ok((_, rest))
            ==> rest.len() < tokens.len(),
    decreases tokens.len(),
{
    if !seen.contains(d.id) && tokens.len() > 0 {
        match tokens[0] {
            TokenV::Opaque { words } => {
                if words.len() == d.arity {
                    if sequential {
                        lemma_decode_seq_entries_rest(tokens.drop_first(), reg, seen.push(d.id));
                    } else {
                        lemma_decode_map_entries_rest(tokens.drop_first(), reg, seen.push(d.id));
                    }
                }
            },
            _ => {},
        }
    }
}

/// A successful associative entry run always consumes at least the end token.
proof fn lemma_decode_map_entries_rest(tokens: Seq<TokenV>, reg: Seq<DescV>, seen: Seq<u64>)
    ensures
        spec_decode_map_entries(tokens, reg, seen) matches Ok((_, rest)) ==> rest.len()
            < tokens.len(),
    decreases tokens.len(),
{
    if tokens.len() > 0 {
        match tokens[0] {
            TokenV::Str { value } => {
                match lookup_name(reg, value) {
                    Some(d) => lemma_decode_entry_value_rest(tokens.drop_first(), d, reg, seen, false),
                    None => {},
                }
            },
            TokenV::U64 { value } => {
                match lookup_tag(reg, value) {
                    Some(d) => lemma_decode_entry_value_rest(tokens.drop_first(), d, reg, seen, false),
                    None => {},
                }
            },
            _ => {},
        }
    }
}

/// A successful sequential entry run always consumes at least the end token.
proof fn lemma_decode_seq_entries_rest(tokens: Seq<TokenV>, reg: Seq<DescV>, seen: Seq<u64>)
    ensures
        spec_decode_seq_entries(tokens, reg, seen) matches Ok((_, rest)) ==> rest.len()
            < tokens.len(),
    decreases tokens.len(),
{
    if tokens.len() > 0 {
        match tokens[0] {
            TokenV::Str { value } => {
                match lookup_name(reg, value) {
                    Some(d) => lemma_decode_entry_value_rest(tokens.drop_first(), d, reg, seen, true),
                    None => {},
                }
            },
            TokenV::U64 { value } => {
                match lookup_tag(reg, value) {
                    Some(d) => lemma_decode_entry_value_rest(tokens.drop_first(), d, reg, seen, true),
                    None => {},
                }
            },
            _ => {},
        }
    }
}

/// A successful collection decode always consumes at least its two delimiter
/// tokens.
proof fn lemma_decode_map_rest(tokens: Seq<TokenV>, reg: Seq<DescV>)
    ensures
        spec_decode_map(tokens, reg) matches Ok((_, rest)) ==> rest.len() < tokens.len(),
{
    if tokens.len() > 0 {
        lemma_decode_map_entries_rest(tokens.drop_first(), reg, Seq::empty());
        lemma_decode_seq_entries_rest(tokens.drop_first(), reg, Seq::empty());
    }
}

/// The named-field scan of a record object: the single recognized field
/// `components`, required to appear exactly once before the object ends.
pub open spec fn spec_decode_entity_fields(
    tokens: Seq<TokenV>,
    reg: Seq<DescV>,
    comps: Option<Seq<ValueV>>,
) -> Result<(Seq<ValueV>, Seq<TokenV>), SceneErrorV>
    decreases tokens.len(),
    via spec_decode_entity_fields_dec
{
    if tokens.len() == 0 {
        Err(SceneErrorV::InvalidStructure)
    } else {
        match tokens[0] {
            TokenV::StructEnd => match comps {
                Some(c) => Ok((c, tokens.drop_first())),
                None => Err(SceneErrorV::MissingField { field: "components"@ }),
            },
            TokenV::Field { name } => if name == "components"@ {
                if comps is Some {
                    Err(SceneErrorV::DuplicateField { field: "components"@ })
                } else {
                    match spec_decode_map(tokens.drop_first(), reg) {
                        Ok((vals, rest)) => spec_decode_entity_fields(rest, reg, Some(vals)),
                        Err(e) => Err(e),
                    }
                }
            } else {
                Err(SceneErrorV::InvalidStructure)
            },
            _ => Err(SceneErrorV::InvalidStructure),
        }
    }
}

#[via_fn]
proof fn spec_decode_entity_fields_dec(
    tokens: Seq<TokenV>,
    reg: Seq<DescV>,
    comps: Option<Seq<ValueV>>,
) {
    if tokens.len() > 0 {
        match tokens[0] {
            TokenV::Field { .. } => {
                lemma_decode_map_rest(tokens.drop_first(), reg);
            },
            _ => {},
        }
    }
}

/// One record: an object named `Entity` holding its collection either as the
/// single positional field or as the named field `components`. The record
/// key is not part of the record's payload; the enclosing record set supplies
/// it.
pub open spec fn spec_decode_entity(tokens: Seq<TokenV>, reg: Seq<DescV>) -> Result<
    (Seq<ValueV>, Seq<TokenV>),
    SceneErrorV,
> {
    if tokens.len() == 0 {
        Err(SceneErrorV::InvalidStructure)
    } else {
        match tokens[0] {
            TokenV::StructStart { name } => if name != "Entity"@ {
                Err(SceneErrorV::InvalidStructure)
            } else {
                let body = tokens.drop_first();
                if body.len() == 0 {
                    Err(SceneErrorV::InvalidStructure)
                } else {
                    match body[0] {
                        TokenV::Field { .. } => spec_decode_entity_fields(body, reg, None),
                        TokenV::StructEnd => Err(
                            SceneErrorV::MissingField { field: "components"@ },
                        ),
                        _ => match spec_decode_map(body, reg) {
                            Ok((vals, rest)) => if rest.len() > 0 && rest[0] is StructEnd {
                                Ok((vals, rest.drop_first()))
                            } else {
                                Err(SceneErrorV::InvalidStructure)
                            },
                            Err(e) => Err(e),
                        },
                    }
                }
            },
            _ => Err(SceneErrorV::InvalidStructure),
        }
    }
}

/// A successful named-field scan of a record consumes at least the end token.
proof fn lemma_decode_entity_fields_rest(
    tokens: Seq<TokenV>,
    reg: Seq<DescV>,
    comps: Option<Seq<ValueV>>,
)
    ensures
        spec_decode_entity_fields(tokens, reg, comps) matches Ok((_, rest)) ==> rest.len()
            < tokens.len(),
    decreases tokens.len(),
{
    if tokens.len() > 0 {
        match tokens[0] {
            TokenV::Field { name } => {
                if name == "components"@ && comps is None {
                    match spec_decode_map(tokens.drop_first(), reg) {
                        Ok((vals, rest)) => {
                            lemma_decode_map_rest(tokens.drop_first(), reg);
                            lemma_decode_entity_fields_rest(rest, reg, Some(vals));
                        },
                        Err(_) => {},
                    }
                }
            },
            _ => {},
        }
    }
}

/// A successful record decode always consumes at least its two delimiter
/// tokens.
proof fn lemma_decode_entity_rest(tokens: Seq<TokenV>, reg: Seq<DescV>)
    ensures
        spec_decode_entity(tokens, reg) matches Ok((_, rest)) ==> rest.len() < tokens.len(),
{
    if tokens.len() > 0 {
        lemma_decode_entity_fields_rest(tokens.drop_first(), reg, None);
        lemma_decode_map_rest(tokens.drop_first(), reg);
    }
}

/// The entries of the record set: repeatedly one record key, then one record
/// with that key attached, until the association's end. Duplicate keys are
/// not rejected at this layer: every read record is accumulated.
pub open spec fn spec_decode_entities_entries(tokens: Seq<TokenV>, reg: Seq<DescV>) -> Result<
    (Seq<DynamicEntityV>, Seq<TokenV>),
    SceneErrorV,
>
    decreases tokens.len(),
    via spec_decode_entities_entries_dec
{
    if tokens.len() == 0 {
        Err(SceneErrorV::InvalidStructure)
    } else {
        match tokens[0] {
            TokenV::MapEnd => Ok((Seq::empty(), tokens.drop_first())),
            TokenV::U64 { value } => match spec_decode_entity(tokens.drop_first(), reg) {
                Ok((comps, rest)) => match spec_decode_entities_entries(rest, reg) {
                    Ok((es, rest2)) => Ok(
                        (seq![DynamicEntityV { entity: value, components: comps }] + es, rest2),
                    ),
                    Err(e) => Err(e),
                },
                Err(e) => Err(e),
            },
            _ => Err(SceneErrorV::InvalidStructure),
        }
    }
}

#[via_fn]
proof fn spec_decode_entities_entries_dec(tokens: Seq<TokenV>, reg: Seq<DescV>) {
    if tokens.len() > 0 {
        lemma_decode_entity_rest(tokens.drop_first(), reg);
    }
}

/// The record set: an association of record keys to records, in stream order.
pub open spec fn spec_decode_entities(tokens: Seq<TokenV>, reg: Seq<DescV>) -> Result<
    (Seq<DynamicEntityV>, Seq<TokenV>),
    SceneErrorV,
> {
    if tokens.len() == 0 {
        Err(SceneErrorV::InvalidStructure)
    } else {
        match tokens[0] {
            TokenV::MapStart => spec_decode_entities_entries(tokens.drop_first(), reg),
            _ => Err(SceneErrorV::InvalidStructure),
        }
    }
}

/// A successful record-set entry run consumes at least the end token.
proof fn lemma_decode_entities_entries_rest(tokens: Seq<TokenV>, reg: Seq<DescV>)
    ensures
        spec_decode_entities_entries(tokens, reg) matches Ok((_, rest)) ==> rest.len()
            < tokens.len(),
    decreases tokens.len(),
{
    if tokens.len() > 0 {
        match tokens[0] {
            TokenV::U64 { .. } => {
                match spec_decode_entity(tokens.drop_first(), reg) {
                    Ok((_, rest)) => {
                        lemma_decode_entity_rest(tokens.drop_first(), reg);
                        lemma_decode_entities_entries_rest(rest, reg);
                    },
                    Err(_) => {},
                }
            },
            _ => {},
        }
    }
}

/// A successful record-set decode consumes at least its two delimiter tokens.
proof fn lemma_decode_entities_rest(tokens: Seq<TokenV>, reg: Seq<DescV>)
    ensures
        spec_decode_entities(tokens, reg) matches Ok((_, rest)) ==> rest.len() < tokens.len(),
{
    if tokens.len() > 0 {
        lemma_decode_entities_entries_rest(tokens.drop_first(), reg);
    }
}

/// The named-field scan of a scene object: the two recognized fields
/// `resources` and `entities`, each required exactly once, in any order,
/// before the object ends.
pub open spec fn spec_decode_scene_fields(
    tokens: Seq<TokenV>,
    reg: Seq<DescV>,
    res: Option<Seq<ValueV>>,
    ents: Option<Seq<DynamicEntityV>>,
) -> Result<(DynamicSceneV, Seq<TokenV>), SceneErrorV>
    decreases tokens.len(),
    via spec_decode_scene_fields_dec
{
    if tokens.len() == 0 {
        Err(SceneErrorV::InvalidStructure)
    } else {
        match tokens[0] {
            TokenV::StructEnd => match res {
                None => Err(SceneErrorV::MissingField { field: "resources"@ }),
                Some(r) => match ents {
                    None => Err(SceneErrorV::MissingField { field: "entities"@ }),
                    Some(e) => Ok(
                        (DynamicSceneV { resources: r, entities: e }, tokens.drop_first()),
                    ),
                },
            },
            TokenV::Field { name } => if name == "resources"@ {
                if res is Some {
                    Err(SceneErrorV::DuplicateField { field: "resources"@ })
                } else {
                    match spec_decode_map(tokens.drop_first(), reg) {
                        Ok((vals, rest)) => spec_decode_scene_fields(rest, reg, Some(vals), ents),
                        Err(e) => Err(e),
                    }
                }
            } else if name == "entities"@ {
                if ents is Some {
                    Err(SceneErrorV::DuplicateField { field: "entities"@ })
                } else {
                    match spec_decode_entities(tokens.drop_first(), reg) {
                        Ok((es, rest)) => spec_decode_scene_fields(rest, reg, res, Some(es)),
                        Err(e) => Err(e),
                    }
                }
            } else {
                Err(SceneErrorV::InvalidStructure)
            },
            _ => Err(SceneErrorV::InvalidStructure),
        }
    }
}

#[via_fn]
proof fn spec_decode_scene_fields_dec(
    tokens: Seq<TokenV>,
    reg: Seq<DescV>,
    res: Option<Seq<ValueV>>,
    ents: Option<Seq<DynamicEntityV>>,
) {
    if tokens.len() > 0 {
        match tokens[0] {
            TokenV::Field { .. } => {
                lemma_decode_map_rest(tokens.drop_first(), reg);
                lemma_decode_entities_rest(tokens.drop_first(), reg);
            },
            _ => {},
        }
    }
}

/// A whole scene: an object named `Scene` holding its two fields either
/// positionally, `resources` then `entities` in that order, or as named
/// fields in any order.
pub open spec fn spec_decode_scene(tokens: Seq<TokenV>, reg: Seq<DescV>) -> Result<
    (DynamicSceneV, Seq<TokenV>),
    SceneErrorV,
> {
    if tokens.len() == 0 {
        Err(SceneErrorV::InvalidStructure)
    } else {
        match tokens[0] {
            TokenV::StructStart { name } => if name != "Scene"@ {
                Err(SceneErrorV::InvalidStructure)
            } else {
                let body = tokens.drop_first();
                if body.len() == 0 {
                    Err(SceneErrorV::InvalidStructure)
                } else {
                    match body[0] {
                        TokenV::Field { .. } => spec_decode_scene_fields(body, reg, None, None),
                        TokenV::StructEnd => Err(
                            SceneErrorV::MissingField { field: "resources"@ },
                        ),
                        _ => match spec_decode_map(body, reg) {
                            Err(e) => Err(e),
                            Ok((res, r1)) => if r1.len() == 0 {
                                Err(SceneErrorV::InvalidStructure)
                            } else if r1[0] is StructEnd {
                                Err(SceneErrorV::MissingField { field: "entities"@ })
                            } else {
                                match spec_decode_entities(r1, reg) {
                                    Err(e) => Err(e),
                                    Ok((es, r2)) => if r2.len() > 0 && r2[0] is StructEnd {
                                        Ok(
                                            (
                                                DynamicSceneV { resources: res, entities: es },
                                                r2.drop_first(),
                                            ),
                                        )
                                    } else {
                                        Err(SceneErrorV::InvalidStructure)
                                    },
                                }
                            },
                        },
                    }
                }
            },
            _ => Err(SceneErrorV::InvalidStructure),
        }
    }
}

/// The ghost models of a possibly absent collection.
pub open spec fn opt_values_view(c: Option<Vec<Value>>) -> Option<Seq<ValueV>> {
    match c {
        Some(v) => Some(values_view(v@)),
        None => None,
    }
}

/// The ghost models of a possibly absent record set.
pub open spec fn opt_entities_view(c: Option<Vec<DynamicEntity>>) -> Option<Seq<DynamicEntityV>> {
    match c {
        Some(v) => Some(entities_view(v@)),
        None => None,
    }
}

/// Whether the sequence of already consumed type identities holds the given
/// one.
fn contains_id(seen: &Vec<u64>, id: u64) -> (r: bool)
    ensures
        r == seen@.contains(id),
{
    let mut i: usize = 0;
    while i < seen.len()
        invariant
            0 <= i <= seen@.len(),
            forall|k: int| 0 <= k < i ==> seen@[k] != id,
        decreases seen@.len() - i,
    {
        if seen[i] == id {
            return true;
        }
        i = i + 1;
    }
    false
}

/// Decodes one resolved entry: the duplicate-type check, the payload, the
/// canonicalization dispatch, then the remaining entries of the collection.
fn decode_entry_value(
    tokens: &Vec<Token>,
    pos: usize,
    registry: &TypeRegistry,
    d: &crate::registry::TypeDescriptor,
    seen: Vec<u64>,
    sequential: bool,
) -> (r: Result<(Vec<Value>, usize), SceneError>)
    requires
        pos <= tokens@.len(),
    ensures
        ({
            let spec_r = spec_decode_entry_value(
                tokens_view(tokens@).skip(pos as int),
                d@,
                registry@,
                seen@,
                sequential,
            );
            match r {
                Ok((vals, p)) => pos < p <= tokens@.len() && spec_r == Ok::<
                    (Seq<ValueV>, Seq<TokenV>),
                    SceneErrorV,
                >((values_view(vals@), tokens_view(tokens@).skip(p as int))),
                Err(e) => spec_r == Err::<(Seq<ValueV>, Seq<TokenV>), SceneErrorV>(e@),
            }
        }),
    decreases tokens@.len() - pos,
{
    let ghost tv = tokens_view(tokens@);
    let ghost suf = tv.skip(pos as int);
    if contains_id(&seen, d.id) {
        return Err(SceneError::DuplicateType { name: d.name.clone() });
    }
    if pos >= tokens.len() {
        proof {
            assert(suf.len() == 0);
        }
        return Err(SceneError::InvalidStructure);
    }
    proof {
        assert(suf.len() > 0);
        assert(suf[0] == tv[pos as int]);
        assert(tv[pos as int] == tokens@[pos as int]@);
        assert(suf.drop_first() =~= tv.skip(pos as int + 1));
    }
    match &tokens[pos] {
        Token::Opaque { words } => {
            if words.len() != d.arity {
                return Err(SceneError::ValueDecode { name: d.name.clone() });
            }
            let v = canonicalize(d, copy_words(words));
            let mut seen2 = seen;
            seen2.push(d.id);
            let rec = if sequential {
                decode_seq_entries(tokens, pos + 1, registry, seen2)
            } else {
                decode_map_entries(tokens, pos + 1, registry, seen2)
            };
            match rec {
                Ok((vals, p)) => {
                    let ghost vals0 = vals@;
                    let mut vals = vals;
                    vals.insert(0, v);
                    proof {
                        assert(values_view(vals@) =~= seq![v@] + values_view(vals0));
                    }
                    Ok((vals, p))
                },
                Err(e) => Err(e),
            }
        },
        _ => Err(SceneError::InvalidStructure),
    }
}

/// Decodes the entries of an associative collection encoding.
fn decode_map_entries(
    tokens: &Vec<Token>,
    pos: usize,
    registry: &TypeRegistry,
    seen: Vec<u64>,
) -> (r: Result<(Vec<Value>, usize), SceneError>)
    requires
        pos <= tokens@.len(),
    ensures
        ({
            let spec_r = spec_decode_map_entries(
                tokens_view(tokens@).skip(pos as int),
                registry@,
                seen@,
            );
            match r {
                Ok((vals, p)) => pos < p <= tokens@.len() && spec_r == Ok::<
                    (Seq<ValueV>, Seq<TokenV>),
                    SceneErrorV,
                >((values_view(vals@), tokens_view(tokens@).skip(p as int))),
                Err(e) => spec_r == Err::<(Seq<ValueV>, Seq<TokenV>), SceneErrorV>(e@),
            }
        }),
    decreases tokens@.len() - pos,
{
    let ghost tv = tokens_view(tokens@);
    let ghost suf = tv.skip(pos as int);
    if pos >= tokens.len() {
        proof {
            assert(suf.len() == 0);
        }
        return Err(SceneError::InvalidStructure);
    }
    proof {
        assert(suf.len() > 0);
        assert(suf[0] == tv[pos as int]);
        assert(tv[pos as int] == tokens@[pos as int]@);
        assert(suf.drop_first() =~= tv.skip(pos as int + 1));
    }
    match &tokens[pos] {
        Token::MapEnd => {
            let vals: Vec<Value> = Vec::new();
            proof {
                assert(values_view(vals@) =~= Seq::<ValueV>::empty());
            }
            Ok((vals, pos + 1))
        },
        Token::Str { value } => match registry.resolve_by_name(value.as_str()) {
            None => Err(SceneError::UnknownType { key: TypeKey::Name { name: value.clone() } }),
            Some(d) => decode_entry_value(tokens, pos + 1, registry, d, seen, false),
        },
        Token::U64 { value } => match registry.resolve_by_tag(*value) {
            None => Err(SceneError::UnknownType { key: TypeKey::Tag { tag: *value } }),
            Some(d) => decode_entry_value(tokens, pos + 1, registry, d, seen, false),
        },
        _ => Err(SceneError::InvalidStructure),
    }
}

/// Decodes the entries of the sequential fallback encoding.
fn decode_seq_entries(
    tokens: &Vec<Token>,
    pos: usize,
    registry: &TypeRegistry,
    seen: Vec<u64>,
) -> (r: Result<(Vec<Value>, usize), SceneError>)
    requires
        pos <= tokens@.len(),
    ensures
        ({
            let spec_r = spec_decode_seq_entries(
                tokens_view(tokens@).skip(pos as int),
                registry@,
                seen@,
            );
            match r {
                Ok((vals, p)) => pos < p <= tokens@.len() && spec_r == Ok::<
                    (Seq<ValueV>, Seq<TokenV>),
                    SceneErrorV,
                >((values_view(vals@), tokens_view(tokens@).skip(p as int))),
                Err(e) => spec_r == Err::<(Seq<ValueV>, Seq<TokenV>), SceneErrorV>(e@),
            }
        }),
    decreases tokens@.len() - pos,
{
    let ghost tv = tokens_view(tokens@);
    let ghost suf = tv.skip(pos as int);
    if pos >= tokens.len() {
        proof {
            assert(suf.len() == 0);
        }
        return Err(SceneError::InvalidStructure);
    }
    proof {
        assert(suf.len() > 0);
        assert(suf[0] == tv[pos as int]);
        assert(tv[pos as int] == tokens@[pos as int]@);
        assert(suf.drop_first() =~= tv.skip(pos as int + 1));
    }
    match &tokens[pos] {
        Token::SeqEnd => {
            let vals: Vec<Value> = Vec::new();
            proof {
                assert(values_view(vals@) =~= Seq::<ValueV>::empty());
            }
            Ok((vals, pos + 1))
        },
        Token::Str { value } => match registry.resolve_by_name(value.as_str()) {
            None => Err(SceneError::UnknownType { key: TypeKey::Name { name: value.clone() } }),
            Some(d) => decode_entry_value(tokens, pos + 1, registry, d, seen, true),
        },
        Token::U64 { value } => match registry.resolve_by_tag(*value) {
            None => Err(SceneError::UnknownType { key: TypeKey::Tag { tag: *value } }),
            Some(d) => decode_entry_value(tokens, pos + 1, registry, d, seen, true),
        },
        _ => Err(SceneError::InvalidStructure),
    }
}

/// Decodes a uniquely typed collection: an association of type keys to
/// values, or the sequential fallback of self-describing elements.
pub struct SceneMapDeserializer<'a> {
    /// Type registry in which the types of the values to decode are
    /// registered.
    pub registry: &'a TypeRegistry,
}

impl<'a> SceneMapDeserializer<'a> {
    /// Decodes one collection starting at `pos`, returning the decoded values
    /// and the position of the first token after the collection.
    pub fn deserialize(&self, tokens: &Vec<Token>, pos: usize) -> (r: Result<
        (Vec<Value>, usize),
        SceneError,
    >)
        requires
            pos <= tokens@.len(),
        ensures
            ({
                let spec_r = spec_decode_map(tokens_view(tokens@).skip(pos as int), self.registry@);
                match r {
                    Ok((vals, p)) => pos < p <= tokens@.len() && spec_r == Ok::<
                        (Seq<ValueV>, Seq<TokenV>),
                        SceneErrorV,
                    >((values_view(vals@), tokens_view(tokens@).skip(p as int))),
                    Err(e) => spec_r == Err::<(Seq<ValueV>, Seq<TokenV>), SceneErrorV>(e@),
                }
            }),
    {
        let ghost tv = tokens_view(tokens@);
        let ghost suf = tv.skip(pos as int);
        if pos >= tokens.len() {
            proof {
                assert(suf.len() == 0);
            }
            return Err(SceneError::InvalidStructure);
        }
        proof {
            assert(suf.len() > 0);
            assert(suf[0] == tv[pos as int]);
            assert(tv[pos as int] == tokens@[pos as int]@);
            assert(suf.drop_first() =~= tv.skip(pos as int + 1));
        }
        match &tokens[pos] {
            Token::MapStart => decode_map_entries(tokens, pos + 1, self.registry, Vec::new()),
            Token::SeqStart => decode_seq_entries(tokens, pos + 1, self.registry, Vec::new()),
            _ => Err(SceneError::InvalidStructure),
        }
    }
}

/// Scans the named fields of a record object.
fn decode_entity_fields(
    tokens: &Vec<Token>,
    pos: usize,
    registry: &TypeRegistry,
    comps: Option<Vec<Value>>,
) -> (r: Result<(Vec<Value>, usize), SceneError>)
    requires
        pos <= tokens@.len(),
    ensures
        ({
            let spec_r = spec_decode_entity_fields(
                tokens_view(tokens@).skip(pos as int),
                registry@,
                opt_values_view(comps),
            );
            match r {
                Ok((vals, p)) => pos < p <= tokens@.len() && spec_r == Ok::<
                    (Seq<ValueV>, Seq<TokenV>),
                    SceneErrorV,
                >((values_view(vals@), tokens_view(tokens@).skip(p as int))),
                Err(e) => spec_r == Err::<(Seq<ValueV>, Seq<TokenV>), SceneErrorV>(e@),
            }
        }),
    decreases tokens@.len() - pos,
{
    let ghost tv = tokens_view(tokens@);
    let ghost suf = tv.skip(pos as int);
    if pos >= tokens.len() {
        proof {
            assert(suf.len() == 0);
        }
        return Err(SceneError::InvalidStructure);
    }
    proof {
        assert(suf.len() > 0);
        assert(suf[0] == tv[pos as int]);
        assert(tv[pos as int] == tokens@[pos as int]@);
        assert(suf.drop_first() =~= tv.skip(pos as int + 1));
    }
    match &tokens[pos] {
        Token::StructEnd => match comps {
            Some(c) => Ok((c, pos + 1)),
            None => Err(SceneError::MissingField { field: "components".to_owned() }),
        },
        Token::Field { name } => {
            if crate::lexical::str_eq(name.as_str(), "components") {
                if comps.is_some() {
                    Err(SceneError::DuplicateField { field: "components".to_owned() })
                } else {
                    let map_de = SceneMapDeserializer { registry };
                    match map_de.deserialize(tokens, pos + 1) {
                        Ok((vals, p)) => decode_entity_fields(tokens, p, registry, Some(vals)),
                        Err(e) => Err(e),
                    }
                }
            } else {
                Err(SceneError::InvalidStructure)
            }
        },
        _ => Err(SceneError::InvalidStructure),
    }
}

/// Decodes one record and attaches the externally supplied record key to it.
pub struct SceneEntityDeserializer<'a> {
    /// Key of the record being decoded, supplied by the enclosing record set.
    pub entity: Entity,
    /// Type registry in which the component types used by the record are
    /// registered.
    pub type_registry: &'a TypeRegistry,
}

impl<'a> SceneEntityDeserializer<'a> {
    /// Decodes one record starting at `pos`, returning it with the key
    /// attached and the position of the first token after the record.
    pub fn deserialize(&self, tokens: &Vec<Token>, pos: usize) -> (r: Result<
        (DynamicEntity, usize),
        SceneError,
    >)
        requires
            pos <= tokens@.len(),
        ensures
            ({
                let spec_r = spec_decode_entity(
                    tokens_view(tokens@).skip(pos as int),
                    self.type_registry@,
                );
                match r {
                    Ok((e, p)) => pos < p <= tokens@.len() && e@.entity == self.entity.bits
                        && spec_r == Ok::<(Seq<ValueV>, Seq<TokenV>), SceneErrorV>(
                        (e@.components, tokens_view(tokens@).skip(p as int)),
                    ),
                    Err(e) => spec_r == Err::<(Seq<ValueV>, Seq<TokenV>), SceneErrorV>(e@),
                }
            }),
    {
        let ghost tv = tokens_view(tokens@);
        let ghost suf = tv.skip(pos as int);
        if pos >= tokens.len() {
            proof {
                assert(suf.len() == 0);
            }
            return Err(SceneError::InvalidStructure);
        }
        proof {
            assert(suf.len() > 0);
            assert(suf[0] == tv[pos as int]);
            assert(tv[pos as int] == tokens@[pos as int]@);
            assert(suf.drop_first() =~= tv.skip(pos as int + 1));
        }
        match &tokens[pos] {
            Token::StructStart { name } => {
                if !crate::lexical::str_eq(name.as_str(), "Entity") {
                    return Err(SceneError::InvalidStructure);
                }
                let body: usize = pos + 1;
                if body >= tokens.len() {
                    proof {
                        assert(suf.drop_first().len() == 0);
                    }
                    return Err(SceneError::InvalidStructure);
                }
                proof {
                    assert(suf.drop_first().len() > 0);
                    assert(suf.drop_first()[0] == tv[body as int]);
                    assert(tv[body as int] == tokens@[body as int]@);
                }
                let comps = match &tokens[body] {
                    Token::Field { .. } => decode_entity_fields(tokens, body, self.type_registry, None),
                    Token::StructEnd => Err(
                        SceneError::MissingField { field: "components".to_owned() },
                    ),
                    _ => {
                        let map_de = SceneMapDeserializer { registry: self.type_registry };
                        match map_de.deserialize(tokens, body) {
                            Err(e) => Err(e),
                            Ok((vals, p)) => {
                                let ghost suf_p = tv.skip(p as int);
                                if p >= tokens.len() {
                                    proof {
                                        assert(suf_p.len() == 0);
                                    }
                                    Err(SceneError::InvalidStructure)
                                } else {
                                    proof {
                                        assert(suf_p.len() > 0);
                                        assert(suf_p[0] == tv[p as int]);
                                        assert(tv[p as int] == tokens@[p as int]@);
                                        assert(suf_p.drop_first() =~= tv.skip(p as int + 1));
                                    }
                                    match &tokens[p] {
                                        Token::StructEnd => Ok((vals, p + 1)),
                                        _ => Err(SceneError::InvalidStructure),
                                    }
                                }
                            },
                        }
                    },
                };
                match comps {
                    Ok((vals, p)) => Ok((DynamicEntity { entity: self.entity, components: vals }, p)),
                    Err(e) => Err(e),
                }
            },
            _ => Err(SceneError::InvalidStructure),
        }
    }
}

/// Decodes the entries of the record set.
fn decode_entities_entries(tokens: &Vec<Token>, pos: usize, registry: &TypeRegistry) -> (r: Result<
    (Vec<DynamicEntity>, usize),
    SceneError,
>)
    requires
        pos <= tokens@.len(),
    ensures
        ({
            let spec_r = spec_decode_entities_entries(
                tokens_view(tokens@).skip(pos as int),
                registry@,
            );
            match r {
                Ok((es, p)) => pos < p <= tokens@.len() && spec_r == Ok::<
                    (Seq<DynamicEntityV>, Seq<TokenV>),
                    SceneErrorV,
                >((entities_view(es@), tokens_view(tokens@).skip(p as int))),
                Err(e) => spec_r == Err::<(Seq<DynamicEntityV>, Seq<TokenV>), SceneErrorV>(e@),
            }
        }),
    decreases tokens@.len() - pos,
{
    let ghost tv = tokens_view(tokens@);
    let ghost suf = tv.skip(pos as int);
    if pos >= tokens.len() {
        proof {
            assert(suf.len() == 0);
        }
        return Err(SceneError::InvalidStructure);
    }
    proof {
        assert(suf.len() > 0);
        assert(suf[0] == tv[pos as int]);
        assert(tv[pos as int] == tokens@[pos as int]@);
        assert(suf.drop_first() =~= tv.skip(pos as int + 1));
    }
    match &tokens[pos] {
        Token::MapEnd => {
            let es: Vec<DynamicEntity> = Vec::new();
            proof {
                assert(entities_view(es@) =~= Seq::<DynamicEntityV>::empty());
            }
            Ok((es, pos + 1))
        },
        Token::U64 { value } => {
            let ent_de = SceneEntityDeserializer {
                entity: Entity { bits: *value },
                type_registry: registry,
            };
            match ent_de.deserialize(tokens, pos + 1) {
                Err(e) => Err(e),
                Ok((de, p)) => match decode_entities_entries(tokens, p, registry) {
                    Err(e) => Err(e),
                    Ok((es, p2)) => {
                        let ghost es0 = es@;
                        let ghost dev = de@;
                        let mut es = es;
                        es.insert(0, de);
                        proof {
                            assert(entities_view(es@) =~= seq![dev] + entities_view(es0));
                        }
                        Ok((es, p2))
                    },
                },
            }
        },
        _ => Err(SceneError::InvalidStructure),
    }
}

/// Decodes the record set: an association of record keys to records.
pub struct SceneEntitiesDeserializer<'a> {
    /// Type registry in which the component types used by the records to
    /// decode are registered.
    pub type_registry: &'a TypeRegistry,
}

impl<'a> SceneEntitiesDeserializer<'a> {
    /// Decodes the record set starting at `pos`, returning the records in
    /// stream order and the position of the first token after the set.
    pub fn deserialize(&self, tokens: &Vec<Token>, pos: usize) -> (r: Result<
        (Vec<DynamicEntity>, usize),
        SceneError,
    >)
        requires
            pos <= tokens@.len(),
        ensures
            ({
                let spec_r = spec_decode_entities(
                    tokens_view(tokens@).skip(pos as int),
                    self.type_registry@,
                );
                match r {
                    Ok((es, p)) => pos < p <= tokens@.len() && spec_r == Ok::<
                        (Seq<DynamicEntityV>, Seq<TokenV>),
                        SceneErrorV,
                    >((entities_view(es@), tokens_view(tokens@).skip(p as int))),
                    Err(e) => spec_r == Err::<(Seq<DynamicEntityV>, Seq<TokenV>), SceneErrorV>(e@),
                }
            }),
    {
        let ghost tv = tokens_view(tokens@);
        let ghost suf = tv.skip(pos as int);
        if pos >= tokens.len() {
            proof {
                assert(suf.len() == 0);
            }
            return Err(SceneError::InvalidStructure);
        }
        proof {
            assert(suf.len() > 0);
            assert(suf[0] == tv[pos as int]);
            assert(tv[pos as int] == tokens@[pos as int]@);
            assert(suf.drop_first() =~= tv.skip(pos as int + 1));
        }
        match &tokens[pos] {
            Token::MapStart => decode_entities_entries(tokens, pos + 1, self.type_registry),
            _ => Err(SceneError::InvalidStructure),
        }
    }
}

/// Scans the named fields of a scene object.
fn decode_scene_fields(
    tokens: &Vec<Token>,
    pos: usize,
    registry: &TypeRegistry,
    res: Option<Vec<Value>>,
    ents: Option<Vec<DynamicEntity>>,
) -> (r: Result<(DynamicScene, usize), SceneError>)
    requires
        pos <= tokens@.len(),
    ensures
        ({
            let spec_r = spec_decode_scene_fields(
                tokens_view(tokens@).skip(pos as int),
                registry@,
                opt_values_view(res),
                opt_entities_view(ents),
            );
            match r {
                Ok((s, p)) => pos < p <= tokens@.len() && spec_r == Ok::<
                    (DynamicSceneV, Seq<TokenV>),
                    SceneErrorV,
                >((s@, tokens_view(tokens@).skip(p as int))),
                Err(e) => spec_r == Err::<(DynamicSceneV, Seq<TokenV>), SceneErrorV>(e@),
            }
        }),
    decreases tokens@.len() - pos,
{
    let ghost tv = tokens_view(tokens@);
    let ghost suf = tv.skip(pos as int);
    if pos >= tokens.len() {
        proof {
            assert(suf.len() == 0);
        }
        return Err(SceneError::InvalidStructure);
    }
    proof {
        assert(suf.len() > 0);
        assert(suf[0] == tv[pos as int]);
        assert(tv[pos as int] == tokens@[pos as int]@);
        assert(suf.drop_first() =~= tv.skip(pos as int + 1));
    }
    match &tokens[pos] {
        Token::StructEnd => match res {
            None => Err(SceneError::MissingField { field: "resources".to_owned() }),
            Some(r) => match ents {
                None => Err(SceneError::MissingField { field: "entities".to_owned() }),
                Some(e) => Ok((DynamicScene { resources: r, entities: e }, pos + 1)),
            },
        },
        Token::Field { name } => {
            if crate::lexical::str_eq(name.as_str(), "resources") {
                if res.is_some() {
                    Err(SceneError::DuplicateField { field: "resources".to_owned() })
                } else {
                    let map_de = SceneMapDeserializer { registry };
                    match map_de.deserialize(tokens, pos + 1) {
                        Ok((vals, p)) => decode_scene_fields(tokens, p, registry, Some(vals), ents),
                        Err(e) => Err(e),
                    }
                }
            } else if crate::lexical::str_eq(name.as_str(), "entities") {
                if ents.is_some() {
                    Err(SceneError::DuplicateField { field: "entities".to_owned() })
                } else {
                    let ents_de = SceneEntitiesDeserializer { type_registry: registry };
                    match ents_de.deserialize(tokens, pos + 1) {
                        Ok((es, p)) => decode_scene_fields(tokens, p, registry, res, Some(es)),
                        Err(e) => Err(e),
                    }
                }
            } else {
                Err(SceneError::InvalidStructure)
            }
        },
        _ => Err(SceneError::InvalidStructure),
    }
}

/// Decodes a whole scene from the structured token stream.
pub struct SceneDeserializer<'a> {
    /// Type registry in which the component and resource types used in the
    /// scene to decode are registered.
    pub type_registry: &'a TypeRegistry,
}

impl<'a> SceneDeserializer<'a> {
    /// Decodes one scene from the start of the stream. Tokens after the scene
    /// are not the engine's concern and stay unread.
    pub fn deserialize(&self, tokens: &Vec<Token>) -> (r: Result<DynamicScene, SceneError>)
        ensures
            ({
                let spec_r = spec_decode_scene(tokens_view(tokens@), self.type_registry@);
                match r {
                    Ok(s) => spec_r matches Ok(p) && p.0 == s@,
                    Err(e) => spec_r == Err::<(DynamicSceneV, Seq<TokenV>), SceneErrorV>(e@),
                }
            }),
    {
        let ghost tv = tokens_view(tokens@);
        if tokens.len() == 0 {
            return Err(SceneError::InvalidStructure);
        }
        proof {
            assert(tv.skip(0) =~= tv);
            assert(tv[0] == tokens@[0]@);
        }
        match &tokens[0] {
            Token::StructStart { name } => {
                if !crate::lexical::str_eq(name.as_str(), "Scene") {
                    return Err(SceneError::InvalidStructure);
                }
                let body: usize = 1;
                if body >= tokens.len() {
                    proof {
                        assert(tv.drop_first().len() == 0);
                    }
                    return Err(SceneError::InvalidStructure);
                }
                proof {
                    assert(tv.drop_first().len() > 0);
                    assert(tv.drop_first()[0] == tv[1]);
                    assert(tv[1] == tokens@[1]@);
                    assert(tv.drop_first() =~= tv.skip(1));
                }
                match &tokens[body] {
                    Token::Field { .. } => {
                        match decode_scene_fields(tokens, body, self.type_registry, None, None) {
                            Ok((s, _)) => Ok(s),
                            Err(e) => Err(e),
                        }
                    },
                    Token::StructEnd => Err(
                        SceneError::MissingField { field: "resources".to_owned() },
                    ),
                    _ => {
                        let map_de = SceneMapDeserializer { registry: self.type_registry };
                        match map_de.deserialize(tokens, body) {
                            Err(e) => Err(e),
                            Ok((res, p1)) => {
                                let ghost suf1 = tv.skip(p1 as int);
                                if p1 >= tokens.len() {
                                    proof {
                                        assert(suf1.len() == 0);
                                    }
                                    return Err(SceneError::InvalidStructure);
                                }
                                proof {
                                    assert(suf1.len() > 0);
                                    assert(suf1[0] == tv[p1 as int]);
                                    assert(tv[p1 as int] == tokens@[p1 as int]@);
                                }
                                match &tokens[p1] {
                                    Token::StructEnd => Err(
                                        SceneError::MissingField { field: "entities".to_owned() },
                                    ),
                                    _ => {
                                        let ents_de = SceneEntitiesDeserializer {
                                            type_registry: self.type_registry,
                                        };
                                        match ents_de.deserialize(tokens, p1) {
                                            Err(e) => Err(e),
                                            Ok((es, p2)) => {
                                                let ghost suf2 = tv.skip(p2 as int);
                                                if p2 >= tokens.len() {
                                                    proof {
                                                        assert(suf2.len() == 0);
                                                    }
                                                    return Err(SceneError::InvalidStructure);
                                                }
                                                proof {
                                                    assert(suf2.len() > 0);
                                                    assert(suf2[0] == tv[p2 as int]);
                                                    assert(tv[p2 as int] == tokens@[p2 as int]@);
                                                }
                                                match &tokens[p2] {
                                                    Token::StructEnd => Ok(
                                                        DynamicScene { resources: res, entities: es },
                                                    ),
                                                    _ => Err(SceneError::InvalidStructure),
                                                }
                                            },
                                        }
                                    },
                                }
                            },
                        }
                    },
                }
            },
            _ => Err(SceneError::InvalidStructure),
        }
    }
}

} // verus!
