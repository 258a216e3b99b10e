//! The engine's laws: what encoding and decoding guarantee together.
//!
//! Each public proof function here states one property of the codec over the
//! specification-level encode and decode functions that the executable
//! serializers and deserializers are proved against: the round trip from a
//! well-formed scene through its encoding back to an equivalent scene, the
//! determinism of sorted encoding, the rejection of duplicate and unknown
//! types, the rejection of missing and duplicated structural fields, and the
//! canonicalization fallback.

use vstd::prelude::*;

use crate::de::{
    spec_decode_entities, spec_decode_entities_entries, spec_decode_entity,
    spec_decode_entity_fields, spec_decode_entry_value, spec_decode_map, spec_decode_map_entries,
    spec_decode_scene, spec_decode_scene_fields, spec_decode_seq_entries,
};
use crate::error::{SceneErrorV, TypeKeyV};
use crate::registry::{
    lemma_lookup_name_found, lemma_lookup_name_injective, lookup_name, registry_wf, CanonicalHook,
    DescV,
};
use crate::ser::{
    spec_encode_entities, spec_encode_entities_entries, spec_encode_entity, spec_encode_map,
    spec_encode_map_entries, spec_encode_scene,
};
use crate::sorting::{
    lemma_sort_by_name_deterministic, lemma_sort_by_name_ensures, lemma_sort_preserves_distinct_names,
    sort_by_name,
};
use crate::token::TokenV;
use crate::value::{
    collection_wf, distinct_names, same_represented, scene_wf, spec_canonicalize, value_registered,
    DynamicEntityV, DynamicSceneV, ValueV,
};

verus! {

/// The descriptor a registered value's name resolves to.
pub open spec fn desc_of(reg: Seq<DescV>, v: ValueV) -> DescV {
    match lookup_name(reg, v.name) {
        Some(d) => d,
        None => DescV { id: 0, name: Seq::empty(), arity: 0, hook: CanonicalHook::Absent },
    }
}

/// The type identities a run of entries consumes, in order.
pub open spec fn ids_of(s: Seq<ValueV>, reg: Seq<DescV>) -> Seq<u64> {
    s.map_values(|v: ValueV| desc_of(reg, v).id)
}

/// What decoding gives back for a run of registered entries: each value
/// re-read raw and passed through the canonicalization dispatch of its type.
pub open spec fn decoded_entries(s: Seq<ValueV>, reg: Seq<DescV>) -> Seq<ValueV> {
    s.map_values(|v: ValueV| spec_canonicalize(desc_of(reg, v), v.words))
}

/// A run of entries that a decode beginning with `seen` consumed identities
/// will read cleanly: every value registered with a well-shaped payload, no
/// identity repeated, none already consumed.
pub open spec fn entries_clean(s: Seq<ValueV>, reg: Seq<DescV>, seen: Seq<u64>) -> bool {
    &&& forall|i: int| 0 <= i < s.len() ==> value_registered(#[trigger] s[i], reg)
    &&& forall|i: int| 0 <= i < s.len() ==> !seen.contains(desc_of(reg, #[trigger] s[i]).id)
    &&& forall|i: int, j: int|
        0 <= i < j < s.len() ==> desc_of(reg, s[i]).id != desc_of(reg, s[j]).id
}

/// A clean run of entries encodes, and decoding its encoding consumes exactly
/// it: the decode of the encoding followed by anything proceeds into that
/// remainder with the run's values accumulated and its identities consumed.
proof fn lemma_decode_encoded_entries(
    s: Seq<ValueV>,
    reg: Seq<DescV>,
    seen: Seq<u64>,
    rest: Seq<TokenV>,
)
    requires
        entries_clean(s, reg, seen),
    ensures
        spec_encode_map_entries(s, reg) is Ok,
        spec_decode_map_entries(spec_encode_map_entries(s, reg)->Ok_0 + rest, reg, seen) == (
        match spec_decode_map_entries(rest, reg, seen + ids_of(s, reg)) {
            Ok((vals, r)) => Ok::<(Seq<ValueV>, Seq<TokenV>), SceneErrorV>(
                (decoded_entries(s, reg) + vals, r),
            ),
            Err(e) => Err::<(Seq<ValueV>, Seq<TokenV>), SceneErrorV>(e),
        }),
    decreases s.len(),
{
    if s.len() == 0 {
        assert(spec_encode_map_entries(s, reg)->Ok_0 + rest =~= rest);
        assert(seen + ids_of(s, reg) =~= seen);
        match spec_decode_map_entries(rest, reg, seen) {
            Ok((vals, r)) => {
                assert(decoded_entries(s, reg) + vals =~= vals);
            },
            Err(_) => {},
        }
    } else {
        let v0 = s[0];
        let d0 = desc_of(reg, v0);
        assert(value_registered(v0, reg));
        let s1 = s.drop_first();
        assert forall|i: int| 0 <= i < s1.len() implies value_registered(#[trigger] s1[i], reg)
            && !seen.push(d0.id).contains(desc_of(reg, s1[i]).id) by {
            assert(s1[i] == s[i + 1]);
            assert(desc_of(reg, s[i + 1]).id != d0.id);
        }
        assert forall|i: int, j: int| 0 <= i < j < s1.len() implies desc_of(reg, s1[i]).id
            != desc_of(reg, s1[j]).id by {
            assert(s1[i] == s[i + 1] && s1[j] == s[j + 1]);
        }
        lemma_decode_encoded_entries(s1, reg, seen.push(d0.id), rest);
        let t1 = spec_encode_map_entries(s1, reg)->Ok_0;
        let entry = seq![TokenV::Str { value: v0.name }, TokenV::Opaque { words: v0.words }];
        let t = spec_encode_map_entries(s, reg)->Ok_0;
        assert(t =~= entry + t1);
        let tokens = t + rest;
        assert(tokens.len() >= 2);
        assert(tokens[0] == TokenV::Str { value: v0.name });
        assert(tokens[1] == TokenV::Opaque { words: v0.words });
        assert(tokens.drop_first()[0] == tokens[1]);
        assert(tokens.drop_first().drop_first() =~= t1 + rest);
        assert(lookup_name(reg, v0.name) == Some(d0));
        assert(!seen.contains(d0.id));
        assert(d0.arity == v0.words.len());
        assert(spec_decode_map_entries(tokens, reg, seen) == spec_decode_entry_value(
            tokens.drop_first(),
            d0,
            reg,
            seen,
            false,
        ));
        assert(seen.push(d0.id) + ids_of(s1, reg) =~= seen + ids_of(s, reg));
        match spec_decode_map_entries(rest, reg, seen + ids_of(s, reg)) {
            Ok((vals, r)) => {
                assert(seq![spec_canonicalize(d0, v0.words)] + (decoded_entries(s1, reg) + vals)
                    =~= decoded_entries(s, reg) + vals);
            },
            Err(_) => {},
        }
    }
}

/// A well-formed collection encodes, and decoding its encoding yields its
/// values sorted by type name, each passed through its type's
/// canonicalization dispatch, consuming exactly the encoding.
pub proof fn lemma_map_round_trip(entries: Seq<ValueV>, reg: Seq<DescV>, rest: Seq<TokenV>)
    requires
        registry_wf(reg),
        collection_wf(entries, reg),
    ensures
        spec_encode_map(entries, reg) is Ok,
        spec_decode_map(spec_encode_map(entries, reg)->Ok_0 + rest, reg) == Ok::<
            (Seq<ValueV>, Seq<TokenV>),
            SceneErrorV,
        >((decoded_entries(sort_by_name(entries), reg), rest)),
{
    let s = sort_by_name(entries);
    lemma_sort_by_name_ensures(entries);
    lemma_sort_preserves_distinct_names(entries);
    assert forall|i: int| 0 <= i < s.len() implies value_registered(#[trigger] s[i], reg) by {
        assert(entries.contains(s[i]));
        let k = choose|k: int| 0 <= k < entries.len() && entries[k] == s[i];
        assert(value_registered(entries[k], reg));
    }
    assert forall|i: int, j: int| 0 <= i < j < s.len() implies desc_of(reg, s[i]).id != desc_of(
        reg,
        s[j],
    ).id by {
        assert(s[i].name != s[j].name);
        lemma_lookup_name_injective(reg, s[i].name, s[j].name);
    }
    assert(entries_clean(s, reg, Seq::empty()));
    lemma_decode_encoded_entries(s, reg, Seq::empty(), seq![TokenV::MapEnd] + rest);
    let te = spec_encode_map_entries(s, reg)->Ok_0;
    let t = spec_encode_map(entries, reg)->Ok_0;
    assert(t =~= seq![TokenV::MapStart] + te + seq![TokenV::MapEnd]);
    let tokens = t + rest;
    assert(tokens[0] == TokenV::MapStart);
    assert(tokens.drop_first() =~= te + (seq![TokenV::MapEnd] + rest));
    let after = seq![TokenV::MapEnd] + rest;
    assert(after[0] == TokenV::MapEnd);
    assert(spec_decode_map_entries(after, reg, Seq::empty() + ids_of(s, reg)) == Ok::<
        (Seq<ValueV>, Seq<TokenV>),
        SceneErrorV,
    >((Seq::empty(), rest))) by {
        assert(after.drop_first() =~= rest);
    }
    assert(decoded_entries(s, reg) + Seq::<ValueV>::empty() =~= decoded_entries(s, reg));
}

/// A clean run of entries read through the sequential entry point behaves
/// exactly as through the associative one: the run is consumed, its values
/// accumulated, its identities marked.
proof fn lemma_decode_encoded_seq_entries(
    s: Seq<ValueV>,
    reg: Seq<DescV>,
    seen: Seq<u64>,
    rest: Seq<TokenV>,
)
    requires
        entries_clean(s, reg, seen),
    ensures
        spec_encode_map_entries(s, reg) is Ok,
        spec_decode_seq_entries(spec_encode_map_entries(s, reg)->Ok_0 + rest, reg, seen) == (
        match spec_decode_seq_entries(rest, reg, seen + ids_of(s, reg)) {
            Ok((vals, r)) => Ok::<(Seq<ValueV>, Seq<TokenV>), SceneErrorV>(
                (decoded_entries(s, reg) + vals, r),
            ),
            Err(e) => Err::<(Seq<ValueV>, Seq<TokenV>), SceneErrorV>(e),
        }),
    decreases s.len(),
{
    if s.len() == 0 {
        assert(spec_encode_map_entries(s, reg)->Ok_0 + rest =~= rest);
        assert(seen + ids_of(s, reg) =~= seen);
        match spec_decode_seq_entries(rest, reg, seen) {
            Ok((vals, r)) => {
                assert(decoded_entries(s, reg) + vals =~= vals);
            },
            Err(_) => {},
        }
    } else {
        let v0 = s[0];
        let d0 = desc_of(reg, v0);
        assert(value_registered(v0, reg));
        let s1 = s.drop_first();
        assert forall|i: int| 0 <= i < s1.len() implies value_registered(#[trigger] s1[i], reg)
            && !seen.push(d0.id).contains(desc_of(reg, s1[i]).id) by {
            assert(s1[i] == s[i + 1]);
            assert(desc_of(reg, s[i + 1]).id != d0.id);
        }
        assert forall|i: int, j: int| 0 <= i < j < s1.len() implies desc_of(reg, s1[i]).id
            != desc_of(reg, s1[j]).id by {
            assert(s1[i] == s[i + 1] && s1[j] == s[j + 1]);
        }
        lemma_decode_encoded_seq_entries(s1, reg, seen.push(d0.id), rest);
        let t1 = spec_encode_map_entries(s1, reg)->Ok_0;
        let entry = seq![TokenV::Str { value: v0.name }, TokenV::Opaque { words: v0.words }];
        let t = spec_encode_map_entries(s, reg)->Ok_0;
        assert(t =~= entry + t1);
        let tokens = t + rest;
        assert(tokens.len() >= 2);
        assert(tokens[0] == TokenV::Str { value: v0.name });
        assert(tokens[1] == TokenV::Opaque { words: v0.words });
        assert(tokens.drop_first()[0] == tokens[1]);
        assert(tokens.drop_first().drop_first() =~= t1 + rest);
        assert(lookup_name(reg, v0.name) == Some(d0));
        assert(!seen.contains(d0.id));
        assert(d0.arity == v0.words.len());
        assert(spec_decode_seq_entries(tokens, reg, seen) == spec_decode_entry_value(
            tokens.drop_first(),
            d0,
            reg,
            seen,
            true,
        ));
        assert(seen.push(d0.id) + ids_of(s1, reg) =~= seen + ids_of(s, reg));
        match spec_decode_seq_entries(rest, reg, seen + ids_of(s, reg)) {
            Ok((vals, r)) => {
                assert(seq![spec_canonicalize(d0, v0.words)] + (decoded_entries(s1, reg) + vals)
                    =~= decoded_entries(s, reg) + vals);
            },
            Err(_) => {},
        }
    }
}

/// Both collection entry points are equivalent: the associative encoding of a
/// well-formed collection and the sequential encoding of the same entry run
/// decode to the very same value sequence.
pub proof fn law_entry_points_equivalent(entries: Seq<ValueV>, reg: Seq<DescV>, rest: Seq<TokenV>)
    requires
        registry_wf(reg),
        collection_wf(entries, reg),
    ensures
        spec_encode_map(entries, reg) is Ok,
        spec_decode_map(
            seq![TokenV::SeqStart] + spec_encode_map_entries(sort_by_name(entries), reg)->Ok_0 + (
            seq![TokenV::SeqEnd] + rest),
            reg,
        ) == spec_decode_map(spec_encode_map(entries, reg)->Ok_0 + rest, reg),
        spec_decode_map(spec_encode_map(entries, reg)->Ok_0 + rest, reg) == Ok::<
            (Seq<ValueV>, Seq<TokenV>),
            SceneErrorV,
        >((decoded_entries(sort_by_name(entries), reg), rest)),
{
    lemma_map_round_trip(entries, reg, rest);
    let s = sort_by_name(entries);
    lemma_sort_by_name_ensures(entries);
    lemma_sort_preserves_distinct_names(entries);
    assert forall|i: int| 0 <= i < s.len() implies value_registered(#[trigger] s[i], reg) by {
        assert(entries.contains(s[i]));
        let k = choose|k: int| 0 <= k < entries.len() && entries[k] == s[i];
        assert(value_registered(entries[k], reg));
    }
    assert forall|i: int, j: int| 0 <= i < j < s.len() implies desc_of(reg, s[i]).id != desc_of(
        reg,
        s[j],
    ).id by {
        assert(s[i].name != s[j].name);
        lemma_lookup_name_injective(reg, s[i].name, s[j].name);
    }
    assert(entries_clean(s, reg, Seq::empty()));
    lemma_decode_encoded_seq_entries(s, reg, Seq::empty(), seq![TokenV::SeqEnd] + rest);
    let te = spec_encode_map_entries(s, reg)->Ok_0;
    let tokens = seq![TokenV::SeqStart] + te + (seq![TokenV::SeqEnd] + rest);
    assert(tokens[0] == TokenV::SeqStart);
    assert(tokens.drop_first() =~= te + (seq![TokenV::SeqEnd] + rest));
    let after = seq![TokenV::SeqEnd] + rest;
    assert(after[0] == TokenV::SeqEnd);
    assert(spec_decode_seq_entries(after, reg, Seq::empty() + ids_of(s, reg)) == Ok::<
        (Seq<ValueV>, Seq<TokenV>),
        SceneErrorV,
    >((Seq::empty(), rest))) by {
        assert(after.drop_first() =~= rest);
    }
    assert(decoded_entries(s, reg) + Seq::<ValueV>::empty() =~= decoded_entries(s, reg));
}

/// What decoding gives back for one encoded record.
pub open spec fn decoded_entity(e: DynamicEntityV, reg: Seq<DescV>) -> DynamicEntityV {
    DynamicEntityV {
        entity: e.entity,
        components: decoded_entries(sort_by_name(e.components), reg),
    }
}

/// What decoding gives back for an encoded record set.
pub open spec fn decoded_entity_set(es: Seq<DynamicEntityV>, reg: Seq<DescV>) -> Seq<
    DynamicEntityV,
> {
    es.map_values(|e: DynamicEntityV| decoded_entity(e, reg))
}

/// What decoding gives back for a whole encoded scene.
pub open spec fn decoded_scene(s: DynamicSceneV, reg: Seq<DescV>) -> DynamicSceneV {
    DynamicSceneV {
        resources: decoded_entries(sort_by_name(s.resources), reg),
        entities: decoded_entity_set(s.entities, reg),
    }
}

/// A well-formed record encodes, and decoding its encoding yields its
/// components sorted by type name, each passed through its type's
/// canonicalization dispatch, consuming exactly the encoding.
pub proof fn lemma_entity_round_trip(comps: Seq<ValueV>, reg: Seq<DescV>, rest: Seq<TokenV>)
    requires
        registry_wf(reg),
        collection_wf(comps, reg),
    ensures
        spec_encode_entity(comps, reg) is Ok,
        spec_decode_entity(spec_encode_entity(comps, reg)->Ok_0 + rest, reg) == Ok::<
            (Seq<ValueV>, Seq<TokenV>),
            SceneErrorV,
        >((decoded_entries(sort_by_name(comps), reg), rest)),
{
    lemma_map_round_trip(comps, reg, seq![TokenV::StructEnd] + rest);
    let mt = spec_encode_map(comps, reg)->Ok_0;
    let t = spec_encode_entity(comps, reg)->Ok_0;
    assert(t =~= seq![
        TokenV::StructStart { name: "Entity"@ },
        TokenV::Field { name: "components"@ },
    ] + mt + seq![TokenV::StructEnd]);
    let tokens = t + rest;
    assert(tokens[0] == TokenV::StructStart { name: "Entity"@ });
    let body = tokens.drop_first();
    assert(body[0] == TokenV::Field { name: "components"@ });
    assert(body.drop_first() =~= mt + (seq![TokenV::StructEnd] + rest));
    let dec = decoded_entries(sort_by_name(comps), reg);
    assert(spec_decode_map(body.drop_first(), reg) == Ok::<
        (Seq<ValueV>, Seq<TokenV>),
        SceneErrorV,
    >((dec, seq![TokenV::StructEnd] + rest)));
    let after = seq![TokenV::StructEnd] + rest;
    assert(after[0] == TokenV::StructEnd);
    assert(after.drop_first() =~= rest);
    assert(spec_decode_entity_fields(after, reg, Some(dec)) == Ok::<
        (Seq<ValueV>, Seq<TokenV>),
        SceneErrorV,
    >((dec, rest)));
}

/// A record set whose every record is well formed encodes, and decoding its
/// encoded entry run consumes exactly that run, accumulating the decoded
/// records in order, before whatever follows.
proof fn lemma_decode_encoded_entity_entries(
    es: Seq<DynamicEntityV>,
    reg: Seq<DescV>,
    rest: Seq<TokenV>,
)
    requires
        registry_wf(reg),
        forall|i: int| 0 <= i < es.len() ==> collection_wf((#[trigger] es[i]).components, reg),
    ensures
        spec_encode_entities_entries(es, reg) is Ok,
        spec_decode_entities_entries(spec_encode_entities_entries(es, reg)->Ok_0 + rest, reg) == (
        match spec_decode_entities_entries(rest, reg) {
            Ok((es2, r)) => Ok::<(Seq<DynamicEntityV>, Seq<TokenV>), SceneErrorV>(
                (decoded_entity_set(es, reg) + es2, r),
            ),
            Err(e) => Err::<(Seq<DynamicEntityV>, Seq<TokenV>), SceneErrorV>(e),
        }),
    decreases es.len(),
{
    if es.len() == 0 {
        assert(spec_encode_entities_entries(es, reg)->Ok_0 + rest =~= rest);
        match spec_decode_entities_entries(rest, reg) {
            Ok((es2, r)) => {
                assert(decoded_entity_set(es, reg) + es2 =~= es2);
            },
            Err(_) => {},
        }
    } else {
        let e0 = es[0];
        let es1 = es.drop_first();
        assert forall|i: int| 0 <= i < es1.len() implies collection_wf(
            (#[trigger] es1[i]).components,
            reg,
        ) by {
            assert(es1[i] == es[i + 1]);
        }
        lemma_decode_encoded_entity_entries(es1, reg, rest);
        let t1 = spec_encode_entities_entries(es1, reg)->Ok_0;
        lemma_entity_round_trip(e0.components, reg, t1 + rest);
        let t0 = spec_encode_entity(e0.components, reg)->Ok_0;
        let t = spec_encode_entities_entries(es, reg)->Ok_0;
        assert(t =~= seq![TokenV::U64 { value: e0.entity }] + t0 + t1);
        let tokens = t + rest;
        assert(tokens[0] == TokenV::U64 { value: e0.entity });
        assert(tokens.drop_first() =~= t0 + (t1 + rest));
        let d0 = decoded_entity(e0, reg);
        assert(spec_decode_entity(tokens.drop_first(), reg) == Ok::<
            (Seq<ValueV>, Seq<TokenV>),
            SceneErrorV,
        >((d0.components, t1 + rest)));
        match spec_decode_entities_entries(rest, reg) {
            Ok((es2, r)) => {
                assert(seq![d0] + (decoded_entity_set(es1, reg) + es2) =~= decoded_entity_set(
                    es,
                    reg,
                ) + es2);
            },
            Err(_) => {},
        }
    }
}

/// A record set whose every record is well formed encodes, and decoding its
/// encoding yields the records in order, each with its components sorted and
/// canonicalized, consuming exactly the encoding.
pub proof fn lemma_entities_round_trip(es: Seq<DynamicEntityV>, reg: Seq<DescV>, rest: Seq<TokenV>)
    requires
        registry_wf(reg),
        forall|i: int| 0 <= i < es.len() ==> collection_wf((#[trigger] es[i]).components, reg),
    ensures
        spec_encode_entities(es, reg) is Ok,
        spec_decode_entities(spec_encode_entities(es, reg)->Ok_0 + rest, reg) == Ok::<
            (Seq<DynamicEntityV>, Seq<TokenV>),
            SceneErrorV,
        >((decoded_entity_set(es, reg), rest)),
{
    lemma_decode_encoded_entity_entries(es, reg, seq![TokenV::MapEnd] + rest);
    let te = spec_encode_entities_entries(es, reg)->Ok_0;
    let t = spec_encode_entities(es, reg)->Ok_0;
    assert(t =~= seq![TokenV::MapStart] + te + seq![TokenV::MapEnd]);
    let tokens = t + rest;
    assert(tokens[0] == TokenV::MapStart);
    assert(tokens.drop_first() =~= te + (seq![TokenV::MapEnd] + rest));
    let after = seq![TokenV::MapEnd] + rest;
    assert(after[0] == TokenV::MapEnd);
    assert(spec_decode_entities_entries(after, reg) == Ok::<
        (Seq<DynamicEntityV>, Seq<TokenV>),
        SceneErrorV,
    >((Seq::empty(), rest))) by {
        assert(after.drop_first() =~= rest);
    }
    assert(decoded_entity_set(es, reg) + Seq::<DynamicEntityV>::empty() =~= decoded_entity_set(
        es,
        reg,
    ));
}

/// Two collections hold the same set of represented instances: same size,
/// and each value of one is represented, type and payload alike, by a value
/// of the other. The canonical flag plays no part, exactly as a rebuilt value
/// still represents the raw decoded one.
pub open spec fn values_match(a: Seq<ValueV>, b: Seq<ValueV>) -> bool {
    &&& a.len() == b.len()
    &&& forall|i: int|
        0 <= i < a.len() ==> exists|j: int|
            0 <= j < b.len() && same_represented(#[trigger] a[i], b[j])
    &&& forall|j: int|
        0 <= j < b.len() ==> exists|i: int|
            0 <= i < a.len() && same_represented(a[i], #[trigger] b[j])
}

/// Two scenes are equivalent: resources match as sets of represented
/// instances, and the record sets carry the same keys in the same order with
/// matching component sets.
pub open spec fn scene_equivalent(a: DynamicSceneV, b: DynamicSceneV) -> bool {
    &&& values_match(a.resources, b.resources)
    &&& a.entities.len() == b.entities.len()
    &&& forall|i: int|
        0 <= i < a.entities.len() ==> (#[trigger] a.entities[i]).entity == b.entities[i].entity
            && values_match(a.entities[i].components, b.entities[i].components)
}

/// What a well-formed collection decodes back to matches the collection it
/// was encoded from, value for value.
proof fn lemma_decoded_matches(c: Seq<ValueV>, reg: Seq<DescV>)
    requires
        registry_wf(reg),
        collection_wf(c, reg),
    ensures
        values_match(decoded_entries(sort_by_name(c), reg), c),
{
    let s = sort_by_name(c);
    let dec = decoded_entries(s, reg);
    lemma_sort_by_name_ensures(c);
    assert forall|i: int| 0 <= i < s.len() implies same_represented(dec[i], s[i]) by {
        assert(c.contains(s[i]));
        let k = choose|k: int| 0 <= k < c.len() && c[k] == s[i];
        assert(value_registered(c[k], reg));
        lemma_lookup_name_found(reg, s[i].name);
    }
    assert forall|i: int| 0 <= i < dec.len() implies exists|j: int|
        0 <= j < c.len() && same_represented(#[trigger] dec[i], c[j]) by {
        assert(c.contains(s[i]));
        let j = choose|j: int| 0 <= j < c.len() && c[j] == s[i];
        assert(same_represented(dec[i], c[j]));
    }
    assert forall|j: int| 0 <= j < c.len() implies exists|i: int|
        0 <= i < dec.len() && same_represented(dec[i], #[trigger] c[j]) by {
        assert(c.contains(c[j]));
        assert(s.contains(c[j]));
        let i = choose|i: int| 0 <= i < s.len() && s[i] == c[j];
        assert(same_represented(dec[i], c[j]));
    }
}

/// The decode half of the scene round trip: a well-formed scene encodes, and
/// decoding its encoding gives back exactly the canonicalized, sorted form of
/// the scene, consuming exactly the encoding.
proof fn lemma_scene_decode_of_encode(s: DynamicSceneV, reg: Seq<DescV>, rest: Seq<TokenV>)
    requires
        registry_wf(reg),
        scene_wf(s, reg),
    ensures
        spec_encode_scene(s, reg) is Ok,
        spec_decode_scene(spec_encode_scene(s, reg)->Ok_0 + rest, reg) == Ok::<
            (DynamicSceneV, Seq<TokenV>),
            SceneErrorV,
        >((decoded_scene(s, reg), rest)),
{
    reveal_strlit("resources");
    reveal_strlit("entities");
    assert("resources"@.len() == 9);
    assert("entities"@.len() == 8);
    let et_all = spec_encode_entities(s.entities, reg);
    let rest2 = seq![TokenV::StructEnd] + rest;
    lemma_entities_round_trip(s.entities, reg, rest2);
    let et = et_all->Ok_0;
    let rest1 = seq![TokenV::Field { name: "entities"@ }] + (et + rest2);
    lemma_map_round_trip(s.resources, reg, rest1);
    let rt = spec_encode_map(s.resources, reg)->Ok_0;
    let t = spec_encode_scene(s, reg)->Ok_0;
    assert(t =~= seq![
        TokenV::StructStart { name: "Scene"@ },
        TokenV::Field { name: "resources"@ },
    ] + rt + seq![TokenV::Field { name: "entities"@ }] + et + seq![TokenV::StructEnd]);
    let tokens = t + rest;
    assert(tokens[0] == TokenV::StructStart { name: "Scene"@ });
    let body = tokens.drop_first();
    assert(body[0] == TokenV::Field { name: "resources"@ });
    assert(body.drop_first() =~= rt + rest1);
    let dec_res = decoded_entries(sort_by_name(s.resources), reg);
    assert(spec_decode_map(body.drop_first(), reg) == Ok::<
        (Seq<ValueV>, Seq<TokenV>),
        SceneErrorV,
    >((dec_res, rest1)));
    assert(rest1[0] == TokenV::Field { name: "entities"@ });
    assert("entities"@ != "resources"@);
    assert(rest1.drop_first() =~= et + rest2);
    let dec_es = decoded_entity_set(s.entities, reg);
    assert(spec_decode_entities(rest1.drop_first(), reg) == Ok::<
        (Seq<DynamicEntityV>, Seq<TokenV>),
        SceneErrorV,
    >((dec_es, rest2)));
    assert(spec_decode_scene_fields(rest1, reg, Some(dec_res), None) == spec_decode_scene_fields(
        rest2,
        reg,
        Some(dec_res),
        Some(dec_es),
    ));
    assert(rest2[0] == TokenV::StructEnd);
    assert(rest2.drop_first() =~= rest);
}

/// Round trip: a scene built from registered types encodes, its encoding
/// decodes, the decode consumes exactly the encoding, and the decoded scene
/// is equivalent to the original — the same record keys in the same order,
/// and the same represented resource and component instances.
pub proof fn law_scene_round_trip(s: DynamicSceneV, reg: Seq<DescV>, rest: Seq<TokenV>)
    requires
        registry_wf(reg),
        scene_wf(s, reg),
    ensures
        spec_encode_scene(s, reg) is Ok,
        spec_decode_scene(spec_encode_scene(s, reg)->Ok_0 + rest, reg) == Ok::<
            (DynamicSceneV, Seq<TokenV>),
            SceneErrorV,
        >((decoded_scene(s, reg), rest)),
        scene_equivalent(decoded_scene(s, reg), s),
{
    lemma_scene_decode_of_encode(s, reg, rest);
    let dec_es = decoded_entity_set(s.entities, reg);
    lemma_decoded_matches(s.resources, reg);
    assert forall|i: int| 0 <= i < dec_es.len() implies (#[trigger] dec_es[i]).entity
        == s.entities[i].entity && values_match(dec_es[i].components, s.entities[i].components) by {
        assert(collection_wf(s.entities[i].components, reg));
        lemma_decoded_matches(s.entities[i].components, reg);
    }
}

/// Sorted-key encode determinism: two uniquely typed collections holding the
/// same values, in whatever insertion orders, encode to the very same token
/// stream, errors included.
pub proof fn law_encode_deterministic(a: Seq<ValueV>, b: Seq<ValueV>, reg: Seq<DescV>)
    requires
        distinct_names(a),
        a.to_multiset() == b.to_multiset(),
    ensures
        spec_encode_map(a, reg) == spec_encode_map(b, reg),
{
    lemma_sort_by_name_deterministic(a, b);
}

/// Duplicate-type rejection: a collection whose entries resolve two keys to
/// one already consumed type identity — in particular, one type name written
/// twice — fails with the duplicate-type error naming that type, whatever the
/// payload and whatever follows.
pub proof fn law_duplicate_type_rejected(
    prefix: Seq<ValueV>,
    name: Seq<char>,
    words: Seq<u64>,
    tail: Seq<TokenV>,
    reg: Seq<DescV>,
)
    requires
        registry_wf(reg),
        collection_wf(prefix, reg),
        lookup_name(reg, name) is Some,
        exists|i: int|
            0 <= i < prefix.len() && desc_of(reg, #[trigger] prefix[i]).id == lookup_name(
                reg,
                name,
            )->Some_0.id,
    ensures
        spec_encode_map_entries(prefix, reg) is Ok,
        spec_decode_map(
            seq![TokenV::MapStart] + spec_encode_map_entries(prefix, reg)->Ok_0 + (seq![
                TokenV::Str { value: name },
                TokenV::Opaque { words },
            ] + tail),
            reg,
        ) == Err::<(Seq<ValueV>, Seq<TokenV>), SceneErrorV>(
            SceneErrorV::DuplicateType { name: lookup_name(reg, name)->Some_0.name },
        ),
{
    let d = lookup_name(reg, name)->Some_0;
    lemma_collection_clean(prefix, reg);
    let rest = seq![TokenV::Str { value: name }, TokenV::Opaque { words }] + tail;
    lemma_decode_encoded_entries(prefix, reg, Seq::empty(), rest);
    let te = spec_encode_map_entries(prefix, reg)->Ok_0;
    let tokens = seq![TokenV::MapStart] + te + rest;
    assert(tokens[0] == TokenV::MapStart);
    assert(tokens.drop_first() =~= te + rest);
    let ids = ids_of(prefix, reg);
    assert(Seq::empty() + ids =~= ids);
    let i = choose|i: int| 0 <= i < prefix.len() && desc_of(reg, #[trigger] prefix[i]).id == d.id;
    assert(ids[i] == d.id);
    assert(ids.contains(d.id));
    assert(rest[0] == TokenV::Str { value: name });
    assert(rest.drop_first() =~= seq![TokenV::Opaque { words }] + tail);
    assert(spec_decode_map_entries(rest, reg, ids) == Err::<
        (Seq<ValueV>, Seq<TokenV>),
        SceneErrorV,
    >(SceneErrorV::DuplicateType { name: d.name }));
}

/// Unknown-type rejection: a collection referencing a type name absent from
/// the registry fails with the unknown-type error carrying that name, before
/// any value of that type is touched, whatever follows.
pub proof fn law_unknown_type_rejected(
    prefix: Seq<ValueV>,
    name: Seq<char>,
    tail: Seq<TokenV>,
    reg: Seq<DescV>,
)
    requires
        registry_wf(reg),
        collection_wf(prefix, reg),
        lookup_name(reg, name) is None,
    ensures
        spec_encode_map_entries(prefix, reg) is Ok,
        spec_decode_map(
            seq![TokenV::MapStart] + spec_encode_map_entries(prefix, reg)->Ok_0 + (seq![
                TokenV::Str { value: name },
            ] + tail),
            reg,
        ) == Err::<(Seq<ValueV>, Seq<TokenV>), SceneErrorV>(
            SceneErrorV::UnknownType { key: TypeKeyV::Name { name } },
        ),
{
    lemma_collection_clean(prefix, reg);
    let rest = seq![TokenV::Str { value: name }] + tail;
    lemma_decode_encoded_entries(prefix, reg, Seq::empty(), rest);
    let te = spec_encode_map_entries(prefix, reg)->Ok_0;
    let tokens = seq![TokenV::MapStart] + te + rest;
    assert(tokens[0] == TokenV::MapStart);
    assert(tokens.drop_first() =~= te + rest);
    assert(Seq::empty() + ids_of(prefix, reg) =~= ids_of(prefix, reg));
    assert(rest[0] == TokenV::Str { value: name });
}

/// A registered collection with distinct names is clean for a fresh decode.
proof fn lemma_collection_clean(c: Seq<ValueV>, reg: Seq<DescV>)
    requires
        registry_wf(reg),
        collection_wf(c, reg),
    ensures
        entries_clean(c, reg, Seq::empty()),
{
    assert forall|i: int, j: int| 0 <= i < j < c.len() implies desc_of(reg, c[i]).id != desc_of(
        reg,
        c[j],
    ).id by {
        assert(value_registered(c[i], reg) && value_registered(c[j], reg));
        lemma_lookup_name_injective(reg, c[i].name, c[j].name);
    }
}

/// Missing-field rejection: a scene object that ends after its `resources`
/// field, never naming `entities`, fails with the missing-field error naming
/// `entities`.
pub proof fn law_missing_entities_rejected(
    resources: Seq<ValueV>,
    reg: Seq<DescV>,
    rest: Seq<TokenV>,
)
    requires
        registry_wf(reg),
        collection_wf(resources, reg),
    ensures
        spec_encode_map(resources, reg) is Ok,
        spec_decode_scene(
            seq![
                TokenV::StructStart { name: "Scene"@ },
                TokenV::Field { name: "resources"@ },
            ] + spec_encode_map(resources, reg)->Ok_0 + (seq![TokenV::StructEnd] + rest),
            reg,
        ) == Err::<(DynamicSceneV, Seq<TokenV>), SceneErrorV>(
            SceneErrorV::MissingField { field: "entities"@ },
        ),
{
    let after = seq![TokenV::StructEnd] + rest;
    lemma_map_round_trip(resources, reg, after);
    let rt = spec_encode_map(resources, reg)->Ok_0;
    let tokens = seq![
        TokenV::StructStart { name: "Scene"@ },
        TokenV::Field { name: "resources"@ },
    ] + rt + after;
    assert(tokens[0] == TokenV::StructStart { name: "Scene"@ });
    let body = tokens.drop_first();
    assert(body[0] == TokenV::Field { name: "resources"@ });
    assert(body.drop_first() =~= rt + after);
    let dec = decoded_entries(sort_by_name(resources), reg);
    assert(spec_decode_map(body.drop_first(), reg) == Ok::<
        (Seq<ValueV>, Seq<TokenV>),
        SceneErrorV,
    >((dec, after)));
    assert(after[0] == TokenV::StructEnd);
    assert(spec_decode_scene_fields(after, reg, Some(dec), None) == Err::<
        (DynamicSceneV, Seq<TokenV>),
        SceneErrorV,
    >(SceneErrorV::MissingField { field: "entities"@ }));
    assert(spec_decode_scene_fields(body, reg, None, None) == Err::<
        (DynamicSceneV, Seq<TokenV>),
        SceneErrorV,
    >(SceneErrorV::MissingField { field: "entities"@ }));
}

/// A scene object with no fields at all fails with the missing-field error
/// naming `resources`, the first required field.
pub proof fn law_missing_resources_rejected(rest: Seq<TokenV>, reg: Seq<DescV>)
    ensures
        spec_decode_scene(
            seq![TokenV::StructStart { name: "Scene"@ }, TokenV::StructEnd] + rest,
            reg,
        ) == Err::<(DynamicSceneV, Seq<TokenV>), SceneErrorV>(
            SceneErrorV::MissingField { field: "resources"@ },
        ),
{
    let tokens = seq![TokenV::StructStart { name: "Scene"@ }, TokenV::StructEnd] + rest;
    assert(tokens[0] == TokenV::StructStart { name: "Scene"@ });
    assert(tokens.drop_first()[0] == TokenV::StructEnd);
}

/// Duplicate-field rejection: a scene object that names `resources` a second
/// time fails with the duplicate-field error naming `resources`, whatever
/// follows.
pub proof fn law_duplicate_resources_rejected(
    resources: Seq<ValueV>,
    reg: Seq<DescV>,
    tail: Seq<TokenV>,
)
    requires
        registry_wf(reg),
        collection_wf(resources, reg),
    ensures
        spec_encode_map(resources, reg) is Ok,
        spec_decode_scene(
            seq![
                TokenV::StructStart { name: "Scene"@ },
                TokenV::Field { name: "resources"@ },
            ] + spec_encode_map(resources, reg)->Ok_0 + (seq![
                TokenV::Field { name: "resources"@ },
            ] + tail),
            reg,
        ) == Err::<(DynamicSceneV, Seq<TokenV>), SceneErrorV>(
            SceneErrorV::DuplicateField { field: "resources"@ },
        ),
{
    let after = seq![TokenV::Field { name: "resources"@ }] + tail;
    lemma_map_round_trip(resources, reg, after);
    let rt = spec_encode_map(resources, reg)->Ok_0;
    let tokens = seq![
        TokenV::StructStart { name: "Scene"@ },
        TokenV::Field { name: "resources"@ },
    ] + rt + after;
    assert(tokens[0] == TokenV::StructStart { name: "Scene"@ });
    let body = tokens.drop_first();
    assert(body[0] == TokenV::Field { name: "resources"@ });
    assert(body.drop_first() =~= rt + after);
    let dec = decoded_entries(sort_by_name(resources), reg);
    assert(spec_decode_map(body.drop_first(), reg) == Ok::<
        (Seq<ValueV>, Seq<TokenV>),
        SceneErrorV,
    >((dec, after)));
    assert(after[0] == TokenV::Field { name: "resources"@ });
    assert(spec_decode_scene_fields(after, reg, Some(dec), None) == Err::<
        (DynamicSceneV, Seq<TokenV>),
        SceneErrorV,
    >(SceneErrorV::DuplicateField { field: "resources"@ }));
    assert(spec_decode_scene_fields(body, reg, None, None) == Err::<
        (DynamicSceneV, Seq<TokenV>),
        SceneErrorV,
    >(SceneErrorV::DuplicateField { field: "resources"@ }));
}

/// Canonicalization fallback: a single-entry collection of a registered type
/// decodes to exactly the canonicalization dispatch of its raw payload, and
/// when the type declares no hook, or a hook that fails, that is exactly the
/// raw decoded value — a failing hook never aborts the decode.
pub proof fn law_canonicalization_fallback(
    name: Seq<char>,
    words: Seq<u64>,
    reg: Seq<DescV>,
    rest: Seq<TokenV>,
)
    requires
        lookup_name(reg, name) matches Some(d) && d.arity == words.len(),
    ensures
        spec_decode_map(
            seq![
                TokenV::MapStart,
                TokenV::Str { value: name },
                TokenV::Opaque { words },
                TokenV::MapEnd,
            ] + rest,
            reg,
        ) == Ok::<(Seq<ValueV>, Seq<TokenV>), SceneErrorV>(
            (seq![spec_canonicalize(lookup_name(reg, name)->Some_0, words)], rest),
        ),
        !(lookup_name(reg, name)->Some_0.hook is Rebuilding) ==> spec_canonicalize(
            lookup_name(reg, name)->Some_0,
            words,
        ) == (ValueV { name: lookup_name(reg, name)->Some_0.name, words, canonical: false }),
{
    let d = lookup_name(reg, name)->Some_0;
    let tokens = seq![
        TokenV::MapStart,
        TokenV::Str { value: name },
        TokenV::Opaque { words },
        TokenV::MapEnd,
    ] + rest;
    assert(tokens[0] == TokenV::MapStart);
    let t1 = tokens.drop_first();
    assert(t1[0] == TokenV::Str { value: name });
    let t2 = t1.drop_first();
    assert(t2[0] == TokenV::Opaque { words });
    let t3 = t2.drop_first();
    assert(t3[0] == TokenV::MapEnd);
    assert(t3.drop_first() =~= rest);
    assert(!Seq::<u64>::empty().contains(d.id));
    assert(spec_decode_map_entries(t3, reg, Seq::<u64>::empty().push(d.id)) == Ok::<
        (Seq<ValueV>, Seq<TokenV>),
        SceneErrorV,
    >((Seq::empty(), rest)));
    assert(seq![spec_canonicalize(d, words)] + Seq::<ValueV>::empty() =~= seq![
        spec_canonicalize(d, words),
    ]);
    assert(spec_decode_entry_value(t2, d, reg, Seq::<u64>::empty(), false) == Ok::<
        (Seq<ValueV>, Seq<TokenV>),
        SceneErrorV,
    >((seq![spec_canonicalize(d, words)], rest)));
    assert(spec_decode_map_entries(t1, reg, Seq::<u64>::empty()) == Ok::<
        (Seq<ValueV>, Seq<TokenV>),
        SceneErrorV,
    >((seq![spec_canonicalize(d, words)], rest)));
}

} // verus!
