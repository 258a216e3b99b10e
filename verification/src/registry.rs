//! The dynamic type registry.
//!
//! A [`TypeRegistry`] maps a stable type name (the wire-level discriminator)
//! and a registry-assigned integer tag to a [`TypeDescriptor`]. It is
//! read-only during a single encode or decode operation: the engine only
//! borrows it, resolves names and tags through it, and consults it for each
//! type's canonicalization capability. An unregistered name or tag met during
//! decoding is an error, never a silent skip.

use vstd::prelude::*;

use crate::lexical::str_eq;

verus! {

/// A type's canonicalization capability, seen through its outcome.
///
/// After a value is decoded in its raw form, the engine asks the registry
/// whether the type declares a hook that rebuilds the raw value into its
/// canonical in-memory form. The engine observes that hook only through its
/// outcome on the decoded value: the type declares no hook at all, or declares
/// one that fails on the values this registry decodes (the engine then keeps
/// the raw value), or declares one that rebuilds every decoded value.
#[derive(Clone, Copy, PartialEq, Eq, Structural, Debug)]
pub enum CanonicalHook {
    /// No hook is registered for the type.
    Absent,
    /// A hook is registered but fails on decoded values; the raw value is kept.
    Failing,
    /// A hook is registered and rebuilds every decoded value into canonical form.
    Rebuilding,
}

/// The ghost model of a [`TypeDescriptor`].
#[verifier::ext_equal]
pub struct DescV {
    pub id: u64,
    pub name: Seq<char>,
    pub arity: nat,
    pub hook: CanonicalHook,
}

/// One registered type: a stable identity, the name used as the wire-level
/// discriminator, the shape of the type's encoded payload, and the type's
/// canonicalization capability.
#[derive(Debug, PartialEq, Eq)]
pub struct TypeDescriptor {
    /// Stable, comparable identity of the type.
    pub id: u64,
    /// Stable type name; the wire-level discriminator and the sort key.
    pub name: String,
    /// Number of payload words one well-formed instance carries; the per-type
    /// decode capability rejects a payload of any other length.
    pub arity: usize,
    /// The type's canonicalization capability.
    pub hook: CanonicalHook,
}

impl View for TypeDescriptor {
    type V = DescV;

    open spec fn view(&self) -> DescV {
        DescV {
            id: self.id,
            name: self.name@,
            arity: self.arity as nat,
            hook: self.hook,
        }
    }
}

impl Clone for TypeDescriptor {
    fn clone(&self) -> (r: Self)
        ensures
            r@ == self@,
    {
        TypeDescriptor {
            id: self.id,
            name: self.name.clone(),
            arity: self.arity,
            hook: self.hook,
        }
    }
}

/// Resolution of a type name: the first descriptor carrying that name.
pub open spec fn lookup_name(reg: Seq<DescV>, name: Seq<char>) -> Option<DescV>
    decreases reg.len(),
{
    if reg.len() == 0 {
        None
    } else if reg[0].name == name {
        Some(reg[0])
    } else {
        lookup_name(reg.drop_first(), name)
    }
}

/// Resolution of a registry-assigned integer tag: the first descriptor
/// carrying that identity.
pub open spec fn lookup_tag(reg: Seq<DescV>, tag: u64) -> Option<DescV>
    decreases reg.len(),
{
    if reg.len() == 0 {
        None
    } else if reg[0].id == tag {
        Some(reg[0])
    } else {
        lookup_tag(reg.drop_first(), tag)
    }
}

/// A well-formed registry maps each name and each identity to at most one
/// descriptor, so lookups are deterministic and total over what was
/// registered.
pub open spec fn registry_wf(reg: Seq<DescV>) -> bool {
    forall|i: int, j: int|
        0 <= i < j < reg.len() ==> reg[i].name != reg[j].name && reg[i].id != reg[j].id
}

/// The catalog of registered types, shared and read-only during one encode or
/// decode operation.
pub struct TypeRegistry {
    entries: Vec<TypeDescriptor>,
}

impl View for TypeRegistry {
    type V = Seq<DescV>;

    closed spec fn view(&self) -> Seq<DescV> {
        self.entries@.map_values(|d: TypeDescriptor| d@)
    }
}

impl TypeRegistry {
    /// An empty registry.
    pub fn new() -> (r: TypeRegistry)
        ensures
            r@ =~= Seq::<DescV>::empty(),
    {
        TypeRegistry { entries: Vec::new() }
    }

    /// Registers one type. Registration is refused, and the registry left
    /// unchanged, when the name or the identity is already taken, so a
    /// registry built through this function alone is well formed.
    pub fn register(&mut self, desc: TypeDescriptor) -> (ok: bool)
        ensures
            ok == (lookup_name(old(self)@, desc@.name) is None && lookup_tag(
                old(self)@,
                desc@.id,
            ) is None),
            ok ==> final(self)@ =~= old(self)@.push(desc@),
            !ok ==> final(self)@ == old(self)@,
    {
        if self.resolve_by_name(desc.name.as_str()).is_some() {
            return false;
        }
        if self.resolve_by_tag(desc.id).is_some() {
            return false;
        }
        let ghost pre = self@;
        self.entries.push(desc);
        proof {
            assert(self@ =~= pre.push(desc@));
        }
        true
    }

    /// Resolves a type name to its descriptor; `None` when the name was never
    /// registered.
    pub fn resolve_by_name(&self, name: &str) -> (r: Option<&TypeDescriptor>)
        ensures
            match r {
                Some(d) => lookup_name(self@, name@) == Some(d@),
                None => lookup_name(self@, name@) is None,
            },
    {
        let mut i: usize = 0;
        assert(self@.skip(0) =~= self@);
        while i < self.entries.len()
            invariant
                0 <= i <= self.entries.len(),
                self@.len() == self.entries@.len(),
                forall|k: int|
                    0 <= k < self.entries@.len() ==> self@[k] == #[trigger] self.entries@[k]@,
                lookup_name(self@, name@) == lookup_name(self@.skip(i as int), name@),
            decreases self.entries.len() - i,
        {
            proof {
                assert(self@.skip(i as int).len() > 0);
                assert(self@.skip(i as int)[0] == self@[i as int]);
                assert(self@.skip(i as int).drop_first() =~= self@.skip(i as int + 1));
            }
            if str_eq(self.entries[i].name.as_str(), name) {
                return Some(&self.entries[i]);
            }
            i = i + 1;
        }
        assert(self@.skip(i as int).len() == 0);
        None
    }

    /// Resolves an embedded integer type tag to its descriptor; `None` when
    /// no registered type carries that identity.
    pub fn resolve_by_tag(&self, tag: u64) -> (r: Option<&TypeDescriptor>)
        ensures
            match r {
                Some(d) => lookup_tag(self@, tag) == Some(d@),
                None => lookup_tag(self@, tag) is None,
            },
    {
        let mut i: usize = 0;
        assert(self@.skip(0) =~= self@);
        while i < self.entries.len()
            invariant
                0 <= i <= self.entries.len(),
                self@.len() == self.entries@.len(),
                forall|k: int|
                    0 <= k < self.entries@.len() ==> self@[k] == #[trigger] self.entries@[k]@,
                lookup_tag(self@, tag) == lookup_tag(self@.skip(i as int), tag),
            decreases self.entries.len() - i,
        {
            proof {
                assert(self@.skip(i as int).len() > 0);
                assert(self@.skip(i as int)[0] == self@[i as int]);
                assert(self@.skip(i as int).drop_first() =~= self@.skip(i as int + 1));
            }
            if self.entries[i].id == tag {
                return Some(&self.entries[i]);
            }
            i = i + 1;
        }
        assert(self@.skip(i as int).len() == 0);
        None
    }

    /// Number of registered types.
    pub fn len(&self) -> (n: usize)
        ensures
            n == self@.len(),
    {
        self.entries.len()
    }
}

/// A resolved name always resolves to a descriptor carrying that very name.
pub proof fn lemma_lookup_name_found(reg: Seq<DescV>, name: Seq<char>)
    ensures
        lookup_name(reg, name) matches Some(d) ==> d.name == name && reg.contains(d),
    decreases reg.len(),
{
    if reg.len() > 0 && reg[0].name != name {
        lemma_lookup_name_found(reg.drop_first(), name);
        assert(forall|d: DescV| reg.drop_first().contains(d) ==> reg.contains(d));
    }
}

/// A name that does not resolve is carried by no descriptor at all.
pub proof fn lemma_lookup_name_none(reg: Seq<DescV>, name: Seq<char>)
    ensures
        lookup_name(reg, name) is None ==> forall|i: int|
            0 <= i < reg.len() ==> (#[trigger] reg[i]).name != name,
    decreases reg.len(),
{
    if reg.len() > 0 && reg[0].name != name {
        lemma_lookup_name_none(reg.drop_first(), name);
        assert forall|i: int|
            lookup_name(reg, name) is None && 0 <= i < reg.len() implies (#[trigger] reg[i]).name
            != name by {
            if i > 0 {
                assert(reg.drop_first()[i - 1] == reg[i]);
            }
        }
    }
}

/// An identity that does not resolve is carried by no descriptor at all.
pub proof fn lemma_lookup_tag_none(reg: Seq<DescV>, tag: u64)
    ensures
        lookup_tag(reg, tag) is None ==> forall|i: int|
            0 <= i < reg.len() ==> (#[trigger] reg[i]).id != tag,
    decreases reg.len(),
{
    if reg.len() > 0 && reg[0].id != tag {
        lemma_lookup_tag_none(reg.drop_first(), tag);
        assert forall|i: int|
            lookup_tag(reg, tag) is None && 0 <= i < reg.len() implies (#[trigger] reg[i]).id
            != tag by {
            if i > 0 {
                assert(reg.drop_first()[i - 1] == reg[i]);
            }
        }
    }
}

/// A registry built through [`TypeRegistry::register`] alone is well formed:
/// starting from the empty registry, every accepted registration keeps names
/// and identities unique.
pub proof fn law_register_preserves_wf(reg: Seq<DescV>, d: DescV)
    requires
        registry_wf(reg),
        lookup_name(reg, d.name) is None,
        lookup_tag(reg, d.id) is None,
    ensures
        registry_wf(reg.push(d)),
{
    lemma_lookup_name_none(reg, d.name);
    lemma_lookup_tag_none(reg, d.id);
    assert forall|i: int, j: int| 0 <= i < j < reg.push(d).len() implies reg.push(d)[i].name
        != reg.push(d)[j].name && reg.push(d)[i].id != reg.push(d)[j].id by {
        if j == reg.len() {
            assert(reg.push(d)[i] == reg[i]);
        }
    }
}

/// In a well-formed registry, descriptors with different names have different
/// identities, so two distinct resolved names never collide on one identity.
pub proof fn lemma_lookup_name_injective(reg: Seq<DescV>, a: Seq<char>, b: Seq<char>)
    requires
        registry_wf(reg),
        a != b,
        lookup_name(reg, a) is Some,
        lookup_name(reg, b) is Some,
    ensures
        lookup_name(reg, a).unwrap().id != lookup_name(reg, b).unwrap().id,
{
    lemma_lookup_name_found(reg, a);
    lemma_lookup_name_found(reg, b);
    let da = lookup_name(reg, a).unwrap();
    let db = lookup_name(reg, b).unwrap();
    let ia = choose|i: int| 0 <= i < reg.len() && reg[i] == da;
    let ib = choose|i: int| 0 <= i < reg.len() && reg[i] == db;
    assert(reg[ia] == da && reg[ib] == db);
    assert(ia != ib);
}

} // verus!
