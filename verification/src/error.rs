//! The decode error taxonomy.
//!
//! Every kind is an immediate, non-retried failure that aborts the current
//! decode call and unwinds to the top with the offending field, type name, or
//! tag attached: a failed decode yields no partial scene. Encoding fails only
//! when a value's type was never registered. A failing canonicalization hook
//! is not an error at all: the engine falls back to the raw decoded value.

use vstd::prelude::*;

verus! {

/// The ghost model of a [`TypeKey`].
#[verifier::ext_equal]
pub enum TypeKeyV {
    Name { name: Seq<char> },
    Tag { tag: u64 },
}

/// How an unresolved type was referred to in the stream: by its stable name,
/// or by a registry-assigned integer tag.
#[derive(Debug, Clone, PartialEq, Eq)]
pub enum TypeKey {
    /// The stream carried the type's stable name.
    Name { name: String },
    /// The stream carried an embedded integer type tag.
    Tag { tag: u64 },
}

impl View for TypeKey {
    type V = TypeKeyV;

    open spec fn view(&self) -> TypeKeyV {
        match self {
            TypeKey::Name { name } => TypeKeyV::Name { name: name@ },
            TypeKey::Tag { tag } => TypeKeyV::Tag { tag: *tag },
        }
    }
}

/// The ghost model of a [`SceneError`].
#[verifier::ext_equal]
pub enum SceneErrorV {
    UnknownType { key: TypeKeyV },
    DuplicateType { name: Seq<char> },
    MissingField { field: Seq<char> },
    DuplicateField { field: Seq<char> },
    ValueDecode { name: Seq<char> },
    InvalidStructure,
}

/// Why an encode or decode call failed.
#[derive(Debug, Clone, PartialEq, Eq)]
pub enum SceneError {
    /// A type name or tag appeared with no matching registry entry.
    UnknownType { key: TypeKey },
    /// Two elements of one uniquely typed collection resolved to the same
    /// type identity.
    DuplicateType { name: String },
    /// A required structural field was absent after the full object scan.
    MissingField { field: String },
    /// A required structural field appeared more than once.
    DuplicateField { field: String },
    /// The per-type decode capability rejected the payload of the named type.
    ValueDecode { name: String },
    /// The structured decoder met a token that no grammar rule allows there,
    /// or the stream ended inside an open object or association.
    InvalidStructure,
}

impl View for SceneError {
    type V = SceneErrorV;

    open spec fn view(&self) -> SceneErrorV {
        match self {
            SceneError::UnknownType { key } => SceneErrorV::UnknownType { key: key@ },
            SceneError::DuplicateType { name } => SceneErrorV::DuplicateType { name: name@ },
            SceneError::MissingField { field } => SceneErrorV::MissingField { field: field@ },
            SceneError::DuplicateField { field } => SceneErrorV::DuplicateField { field: field@ },
            SceneError::ValueDecode { name } => SceneErrorV::ValueDecode { name: name@ },
            SceneError::InvalidStructure => SceneErrorV::InvalidStructure,
        }
    }
}

impl SceneError {
    /// Which variant this error is, for callers that match without looking at
    /// the attached diagnostic.
    pub fn kind(&self) -> (r: &'static str)
        ensures
            r@ == self.kind_spec(),
    {
        match self {
            SceneError::UnknownType { .. } => "unknown type",
            SceneError::DuplicateType { .. } => "duplicate type",
            SceneError::MissingField { .. } => "missing field",
            SceneError::DuplicateField { .. } => "duplicate field",
            SceneError::ValueDecode { .. } => "value decode failed",
            SceneError::InvalidStructure => "invalid structure",
        }
    }

    /// The label `kind` returns for each variant.
    pub open spec fn kind_spec(&self) -> Seq<char> {
        match self {
            SceneError::UnknownType { .. } => "unknown type"@,
            SceneError::DuplicateType { .. } => "duplicate type"@,
            SceneError::MissingField { .. } => "missing field"@,
            SceneError::DuplicateField { .. } => "duplicate field"@,
            SceneError::ValueDecode { .. } => "value decode failed"@,
            SceneError::InvalidStructure => "invalid structure"@,
        }
    }
}

} // verus!
