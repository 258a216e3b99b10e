//! The abstract structured encoder/decoder interface.
//!
//! The engine is agnostic to whether the concrete wire format is textual,
//! length-prefixed binary, or schemaless binary: it writes into, and reads
//! from, a stream of structural tokens. A concrete format faithfully
//! round-trips field names, association keys, and nesting; the engine owns
//! everything above that level. Objects and associations are delimited by
//! their end tokens, so the stream is self-delimiting.

use vstd::prelude::*;

verus! {

/// The ghost model of a [`Token`].
#[verifier::ext_equal]
pub enum TokenV {
    StructStart { name: Seq<char> },
    StructEnd,
    Field { name: Seq<char> },
    MapStart,
    MapEnd,
    SeqStart,
    SeqEnd,
    Str { value: Seq<char> },
    U64 { value: u64 },
    Opaque { words: Seq<u64> },
}

/// One structural token of the abstract encoder/decoder interface.
#[derive(Debug, Clone, PartialEq, Eq)]
pub enum Token {
    /// Begins a named object.
    StructStart { name: String },
    /// Ends the innermost open object.
    StructEnd,
    /// Announces the named field whose value follows; a purely positional
    /// encoding of an object omits these markers.
    Field { name: String },
    /// Begins an association of keys to values.
    MapStart,
    /// Ends the innermost open association.
    MapEnd,
    /// Begins a positional sequence of self-describing elements.
    SeqStart,
    /// Ends the innermost open sequence.
    SeqEnd,
    /// A string scalar; used for type names embedded as discriminators.
    Str { value: String },
    /// An unsigned scalar; used for record keys and integer type tags.
    U64 { value: u64 },
    /// One opaque value payload, the per-type encoded form of one instance.
    Opaque { words: Vec<u64> },
}

impl View for Token {
    type V = TokenV;

    open spec fn view(&self) -> TokenV {
        match self {
            Token::StructStart { name } => TokenV::StructStart { name: name@ },
            Token::StructEnd => TokenV::StructEnd,
            Token::Field { name } => TokenV::Field { name: name@ },
            Token::MapStart => TokenV::MapStart,
            Token::MapEnd => TokenV::MapEnd,
            Token::SeqStart => TokenV::SeqStart,
            Token::SeqEnd => TokenV::SeqEnd,
            Token::Str { value } => TokenV::Str { value: value@ },
            Token::U64 { value } => TokenV::U64 { value: *value },
            Token::Opaque { words } => TokenV::Opaque { words: words@ },
        }
    }
}

/// The ghost models of a token stream.
pub open spec fn tokens_view(s: Seq<Token>) -> Seq<TokenV> {
    s.map_values(|t: Token| t@)
}

pub broadcast proof fn lemma_tokens_view_push(s: Seq<Token>, t: Token)
    ensures
        #[trigger] tokens_view(s.push(t)) =~= tokens_view(s).push(t@),
{
}

pub broadcast proof fn lemma_tokens_view_add(a: Seq<Token>, b: Seq<Token>)
    ensures
        #[trigger] tokens_view(a + b) =~= tokens_view(a) + tokens_view(b),
{
}

} // verus!
