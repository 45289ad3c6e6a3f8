//! Error taxonomy of the loader.
//!
//! `ParseError` and `SchemaError` are fatal to a whole load; a resolution
//! failure or a malformed descriptor is local to one binding entry and is
//! recorded while the rest of the file keeps loading.

use vstd::prelude::*;

verus! {

/// A syntactic fault in the source text, fatal to the whole load.
/// The message is the parser's own wording and is not specified further.
#[derive(Debug, PartialEq, Eq)]
pub struct ParseError {
    pub message: String,
}

/// A structural fault: the value tree is not shaped like a keymap file.
/// Fatal to the whole load.
#[derive(Debug, Clone, Copy, PartialEq, Eq, Structural)]
pub enum SchemaError {
    /// The top-level value is not a sequence of blocks.
    TopLevelNotSequence,
    /// A block is not an object.
    BlockNotObject,
    /// A block's `context` field is neither a string nor null.
    ContextNotString,
    /// A block's `bindings` field is missing or not a mapping.
    BindingsNotMap,
    /// Two entries of one block bind the same keystroke.
    DuplicateBinding,
}

/// Why one descriptor could not be resolved to a command. Local to the
/// entry that carries the descriptor.
#[derive(Debug, PartialEq, Eq)]
pub enum ResolveError {
    /// The named command is not registered.
    UnknownCommand(String),
    /// The payload is missing, unexpected, or of the wrong shape for the
    /// command kind.
    PayloadMismatch,
}

/// The model of a `ResolveError`.
pub enum SpecResolveError {
    UnknownCommand(Seq<char>),
    PayloadMismatch,
}

impl View for ResolveError {
    type V = SpecResolveError;

    open spec fn view(&self) -> SpecResolveError {
        match self {
            ResolveError::UnknownCommand(name) => SpecResolveError::UnknownCommand(name@),
            ResolveError::PayloadMismatch => SpecResolveError::PayloadMismatch,
        }
    }
}

/// Everything that can go wrong while loading. The `Parse` and `Schema`
/// variants abort a load; `MalformedDescriptor` and `Resolve` are recorded
/// per entry and never propagate past the installer.
#[derive(Debug, PartialEq, Eq)]
pub enum LoadError {
    /// The source text is not syntactically valid.
    Parse(ParseError),
    /// The value tree is not shaped like a keymap file.
    Schema(SchemaError),
    /// A descriptor is neither a string, a two-element `[name, payload]`
    /// sequence, nor null.
    MalformedDescriptor,
    /// A descriptor named an unknown command or carried a bad payload.
    Resolve(ResolveError),
}

/// The model of a `LoadError`. A parse error's message is not modelled.
pub enum SpecLoadError {
    Parse,
    Schema(SchemaError),
    MalformedDescriptor,
    Resolve(SpecResolveError),
}

impl View for LoadError {
    type V = SpecLoadError;

    open spec fn view(&self) -> SpecLoadError {
        match self {
            LoadError::Parse(_) => SpecLoadError::Parse,
            LoadError::Schema(e) => SpecLoadError::Schema(*e),
            LoadError::MalformedDescriptor => SpecLoadError::MalformedDescriptor,
            LoadError::Resolve(e) => SpecLoadError::Resolve(e@),
        }
    }
}

impl LoadError {
    /// Whether this error aborts a whole load rather than one entry.
    pub open spec fn spec_is_fatal(&self) -> bool {
        self@ is Parse || self@ is Schema
    }

    /// Whether this error aborts a whole load rather than one entry.
    pub fn is_fatal(&self) -> (r: bool)
        ensures
            r == self.spec_is_fatal(),
    {
        match self {
            LoadError::Parse(_) => true,
            LoadError::Schema(_) => true,
            LoadError::MalformedDescriptor => false,
            LoadError::Resolve(_) => false,
        }
    }
}

} // verus!
