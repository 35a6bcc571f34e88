//! The two value models that the bridge connects: the host runtime's dynamic
//! terms and the script engine's values, plus the error outcomes of a call.
use vstd::prelude::*;

verus! {

/// A value of the host runtime.
#[derive(Debug, PartialEq)]
pub enum HostTerm {
    Nil,
    Boolean(bool),
    Integer(i64),
    /// A binary64 number, as its raw bit pattern.
    Float(u64),
    Str(String),
    /// An interned name (an atom), held as its text.
    Symbol(String),
    List(Vec<HostTerm>),
    /// Key/value pairs with unique keys; their order carries no meaning.
    Mapping(Vec<(HostTerm, HostTerm)>),
}

/// A value of the script engine, read out of (or to be created in) one call's
/// execution scope.
#[derive(Debug, PartialEq)]
pub enum EngineValue {
    /// `null` or `undefined`.
    Null,
    Boolean(bool),
    /// A binary64 number, as its raw bit pattern.
    Number(u64),
    Str(String),
    Array(Vec<EngineValue>),
    /// Own enumerable properties in enumeration order. When an object is built
    /// in the engine, the properties are set in this order, so a later entry
    /// with an already used name replaces the earlier value.
    Object(Vec<(String, EngineValue)>),
    /// Any other engine value (a function, a symbol, ...), with the result of
    /// the engine's generic string conversion, or `None` where that
    /// conversion failed.
    Opaque(Option<String>),
}

/// Which way a failed conversion was going.
#[derive(Clone, Copy, Debug, PartialEq, Eq, Structural)]
pub enum Direction {
    /// Host term to engine value.
    Encode,
    /// Engine value to host term.
    Decode,
}

/// What went wrong in one conversion.
#[derive(Clone, Copy, Debug, PartialEq, Eq, Structural)]
pub enum ConversionDetail {
    /// A mapping key has no text form that could name a property.
    UnnamedKey,
    /// An engine value could not be converted to text.
    NoTextForm,
    /// The engine refused to create a value or a property.
    CreationRefused,
}

/// The outcome of a call that did not produce a value.
#[derive(Debug, PartialEq)]
pub enum BridgeError {
    /// The engine's platform failed to start; no call can be served.
    Initialization,
    /// The script text did not compile; the engine's diagnostic.
    Compile(String),
    /// The script threw; a description of the thrown value.
    RuntimeExecution(String),
    /// A value could not be converted.
    Conversion(Direction, ConversionDetail),
    /// A host value of a kind that the bridge does not carry.
    UnsupportedTermType,
    /// A value nests deeper than the conversion allows.
    DepthExceeded,
}

/// The text under which a mapping key names an engine property.
pub open spec fn key_name(k: HostTerm) -> Option<Seq<char>> {
    match k {
        HostTerm::Str(s) => Some(s@),
        HostTerm::Symbol(s) => Some(s@),
        _ => None,
    }
}

/// `a` and `b` are the same term, up to `depth` levels of nesting.
pub open spec fn same_term(a: HostTerm, b: HostTerm, depth: nat) -> bool
    decreases depth,
{
    depth > 0 && match a {
        HostTerm::Nil => b is Nil,
        HostTerm::Boolean(x) => b == HostTerm::Boolean(x),
        HostTerm::Integer(x) => b == HostTerm::Integer(x),
        HostTerm::Float(x) => b == HostTerm::Float(x),
        HostTerm::Str(s) => b is Str && b->Str_0@ == s@,
        HostTerm::Symbol(s) => b is Symbol && b->Symbol_0@ == s@,
        HostTerm::List(xs) => b is List && b->List_0.len() == xs.len() && forall|i: int|
            #![trigger xs@[i]]
            0 <= i < xs.len() ==> same_term(xs@[i], b->List_0@[i], (depth - 1) as nat),
        HostTerm::Mapping(xs) => b is Mapping && b->Mapping_0.len() == xs.len() && forall|i: int|
            #![trigger xs@[i]]
            0 <= i < xs.len() ==> same_term(xs@[i].0, b->Mapping_0@[i].0, (depth - 1) as nat)
                && same_term(xs@[i].1, b->Mapping_0@[i].1, (depth - 1) as nat),
    }
}

} // verus!
