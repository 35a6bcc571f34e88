//! Host term to engine value.
use crate::number::{fields_of, rounded_integer, whole_value, Double};
use crate::term::{key_name, ConversionDetail, Direction, BridgeError, EngineValue, HostTerm};
use vstd::prelude::*;

verus! {

/// `bits` is the binary64 value that the engine makes of the integer `i`:
/// the nearest one, ties to an even significand, with the sign of `i`.
pub open spec fn widens_to(i: i64, bits: u64) -> bool {
    &&& fields_of(bits).negative == (i < 0)
    &&& whole_value(fields_of(bits)) == Some(rounded_integer(i as int))
}

/// `t` can be encoded without nesting deeper than `depth` levels, and every
/// mapping key in it has a text form.
pub open spec fn encodable(t: HostTerm, depth: nat) -> bool
    decreases depth,
{
    depth > 0 && match t {
        HostTerm::List(xs) => forall|i: int|
            #![trigger xs@[i]]
            0 <= i < xs.len() ==> encodable(xs@[i], (depth - 1) as nat),
        HostTerm::Mapping(xs) => forall|i: int|
            #![trigger xs@[i]]
            0 <= i < xs.len() ==> key_name(xs@[i].0) is Some && encodable(
                xs@[i].1,
                (depth - 1) as nat,
            ),
        _ => true,
    }
}

/// `t` nests no deeper than `depth` levels.
pub open spec fn fits(t: HostTerm, depth: nat) -> bool
    decreases depth,
{
    depth > 0 && match t {
        HostTerm::List(xs) => forall|i: int|
            #![trigger xs@[i]]
            0 <= i < xs.len() ==> fits(xs@[i], (depth - 1) as nat),
        HostTerm::Mapping(xs) => forall|i: int|
            #![trigger xs@[i]]
            0 <= i < xs.len() ==> fits(xs@[i].1, (depth - 1) as nat),
        _ => true,
    }
}

/// Every mapping key within the first `depth` levels of `t` has a text form.
pub open spec fn keys_named(t: HostTerm, depth: nat) -> bool
    decreases depth,
{
    depth == 0 || match t {
        HostTerm::List(xs) => forall|i: int|
            #![trigger xs@[i]]
            0 <= i < xs.len() ==> keys_named(xs@[i], (depth - 1) as nat),
        HostTerm::Mapping(xs) => forall|i: int|
            #![trigger xs@[i]]
            0 <= i < xs.len() ==> key_name(xs@[i].0) is Some && keys_named(
                xs@[i].1,
                (depth - 1) as nat,
            ),
        _ => true,
    }
}

/// Every value of the entries `xs` nests no deeper than `depth` levels.
pub open spec fn entries_fit(xs: Seq<(HostTerm, HostTerm)>, depth: nat) -> bool {
    forall|j: int| #![trigger xs[j]] 0 <= j < xs.len() ==> fits(xs[j].1, depth)
}

/// Every key of the entries `xs` has a text form, and so does every mapping
/// key within the first `depth` levels of their values.
pub open spec fn entries_named(xs: Seq<(HostTerm, HostTerm)>, depth: nat) -> bool {
    forall|j: int|
        #![trigger xs[j]]
        0 <= j < xs.len() ==> key_name(xs[j].0) is Some && keys_named(xs[j].1, depth)
}

/// `v` is the engine value that encoding `t` gives: booleans stay booleans,
/// integers and floats become numbers, strings and symbols become strings,
/// lists become arrays in the same order, mappings become objects whose
/// property names are the keys' text, and nil becomes null.
pub open spec fn encodes(t: HostTerm, v: EngineValue, depth: nat) -> bool
    decreases depth,
{
    depth > 0 && match t {
        HostTerm::Nil => v is Null,
        HostTerm::Boolean(b) => v == EngineValue::Boolean(b),
        HostTerm::Integer(i) => v is Number && widens_to(i, v->Number_0),
        HostTerm::Float(bits) => v == EngineValue::Number(bits),
        HostTerm::Str(s) => v is Str && v->Str_0@ == s@,
        HostTerm::Symbol(s) => v is Str && v->Str_0@ == s@,
        HostTerm::List(xs) => v is Array && v->Array_0.len() == xs.len() && forall|i: int|
            #![trigger xs@[i]]
            0 <= i < xs.len() ==> encodes(xs@[i], v->Array_0@[i], (depth - 1) as nat),
        HostTerm::Mapping(xs) => v is Object && v->Object_0.len() == xs.len() && forall|i: int|
            #![trigger xs@[i]]
            0 <= i < xs.len() ==> key_name(xs@[i].0) == Some(v->Object_0@[i].0@) && encodes(
                xs@[i].1,
                v->Object_0@[i].1,
                (depth - 1) as nat,
            ),
    }
}

/// The text of a mapping key, where it has one.
pub fn key_text(k: &HostTerm) -> (r: Option<String>)
    ensures
        match r {
            Some(s) => key_name(*k) == Some(s@),
            None => key_name(*k) is None,
        },
{
    match k {
        HostTerm::Str(s) => Some(s.clone()),
        HostTerm::Symbol(s) => Some(s.clone()),
        _ => None,
    }
}

/// Encodes `t` as an engine value, descending at most `depth` levels.
pub fn encode(t: &HostTerm, depth: usize) -> (r: Result<EngineValue, BridgeError>)
    ensures
        match r {
            Ok(v) => encodable(*t, depth as nat) && encodes(*t, v, depth as nat),
            Err(e) => !encodable(*t, depth as nat) && ((e == BridgeError::DepthExceeded && !fits(
                *t,
                depth as nat,
            )) || (e == BridgeError::Conversion(Direction::Encode, ConversionDetail::UnnamedKey)
                && !keys_named(*t, depth as nat))),
        },
    decreases depth, 0nat,
{
    if depth == 0 {
        return Err(BridgeError::DepthExceeded);
    }
    match t {
        HostTerm::Nil => Ok(EngineValue::Null),
        HostTerm::Boolean(b) => Ok(EngineValue::Boolean(*b)),
        HostTerm::Integer(i) => Ok(EngineValue::Number(Double::from_integer(*i).to_bits())),
        HostTerm::Float(bits) => Ok(EngineValue::Number(*bits)),
        HostTerm::Str(s) => Ok(EngineValue::Str(s.clone())),
        HostTerm::Symbol(s) => Ok(EngineValue::Str(s.clone())),
        HostTerm::List(xs) => {
            let mut out: Vec<EngineValue> = Vec::new();
            let mut i: usize = 0;
            while i < xs.len()
                invariant
                    depth > 0,
                    *t == HostTerm::List(*xs),
                    i <= xs.len(),
                    out.len() == i,
                    forall|j: int|
                        0 <= j < i ==> encodable(xs@[j], (depth - 1) as nat) && encodes(
                            #[trigger] xs@[j],
                            out@[j],
                            (depth - 1) as nat,
                        ),
                decreases xs.len() - i,
            {
                match encode(&xs[i], depth - 1) {
                    Ok(v) => out.push(v),
                    Err(e) => {
                        proof {
                            assert(!encodable(t->List_0@[i as int], (depth - 1) as nat));
                            if e == BridgeError::DepthExceeded {
                                assert(!fits(t->List_0@[i as int], (depth - 1) as nat));
                            } else {
                                assert(!keys_named(t->List_0@[i as int], (depth - 1) as nat));
                            }
                        }
                        return Err(e);
                    },
                }
                i = i + 1;
            }
            Ok(EngineValue::Array(out))
        },
        HostTerm::Mapping(xs) => match encode_entries(xs, depth - 1) {
            Ok(out) => Ok(EngineValue::Object(out)),
            Err(e) => {
                proof {
                    if e == BridgeError::DepthExceeded {
                        let j = choose|j: int|
                            0 <= j < xs.len() && !fits(#[trigger] xs@[j].1, (depth - 1) as nat);
                        assert(!fits(t->Mapping_0@[j].1, (depth - 1) as nat));
                    } else {
                        let j = choose|j: int|
                            0 <= j < xs.len() && (key_name(#[trigger] xs@[j].0) is None
                                || !keys_named(xs@[j].1, (depth - 1) as nat));
                        assert(key_name(t->Mapping_0@[j].0) is None || !keys_named(
                            t->Mapping_0@[j].1,
                            (depth - 1) as nat,
                        ));
                    }
                }
                Err(e)
            },
        },
    }
}

/// Encodes key/value pairs as named engine values, in order: each key by its
/// text, each value as by `encode` at `depth`. Used for the entries of a
/// mapping and for the bindings of a call.
pub fn encode_entries(xs: &Vec<(HostTerm, HostTerm)>, depth: usize) -> (r: Result<
    Vec<(String, EngineValue)>,
    BridgeError,
>)
    ensures
        match r {
            Ok(ps) => ps.len() == xs.len() && forall|j: int|
                #![trigger xs@[j]]
                0 <= j < xs.len() ==> key_name(xs@[j].0) == Some(ps@[j].0@) && encodable(
                    xs@[j].1,
                    depth as nat,
                ) && encodes(xs@[j].1, ps@[j].1, depth as nat),
            Err(e) => (exists|j: int|
                #![trigger xs@[j]]
                0 <= j < xs.len() && (key_name(xs@[j].0) is None || !encodable(
                    xs@[j].1,
                    depth as nat,
                ))) && ((e == BridgeError::DepthExceeded && !entries_fit(xs@, depth as nat)) || (e
                == BridgeError::Conversion(Direction::Encode, ConversionDetail::UnnamedKey)
                && !entries_named(xs@, depth as nat))),
        },
    decreases depth, 1nat,
{
    let mut out: Vec<(String, EngineValue)> = Vec::new();
    let mut i: usize = 0;
    while i < xs.len()
        invariant
            i <= xs.len(),
            out.len() == i,
            forall|j: int|
                0 <= j < i ==> key_name(#[trigger] xs@[j].0) == Some(out@[j].0@) && encodable(
                    xs@[j].1,
                    depth as nat,
                ) && encodes(xs@[j].1, out@[j].1, depth as nat),
        decreases xs.len() - i,
    {
        let name = match key_text(&xs[i].0) {
            Some(name) => name,
            None => {
                proof {
                    assert(key_name(xs@[i as int].0) is None);
                }
                return Err(BridgeError::Conversion(Direction::Encode, ConversionDetail::UnnamedKey));
            },
        };
        match encode(&xs[i].1, depth) {
            Ok(v) => out.push((name, v)),
            Err(e) => {
                proof {
                    assert(!encodable(xs@[i as int].1, depth as nat));
                    if e == BridgeError::DepthExceeded {
                        assert(!fits(xs@[i as int].1, depth as nat));
                    } else {
                        assert(!keys_named(xs@[i as int].1, depth as nat));
                    }
                }
                return Err(e);
            },
        }
        i = i + 1;
    }
    Ok(out)
}

} // verus!
