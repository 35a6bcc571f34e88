//! Engine value to host term.
use crate::number::{fields_of, integer_value, Double};
use crate::term::{ConversionDetail, Direction, BridgeError, EngineValue, HostTerm};
use vstd::prelude::*;

verus! {

/// `v` can be decoded without nesting deeper than `depth` levels, and every
/// opaque value in it has a text form.
pub open spec fn decodable(v: EngineValue, depth: nat) -> bool
    decreases depth,
{
    depth > 0 && match v {
        EngineValue::Array(xs) => forall|i: int|
            #![trigger xs@[i]]
            0 <= i < xs.len() ==> decodable(xs@[i], (depth - 1) as nat),
        EngineValue::Object(ps) => forall|i: int|
            #![trigger ps@[i]]
            0 <= i < ps.len() ==> decodable(ps@[i].1, (depth - 1) as nat),
        EngineValue::Opaque(text) => text is Some,
        _ => true,
    }
}

/// `v` nests no deeper than `depth` levels.
pub open spec fn value_fits(v: EngineValue, depth: nat) -> bool
    decreases depth,
{
    depth > 0 && match v {
        EngineValue::Array(xs) => forall|i: int|
            #![trigger xs@[i]]
            0 <= i < xs.len() ==> value_fits(xs@[i], (depth - 1) as nat),
        EngineValue::Object(ps) => forall|i: int|
            #![trigger ps@[i]]
            0 <= i < ps.len() ==> value_fits(ps@[i].1, (depth - 1) as nat),
        _ => true,
    }
}

/// Every opaque value within the first `depth` levels of `v` has a text form.
pub open spec fn texts_known(v: EngineValue, depth: nat) -> bool
    decreases depth,
{
    depth == 0 || match v {
        EngineValue::Array(xs) => forall|i: int|
            #![trigger xs@[i]]
            0 <= i < xs.len() ==> texts_known(xs@[i], (depth - 1) as nat),
        EngineValue::Object(ps) => forall|i: int|
            #![trigger ps@[i]]
            0 <= i < ps.len() ==> texts_known(ps@[i].1, (depth - 1) as nat),
        EngineValue::Opaque(text) => text is Some,
        _ => true,
    }
}

/// The host term that a number decodes to: an integer when the number is
/// whole and within the 64-bit range, a float otherwise. A float with no
/// fractional part therefore comes back as an integer.
pub open spec fn number_term(bits: u64) -> HostTerm {
    match integer_value(fields_of(bits)) {
        Some(i) => HostTerm::Integer(i as i64),
        None => HostTerm::Float(bits),
    }
}

/// `t` is the host term that decoding `v` gives: booleans stay booleans,
/// numbers become integers or floats, arrays become lists in index order,
/// objects become mappings keyed by their property names as strings (in
/// enumeration order), strings stay strings, null and undefined become nil,
/// and any other value becomes the string of its text form.
pub open spec fn decodes(v: EngineValue, t: HostTerm, depth: nat) -> bool
    decreases depth,
{
    depth > 0 && match v {
        EngineValue::Null => t is Nil,
        EngineValue::Boolean(b) => t == HostTerm::Boolean(b),
        EngineValue::Number(bits) => t == number_term(bits),
        EngineValue::Str(s) => is_string(t, s@),
        EngineValue::Array(xs) => t is List && t->List_0.len() == xs.len() && forall|i: int|
            #![trigger xs@[i]]
            0 <= i < xs.len() ==> decodes(xs@[i], t->List_0@[i], (depth - 1) as nat),
        EngineValue::Object(ps) => t is Mapping && t->Mapping_0.len() == ps.len() && forall|i: int|
            #![trigger ps@[i]]
            0 <= i < ps.len() ==> is_string(t->Mapping_0@[i].0, ps@[i].0@) && decodes(ps@[i].1, t->Mapping_0@[i].1, (depth - 1) as nat),
        EngineValue::Opaque(text) => text is Some && is_string(t, text->Some_0@),
    }
}

/// `t` is the host string `text`.
pub open spec fn is_string(t: HostTerm, text: Seq<char>) -> bool {
    t is Str && t->Str_0@ == text
}

/// The host term for a number.
pub fn decode_number(bits: u64) -> (r: HostTerm)
    ensures
        r == number_term(bits),
{
    match Double::from_bits(bits).as_integer() {
        Some(i) => HostTerm::Integer(i),
        None => HostTerm::Float(bits),
    }
}

/// Decodes `v` as a host term, descending at most `depth` levels.
pub fn decode(v: &EngineValue, depth: usize) -> (r: Result<HostTerm, BridgeError>)
    ensures
        match r {
            Ok(t) => decodable(*v, depth as nat) && decodes(*v, t, depth as nat),
            Err(e) => !decodable(*v, depth as nat) && ((e == BridgeError::DepthExceeded
                && !value_fits(*v, depth as nat)) || (e == BridgeError::Conversion(
                Direction::Decode,
                ConversionDetail::NoTextForm,
            ) && !texts_known(*v, depth as nat))),
        },
    decreases depth,
{
    if depth == 0 {
        return Err(BridgeError::DepthExceeded);
    }
    match v {
        EngineValue::Null => Ok(HostTerm::Nil),
        EngineValue::Boolean(b) => Ok(HostTerm::Boolean(*b)),
        EngineValue::Number(bits) => Ok(decode_number(*bits)),
        EngineValue::Str(s) => Ok(HostTerm::Str(s.clone())),
        EngineValue::Array(xs) => {
            let mut out: Vec<HostTerm> = Vec::new();
            let mut i: usize = 0;
            let len = xs.len();
            while i < len
                invariant
                    depth > 0,
                    *v == EngineValue::Array(*xs),
                    len == xs.len(),
                    i <= len,
                    out.len() == i,
                    forall|j: int|
                        0 <= j < i ==> decodable(xs@[j], (depth - 1) as nat) && decodes(
                            #[trigger] xs@[j],
                            out@[j],
                            (depth - 1) as nat,
                        ),
                decreases len - i,
            {
                match decode(&xs[i], depth - 1) {
                    Ok(t) => out.push(t),
                    Err(e) => {
                        proof {
                            assert(!decodable(v->Array_0@[i as int], (depth - 1) as nat));
                            if e == BridgeError::DepthExceeded {
                                assert(!value_fits(v->Array_0@[i as int], (depth - 1) as nat));
                            } else {
                                assert(!texts_known(v->Array_0@[i as int], (depth - 1) as nat));
                            }
                        }
                        return Err(e);
                    },
                }
                i = i + 1;
            }
            Ok(HostTerm::List(out))
        },
        EngineValue::Object(ps) => {
            let mut out: Vec<(HostTerm, HostTerm)> = Vec::new();
            let mut i: usize = 0;
            while i < ps.len()
                invariant
                    depth > 0,
                    *v == EngineValue::Object(*ps),
                    i <= ps.len(),
                    out.len() == i,
                    forall|j: int|
                        #![trigger ps@[j]]
                        0 <= j < i ==> is_string(out@[j].0, ps@[j].0@),
                    forall|j: int|
                        #![trigger ps@[j]]
                        0 <= j < i ==> decodable(ps@[j].1, (depth - 1) as nat) && decodes(
                            ps@[j].1,
                            out@[j].1,
                            (depth - 1) as nat,
                        ),
                decreases ps.len() - i,
            {
                match decode(&ps[i].1, depth - 1) {
                    Ok(t) => {
                        let key = ps[i].0.clone();
                        out.push((HostTerm::Str(key), t));
                        proof {
                            assert(is_string(out@[i as int].0, ps@[i as int].0@));
                        }
                    },
                    Err(e) => {
                        proof {
                            assert(!decodable(v->Object_0@[i as int].1, (depth - 1) as nat));
                            if e == BridgeError::DepthExceeded {
                                assert(!value_fits(v->Object_0@[i as int].1, (depth - 1) as nat));
                            } else {
                                assert(!texts_known(v->Object_0@[i as int].1, (depth - 1) as nat));
                            }
                        }
                        return Err(e);
                    },
                }
                i = i + 1;
            }
            Ok(HostTerm::Mapping(out))
        },
        EngineValue::Opaque(text) => match text {
            Some(s) => Ok(HostTerm::Str(s.clone())),
            None => Err(BridgeError::Conversion(Direction::Decode, ConversionDetail::NoTextForm)),
        },
    }
}

} // verus!
