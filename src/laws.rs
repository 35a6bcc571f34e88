//! What holds of encoding followed by decoding.
use crate::decode::{decodes, number_term};
use crate::encode::{encodes, widens_to};
use crate::number::{exact_in_double, fields_of, integer_value, whole_value};
use crate::term::{same_term, EngineValue, HostTerm};
use vstd::prelude::*;

verus! {

/// The terms that come back unchanged from the engine: nil, booleans,
/// strings, integers that binary64 holds exactly, and lists and mappings of
/// such terms, the mappings keyed by strings.
pub open spec fn round_trip_domain(t: HostTerm, depth: nat) -> bool
    decreases depth,
{
    depth > 0 && match t {
        HostTerm::Nil => true,
        HostTerm::Boolean(_) => true,
        HostTerm::Str(_) => true,
        HostTerm::Integer(i) => exact_in_double(i as int),
        HostTerm::Float(_) => false,
        HostTerm::Symbol(_) => false,
        HostTerm::List(xs) => forall|i: int|
            #![trigger xs@[i]]
            0 <= i < xs.len() ==> round_trip_domain(xs@[i], (depth - 1) as nat),
        HostTerm::Mapping(xs) => forall|i: int|
            #![trigger xs@[i]]
            0 <= i < xs.len() ==> xs@[i].0 is Str && round_trip_domain(
                xs@[i].1,
                (depth - 1) as nat,
            ),
    }
}

/// Decoding the encoding of a term built from nil, booleans, exactly held
/// integers, strings, lists and string-keyed mappings gives the same term
/// back.
pub proof fn lemma_round_trip(t: HostTerm, v: EngineValue, back: HostTerm, depth: nat)
    requires
        round_trip_domain(t, depth),
        encodes(t, v, depth),
        decodes(v, back, depth),
    ensures
        same_term(t, back, depth),
    decreases depth,
{
    match t {
        HostTerm::Integer(i) => {
            let bits = v->Number_0;
            assert(widens_to(i, bits));
            assert(whole_value(fields_of(bits)) == Some(i as int));
            assert(integer_value(fields_of(bits)) == Some(i as int));
            assert(number_term(bits) == HostTerm::Integer(i));
        },
        HostTerm::List(xs) => {
            assert forall|k: int| 0 <= k < xs.len() implies same_term(
                xs@[k],
                back->List_0@[k],
                (depth - 1) as nat,
            ) by {
                assert(round_trip_domain(xs@[k], (depth - 1) as nat));
                assert(encodes(xs@[k], v->Array_0@[k], (depth - 1) as nat));
                assert(decodes(v->Array_0@[k], back->List_0@[k], (depth - 1) as nat));
                lemma_round_trip(xs@[k], v->Array_0@[k], back->List_0@[k], (depth - 1) as nat);
            }
        },
        HostTerm::Mapping(xs) => {
            assert forall|k: int| 0 <= k < xs.len() implies same_term(
                xs@[k].0,
                back->Mapping_0@[k].0,
                (depth - 1) as nat,
            ) && same_term(xs@[k].1, back->Mapping_0@[k].1, (depth - 1) as nat) by {
                let ps = v->Object_0;
                assert(round_trip_domain(xs@[k].1, (depth - 1) as nat));
                assert(encodes(xs@[k].1, ps@[k].1, (depth - 1) as nat));
                assert(decodes(ps@[k].1, back->Mapping_0@[k].1, (depth - 1) as nat));
                lemma_round_trip(xs@[k].1, ps@[k].1, back->Mapping_0@[k].1, (depth - 1) as nat);
                if depth - 1 == 0 {
                    assert(false);
                }
            }
        },
        _ => {},
    }
}

/// A float goes to the engine unchanged and comes back as an integer exactly
/// when it is whole and within the 64-bit range; otherwise it comes back as
/// the same float.
pub proof fn lemma_float_round_trip(bits: u64, v: EngineValue, back: HostTerm, depth: nat)
    requires
        encodes(HostTerm::Float(bits), v, depth),
        decodes(v, back, depth),
    ensures
        back == (match integer_value(fields_of(bits)) {
            Some(i) => HostTerm::Integer(i as i64),
            None => HostTerm::Float(bits),
        }),
{
}

} // verus!
