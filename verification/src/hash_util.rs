use vstd::prelude::*;

use crate::types::Value;
use crate::types::ValueData;

verus! {

/// One step of the rolling hash: shift-fold the running state and mix in
/// one byte.
pub open spec fn spec_hash_step(h: u64, byte: u8) -> u64 {
    ((h << 5u64) ^ (h >> 27u64)) ^ (byte as u64)
}

/// The rolling hash state after folding a whole byte sequence, in order,
/// into the running state `h`.
pub open spec fn spec_hash_fold(h: u64, bytes: Seq<u8>) -> u64
    decreases bytes.len(),
{
    if bytes.len() == 0 {
        h
    } else {
        spec_hash_fold(spec_hash_step(h, bytes[0]), bytes.drop_first())
    }
}

/// The length-seeded rolling hash of a byte sequence: the state starts at
/// the byte length and each byte folds in via `spec_hash_step`.
pub open spec fn spec_hash_bytes(bytes: Seq<u8>) -> u64 {
    spec_hash_fold(bytes.len() as u64, bytes)
}

/// The fixed-width little-endian byte serialization over which a payload
/// is hashed. Narrow integers widen to 64-bit first; a boolean is one
/// byte; a string contributes its raw bytes.
pub open spec fn spec_value_bytes(data: ValueData) -> Seq<u8> {
    match data {
        ValueData::Int8(v) => vstd::bytes::spec_u64_to_le_bytes((v as i64) as u64),
        ValueData::Int16(v) => vstd::bytes::spec_u64_to_le_bytes((v as i64) as u64),
        ValueData::Int32(v) => vstd::bytes::spec_u64_to_le_bytes((v as i64) as u64),
        ValueData::Int64(v) => vstd::bytes::spec_u64_to_le_bytes(v as u64),
        ValueData::Bool(v) => seq![if v { 1u8 } else { 0u8 }],
        ValueData::Double(bits) => vstd::bytes::spec_u64_to_le_bytes(bits),
        ValueData::Varchar(s) => vstd::utf8::encode_utf8(s@),
        ValueData::UInt64(v) => vstd::bytes::spec_u64_to_le_bytes(v),
    }
}

/// The canonical 64-bit hash of a typed value: the rolling hash of its
/// payload's byte serialization. Equal payloads always hash equal.
pub open spec fn spec_value_hash(v: Value) -> u64 {
    spec_hash_bytes(spec_value_bytes(v.spec_data()))
}

/// The length-seeded rolling hash of a byte sequence.
pub fn hash_bytes(bytes: &[u8]) -> (h: u64)
    ensures
        h == spec_hash_bytes(bytes@),
{
    let mut h: u64 = bytes.len() as u64;
    let ghost seed: u64 = h;
    let mut i: usize = 0;
    proof {
        assert(bytes@.skip(0) =~= bytes@);
    }
    while i < bytes.len()
        invariant
            i <= bytes@.len(),
            seed == bytes@.len() as u64,
            spec_hash_fold(seed, bytes@) == spec_hash_fold(h, bytes@.skip(i as int)),
        decreases bytes@.len() - i,
    {
        let byte = bytes[i];
        proof {
            assert(bytes@.skip(i as int).drop_first() =~= bytes@.skip(i as int + 1));
            assert(bytes@.skip(i as int)[0] == byte);
        }
        h = ((h << 5u64) ^ (h >> 27u64)) ^ (byte as u64);
        i = i + 1;
    }
    proof {
        assert(bytes@.skip(i as int) =~= Seq::<u8>::empty());
    }
    h
}

/// Hashes a typed value by dispatching on its type tag and serializing
/// the matching payload.
pub fn hash_value(val: &Value) -> (h: u64)
    ensures
        h == spec_value_hash(*val),
{
    proof {
        use_type_invariant(val);
        val.lemma_wf_meaning();
    }
    match val.get_type_id() {
        crate::types::TypeId::TinyInt => {
            let raw = match val.get_i8() {
                Ok(v) => v,
                Err(_) => unreached(),
            };
            let bytes = vstd::bytes::u64_to_le_bytes((raw as i64) as u64);
            hash_bytes(bytes.as_slice())
        },
        crate::types::TypeId::SmallInt => {
            let raw = match val.get_i16() {
                Ok(v) => v,
                Err(_) => unreached(),
            };
            let bytes = vstd::bytes::u64_to_le_bytes((raw as i64) as u64);
            hash_bytes(bytes.as_slice())
        },
        crate::types::TypeId::Integer => {
            let raw = match val.get_i32() {
                Ok(v) => v,
                Err(_) => unreached(),
            };
            let bytes = vstd::bytes::u64_to_le_bytes((raw as i64) as u64);
            hash_bytes(bytes.as_slice())
        },
        crate::types::TypeId::BigInt => {
            let raw = match val.get_i64() {
                Ok(v) => v,
                Err(_) => unreached(),
            };
            let bytes = vstd::bytes::u64_to_le_bytes(raw as u64);
            hash_bytes(bytes.as_slice())
        },
        crate::types::TypeId::Boolean => {
            let raw = match val.get_bool() {
                Ok(v) => v,
                Err(_) => unreached(),
            };
            let mut bytes: Vec<u8> = Vec::new();
            bytes.push(if raw {
                1u8
            } else {
                0u8
            });
            proof {
                assert(bytes@ =~= spec_value_bytes(val.spec_data()));
            }
            hash_bytes(bytes.as_slice())
        },
        crate::types::TypeId::Decimal => {
            let raw = match val.get_double_bits() {
                Ok(v) => v,
                Err(_) => unreached(),
            };
            let bytes = vstd::bytes::u64_to_le_bytes(raw);
            hash_bytes(bytes.as_slice())
        },
        crate::types::TypeId::Varchar => {
            let raw = match val.get_data() {
                Ok(v) => v,
                Err(_) => unreached(),
            };
            hash_bytes(raw)
        },
        crate::types::TypeId::Timestamp => {
            let raw = match val.get_u64() {
                Ok(v) => v,
                Err(_) => unreached(),
            };
            let bytes = vstd::bytes::u64_to_le_bytes(raw);
            hash_bytes(bytes.as_slice())
        },
    }
}

} // verus!
