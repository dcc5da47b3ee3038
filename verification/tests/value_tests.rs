use hyperloglog::hash_util::hash_bytes;
use hyperloglog::hash_util::hash_value;
use hyperloglog::TypeError;
use hyperloglog::TypeId;
use hyperloglog::Value;
use hyperloglog::ValueData;

#[test]
fn new_rejects_mismatched_tag() {
    let r = Value::new(TypeId::TinyInt, ValueData::Bool(true));
    assert_eq!(r.unwrap_err(), TypeError::TypeMismatch);
    let r = Value::new(TypeId::Varchar, ValueData::Int64(3));
    assert_eq!(r.unwrap_err(), TypeError::TypeMismatch);
}

#[test]
fn new_accepts_matching_tag() {
    let v = Value::new(TypeId::TinyInt, ValueData::Int8(5)).unwrap();
    assert_eq!(v.get_type_id(), TypeId::TinyInt);
    assert_eq!(v.get_i8(), Ok(5));
    assert_eq!(v.get_i16(), Err(TypeError::TypeMismatch));
    assert_eq!(v.get_bool(), Err(TypeError::TypeMismatch));
}

#[test]
fn from_impls_pick_the_declared_variant() {
    assert_eq!(Value::from(-1i8).get_type_id(), TypeId::TinyInt);
    assert_eq!(Value::from(-1i16).get_type_id(), TypeId::SmallInt);
    assert_eq!(Value::from(-1i32).get_type_id(), TypeId::Integer);
    assert_eq!(Value::from(-1i64).get_type_id(), TypeId::BigInt);
    assert_eq!(Value::from(true).get_type_id(), TypeId::Boolean);
    assert_eq!(Value::from(7u64).get_type_id(), TypeId::Timestamp);
    assert_eq!(Value::from("abc".to_string()).get_type_id(), TypeId::Varchar);
}

#[test]
fn varchar_accessors_expose_bytes_and_length() {
    let v = Value::from("Andy".to_string());
    assert_eq!(v.get_data().unwrap(), b"Andy");
    assert_eq!(v.get_length(), Ok(4));
    assert_eq!(v.get_i64(), Err(TypeError::TypeMismatch));
    let w = Value::from(0i64);
    assert_eq!(w.get_data().unwrap_err(), TypeError::TypeMismatch);
    assert_eq!(w.get_length(), Err(TypeError::TypeMismatch));
}

#[test]
fn timestamp_and_decimal_accessors() {
    let t = Value::new(TypeId::Timestamp, ValueData::UInt64(1234567890)).unwrap();
    assert_eq!(t.get_u64(), Ok(1234567890));
    let bits = 0x400921FB54442D18u64;
    let d = Value::new(TypeId::Decimal, ValueData::Double(bits)).unwrap();
    assert_eq!(d.get_double_bits(), Ok(bits));
    assert_eq!(d.get_u64(), Err(TypeError::TypeMismatch));
}

// The rolling hash is length-seeded: the hash of the empty sequence is
// its length, 0.
#[test]
fn hash_of_empty_bytes_is_zero() {
    assert_eq!(hash_bytes(b""), 0);
}

// One exact value of the rolling hash, worked out by hand from the
// recurrence: state starts at the length 8, the byte 1 folds in first,
// and seven zero bytes shift-fold the state.
#[test]
fn hash_of_one_as_i64_exact() {
    let le_bytes_of_one = [1u8, 0, 0, 0, 0, 0, 0, 0];
    assert_eq!(hash_bytes(&le_bytes_of_one), 0x80800000808);
    assert_eq!(hash_value(&Value::from(1i64)), 0x80800000808);
}

// Equal typed values hash equal; the hash depends on the payload bytes.
#[test]
fn hash_is_deterministic_and_payload_driven() {
    let a = hash_value(&Value::from(15445i64));
    let b = hash_value(&Value::from(15445i64));
    assert_eq!(a, b);
    let c = hash_value(&Value::from(15645i64));
    assert_ne!(a, c);
    let s1 = hash_value(&Value::from("Andy".to_string()));
    let s2 = hash_value(&Value::from("Andy".to_string()));
    assert_eq!(s1, s2);
    assert_eq!(s1, hash_bytes(b"Andy"));
}

// A narrow integer is widened to 64 bits before hashing, so it hashes
// like the wide value with the same numeric meaning.
#[test]
fn narrow_integers_widen_before_hashing() {
    assert_eq!(
        hash_value(&Value::from(-27i8)),
        hash_value(&Value::from(-27i64))
    );
    assert_eq!(
        hash_value(&Value::from(200i16)),
        hash_value(&Value::from(200i64))
    );
    assert_eq!(
        hash_value(&Value::from(911i32)),
        hash_value(&Value::from(911i64))
    );
}
