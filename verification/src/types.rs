use vstd::prelude::*;

verus! {

/// Generic type identifier for the typed-value system: the declared type
/// of a key, as the estimator's hash adapter dispatches on it.
#[derive(Debug, Clone, Copy, PartialEq, Eq, Structural)]
pub enum TypeId {
    TinyInt,
    SmallInt,
    Integer,
    BigInt,
    Boolean,
    Decimal,
    Varchar,
    Timestamp,
}

/// Internal representation of a key's payload. The `Decimal` variant holds
/// the IEEE-754 bit pattern of a 64-bit floating-point number, so that the
/// payload is a plain fixed-width integer.
#[derive(Debug)]
pub enum ValueData {
    Int8(i8),
    Int16(i16),
    Int32(i32),
    Int64(i64),
    Bool(bool),
    Double(u64),
    Varchar(String),
    UInt64(u64),
}

/// Error of the typed-value boundary: an accessor was asked for a variant
/// other than the one the value holds.
#[derive(Debug, Clone, Copy, PartialEq, Eq, Structural)]
pub enum TypeError {
    TypeMismatch,
}

/// Whether a type tag names the variant that a payload actually is.
pub open spec fn tag_matches_data(type_id: TypeId, data: ValueData) -> bool {
    match data {
        ValueData::Int8(_) => type_id == TypeId::TinyInt,
        ValueData::Int16(_) => type_id == TypeId::SmallInt,
        ValueData::Int32(_) => type_id == TypeId::Integer,
        ValueData::Int64(_) => type_id == TypeId::BigInt,
        ValueData::Bool(_) => type_id == TypeId::Boolean,
        ValueData::Double(_) => type_id == TypeId::Decimal,
        ValueData::Varchar(_) => type_id == TypeId::Varchar,
        ValueData::UInt64(_) => type_id == TypeId::Timestamp,
    }
}

/// A typed value: a payload together with the type tag it was declared
/// with. The tag always matches the payload's variant; a mismatched pair
/// cannot be constructed.
#[derive(Debug)]
pub struct Value {
    type_id: TypeId,
    data: ValueData,
}

/// The value with the given tag and payload, for speaking of a `Value`
/// in contracts without reaching into its private fields.
pub closed spec fn spec_value(type_id: TypeId, data: ValueData) -> Value {
    Value { type_id, data }
}

/// What `spec_value` builds: the tag and the payload are the ones given.
pub broadcast proof fn lemma_spec_value(type_id: TypeId, data: ValueData)
    ensures
        (#[trigger] spec_value(type_id, data)).spec_type_id() == type_id,
        spec_value(type_id, data).spec_data() == data,
{
}

impl Value {
    /// The tag/payload consistency that every `Value` carries.
    #[verifier::type_invariant]
    pub closed spec fn wf(self) -> bool {
        tag_matches_data(self.type_id, self.data)
    }

    /// What consistency means: the tag names the payload's variant.
    pub proof fn lemma_wf_meaning(self)
        requires
            self.wf(),
        ensures
            tag_matches_data(self.spec_type_id(), self.spec_data()),
    {
    }

    /// The type tag of this value.
    pub closed spec fn spec_type_id(self) -> TypeId {
        self.type_id
    }

    /// The payload of this value.
    pub closed spec fn spec_data(self) -> ValueData {
        self.data
    }

    /// The declared conversion of a key type into a typed value, as a spec
    /// expression: the tag/payload pair that `From` builds for it.
    pub open spec fn spec_from<KeyType>(val: KeyType) -> Value where Value: From<KeyType> {
        <Value as vstd::std_specs::convert::FromSpec<KeyType>>::from_spec(val)
    }

    /// Builds a value from a tag and a payload; rejects a pair whose tag
    /// does not name the payload's variant, instead of coercing it.
    pub fn new(type_id: TypeId, data: ValueData) -> (r: Result<Value, TypeError>)
        ensures
            tag_matches_data(type_id, data) ==> r === Ok(spec_value(type_id, data)),
            !tag_matches_data(type_id, data) ==> r === Err(TypeError::TypeMismatch),
    {
        let ok = match (&type_id, &data) {
            (TypeId::TinyInt, ValueData::Int8(_)) => true,
            (TypeId::SmallInt, ValueData::Int16(_)) => true,
            (TypeId::Integer, ValueData::Int32(_)) => true,
            (TypeId::BigInt, ValueData::Int64(_)) => true,
            (TypeId::Boolean, ValueData::Bool(_)) => true,
            (TypeId::Decimal, ValueData::Double(_)) => true,
            (TypeId::Varchar, ValueData::Varchar(_)) => true,
            (TypeId::Timestamp, ValueData::UInt64(_)) => true,
            _ => false,
        };
        if ok {
            Ok(Value { type_id, data })
        } else {
            Err(TypeError::TypeMismatch)
        }
    }

    /// The type tag, for dispatching on the variant.
    pub fn get_type_id(&self) -> (r: TypeId)
        ensures
            r == self.spec_type_id(),
    {
        self.type_id
    }

    /// The 8-bit integer payload, or a mismatch error for any other variant.
    pub fn get_i8(&self) -> (r: Result<i8, TypeError>)
        ensures
            r == (match self.spec_data() {
                ValueData::Int8(v) => Ok::<i8, TypeError>(v),
                _ => Err::<i8, TypeError>(TypeError::TypeMismatch),
            }),
    {
        match &self.data {
            ValueData::Int8(v) => Ok(*v),
            _ => Err(TypeError::TypeMismatch),
        }
    }

    /// The 16-bit integer payload, or a mismatch error for any other variant.
    pub fn get_i16(&self) -> (r: Result<i16, TypeError>)
        ensures
            r == (match self.spec_data() {
                ValueData::Int16(v) => Ok::<i16, TypeError>(v),
                _ => Err::<i16, TypeError>(TypeError::TypeMismatch),
            }),
    {
        match &self.data {
            ValueData::Int16(v) => Ok(*v),
            _ => Err(TypeError::TypeMismatch),
        }
    }

    /// The 32-bit integer payload, or a mismatch error for any other variant.
    pub fn get_i32(&self) -> (r: Result<i32, TypeError>)
        ensures
            r == (match self.spec_data() {
                ValueData::Int32(v) => Ok::<i32, TypeError>(v),
                _ => Err::<i32, TypeError>(TypeError::TypeMismatch),
            }),
    {
        match &self.data {
            ValueData::Int32(v) => Ok(*v),
            _ => Err(TypeError::TypeMismatch),
        }
    }

    /// The 64-bit integer payload, or a mismatch error for any other variant.
    pub fn get_i64(&self) -> (r: Result<i64, TypeError>)
        ensures
            r == (match self.spec_data() {
                ValueData::Int64(v) => Ok::<i64, TypeError>(v),
                _ => Err::<i64, TypeError>(TypeError::TypeMismatch),
            }),
    {
        match &self.data {
            ValueData::Int64(v) => Ok(*v),
            _ => Err(TypeError::TypeMismatch),
        }
    }

    /// The boolean payload, or a mismatch error for any other variant.
    pub fn get_bool(&self) -> (r: Result<bool, TypeError>)
        ensures
            r == (match self.spec_data() {
                ValueData::Bool(v) => Ok::<bool, TypeError>(v),
                _ => Err::<bool, TypeError>(TypeError::TypeMismatch),
            }),
    {
        match &self.data {
            ValueData::Bool(v) => Ok(*v),
            _ => Err(TypeError::TypeMismatch),
        }
    }

    /// The bit pattern of the 64-bit floating-point payload, or a mismatch
    /// error for any other variant.
    pub fn get_double_bits(&self) -> (r: Result<u64, TypeError>)
        ensures
            r == (match self.spec_data() {
                ValueData::Double(v) => Ok::<u64, TypeError>(v),
                _ => Err::<u64, TypeError>(TypeError::TypeMismatch),
            }),
    {
        match &self.data {
            ValueData::Double(v) => Ok(*v),
            _ => Err(TypeError::TypeMismatch),
        }
    }

    /// The 64-bit unsigned timestamp payload, or a mismatch error for any
    /// other variant.
    pub fn get_u64(&self) -> (r: Result<u64, TypeError>)
        ensures
            r == (match self.spec_data() {
                ValueData::UInt64(v) => Ok::<u64, TypeError>(v),
                _ => Err::<u64, TypeError>(TypeError::TypeMismatch),
            }),
    {
        match &self.data {
            ValueData::UInt64(v) => Ok(*v),
            _ => Err(TypeError::TypeMismatch),
        }
    }

    /// The raw byte sequence of the string payload, or a mismatch error for
    /// any other variant.
    pub fn get_data(&self) -> (r: Result<&[u8], TypeError>)
        ensures
            r matches Ok(b) ==> (self.spec_data() matches ValueData::Varchar(s) && b@
                == vstd::utf8::encode_utf8(s@)),
            r is Err <==> !(self.spec_data() is Varchar),
            r is Err ==> r === Err(TypeError::TypeMismatch),
    {
        match &self.data {
            ValueData::Varchar(s) => Ok(s.as_str().as_bytes()),
            _ => Err(TypeError::TypeMismatch),
        }
    }

    /// The byte length of the string payload, or a mismatch error for any
    /// other variant.
    pub fn get_length(&self) -> (r: Result<usize, TypeError>)
        ensures
            r == (match self.spec_data() {
                ValueData::Varchar(s) => Ok::<usize, TypeError>(
                    vstd::utf8::encode_utf8(s@).len() as usize,
                ),
                _ => Err::<usize, TypeError>(TypeError::TypeMismatch),
            }),
    {
        match &self.data {
            ValueData::Varchar(s) => Ok(s.as_str().len()),
            _ => Err(TypeError::TypeMismatch),
        }
    }
}

impl From<i8> for Value {
    fn from(v: i8) -> (r: Value) {
        Value { type_id: TypeId::TinyInt, data: ValueData::Int8(v) }
    }
}

impl vstd::std_specs::convert::FromSpecImpl<i8> for Value {
    open spec fn obeys_from_spec() -> bool {
        true
    }

    open spec fn from_spec(v: i8) -> Value {
        spec_value(TypeId::TinyInt, ValueData::Int8(v))
    }
}

impl From<i16> for Value {
    fn from(v: i16) -> (r: Value) {
        Value { type_id: TypeId::SmallInt, data: ValueData::Int16(v) }
    }
}

impl vstd::std_specs::convert::FromSpecImpl<i16> for Value {
    open spec fn obeys_from_spec() -> bool {
        true
    }

    open spec fn from_spec(v: i16) -> Value {
        spec_value(TypeId::SmallInt, ValueData::Int16(v))
    }
}

impl From<i32> for Value {
    fn from(v: i32) -> (r: Value) {
        Value { type_id: TypeId::Integer, data: ValueData::Int32(v) }
    }
}

impl vstd::std_specs::convert::FromSpecImpl<i32> for Value {
    open spec fn obeys_from_spec() -> bool {
        true
    }

    open spec fn from_spec(v: i32) -> Value {
        spec_value(TypeId::Integer, ValueData::Int32(v))
    }
}

impl From<i64> for Value {
    fn from(v: i64) -> (r: Value) {
        Value { type_id: TypeId::BigInt, data: ValueData::Int64(v) }
    }
}

impl vstd::std_specs::convert::FromSpecImpl<i64> for Value {
    open spec fn obeys_from_spec() -> bool {
        true
    }

    open spec fn from_spec(v: i64) -> Value {
        spec_value(TypeId::BigInt, ValueData::Int64(v))
    }
}

impl From<bool> for Value {
    fn from(v: bool) -> (r: Value) {
        Value { type_id: TypeId::Boolean, data: ValueData::Bool(v) }
    }
}

impl vstd::std_specs::convert::FromSpecImpl<bool> for Value {
    open spec fn obeys_from_spec() -> bool {
        true
    }

    open spec fn from_spec(v: bool) -> Value {
        spec_value(TypeId::Boolean, ValueData::Bool(v))
    }
}

impl From<u64> for Value {
    fn from(v: u64) -> (r: Value) {
        Value { type_id: TypeId::Timestamp, data: ValueData::UInt64(v) }
    }
}

impl vstd::std_specs::convert::FromSpecImpl<u64> for Value {
    open spec fn obeys_from_spec() -> bool {
        true
    }

    open spec fn from_spec(v: u64) -> Value {
        spec_value(TypeId::Timestamp, ValueData::UInt64(v))
    }
}

impl From<String> for Value {
    fn from(v: String) -> (r: Value) {
        Value { type_id: TypeId::Varchar, data: ValueData::Varchar(v) }
    }
}

impl vstd::std_specs::convert::FromSpecImpl<String> for Value {
    open spec fn obeys_from_spec() -> bool {
        true
    }

    open spec fn from_spec(v: String) -> Value {
        spec_value(TypeId::Varchar, ValueData::Varchar(v))
    }
}

} // verus!
