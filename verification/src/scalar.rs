//! Typed scalar values, columns and schemas, and the total order on scalar
//! values used by the index pages: a null sorts before every non-null value,
//! and values of one type compare by their numeric value.

use vstd::prelude::*;

verus! {

/// Column type of a schema; every type has a fixed-width encoding.
#[derive(Clone, Copy, Debug, PartialEq, Eq, Structural)]
pub enum DataType {
    Int8,
    Int16,
    Int32,
    Int64,
    Boolean,
}

impl DataType {
    /// Width in bytes of the value part of the encoding (the null flag
    /// adds one more byte).
    pub open spec fn width(self) -> nat {
        match self {
            DataType::Int8 => 1,
            DataType::Int16 => 2,
            DataType::Int32 => 4,
            DataType::Int64 => 8,
            DataType::Boolean => 1,
        }
    }

    pub fn value_width(self) -> (w: usize)
        ensures
            w == self.width(),
    {
        match self {
            DataType::Int8 => 1,
            DataType::Int16 => 2,
            DataType::Int32 => 4,
            DataType::Int64 => 8,
            DataType::Boolean => 1,
        }
    }
}

/// A nullable scalar value; `None` is the SQL null of that type.
#[derive(Clone, Copy, Debug, PartialEq, Eq)]
pub enum ScalarValue {
    Int8(Option<i8>),
    Int16(Option<i16>),
    Int32(Option<i32>),
    Int64(Option<i64>),
    Boolean(Option<bool>),
}

impl ScalarValue {
    /// The type this value belongs to.
    pub open spec fn spec_data_type(self) -> DataType {
        match self {
            ScalarValue::Int8(_) => DataType::Int8,
            ScalarValue::Int16(_) => DataType::Int16,
            ScalarValue::Int32(_) => DataType::Int32,
            ScalarValue::Int64(_) => DataType::Int64,
            ScalarValue::Boolean(_) => DataType::Boolean,
        }
    }

    pub open spec fn spec_is_null(self) -> bool {
        match self {
            ScalarValue::Int8(v) => v is None,
            ScalarValue::Int16(v) => v is None,
            ScalarValue::Int32(v) => v is None,
            ScalarValue::Int64(v) => v is None,
            ScalarValue::Boolean(v) => v is None,
        }
    }

    /// The mathematical value carried, for a non-null value.
    pub open spec fn spec_value(self) -> int {
        match self {
            ScalarValue::Int8(v) => v->0 as int,
            ScalarValue::Int16(v) => v->0 as int,
            ScalarValue::Int32(v) => v->0 as int,
            ScalarValue::Int64(v) => v->0 as int,
            ScalarValue::Boolean(v) => if v->0 { 1int } else { 0int },
        }
    }

    /// Position of the type in the declaration order; breaks ties between
    /// values of different types so that the order is total.
    pub open spec fn spec_tag(self) -> int {
        match self.spec_data_type() {
            DataType::Int8 => 0,
            DataType::Int16 => 1,
            DataType::Int32 => 2,
            DataType::Int64 => 3,
            DataType::Boolean => 4,
        }
    }

    /// The null of a given type.
    pub fn null_of(data_type: DataType) -> (r: ScalarValue)
        ensures
            r.spec_is_null(),
            r.spec_data_type() == data_type,
    {
        match data_type {
            DataType::Int8 => ScalarValue::Int8(None),
            DataType::Int16 => ScalarValue::Int16(None),
            DataType::Int32 => ScalarValue::Int32(None),
            DataType::Int64 => ScalarValue::Int64(None),
            DataType::Boolean => ScalarValue::Boolean(None),
        }
    }

    pub fn is_null(&self) -> (r: bool)
        ensures
            r == self.spec_is_null(),
    {
        match self {
            ScalarValue::Int8(v) => v.is_none(),
            ScalarValue::Int16(v) => v.is_none(),
            ScalarValue::Int32(v) => v.is_none(),
            ScalarValue::Int64(v) => v.is_none(),
            ScalarValue::Boolean(v) => v.is_none(),
        }
    }

    fn tag(&self) -> (t: u8)
        ensures
            t as int == self.spec_tag(),
    {
        match self {
            ScalarValue::Int8(_) => 0,
            ScalarValue::Int16(_) => 1,
            ScalarValue::Int32(_) => 2,
            ScalarValue::Int64(_) => 3,
            ScalarValue::Boolean(_) => 4,
        }
    }

    fn value_as_i64(&self) -> (v: i64)
        requires
            !self.spec_is_null(),
        ensures
            v as int == self.spec_value(),
    {
        match self {
            ScalarValue::Int8(v) => v.unwrap() as i64,
            ScalarValue::Int16(v) => v.unwrap() as i64,
            ScalarValue::Int32(v) => v.unwrap() as i64,
            ScalarValue::Int64(v) => v.unwrap(),
            ScalarValue::Boolean(v) => if v.unwrap() { 1 } else { 0 },
        }
    }

    /// Total order on scalar values: nulls first (by type), then by type,
    /// then by value. On two values of one type this is the SQL order with
    /// null below every value.
    pub open spec fn spec_cmp(self, other: ScalarValue) -> core::cmp::Ordering {
        if self.spec_is_null() && !other.spec_is_null() {
            core::cmp::Ordering::Less
        } else if !self.spec_is_null() && other.spec_is_null() {
            core::cmp::Ordering::Greater
        } else if self.spec_tag() != other.spec_tag() {
            spec_int_cmp(self.spec_tag(), other.spec_tag())
        } else if self.spec_is_null() {
            core::cmp::Ordering::Equal
        } else {
            spec_int_cmp(self.spec_value(), other.spec_value())
        }
    }

    pub fn compare_value(&self, other: &ScalarValue) -> (r: core::cmp::Ordering)
        ensures
            r == self.spec_cmp(*other),
    {
        let self_null = self.is_null();
        let other_null = other.is_null();
        if self_null && !other_null {
            core::cmp::Ordering::Less
        } else if !self_null && other_null {
            core::cmp::Ordering::Greater
        } else {
            let st = self.tag();
            let ot = other.tag();
            if st != ot {
                if st < ot {
                    core::cmp::Ordering::Less
                } else {
                    core::cmp::Ordering::Greater
                }
            } else if self_null {
                core::cmp::Ordering::Equal
            } else {
                let sv = self.value_as_i64();
                let ov = other.value_as_i64();
                if sv < ov {
                    core::cmp::Ordering::Less
                } else if sv == ov {
                    core::cmp::Ordering::Equal
                } else {
                    core::cmp::Ordering::Greater
                }
            }
        }
    }
}

/// Order of two mathematical integers as an `Ordering`.
pub open spec fn spec_int_cmp(a: int, b: int) -> core::cmp::Ordering {
    if a < b {
        core::cmp::Ordering::Less
    } else if a == b {
        core::cmp::Ordering::Equal
    } else {
        core::cmp::Ordering::Greater
    }
}

/// Two scalar values compare equal exactly when they are the same value.
pub proof fn lemma_sv_cmp_eq(a: ScalarValue, b: ScalarValue)
    ensures
        a.spec_cmp(b) == core::cmp::Ordering::Equal <==> a == b,
{
}

/// Flipping the arguments flips the order.
pub proof fn lemma_sv_cmp_flip(a: ScalarValue, b: ScalarValue)
    ensures
        a.spec_cmp(b) == core::cmp::Ordering::Less <==> b.spec_cmp(a)
            == core::cmp::Ordering::Greater,
{
}

/// The order on scalar values is transitive.
pub proof fn lemma_sv_cmp_trans(a: ScalarValue, b: ScalarValue, c: ScalarValue)
    requires
        a.spec_cmp(b) == core::cmp::Ordering::Less,
        b.spec_cmp(c) == core::cmp::Ordering::Less,
    ensures
        a.spec_cmp(c) == core::cmp::Ordering::Less,
{
}

impl From<i8> for ScalarValue {
    fn from(v: i8) -> (r: ScalarValue) {
        ScalarValue::Int8(Some(v))
    }
}

impl vstd::std_specs::convert::FromSpecImpl<i8> for ScalarValue {
    open spec fn obeys_from_spec() -> bool {
        true
    }

    open spec fn from_spec(v: i8) -> ScalarValue {
        ScalarValue::Int8(Some(v))
    }
}

impl From<i16> for ScalarValue {
    fn from(v: i16) -> (r: ScalarValue) {
        ScalarValue::Int16(Some(v))
    }
}

impl vstd::std_specs::convert::FromSpecImpl<i16> for ScalarValue {
    open spec fn obeys_from_spec() -> bool {
        true
    }

    open spec fn from_spec(v: i16) -> ScalarValue {
        ScalarValue::Int16(Some(v))
    }
}

impl From<i32> for ScalarValue {
    fn from(v: i32) -> (r: ScalarValue) {
        ScalarValue::Int32(Some(v))
    }
}

impl vstd::std_specs::convert::FromSpecImpl<i32> for ScalarValue {
    open spec fn obeys_from_spec() -> bool {
        true
    }

    open spec fn from_spec(v: i32) -> ScalarValue {
        ScalarValue::Int32(Some(v))
    }
}

impl From<i64> for ScalarValue {
    fn from(v: i64) -> (r: ScalarValue) {
        ScalarValue::Int64(Some(v))
    }
}

impl vstd::std_specs::convert::FromSpecImpl<i64> for ScalarValue {
    open spec fn obeys_from_spec() -> bool {
        true
    }

    open spec fn from_spec(v: i64) -> ScalarValue {
        ScalarValue::Int64(Some(v))
    }
}

impl From<bool> for ScalarValue {
    fn from(v: bool) -> (r: ScalarValue) {
        ScalarValue::Boolean(Some(v))
    }
}

impl vstd::std_specs::convert::FromSpecImpl<bool> for ScalarValue {
    open spec fn obeys_from_spec() -> bool {
        true
    }

    open spec fn from_spec(v: bool) -> ScalarValue {
        ScalarValue::Boolean(Some(v))
    }
}

/// A named, typed, nullable column of a schema.
#[derive(Clone, Debug)]
pub struct Column {
    pub name: String,
    pub data_type: DataType,
    pub nullable: bool,
}

impl Column {
    pub fn new(name: String, data_type: DataType, nullable: bool) -> (r: Column)
        ensures
            r.name@ == name@,
            r.data_type == data_type,
            r.nullable == nullable,
    {
        Column { name, data_type, nullable }
    }

    /// A copy whose fields are the same values; written out because a
    /// derived clone says nothing to the verifier.
    pub fn duplicate(&self) -> (r: Column)
        ensures
            r.name@ == self.name@,
            r.data_type == self.data_type,
            r.nullable == self.nullable,
    {
        Column { name: self.name.clone(), data_type: self.data_type, nullable: self.nullable }
    }
}

/// An ordered sequence of typed, nullable columns.
#[derive(Clone, Debug)]
pub struct Schema {
    pub columns: Vec<Column>,
}

impl Schema {
    /// The column types in order: all the storage core reads of a schema.
    pub open spec fn types(&self) -> Seq<DataType> {
        self.columns@.map_values(|c: Column| c.data_type)
    }

    pub fn new(columns: Vec<Column>) -> (r: Schema)
        ensures
            r.columns@ == columns@,
    {
        Schema { columns }
    }

    pub fn column_count(&self) -> (n: usize)
        ensures
            n == self.types().len(),
    {
        self.columns.len()
    }

    pub fn column_type(&self, i: usize) -> (t: DataType)
        requires
            i < self.types().len(),
        ensures
            t == self.types()[i as int],
    {
        self.columns[i].data_type
    }

    /// A copy with the same column types; written out because a derived
    /// clone says nothing to the verifier.
    pub fn duplicate(&self) -> (r: Schema)
        ensures
            r.types() == self.types(),
    {
        let mut columns: Vec<Column> = Vec::new();
        let mut i: usize = 0;
        while i < self.columns.len()
            invariant
                i <= self.columns.len(),
                columns@.len() == i,
                forall|j: int|
                    0 <= j < i ==> columns@[j].data_type == self.columns@[j].data_type,
            decreases self.columns.len() - i,
        {
            columns.push(self.columns[i].duplicate());
            i = i + 1;
        }
        let r = Schema { columns };
        proof {
            assert(r.types() =~= self.types());
        }
        r
    }
}

} // verus!
