//! Schema-typed tuples and the lexicographic order on them used as the key
//! order of the B+tree index pages.

use vstd::prelude::*;

use crate::scalar::{DataType, ScalarValue, Schema};

verus! {

/// Lexicographic order on value sequences, column by column, under the
/// total order on scalar values. A strict prefix sorts first.
pub open spec fn key_cmp(a: Seq<ScalarValue>, b: Seq<ScalarValue>) -> core::cmp::Ordering
    decreases a.len(),
{
    if a.len() == 0 && b.len() == 0 {
        core::cmp::Ordering::Equal
    } else if a.len() == 0 {
        core::cmp::Ordering::Less
    } else if b.len() == 0 {
        core::cmp::Ordering::Greater
    } else if a[0].spec_cmp(b[0]) != core::cmp::Ordering::Equal {
        a[0].spec_cmp(b[0])
    } else {
        key_cmp(a.skip(1), b.skip(1))
    }
}

/// Strict order derived from `key_cmp`.
pub open spec fn key_lt(a: Seq<ScalarValue>, b: Seq<ScalarValue>) -> bool {
    key_cmp(a, b) == core::cmp::Ordering::Less
}

/// Two keys compare equal exactly when they are the same sequence.
pub proof fn lemma_key_cmp_eq(a: Seq<ScalarValue>, b: Seq<ScalarValue>)
    ensures
        key_cmp(a, b) == core::cmp::Ordering::Equal <==> a == b,
    decreases a.len(),
{
    if a.len() == 0 && b.len() == 0 {
        assert(a =~= b);
    } else if a.len() == 0 || b.len() == 0 {
        if a == b {
            assert(a.len() == b.len());
        }
    } else {
        crate::scalar::lemma_sv_cmp_eq(a[0], b[0]);
        lemma_key_cmp_eq(a.skip(1), b.skip(1));
        if a[0] == b[0] && a.skip(1) == b.skip(1) {
            assert forall|i: int| 1 <= i < a.len() implies a[i] == b[i] by {
                assert(a.skip(1)[i - 1] == b.skip(1)[i - 1]);
            }
            assert(a =~= b);
        }
        if a == b {
            assert(a[0] == b[0]);
            assert(a.skip(1) =~= b.skip(1));
        }
    }
}

/// Flipping the arguments flips the order.
pub proof fn lemma_key_cmp_flip(a: Seq<ScalarValue>, b: Seq<ScalarValue>)
    ensures
        key_cmp(a, b) == core::cmp::Ordering::Less <==> key_cmp(b, a)
            == core::cmp::Ordering::Greater,
    decreases a.len(),
{
    if a.len() != 0 && b.len() != 0 {
        crate::scalar::lemma_sv_cmp_eq(a[0], b[0]);
        crate::scalar::lemma_sv_cmp_eq(b[0], a[0]);
        crate::scalar::lemma_sv_cmp_flip(a[0], b[0]);
        crate::scalar::lemma_sv_cmp_flip(b[0], a[0]);
        lemma_key_cmp_flip(a.skip(1), b.skip(1));
    }
}

/// The key order is transitive.
pub proof fn lemma_key_cmp_trans(a: Seq<ScalarValue>, b: Seq<ScalarValue>, c: Seq<ScalarValue>)
    requires
        key_lt(a, b),
        key_lt(b, c),
    ensures
        key_lt(a, c),
    decreases a.len(),
{
    if b.len() == 0 {
        // key_lt(b, c) forces b nonempty or c nonempty with b empty; then
        // key_lt(a, b) forces a empty, contradicting key_lt(a, b) != Equal.
        assert(a.len() == 0);
    } else if a.len() == 0 {
    } else {
        crate::scalar::lemma_sv_cmp_eq(a[0], b[0]);
        crate::scalar::lemma_sv_cmp_eq(b[0], c[0]);
        crate::scalar::lemma_sv_cmp_eq(a[0], c[0]);
        crate::scalar::lemma_sv_cmp_flip(a[0], c[0]);
        crate::scalar::lemma_sv_cmp_flip(b[0], c[0]);
        crate::scalar::lemma_sv_cmp_flip(a[0], b[0]);
        if a[0].spec_cmp(b[0]) == core::cmp::Ordering::Equal {
            if b[0].spec_cmp(c[0]) == core::cmp::Ordering::Equal {
                lemma_key_cmp_trans(a.skip(1), b.skip(1), c.skip(1));
            }
        } else if b[0].spec_cmp(c[0]) == core::cmp::Ordering::Equal {
        } else {
            crate::scalar::lemma_sv_cmp_trans(a[0], b[0], c[0]);
        }
    }
}

/// A relational tuple: the value of each column of its schema, in schema
/// order. The empty all-null tuple serves as the internal-page sentinel key.
#[derive(Clone, Debug)]
pub struct Tuple {
    pub schema: Schema,
    pub data: Vec<ScalarValue>,
}

impl Tuple {
    /// The tuple's values conform to the schema's column types.
    pub open spec fn conforms_to(&self, types: Seq<DataType>) -> bool {
        &&& self.data@.len() == types.len()
        &&& forall|i: int| 0 <= i < types.len() ==> self.data@[i].spec_data_type() == types[i]
    }

    pub fn new(schema: Schema, data: Vec<ScalarValue>) -> (r: Tuple)
        ensures
            r.data@ == data@,
            r.schema.types() == schema.types(),
    {
        Tuple { schema, data }
    }

    /// The all-null tuple of a schema: the smallest tuple in the key order.
    pub fn empty(schema: Schema) -> (r: Tuple)
        ensures
            r.data@.len() == schema.types().len(),
            forall|i: int| 0 <= i < r.data@.len() ==> (#[trigger] r.data@[i]).spec_is_null(),
            r.conforms_to(schema.types()),
            r.schema.types() == schema.types(),
    {
        let mut data: Vec<ScalarValue> = Vec::new();
        let mut i: usize = 0;
        let n = schema.column_count();
        while i < n
            invariant
                i <= n,
                n == schema.types().len(),
                data@.len() == i,
                forall|j: int| 0 <= j < i ==> (#[trigger] data@[j]).spec_is_null(),
                forall|j: int|
                    0 <= j < i ==> (#[trigger] data@[j]).spec_data_type() == schema.types()[j],
            decreases n - i,
        {
            data.push(ScalarValue::null_of(schema.column_type(i)));
            i = i + 1;
        }
        Tuple { schema, data }
    }

    /// True when every column is null, as the sentinel key is.
    pub fn is_null(&self) -> (r: bool)
        ensures
            r == forall|i: int| 0 <= i < self.data@.len() ==> (#[trigger] self.data@[i]).spec_is_null(),
    {
        let mut i: usize = 0;
        while i < self.data.len()
            invariant
                i <= self.data@.len(),
                forall|j: int| 0 <= j < i ==> (#[trigger] self.data@[j]).spec_is_null(),
            decreases self.data@.len() - i,
        {
            if !self.data[i].is_null() {
                return false;
            }
            i = i + 1;
        }
        true
    }

    /// A copy with the same values; written out because a derived clone
    /// says nothing to the verifier.
    pub fn duplicate(&self) -> (r: Tuple)
        ensures
            r.data@ == self.data@,
            r.schema.types() == self.schema.types(),
    {
        let mut data: Vec<ScalarValue> = Vec::new();
        let mut i: usize = 0;
        while i < self.data.len()
            invariant
                i <= self.data@.len(),
                data@ == self.data@.take(i as int),
            decreases self.data@.len() - i,
        {
            data.push(self.data[i]);
            proof {
                assert(data@ =~= self.data@.take(i as int + 1));
            }
            i = i + 1;
        }
        proof {
            assert(self.data@.take(self.data@.len() as int) =~= self.data@);
        }
        Tuple { schema: self.schema.duplicate(), data }
    }

    /// Column-wise lexicographic comparison under the key schema's order.
    pub fn compare(&self, other: &Tuple, _key_schema: &Schema) -> (r: core::cmp::Ordering)
        ensures
            r == key_cmp(self.data@, other.data@),
    {
        let mut i: usize = 0;
        let a_len = self.data.len();
        let b_len = other.data.len();
        proof {
            assert(self.data@.skip(0) =~= self.data@);
            assert(other.data@.skip(0) =~= other.data@);
        }
        loop
            invariant
                i <= a_len,
                i <= b_len,
                a_len == self.data@.len(),
                b_len == other.data@.len(),
                key_cmp(self.data@, other.data@) == key_cmp(
                    self.data@.skip(i as int),
                    other.data@.skip(i as int),
                ),
            decreases a_len - i,
        {
            if i == a_len && i == b_len {
                return core::cmp::Ordering::Equal;
            }
            if i == a_len {
                return core::cmp::Ordering::Less;
            }
            if i == b_len {
                return core::cmp::Ordering::Greater;
            }
            let c = self.data[i].compare_value(&other.data[i]);
            if !matches!(c, core::cmp::Ordering::Equal) {
                proof {
                    assert(self.data@.skip(i as int)[0] == self.data@[i as int]);
                    assert(other.data@.skip(i as int)[0] == other.data@[i as int]);
                }
                return c;
            }
            proof {
                assert(self.data@.skip(i as int).skip(1) =~= self.data@.skip(i as int + 1));
                assert(other.data@.skip(i as int).skip(1) =~= other.data@.skip(i as int + 1));
                assert(self.data@.skip(i as int)[0] == self.data@[i as int]);
                assert(other.data@.skip(i as int)[0] == other.data@[i as int]);
            }
            i = i + 1;
        }
    }
}

} // verus!
