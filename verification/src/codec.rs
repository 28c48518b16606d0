//! Byte-exact codecs: big-endian fixed-width integers, and the nullable
//! scalar and tuple encodings used on disk. Every encoder has a matching
//! decoder and the round trip is proved exact.

use vstd::prelude::*;

use crate::scalar::{DataType, ScalarValue, Schema};
use crate::tuple::Tuple;

verus! {

/// The two big-endian bytes of a 16-bit value.
pub open spec fn spec_u16_be(x: u16) -> Seq<u8> {
    seq![(x / 256) as u8, (x % 256) as u8]
}

/// The four big-endian bytes of a 32-bit value.
pub open spec fn spec_u32_be(x: u32) -> Seq<u8> {
    seq![
        (x / 0x100_0000) as u8,
        ((x / 0x1_0000) % 256) as u8,
        ((x / 256) % 256) as u8,
        (x % 256) as u8,
    ]
}

/// The value read back from two big-endian bytes.
pub open spec fn be16(b: Seq<u8>) -> int {
    b[0] * 256 + b[1]
}

/// The value read back from four big-endian bytes.
pub open spec fn be32(b: Seq<u8>) -> int {
    b[0] * 0x100_0000 + b[1] * 0x1_0000 + b[2] * 256 + b[3]
}

/// Decoding the encoding gives the value back.
pub proof fn lemma_u16_be_round_trip(x: u16)
    ensures
        be16(spec_u16_be(x)) == x,
{
}

/// Decoding the encoding gives the value back.
pub proof fn lemma_u32_be_round_trip(x: u32)
    ensures
        be32(spec_u32_be(x)) == x,
{
}

/// Append the two big-endian bytes of `x`.
pub fn push_u16_be(out: &mut Vec<u8>, x: u16)
    ensures
        final(out)@ == old(out)@ + spec_u16_be(x),
{
    out.push((x / 256) as u8);
    out.push((x % 256) as u8);
    proof {
        assert(out@ =~= old(out)@ + spec_u16_be(x));
    }
}

/// Append the four big-endian bytes of `x`.
pub fn push_u32_be(out: &mut Vec<u8>, x: u32)
    ensures
        final(out)@ == old(out)@ + spec_u32_be(x),
{
    out.push((x / 0x100_0000) as u8);
    out.push(((x / 0x1_0000) % 256) as u8);
    out.push(((x / 256) % 256) as u8);
    out.push((x % 256) as u8);
    proof {
        assert(out@ =~= old(out)@ + spec_u32_be(x));
    }
}

/// Read a 16-bit big-endian value at `off`.
pub fn read_u16_be(data: &[u8], off: usize) -> (r: u16)
    requires
        off + 2 <= data@.len(),
    ensures
        r == be16(data@.subrange(off as int, off as int + 2)),
{
    let r = data[off] as u16 * 256 + data[off + 1] as u16;
    proof {
        let s = data@.subrange(off as int, off as int + 2);
        assert(s[0] == data@[off as int]);
        assert(s[1] == data@[off as int + 1]);
    }
    r
}

/// The eight big-endian bytes of a 64-bit value.
pub open spec fn spec_u64_be(x: u64) -> Seq<u8> {
    seq![
        (x / 0x100_0000_0000_0000) as u8,
        ((x / 0x1_0000_0000_0000) % 256) as u8,
        ((x / 0x100_0000_0000) % 256) as u8,
        ((x / 0x1_0000_0000) % 256) as u8,
        ((x / 0x100_0000) % 256) as u8,
        ((x / 0x1_0000) % 256) as u8,
        ((x / 256) % 256) as u8,
        (x % 256) as u8,
    ]
}

/// The value read back from eight big-endian bytes.
pub open spec fn be64(b: Seq<u8>) -> int {
    b[0] * 0x100_0000_0000_0000 + b[1] * 0x1_0000_0000_0000 + b[2] * 0x100_0000_0000 + b[3]
        * 0x1_0000_0000 + b[4] * 0x100_0000 + b[5] * 0x1_0000 + b[6] * 256 + b[7]
}

/// Decoding the encoding gives the value back.
pub proof fn lemma_u64_be_round_trip(x: u64)
    ensures
        be64(spec_u64_be(x)) == x,
{
    let v = x as int;
    vstd::arithmetic::div_mod::lemma_mod_breakdown(v, 0x100_0000_0000_0000, 0x100);
    vstd::arithmetic::div_mod::lemma_mod_breakdown(v, 0x1_0000_0000_0000, 0x100);
    vstd::arithmetic::div_mod::lemma_mod_breakdown(v, 0x100_0000_0000, 0x100);
    vstd::arithmetic::div_mod::lemma_mod_breakdown(v, 0x1_0000_0000, 0x100);
    vstd::arithmetic::div_mod::lemma_mod_breakdown(v, 0x100_0000, 0x100);
    vstd::arithmetic::div_mod::lemma_mod_breakdown(v, 0x1_0000, 0x100);
    vstd::arithmetic::div_mod::lemma_mod_breakdown(v, 0x100, 0x100);
    assert(v % 0x1_0000_0000_0000_0000 == v) by {
        vstd::arithmetic::div_mod::lemma_small_mod(x as nat, 0x1_0000_0000_0000_0000);
    }
    assert(v / 0x100_0000_0000_0000 % 0x100 == v / 0x100_0000_0000_0000);
}

/// Append the eight big-endian bytes of `x`.
pub fn push_u64_be(out: &mut Vec<u8>, x: u64)
    ensures
        final(out)@ == old(out)@ + spec_u64_be(x),
{
    out.push((x / 0x100_0000_0000_0000) as u8);
    out.push(((x / 0x1_0000_0000_0000) % 256) as u8);
    out.push(((x / 0x100_0000_0000) % 256) as u8);
    out.push(((x / 0x1_0000_0000) % 256) as u8);
    out.push(((x / 0x100_0000) % 256) as u8);
    out.push(((x / 0x1_0000) % 256) as u8);
    out.push(((x / 256) % 256) as u8);
    out.push((x % 256) as u8);
    proof {
        assert(out@ =~= old(out)@ + spec_u64_be(x));
    }
}

/// Read a 64-bit big-endian value at `off`.
pub fn read_u64_be(data: &[u8], off: usize) -> (r: u64)
    requires
        off + 8 <= data@.len(),
    ensures
        r == be64(data@.subrange(off as int, off as int + 8)),
{
    let r = data[off] as u64 * 0x100_0000_0000_0000 + data[off + 1] as u64 * 0x1_0000_0000_0000
        + data[off + 2] as u64 * 0x100_0000_0000 + data[off + 3] as u64 * 0x1_0000_0000 + data[off
        + 4] as u64 * 0x100_0000 + data[off + 5] as u64 * 0x1_0000 + data[off + 6] as u64 * 256
        + data[off + 7] as u64;
    proof {
        let s = data@.subrange(off as int, off as int + 8);
        assert(s[0] == data@[off as int]);
        assert(s[1] == data@[off as int + 1]);
        assert(s[2] == data@[off as int + 2]);
        assert(s[3] == data@[off as int + 3]);
        assert(s[4] == data@[off as int + 4]);
        assert(s[5] == data@[off as int + 5]);
        assert(s[6] == data@[off as int + 6]);
        assert(s[7] == data@[off as int + 7]);
    }
    r
}

/// Read a 32-bit big-endian value at `off`.
pub fn read_u32_be(data: &[u8], off: usize) -> (r: u32)
    requires
        off + 4 <= data@.len(),
    ensures
        r == be32(data@.subrange(off as int, off as int + 4)),
{
    let r = data[off] as u32 * 0x100_0000 + data[off + 1] as u32 * 0x1_0000 + data[off + 2] as u32
        * 256 + data[off + 3] as u32;
    proof {
        let s = data@.subrange(off as int, off as int + 4);
        assert(s[0] == data@[off as int]);
        assert(s[1] == data@[off as int + 1]);
        assert(s[2] == data@[off as int + 2]);
        assert(s[3] == data@[off as int + 3]);
    }
    r
}

/// Two's-complement image of a signed value, as stored on disk.
pub open spec fn spec_unsigned_of(v: int, width: nat) -> int {
    if v >= 0 {
        v
    } else {
        v + pow2_bits(width)
    }
}

/// 2 to the power of `8 * width`.
pub open spec fn pow2_bits(width: nat) -> int {
    if width == 1 {
        0x100
    } else if width == 2 {
        0x1_0000
    } else if width == 4 {
        0x1_0000_0000
    } else {
        0x1_0000_0000_0000_0000
    }
}

/// The on-disk bytes of one scalar: a null flag byte, then the value's
/// big-endian two's-complement bytes, zeros when null.
pub open spec fn spec_scalar_bytes(v: ScalarValue) -> Seq<u8> {
    match v {
        ScalarValue::Int8(o) => seq![if o is None { 1u8 } else { 0u8 }] + seq![
            ((if o is Some {
                spec_unsigned_of(o->0 as int, 1)
            } else {
                0int
            })) as u8,
        ],
        ScalarValue::Int16(o) => seq![if o is None { 1u8 } else { 0u8 }] + spec_u16_be(
            ((if o is Some {
                spec_unsigned_of(o->0 as int, 2)
            } else {
                0int
            })) as u16,
        ),
        ScalarValue::Int32(o) => seq![if o is None { 1u8 } else { 0u8 }] + spec_u32_be(
            ((if o is Some {
                spec_unsigned_of(o->0 as int, 4)
            } else {
                0int
            })) as u32,
        ),
        ScalarValue::Int64(o) => seq![if o is None { 1u8 } else { 0u8 }] + spec_u64_be(
            ((if o is Some {
                spec_unsigned_of(o->0 as int, 8)
            } else {
                0int
            })) as u64,
        ),
        ScalarValue::Boolean(o) => seq![if o is None { 1u8 } else { 0u8 }] + seq![
            if o == Some(true) {
                1u8
            } else {
                0u8
            },
        ],
    }
}

/// The scalar read back from `1 + width` bytes of type `t`: a nonzero
/// flag byte means null.
pub open spec fn spec_scalar_decoded(t: DataType, b: Seq<u8>) -> ScalarValue {
    match t {
        DataType::Int8 => if b[0] != 0 {
            ScalarValue::Int8(None)
        } else {
            ScalarValue::Int8(Some(spec_signed_of(b[1] as int, 1) as i8))
        },
        DataType::Int16 => if b[0] != 0 {
            ScalarValue::Int16(None)
        } else {
            ScalarValue::Int16(Some(spec_signed_of(be16(b.subrange(1, 3)), 2) as i16))
        },
        DataType::Int32 => if b[0] != 0 {
            ScalarValue::Int32(None)
        } else {
            ScalarValue::Int32(Some(spec_signed_of(be32(b.subrange(1, 5)), 4) as i32))
        },
        DataType::Int64 => if b[0] != 0 {
            ScalarValue::Int64(None)
        } else {
            ScalarValue::Int64(Some(spec_signed_of(be64(b.subrange(1, 9)), 8) as i64))
        },
        DataType::Boolean => if b[0] != 0 {
            ScalarValue::Boolean(None)
        } else {
            ScalarValue::Boolean(Some(b[1] != 0))
        },
    }
}

/// Signed value of a two's-complement image.
pub open spec fn spec_signed_of(u: int, width: nat) -> int {
    if u < pow2_bits(width) / 2 {
        u
    } else {
        u - pow2_bits(width)
    }
}

/// Encoding then decoding a scalar of matching type gives it back, except
/// that a stored `true` reads back as `true` exactly and every nonzero
/// byte reads as `true`.
pub proof fn lemma_scalar_codec_round_trip(v: ScalarValue)
    ensures
        spec_scalar_decoded(v.spec_data_type(), spec_scalar_bytes(v)) == v,
{
    let b = spec_scalar_bytes(v);
    match v {
        ScalarValue::Int8(o) => {
            if o is Some {
                assert(b[0] == 0);
                assert(b[1] == spec_unsigned_of(o->0 as int, 1) as u8);
            }
        },
        ScalarValue::Int16(o) => {
            if o is Some {
                let u = spec_unsigned_of(o->0 as int, 2) as u16;
                lemma_u16_be_round_trip(u);
                assert(b.subrange(1, 3) =~= spec_u16_be(u));
            }
        },
        ScalarValue::Int32(o) => {
            if o is Some {
                let u = spec_unsigned_of(o->0 as int, 4) as u32;
                lemma_u32_be_round_trip(u);
                assert(b.subrange(1, 5) =~= spec_u32_be(u));
            }
        },
        ScalarValue::Int64(o) => {
            if o is Some {
                let u = spec_unsigned_of(o->0 as int, 8) as u64;
                lemma_u64_be_round_trip(u);
                assert(b.subrange(1, 9) =~= spec_u64_be(u));
            }
        },
        ScalarValue::Boolean(o) => {
            if o is Some {
                assert(b[0] == 0);
                if o->0 {
                    assert(b[1] == 1);
                    assert(spec_scalar_decoded(DataType::Boolean, b) == ScalarValue::Boolean(
                        Some(true),
                    ));
                } else {
                    assert(b[1] == 0);
                    assert(spec_scalar_decoded(DataType::Boolean, b) == ScalarValue::Boolean(
                        Some(false),
                    ));
                }
            } else {
                assert(b[0] == 1);
            }
        },
    }
}

/// Concatenated scalar encodings of a tuple's values, in column order.
pub open spec fn spec_tuple_bytes(vals: Seq<ScalarValue>) -> Seq<u8>
    decreases vals.len(),
{
    if vals.len() == 0 {
        Seq::empty()
    } else {
        spec_scalar_bytes(vals[0]) + spec_tuple_bytes(vals.skip(1))
    }
}

/// Total encoded width of a tuple of the given column types.
pub open spec fn spec_schema_width(types: Seq<DataType>) -> int
    decreases types.len(),
{
    if types.len() == 0 {
        0int
    } else {
        1 + types[0].width() + spec_schema_width(types.skip(1))
    }
}

/// The values read back column by column from the front of `b`.
pub open spec fn spec_tuple_decoded(types: Seq<DataType>, b: Seq<u8>) -> Seq<ScalarValue>
    decreases types.len(),
{
    if types.len() == 0 {
        Seq::empty()
    } else {
        let w = 1 + types[0].width() as int;
        seq![spec_scalar_decoded(types[0], b.take(w))] + spec_tuple_decoded(
            types.skip(1),
            b.skip(w),
        )
    }
}

/// A scalar's encoding takes the flag byte plus its type's width.
pub proof fn lemma_scalar_bytes_len(v: ScalarValue)
    ensures
        spec_scalar_bytes(v).len() == 1 + v.spec_data_type().width(),
{
}

/// A tuple's encoding never shrinks below any one column's share.
pub proof fn lemma_schema_width_nonneg(types: Seq<DataType>)
    ensures
        spec_schema_width(types) >= 0,
    decreases types.len(),
{
    if types.len() > 0 {
        lemma_schema_width_nonneg(types.skip(1));
    }
}

/// Encoding one more column appends that column's bytes.
proof fn lemma_tuple_bytes_snoc(vals: Seq<ScalarValue>, i: int)
    requires
        0 <= i < vals.len(),
    ensures
        spec_tuple_bytes(vals.take(i + 1)) == spec_tuple_bytes(vals.take(i)) + spec_scalar_bytes(
            vals[i],
        ),
    decreases i,
{
    if i == 0 {
        assert(vals.take(0) =~= Seq::<ScalarValue>::empty());
        assert(vals.take(1).skip(1) =~= Seq::<ScalarValue>::empty());
        assert(vals.take(1)[0] == vals[0]);
        assert(spec_tuple_bytes(vals.take(1)) =~= spec_tuple_bytes(vals.take(0))
            + spec_scalar_bytes(vals[0]));
    } else {
        lemma_tuple_bytes_snoc(vals.skip(1), i - 1);
        assert(vals.take(i + 1).skip(1) =~= vals.skip(1).take(i));
        assert(vals.take(i).skip(1) =~= vals.skip(1).take(i - 1));
        assert(vals.take(i + 1)[0] == vals[0]);
        assert(vals.take(i)[0] == vals[0]);
        assert(vals.skip(1)[i - 1] == vals[i]);
        assert(spec_tuple_bytes(vals.take(i + 1)) =~= spec_tuple_bytes(vals.take(i))
            + spec_scalar_bytes(vals[i]));
    }
}

/// Codec round trip: decoding the encoding of any tuple that conforms to
/// the schema gives the same values back, column for column.
pub proof fn lemma_tuple_codec_round_trip(vals: Seq<ScalarValue>, types: Seq<DataType>)
    requires
        vals.len() == types.len(),
        forall|i: int| 0 <= i < vals.len() ==> (#[trigger] vals[i]).spec_data_type() == types[i],
    ensures
        spec_tuple_decoded(types, spec_tuple_bytes(vals)) == vals,
    decreases vals.len(),
{
    if vals.len() > 0 {
        let b = spec_tuple_bytes(vals);
        let w = 1 + types[0].width() as int;
        lemma_scalar_bytes_len(vals[0]);
        assert(b.take(w) =~= spec_scalar_bytes(vals[0]));
        assert(b.skip(w) =~= spec_tuple_bytes(vals.skip(1)));
        lemma_scalar_codec_round_trip(vals[0]);
        assert forall|i: int| 0 <= i < vals.skip(1).len() implies (#[trigger] vals.skip(
            1,
        )[i]).spec_data_type() == types.skip(1)[i] by {
            assert(vals.skip(1)[i] == vals[i + 1]);
        }
        lemma_tuple_codec_round_trip(vals.skip(1), types.skip(1));
        assert(spec_tuple_decoded(types, b) =~= vals);
    } else {
        assert(spec_tuple_decoded(types, spec_tuple_bytes(vals)) =~= vals);
    }
}

/// Append the encoding of one scalar value.
fn push_scalar(out: &mut Vec<u8>, v: &ScalarValue)
    ensures
        final(out)@ == old(out)@ + spec_scalar_bytes(*v),
{
    match v {
        ScalarValue::Int8(o) => {
            match o {
                None => {
                    out.push(1);
                    out.push(0);
                },
                Some(x) => {
                    out.push(0);
                    let u: u8 = if *x >= 0 {
                        *x as u8
                    } else {
                        ((*x as i16) + 256) as u8
                    };
                    out.push(u);
                },
            }
            proof {
                assert(out@ =~= old(out)@ + spec_scalar_bytes(*v));
            }
        },
        ScalarValue::Int16(o) => {
            match o {
                None => {
                    out.push(1);
                    push_u16_be(out, 0);
                },
                Some(x) => {
                    out.push(0);
                    let u: u16 = if *x >= 0 {
                        *x as u16
                    } else {
                        ((*x as i32) + 0x1_0000) as u16
                    };
                    push_u16_be(out, u);
                },
            }
            proof {
                assert(out@ =~= old(out)@ + spec_scalar_bytes(*v));
            }
        },
        ScalarValue::Int32(o) => {
            match o {
                None => {
                    out.push(1);
                    push_u32_be(out, 0);
                },
                Some(x) => {
                    out.push(0);
                    let u: u32 = if *x >= 0 {
                        *x as u32
                    } else {
                        ((*x as i64) + 0x1_0000_0000) as u32
                    };
                    push_u32_be(out, u);
                },
            }
            proof {
                assert(out@ =~= old(out)@ + spec_scalar_bytes(*v));
            }
        },
        ScalarValue::Int64(o) => {
            match o {
                None => {
                    out.push(1);
                    push_u64_be(out, 0);
                },
                Some(x) => {
                    out.push(0);
                    let u: u64 = if *x >= 0 {
                        *x as u64
                    } else {
                        ((*x as i128) + 0x1_0000_0000_0000_0000) as u64
                    };
                    push_u64_be(out, u);
                },
            }
            proof {
                assert(out@ =~= old(out)@ + spec_scalar_bytes(*v));
            }
        },
        ScalarValue::Boolean(o) => {
            match o {
                None => {
                    out.push(1);
                    out.push(0);
                },
                Some(x) => {
                    out.push(0);
                    out.push(if *x {
                        1
                    } else {
                        0
                    });
                },
            }
            proof {
                assert(out@ =~= old(out)@ + spec_scalar_bytes(*v));
            }
        },
    }
}

/// Encode a tuple's values to their on-disk bytes, in column order.
pub fn encode_tuple(tuple: &Tuple) -> (r: Vec<u8>)
    ensures
        r@ == spec_tuple_bytes(tuple.data@),
{
    let mut out: Vec<u8> = Vec::new();
    let mut i: usize = 0;
    proof {
        assert(tuple.data@.take(0) =~= Seq::<ScalarValue>::empty());
        assert(out@ =~= spec_tuple_bytes(tuple.data@.take(0)));
    }
    while i < tuple.data.len()
        invariant
            i <= tuple.data@.len(),
            out@ == spec_tuple_bytes(tuple.data@.take(i as int)),
        decreases tuple.data@.len() - i,
    {
        push_scalar(&mut out, &tuple.data[i]);
        proof {
            lemma_tuple_bytes_snoc(tuple.data@, i as int);
        }
        i = i + 1;
    }
    proof {
        assert(tuple.data@.take(tuple.data@.len() as int) =~= tuple.data@);
    }
    out
}

/// Decode one scalar of type `t` at `off`: a nonzero flag byte means null.
fn read_scalar(data: &[u8], off: usize, t: DataType) -> (r: ScalarValue)
    requires
        off + 1 + t.width() <= data@.len(),
    ensures
        r == spec_scalar_decoded(t, data@.subrange(off as int, off as int + 1 + t.width())),
{
    let ghost b = data@.subrange(off as int, off as int + 1 + t.width() as int);
    proof {
        assert(b[0] == data@[off as int]);
    }
    let flag = data[off];
    match t {
        DataType::Int8 => {
            if flag != 0 {
                ScalarValue::Int8(None)
            } else {
                let u = data[off + 1];
                proof {
                    assert(b[1] == data@[off as int + 1]);
                }
                let x: i8 = if u < 128 {
                    u as i8
                } else {
                    ((u as i16) - 256) as i8
                };
                ScalarValue::Int8(Some(x))
            }
        },
        DataType::Int16 => {
            if flag != 0 {
                ScalarValue::Int16(None)
            } else {
                let u = read_u16_be(data, off + 1);
                proof {
                    assert(b.subrange(1, 3) =~= data@.subrange(off as int + 1, off as int + 3));
                }
                let x: i16 = if u < 0x8000 {
                    u as i16
                } else {
                    ((u as i32) - 0x1_0000) as i16
                };
                ScalarValue::Int16(Some(x))
            }
        },
        DataType::Int32 => {
            if flag != 0 {
                ScalarValue::Int32(None)
            } else {
                let u = read_u32_be(data, off + 1);
                proof {
                    assert(b.subrange(1, 5) =~= data@.subrange(off as int + 1, off as int + 5));
                }
                let x: i32 = if u < 0x8000_0000 {
                    u as i32
                } else {
                    ((u as i64) - 0x1_0000_0000) as i32
                };
                ScalarValue::Int32(Some(x))
            }
        },
        DataType::Int64 => {
            if flag != 0 {
                ScalarValue::Int64(None)
            } else {
                let u = read_u64_be(data, off + 1);
                proof {
                    assert(b.subrange(1, 9) =~= data@.subrange(off as int + 1, off as int + 9));
                }
                let x: i64 = if u < 0x8000_0000_0000_0000 {
                    u as i64
                } else {
                    ((u as i128) - 0x1_0000_0000_0000_0000) as i64
                };
                ScalarValue::Int64(Some(x))
            }
        },
        DataType::Boolean => {
            if flag != 0 {
                ScalarValue::Boolean(None)
            } else {
                let u = data[off + 1];
                proof {
                    assert(b[1] == data@[off as int + 1]);
                }
                ScalarValue::Boolean(Some(u != 0))
            }
        },
    }
}

/// Decode a tuple of the schema's column types from the front of `data`;
/// `None` when the bytes are shorter than the schema's width. On success
/// the consumed byte count is the schema's width.
pub fn decode_tuple(data: &[u8], schema: &Schema) -> (r: Option<(Tuple, usize)>)
    ensures
        r is None <==> spec_schema_width(schema.types()) > data@.len(),
        r matches Some((t, n)) ==> n == spec_schema_width(schema.types()) && t.data@
            == spec_tuple_decoded(schema.types(), data@) && t.schema.types() == schema.types(),
{
    let ghost types = schema.types();
    let mut vals: Vec<ScalarValue> = Vec::new();
    let mut off: usize = 0;
    let mut i: usize = 0;
    let n = schema.column_count();
    proof {
        assert(types.take(0) =~= Seq::<DataType>::empty());
        assert(types.skip(0) =~= types);
        assert(data@.skip(0) =~= data@);
        assert(spec_tuple_decoded(types, data@) =~= vals@ + spec_tuple_decoded(
            types.skip(0),
            data@.skip(0),
        ));
    }
    while i < n
        invariant
            i <= n,
            n == types.len(),
            types == schema.types(),
            vals@.len() == i,
            off == spec_schema_width(types.take(i as int)),
            off <= data@.len(),
            spec_tuple_decoded(types, data@) == vals@ + spec_tuple_decoded(
                types.skip(i as int),
                data@.skip(off as int),
            ),
        decreases n - i,
    {
        let t = schema.column_type(i);
        let w = t.value_width();
        proof {
            assert(types.skip(i as int)[0] == types[i as int]);
            assert(types.skip(i as int).skip(1) =~= types.skip(i as int + 1));
            lemma_schema_width_nonneg(types.skip(i as int + 1));
            lemma_schema_width_snoc(types, i as int);
            lemma_schema_width_tail(types, i as int);
        }
        if data.len() - off < 1 + w {
            proof {
                lemma_schema_width_tail(types, i as int);
            }
            return None;
        }
        let s = read_scalar(data, off, t);
        proof {
            let rest = data@.skip(off as int);
            assert(rest.take(1 + t.width() as int) =~= data@.subrange(
                off as int,
                off as int + 1 + t.width() as int,
            ));
            assert(types.skip(i as int).skip(1) =~= types.skip(i as int + 1));
            assert(rest.skip(1 + t.width() as int) =~= data@.skip(off as int + 1 + t.width() as int));
            assert(vals@.push(s) + spec_tuple_decoded(types.skip(i as int + 1), data@.skip(
                off as int + 1 + t.width() as int,
            )) =~= vals@ + spec_tuple_decoded(types.skip(i as int), rest));
        }
        vals.push(s);
        off = off + 1 + w;
        i = i + 1;
    }
    proof {
        assert(types.take(types.len() as int) =~= types);
        assert(spec_tuple_decoded(types.skip(types.len() as int), data@.skip(off as int)) =~= Seq::<
            ScalarValue,
        >::empty());
        assert(spec_tuple_decoded(types, data@) =~= vals@);
        lemma_schema_width_nonneg(types);
    }
    Some((Tuple { schema: schema.duplicate(), data: vals }, off))
}

/// Consuming one more column adds that column's width.
proof fn lemma_schema_width_snoc(types: Seq<DataType>, i: int)
    requires
        0 <= i < types.len(),
    ensures
        spec_schema_width(types.take(i + 1)) == spec_schema_width(types.take(i)) + 1
            + types[i].width(),
    decreases i,
{
    if i == 0 {
        assert(types.take(0) =~= Seq::<DataType>::empty());
        assert(types.take(1).skip(1) =~= Seq::<DataType>::empty());
        assert(types.take(1)[0] == types[0]);
    } else {
        lemma_schema_width_snoc(types.skip(1), i - 1);
        assert(types.take(i + 1).skip(1) =~= types.skip(1).take(i));
        assert(types.take(i).skip(1) =~= types.skip(1).take(i - 1));
        assert(types.take(i + 1)[0] == types[0]);
        assert(types.take(i)[0] == types[0]);
        assert(types.skip(1)[i - 1] == types[i]);
    }
}

/// The whole width is the width consumed so far plus the width of the
/// remaining columns.
proof fn lemma_schema_width_tail(types: Seq<DataType>, i: int)
    requires
        0 <= i <= types.len(),
    ensures
        spec_schema_width(types) == spec_schema_width(types.take(i)) + spec_schema_width(
            types.skip(i),
        ),
    decreases i,
{
    if i == 0 {
        assert(types.take(0) =~= Seq::<DataType>::empty());
        assert(types.skip(0) =~= types);
    } else {
        lemma_schema_width_snoc(types, i - 1);
        lemma_schema_width_tail(types, i - 1);
        assert(types.skip(i - 1)[0] == types[i - 1]);
        assert(types.skip(i - 1).skip(1) =~= types.skip(i));
    }
}


/// Byte `t` of the two-byte big-endian image of `x`.
pub open spec fn u16_byte(x: u16, t: int) -> u8 {
    if t == 0 {
        (x / 256) as u8
    } else {
        (x % 256) as u8
    }
}

/// Byte `t` of the four-byte big-endian image of `x`.
pub open spec fn u32_byte(x: u32, t: int) -> u8 {
    if t == 0 {
        (x / 0x100_0000) as u8
    } else if t == 1 {
        ((x / 0x1_0000) % 256) as u8
    } else if t == 2 {
        ((x / 256) % 256) as u8
    } else {
        (x % 256) as u8
    }
}


} // verus!
