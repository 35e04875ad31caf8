//! The wire form of a batch: the serializer of the shuffle stage and the
//! deserializer of the merge stage. The payload carries enough structure to
//! reconstruct the column types without a side channel, and the decoder
//! accepts exactly the canonical encodings: whatever it accepts re-encodes
//! to the very bytes it read.

use vstd::prelude::*;
use crate::batch::BlockEntry;
use crate::batch::Column;
use crate::batch::DataBlock;
use crate::batch::DataType;
use crate::batch::NumberDataType;
use crate::batch::Value;
use crate::segment::push_u64_le;
use crate::segment::u64_le_bytes;

verus! {

/// The value of eight little-endian bytes.
pub open spec fn u64_from_le(b: Seq<u8>) -> u64
    recommends
        b.len() == 8,
{
    (b[0] as u64) | ((b[1] as u64) << 8) | ((b[2] as u64) << 16) | ((b[3] as u64) << 24) | ((
    b[4] as u64) << 32) | ((b[5] as u64) << 40) | ((b[6] as u64) << 48) | ((b[7] as u64) << 56)
}

/// Reading back the eight little-endian bytes of a value gives the value,
/// and re-encoding a read value gives the bytes read.
pub proof fn lemma_u64_le_round_trip(x: u64, b: Seq<u8>)
    requires
        b.len() == 8,
    ensures
        u64_from_le(u64_le_bytes(x)) == x,
        u64_le_bytes(u64_from_le(b)) =~= b,
{
    assert((((((x & 0xff) as u8) as u64)) | (((((x >> 8) & 0xff) as u8) as u64) << 8) | (((((x
        >> 16) & 0xff) as u8) as u64) << 16) | (((((x >> 24) & 0xff) as u8) as u64) << 24) | (((((
    x >> 32) & 0xff) as u8) as u64) << 32) | (((((x >> 40) & 0xff) as u8) as u64) << 40) | (((((x
        >> 48) & 0xff) as u8) as u64) << 48) | (((((x >> 56) & 0xff) as u8) as u64) << 56)) == x)
        by (bit_vector);
    assert(u64_from_le(u64_le_bytes(x)) == x);
    let b0 = b[0];
    let b1 = b[1];
    let b2 = b[2];
    let b3 = b[3];
    let b4 = b[4];
    let b5 = b[5];
    let b6 = b[6];
    let b7 = b[7];
    let v = (b0 as u64) | ((b1 as u64) << 8) | ((b2 as u64) << 16) | ((b3 as u64) << 24) | ((
    b4 as u64) << 32) | ((b5 as u64) << 40) | ((b6 as u64) << 48) | ((b7 as u64) << 56);
    assert(((v & 0xff) as u8) == b0 && (((v >> 8) & 0xff) as u8) == b1 && (((v >> 16) & 0xff) as u8)
        == b2 && (((v >> 24) & 0xff) as u8) == b3 && (((v >> 32) & 0xff) as u8) == b4 && (((v >> 40)
        & 0xff) as u8) == b5 && (((v >> 48) & 0xff) as u8) == b6 && (((v >> 56) & 0xff) as u8)
        == b7) by (bit_vector)
        requires
            v == (b0 as u64) | ((b1 as u64) << 8) | ((b2 as u64) << 16) | ((b3 as u64) << 24) | ((
            b4 as u64) << 32) | ((b5 as u64) << 40) | ((b6 as u64) << 48) | ((b7 as u64) << 56),
    ;
        assert(u64_le_bytes(v) =~= b);
}

/// The unsigned 64-bit pattern of a signed value.
pub open spec fn i64_wrap(x: i64) -> u64 {
    if x >= 0 {
        x as u64
    } else {
        (x + 0x1_0000_0000_0000_0000) as u64
    }
}

/// The signed value of an unsigned 64-bit pattern.
pub open spec fn i64_unwrap(u: u64) -> i64 {
    if u <= i64::MAX {
        u as i64
    } else {
        (u - 0x1_0000_0000_0000_0000) as i64
    }
}

/// The two 64-bit reinterpretations invert each other.
pub proof fn lemma_i64_wrap_round_trip(x: i64, u: u64)
    ensures
        i64_unwrap(i64_wrap(x)) == x,
        i64_wrap(i64_unwrap(u)) == u,
{
}

/// The wire bytes of the first `upto` signed values.
pub open spec fn i64s_bytes(v: Seq<i64>, upto: int) -> Seq<u8>
    decreases upto,
{
    if upto <= 0 {
        Seq::empty()
    } else {
        i64s_bytes(v, upto - 1) + u64_le_bytes(i64_wrap(v[upto - 1]))
    }
}

/// The wire bytes of the first `upto` unsigned values.
pub open spec fn u64s_bytes(v: Seq<u64>, upto: int) -> Seq<u8>
    decreases upto,
{
    if upto <= 0 {
        Seq::empty()
    } else {
        u64s_bytes(v, upto - 1) + u64_le_bytes(v[upto - 1])
    }
}

/// The wire bytes of the first `upto` validity flags, one byte each.
pub open spec fn flags_bytes(v: Seq<bool>, upto: int) -> Seq<u8>
    decreases upto,
{
    if upto <= 0 {
        Seq::empty()
    } else {
        flags_bytes(v, upto - 1) + seq![
            if v[upto - 1] {
                1u8
            } else {
                0u8
            },
        ]
    }
}

/// The wire bytes of the first `upto` strings: each its byte length, then
/// its bytes.
pub open spec fn strs_bytes(v: Seq<String>, upto: int) -> Seq<u8>
    decreases upto,
{
    if upto <= 0 {
        Seq::empty()
    } else {
        strs_bytes(v, upto - 1) + u64_le_bytes(
            vstd::utf8::encode_utf8(v[upto - 1]@).len() as u64,
        ) + vstd::utf8::encode_utf8(v[upto - 1]@)
    }
}

/// Encodings of the first `upto` values agree wherever the values agree.
proof fn lemma_i64s_bytes_prefix(a: Seq<i64>, b: Seq<i64>, upto: int)
    requires
        upto <= a.len(),
        upto <= b.len(),
        forall|k: int| 0 <= k < upto ==> a[k] == b[k],
    ensures
        i64s_bytes(a, upto) == i64s_bytes(b, upto),
    decreases upto,
{
    if upto > 0 {
        lemma_i64s_bytes_prefix(a, b, upto - 1);
    }
}

proof fn lemma_u64s_bytes_prefix(a: Seq<u64>, b: Seq<u64>, upto: int)
    requires
        upto <= a.len(),
        upto <= b.len(),
        forall|k: int| 0 <= k < upto ==> a[k] == b[k],
    ensures
        u64s_bytes(a, upto) == u64s_bytes(b, upto),
    decreases upto,
{
    if upto > 0 {
        lemma_u64s_bytes_prefix(a, b, upto - 1);
    }
}

proof fn lemma_flags_bytes_prefix(a: Seq<bool>, b: Seq<bool>, upto: int)
    requires
        upto <= a.len(),
        upto <= b.len(),
        forall|k: int| 0 <= k < upto ==> a[k] == b[k],
    ensures
        flags_bytes(a, upto) == flags_bytes(b, upto),
    decreases upto,
{
    if upto > 0 {
        lemma_flags_bytes_prefix(a, b, upto - 1);
    }
}

proof fn lemma_strs_bytes_prefix(a: Seq<String>, b: Seq<String>, upto: int)
    requires
        upto <= a.len(),
        upto <= b.len(),
        forall|k: int| 0 <= k < upto ==> a[k] == b[k],
    ensures
        strs_bytes(a, upto) == strs_bytes(b, upto),
    decreases upto,
{
    if upto > 0 {
        lemma_strs_bytes_prefix(a, b, upto - 1);
    }
}

/// `pre` begins `s`.
pub open spec fn bytes_prefix(pre: Seq<u8>, s: Seq<u8>) -> bool {
    pre.len() <= s.len() && s.subrange(0, pre.len() as int) == pre
}

/// The wire bytes of `upto` signed values take eight bytes each.
proof fn lemma_i64s_bytes_len(v: Seq<i64>, upto: int)
    requires
        upto >= 0,
    ensures
        i64s_bytes(v, upto).len() == 8 * upto,
    decreases upto,
{
    if upto > 0 {
        lemma_i64s_bytes_len(v, upto - 1);
    }
}

/// The wire bytes of `upto` unsigned values take eight bytes each.
proof fn lemma_u64s_bytes_len(v: Seq<u64>, upto: int)
    requires
        upto >= 0,
    ensures
        u64s_bytes(v, upto).len() == 8 * upto,
    decreases upto,
{
    if upto > 0 {
        lemma_u64s_bytes_len(v, upto - 1);
    }
}

/// The wire bytes of `upto` validity flags take one byte each, each of them
/// zero or one.
proof fn lemma_flags_bytes_len(v: Seq<bool>, upto: int)
    requires
        upto >= 0,
    ensures
        flags_bytes(v, upto).len() == upto,
        forall|i: int|
            0 <= i < upto ==> flags_bytes(v, upto)[i] == (if v[i] {
                1u8
            } else {
                0u8
            }),
    decreases upto,
{
    if upto > 0 {
        lemma_flags_bytes_len(v, upto - 1);
    }
}

/// The wire bytes of the first `i` strings begin the wire bytes of the
/// first `n`.
proof fn lemma_strs_prefix_of_total(g: Seq<String>, i: int, n: int)
    requires
        0 <= i <= n,
    ensures
        bytes_prefix(strs_bytes(g, i), strs_bytes(g, n)),
    decreases n - i,
{
    if i < n {
        lemma_strs_prefix_of_total(g, i, n - 1);
        assert(strs_bytes(g, n).subrange(0, strs_bytes(g, i).len() as int) =~= strs_bytes(g, i));
    } else {
        assert(strs_bytes(g, n).subrange(0, strs_bytes(g, n).len() as int) =~= strs_bytes(g, n));
    }
}

/// Two string lists of equal count whose wire bytes begin the same byte
/// sequence have equal wire bytes: the length prefixes make the encoding
/// self-delimiting.
proof fn lemma_strs_prefix_det(a: Seq<String>, b: Seq<String>, n: int, s: Seq<u8>)
    requires
        n >= 0,
        bytes_prefix(strs_bytes(a, n), s),
        bytes_prefix(strs_bytes(b, n), s),
        forall|k: int|
            0 <= k < n ==> vstd::utf8::encode_utf8((#[trigger] a[k])@).len() <= u64::MAX,
        forall|k: int|
            0 <= k < n ==> vstd::utf8::encode_utf8((#[trigger] b[k])@).len() <= u64::MAX,
    ensures
        strs_bytes(a, n) == strs_bytes(b, n),
    decreases n,
{
    if n > 0 {
        lemma_strs_prefix_of_total(a, n - 1, n);
        lemma_strs_prefix_of_total(b, n - 1, n);
        assert(bytes_prefix(strs_bytes(a, n - 1), s)) by {
            assert(s.subrange(0, strs_bytes(a, n - 1).len() as int) =~= strs_bytes(a, n - 1));
        }
        assert(bytes_prefix(strs_bytes(b, n - 1), s)) by {
            assert(s.subrange(0, strs_bytes(b, n - 1).len() as int) =~= strs_bytes(b, n - 1));
        }
        lemma_strs_prefix_det(a, b, n - 1, s);
        let p = strs_bytes(a, n - 1).len() as int;
        let la = vstd::utf8::encode_utf8(a[n - 1]@).len() as u64;
        let lb = vstd::utf8::encode_utf8(b[n - 1]@).len() as u64;
        let ea = vstd::utf8::encode_utf8(a[n - 1]@);
        let eb = vstd::utf8::encode_utf8(b[n - 1]@);
        assert(strs_bytes(a, n) == strs_bytes(a, n - 1) + u64_le_bytes(la) + ea);
        assert(strs_bytes(b, n) == strs_bytes(b, n - 1) + u64_le_bytes(lb) + eb);
        let sa = strs_bytes(a, n);
        let sb = strs_bytes(b, n);
        assert(sa.len() == p + 8 + ea.len());
        assert(sb.len() == p + 8 + eb.len());
        assert(la == ea.len() && lb == eb.len());
        assert forall|k: int| 0 <= k < 8 implies sa[p + k] == u64_le_bytes(la)[k] by {
            assert(sa[p + k] == (strs_bytes(a, n - 1) + u64_le_bytes(la))[p + k]);
        }
        assert forall|k: int| 0 <= k < 8 implies sb[p + k] == u64_le_bytes(lb)[k] by {
            assert(sb[p + k] == (strs_bytes(b, n - 1) + u64_le_bytes(lb))[p + k]);
        }
        assert forall|k: int| 0 <= k < 8 implies #[trigger] sa[p + k] == sb[p + k] by {
            assert(sa[p + k] == s.subrange(0, sa.len() as int)[p + k]);
            assert(sb[p + k] == s.subrange(0, sb.len() as int)[p + k]);
            assert(sa[p + k] == s[p + k] && sb[p + k] == s[p + k]);
        }
        assert(u64_le_bytes(la) =~= u64_le_bytes(lb));
        lemma_u64_le_round_trip(la, u64_le_bytes(la));
        lemma_u64_le_round_trip(lb, u64_le_bytes(lb));
        assert(la == lb);
        assert(strs_bytes(a, n) =~= strs_bytes(b, n)) by {
            assert(sa.len() == sb.len());
            assert forall|k: int| 0 <= k < sa.len() implies sa[k] == sb[k] by {
                assert(sa[k] == s.subrange(0, sa.len() as int)[k]);
                assert(sb[k] == s.subrange(0, sb.len() as int)[k]);
                assert(sa[k] == s[k] && sb[k] == s[k]);
            }
        }
    }
}

/// The wire bytes of one column: a tag byte, then its values.
pub open spec fn column_bytes(c: Column) -> Seq<u8> {
    match c {
        Column::Int64(v) => seq![1u8] + i64s_bytes(v@, v@.len() as int),
        Column::UInt64(v) => seq![2u8] + u64s_bytes(v@, v@.len() as int),
        Column::NullableUInt64 { values, validity } => seq![3u8] + flags_bytes(
            validity@,
            validity@.len() as int,
        ) + u64s_bytes(values@, values@.len() as int),
        Column::Str(v) => seq![4u8] + strs_bytes(v@, v@.len() as int),
    }
}

/// The byte lengths of a column's string cells fit the wire's length
/// prefixes; vacuous for the other kinds.
pub open spec fn str_lens_bounded(c: Column) -> bool {
    match c {
        Column::Str(v) => forall|j: int|
            0 <= j < v@.len() ==> vstd::utf8::encode_utf8((#[trigger] v@[j])@).len() <= u64::MAX,
        _ => true,
    }
}

/// A well-formed column of `n` cells whose wire bytes sit at `pos` in
/// `bytes`.
pub open spec fn col_matches_at(bytes: Seq<u8>, pos: int, n: nat, col: Column) -> bool {
    &&& crate::batch::col_wf(col)
    &&& crate::batch::col_len(col) == n
    &&& str_lens_bounded(col)
    &&& 0 <= pos
    &&& pos + column_bytes(col).len() <= bytes.len()
    &&& bytes.subrange(pos, pos + column_bytes(col).len() as int) == column_bytes(col)
}

/// Two well-formed columns of equal cell count whose wire bytes sit at the
/// same place have equal wire bytes: the tag and the length prefixes make
/// the encoding self-delimiting.
proof fn lemma_column_prefix_det(c1: Column, c2: Column, n: nat, bytes: Seq<u8>, pos: int)
    requires
        col_matches_at(bytes, pos, n, c1),
        col_matches_at(bytes, pos, n, c2),
    ensures
        column_bytes(c1) == column_bytes(c2),
{
    let s = bytes.skip(pos);
    assert(bytes_prefix(column_bytes(c1), s)) by {
        assert(s.subrange(0, column_bytes(c1).len() as int) =~= column_bytes(c1));
    }
    assert(bytes_prefix(column_bytes(c2), s)) by {
        assert(s.subrange(0, column_bytes(c2).len() as int) =~= column_bytes(c2));
    }
    assert(s[0] == column_bytes(c1)[0] && s[0] == column_bytes(c2)[0]) by {
        assert(column_bytes(c1)[0] == s.subrange(0, column_bytes(c1).len() as int)[0]);
        assert(column_bytes(c2)[0] == s.subrange(0, column_bytes(c2).len() as int)[0]);
    }
    match (c1, c2) {
        (Column::Int64(v1), Column::Int64(v2)) => {
            lemma_i64s_bytes_len(v1@, n as int);
            lemma_i64s_bytes_len(v2@, n as int);
            assert(column_bytes(c1) =~= column_bytes(c2)) by {
                assert(column_bytes(c1).len() == column_bytes(c2).len());
                assert forall|k: int| 0 <= k < column_bytes(c1).len() implies #[trigger] column_bytes(
                    c1,
                )[k] == column_bytes(c2)[k] by {
                    assert(column_bytes(c1)[k] == s.subrange(
                        0,
                        column_bytes(c1).len() as int,
                    )[k]);
                    assert(column_bytes(c2)[k] == s.subrange(
                        0,
                        column_bytes(c2).len() as int,
                    )[k]);
                }
            }
        },
        (Column::UInt64(v1), Column::UInt64(v2)) => {
            lemma_u64s_bytes_len(v1@, n as int);
            lemma_u64s_bytes_len(v2@, n as int);
            assert(column_bytes(c1) =~= column_bytes(c2)) by {
                assert(column_bytes(c1).len() == column_bytes(c2).len());
                assert forall|k: int| 0 <= k < column_bytes(c1).len() implies #[trigger] column_bytes(
                    c1,
                )[k] == column_bytes(c2)[k] by {
                    assert(column_bytes(c1)[k] == s.subrange(
                        0,
                        column_bytes(c1).len() as int,
                    )[k]);
                    assert(column_bytes(c2)[k] == s.subrange(
                        0,
                        column_bytes(c2).len() as int,
                    )[k]);
                }
            }
        },
        (
            Column::NullableUInt64 { values: values1, validity: validity1 },
            Column::NullableUInt64 { values: values2, validity: validity2 },
        ) => {
            lemma_flags_bytes_len(validity1@, n as int);
            lemma_flags_bytes_len(validity2@, n as int);
            lemma_u64s_bytes_len(values1@, n as int);
            lemma_u64s_bytes_len(values2@, n as int);
            assert(column_bytes(c1) =~= column_bytes(c2)) by {
                assert(column_bytes(c1).len() == column_bytes(c2).len());
                assert forall|k: int| 0 <= k < column_bytes(c1).len() implies #[trigger] column_bytes(
                    c1,
                )[k] == column_bytes(c2)[k] by {
                    assert(column_bytes(c1)[k] == s.subrange(
                        0,
                        column_bytes(c1).len() as int,
                    )[k]);
                    assert(column_bytes(c2)[k] == s.subrange(
                        0,
                        column_bytes(c2).len() as int,
                    )[k]);
                }
            }
        },
        (Column::Str(v1), Column::Str(v2)) => {
            let t = s.skip(1);
            assert(bytes_prefix(strs_bytes(v1@, n as int), t)) by {
                assert(t.subrange(0, strs_bytes(v1@, n as int).len() as int) =~= strs_bytes(
                    v1@,
                    n as int,
                )) by {
                    assert forall|k: int|
                        0 <= k < strs_bytes(v1@, n as int).len() implies #[trigger] t[k]
                        == strs_bytes(v1@, n as int)[k] by {
                        assert(s[1 + k] == s.subrange(0, column_bytes(c1).len() as int)[1 + k]);
                        assert(column_bytes(c1)[1 + k] == strs_bytes(v1@, n as int)[k]);
                    }
                }
            }
            assert(bytes_prefix(strs_bytes(v2@, n as int), t)) by {
                assert(t.subrange(0, strs_bytes(v2@, n as int).len() as int) =~= strs_bytes(
                    v2@,
                    n as int,
                )) by {
                    assert forall|k: int|
                        0 <= k < strs_bytes(v2@, n as int).len() implies #[trigger] t[k]
                        == strs_bytes(v2@, n as int)[k] by {
                        assert(s[1 + k] == s.subrange(0, column_bytes(c2).len() as int)[1 + k]);
                        assert(column_bytes(c2)[1 + k] == strs_bytes(v2@, n as int)[k]);
                    }
                }
            }
            lemma_strs_prefix_det(v1@, v2@, n as int, t);
            assert(column_bytes(c1) =~= column_bytes(c2));
        },
        _ => {
            assert(false);
        },
    }
}

/// The first byte of a column's wire bytes is its kind's tag, and the
/// fixed-width kinds have the lengths their cell count dictates.
proof fn lemma_column_bytes_shape(col: Column)
    ensures
        column_bytes(col).len() >= 1,
        col is Int64 ==> column_bytes(col)[0] == 1u8 && column_bytes(col).len() == 1 + 8
            * crate::batch::col_len(col),
        col is UInt64 ==> column_bytes(col)[0] == 2u8 && column_bytes(col).len() == 1 + 8
            * crate::batch::col_len(col),
        col is NullableUInt64 ==> column_bytes(col)[0] == 3u8 && (crate::batch::col_wf(col)
            ==> column_bytes(col).len() == 1 + 9 * crate::batch::col_len(col)),
        col is Str ==> column_bytes(col)[0] == 4u8,
{
    match col {
        Column::Int64(v) => {
            lemma_i64s_bytes_len(v@, v@.len() as int);
        },
        Column::UInt64(v) => {
            lemma_u64s_bytes_len(v@, v@.len() as int);
        },
        Column::NullableUInt64 { values, validity } => {
            lemma_flags_bytes_len(validity@, validity@.len() as int);
            lemma_u64s_bytes_len(values@, values@.len() as int);
        },
        Column::Str(v) => {
        },
    }
}

/// Where the wire bytes of a string list sit in a byte sequence, item `i`
/// sits right after the first `i` items: its length prefix, then its bytes.
proof fn lemma_strs_item_at(gv: Seq<String>, i: int, n: int, bytes: Seq<u8>, start: int)
    requires
        0 <= i < n <= gv.len(),
        0 <= start,
        start + strs_bytes(gv, n).len() <= bytes.len(),
        bytes.subrange(start, start + strs_bytes(gv, n).len() as int) == strs_bytes(gv, n),
    ensures
        ({
            let li = strs_bytes(gv, i).len() as int;
            let e = vstd::utf8::encode_utf8(gv[i]@);
            &&& start + li + 8 + e.len() <= start + strs_bytes(gv, n).len()
            &&& bytes.subrange(start + li, start + li + 8) == u64_le_bytes(e.len() as u64)
            &&& bytes.subrange(start + li + 8, start + li + 8 + e.len() as int) == e
        }),
{
    let li = strs_bytes(gv, i).len() as int;
    let e = vstd::utf8::encode_utf8(gv[i]@);
    let item_end = strs_bytes(gv, i + 1).len() as int;
    lemma_strs_prefix_of_total(gv, i + 1, n);
    assert(strs_bytes(gv, i + 1) == strs_bytes(gv, i) + u64_le_bytes(e.len() as u64) + e);
    assert(item_end == li + 8 + e.len());
    assert(strs_bytes(gv, n).subrange(0, item_end) == strs_bytes(gv, i + 1));
    assert forall|k: int| 0 <= k < 8 implies #[trigger] bytes.subrange(
        start + li,
        start + li + 8,
    )[k] == u64_le_bytes(e.len() as u64)[k] by {
        assert(bytes.subrange(start + li, start + li + 8)[k] == bytes[start + li + k]);
        assert(bytes.subrange(start, start + strs_bytes(gv, n).len() as int)[li + k] == bytes[start
            + li + k]);
        assert(strs_bytes(gv, n).subrange(0, item_end)[li + k] == strs_bytes(gv, n)[li + k]);
        assert(strs_bytes(gv, i + 1)[li + k] == (strs_bytes(gv, i) + u64_le_bytes(
            e.len() as u64,
        ))[li + k]);
    }
    assert(bytes.subrange(start + li, start + li + 8) =~= u64_le_bytes(e.len() as u64));
    assert forall|k: int| 0 <= k < e.len() implies #[trigger] bytes.subrange(
        start + li + 8,
        start + li + 8 + e.len() as int,
    )[k] == e[k] by {
        assert(bytes.subrange(start + li + 8, start + li + 8 + e.len() as int)[k] == bytes[start
            + li + 8 + k]);
        assert(bytes.subrange(start, start + strs_bytes(gv, n).len() as int)[li + 8 + k] == bytes[
        start + li + 8 + k]);
        assert(strs_bytes(gv, n).subrange(0, item_end)[li + 8 + k] == strs_bytes(gv, n)[li + 8
            + k]);
        assert(strs_bytes(gv, i + 1)[li + 8 + k] == e[k]);
    }
    assert(bytes.subrange(start + li + 8, start + li + 8 + e.len() as int) =~= e);
}

/// A parsed string prefix aligned with a hypothetical string list: equal
/// counts over the same bytes mean equal wire bytes, so the parse position
/// is the hypothetical prefix's length.
proof fn lemma_strs_align(
    vals: Seq<String>,
    gv: Seq<String>,
    i: int,
    n: int,
    bytes: Seq<u8>,
    start: int,
    p: int,
)
    requires
        0 <= i <= n <= gv.len(),
        i <= vals.len(),
        0 <= start <= p <= bytes.len(),
        bytes.subrange(start, p) == strs_bytes(vals, i),
        start + strs_bytes(gv, n).len() <= bytes.len(),
        bytes.subrange(start, start + strs_bytes(gv, n).len() as int) == strs_bytes(gv, n),
        forall|k: int|
            0 <= k < i ==> vstd::utf8::encode_utf8((#[trigger] vals[k])@).len() <= u64::MAX,
        forall|k: int|
            0 <= k < n ==> vstd::utf8::encode_utf8((#[trigger] gv[k])@).len() <= u64::MAX,
    ensures
        strs_bytes(vals, i) == strs_bytes(gv, i),
        p == start + strs_bytes(gv, i).len(),
{
    let s = bytes.skip(start);
    lemma_strs_prefix_of_total(gv, i, n);
    assert(bytes_prefix(strs_bytes(vals, i), s)) by {
        assert(s.subrange(0, strs_bytes(vals, i).len() as int) =~= strs_bytes(vals, i)) by {
            assert forall|k: int| 0 <= k < strs_bytes(vals, i).len() implies #[trigger] s[k]
                == strs_bytes(vals, i)[k] by {
                assert(bytes[start + k] == bytes.subrange(start, p)[k]);
            }
        }
    }
    assert(bytes_prefix(strs_bytes(gv, i), s)) by {
        assert(s.subrange(0, strs_bytes(gv, i).len() as int) =~= strs_bytes(gv, i)) by {
            assert forall|k: int| 0 <= k < strs_bytes(gv, i).len() implies #[trigger] s[k]
                == strs_bytes(gv, i)[k] by {
                assert(bytes[start + k] == bytes.subrange(
                    start,
                    start + strs_bytes(gv, n).len() as int,
                )[k]);
                assert(strs_bytes(gv, n)[k] == strs_bytes(gv, n).subrange(
                    0,
                    strs_bytes(gv, i).len() as int,
                )[k]);
            }
        }
    }
    lemma_strs_prefix_det(vals, gv, i, s);
}

/// The canonical declared type of a wire column.
pub open spec fn canonical_type(c: Column) -> DataType {
    match c {
        Column::Int64(_) => DataType::Number(NumberDataType::Int64),
        Column::UInt64(_) => DataType::Number(NumberDataType::UInt64),
        Column::NullableUInt64 { .. } => DataType::Nullable(
            Box::new(DataType::Number(NumberDataType::UInt64)),
        ),
        Column::Str(_) => DataType::Text,
    }
}

/// A batch the wire can carry: fully materialized columns under their
/// canonical types, with no metadata payload.
pub open spec fn wire_encodable(b: DataBlock) -> bool {
    &&& b.wf()
    &&& b.meta.is_none()
    &&& b.num_rows <= u64::MAX
    &&& b.entries@.len() <= u64::MAX
    &&& forall|c: int|
        0 <= c < b.entries@.len() ==> ((#[trigger] b.entries@[c]).value matches Value::Column(col)
            && b.entries@[c].data_type == canonical_type(col))
    &&& forall|c: int|
        0 <= c < b.entries@.len() ==> match (#[trigger] b.entries@[c]).value {
            Value::Column(Column::Str(v)) => forall|j: int|
                0 <= j < v@.len() ==> vstd::utf8::encode_utf8((#[trigger] v@[j])@).len()
                    <= u64::MAX,
            _ => true,
        }
}

/// The wire bytes of the first `upto` entries.
pub open spec fn entries_bytes(entries: Seq<BlockEntry>, upto: int) -> Seq<u8>
    decreases upto,
{
    if upto <= 0 {
        Seq::empty()
    } else {
        entries_bytes(entries, upto - 1) + (match entries[upto - 1].value {
            Value::Column(col) => column_bytes(col),
            Value::Scalar(_) => Seq::empty(),
        })
    }
}

/// A slice out of a byte run known to sit at `base` is the run's own
/// slice.
proof fn lemma_segment_at(bytes: Seq<u8>, base: int, whole: Seq<u8>, lo: int, hi: int)
    requires
        0 <= base,
        base + whole.len() <= bytes.len(),
        bytes.subrange(base, base + whole.len() as int) == whole,
        0 <= lo <= hi <= whole.len(),
    ensures
        bytes.subrange(base + lo, base + hi) == whole.subrange(lo, hi),
{
    assert(bytes.subrange(base + lo, base + hi) =~= whole.subrange(lo, hi)) by {
        assert forall|k: int| 0 <= k < hi - lo implies #[trigger] bytes.subrange(
            base + lo,
            base + hi,
        )[k] == whole.subrange(lo, hi)[k] by {
            assert(bytes.subrange(base + lo, base + hi)[k] == bytes[base + lo + k]);
            assert(bytes.subrange(base, base + whole.len() as int)[lo + k] == bytes[base + lo
                + k]);
            assert(whole.subrange(lo, hi)[k] == whole[lo + k]);
        }
    }
}

/// A batch entry the wire can carry: a well-formed column of `n` cells
/// whose string lengths fit the length prefixes.
pub open spec fn entry_ok(e: BlockEntry, n: nat) -> bool {
    e.value matches Value::Column(col) && crate::batch::col_wf(col) && crate::batch::col_len(col)
        == n && str_lens_bounded(col)
}

/// The wire bytes of the first `c` entries begin the wire bytes of the
/// first `ne`.
proof fn lemma_entries_prefix_of_total(g: Seq<BlockEntry>, c: int, ne: int)
    requires
        0 <= c <= ne,
    ensures
        bytes_prefix(entries_bytes(g, c), entries_bytes(g, ne)),
    decreases ne - c,
{
    if c < ne {
        lemma_entries_prefix_of_total(g, c, ne - 1);
        assert(entries_bytes(g, ne).subrange(0, entries_bytes(g, c).len() as int)
            =~= entries_bytes(g, c));
    } else {
        assert(entries_bytes(g, ne).subrange(0, entries_bytes(g, ne).len() as int)
            =~= entries_bytes(g, ne));
    }
}

/// Where the wire bytes of an entry list sit in a byte sequence, entry `c`'s
/// column sits right after the first `c` entries.
proof fn lemma_entries_item_at(
    g: Seq<BlockEntry>,
    c: int,
    ne: int,
    n: nat,
    bytes: Seq<u8>,
    base: int,
)
    requires
        0 <= c < ne <= g.len(),
        entry_ok(g[c], n),
        0 <= base,
        base + entries_bytes(g, ne).len() <= bytes.len(),
        bytes.subrange(base, base + entries_bytes(g, ne).len() as int) == entries_bytes(g, ne),
    ensures
        g[c].value matches Value::Column(col) ==> col_matches_at(
            bytes,
            base + entries_bytes(g, c).len(),
            n,
            col,
        ),
{
    let lc = entries_bytes(g, c).len() as int;
    let lc1 = entries_bytes(g, c + 1).len() as int;
    lemma_entries_prefix_of_total(g, c + 1, ne);
    match g[c].value {
        Value::Column(col) => {
            assert(entries_bytes(g, c + 1) == entries_bytes(g, c) + column_bytes(col));
            assert(entries_bytes(g, ne).subrange(lc, lc1) =~= column_bytes(col)) by {
                assert(entries_bytes(g, ne).subrange(0, lc1) == entries_bytes(g, c + 1));
                assert forall|k: int| 0 <= k < lc1 - lc implies #[trigger] entries_bytes(
                    g,
                    ne,
                ).subrange(lc, lc1)[k] == column_bytes(col)[k] by {
                    assert(entries_bytes(g, ne).subrange(lc, lc1)[k] == entries_bytes(g, ne)[lc
                        + k]);
                    assert(entries_bytes(g, ne).subrange(0, lc1)[lc + k] == entries_bytes(g, ne)[lc
                        + k]);
                    assert(entries_bytes(g, c + 1)[lc + k] == column_bytes(col)[k]);
                }
            }
            lemma_segment_at(
                bytes,
                base,
                entries_bytes(g, ne),
                lc,
                lc1,
            );
        },
        Value::Scalar(_) => {},
    }
}

/// Two entry lists of equal count and cell width whose wire bytes sit at
/// the same place have equal wire bytes.
proof fn lemma_entries_prefix_det(
    e1: Seq<BlockEntry>,
    e2: Seq<BlockEntry>,
    c: int,
    n: nat,
    bytes: Seq<u8>,
    base: int,
)
    requires
        0 <= c <= e1.len(),
        c <= e2.len(),
        forall|k: int| 0 <= k < c ==> entry_ok(#[trigger] e1[k], n),
        forall|k: int| 0 <= k < c ==> entry_ok(#[trigger] e2[k], n),
        0 <= base,
        base + entries_bytes(e1, c).len() <= bytes.len(),
        bytes.subrange(base, base + entries_bytes(e1, c).len() as int) == entries_bytes(e1, c),
        base + entries_bytes(e2, c).len() <= bytes.len(),
        bytes.subrange(base, base + entries_bytes(e2, c).len() as int) == entries_bytes(e2, c),
    ensures
        entries_bytes(e1, c) == entries_bytes(e2, c),
    decreases c,
{
    if c > 0 {
        lemma_entries_prefix_of_total(e1, c - 1, c);
        lemma_entries_prefix_of_total(e2, c - 1, c);
        lemma_segment_at(
            bytes,
            base,
            entries_bytes(e1, c),
            0,
            entries_bytes(e1, c - 1).len() as int,
        );
        lemma_segment_at(
            bytes,
            base,
            entries_bytes(e2, c),
            0,
            entries_bytes(e2, c - 1).len() as int,
        );
        assert(bytes.subrange(base, base + entries_bytes(e1, c - 1).len() as int)
            == entries_bytes(e1, c - 1));
        assert(bytes.subrange(base, base + entries_bytes(e2, c - 1).len() as int)
            == entries_bytes(e2, c - 1));
        lemma_entries_prefix_det(e1, e2, c - 1, n, bytes, base);
        let lp = entries_bytes(e1, c - 1).len() as int;
        lemma_entries_item_at(e1, c - 1, c, n, bytes, base);
        lemma_entries_item_at(e2, c - 1, c, n, bytes, base);
        match (e1[c - 1].value, e2[c - 1].value) {
            (Value::Column(col1), Value::Column(col2)) => {
                lemma_column_prefix_det(col1, col2, n, bytes, base + lp);
                assert(entries_bytes(e1, c) =~= entries_bytes(e2, c));
            },
            _ => {
                assert(false);
            },
        }
    }
}

/// The wire bytes of a whole batch: row count, entry count, then every
/// column in order.
pub open spec fn block_wire_bytes(b: DataBlock) -> Seq<u8> {
    u64_le_bytes(b.num_rows as u64) + u64_le_bytes(b.entries@.len() as u64) + entries_bytes(
        b.entries@,
        b.entries@.len() as int,
    )
}

/// The unsigned 64-bit pattern of a signed value.
fn i64_wrap_exec(x: i64) -> (r: u64)
    ensures
        r == i64_wrap(x),
{
    if x >= 0 {
        x as u64
    } else {
        ((x as i128) + 0x1_0000_0000_0000_0000i128) as u64
    }
}

/// The signed value of an unsigned 64-bit pattern.
fn i64_unwrap_exec(u: u64) -> (r: i64)
    ensures
        r == i64_unwrap(u),
{
    if u <= i64::MAX as u64 {
        u as i64
    } else {
        ((u as i128) - 0x1_0000_0000_0000_0000i128) as i64
    }
}

/// Appends one column's wire bytes.
fn push_column(out: &mut Vec<u8>, col: &Column)
    requires
        crate::batch::col_wf(*col),
        col matches Column::Str(v) ==> forall|j: int|
            0 <= j < v@.len() ==> vstd::utf8::encode_utf8((#[trigger] v@[j])@).len() <= u64::MAX,
    ensures
        final(out)@ == old(out)@ + column_bytes(*col),
{
    match col {
        Column::Int64(v) => {
            out.push(1u8);
            let n = v.len();
            let ghost header = out@;
            for i in 0..n
                invariant
                    n == v@.len(),
                    out@ == header + i64s_bytes(v@, i as int),
            {
                push_u64_le(out, i64_wrap_exec(v[i]));
            }
            proof {
                assert(out@ =~= old(out)@ + column_bytes(*col));
            }
        },
        Column::UInt64(v) => {
            out.push(2u8);
            let n = v.len();
            let ghost header = out@;
            for i in 0..n
                invariant
                    n == v@.len(),
                    out@ == header + u64s_bytes(v@, i as int),
            {
                push_u64_le(out, v[i]);
            }
            proof {
                assert(out@ =~= old(out)@ + column_bytes(*col));
            }
        },
        Column::NullableUInt64 { values, validity } => {
            out.push(3u8);
            let n = validity.len();
            let ghost header = out@;
            for i in 0..n
                invariant
                    n == validity@.len(),
                    out@ == header + flags_bytes(validity@, i as int),
            {
                if validity[i] {
                    out.push(1u8);
                } else {
                    out.push(0u8);
                }
                proof {
                    assert(out@ =~= header + flags_bytes(validity@, i as int + 1));
                }
            }
            let nv = values.len();
            let ghost header2 = out@;
            for i in 0..nv
                invariant
                    nv == values@.len(),
                    out@ == header2 + u64s_bytes(values@, i as int),
            {
                push_u64_le(out, values[i]);
            }
            proof {
                assert(out@ =~= old(out)@ + column_bytes(*col));
            }
        },
        Column::Str(v) => {
            out.push(4u8);
            let n = v.len();
            let ghost header = out@;
            for i in 0..n
                invariant
                    n == v@.len(),
                    forall|j: int|
                        0 <= j < v@.len() ==> vstd::utf8::encode_utf8((#[trigger] v@[j])@).len()
                            <= u64::MAX,
                    out@ == header + strs_bytes(v@, i as int),
            {
                let mut sb = v[i].as_str().as_bytes_vec();
                push_u64_le(out, sb.len() as u64);
                out.append(&mut sb);
                proof {
                    assert(out@ =~= header + strs_bytes(v@, i as int + 1));
                }
            }
            proof {
                assert(out@ =~= old(out)@ + column_bytes(*col));
            }
        },
    }
}

/// Serializes a batch to its wire bytes.
pub fn encode_block(b: &DataBlock) -> (r: Vec<u8>)
    requires
        wire_encodable(*b),
    ensures
        r@ == block_wire_bytes(*b),
{
    let mut out: Vec<u8> = Vec::new();
    push_u64_le(&mut out, b.num_rows as u64);
    push_u64_le(&mut out, b.entries.len() as u64);
    let ghost header = out@;
    let ne = b.entries.len();
    for c in 0..ne
        invariant
            ne == b.entries@.len(),
            wire_encodable(*b),
            out@ == header + entries_bytes(b.entries@, c as int),
    {
        match &b.entries[c].value {
            Value::Column(col) => {
                push_column(&mut out, col);
                proof {
                    assert(out@ =~= header + entries_bytes(b.entries@, c as int + 1));
                }
            },
            Value::Scalar(_) => {
                return vstd::pervasive::unreached();
            },
        }
    }
    proof {
        assert(out@ =~= block_wire_bytes(*b));
    }
    out
}

/// Relies on `String::from_utf8`: it succeeds exactly on valid UTF-8 and
/// returns the string those bytes spell.
#[verifier::external_body]
fn utf8_to_string(bytes: Vec<u8>) -> (r: Option<String>)
    ensures
        r.is_some() == vstd::utf8::valid_utf8(bytes@),
        r matches Option::Some(s) ==> s@ == vstd::utf8::decode_utf8(bytes@),
{
    String::from_utf8(bytes).ok()
}

/// Reads one little-endian 64-bit value.
fn read_u64(bytes: &Vec<u8>, pos: usize) -> (r: Option<(u64, usize)>)
    requires
        pos <= bytes@.len(),
    ensures
        r.is_some() == (pos + 8 <= bytes@.len()),
        r matches Option::Some(t) ==> t.1 == pos + 8 && bytes@.subrange(pos as int, pos as int + 8)
            == u64_le_bytes(t.0),
{
    if bytes.len() - pos < 8 {
        return Option::None;
    }
    let b0 = bytes[pos];
    let b1 = bytes[pos + 1];
    let b2 = bytes[pos + 2];
    let b3 = bytes[pos + 3];
    let b4 = bytes[pos + 4];
    let b5 = bytes[pos + 5];
    let b6 = bytes[pos + 6];
    let b7 = bytes[pos + 7];
    let v = (b0 as u64) | ((b1 as u64) << 8u64) | ((b2 as u64) << 16u64) | ((b3 as u64) << 24u64)
        | ((b4 as u64) << 32u64) | ((b5 as u64) << 40u64) | ((b6 as u64) << 48u64) | ((b7 as u64)
        << 56u64);
    proof {
        let sub = bytes@.subrange(pos as int, pos as int + 8);
        assert(sub[0] == b0 && sub[1] == b1 && sub[2] == b2 && sub[3] == b3 && sub[4] == b4
            && sub[5] == b5 && sub[6] == b6 && sub[7] == b7);
        assert(v == u64_from_le(sub));
        lemma_u64_le_round_trip(v, sub);
    }
    Option::Some((v, pos + 8))
}

/// Reads one column of `num_rows` values, tag byte included.
#[verifier::rlimit(60)]
/// What holds of any column whose wire bytes sit at `pos`: the tag byte is
/// there and names the kind, and the fixed-width kinds bound the run.
proof fn lemma_col_match_facts(bytes: Seq<u8>, pos: int, n: nat, col: Column)
    requires
        col_matches_at(bytes, pos, n, col),
    ensures
        pos < bytes.len(),
        bytes[pos] == column_bytes(col)[0],
        bytes[pos] == 1u8 || bytes[pos] == 2u8 || bytes[pos] == 3u8 || bytes[pos] == 4u8,
        bytes[pos] == 1u8 ==> col is Int64 && pos + 1 + 8 * n <= bytes.len()
            && column_bytes(col).len() == 1 + 8 * n,
        bytes[pos] == 2u8 ==> col is UInt64 && pos + 1 + 8 * n <= bytes.len()
            && column_bytes(col).len() == 1 + 8 * n,
        bytes[pos] == 3u8 ==> col is NullableUInt64 && pos + 1 + 9 * n <= bytes.len()
            && column_bytes(col).len() == 1 + 9 * n,
        bytes[pos] == 4u8 ==> col is Str,
{
    lemma_column_bytes_shape(col);
    assert(bytes[pos] == bytes.subrange(pos, pos + column_bytes(col).len() as int)[0]);
}

/// Where a string column's wire bytes sit at `pos`, its string list's wire
/// bytes sit right after the tag.
proof fn lemma_str_match_strs_at(bytes: Seq<u8>, pos: int, n: nat, col: Column)
    requires
        col_matches_at(bytes, pos, n, col),
        col is Str,
    ensures
        col matches Column::Str(gv) ==> pos + 1 + strs_bytes(gv@, n as int).len() <= bytes.len()
            && bytes.subrange(pos + 1, pos + 1 + strs_bytes(gv@, n as int).len() as int)
            == strs_bytes(gv@, n as int),
{
    match col {
        Column::Str(gv) => {
            assert(column_bytes(col) == seq![4u8] + strs_bytes(gv@, n as int));
            lemma_segment_at(bytes, pos, column_bytes(col), 1, column_bytes(col).len() as int);
            assert(column_bytes(col).subrange(1, column_bytes(col).len() as int) =~= strs_bytes(
                gv@,
                n as int,
            ));
        },
        _ => {},
    }
}

fn read_column(bytes: &Vec<u8>, pos: usize, num_rows: usize) -> (r: Option<(Column, usize)>)
    requires
        pos <= bytes@.len(),
    ensures
        r matches Option::Some(t) ==> {
            &&& pos <= t.1 <= bytes@.len()
            &&& bytes@.subrange(pos as int, t.1 as int) == column_bytes(t.0)
            &&& crate::batch::col_wf(t.0)
            &&& crate::batch::col_len(t.0) == num_rows
            &&& t.0 matches Column::Str(v) ==> forall|j: int|
                0 <= j < v@.len() ==> vstd::utf8::encode_utf8((#[trigger] v@[j])@).len()
                    <= u64::MAX
        },
        r.is_none() ==> !(exists|col: Column|
            col_matches_at(bytes@, pos as int, num_rows as nat, col)),
        r matches Option::Some(t) ==> forall|col: Column|
            col_matches_at(bytes@, pos as int, num_rows as nat, col) ==> t.1 - pos
                == column_bytes(col).len(),
{
    if pos >= bytes.len() {
        proof {
            if exists|col: Column| col_matches_at(bytes@, pos as int, num_rows as nat, col) {
                let gcol = choose|col: Column|
                    col_matches_at(bytes@, pos as int, num_rows as nat, col);
                lemma_col_match_facts(bytes@, pos as int, num_rows as nat, gcol);
            }
        }
        return Option::None;
    }
    let tag = bytes[pos];
    let start = pos + 1;
    if tag == 1 {
        let mut vals: Vec<i64> = Vec::new();
        let mut p = start;
        for i in 0..num_rows
            invariant
                start <= p <= bytes@.len(),
                start == pos + 1,
                pos < bytes@.len(),
                bytes@[pos as int] == 1u8,
                vals@.len() == i,
                p == pos + 1 + 8 * i,
                bytes@.subrange(start as int, p as int) == i64s_bytes(vals@, i as int),
        {
            let (u, p2) = match read_u64(bytes, p) {
                Option::Some(t) => t,
                Option::None => {
                    proof {
                        if exists|col: Column|
                            col_matches_at(bytes@, pos as int, num_rows as nat, col) {
                            let gcol = choose|col: Column|
                                col_matches_at(bytes@, pos as int, num_rows as nat, col);
                            lemma_col_match_facts(bytes@, pos as int, num_rows as nat, gcol);
                        }
                    }
                    return Option::None;
                },
            };
            let x = i64_unwrap_exec(u);
            let ghost vals0 = vals@;
            vals.push(x);
            proof {
                lemma_i64_wrap_round_trip(x, u);
                lemma_i64s_bytes_prefix(vals@, vals0, i as int);
                assert(bytes@.subrange(start as int, p2 as int) =~= bytes@.subrange(
                    start as int,
                    p as int,
                ) + bytes@.subrange(p as int, p2 as int));
                assert(bytes@.subrange(start as int, p2 as int) =~= i64s_bytes(
                    vals@,
                    i as int + 1,
                ));
            }
            p = p2;
        }
        proof {
            assert(bytes@.subrange(pos as int, p as int) =~= seq![1u8] + bytes@.subrange(
                start as int,
                p as int,
            ));
            assert forall|col: Column|
                col_matches_at(bytes@, pos as int, num_rows as nat, col) implies p - pos
                == column_bytes(col).len() by {
                lemma_col_match_facts(bytes@, pos as int, num_rows as nat, col);
            }
        }
        Option::Some((Column::Int64(vals), p))
    } else if tag == 2 {
        let mut vals: Vec<u64> = Vec::new();
        let mut p = start;
        for i in 0..num_rows
            invariant
                start <= p <= bytes@.len(),
                start == pos + 1,
                pos < bytes@.len(),
                bytes@[pos as int] == 2u8,
                vals@.len() == i,
                p == pos + 1 + 8 * i,
                bytes@.subrange(start as int, p as int) == u64s_bytes(vals@, i as int),
        {
            let (u, p2) = match read_u64(bytes, p) {
                Option::Some(t) => t,
                Option::None => {
                    proof {
                        if exists|col: Column|
                            col_matches_at(bytes@, pos as int, num_rows as nat, col) {
                            let gcol = choose|col: Column|
                                col_matches_at(bytes@, pos as int, num_rows as nat, col);
                            lemma_col_match_facts(bytes@, pos as int, num_rows as nat, gcol);
                        }
                    }
                    return Option::None;
                },
            };
            let ghost vals0 = vals@;
            vals.push(u);
            proof {
                lemma_u64s_bytes_prefix(vals@, vals0, i as int);
                assert(bytes@.subrange(start as int, p2 as int) =~= bytes@.subrange(
                    start as int,
                    p as int,
                ) + bytes@.subrange(p as int, p2 as int));
                assert(bytes@.subrange(start as int, p2 as int) =~= u64s_bytes(
                    vals@,
                    i as int + 1,
                ));
            }
            p = p2;
        }
        proof {
            assert(bytes@.subrange(pos as int, p as int) =~= seq![2u8] + bytes@.subrange(
                start as int,
                p as int,
            ));
            assert forall|col: Column|
                col_matches_at(bytes@, pos as int, num_rows as nat, col) implies p - pos
                == column_bytes(col).len() by {
                lemma_col_match_facts(bytes@, pos as int, num_rows as nat, col);
            }
        }
        Option::Some((Column::UInt64(vals), p))
    } else if tag == 3 {
        let mut validity: Vec<bool> = Vec::new();
        let mut p = start;
        for i in 0..num_rows
            invariant
                start <= p <= bytes@.len(),
                start == pos + 1,
                pos < bytes@.len(),
                bytes@[pos as int] == 3u8,
                validity@.len() == i,
                p == pos + 1 + i,
                bytes@.subrange(start as int, p as int) == flags_bytes(validity@, i as int),
        {
            if p >= bytes.len() {
                proof {
                    if exists|col: Column|
                        col_matches_at(bytes@, pos as int, num_rows as nat, col) {
                        let gcol = choose|col: Column|
                            col_matches_at(bytes@, pos as int, num_rows as nat, col);
                        lemma_col_match_facts(bytes@, pos as int, num_rows as nat, gcol);
                    }
                }
                return Option::None;
            }
            let byte = bytes[p];
            let flag = if byte == 1 {
                true
            } else if byte == 0 {
                false
            } else {
                proof {
                    if exists|col: Column|
                        col_matches_at(bytes@, pos as int, num_rows as nat, col) {
                        let gcol = choose|col: Column|
                            col_matches_at(bytes@, pos as int, num_rows as nat, col);
                        lemma_col_match_facts(bytes@, pos as int, num_rows as nat, gcol);
                        match gcol {
                            Column::NullableUInt64 { values: gvals, validity: gvalid } => {
                                lemma_flags_bytes_len(gvalid@, num_rows as int);
                                lemma_u64s_bytes_len(gvals@, num_rows as int);
                                assert(column_bytes(gcol) == seq![3u8] + flags_bytes(
                                    gvalid@,
                                    num_rows as int,
                                ) + u64s_bytes(gvals@, num_rows as int));
                                assert(bytes@[p as int] == bytes@.subrange(
                                    pos as int,
                                    pos as int + column_bytes(gcol).len() as int,
                                )[1 + i]);
                                assert(column_bytes(gcol)[1 + i] == flags_bytes(
                                    gvalid@,
                                    num_rows as int,
                                )[i as int]);
                            },
                            _ => {
                                assert(false);
                            },
                        }
                    }
                }
                return Option::None;
            };
            let ghost validity0 = validity@;
            validity.push(flag);
            proof {
                lemma_flags_bytes_prefix(validity@, validity0, i as int);
                assert(bytes@.subrange(start as int, p as int + 1) =~= bytes@.subrange(
                    start as int,
                    p as int,
                ) + seq![bytes@[p as int]]);
                assert(bytes@.subrange(start as int, p as int + 1) =~= flags_bytes(
                    validity@,
                    i as int + 1,
                ));
            }
            p = p + 1;
        }
        let ghost flags_end = p as int;
        let mut vals: Vec<u64> = Vec::new();
        for i in 0..num_rows
            invariant
                start <= flags_end <= p <= bytes@.len(),
                start == pos + 1,
                pos < bytes@.len(),
                bytes@[pos as int] == 3u8,
                validity@.len() == num_rows,
                flags_end == pos + 1 + num_rows,
                p == flags_end + 8 * i,
                bytes@.subrange(start as int, flags_end) == flags_bytes(
                    validity@,
                    num_rows as int,
                ),
                vals@.len() == i,
                bytes@.subrange(flags_end, p as int) == u64s_bytes(vals@, i as int),
        {
            let (u, p2) = match read_u64(bytes, p) {
                Option::Some(t) => t,
                Option::None => {
                    proof {
                        if exists|col: Column|
                            col_matches_at(bytes@, pos as int, num_rows as nat, col) {
                            let gcol = choose|col: Column|
                                col_matches_at(bytes@, pos as int, num_rows as nat, col);
                            lemma_col_match_facts(bytes@, pos as int, num_rows as nat, gcol);
                        }
                    }
                    return Option::None;
                },
            };
            let ghost vals0 = vals@;
            vals.push(u);
            proof {
                lemma_u64s_bytes_prefix(vals@, vals0, i as int);
                assert(bytes@.subrange(flags_end, p2 as int) =~= bytes@.subrange(
                    flags_end,
                    p as int,
                ) + bytes@.subrange(p as int, p2 as int));
                assert(bytes@.subrange(flags_end, p2 as int) =~= u64s_bytes(vals@, i as int + 1));
            }
            p = p2;
        }
        proof {
            assert(bytes@.subrange(pos as int, p as int) =~= seq![3u8] + bytes@.subrange(
                start as int,
                flags_end,
            ) + bytes@.subrange(flags_end, p as int));
            assert forall|col: Column|
                col_matches_at(bytes@, pos as int, num_rows as nat, col) implies p - pos
                == column_bytes(col).len() by {
                lemma_col_match_facts(bytes@, pos as int, num_rows as nat, col);
            }
        }
        Option::Some((Column::NullableUInt64 { values: vals, validity }, p))
    } else if tag == 4 {
        let mut vals: Vec<String> = Vec::new();
        let mut p = start;
        for i in 0..num_rows
            invariant
                start <= p <= bytes@.len(),
                start == pos + 1,
                pos < bytes@.len(),
                bytes@[pos as int] == 4u8,
                vals@.len() == i,
                bytes@.subrange(start as int, p as int) == strs_bytes(vals@, i as int),
                forall|j: int|
                    0 <= j < vals@.len() ==> vstd::utf8::encode_utf8((#[trigger] vals@[j])@).len()
                        <= u64::MAX,
        {
            let (len_u, p2) = match read_u64(bytes, p) {
                Option::Some(t) => t,
                Option::None => {
                    proof {
                    if exists|col: Column|
                        col_matches_at(bytes@, pos as int, num_rows as nat, col) {
                        let gcol = choose|col: Column|
                            col_matches_at(bytes@, pos as int, num_rows as nat, col);
                        lemma_col_match_facts(bytes@, pos as int, num_rows as nat, gcol);
                        lemma_str_match_strs_at(bytes@, pos as int, num_rows as nat, gcol);
                        match gcol {
                            Column::Str(gv) => {
                                lemma_strs_align(
                                    vals@,
                                    gv@,
                                    i as int,
                                    num_rows as int,
                                    bytes@,
                                    start as int,
                                    p as int,
                                );
                                lemma_strs_item_at(
                                    gv@,
                                    i as int,
                                    num_rows as int,
                                    bytes@,
                                    start as int,
                                );
                            },
                            _ => {
                                assert(false);
                            },
                        }
                    }
                    }
                    return Option::None;
                },
            };
            if len_u > (bytes.len() - p2) as u64 {
                proof {
                    if exists|col: Column|
                        col_matches_at(bytes@, pos as int, num_rows as nat, col) {
                        let gcol = choose|col: Column|
                            col_matches_at(bytes@, pos as int, num_rows as nat, col);
                        lemma_col_match_facts(bytes@, pos as int, num_rows as nat, gcol);
                        lemma_str_match_strs_at(bytes@, pos as int, num_rows as nat, gcol);
                        match gcol {
                            Column::Str(gv) => {
                                lemma_strs_align(
                                    vals@,
                                    gv@,
                                    i as int,
                                    num_rows as int,
                                    bytes@,
                                    start as int,
                                    p as int,
                                );
                                lemma_strs_item_at(
                                    gv@,
                                    i as int,
                                    num_rows as int,
                                    bytes@,
                                    start as int,
                                );
                                let e = vstd::utf8::encode_utf8(
                                    gv@[i as int]@,
                                );
                                let li = strs_bytes(gv@, i as int).len() as int;
                                assert(bytes@.subrange(p as int, p2 as int) =~= bytes@.subrange(
                                    start as int + li,
                                    start as int + li + 8,
                                ));
                                lemma_u64_le_round_trip(len_u, u64_le_bytes(len_u));
                                lemma_u64_le_round_trip(
                                    e.len() as u64,
                                    u64_le_bytes(e.len() as u64),
                                );
                                assert(len_u == e.len() as u64);
                            },
                            _ => {
                                assert(false);
                            },
                        }
                    }
                }
                return Option::None;
            }
            let slen = len_u as usize;
            proof {
                assert(p2 + slen <= bytes@.len());
            }
            let total = bytes.len();
            let mut sb: Vec<u8> = Vec::new();
            for k in 0..slen
                invariant
                    total == bytes@.len(),
                    p2 + slen <= total,
                    sb@.len() == k,
                    sb@ == bytes@.subrange(p2 as int, p2 as int + k as int),
            {
                proof {
                    assert(p2 + k < bytes@.len());
                }
                sb.push(bytes[p2 + k]);
                proof {
                    assert(sb@ =~= bytes@.subrange(p2 as int, p2 as int + k as int + 1));
                }
            }
            let ghost raw = sb@;
            let s = match utf8_to_string(sb) {
                Option::Some(s) => s,
                Option::None => {
                    proof {
                    if exists|col: Column|
                        col_matches_at(bytes@, pos as int, num_rows as nat, col) {
                        let gcol = choose|col: Column|
                            col_matches_at(bytes@, pos as int, num_rows as nat, col);
                        lemma_col_match_facts(bytes@, pos as int, num_rows as nat, gcol);
                        lemma_str_match_strs_at(bytes@, pos as int, num_rows as nat, gcol);
                        match gcol {
                            Column::Str(gv) => {
                                lemma_strs_align(
                                    vals@,
                                    gv@,
                                    i as int,
                                    num_rows as int,
                                    bytes@,
                                    start as int,
                                    p as int,
                                );
                                lemma_strs_item_at(
                                    gv@,
                                    i as int,
                                    num_rows as int,
                                    bytes@,
                                    start as int,
                                );
                                let e = vstd::utf8::encode_utf8(
                                    gv@[i as int]@,
                                );
                                let li = strs_bytes(gv@, i as int).len() as int;
                                assert(bytes@.subrange(p as int, p2 as int) =~= bytes@.subrange(
                                    start as int + li,
                                    start as int + li + 8,
                                ));
                                lemma_u64_le_round_trip(len_u, u64_le_bytes(len_u));
                                lemma_u64_le_round_trip(
                                    e.len() as u64,
                                    u64_le_bytes(e.len() as u64),
                                );
                                assert(len_u == e.len() as u64);
                                assert(raw =~= e);
                                broadcast use vstd::utf8::encode_utf8_valid_utf8;

                                assert(vstd::utf8::valid_utf8(e));
                            },
                            _ => {
                                assert(false);
                            },
                        }
                    }
                    }
                    return Option::None;
                },
            };
            proof {
                broadcast use vstd::utf8::decode_utf8_encode_utf8;

                assert(vstd::utf8::encode_utf8(s@) == raw);
            }
            let ghost vals0 = vals@;
            vals.push(s);
            let p3 = p2 + slen;
            proof {
                lemma_strs_bytes_prefix(vals@, vals0, i as int);
                assert(bytes@.subrange(start as int, p3 as int) =~= bytes@.subrange(
                    start as int,
                    p as int,
                ) + bytes@.subrange(p as int, p2 as int) + bytes@.subrange(p2 as int, p3 as int));
                assert(bytes@.subrange(p2 as int, p3 as int) =~= raw);
                assert(bytes@.subrange(start as int, p3 as int) =~= strs_bytes(
                    vals@,
                    i as int + 1,
                ));
            }
            p = p3;
        }
        proof {
            assert(bytes@.subrange(pos as int, p as int) =~= seq![4u8] + bytes@.subrange(
                start as int,
                p as int,
            ));
            assert forall|col: Column|
                col_matches_at(bytes@, pos as int, num_rows as nat, col) implies p - pos
                == column_bytes(col).len() by {
                lemma_col_match_facts(bytes@, pos as int, num_rows as nat, col);
                lemma_str_match_strs_at(bytes@, pos as int, num_rows as nat, col);
                match col {
                    Column::Str(gv2) => {
                        lemma_strs_align(
                            vals@,
                            gv2@,
                            num_rows as int,
                            num_rows as int,
                            bytes@,
                            start as int,
                            p as int,
                        );
                        assert(column_bytes(col) == seq![4u8] + strs_bytes(
                            gv2@,
                            num_rows as int,
                        ));
                    },
                    _ => {
                        assert(false);
                    },
                }
            }
        }
        Option::Some((Column::Str(vals), p))
    } else {
        proof {
            if exists|col: Column| col_matches_at(bytes@, pos as int, num_rows as nat, col) {
                let gcol = choose|col: Column|
                    col_matches_at(bytes@, pos as int, num_rows as nat, col);
                lemma_col_match_facts(bytes@, pos as int, num_rows as nat, gcol);
            }
        }
        Option::None
    }
}

/// Entry encodings of the first `upto` entries agree wherever the entries
/// agree.
proof fn lemma_entries_bytes_prefix(a: Seq<BlockEntry>, b: Seq<BlockEntry>, upto: int)
    requires
        upto <= a.len(),
        upto <= b.len(),
        forall|k: int| 0 <= k < upto ==> a[k] == b[k],
    ensures
        entries_bytes(a, upto) == entries_bytes(b, upto),
    decreases upto,
{
    if upto > 0 {
        lemma_entries_bytes_prefix(a, b, upto - 1);
    }
}

/// How a wire-carried batch's bytes decompose: the two header words, then
/// the entries.
proof fn lemma_block_header(gb: DataBlock, bytes: Seq<u8>)
    requires
        wire_encodable(gb),
        block_wire_bytes(gb) == bytes,
    ensures
        bytes.len() == 16 + entries_bytes(gb.entries@, gb.entries@.len() as int).len(),
        bytes.subrange(0, 8) == u64_le_bytes(gb.num_rows as u64),
        bytes.subrange(8, 16) == u64_le_bytes(gb.entries@.len() as u64),
        bytes.subrange(16, bytes.len() as int) == entries_bytes(
            gb.entries@,
            gb.entries@.len() as int,
        ),
{
    let ne = gb.entries@.len() as int;
    assert(bytes == u64_le_bytes(gb.num_rows as u64) + u64_le_bytes(gb.entries@.len() as u64)
        + entries_bytes(gb.entries@, ne));
    assert(bytes.subrange(0, 8) =~= u64_le_bytes(gb.num_rows as u64));
    assert(bytes.subrange(8, 16) =~= u64_le_bytes(gb.entries@.len() as u64));
    assert(bytes.subrange(16, bytes.len() as int) =~= entries_bytes(gb.entries@, ne));
}

/// A parsed entry prefix aligned with a wire-carried batch: equal counts
/// over the same bytes mean equal wire bytes, so the parse position is the
/// batch's own prefix length.
proof fn lemma_block_align(
    gb: DataBlock,
    bytes: Seq<u8>,
    parsed: Seq<BlockEntry>,
    c: int,
    p: int,
    n: nat,
)
    requires
        wire_encodable(gb),
        block_wire_bytes(gb) == bytes,
        n == gb.num_rows,
        0 <= c <= gb.entries@.len(),
        c <= parsed.len(),
        forall|k: int| 0 <= k < c ==> entry_ok(#[trigger] parsed[k], n),
        16 <= p <= bytes.len(),
        bytes.subrange(16, p) == entries_bytes(parsed, c),
    ensures
        entries_bytes(parsed, c) == entries_bytes(gb.entries@, c),
        p == 16 + entries_bytes(gb.entries@, c).len(),
{
    lemma_block_header(gb, bytes);
    let ne = gb.entries@.len() as int;
    lemma_entries_prefix_of_total(gb.entries@, c, ne);
    lemma_segment_at(
        bytes,
        16,
        entries_bytes(gb.entries@, ne),
        0,
        entries_bytes(gb.entries@, c).len() as int,
    );
    assert(entries_bytes(gb.entries@, ne).subrange(0, entries_bytes(gb.entries@, c).len() as int)
        == entries_bytes(gb.entries@, c));
    assert forall|k: int| 0 <= k < c implies entry_ok(#[trigger] gb.entries@[k], n) by {
        assert(crate::batch::value_wf(gb.entries@[k].value, gb.num_rows as nat));
    }
    lemma_entries_prefix_det(parsed, gb.entries@, c, n, bytes, 16);
}

/// Builds the canonical declared type of a wire column.
fn canonical_type_of(col: &Column) -> (r: DataType)
    ensures
        r == canonical_type(*col),
{
    match col {
        Column::Int64(_) => DataType::Number(NumberDataType::Int64),
        Column::UInt64(_) => DataType::Number(NumberDataType::UInt64),
        Column::NullableUInt64 { .. } => DataType::Nullable(
            Box::new(DataType::Number(NumberDataType::UInt64)),
        ),
        Column::Str(_) => DataType::Text,
    }
}

/// Deserializes wire bytes back into a columnar batch. The decoder accepts
/// exactly the canonical encodings: whatever comes back re-encodes to the
/// very bytes read, and whenever the bytes are some batch's wire form the
/// decode succeeds — so the wire carries enough to reconstruct the batch
/// without a side channel, and a serialized batch always arrives.
pub fn decode_block(bytes: &Vec<u8>) -> (r: Option<DataBlock>)
    ensures
        r matches Option::Some(b) ==> wire_encodable(b) && block_wire_bytes(b) == bytes@,
        r.is_none() ==> !(exists|b: DataBlock|
            wire_encodable(b) && block_wire_bytes(b) == bytes@),
{
    let (nr_u, p1) = match read_u64(bytes, 0) {
        Option::Some(t) => t,
        Option::None => {
            proof {
                if exists|b: DataBlock| wire_encodable(b) && block_wire_bytes(b) == bytes@ {
                    let gb = choose|b: DataBlock|
                        wire_encodable(b) && block_wire_bytes(b) == bytes@;
                    lemma_block_header(gb, bytes@);
                }
            }
            return Option::None;
        },
    };
    if nr_u > usize::MAX as u64 {
        proof {
            if exists|b: DataBlock| wire_encodable(b) && block_wire_bytes(b) == bytes@ {
                let gb = choose|b: DataBlock| wire_encodable(b) && block_wire_bytes(b) == bytes@;
                lemma_block_header(gb, bytes@);
                lemma_u64_le_round_trip(nr_u, u64_le_bytes(nr_u));
                lemma_u64_le_round_trip(gb.num_rows as u64, u64_le_bytes(gb.num_rows as u64));
                assert(nr_u == gb.num_rows as u64);
            }
        }
        return Option::None;
    }
    let num_rows = nr_u as usize;
    let (ne_u, p2) = match read_u64(bytes, p1) {
        Option::Some(t) => t,
        Option::None => {
            proof {
                if exists|b: DataBlock| wire_encodable(b) && block_wire_bytes(b) == bytes@ {
                    let gb = choose|b: DataBlock|
                        wire_encodable(b) && block_wire_bytes(b) == bytes@;
                    lemma_block_header(gb, bytes@);
                }
            }
            return Option::None;
        },
    };
    if ne_u > usize::MAX as u64 {
        proof {
            if exists|b: DataBlock| wire_encodable(b) && block_wire_bytes(b) == bytes@ {
                let gb = choose|b: DataBlock| wire_encodable(b) && block_wire_bytes(b) == bytes@;
                lemma_block_header(gb, bytes@);
                vstd::std_specs::vec::axiom_spec_len(&gb.entries);
                lemma_u64_le_round_trip(ne_u, u64_le_bytes(ne_u));
                lemma_u64_le_round_trip(
                    gb.entries@.len() as u64,
                    u64_le_bytes(gb.entries@.len() as u64),
                );
                assert(ne_u == gb.entries@.len() as u64);
            }
        }
        return Option::None;
    }
    let n_entries = ne_u as usize;
    let mut entries: Vec<BlockEntry> = Vec::new();
    let mut p = p2;
    for c in 0..n_entries
        invariant
            p1 == 8,
            p2 == 16,
            p2 <= p <= bytes@.len(),
            bytes@.subrange(0, 8) == u64_le_bytes(nr_u),
            bytes@.subrange(8, 16) == u64_le_bytes(ne_u),
            num_rows == nr_u,
            n_entries == ne_u,
            entries@.len() == c,
            bytes@.subrange(p2 as int, p as int) == entries_bytes(entries@, c as int),
            forall|cc: int|
                0 <= cc < c ==> ((#[trigger] entries@[cc]).value matches Value::Column(col)
                    && entries@[cc].data_type == canonical_type(col)),
            forall|cc: int|
                0 <= cc < c ==> crate::batch::value_wf(
                    (#[trigger] entries@[cc]).value,
                    num_rows as nat,
                ),
            forall|cc: int|
                0 <= cc < c ==> match (#[trigger] entries@[cc]).value {
                    Value::Column(Column::Str(v)) => forall|j: int|
                        0 <= j < v@.len() ==> vstd::utf8::encode_utf8(
                            (#[trigger] v@[j])@,
                        ).len() <= u64::MAX,
                    _ => true,
                },
    {
        let (col, p_next) = match read_column(bytes, p, num_rows) {
            Option::Some(t) => t,
            Option::None => {
                proof {
                    if exists|b: DataBlock| wire_encodable(b) && block_wire_bytes(b) == bytes@ {
                        let gb = choose|b: DataBlock|
                            wire_encodable(b) && block_wire_bytes(b) == bytes@;
                        lemma_block_header(gb, bytes@);
                        vstd::std_specs::vec::axiom_spec_len(&gb.entries);
                        lemma_u64_le_round_trip(nr_u, u64_le_bytes(nr_u));
                        lemma_u64_le_round_trip(
                            gb.num_rows as u64,
                            u64_le_bytes(gb.num_rows as u64),
                        );
                        lemma_u64_le_round_trip(ne_u, u64_le_bytes(ne_u));
                        lemma_u64_le_round_trip(
                            gb.entries@.len() as u64,
                            u64_le_bytes(gb.entries@.len() as u64),
                        );
                        assert(num_rows == gb.num_rows && n_entries == gb.entries@.len());
                        assert forall|cc: int| 0 <= cc < c implies entry_ok(
                            #[trigger] entries@[cc],
                            num_rows as nat,
                        ) by {
                            assert(crate::batch::value_wf(entries@[cc].value, num_rows as nat));
                        }
                        lemma_block_align(
                            gb,
                            bytes@,
                            entries@,
                            c as int,
                            p as int,
                            num_rows as nat,
                        );
                        assert(entry_ok(gb.entries@[c as int], num_rows as nat)) by {
                            assert(crate::batch::value_wf(
                                gb.entries@[c as int].value,
                                gb.num_rows as nat,
                            ));
                        }
                        lemma_entries_item_at(
                            gb.entries@,
                            c as int,
                            gb.entries@.len() as int,
                            num_rows as nat,
                            bytes@,
                            16,
                        );
                    }
                }
                return Option::None;
            },
        };
        let dt = canonical_type_of(&col);
        let ghost entries0 = entries@;
        entries.push(BlockEntry { data_type: dt, value: Value::Column(col) });
        proof {
            lemma_entries_bytes_prefix(entries@, entries0, c as int);
            assert(bytes@.subrange(p2 as int, p_next as int) =~= bytes@.subrange(
                p2 as int,
                p as int,
            ) + bytes@.subrange(p as int, p_next as int));
            assert(bytes@.subrange(p2 as int, p_next as int) =~= entries_bytes(
                entries@,
                c as int + 1,
            ));
        }
        p = p_next;
    }
    if p != bytes.len() {
        proof {
            if exists|b: DataBlock| wire_encodable(b) && block_wire_bytes(b) == bytes@ {
                let gb = choose|b: DataBlock| wire_encodable(b) && block_wire_bytes(b) == bytes@;
                lemma_block_header(gb, bytes@);
                vstd::std_specs::vec::axiom_spec_len(&gb.entries);
                lemma_u64_le_round_trip(nr_u, u64_le_bytes(nr_u));
                lemma_u64_le_round_trip(gb.num_rows as u64, u64_le_bytes(gb.num_rows as u64));
                lemma_u64_le_round_trip(ne_u, u64_le_bytes(ne_u));
                lemma_u64_le_round_trip(
                    gb.entries@.len() as u64,
                    u64_le_bytes(gb.entries@.len() as u64),
                );
                assert(num_rows == gb.num_rows && n_entries == gb.entries@.len());
                assert forall|cc: int| 0 <= cc < n_entries implies entry_ok(
                    #[trigger] entries@[cc],
                    num_rows as nat,
                ) by {
                    assert(crate::batch::value_wf(entries@[cc].value, num_rows as nat));
                }
                lemma_block_align(
                    gb,
                    bytes@,
                    entries@,
                    n_entries as int,
                    p as int,
                    num_rows as nat,
                );
            }
        }
        return Option::None;
    }
    let b = DataBlock { entries, num_rows, meta: Option::None };
    proof {
        assert(block_wire_bytes(b) =~= bytes@);
    }
    Option::Some(b)
}

} // verus!
