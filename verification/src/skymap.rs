//! The type-erased value-store codec.
//!
//! A value store maps every pixel index `0 .. 12*4^depth` to one value of a
//! single numeric kind out of a closed set of six; the depth is implicit in
//! the array length. The persisted form is a three-byte header — two magic
//! bytes and a kind tag — followed by the values in pixel order, little
//! endian. Floating-point kinds are carried as their IEEE-754 bit patterns
//! (`F32` in `u32`, `F64` in `u64`), which the codec moves byte-for-byte;
//! interpreting the patterns is the caller's business, so the round trip is
//! exact by construction.
//!
//! Every operation dispatches on the kind exactly once, at its entry.

use vstd::prelude::*;

use vstd::bytes::{
    lemma_auto_spec_u16_to_from_le_bytes, lemma_auto_spec_u32_to_from_le_bytes,
    lemma_auto_spec_u64_to_from_le_bytes, spec_u16_from_le_bytes, spec_u16_to_le_bytes,
    spec_u32_from_le_bytes, spec_u32_to_le_bytes, spec_u64_from_le_bytes, spec_u64_to_le_bytes,
    u16_from_le_bytes, u16_to_le_bytes, u32_from_le_bytes, u32_to_le_bytes, u64_from_le_bytes,
    u64_to_le_bytes,
};
use vstd::slice::slice_subrange;

use crate::pix::{depth_from_n_hash, spec_n_hash, MAX_DEPTH};

verus! {

/// First magic byte of the persisted header.
pub const MAGIC0: u8 = 0x53;

/// Second magic byte of the persisted header.
pub const MAGIC1: u8 = 0x4d;

/// Bytes before the body: the two magic bytes and the kind tag.
pub const HEADER_LEN: usize = 3;

/// The closed set of element kinds a value store can hold.
#[derive(Clone, Copy, PartialEq, Eq, Structural, Debug)]
pub enum ValueKind {
    U8,
    I16,
    I32,
    I64,
    F32,
    F64,
}

/// A value store: one flat array of exactly one of the six kinds. The two
/// floating-point kinds hold IEEE-754 bit patterns.
#[derive(Debug, PartialEq)]
pub enum SupportedArray {
    U8(Vec<u8>),
    I16(Vec<i16>),
    I32(Vec<i32>),
    I64(Vec<i64>),
    F32(Vec<u32>),
    F64(Vec<u64>),
}

/// The mathematical value of a store: its kind and element sequence.
pub enum ArraySeq {
    U8(Seq<u8>),
    I16(Seq<i16>),
    I32(Seq<i32>),
    I64(Seq<i64>),
    F32(Seq<u32>),
    F64(Seq<u64>),
}

impl View for SupportedArray {
    type V = ArraySeq;

    open spec fn view(&self) -> ArraySeq {
        match self {
            SupportedArray::U8(v) => ArraySeq::U8(v@),
            SupportedArray::I16(v) => ArraySeq::I16(v@),
            SupportedArray::I32(v) => ArraySeq::I32(v@),
            SupportedArray::I64(v) => ArraySeq::I64(v@),
            SupportedArray::F32(v) => ArraySeq::F32(v@),
            SupportedArray::F64(v) => ArraySeq::F64(v@),
        }
    }
}

/// Why bytes were rejected as a persisted value store, or a store's length
/// as a depth.
#[derive(Clone, Copy, PartialEq, Eq, Structural, Debug)]
pub enum SkymapError {
    /// Fewer bytes than a header.
    TooShort,
    /// The magic bytes are wrong.
    BadMagic,
    /// The kind tag is not one of the six kinds.
    UnknownKind,
    /// The body length is not a whole number of elements.
    Truncated,
    /// The array length is not `12 * 4^depth` for any valid depth.
    InvalidLength,
}

/// Number of elements the store holds.
pub open spec fn arr_len(a: ArraySeq) -> nat {
    match a {
        ArraySeq::U8(v) => v.len(),
        ArraySeq::I16(v) => v.len(),
        ArraySeq::I32(v) => v.len(),
        ArraySeq::I64(v) => v.len(),
        ArraySeq::F32(v) => v.len(),
        ArraySeq::F64(v) => v.len(),
    }
}

/// The header tag coding the store's kind.
pub open spec fn spec_kind_tag(a: ArraySeq) -> u8 {
    match a {
        ArraySeq::U8(_) => 0,
        ArraySeq::I16(_) => 1,
        ArraySeq::I32(_) => 2,
        ArraySeq::I64(_) => 3,
        ArraySeq::F32(_) => 4,
        ArraySeq::F64(_) => 5,
    }
}

/// Element width in bytes of the kind a tag codes.
pub open spec fn tag_size(tag: u8) -> nat {
    if tag == 0 {
        1
    } else if tag == 1 {
        2
    } else if tag == 2 {
        4
    } else if tag == 3 {
        8
    } else if tag == 4 {
        4
    } else {
        8
    }
}

/// Little-endian bytes of a sequence of 16-bit values.
pub open spec fn bytes_of_u16s(v: Seq<u16>) -> Seq<u8> {
    Seq::new(2 * v.len(), |k: int| spec_u16_to_le_bytes(v[k / 2])[k % 2])
}

/// Little-endian bytes of a sequence of 32-bit values.
pub open spec fn bytes_of_u32s(v: Seq<u32>) -> Seq<u8> {
    Seq::new(4 * v.len(), |k: int| spec_u32_to_le_bytes(v[k / 4])[k % 4])
}

/// Little-endian bytes of a sequence of 64-bit values.
pub open spec fn bytes_of_u64s(v: Seq<u64>) -> Seq<u8> {
    Seq::new(8 * v.len(), |k: int| spec_u64_to_le_bytes(v[k / 8])[k % 8])
}

/// 16-bit values read from little-endian bytes.
pub open spec fn u16s_of_bytes(b: Seq<u8>) -> Seq<u16> {
    Seq::new(b.len() / 2, |i: int| spec_u16_from_le_bytes(b.subrange(2 * i, 2 * i + 2)))
}

/// 32-bit values read from little-endian bytes.
pub open spec fn u32s_of_bytes(b: Seq<u8>) -> Seq<u32> {
    Seq::new(b.len() / 4, |i: int| spec_u32_from_le_bytes(b.subrange(4 * i, 4 * i + 4)))
}

/// 64-bit values read from little-endian bytes.
pub open spec fn u64s_of_bytes(b: Seq<u8>) -> Seq<u64> {
    Seq::new(b.len() / 8, |i: int| spec_u64_from_le_bytes(b.subrange(8 * i, 8 * i + 8)))
}

/// The persisted body: the elements in pixel order, little endian, signed
/// kinds as their two's-complement patterns.
pub open spec fn spec_body(a: ArraySeq) -> Seq<u8> {
    match a {
        ArraySeq::U8(v) => v,
        ArraySeq::I16(v) => bytes_of_u16s(v.map_values(|x: i16| x as u16)),
        ArraySeq::I32(v) => bytes_of_u32s(v.map_values(|x: i32| x as u32)),
        ArraySeq::I64(v) => bytes_of_u64s(v.map_values(|x: i64| x as u64)),
        ArraySeq::F32(v) => bytes_of_u32s(v),
        ArraySeq::F64(v) => bytes_of_u64s(v),
    }
}

/// The persisted form: header, then body.
pub open spec fn spec_encoded(a: ArraySeq) -> Seq<u8> {
    seq![MAGIC0, MAGIC1, spec_kind_tag(a)] + spec_body(a)
}

/// The store a whole-element body codes for a kind tag.
pub open spec fn decode_body(tag: u8, body: Seq<u8>) -> ArraySeq {
    if tag == 0 {
        ArraySeq::U8(body)
    } else if tag == 1 {
        ArraySeq::I16(u16s_of_bytes(body).map_values(|x: u16| x as i16))
    } else if tag == 2 {
        ArraySeq::I32(u32s_of_bytes(body).map_values(|x: u32| x as i32))
    } else if tag == 3 {
        ArraySeq::I64(u64s_of_bytes(body).map_values(|x: u64| x as i64))
    } else if tag == 4 {
        ArraySeq::F32(u32s_of_bytes(body))
    } else {
        ArraySeq::F64(u64s_of_bytes(body))
    }
}

/// What loading persisted bytes yields: the store they code, or the first
/// reason they are rejected, checked in the order length, magic, tag,
/// whole elements.
pub open spec fn spec_decode(b: Seq<u8>) -> Result<ArraySeq, SkymapError> {
    if b.len() < 3 {
        Err(SkymapError::TooShort)
    } else if b[0] != MAGIC0 || b[1] != MAGIC1 {
        Err(SkymapError::BadMagic)
    } else if b[2] > 5 {
        Err(SkymapError::UnknownKind)
    } else if (b.len() - 3) as nat % tag_size(b[2]) != 0 {
        Err(SkymapError::Truncated)
    } else {
        Ok(decode_body(b[2], b.skip(3)))
    }
}

/// Appending one value appends its bytes.
proof fn lemma_bytes_of_u16s_step(v: Seq<u16>, i: int)
    requires
        0 <= i < v.len(),
    ensures
        bytes_of_u16s(v.take(i + 1)) == bytes_of_u16s(v.take(i)) + spec_u16_to_le_bytes(v[i]),
{
    lemma_auto_spec_u16_to_from_le_bytes();
    let a = bytes_of_u16s(v.take(i + 1));
    let b = bytes_of_u16s(v.take(i)) + spec_u16_to_le_bytes(v[i]);
    assert forall|k: int| 0 <= k < a.len() implies a[k] == b[k] by {
        assert(k / 2 <= i && (k / 2 == i ==> k % 2 == k - 2 * i)) by (nonlinear_arith)
            requires 0 <= k < 2 * (i + 1);
    }
    assert(a =~= b);
}

/// Appending one value appends its bytes.
proof fn lemma_bytes_of_u32s_step(v: Seq<u32>, i: int)
    requires
        0 <= i < v.len(),
    ensures
        bytes_of_u32s(v.take(i + 1)) == bytes_of_u32s(v.take(i)) + spec_u32_to_le_bytes(v[i]),
{
    lemma_auto_spec_u32_to_from_le_bytes();
    let a = bytes_of_u32s(v.take(i + 1));
    let b = bytes_of_u32s(v.take(i)) + spec_u32_to_le_bytes(v[i]);
    assert forall|k: int| 0 <= k < a.len() implies a[k] == b[k] by {
        assert(k / 4 <= i && (k / 4 == i ==> k % 4 == k - 4 * i)) by (nonlinear_arith)
            requires 0 <= k < 4 * (i + 1);
    }
    assert(a =~= b);
}

/// Appending one value appends its bytes.
proof fn lemma_bytes_of_u64s_step(v: Seq<u64>, i: int)
    requires
        0 <= i < v.len(),
    ensures
        bytes_of_u64s(v.take(i + 1)) == bytes_of_u64s(v.take(i)) + spec_u64_to_le_bytes(v[i]),
{
    lemma_auto_spec_u64_to_from_le_bytes();
    let a = bytes_of_u64s(v.take(i + 1));
    let b = bytes_of_u64s(v.take(i)) + spec_u64_to_le_bytes(v[i]);
    assert forall|k: int| 0 <= k < a.len() implies a[k] == b[k] by {
        assert(k / 8 <= i && (k / 8 == i ==> k % 8 == k - 8 * i)) by (nonlinear_arith)
            requires 0 <= k < 8 * (i + 1);
    }
    assert(a =~= b);
}

/// Appends every byte as it stands.
fn put_u8s(out: &mut Vec<u8>, v: &Vec<u8>)
    ensures
        final(out)@ == old(out)@ + v@,
{
    let n = v.len();
    let mut i: usize = 0;
    while i < n
        invariant
            n == v@.len(),
            i <= n,
            out@ == old(out)@ + v@.take(i as int),
        decreases n - i,
    {
        out.push(v[i]);
        proof {
            assert(old(out)@ + v@.take(i + 1) =~= (old(out)@ + v@.take(i as int)).push(
                v@[i as int],
            ));
        }
        i = i + 1;
    }
    proof {
        assert(v@.take(n as int) =~= v@);
    }
}

/// Appends the little-endian bytes of every 16-bit value.
fn put_u16s(out: &mut Vec<u8>, v: &Vec<u16>)
    ensures
        final(out)@ == old(out)@ + bytes_of_u16s(v@),
{
    let n = v.len();
    let mut i: usize = 0;
    proof {
        assert(bytes_of_u16s(v@.take(0)) =~= Seq::<u8>::empty());
        assert(out@ =~= old(out)@ + bytes_of_u16s(v@.take(0)));
    }
    while i < n
        invariant
            n == v@.len(),
            i <= n,
            out@ == old(out)@ + bytes_of_u16s(v@.take(i as int)),
        decreases n - i,
    {
        let bs = u16_to_le_bytes(v[i]);
        out.push(bs[0]);
        out.push(bs[1]);
        proof {
            lemma_auto_spec_u16_to_from_le_bytes();
            lemma_bytes_of_u16s_step(v@, i as int);
            assert(out@ =~= old(out)@ + bytes_of_u16s(v@.take(i + 1)));
        }
        i = i + 1;
    }
    proof {
        assert(v@.take(n as int) =~= v@);
    }
}

/// Appends the little-endian bytes of every 32-bit value.
fn put_u32s(out: &mut Vec<u8>, v: &Vec<u32>)
    ensures
        final(out)@ == old(out)@ + bytes_of_u32s(v@),
{
    let n = v.len();
    let mut i: usize = 0;
    proof {
        assert(bytes_of_u32s(v@.take(0)) =~= Seq::<u8>::empty());
        assert(out@ =~= old(out)@ + bytes_of_u32s(v@.take(0)));
    }
    while i < n
        invariant
            n == v@.len(),
            i <= n,
            out@ == old(out)@ + bytes_of_u32s(v@.take(i as int)),
        decreases n - i,
    {
        let bs = u32_to_le_bytes(v[i]);
        out.push(bs[0]);
        out.push(bs[1]);
        out.push(bs[2]);
        out.push(bs[3]);
        proof {
            lemma_auto_spec_u32_to_from_le_bytes();
            lemma_bytes_of_u32s_step(v@, i as int);
            assert(out@ =~= old(out)@ + bytes_of_u32s(v@.take(i + 1)));
        }
        i = i + 1;
    }
    proof {
        assert(v@.take(n as int) =~= v@);
    }
}

/// Appends the little-endian bytes of every 64-bit value.
fn put_u64s(out: &mut Vec<u8>, v: &Vec<u64>)
    ensures
        final(out)@ == old(out)@ + bytes_of_u64s(v@),
{
    let n = v.len();
    let mut i: usize = 0;
    proof {
        assert(bytes_of_u64s(v@.take(0)) =~= Seq::<u8>::empty());
        assert(out@ =~= old(out)@ + bytes_of_u64s(v@.take(0)));
    }
    while i < n
        invariant
            n == v@.len(),
            i <= n,
            out@ == old(out)@ + bytes_of_u64s(v@.take(i as int)),
        decreases n - i,
    {
        let bs = u64_to_le_bytes(v[i]);
        out.push(bs[0]);
        out.push(bs[1]);
        out.push(bs[2]);
        out.push(bs[3]);
        out.push(bs[4]);
        out.push(bs[5]);
        out.push(bs[6]);
        out.push(bs[7]);
        proof {
            lemma_auto_spec_u64_to_from_le_bytes();
            lemma_bytes_of_u64s_step(v@, i as int);
            assert(out@ =~= old(out)@ + bytes_of_u64s(v@.take(i + 1)));
        }
        i = i + 1;
    }
    proof {
        assert(v@.take(n as int) =~= v@);
    }
}

/// Reinterprets every 16-bit value as its unsigned pattern.
fn i16s_to_u16s(v: &Vec<i16>) -> (r: Vec<u16>)
    ensures
        r@ == v@.map_values(|x: i16| x as u16),
{
    let n = v.len();
    let mut r: Vec<u16> = Vec::new();
    let mut i: usize = 0;
    while i < n
        invariant
            n == v@.len(),
            i <= n,
            r@ == v@.take(i as int).map_values(|x: i16| x as u16),
        decreases n - i,
    {
        r.push(v[i] as u16);
        proof {
            assert(v@.take(i + 1).map_values(|x: i16| x as u16) =~= v@.take(
                i as int,
            ).map_values(|x: i16| x as u16).push(v@[i as int] as u16));
        }
        i = i + 1;
    }
    proof {
        assert(v@.take(n as int) =~= v@);
    }
    r
}

/// Reinterprets every 32-bit value as its unsigned pattern.
fn i32s_to_u32s(v: &Vec<i32>) -> (r: Vec<u32>)
    ensures
        r@ == v@.map_values(|x: i32| x as u32),
{
    let n = v.len();
    let mut r: Vec<u32> = Vec::new();
    let mut i: usize = 0;
    while i < n
        invariant
            n == v@.len(),
            i <= n,
            r@ == v@.take(i as int).map_values(|x: i32| x as u32),
        decreases n - i,
    {
        r.push(v[i] as u32);
        proof {
            assert(v@.take(i + 1).map_values(|x: i32| x as u32) =~= v@.take(
                i as int,
            ).map_values(|x: i32| x as u32).push(v@[i as int] as u32));
        }
        i = i + 1;
    }
    proof {
        assert(v@.take(n as int) =~= v@);
    }
    r
}

/// Reinterprets every 64-bit value as its unsigned pattern.
fn i64s_to_u64s(v: &Vec<i64>) -> (r: Vec<u64>)
    ensures
        r@ == v@.map_values(|x: i64| x as u64),
{
    let n = v.len();
    let mut r: Vec<u64> = Vec::new();
    let mut i: usize = 0;
    while i < n
        invariant
            n == v@.len(),
            i <= n,
            r@ == v@.take(i as int).map_values(|x: i64| x as u64),
        decreases n - i,
    {
        r.push(v[i] as u64);
        proof {
            assert(v@.take(i + 1).map_values(|x: i64| x as u64) =~= v@.take(
                i as int,
            ).map_values(|x: i64| x as u64).push(v@[i as int] as u64));
        }
        i = i + 1;
    }
    proof {
        assert(v@.take(n as int) =~= v@);
    }
    r
}

/// Reads every 16-bit value of a whole-element body.
fn take_u16s(body: &[u8]) -> (r: Vec<u16>)
    requires
        body@.len() % 2 == 0,
    ensures
        r@ == u16s_of_bytes(body@),
{
    let n = body.len();
    let mut r: Vec<u16> = Vec::new();
    let mut i: usize = 0;
    while i < n / 2
        invariant
            n == body@.len(),
            n % 2 == 0,
            i <= n / 2,
            r@.len() == i,
            forall|k: int|
                0 <= k < i ==> r@[k] == spec_u16_from_le_bytes(
                    body@.subrange(2 * k, 2 * k + 2),
                ),
        decreases n / 2 - i,
    {
        let x = u16_from_le_bytes(slice_subrange(body, 2 * i, 2 * i + 2));
        r.push(x);
        i = i + 1;
    }
    proof {
        assert(r@ =~= u16s_of_bytes(body@));
    }
    r
}

/// Reads every 32-bit value of a whole-element body.
fn take_u32s(body: &[u8]) -> (r: Vec<u32>)
    requires
        body@.len() % 4 == 0,
    ensures
        r@ == u32s_of_bytes(body@),
{
    let n = body.len();
    let mut r: Vec<u32> = Vec::new();
    let mut i: usize = 0;
    while i < n / 4
        invariant
            n == body@.len(),
            n % 4 == 0,
            i <= n / 4,
            r@.len() == i,
            forall|k: int|
                0 <= k < i ==> r@[k] == spec_u32_from_le_bytes(
                    body@.subrange(4 * k, 4 * k + 4),
                ),
        decreases n / 4 - i,
    {
        let x = u32_from_le_bytes(slice_subrange(body, 4 * i, 4 * i + 4));
        r.push(x);
        i = i + 1;
    }
    proof {
        assert(r@ =~= u32s_of_bytes(body@));
    }
    r
}

/// Reads every 64-bit value of a whole-element body.
fn take_u64s(body: &[u8]) -> (r: Vec<u64>)
    requires
        body@.len() % 8 == 0,
    ensures
        r@ == u64s_of_bytes(body@),
{
    let n = body.len();
    let mut r: Vec<u64> = Vec::new();
    let mut i: usize = 0;
    while i < n / 8
        invariant
            n == body@.len(),
            n % 8 == 0,
            i <= n / 8,
            r@.len() == i,
            forall|k: int|
                0 <= k < i ==> r@[k] == spec_u64_from_le_bytes(
                    body@.subrange(8 * k, 8 * k + 8),
                ),
        decreases n / 8 - i,
    {
        let x = u64_from_le_bytes(slice_subrange(body, 8 * i, 8 * i + 8));
        r.push(x);
        i = i + 1;
    }
    proof {
        assert(r@ =~= u64s_of_bytes(body@));
    }
    r
}

/// Reinterprets every unsigned 16-bit pattern as its signed value.
fn u16s_to_i16s(v: &Vec<u16>) -> (r: Vec<i16>)
    ensures
        r@ == v@.map_values(|x: u16| x as i16),
{
    let n = v.len();
    let mut r: Vec<i16> = Vec::new();
    let mut i: usize = 0;
    while i < n
        invariant
            n == v@.len(),
            i <= n,
            r@ == v@.take(i as int).map_values(|x: u16| x as i16),
        decreases n - i,
    {
        r.push(v[i] as i16);
        proof {
            assert(v@.take(i + 1).map_values(|x: u16| x as i16) =~= v@.take(
                i as int,
            ).map_values(|x: u16| x as i16).push(v@[i as int] as i16));
        }
        i = i + 1;
    }
    proof {
        assert(v@.take(n as int) =~= v@);
    }
    r
}

/// Reinterprets every unsigned 32-bit pattern as its signed value.
fn u32s_to_i32s(v: &Vec<u32>) -> (r: Vec<i32>)
    ensures
        r@ == v@.map_values(|x: u32| x as i32),
{
    let n = v.len();
    let mut r: Vec<i32> = Vec::new();
    let mut i: usize = 0;
    while i < n
        invariant
            n == v@.len(),
            i <= n,
            r@ == v@.take(i as int).map_values(|x: u32| x as i32),
        decreases n - i,
    {
        r.push(v[i] as i32);
        proof {
            assert(v@.take(i + 1).map_values(|x: u32| x as i32) =~= v@.take(
                i as int,
            ).map_values(|x: u32| x as i32).push(v@[i as int] as i32));
        }
        i = i + 1;
    }
    proof {
        assert(v@.take(n as int) =~= v@);
    }
    r
}

/// Reinterprets every unsigned 64-bit pattern as its signed value.
fn u64s_to_i64s(v: &Vec<u64>) -> (r: Vec<i64>)
    ensures
        r@ == v@.map_values(|x: u64| x as i64),
{
    let n = v.len();
    let mut r: Vec<i64> = Vec::new();
    let mut i: usize = 0;
    while i < n
        invariant
            n == v@.len(),
            i <= n,
            r@ == v@.take(i as int).map_values(|x: u64| x as i64),
        decreases n - i,
    {
        r.push(v[i] as i64);
        proof {
            assert(v@.take(i + 1).map_values(|x: u64| x as i64) =~= v@.take(
                i as int,
            ).map_values(|x: u64| x as i64).push(v@[i as int] as i64));
        }
        i = i + 1;
    }
    proof {
        assert(v@.take(n as int) =~= v@);
    }
    r
}

/// Deserializes persisted bytes back into a value store.
///
/// Fails exactly on bytes [`spec_decode`] rejects, with the same error:
/// too short for a header, wrong magic, unknown kind tag, or a body that is
/// not a whole number of elements.
pub fn decode_skymap(bytes: &Vec<u8>) -> (r: Result<SupportedArray, SkymapError>)
    ensures
        match r {
            Ok(s) => spec_decode(bytes@) == Ok::<ArraySeq, SkymapError>(s@),
            Err(e) => spec_decode(bytes@) == Err::<ArraySeq, SkymapError>(e),
        },
{
    let n = bytes.len();
    if n < HEADER_LEN {
        return Err(SkymapError::TooShort);
    }
    if bytes[0] != MAGIC0 || bytes[1] != MAGIC1 {
        return Err(SkymapError::BadMagic);
    }
    let tag = bytes[2];
    if tag > 5 {
        return Err(SkymapError::UnknownKind);
    }
    let size: usize = if tag == 0 {
        1
    } else if tag == 1 {
        2
    } else if tag == 2 {
        4
    } else if tag == 3 {
        8
    } else if tag == 4 {
        4
    } else {
        8
    };
    if (n - 3) % size != 0 {
        return Err(SkymapError::Truncated);
    }
    let body = slice_subrange(bytes.as_slice(), HEADER_LEN, n);
    proof {
        assert(bytes@.subrange(3, n as int) =~= bytes@.skip(3));
    }
    if tag == 0 {
        Ok(SupportedArray::U8(vstd::slice::slice_to_vec(body)))
    } else if tag == 1 {
        let u = take_u16s(body);
        Ok(SupportedArray::I16(u16s_to_i16s(&u)))
    } else if tag == 2 {
        let u = take_u32s(body);
        Ok(SupportedArray::I32(u32s_to_i32s(&u)))
    } else if tag == 3 {
        let u = take_u64s(body);
        Ok(SupportedArray::I64(u64s_to_i64s(&u)))
    } else if tag == 4 {
        Ok(SupportedArray::F32(take_u32s(body)))
    } else {
        Ok(SupportedArray::F64(take_u64s(body)))
    }
}

/// Serializes a value store: the three-byte header, then the body in pixel
/// order, little endian.
pub fn encode_skymap(values: &SupportedArray) -> (r: Vec<u8>)
    ensures
        r@ == spec_encoded(values@),
{
    let mut out: Vec<u8> = Vec::new();
    out.push(MAGIC0);
    out.push(MAGIC1);
    match values {
        SupportedArray::U8(v) => {
            out.push(0);
            proof {
                assert(out@ =~= seq![MAGIC0, MAGIC1, spec_kind_tag(values@)]);
            }
            put_u8s(&mut out, v);
        },
        SupportedArray::I16(v) => {
            out.push(1);
            proof {
                assert(out@ =~= seq![MAGIC0, MAGIC1, spec_kind_tag(values@)]);
            }
            let u = i16s_to_u16s(v);
            put_u16s(&mut out, &u);
        },
        SupportedArray::I32(v) => {
            out.push(2);
            proof {
                assert(out@ =~= seq![MAGIC0, MAGIC1, spec_kind_tag(values@)]);
            }
            let u = i32s_to_u32s(v);
            put_u32s(&mut out, &u);
        },
        SupportedArray::I64(v) => {
            out.push(3);
            proof {
                assert(out@ =~= seq![MAGIC0, MAGIC1, spec_kind_tag(values@)]);
            }
            let u = i64s_to_u64s(v);
            put_u64s(&mut out, &u);
        },
        SupportedArray::F32(v) => {
            out.push(4);
            proof {
                assert(out@ =~= seq![MAGIC0, MAGIC1, spec_kind_tag(values@)]);
            }
            put_u32s(&mut out, v);
        },
        SupportedArray::F64(v) => {
            out.push(5);
            proof {
                assert(out@ =~= seq![MAGIC0, MAGIC1, spec_kind_tag(values@)]);
            }
            put_u64s(&mut out, v);
        },
    }
    out
}

/// Writing 16-bit values and reading them back is the identity.
proof fn lemma_u16s_round_trip(v: Seq<u16>)
    ensures
        u16s_of_bytes(bytes_of_u16s(v)) == v,
{
    lemma_auto_spec_u16_to_from_le_bytes();
    let b = bytes_of_u16s(v);
    assert forall|i: int| 0 <= i < v.len() implies u16s_of_bytes(b)[i] == v[i] by {
        assert(b.subrange(2 * i, 2 * i + 2) =~= spec_u16_to_le_bytes(v[i])) by {
            assert forall|k: int| 0 <= k < 2 implies b.subrange(2 * i, 2 * i + 2)[k]
                == spec_u16_to_le_bytes(v[i])[k] by {
                assert((2 * i + k) / 2 == i && (2 * i + k) % 2 == k) by (nonlinear_arith)
                    requires 0 <= k < 2, 0 <= i;
            }
        }
    }
    assert(u16s_of_bytes(b) =~= v);
}

/// Writing 32-bit values and reading them back is the identity.
proof fn lemma_u32s_round_trip(v: Seq<u32>)
    ensures
        u32s_of_bytes(bytes_of_u32s(v)) == v,
{
    lemma_auto_spec_u32_to_from_le_bytes();
    let b = bytes_of_u32s(v);
    assert forall|i: int| 0 <= i < v.len() implies u32s_of_bytes(b)[i] == v[i] by {
        assert(b.subrange(4 * i, 4 * i + 4) =~= spec_u32_to_le_bytes(v[i])) by {
            assert forall|k: int| 0 <= k < 4 implies b.subrange(4 * i, 4 * i + 4)[k]
                == spec_u32_to_le_bytes(v[i])[k] by {
                assert((4 * i + k) / 4 == i && (4 * i + k) % 4 == k) by (nonlinear_arith)
                    requires 0 <= k < 4, 0 <= i;
            }
        }
    }
    assert(u32s_of_bytes(b) =~= v);
}

/// Writing 64-bit values and reading them back is the identity.
proof fn lemma_u64s_round_trip(v: Seq<u64>)
    ensures
        u64s_of_bytes(bytes_of_u64s(v)) == v,
{
    lemma_auto_spec_u64_to_from_le_bytes();
    let b = bytes_of_u64s(v);
    assert forall|i: int| 0 <= i < v.len() implies u64s_of_bytes(b)[i] == v[i] by {
        assert(b.subrange(8 * i, 8 * i + 8) =~= spec_u64_to_le_bytes(v[i])) by {
            assert forall|k: int| 0 <= k < 8 implies b.subrange(8 * i, 8 * i + 8)[k]
                == spec_u64_to_le_bytes(v[i])[k] by {
                assert((8 * i + k) / 8 == i && (8 * i + k) % 8 == k) by (nonlinear_arith)
                    requires 0 <= k < 8, 0 <= i;
            }
        }
    }
    assert(u64s_of_bytes(b) =~= v);
}

/// Law: saving a value store and loading the bytes back yields the same
/// store — the same kind and a byte-identical array, whatever the kind and
/// whatever the length.
pub proof fn lemma_codec_round_trip(a: ArraySeq)
    ensures
        spec_decode(spec_encoded(a)) == Ok::<ArraySeq, SkymapError>(a),
{
    let e = spec_encoded(a);
    let body = spec_body(a);
    assert(e.skip(3) =~= body);
    match a {
        ArraySeq::U8(v) => {
            assert(decode_body(0, body) == a);
        },
        ArraySeq::I16(v) => {
            let u = v.map_values(|x: i16| x as u16);
            lemma_u16s_round_trip(u);
            assert(body.len() == 2 * u.len());
            assert((2 * u.len()) % 2 == 0) by (nonlinear_arith);
            assert(u.map_values(|x: u16| x as i16) =~= v) by {
                assert forall|i: int| 0 <= i < v.len() implies u.map_values(|x: u16| x as i16)[i]
                    == v[i] by {
                    let x = v[i];
                    assert(((x as u16) as i16) == x) by (bit_vector);
                }
            }
            assert(decode_body(1, body) == a);
        },
        ArraySeq::I32(v) => {
            let u = v.map_values(|x: i32| x as u32);
            lemma_u32s_round_trip(u);
            assert(body.len() == 4 * u.len());
            assert((4 * u.len()) % 4 == 0) by (nonlinear_arith);
            assert(u.map_values(|x: u32| x as i32) =~= v) by {
                assert forall|i: int| 0 <= i < v.len() implies u.map_values(|x: u32| x as i32)[i]
                    == v[i] by {
                    let x = v[i];
                    assert(((x as u32) as i32) == x) by (bit_vector);
                }
            }
            assert(decode_body(2, body) == a);
        },
        ArraySeq::I64(v) => {
            let u = v.map_values(|x: i64| x as u64);
            lemma_u64s_round_trip(u);
            assert(body.len() == 8 * u.len());
            assert((8 * u.len()) % 8 == 0) by (nonlinear_arith);
            assert(u.map_values(|x: u64| x as i64) =~= v) by {
                assert forall|i: int| 0 <= i < v.len() implies u.map_values(|x: u64| x as i64)[i]
                    == v[i] by {
                    let x = v[i];
                    assert(((x as u64) as i64) == x) by (bit_vector);
                }
            }
            assert(decode_body(3, body) == a);
        },
        ArraySeq::F32(v) => {
            lemma_u32s_round_trip(v);
            assert(body.len() == 4 * v.len());
            assert((4 * v.len()) % 4 == 0) by (nonlinear_arith);
            assert(decode_body(4, body) == a);
        },
        ArraySeq::F64(v) => {
            lemma_u64s_round_trip(v);
            assert(body.len() == 8 * v.len());
            assert((8 * v.len()) % 8 == 0) by (nonlinear_arith);
            assert(decode_body(5, body) == a);
        },
    }
}

/// The tag a kind is persisted under.
pub open spec fn tag_of_kind(k: ValueKind) -> u8 {
    match k {
        ValueKind::U8 => 0,
        ValueKind::I16 => 1,
        ValueKind::I32 => 2,
        ValueKind::I64 => 3,
        ValueKind::F32 => 4,
        ValueKind::F64 => 5,
    }
}

impl SupportedArray {
    /// Number of pixels the store maps.
    pub fn n_hash(&self) -> (r: u64)
        ensures
            r as nat == arr_len(self@),
    {
        match self {
            SupportedArray::U8(v) => v.len() as u64,
            SupportedArray::I16(v) => v.len() as u64,
            SupportedArray::I32(v) => v.len() as u64,
            SupportedArray::I64(v) => v.len() as u64,
            SupportedArray::F32(v) => v.len() as u64,
            SupportedArray::F64(v) => v.len() as u64,
        }
    }

    /// The store's element kind.
    pub fn kind(&self) -> (k: ValueKind)
        ensures
            tag_of_kind(k) == spec_kind_tag(self@),
    {
        match self {
            SupportedArray::U8(_) => ValueKind::U8,
            SupportedArray::I16(_) => ValueKind::I16,
            SupportedArray::I32(_) => ValueKind::I32,
            SupportedArray::I64(_) => ValueKind::I64,
            SupportedArray::F32(_) => ValueKind::F32,
            SupportedArray::F64(_) => ValueKind::F64,
        }
    }
}

/// The depth a value store's length implies, from `12 * 4^depth = length`.
///
/// Fails exactly when no valid depth satisfies the equation.
pub fn depth_skymap(values: &SupportedArray) -> (r: Result<u8, SkymapError>)
    ensures
        match r {
            Ok(d) => d <= MAX_DEPTH && spec_n_hash(d as nat) == arr_len(values@),
            Err(e) => e == SkymapError::InvalidLength && forall|d: nat|
                d <= MAX_DEPTH as nat ==> spec_n_hash(d) != arr_len(values@),
        },
{
    match depth_from_n_hash(values.n_hash()) {
        Some(d) => Ok(d),
        None => Err(SkymapError::InvalidLength),
    }
}

/// Byte length of a rasterized image of the given size: `image_size` rows
/// of `2 * image_size` pixels, four bytes each.
pub fn image_buffer_len(image_size: u16) -> (r: u64)
    ensures
        r == 8 * (image_size as nat) * (image_size as nat),
{
    let s = image_size as u64;
    proof {
        assert((8 * (image_size as int)) * (image_size as int) < 0x800000000) by (nonlinear_arith)
            requires image_size < 65536;
    }
    8 * s * s
}

} // verus!
