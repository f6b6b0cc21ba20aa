//! Decoding of binary arrays: base64 text, optional zlib compression, and
//! little-endian words of a fixed width.

use base64::Engine;
use vstd::prelude::*;

verus! {

#[verifier::external_type_specification]
#[verifier::external_body]
pub struct ExDecodeError(base64::DecodeError);

#[verifier::external_type_specification]
#[verifier::external_body]
pub struct ExInflateDecodeErrors(zune_inflate::errors::InflateDecodeErrors);

/// The bytes that standard-alphabet base64 text stands for, or `None` where
/// the text is not valid base64.
pub uninterp spec fn base64_decoded(s: Seq<char>) -> Option<Seq<u8>>;

/// The bytes that a zlib stream inflates to, or `None` where the stream is
/// malformed or inflates to more than the decoder's default limit.
pub uninterp spec fn zlib_inflated(b: Seq<u8>) -> Option<Seq<u8>>;

/// Relies on base64's `general_purpose::STANDARD.decode`: its result is a
/// function of the text alone.
#[verifier::external_body]
fn base64_decode(data: &str) -> (r: Result<Vec<u8>, base64::DecodeError>)
    ensures
        match r {
            Ok(v) => base64_decoded(data@) == Some(v@),
            Err(_) => base64_decoded(data@) is None,
        },
{
    base64::engine::general_purpose::STANDARD.decode(data)
}

/// Relies on zune_inflate's `DeflateDecoder::new(..).decode_zlib()`, with its
/// default options: its result is a function of the bytes alone.
#[verifier::external_body]
fn inflate_zlib(data: &Vec<u8>) -> (r: Result<Vec<u8>, zune_inflate::errors::InflateDecodeErrors>)
    ensures
        match r {
            Ok(v) => zlib_inflated(data@) == Some(v@),
            Err(_) => zlib_inflated(data@) is None,
        },
{
    zune_inflate::DeflateDecoder::new(data.as_slice()).decode_zlib()
}

/// Base64 text decoded to bytes; `None` where the text is invalid.
pub fn decode_base64(data: &str) -> (r: Option<Vec<u8>>)
    ensures
        match r {
            Some(v) => base64_decoded(data@) == Some(v@),
            None => base64_decoded(data@) is None,
        },
{
    match base64_decode(data) {
        Ok(v) => Some(v),
        Err(_) => None,
    }
}

/// A zlib stream inflated; `None` where the stream is malformed.
pub fn decompress_zlib(data: &Vec<u8>) -> (r: Option<Vec<u8>>)
    ensures
        match r {
            Some(v) => zlib_inflated(data@) == Some(v@),
            None => zlib_inflated(data@) is None,
        },
{
    match inflate_zlib(data) {
        Ok(v) => Some(v),
        Err(_) => None,
    }
}

/// The unsigned number whose little-endian bytes are `b`.
pub open spec fn le_value(b: Seq<u8>) -> nat
    decreases b.len(),
{
    if b.len() == 0 {
        0
    } else {
        b[0] as nat + 256 * le_value(b.drop_first())
    }
}

pub open spec fn pow256(n: nat) -> nat
    decreases n,
{
    if n == 0 {
        1
    } else {
        256 * pow256((n - 1) as nat)
    }
}

/// The bytes cut into consecutive words of `w` bytes, each read little-endian;
/// trailing bytes that do not fill a word are left out.
pub open spec fn le_words(b: Seq<u8>, w: nat) -> Seq<nat>
    recommends
        w > 0,
{
    Seq::new(b.len() / w, |i: int| le_value(b.subrange(i * w, i * w + w)))
}

proof fn lemma_le_value_bound(b: Seq<u8>)
    ensures
        le_value(b) < pow256(b.len()),
    decreases b.len(),
{
    if b.len() > 0 {
        lemma_le_value_bound(b.drop_first());
    }
}

proof fn lemma_pow256_mono(a: nat, b: nat)
    requires
        a <= b,
    ensures
        pow256(a) <= pow256(b),
    decreases b,
{
    if a < b {
        lemma_pow256_mono(a, (b - 1) as nat);
    }
}

/// The little-endian word of `w` bytes at `off`.
fn read_le(b: &[u8], off: usize, w: usize) -> (r: u64)
    requires
        1 <= w <= 8,
        off + w <= b@.len(),
    ensures
        r as nat == le_value(b@.subrange(off as int, off + w)),
{
    let n = b.len();
    let mut j: usize = w;
    let mut acc: u64 = 0;
    while j > 0
        invariant
            j <= w <= 8,
            off + w <= n,
            n == b@.len(),
            acc as nat == le_value(b@.subrange(off + j, off + w)),
        decreases j,
    {
        let ghost rest = b@.subrange(off + j, off + w);
        let ghost cur = b@.subrange(off + j - 1, off + w);
        assert(cur.drop_first() =~= rest);
        proof {
            lemma_le_value_bound(rest);
            lemma_pow256_mono(rest.len(), 7);
            reveal_with_fuel(pow256, 8);
            assert(pow256(7) == 72057594037927936);
        }
        acc = (b[off + j - 1] as u64) + 256 * acc;
        j = j - 1;
    }
    acc
}

/// The bytes read as consecutive little-endian words of `w` bytes.
pub fn decode_words(b: &Vec<u8>, w: usize) -> (r: Vec<u64>)
    requires
        1 <= w <= 8,
    ensures
        r@.len() == le_words(b@, w as nat).len(),
        forall|i: int| 0 <= i < r@.len() ==> r@[i] as nat == #[trigger] le_words(b@, w as nat)[i],
{
    let mut r: Vec<u64> = Vec::new();
    let mut off: usize = 0;
    assert(r@.len() * w == 0) by (nonlinear_arith)
        requires r@.len() == 0;
    while off <= b.len() && w <= b.len() - off
        invariant
            1 <= w <= 8,
            off == r@.len() * w,
            off <= b@.len(),
            forall|i: int|
                0 <= i < r@.len() ==> r@[i] as nat == #[trigger] le_value(
                    b@.subrange(i * w, i * w + w),
                ),
        decreases b@.len() - off,
    {
        let v = read_le(b.as_slice(), off, w);
        r.push(v);
        proof {
            assert((r@.len() - 1) * w == off) by (nonlinear_arith)
                requires off == (r@.len() - 1) * w;
        }
        off = off + w;
        assert(off == r@.len() * w) by (nonlinear_arith)
            requires off == (r@.len() - 1) * w + w;
    }
    assert(r@.len() == b@.len() / (w as nat)) by (nonlinear_arith)
        requires off == r@.len() * w, off <= b@.len(), b@.len() < off + w, w >= 1;
    r
}

} // verus!
