//! Big-endian integer fields inside GRIB2 byte buffers.

use vstd::prelude::*;

verus! {

/// The unsigned big-endian value of the 4 bytes of `s` starting at `i`.
pub open spec fn be_u32(s: Seq<u8>, i: int) -> int {
    s[i] * 16777216 + s[i + 1] * 65536 + s[i + 2] * 256 + s[i + 3]
}

/// The unsigned big-endian value of the 8 bytes of `s` starting at `i`.
pub open spec fn be_u64(s: Seq<u8>, i: int) -> int {
    be_u32(s, i) * 4294967296 + be_u32(s, i + 4)
}

/// The 4 big-endian bytes of `v` taken modulo 2^32.
pub open spec fn u32_be(v: int) -> Seq<u8> {
    let w = v % 4294967296;
    seq![
        (w / 16777216) as u8,
        ((w / 65536) % 256) as u8,
        ((w / 256) % 256) as u8,
        (w % 256) as u8,
    ]
}

/// `s` with the 4 bytes at `i` replaced by `b`.
pub open spec fn splice4(s: Seq<u8>, i: int, b: Seq<u8>) -> Seq<u8> {
    s.take(i) + b + s.skip(i + 4)
}

/// Reading back the 4 bytes written for `v` gives `v` modulo 2^32.
pub proof fn lemma_be_u32_of_u32_be(v: int)
    ensures
        be_u32(u32_be(v), 0) == v % 4294967296,
{
    let w = v % 4294967296;
    assert(0 <= w < 4294967296);
    let b = u32_be(v);
    assert(b[0] == w / 16777216);
    assert(b[1] == (w / 65536) % 256);
    assert(b[2] == (w / 256) % 256);
    assert(b[3] == w % 256);
    assert(w == (w / 16777216) * 16777216 + ((w / 65536) % 256) * 65536 + ((w / 256) % 256) * 256
        + w % 256) by (nonlinear_arith)
        requires
            0 <= w < 4294967296,
    ;
}

} // verus!

verus! {

/// The 8 big-endian bytes of `v` taken modulo 2^64.
pub open spec fn u64_be(v: int) -> Seq<u8> {
    let w = v % 18446744073709551616;
    u32_be(w / 4294967296) + u32_be(w % 4294967296)
}

} // verus!

verus! {

/// Reading back the 8 bytes written for `v` gives `v` modulo 2^64.
pub proof fn lemma_be_u64_of_u64_be(v: int)
    ensures
        be_u64(u64_be(v), 0) == v % 18446744073709551616,
{
    let w = v % 18446744073709551616;
    let hi = w / 4294967296;
    let lo = w % 4294967296;
    lemma_be_u32_of_u32_be(hi);
    lemma_be_u32_of_u32_be(lo);
    let b = u64_be(v);
    assert(b.subrange(0, 4) =~= u32_be(hi));
    assert(b.subrange(4, 8) =~= u32_be(lo));
    assert(be_u32(b, 0) == be_u32(u32_be(hi), 0));
    assert(be_u32(b, 4) == be_u32(u32_be(lo), 0));
    assert(hi % 4294967296 == hi);
}

} // verus!

verus! {

/// Writing 4 bytes at `i` leaves the 4 bytes at `j` as they were when the two do not
/// overlap, and makes those at `i` read back as the value written, modulo 2^32.
pub proof fn lemma_splice4_read(s: Seq<u8>, i: int, v: int, j: int)
    requires
        0 <= i,
        i + 4 <= s.len(),
        0 <= j,
        j + 4 <= s.len(),
    ensures
        splice4(s, i, u32_be(v)).len() == s.len(),
        j + 4 <= i || i + 4 <= j ==> be_u32(splice4(s, i, u32_be(v)), j) == be_u32(s, j),
        j == i ==> be_u32(splice4(s, i, u32_be(v)), j) == v % 4294967296,
{
    let t = splice4(s, i, u32_be(v));
    assert(u32_be(v).len() == 4);
    if j + 4 <= i || i + 4 <= j {
        assert(t[j] == s[j] && t[j + 1] == s[j + 1] && t[j + 2] == s[j + 2] && t[j + 3] == s[j + 3]);
    }
    if j == i {
        lemma_be_u32_of_u32_be(v);
        let b = u32_be(v);
        assert(t[j] == b[0] && t[j + 1] == b[1] && t[j + 2] == b[2] && t[j + 3] == b[3]);
    }
}

} // verus!
