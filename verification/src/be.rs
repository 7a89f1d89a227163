use vstd::prelude::*;

verus! {

// Big-endian byte strings of the fixed-width unsigned integers.  They are
// written as shifts so that executable encoders and decoders match them
// directly; the lemmas give both round trips.

pub open spec fn u16_bytes(x: u16) -> Seq<u8> {
    seq![(x >> 8) as u8, x as u8]
}

pub open spec fn u16_of_bytes(b: Seq<u8>) -> u16
    recommends
        b.len() >= 2,
{
    (((b[0] as u16) << 8) | (b[1] as u16))
}

pub proof fn lemma_u16_round_trip(x: u16)
    ensures
        u16_of_bytes(u16_bytes(x)) == x,
{
    let b0 = (x >> 8) as u8;
    let b1 = x as u8;
    assert((((b0 as u16) << 8) | (b1 as u16)) == x) by (bit_vector)
        requires
            b0 == (x >> 8) as u8,
            b1 == x as u8,
    ;
}

pub proof fn lemma_u16_bytes_of(b: Seq<u8>)
    requires
        b.len() >= 2,
    ensures
        u16_bytes(u16_of_bytes(b)) == seq![b[0], b[1]],
{
    let b0 = b[0];
    let b1 = b[1];
    let x: u16 = ((b0 as u16) << 8) | (b1 as u16);
    assert((x >> 8) as u8 == b0 && x as u8 == b1) by (bit_vector)
        requires
            x == (((b0 as u16) << 8) | (b1 as u16)),
    ;
    assert(u16_bytes(x) =~= seq![b0, b1]);
}

pub open spec fn u32_bytes(x: u32) -> Seq<u8> {
    seq![(x >> 24) as u8, (x >> 16) as u8, (x >> 8) as u8, x as u8]
}

pub open spec fn u32_of_bytes(b: Seq<u8>) -> u32
    recommends
        b.len() >= 4,
{
    (((b[0] as u32) << 24) | ((b[1] as u32) << 16) | ((b[2] as u32) << 8) | (b[3] as u32))
}

pub proof fn lemma_u32_round_trip(x: u32)
    ensures
        u32_of_bytes(u32_bytes(x)) == x,
{
    let b0 = (x >> 24) as u8;
    let b1 = (x >> 16) as u8;
    let b2 = (x >> 8) as u8;
    let b3 = x as u8;
    assert((((b0 as u32) << 24) | ((b1 as u32) << 16) | ((b2 as u32) << 8) | (b3 as u32)) == x)
        by (bit_vector)
        requires
            b0 == (x >> 24) as u8,
            b1 == (x >> 16) as u8,
            b2 == (x >> 8) as u8,
            b3 == x as u8,
    ;
}

pub proof fn lemma_u32_bytes_of(b: Seq<u8>)
    requires
        b.len() >= 4,
    ensures
        u32_bytes(u32_of_bytes(b)) == seq![b[0], b[1], b[2], b[3]],
{
    let b0 = b[0];
    let b1 = b[1];
    let b2 = b[2];
    let b3 = b[3];
    let x: u32 = ((b0 as u32) << 24) | ((b1 as u32) << 16) | ((b2 as u32) << 8) | (b3 as u32);
    assert((x >> 24) as u8 == b0 && (x >> 16) as u8 == b1 && (x >> 8) as u8 == b2 && x as u8 == b3)
        by (bit_vector)
        requires
            x == (((b0 as u32) << 24) | ((b1 as u32) << 16) | ((b2 as u32) << 8) | (b3 as u32)),
    ;
    assert(u32_bytes(x) =~= seq![b0, b1, b2, b3]);
}

pub open spec fn u64_bytes(x: u64) -> Seq<u8> {
    seq![
        (x >> 56) as u8,
        (x >> 48) as u8,
        (x >> 40) as u8,
        (x >> 32) as u8,
        (x >> 24) as u8,
        (x >> 16) as u8,
        (x >> 8) as u8,
        x as u8,
    ]
}

pub open spec fn u64_of_bytes(b: Seq<u8>) -> u64
    recommends
        b.len() >= 8,
{
    (((b[0] as u64) << 56) | ((b[1] as u64) << 48) | ((b[2] as u64) << 40) | ((b[3] as u64) << 32)
        | ((b[4] as u64) << 24) | ((b[5] as u64) << 16) | ((b[6] as u64) << 8) | (b[7] as u64))
}

pub proof fn lemma_u64_round_trip(x: u64)
    ensures
        u64_of_bytes(u64_bytes(x)) == x,
{
    let b0 = (x >> 56) as u8;
    let b1 = (x >> 48) as u8;
    let b2 = (x >> 40) as u8;
    let b3 = (x >> 32) as u8;
    let b4 = (x >> 24) as u8;
    let b5 = (x >> 16) as u8;
    let b6 = (x >> 8) as u8;
    let b7 = x as u8;
    assert((((b0 as u64) << 56) | ((b1 as u64) << 48) | ((b2 as u64) << 40) | ((b3 as u64) << 32)
        | ((b4 as u64) << 24) | ((b5 as u64) << 16) | ((b6 as u64) << 8) | (b7 as u64)) == x)
        by (bit_vector)
        requires
            b0 == (x >> 56) as u8,
            b1 == (x >> 48) as u8,
            b2 == (x >> 40) as u8,
            b3 == (x >> 32) as u8,
            b4 == (x >> 24) as u8,
            b5 == (x >> 16) as u8,
            b6 == (x >> 8) as u8,
            b7 == x as u8,
    ;
}

pub proof fn lemma_u64_bytes_of(b: Seq<u8>)
    requires
        b.len() >= 8,
    ensures
        u64_bytes(u64_of_bytes(b)) == seq![b[0], b[1], b[2], b[3], b[4], b[5], b[6], b[7]],
{
    let b0 = b[0];
    let b1 = b[1];
    let b2 = b[2];
    let b3 = b[3];
    let b4 = b[4];
    let b5 = b[5];
    let b6 = b[6];
    let b7 = b[7];
    let x: u64 = ((b0 as u64) << 56) | ((b1 as u64) << 48) | ((b2 as u64) << 40) | (
    (b3 as u64) << 32) | ((b4 as u64) << 24) | ((b5 as u64) << 16) | ((b6 as u64) << 8) | (
    b7 as u64);
    assert((x >> 56) as u8 == b0 && (x >> 48) as u8 == b1 && (x >> 40) as u8 == b2 && (x >> 32) as u8
        == b3 && (x >> 24) as u8 == b4 && (x >> 16) as u8 == b5 && (x >> 8) as u8 == b6 && x as u8
        == b7) by (bit_vector)
        requires
            x == (((b0 as u64) << 56) | ((b1 as u64) << 48) | ((b2 as u64) << 40) | (
            (b3 as u64) << 32) | ((b4 as u64) << 24) | ((b5 as u64) << 16) | ((b6 as u64) << 8) | (
            b7 as u64)),
    ;
    assert(u64_bytes(x) =~= seq![b0, b1, b2, b3, b4, b5, b6, b7]);
}

pub open spec fn u128_bytes(x: u128) -> Seq<u8> {
    seq![
        (x >> 120) as u8,
        (x >> 112) as u8,
        (x >> 104) as u8,
        (x >> 96) as u8,
        (x >> 88) as u8,
        (x >> 80) as u8,
        (x >> 72) as u8,
        (x >> 64) as u8,
        (x >> 56) as u8,
        (x >> 48) as u8,
        (x >> 40) as u8,
        (x >> 32) as u8,
        (x >> 24) as u8,
        (x >> 16) as u8,
        (x >> 8) as u8,
        x as u8,
    ]
}

pub open spec fn u128_of_bytes(b: Seq<u8>) -> u128
    recommends
        b.len() >= 16,
{
    (((b[0] as u128) << 120) | ((b[1] as u128) << 112) | ((b[2] as u128) << 104) | ((b[3] as u128) << 96) | ((b[4] as u128) << 88) | ((b[5] as u128) << 80) | ((b[6] as u128) << 72) | ((b[7] as u128) << 64) | ((b[8] as u128) << 56) | ((b[9] as u128) << 48) | ((b[10] as u128) << 40) | ((b[11] as u128) << 32) | ((b[12] as u128) << 24) | ((b[13] as u128) << 16) | ((b[14] as u128) << 8) | (b[15] as u128))
}

pub proof fn lemma_u128_round_trip(x: u128)
    ensures
        u128_of_bytes(u128_bytes(x)) == x,
{
    let b0 = (x >> 120) as u8;
    let b1 = (x >> 112) as u8;
    let b2 = (x >> 104) as u8;
    let b3 = (x >> 96) as u8;
    let b4 = (x >> 88) as u8;
    let b5 = (x >> 80) as u8;
    let b6 = (x >> 72) as u8;
    let b7 = (x >> 64) as u8;
    let b8 = (x >> 56) as u8;
    let b9 = (x >> 48) as u8;
    let b10 = (x >> 40) as u8;
    let b11 = (x >> 32) as u8;
    let b12 = (x >> 24) as u8;
    let b13 = (x >> 16) as u8;
    let b14 = (x >> 8) as u8;
    let b15 = x as u8;
    assert((((b0 as u128) << 120) | ((b1 as u128) << 112) | ((b2 as u128) << 104) | ((b3 as u128) << 96) | ((b4 as u128) << 88) | ((b5 as u128) << 80) | ((b6 as u128) << 72) | ((b7 as u128) << 64) | ((b8 as u128) << 56) | ((b9 as u128) << 48) | ((b10 as u128) << 40) | ((b11 as u128) << 32) | ((b12 as u128) << 24) | ((b13 as u128) << 16) | ((b14 as u128) << 8) | (b15 as u128)) == x) by (bit_vector)
        requires
            b0 == (x >> 120) as u8,
            b1 == (x >> 112) as u8,
            b2 == (x >> 104) as u8,
            b3 == (x >> 96) as u8,
            b4 == (x >> 88) as u8,
            b5 == (x >> 80) as u8,
            b6 == (x >> 72) as u8,
            b7 == (x >> 64) as u8,
            b8 == (x >> 56) as u8,
            b9 == (x >> 48) as u8,
            b10 == (x >> 40) as u8,
            b11 == (x >> 32) as u8,
            b12 == (x >> 24) as u8,
            b13 == (x >> 16) as u8,
            b14 == (x >> 8) as u8,
            b15 == x as u8,
    ;
}

pub proof fn lemma_u128_bytes_of(b: Seq<u8>)
    requires
        b.len() >= 16,
    ensures
        u128_bytes(u128_of_bytes(b)) == seq![b[0], b[1], b[2], b[3], b[4], b[5], b[6], b[7], b[8], b[9], b[10], b[11], b[12], b[13], b[14], b[15]],
{
    let b0 = b[0];
    let b1 = b[1];
    let b2 = b[2];
    let b3 = b[3];
    let b4 = b[4];
    let b5 = b[5];
    let b6 = b[6];
    let b7 = b[7];
    let b8 = b[8];
    let b9 = b[9];
    let b10 = b[10];
    let b11 = b[11];
    let b12 = b[12];
    let b13 = b[13];
    let b14 = b[14];
    let b15 = b[15];
    let x: u128 = ((b0 as u128) << 120) | ((b1 as u128) << 112) | ((b2 as u128) << 104) | ((b3 as u128) << 96) | ((b4 as u128) << 88) | ((b5 as u128) << 80) | ((b6 as u128) << 72) | ((b7 as u128) << 64) | ((b8 as u128) << 56) | ((b9 as u128) << 48) | ((b10 as u128) << 40) | ((b11 as u128) << 32) | ((b12 as u128) << 24) | ((b13 as u128) << 16) | ((b14 as u128) << 8) | (b15 as u128);
    assert((x >> 120) as u8 == b0 && (x >> 112) as u8 == b1 && (x >> 104) as u8 == b2 && (x >> 96) as u8 == b3 && (x >> 88) as u8 == b4 && (x >> 80) as u8 == b5 && (x >> 72) as u8 == b6 && (x >> 64) as u8 == b7 && (x >> 56) as u8 == b8 && (x >> 48) as u8 == b9 && (x >> 40) as u8 == b10 && (x >> 32) as u8 == b11 && (x >> 24) as u8 == b12 && (x >> 16) as u8 == b13 && (x >> 8) as u8 == b14 && x as u8 == b15) by (bit_vector)
        requires
            x == (((b0 as u128) << 120) | ((b1 as u128) << 112) | ((b2 as u128) << 104) | ((b3 as u128) << 96) | ((b4 as u128) << 88) | ((b5 as u128) << 80) | ((b6 as u128) << 72) | ((b7 as u128) << 64) | ((b8 as u128) << 56) | ((b9 as u128) << 48) | ((b10 as u128) << 40) | ((b11 as u128) << 32) | ((b12 as u128) << 24) | ((b13 as u128) << 16) | ((b14 as u128) << 8) | (b15 as u128)),
    ;
    assert(u128_bytes(x) =~= seq![b0, b1, b2, b3, b4, b5, b6, b7, b8, b9, b10, b11, b12, b13, b14, b15]);
}

} // verus!
