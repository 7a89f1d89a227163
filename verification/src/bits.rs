use vstd::prelude::*;

use bit_vec::BitVec;

use crate::codec::{Length, ReadFrom, WriteTo};
use crate::stream::{push_bytes, ByteReader};
use crate::DecodeError;

verus! {

#[verifier::external_type_specification]
#[verifier::external_body]
#[verifier::reject_recursive_types(B)]
pub struct ExBitVec<B>(BitVec<B>);

/// The bits that a `bit_vec::BitVec` holds, in order.
pub uninterp spec fn bitvec_bits(bv: BitVec) -> Seq<bool>;

/// The bit `k` (most significant first) of the byte `b`.
pub open spec fn bit_of_byte(b: u8, k: int) -> bool
    recommends
        0 <= k < 8,
{
    (b >> ((7 - k) as u8)) & 1 == 1
}

/// The bit `j` of `bits`, as a byte's worth of value; positions past the end
/// read as zero, which is the padding `pack_bits` uses.
pub open spec fn bit_value(bits: Seq<bool>, j: int) -> u8 {
    if 0 <= j < bits.len() && bits[j] {
        1
    } else {
        0
    }
}

/// The byte `i` of the MSB-first packing of `bits`.
pub open spec fn byte_of_bits(bits: Seq<bool>, i: int) -> u8 {
    ((bit_value(bits, 8 * i) << 7) | (bit_value(bits, 8 * i + 1) << 6) | (bit_value(
        bits,
        8 * i + 2,
    ) << 5) | (bit_value(bits, 8 * i + 3) << 4) | (bit_value(bits, 8 * i + 4) << 3) | (bit_value(
        bits,
        8 * i + 5,
    ) << 2) | (bit_value(bits, 8 * i + 6) << 1) | bit_value(bits, 8 * i + 7))
}

/// `bits` packed MSB-first into `ceil(len / 8)` bytes, padded with zeros.
pub open spec fn pack_bits(bits: Seq<bool>) -> Seq<u8> {
    Seq::new(((bits.len() + 7) / 8) as nat, |i: int| byte_of_bits(bits, i))
}

/// The `8 * len` bits of `bytes`, MSB of each byte first.
pub open spec fn unpack_bits(bytes: Seq<u8>) -> Seq<bool> {
    Seq::new((bytes.len() * 8) as nat, |j: int| bit_of_byte(bytes[j / 8], j % 8))
}

/// A byte is reassembled exactly from its eight bits, MSB first.
proof fn lemma_byte_reassemble(b: u8, t0: u8, t1: u8, t2: u8, t3: u8, t4: u8, t5: u8, t6: u8, t7: u8)
    requires
        t0 == (b >> 7) & 1,
        t1 == (b >> 6) & 1,
        t2 == (b >> 5) & 1,
        t3 == (b >> 4) & 1,
        t4 == (b >> 3) & 1,
        t5 == (b >> 2) & 1,
        t6 == (b >> 1) & 1,
        t7 == (b >> 0) & 1,
    ensures
        ((t0 << 7) | (t1 << 6) | (t2 << 5) | (t3 << 4) | (t4 << 3) | (t5 << 2) | (t6 << 1) | t7)
            == b,
        t0 <= 1 && t1 <= 1 && t2 <= 1 && t3 <= 1 && t4 <= 1 && t5 <= 1 && t6 <= 1 && t7 <= 1,
{
    assert(((((b >> 7) & 1) << 7) | (((b >> 6) & 1) << 6) | (((b >> 5) & 1) << 5) | (((b >> 4)
        & 1) << 4) | (((b >> 3) & 1) << 3) | (((b >> 2) & 1) << 2) | (((b >> 1) & 1) << 1) | ((b
        >> 0) & 1)) == b) by (bit_vector);
    assert((b >> 7) & 1 <= 1 && (b >> 6) & 1 <= 1 && (b >> 5) & 1 <= 1 && (b >> 4) & 1 <= 1 && (b
        >> 3) & 1 <= 1 && (b >> 2) & 1 <= 1 && (b >> 1) & 1 <= 1 && (b >> 0) & 1 <= 1)
        by (bit_vector);
}

/// Unpacked bits read back as the corresponding bit of the source byte.
proof fn lemma_unpack_bit(bytes: Seq<u8>, i: int, k: int)
    requires
        0 <= i < bytes.len(),
        0 <= k < 8,
    ensures
        bit_value(unpack_bits(bytes), 8 * i + k) == (bytes[i] >> ((7 - k) as u8)) & 1,
{
    let bits = unpack_bits(bytes);
    let j = 8 * i + k;
    assert(j / 8 == i && j % 8 == k) by (nonlinear_arith)
        requires
            0 <= k < 8 && j == 8 * i + k,
    ;
    assert(0 <= j < bytes.len() * 8) by (nonlinear_arith)
        requires
            0 <= i < bytes.len() && 0 <= k < 8 && j == 8 * i + k,
    ;
    let b = bytes[i];
    let s = (7 - k) as u8;
    assert((b >> s) & 1 <= 1) by (bit_vector);
    assert(bits[j] == ((b >> s) & 1 == 1));
}

/// Packing the bits of a byte string gives that byte string back.
pub proof fn lemma_pack_unpack(bytes: Seq<u8>)
    ensures
        pack_bits(unpack_bits(bytes)) == bytes,
{
    let bits = unpack_bits(bytes);
    assert(bits.len() == bytes.len() * 8);
    assert((bytes.len() * 8 + 7) / 8 == bytes.len());
    assert forall|i: int| 0 <= i < bytes.len() implies #[trigger] byte_of_bits(bits, i)
        == bytes[i] by {
        let b = bytes[i];
        lemma_unpack_bit(bytes, i, 0);
        lemma_unpack_bit(bytes, i, 1);
        lemma_unpack_bit(bytes, i, 2);
        lemma_unpack_bit(bytes, i, 3);
        lemma_unpack_bit(bytes, i, 4);
        lemma_unpack_bit(bytes, i, 5);
        lemma_unpack_bit(bytes, i, 6);
        lemma_unpack_bit(bytes, i, 7);
        lemma_byte_reassemble(
            b,
            bit_value(bits, 8 * i),
            bit_value(bits, 8 * i + 1),
            bit_value(bits, 8 * i + 2),
            bit_value(bits, 8 * i + 3),
            bit_value(bits, 8 * i + 4),
            bit_value(bits, 8 * i + 5),
            bit_value(bits, 8 * i + 6),
            bit_value(bits, 8 * i + 7),
        );
    }
    assert(pack_bits(bits) =~= bytes);
}

/// Relies on `bit_vec::BitVec::len`: the number of bits held.
#[verifier::external_body]
fn bitvec_len(bv: &BitVec) -> (r: usize)
    ensures
        r == bitvec_bits(*bv).len(),
{
    bv.len()
}

/// Relies on `bit_vec::BitVec::to_bytes`: the bits packed MSB-first into
/// `ceil(len / 8)` bytes, the last byte padded with zero bits.
#[verifier::external_body]
fn bitvec_to_bytes(bv: &BitVec) -> (r: Vec<u8>)
    ensures
        r@ == pack_bits(bitvec_bits(*bv)),
{
    bv.to_bytes()
}

/// Relies on `bit_vec::BitVec::from_bytes`: eight bits per byte, the most
/// significant bit of each byte first.  It panics when the bit count would
/// overflow `usize`, so that input is excluded here.
#[verifier::external_body]
fn bitvec_from_bytes(bytes: &Vec<u8>) -> (r: BitVec)
    requires
        bytes@.len() * 8 <= usize::MAX,
    ensures
        bitvec_bits(r) == unpack_bits(bytes@),
{
    BitVec::from_bytes(bytes.as_slice())
}

impl WriteTo for BitVec {
    open spec fn enc(&self) -> Seq<u8> {
        pack_bits(bitvec_bits(*self))
    }

    fn write_to(&self, writer: &mut Vec<u8>) {
        let bytes = bitvec_to_bytes(self);
        push_bytes(writer, &bytes);
    }
}

impl ReadFrom for BitVec {
    open spec fn dec_ok(avail: Seq<u8>, budget: nat, v: Self, rem: nat) -> bool {
        &&& budget * 8 <= usize::MAX
        &&& budget <= avail.len()
        &&& bitvec_bits(v) == unpack_bits(avail.take(budget as int))
        &&& rem == 0
    }

    open spec fn dec_err(avail: Seq<u8>, budget: nat, e: DecodeError) -> bool {
        ||| budget * 8 > usize::MAX && e == DecodeError::BudgetExhausted
        ||| budget * 8 <= usize::MAX && avail.len() < budget && e == DecodeError::TruncatedInput
    }

    open spec fn err_consumed(avail: Seq<u8>, budget: nat, e: DecodeError, consumed: nat) -> bool {
        consumed == 0
    }

    open spec fn budget_terminal() -> bool {
        true
    }

    open spec fn round_trip_safe(v: Self) -> bool {
        bitvec_bits(v).len() + 7 <= usize::MAX
    }

    fn read_from(reader: &mut ByteReader, budget: usize) -> (r: Result<(Self, usize), DecodeError>) {
        if budget > usize::MAX / 8 {
            proof {
                assert(budget * 8 > usize::MAX) by (nonlinear_arith)
                    requires
                        budget > usize::MAX / 8 && (usize::MAX / 8) * 8 + usize::MAX % 8
                            == usize::MAX && usize::MAX % 8 < 8,
                ;
            }
            return Err(DecodeError::BudgetExhausted);
        }
        proof {
            assert(budget * 8 <= (usize::MAX / 8) * 8 <= usize::MAX) by (nonlinear_arith)
                requires
                    budget <= usize::MAX / 8 && (usize::MAX / 8) * 8 + usize::MAX % 8
                        == usize::MAX && usize::MAX % 8 >= 0,
            ;
        }
        match reader.take_bytes(budget) {
            None => Err(DecodeError::TruncatedInput),
            Some(bytes) => {
                let bv = bitvec_from_bytes(&bytes);
                Ok((bv, 0))
            },
        }
    }

    proof fn lemma_dec_sound(avail: Seq<u8>, budget: nat, v: Self, rem: nat) {
        lemma_pack_unpack(avail.take(budget as int));
    }

    proof fn lemma_round_trip(v: Self, extra: Seq<u8>, budget: nat, v2: Self, rem: nat, e: DecodeError) {
        let n = bitvec_bits(v).len() as int;
        let bytes = pack_bits(bitvec_bits(v));
        assert(bytes.len() == (n + 7) / 8);
        assert(((n + 7) / 8) * 8 <= n + 7) by (nonlinear_arith)
            requires
                n >= 0 && ((n + 7) / 8) * 8 + (n + 7) % 8 == n + 7 && (n + 7) % 8 >= 0,
        ;
        assert(budget * 8 <= usize::MAX);
        assert((bytes + extra).take(budget as int) =~= bytes);
        lemma_pack_unpack(bytes);
    }
}

impl Length for BitVec {
    fn length(&self) -> (r: usize) {
        let n = bitvec_len(self);
        n / 8 + (if n % 8 == 0 {
            0
        } else {
            1
        })
    }
}

/// Each of the eight bits put into a byte MSB-first reads back out of it.
proof fn lemma_byte_extract(b: u8, t0: u8, t1: u8, t2: u8, t3: u8, t4: u8, t5: u8, t6: u8, t7: u8)
    requires
        b == ((t0 << 7) | (t1 << 6) | (t2 << 5) | (t3 << 4) | (t4 << 3) | (t5 << 2) | (t6 << 1)
            | t7),
        t0 <= 1 && t1 <= 1 && t2 <= 1 && t3 <= 1 && t4 <= 1 && t5 <= 1 && t6 <= 1 && t7 <= 1,
    ensures
        (b >> 7) & 1 == t0,
        (b >> 6) & 1 == t1,
        (b >> 5) & 1 == t2,
        (b >> 4) & 1 == t3,
        (b >> 3) & 1 == t4,
        (b >> 2) & 1 == t5,
        (b >> 1) & 1 == t6,
        (b >> 0) & 1 == t7,
{
    assert((b >> 7) & 1 == t0 && (b >> 6) & 1 == t1 && (b >> 5) & 1 == t2 && (b >> 4) & 1 == t3
        && (b >> 3) & 1 == t4 && (b >> 2) & 1 == t5 && (b >> 1) & 1 == t6 && (b >> 0) & 1 == t7)
        by (bit_vector)
        requires
            b == ((t0 << 7) | (t1 << 6) | (t2 << 5) | (t3 << 4) | (t4 << 3) | (t5 << 2) | (
            t6 << 1) | t7) && t0 <= 1 && t1 <= 1 && t2 <= 1 && t3 <= 1 && t4 <= 1 && t5 <= 1 && t6
                <= 1 && t7 <= 1,
    ;
}

/// Unpacking a whole-byte packing gives the bits back: the inverse of
/// `lemma_pack_unpack`, for bit counts that fill their last byte exactly.
pub proof fn lemma_unpack_pack(bits: Seq<bool>)
    requires
        bits.len() % 8 == 0,
    ensures
        unpack_bits(pack_bits(bits)) == bits,
{
    let n = bits.len() as int;
    let bytes = pack_bits(bits);
    assert(bytes.len() == (n + 7) / 8);
    assert((n + 7) / 8 == n / 8 && (n / 8) * 8 == n) by (nonlinear_arith)
        requires
            n >= 0 && n % 8 == 0,
    ;
    assert(unpack_bits(bytes).len() == n);
    assert forall|j: int| 0 <= j < n implies unpack_bits(bytes)[j] == bits[j] by {
        let i = j / 8;
        let k = j % 8;
        vstd::arithmetic::div_mod::lemma_fundamental_div_mod(j, 8);
        vstd::arithmetic::div_mod::lemma_mod_division_less_than_divisor(j, 8);
        assert(8 * i + k == j);
        assert(0 <= k < 8);
        assert(i < n / 8) by (nonlinear_arith)
            requires
                0 <= j < n && i == j / 8 && k == j % 8 && 8 * i + k == j && 0 <= k < 8 && n % 8
                    == 0 && (n / 8) * 8 == n,
        ;
        let b = bytes[i];
        assert(b == byte_of_bits(bits, i));
        lemma_byte_extract(
            b,
            bit_value(bits, 8 * i),
            bit_value(bits, 8 * i + 1),
            bit_value(bits, 8 * i + 2),
            bit_value(bits, 8 * i + 3),
            bit_value(bits, 8 * i + 4),
            bit_value(bits, 8 * i + 5),
            bit_value(bits, 8 * i + 6),
            bit_value(bits, 8 * i + 7),
        );
        if k == 0 {
            assert((b >> 7) & 1 == bit_value(bits, j));
        } else if k == 1 {
            assert((b >> 6) & 1 == bit_value(bits, j));
        } else if k == 2 {
            assert((b >> 5) & 1 == bit_value(bits, j));
        } else if k == 3 {
            assert((b >> 4) & 1 == bit_value(bits, j));
        } else if k == 4 {
            assert((b >> 3) & 1 == bit_value(bits, j));
        } else if k == 5 {
            assert((b >> 2) & 1 == bit_value(bits, j));
        } else if k == 6 {
            assert((b >> 1) & 1 == bit_value(bits, j));
        } else {
            assert((b >> 0) & 1 == bit_value(bits, j));
        }
        assert(((7 - k) as u8) == 7 - k);
        assert(unpack_bits(bytes)[j] == bit_of_byte(b, k));
    }
    assert(unpack_bits(bytes) =~= bits);
}

/// Round trip at the value level for bit sets whose length is a whole
/// number of bytes: decoding the written packing under its exact length
/// yields a bit set holding the same bits, with no budget left over.  A bit
/// count that does not fill its last byte comes back zero-padded instead.
pub proof fn lemma_bit_set_value_round_trip(v: BitVec, v2: BitVec, rem: nat)
    requires
        bitvec_bits(v).len() % 8 == 0,
        <BitVec as ReadFrom>::dec_ok(
            pack_bits(bitvec_bits(v)),
            pack_bits(bitvec_bits(v)).len() as nat,
            v2,
            rem,
        ),
    ensures
        bitvec_bits(v2) == bitvec_bits(v),
        rem == 0,
{
    let bytes = pack_bits(bitvec_bits(v));
    assert(bytes.take(bytes.len() as int) =~= bytes);
    lemma_unpack_pack(bitvec_bits(v));
}

} // verus!
