use vstd::prelude::*;

use crate::codec::{Length, Name, ReadFrom, WriteTo};
use crate::seqs::{lemma_seq_dec_sound, lemma_seq_round_trip, seq_dec_err, seq_dec_ok, seq_enc,
    seq_err_consumed};
use crate::stream::ByteReader;
use crate::DecodeError;

verus! {

// Two aggregate types built by sequentially composing the per-field codecs,
// the decode budget threaded field-to-field in declaration order.  They show
// the pattern every aggregate follows: `write_to` writes each field in
// order, `read_from` hands each field the budget the previous one left, and
// `length` sums the fields' lengths.

/// A fixed-size aggregate of two scalars.
#[derive(Clone, Debug, PartialEq, Eq)]
pub struct TestInner {
    pub first: i32,
    pub second: u64,
}

impl WriteTo for TestInner {
    open spec fn enc(&self) -> Seq<u8> {
        self.first.enc() + self.second.enc()
    }

    fn write_to(&self, writer: &mut Vec<u8>) {
        self.first.write_to(writer);
        self.second.write_to(writer);
        proof {
            assert(writer@ =~= old(writer)@ + self.enc());
        }
    }
}

impl ReadFrom for TestInner {
    open spec fn dec_ok(avail: Seq<u8>, budget: nat, v: Self, rem: nat) -> bool {
        &&& budget >= 4
        &&& avail.len() >= 4
        &&& <i32 as ReadFrom>::dec_ok(avail, budget, v.first, (budget - 4) as nat)
        &&& <u64 as ReadFrom>::dec_ok(avail.skip(4), (budget - 4) as nat, v.second, rem)
    }

    open spec fn dec_err(avail: Seq<u8>, budget: nat, e: DecodeError) -> bool {
        ||| <i32 as ReadFrom>::dec_err(avail, budget, e)
        ||| budget >= 4 && avail.len() >= 4 && <u64 as ReadFrom>::dec_err(
            avail.skip(4),
            (budget - 4) as nat,
            e,
        )
    }

    open spec fn err_consumed(avail: Seq<u8>, budget: nat, e: DecodeError, consumed: nat) -> bool {
        ||| <i32 as ReadFrom>::dec_err(avail, budget, e) && consumed == 0
        ||| budget >= 4 && avail.len() >= 4 && <u64 as ReadFrom>::dec_err(
            avail.skip(4),
            (budget - 4) as nat,
            e,
        ) && consumed == 4
    }

    open spec fn budget_terminal() -> bool {
        false
    }

    open spec fn round_trip_safe(v: Self) -> bool {
        true
    }

    fn read_from(reader: &mut ByteReader, budget: usize) -> (r: Result<(Self, usize), DecodeError>) {
        let ghost avail = old(reader).avail();
        let (first, rem1) = match <i32 as ReadFrom>::read_from(reader, budget) {
            Err(e) => {
                return Err(e);
            },
            Ok(p) => p,
        };
        proof {
            assert(reader.avail() =~= avail.skip(4));
        }
        let (second, rem) = match <u64 as ReadFrom>::read_from(reader, rem1) {
            Err(e) => {
                return Err(e);
            },
            Ok(p) => p,
        };
        Ok((TestInner { first, second }, rem))
    }

    proof fn lemma_dec_sound(avail: Seq<u8>, budget: nat, v: Self, rem: nat) {
        <i32 as ReadFrom>::lemma_dec_sound(avail, budget, v.first, (budget - 4) as nat);
        <u64 as ReadFrom>::lemma_dec_sound(avail.skip(4), (budget - 4) as nat, v.second, rem);
    }

    proof fn lemma_round_trip(v: Self, extra: Seq<u8>, budget: nat, v2: Self, rem: nat, e: DecodeError) {
        let avail = v.enc() + extra;
        assert(avail =~= v.first.enc() + (v.second.enc() + extra));
        <i32 as ReadFrom>::lemma_round_trip(
            v.first,
            v.second.enc() + extra,
            budget,
            v2.first,
            (budget - 4) as nat,
            e,
        );
        assert(avail.skip(4) =~= v.second.enc() + extra);
        <u64 as ReadFrom>::lemma_round_trip(
            v.second,
            extra,
            (budget - 4) as nat,
            v2.second,
            rem,
            e,
        );
        if Self::dec_ok(avail, budget, v2, rem) {
            assert(v2.enc() =~= v.enc());
        }
    }
}

impl Length for TestInner {
    fn length(&self) -> (r: usize) {
        12
    }
}

impl TestInner {
    /// Build from word-width arguments, narrowing to the field widths.
    pub fn normalized_new(first: isize, second: usize) -> (r: TestInner)
        ensures
            r.first == first as i32,
            r.second == second as u64,
    {
        TestInner {
            first: #[verifier::truncate] (first as i32),
            second: #[verifier::truncate] (second as u64),
        }
    }

    /// The `first` field widened to the natural word width.
    pub fn get_first(&self) -> (r: isize)
        ensures
            r == self.first as isize,
    {
        #[verifier::truncate] (self.first as isize)
    }

    /// The `second` field as the natural word width.
    pub fn get_second(&self) -> (r: usize)
        ensures
            r == self.second as usize,
    {
        #[verifier::truncate] (self.second as usize)
    }
}

impl Name for TestInner {
    fn name() -> (r: &'static str) {
        "test_inner"
    }
}

/// An aggregate ending in a budget-terminal field: a scalar, a fixed array,
/// and a greedy sequence that claims whatever budget the first two leave.
#[derive(Clone, Debug, PartialEq, Eq)]
pub struct Pancakes {
    pub item: u32,
    pub array: [u8; 2],
    pub test_vec: Vec<TestInner>,
}

impl WriteTo for Pancakes {
    open spec fn enc(&self) -> Seq<u8> {
        self.item.enc() + self.array@ + seq_enc(self.test_vec@)
    }

    fn write_to(&self, writer: &mut Vec<u8>) {
        self.item.write_to(writer);
        self.array.write_to(writer);
        self.test_vec.write_to(writer);
        proof {
            assert(writer@ =~= old(writer)@ + self.enc());
        }
    }
}

impl ReadFrom for Pancakes {
    open spec fn dec_ok(avail: Seq<u8>, budget: nat, v: Self, rem: nat) -> bool {
        &&& budget >= 6
        &&& avail.len() >= 6
        &&& <u32 as ReadFrom>::dec_ok(avail, budget, v.item, (budget - 4) as nat)
        &&& <[u8; 2] as ReadFrom>::dec_ok(avail.skip(4), (budget - 4) as nat, v.array, (budget
            - 6) as nat)
        &&& seq_dec_ok(avail.skip(6), (budget - 6) as nat, v.test_vec@)
        &&& rem == 0
    }

    open spec fn dec_err(avail: Seq<u8>, budget: nat, e: DecodeError) -> bool {
        ||| <u32 as ReadFrom>::dec_err(avail, budget, e)
        ||| budget >= 4 && avail.len() >= 4 && <[u8; 2] as ReadFrom>::dec_err(
            avail.skip(4),
            (budget - 4) as nat,
            e,
        )
        ||| budget >= 6 && avail.len() >= 6 && seq_dec_err::<TestInner>(
            avail.skip(6),
            (budget - 6) as nat,
            e,
        )
    }

    open spec fn err_consumed(avail: Seq<u8>, budget: nat, e: DecodeError, consumed: nat) -> bool {
        ||| <u32 as ReadFrom>::dec_err(avail, budget, e) && consumed == 0
        ||| budget >= 4 && avail.len() >= 4 && <[u8; 2] as ReadFrom>::dec_err(
            avail.skip(4),
            (budget - 4) as nat,
            e,
        ) && consumed == 4
        ||| budget >= 6 && avail.len() >= 6 && consumed >= 6 && seq_err_consumed::<TestInner>(
            avail.skip(6),
            (budget - 6) as nat,
            e,
            (consumed - 6) as nat,
        )
    }

    open spec fn budget_terminal() -> bool {
        true
    }

    open spec fn round_trip_safe(v: Self) -> bool {
        true
    }

    fn read_from(reader: &mut ByteReader, budget: usize) -> (r: Result<(Self, usize), DecodeError>) {
        let ghost avail = old(reader).avail();
        let (item, rem1) = match <u32 as ReadFrom>::read_from(reader, budget) {
            Err(e) => {
                return Err(e);
            },
            Ok(p) => p,
        };
        proof {
            assert(reader.avail() =~= avail.skip(4));
        }
        let (array, rem2) = match <[u8; 2] as ReadFrom>::read_from(reader, rem1) {
            Err(e) => {
                return Err(e);
            },
            Ok(p) => p,
        };
        proof {
            assert(reader.avail() =~= avail.skip(6));
        }
        let (test_vec, rem) = match <Vec<TestInner> as ReadFrom>::read_from(reader, rem2) {
            Err(e) => {
                return Err(e);
            },
            Ok(p) => p,
        };
        Ok((Pancakes { item, array, test_vec }, rem))
    }

    proof fn lemma_dec_sound(avail: Seq<u8>, budget: nat, v: Self, rem: nat) {
        <u32 as ReadFrom>::lemma_dec_sound(avail, budget, v.item, (budget - 4) as nat);
        <[u8; 2] as ReadFrom>::lemma_dec_sound(
            avail.skip(4),
            (budget - 4) as nat,
            v.array,
            (budget - 6) as nat,
        );
        lemma_seq_dec_sound::<TestInner>(avail.skip(6), (budget - 6) as nat, v.test_vec@);
    }

    proof fn lemma_round_trip(v: Self, extra: Seq<u8>, budget: nat, v2: Self, rem: nat, e: DecodeError) {
        let avail = v.enc() + extra;
        let tail = v.array@ + (seq_enc(v.test_vec@) + extra);
        assert(avail =~= v.item.enc() + tail);
        <u32 as ReadFrom>::lemma_round_trip(
            v.item,
            tail,
            budget,
            v2.item,
            (budget - 4) as nat,
            e,
        );
        assert(avail.skip(4) =~= v.array@ + (seq_enc(v.test_vec@) + extra));
        <[u8; 2] as ReadFrom>::lemma_round_trip(
            v.array,
            seq_enc(v.test_vec@) + extra,
            (budget - 4) as nat,
            v2.array,
            (budget - 6) as nat,
            e,
        );
        assert(avail.skip(6) =~= seq_enc(v.test_vec@) + extra);
        assert(forall|i: int|
            0 <= i < v.test_vec@.len() ==> TestInner::round_trip_safe(#[trigger] v.test_vec@[i])
                && v.test_vec@[i].enc().len() > 0);
        lemma_seq_round_trip::<TestInner>(v.test_vec@, extra, v2.test_vec@, e);
        if Self::dec_ok(avail, budget, v2, rem) {
            assert(v2.enc() =~= v.enc());
        }
    }
}

impl Length for Pancakes {
    fn length(&self) -> (r: usize) {
        6 + self.test_vec.length()
    }
}

impl Pancakes {
    /// Build from word-width arguments, narrowing `item` to its field width.
    pub fn normalized_new(item: usize, array: [u8; 2], test_vec: Vec<TestInner>) -> (r: Pancakes)
        ensures
            r.item == item as u32,
            r.array == array,
            r.test_vec == test_vec,
    {
        Pancakes { item: #[verifier::truncate] (item as u32), array, test_vec }
    }

    /// The `item` field widened to the natural word width.
    pub fn get_item(&self) -> (r: usize)
        ensures
            r == self.item as usize,
    {
        self.item as usize
    }
}

impl Name for Pancakes {
    fn name() -> (r: &'static str) {
        "pancakes"
    }
}

/// Round trip at the value level: decoding a written `TestInner` under its
/// exact length yields the same field values with no budget left over.
pub proof fn lemma_test_inner_value_round_trip(v: TestInner, v2: TestInner, rem: nat)
    requires
        <TestInner as ReadFrom>::dec_ok(v.enc(), 12, v2, rem),
    ensures
        v2 == v,
        rem == 0,
{
    let avail = v.enc();
    assert(avail =~= v.first.enc() + (v.second.enc() + Seq::<u8>::empty()));
    let f = v.first;
    let f2 = v2.first;
    crate::be::lemma_u32_round_trip(f as u32);
    assert((f as u32) as i32 == f) by (bit_vector);
    assert((f2 as u32) as i32 == f2) by (bit_vector);
    assert(avail.skip(4) =~= v.second.enc());
    crate::be::lemma_u64_round_trip(v.second);
}

} // verus!
