use vstd::prelude::*;

use crate::be::{
    lemma_u128_bytes_of, lemma_u128_round_trip, lemma_u16_bytes_of, lemma_u16_round_trip,
    lemma_u32_bytes_of, lemma_u32_round_trip, lemma_u64_bytes_of, lemma_u64_round_trip,
    u128_bytes, u128_of_bytes, u16_bytes, u16_of_bytes, u32_bytes, u32_of_bytes, u64_bytes,
    u64_of_bytes,
};
use crate::codec::{Length, Name, ReadFrom, WriteTo};
use crate::stream::ByteReader;
use crate::DecodeError;

verus! {

impl WriteTo for u16 {
    open spec fn enc(&self) -> Seq<u8> {
        u16_bytes(*self)
    }

    fn write_to(&self, writer: &mut Vec<u8>) {
        let x = *self;
        writer.push(#[verifier::truncate] ((x >> 8) as u8));
        writer.push(#[verifier::truncate] (x as u8));
        proof {
            assert(writer@ =~= old(writer)@ + u16_bytes(x));
        }
    }
}

impl ReadFrom for u16 {
    open spec fn dec_ok(avail: Seq<u8>, budget: nat, v: Self, rem: nat) -> bool {
        &&& budget >= 2
        &&& avail.len() >= 2
        &&& v == u16_of_bytes(avail)
        &&& rem == budget - 2
    }

    open spec fn dec_err(avail: Seq<u8>, budget: nat, e: DecodeError) -> bool {
        ||| budget < 2 && e == DecodeError::BudgetExhausted
        ||| budget >= 2 && avail.len() < 2 && e == DecodeError::TruncatedInput
    }

    open spec fn err_consumed(avail: Seq<u8>, budget: nat, e: DecodeError, consumed: nat) -> bool {
        consumed == 0
    }

    open spec fn budget_terminal() -> bool {
        false
    }

    open spec fn round_trip_safe(v: Self) -> bool {
        true
    }

    fn read_from(reader: &mut ByteReader, budget: usize) -> (r: Result<(Self, usize), DecodeError>) {
        if budget < 2 {
            return Err(DecodeError::BudgetExhausted);
        }
        match reader.take_bytes(2) {
            None => Err(DecodeError::TruncatedInput),
            Some(bytes) => {
                let x = ((bytes[0] as u16) << 8) | (bytes[1] as u16);
                Ok((x, budget - 2))
            },
        }
    }

    proof fn lemma_dec_sound(avail: Seq<u8>, budget: nat, v: Self, rem: nat) {
    }

    proof fn lemma_round_trip(v: Self, extra: Seq<u8>, budget: nat, v2: Self, rem: nat, e: DecodeError) {
        if Self::dec_ok(v.enc() + extra, budget, v2, rem) {
            assert(u16_of_bytes(v.enc() + extra) == u16_of_bytes(u16_bytes(v)));
            lemma_u16_round_trip(v);
        }
    }
}

impl Length for u16 {
    fn length(&self) -> (r: usize) {
        2
    }
}

impl WriteTo for u32 {
    open spec fn enc(&self) -> Seq<u8> {
        u32_bytes(*self)
    }

    fn write_to(&self, writer: &mut Vec<u8>) {
        let x = *self;
        writer.push(#[verifier::truncate] ((x >> 24) as u8));
        writer.push(#[verifier::truncate] ((x >> 16) as u8));
        writer.push(#[verifier::truncate] ((x >> 8) as u8));
        writer.push(#[verifier::truncate] (x as u8));
        proof {
            assert(writer@ =~= old(writer)@ + u32_bytes(x));
        }
    }
}

impl ReadFrom for u32 {
    open spec fn dec_ok(avail: Seq<u8>, budget: nat, v: Self, rem: nat) -> bool {
        &&& budget >= 4
        &&& avail.len() >= 4
        &&& v == u32_of_bytes(avail)
        &&& rem == budget - 4
    }

    open spec fn dec_err(avail: Seq<u8>, budget: nat, e: DecodeError) -> bool {
        ||| budget < 4 && e == DecodeError::BudgetExhausted
        ||| budget >= 4 && avail.len() < 4 && e == DecodeError::TruncatedInput
    }

    open spec fn err_consumed(avail: Seq<u8>, budget: nat, e: DecodeError, consumed: nat) -> bool {
        consumed == 0
    }

    open spec fn budget_terminal() -> bool {
        false
    }

    open spec fn round_trip_safe(v: Self) -> bool {
        true
    }

    fn read_from(reader: &mut ByteReader, budget: usize) -> (r: Result<(Self, usize), DecodeError>) {
        if budget < 4 {
            return Err(DecodeError::BudgetExhausted);
        }
        match reader.take_bytes(4) {
            None => Err(DecodeError::TruncatedInput),
            Some(bytes) => {
                let x = ((bytes[0] as u32) << 24) | ((bytes[1] as u32) << 16) | ((bytes[2] as u32) << 8) | (bytes[3] as u32);
                Ok((x, budget - 4))
            },
        }
    }

    proof fn lemma_dec_sound(avail: Seq<u8>, budget: nat, v: Self, rem: nat) {
    }

    proof fn lemma_round_trip(v: Self, extra: Seq<u8>, budget: nat, v2: Self, rem: nat, e: DecodeError) {
        if Self::dec_ok(v.enc() + extra, budget, v2, rem) {
            assert(u32_of_bytes(v.enc() + extra) == u32_of_bytes(u32_bytes(v)));
            lemma_u32_round_trip(v);
        }
    }
}

impl Length for u32 {
    fn length(&self) -> (r: usize) {
        4
    }
}

impl WriteTo for u64 {
    open spec fn enc(&self) -> Seq<u8> {
        u64_bytes(*self)
    }

    fn write_to(&self, writer: &mut Vec<u8>) {
        let x = *self;
        writer.push(#[verifier::truncate] ((x >> 56) as u8));
        writer.push(#[verifier::truncate] ((x >> 48) as u8));
        writer.push(#[verifier::truncate] ((x >> 40) as u8));
        writer.push(#[verifier::truncate] ((x >> 32) as u8));
        writer.push(#[verifier::truncate] ((x >> 24) as u8));
        writer.push(#[verifier::truncate] ((x >> 16) as u8));
        writer.push(#[verifier::truncate] ((x >> 8) as u8));
        writer.push(#[verifier::truncate] (x as u8));
        proof {
            assert(writer@ =~= old(writer)@ + u64_bytes(x));
        }
    }
}

impl ReadFrom for u64 {
    open spec fn dec_ok(avail: Seq<u8>, budget: nat, v: Self, rem: nat) -> bool {
        &&& budget >= 8
        &&& avail.len() >= 8
        &&& v == u64_of_bytes(avail)
        &&& rem == budget - 8
    }

    open spec fn dec_err(avail: Seq<u8>, budget: nat, e: DecodeError) -> bool {
        ||| budget < 8 && e == DecodeError::BudgetExhausted
        ||| budget >= 8 && avail.len() < 8 && e == DecodeError::TruncatedInput
    }

    open spec fn err_consumed(avail: Seq<u8>, budget: nat, e: DecodeError, consumed: nat) -> bool {
        consumed == 0
    }

    open spec fn budget_terminal() -> bool {
        false
    }

    open spec fn round_trip_safe(v: Self) -> bool {
        true
    }

    fn read_from(reader: &mut ByteReader, budget: usize) -> (r: Result<(Self, usize), DecodeError>) {
        if budget < 8 {
            return Err(DecodeError::BudgetExhausted);
        }
        match reader.take_bytes(8) {
            None => Err(DecodeError::TruncatedInput),
            Some(bytes) => {
                let x = ((bytes[0] as u64) << 56) | ((bytes[1] as u64) << 48) | ((bytes[2] as u64) << 40) | ((bytes[3] as u64) << 32) | ((bytes[4] as u64) << 24) | ((bytes[5] as u64) << 16) | ((bytes[6] as u64) << 8) | (bytes[7] as u64);
                Ok((x, budget - 8))
            },
        }
    }

    proof fn lemma_dec_sound(avail: Seq<u8>, budget: nat, v: Self, rem: nat) {
    }

    proof fn lemma_round_trip(v: Self, extra: Seq<u8>, budget: nat, v2: Self, rem: nat, e: DecodeError) {
        if Self::dec_ok(v.enc() + extra, budget, v2, rem) {
            assert(u64_of_bytes(v.enc() + extra) == u64_of_bytes(u64_bytes(v)));
            lemma_u64_round_trip(v);
        }
    }
}

impl Length for u64 {
    fn length(&self) -> (r: usize) {
        8
    }
}

impl WriteTo for u128 {
    open spec fn enc(&self) -> Seq<u8> {
        u128_bytes(*self)
    }

    fn write_to(&self, writer: &mut Vec<u8>) {
        let x = *self;
        writer.push(#[verifier::truncate] ((x >> 120) as u8));
        writer.push(#[verifier::truncate] ((x >> 112) as u8));
        writer.push(#[verifier::truncate] ((x >> 104) as u8));
        writer.push(#[verifier::truncate] ((x >> 96) as u8));
        writer.push(#[verifier::truncate] ((x >> 88) as u8));
        writer.push(#[verifier::truncate] ((x >> 80) as u8));
        writer.push(#[verifier::truncate] ((x >> 72) as u8));
        writer.push(#[verifier::truncate] ((x >> 64) as u8));
        writer.push(#[verifier::truncate] ((x >> 56) as u8));
        writer.push(#[verifier::truncate] ((x >> 48) as u8));
        writer.push(#[verifier::truncate] ((x >> 40) as u8));
        writer.push(#[verifier::truncate] ((x >> 32) as u8));
        writer.push(#[verifier::truncate] ((x >> 24) as u8));
        writer.push(#[verifier::truncate] ((x >> 16) as u8));
        writer.push(#[verifier::truncate] ((x >> 8) as u8));
        writer.push(#[verifier::truncate] (x as u8));
        proof {
            assert(writer@ =~= old(writer)@ + u128_bytes(x));
        }
    }
}

impl ReadFrom for u128 {
    open spec fn dec_ok(avail: Seq<u8>, budget: nat, v: Self, rem: nat) -> bool {
        &&& budget >= 16
        &&& avail.len() >= 16
        &&& v == u128_of_bytes(avail)
        &&& rem == budget - 16
    }

    open spec fn dec_err(avail: Seq<u8>, budget: nat, e: DecodeError) -> bool {
        ||| budget < 16 && e == DecodeError::BudgetExhausted
        ||| budget >= 16 && avail.len() < 16 && e == DecodeError::TruncatedInput
    }

    open spec fn err_consumed(avail: Seq<u8>, budget: nat, e: DecodeError, consumed: nat) -> bool {
        consumed == 0
    }

    open spec fn budget_terminal() -> bool {
        false
    }

    open spec fn round_trip_safe(v: Self) -> bool {
        true
    }

    fn read_from(reader: &mut ByteReader, budget: usize) -> (r: Result<(Self, usize), DecodeError>) {
        if budget < 16 {
            return Err(DecodeError::BudgetExhausted);
        }
        match reader.take_bytes(16) {
            None => Err(DecodeError::TruncatedInput),
            Some(bytes) => {
                let x = ((bytes[0] as u128) << 120) | ((bytes[1] as u128) << 112) | ((bytes[2] as u128) << 104) | ((bytes[3] as u128) << 96) | ((bytes[4] as u128) << 88) | ((bytes[5] as u128) << 80) | ((bytes[6] as u128) << 72) | ((bytes[7] as u128) << 64) | ((bytes[8] as u128) << 56) | ((bytes[9] as u128) << 48) | ((bytes[10] as u128) << 40) | ((bytes[11] as u128) << 32) | ((bytes[12] as u128) << 24) | ((bytes[13] as u128) << 16) | ((bytes[14] as u128) << 8) | (bytes[15] as u128);
                Ok((x, budget - 16))
            },
        }
    }

    proof fn lemma_dec_sound(avail: Seq<u8>, budget: nat, v: Self, rem: nat) {
    }

    proof fn lemma_round_trip(v: Self, extra: Seq<u8>, budget: nat, v2: Self, rem: nat, e: DecodeError) {
        if Self::dec_ok(v.enc() + extra, budget, v2, rem) {
            assert(u128_of_bytes(v.enc() + extra) == u128_of_bytes(u128_bytes(v)));
            lemma_u128_round_trip(v);
        }
    }
}

impl Length for u128 {
    fn length(&self) -> (r: usize) {
        16
    }
}

impl WriteTo for i16 {
    open spec fn enc(&self) -> Seq<u8> {
        u16_bytes(*self as u16)
    }

    fn write_to(&self, writer: &mut Vec<u8>) {
        let x = #[verifier::truncate] (*self as u16);
        proof {
            assert(x == *self as u16);
        }
        writer.push(#[verifier::truncate] ((x >> 8) as u8));
        writer.push(#[verifier::truncate] (x as u8));
        proof {
            assert(writer@ =~= old(writer)@ + u16_bytes(x));
        }
    }
}

impl ReadFrom for i16 {
    open spec fn dec_ok(avail: Seq<u8>, budget: nat, v: Self, rem: nat) -> bool {
        &&& budget >= 2
        &&& avail.len() >= 2
        &&& v == u16_of_bytes(avail) as i16
        &&& rem == budget - 2
    }

    open spec fn dec_err(avail: Seq<u8>, budget: nat, e: DecodeError) -> bool {
        ||| budget < 2 && e == DecodeError::BudgetExhausted
        ||| budget >= 2 && avail.len() < 2 && e == DecodeError::TruncatedInput
    }

    open spec fn err_consumed(avail: Seq<u8>, budget: nat, e: DecodeError, consumed: nat) -> bool {
        consumed == 0
    }

    open spec fn budget_terminal() -> bool {
        false
    }

    open spec fn round_trip_safe(v: Self) -> bool {
        true
    }

    fn read_from(reader: &mut ByteReader, budget: usize) -> (r: Result<(Self, usize), DecodeError>) {
        if budget < 2 {
            return Err(DecodeError::BudgetExhausted);
        }
        match reader.take_bytes(2) {
            None => Err(DecodeError::TruncatedInput),
            Some(bytes) => {
                let x = ((bytes[0] as u16) << 8) | (bytes[1] as u16);
                let v = #[verifier::truncate] (x as i16);
                Ok((v, budget - 2))
            },
        }
    }

    proof fn lemma_dec_sound(avail: Seq<u8>, budget: nat, v: Self, rem: nat) {
    }

    proof fn lemma_round_trip(v: Self, extra: Seq<u8>, budget: nat, v2: Self, rem: nat, e: DecodeError) {
        if Self::dec_ok(v.enc() + extra, budget, v2, rem) {
            assert(u16_of_bytes(v.enc() + extra) == u16_of_bytes(u16_bytes(v as u16)));
            lemma_u16_round_trip(v as u16);
            assert((v as u16) as i16 == v) by (bit_vector);
            assert((v2 as u16) as i16 == v2) by (bit_vector);
        }
    }
}

impl Length for i16 {
    fn length(&self) -> (r: usize) {
        2
    }
}

impl WriteTo for i32 {
    open spec fn enc(&self) -> Seq<u8> {
        u32_bytes(*self as u32)
    }

    fn write_to(&self, writer: &mut Vec<u8>) {
        let x = #[verifier::truncate] (*self as u32);
        proof {
            assert(x == *self as u32);
        }
        writer.push(#[verifier::truncate] ((x >> 24) as u8));
        writer.push(#[verifier::truncate] ((x >> 16) as u8));
        writer.push(#[verifier::truncate] ((x >> 8) as u8));
        writer.push(#[verifier::truncate] (x as u8));
        proof {
            assert(writer@ =~= old(writer)@ + u32_bytes(x));
        }
    }
}

impl ReadFrom for i32 {
    open spec fn dec_ok(avail: Seq<u8>, budget: nat, v: Self, rem: nat) -> bool {
        &&& budget >= 4
        &&& avail.len() >= 4
        &&& v == u32_of_bytes(avail) as i32
        &&& rem == budget - 4
    }

    open spec fn dec_err(avail: Seq<u8>, budget: nat, e: DecodeError) -> bool {
        ||| budget < 4 && e == DecodeError::BudgetExhausted
        ||| budget >= 4 && avail.len() < 4 && e == DecodeError::TruncatedInput
    }

    open spec fn err_consumed(avail: Seq<u8>, budget: nat, e: DecodeError, consumed: nat) -> bool {
        consumed == 0
    }

    open spec fn budget_terminal() -> bool {
        false
    }

    open spec fn round_trip_safe(v: Self) -> bool {
        true
    }

    fn read_from(reader: &mut ByteReader, budget: usize) -> (r: Result<(Self, usize), DecodeError>) {
        if budget < 4 {
            return Err(DecodeError::BudgetExhausted);
        }
        match reader.take_bytes(4) {
            None => Err(DecodeError::TruncatedInput),
            Some(bytes) => {
                let x = ((bytes[0] as u32) << 24) | ((bytes[1] as u32) << 16) | ((bytes[2] as u32) << 8) | (bytes[3] as u32);
                let v = #[verifier::truncate] (x as i32);
                Ok((v, budget - 4))
            },
        }
    }

    proof fn lemma_dec_sound(avail: Seq<u8>, budget: nat, v: Self, rem: nat) {
    }

    proof fn lemma_round_trip(v: Self, extra: Seq<u8>, budget: nat, v2: Self, rem: nat, e: DecodeError) {
        if Self::dec_ok(v.enc() + extra, budget, v2, rem) {
            assert(u32_of_bytes(v.enc() + extra) == u32_of_bytes(u32_bytes(v as u32)));
            lemma_u32_round_trip(v as u32);
            assert((v as u32) as i32 == v) by (bit_vector);
            assert((v2 as u32) as i32 == v2) by (bit_vector);
        }
    }
}

impl Length for i32 {
    fn length(&self) -> (r: usize) {
        4
    }
}

impl WriteTo for i64 {
    open spec fn enc(&self) -> Seq<u8> {
        u64_bytes(*self as u64)
    }

    fn write_to(&self, writer: &mut Vec<u8>) {
        let x = #[verifier::truncate] (*self as u64);
        proof {
            assert(x == *self as u64);
        }
        writer.push(#[verifier::truncate] ((x >> 56) as u8));
        writer.push(#[verifier::truncate] ((x >> 48) as u8));
        writer.push(#[verifier::truncate] ((x >> 40) as u8));
        writer.push(#[verifier::truncate] ((x >> 32) as u8));
        writer.push(#[verifier::truncate] ((x >> 24) as u8));
        writer.push(#[verifier::truncate] ((x >> 16) as u8));
        writer.push(#[verifier::truncate] ((x >> 8) as u8));
        writer.push(#[verifier::truncate] (x as u8));
        proof {
            assert(writer@ =~= old(writer)@ + u64_bytes(x));
        }
    }
}

impl ReadFrom for i64 {
    open spec fn dec_ok(avail: Seq<u8>, budget: nat, v: Self, rem: nat) -> bool {
        &&& budget >= 8
        &&& avail.len() >= 8
        &&& v == u64_of_bytes(avail) as i64
        &&& rem == budget - 8
    }

    open spec fn dec_err(avail: Seq<u8>, budget: nat, e: DecodeError) -> bool {
        ||| budget < 8 && e == DecodeError::BudgetExhausted
        ||| budget >= 8 && avail.len() < 8 && e == DecodeError::TruncatedInput
    }

    open spec fn err_consumed(avail: Seq<u8>, budget: nat, e: DecodeError, consumed: nat) -> bool {
        consumed == 0
    }

    open spec fn budget_terminal() -> bool {
        false
    }

    open spec fn round_trip_safe(v: Self) -> bool {
        true
    }

    fn read_from(reader: &mut ByteReader, budget: usize) -> (r: Result<(Self, usize), DecodeError>) {
        if budget < 8 {
            return Err(DecodeError::BudgetExhausted);
        }
        match reader.take_bytes(8) {
            None => Err(DecodeError::TruncatedInput),
            Some(bytes) => {
                let x = ((bytes[0] as u64) << 56) | ((bytes[1] as u64) << 48) | ((bytes[2] as u64) << 40) | ((bytes[3] as u64) << 32) | ((bytes[4] as u64) << 24) | ((bytes[5] as u64) << 16) | ((bytes[6] as u64) << 8) | (bytes[7] as u64);
                let v = #[verifier::truncate] (x as i64);
                Ok((v, budget - 8))
            },
        }
    }

    proof fn lemma_dec_sound(avail: Seq<u8>, budget: nat, v: Self, rem: nat) {
    }

    proof fn lemma_round_trip(v: Self, extra: Seq<u8>, budget: nat, v2: Self, rem: nat, e: DecodeError) {
        if Self::dec_ok(v.enc() + extra, budget, v2, rem) {
            assert(u64_of_bytes(v.enc() + extra) == u64_of_bytes(u64_bytes(v as u64)));
            lemma_u64_round_trip(v as u64);
            assert((v as u64) as i64 == v) by (bit_vector);
            assert((v2 as u64) as i64 == v2) by (bit_vector);
        }
    }
}

impl Length for i64 {
    fn length(&self) -> (r: usize) {
        8
    }
}

impl WriteTo for bool {
    open spec fn enc(&self) -> Seq<u8> {
        seq![if *self { 1u8 } else { 0u8 }]
    }

    fn write_to(&self, writer: &mut Vec<u8>) {
        writer.push(if *self { 1 } else { 0 });
        proof {
            assert(writer@ =~= old(writer)@ + self.enc());
        }
    }
}

impl ReadFrom for bool {
    open spec fn dec_ok(avail: Seq<u8>, budget: nat, v: Self, rem: nat) -> bool {
        &&& budget >= 1
        &&& avail.len() >= 1
        &&& (avail[0] == 0 || avail[0] == 1)
        &&& v == (avail[0] == 1)
        &&& rem == budget - 1
    }

    open spec fn dec_err(avail: Seq<u8>, budget: nat, e: DecodeError) -> bool {
        ||| budget < 1 && e == DecodeError::BudgetExhausted
        ||| budget >= 1 && avail.len() < 1 && e == DecodeError::TruncatedInput
        ||| budget >= 1 && avail.len() >= 1 && avail[0] != 0 && avail[0] != 1 && e
            == DecodeError::InvalidEncoding
    }

    open spec fn err_consumed(avail: Seq<u8>, budget: nat, e: DecodeError, consumed: nat) -> bool {
        ||| budget < 1 && consumed == 0
        ||| budget >= 1 && avail.len() < 1 && consumed == 0
        ||| budget >= 1 && avail.len() >= 1 && avail[0] != 0 && avail[0] != 1 && consumed == 1
    }

    open spec fn budget_terminal() -> bool {
        false
    }

    open spec fn round_trip_safe(v: Self) -> bool {
        true
    }

    fn read_from(reader: &mut ByteReader, budget: usize) -> (r: Result<(Self, usize), DecodeError>) {
        if budget < 1 {
            return Err(DecodeError::BudgetExhausted);
        }
        match reader.take_bytes(1) {
            None => Err(DecodeError::TruncatedInput),
            Some(bytes) => {
                if bytes[0] == 0 {
                    Ok((false, budget - 1))
                } else if bytes[0] == 1 {
                    Ok((true, budget - 1))
                } else {
                    Err(DecodeError::InvalidEncoding)
                }
            },
        }
    }

    proof fn lemma_dec_sound(avail: Seq<u8>, budget: nat, v: Self, rem: nat) {
    }

    proof fn lemma_round_trip(v: Self, extra: Seq<u8>, budget: nat, v2: Self, rem: nat, e: DecodeError) {
        assert((v.enc() + extra)[0] == v.enc()[0]);
    }
}

impl Length for bool {
    fn length(&self) -> (r: usize) {
        1
    }
}

/// Round trip at the value level: decoding the written bytes of a `u16`
/// under its exact length yields the value itself with no budget left over.
pub proof fn lemma_u16_value_round_trip(v: u16, v2: u16, rem: nat)
    requires
        <u16 as ReadFrom>::dec_ok(u16_bytes(v), 2, v2, rem),
    ensures
        v2 == v,
        rem == 0,
{
    lemma_u16_round_trip(v);
}

/// Round trip at the value level: decoding the written bytes of a `u32`
/// under its exact length yields the value itself with no budget left over.
pub proof fn lemma_u32_value_round_trip(v: u32, v2: u32, rem: nat)
    requires
        <u32 as ReadFrom>::dec_ok(u32_bytes(v), 4, v2, rem),
    ensures
        v2 == v,
        rem == 0,
{
    lemma_u32_round_trip(v);
}

/// Round trip at the value level: decoding the written bytes of a `u64`
/// under its exact length yields the value itself with no budget left over.
pub proof fn lemma_u64_value_round_trip(v: u64, v2: u64, rem: nat)
    requires
        <u64 as ReadFrom>::dec_ok(u64_bytes(v), 8, v2, rem),
    ensures
        v2 == v,
        rem == 0,
{
    lemma_u64_round_trip(v);
}

/// Round trip at the value level: decoding the written bytes of a `u128`
/// under its exact length yields the value itself with no budget left over.
pub proof fn lemma_u128_value_round_trip(v: u128, v2: u128, rem: nat)
    requires
        <u128 as ReadFrom>::dec_ok(u128_bytes(v), 16, v2, rem),
    ensures
        v2 == v,
        rem == 0,
{
    lemma_u128_round_trip(v);
}

/// Round trip at the value level: decoding the written bytes of a `i16`
/// under its exact length yields the value itself with no budget left over.
pub proof fn lemma_i16_value_round_trip(v: i16, v2: i16, rem: nat)
    requires
        <i16 as ReadFrom>::dec_ok(u16_bytes(v as u16), 2, v2, rem),
    ensures
        v2 == v,
        rem == 0,
{
    lemma_u16_round_trip(v as u16);
    assert((v as u16) as i16 == v) by (bit_vector);
}

/// Round trip at the value level: decoding the written bytes of a `i32`
/// under its exact length yields the value itself with no budget left over.
pub proof fn lemma_i32_value_round_trip(v: i32, v2: i32, rem: nat)
    requires
        <i32 as ReadFrom>::dec_ok(u32_bytes(v as u32), 4, v2, rem),
    ensures
        v2 == v,
        rem == 0,
{
    lemma_u32_round_trip(v as u32);
    assert((v as u32) as i32 == v) by (bit_vector);
}

/// Round trip at the value level: decoding the written bytes of a `i64`
/// under its exact length yields the value itself with no budget left over.
pub proof fn lemma_i64_value_round_trip(v: i64, v2: i64, rem: nat)
    requires
        <i64 as ReadFrom>::dec_ok(u64_bytes(v as u64), 8, v2, rem),
    ensures
        v2 == v,
        rem == 0,
{
    lemma_u64_round_trip(v as u64);
    assert((v as u64) as i64 == v) by (bit_vector);
}

/// Round trip at the value level for `bool`: the written flag byte decodes
/// back to the same truth value with no budget left over.
pub proof fn lemma_bool_value_round_trip(v: bool, v2: bool, rem: nat)
    requires
        <bool as ReadFrom>::dec_ok(v.enc(), 1, v2, rem),
    ensures
        v2 == v,
        rem == 0,
{
}

impl Name for u16 {
    fn name() -> (r: &'static str) {
        "u16"
    }
}

impl Name for u32 {
    fn name() -> (r: &'static str) {
        "u32"
    }
}

impl Name for u64 {
    fn name() -> (r: &'static str) {
        "u64"
    }
}

impl Name for u128 {
    fn name() -> (r: &'static str) {
        "u128"
    }
}

impl Name for i16 {
    fn name() -> (r: &'static str) {
        "i16"
    }
}

impl Name for i32 {
    fn name() -> (r: &'static str) {
        "i32"
    }
}

impl Name for i64 {
    fn name() -> (r: &'static str) {
        "i64"
    }
}

impl Name for bool {
    fn name() -> (r: &'static str) {
        "bool"
    }
}

} // verus!
