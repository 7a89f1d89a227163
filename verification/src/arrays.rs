use vstd::prelude::*;

use crate::codec::{Length, ReadFrom, WriteTo};
use crate::stream::ByteReader;
use crate::DecodeError;

verus! {

impl<const N: usize> WriteTo for [u8; N] {
    open spec fn enc(&self) -> Seq<u8> {
        self@
    }

    fn write_to(&self, writer: &mut Vec<u8>) {
        let mut i: usize = 0;
        proof {
            assert(writer@ =~= old(writer)@ + self@.take(0));
        }
        while i < N
            invariant
                i <= N,
                writer@ == old(writer)@ + self@.take(i as int),
            decreases N - i,
        {
            writer.push(self[i]);
            i += 1;
            proof {
                assert(writer@ =~= old(writer)@ + self@.take(i as int));
            }
        }
        proof {
            assert(old(writer)@ + self@.take(N as int) =~= old(writer)@ + self@);
        }
    }
}

impl<const N: usize> ReadFrom for [u8; N] {
    open spec fn dec_ok(avail: Seq<u8>, budget: nat, v: Self, rem: nat) -> bool {
        &&& budget >= N
        &&& avail.len() >= N
        &&& v@ == avail.take(N as int)
        &&& rem == budget - N
    }

    open spec fn dec_err(avail: Seq<u8>, budget: nat, e: DecodeError) -> bool {
        ||| budget < N && e == DecodeError::BudgetExhausted
        ||| budget >= N && avail.len() < N && e == DecodeError::TruncatedInput
    }

    open spec fn err_consumed(avail: Seq<u8>, budget: nat, e: DecodeError, consumed: nat) -> bool {
        consumed == 0
    }

    open spec fn budget_terminal() -> bool {
        false
    }

    open spec fn round_trip_safe(v: Self) -> bool {
        true
    }

    fn read_from(reader: &mut ByteReader, budget: usize) -> (r: Result<(Self, usize), DecodeError>) {
        if budget < N {
            return Err(DecodeError::BudgetExhausted);
        }
        match reader.take_bytes(N) {
            None => Err(DecodeError::TruncatedInput),
            Some(bytes) => {
                let mut out: [u8; N] = [0u8; N];
                let mut i: usize = 0;
                while i < N
                    invariant
                        i <= N,
                        bytes@.len() == N,
                        forall|j: int| 0 <= j < i ==> out@[j] == bytes@[j],
                    decreases N - i,
                {
                    out[i] = bytes[i];
                    i += 1;
                }
                proof {
                    assert(out@ =~= bytes@);
                }
                Ok((out, budget - N))
            },
        }
    }

    proof fn lemma_dec_sound(avail: Seq<u8>, budget: nat, v: Self, rem: nat) {
    }

    proof fn lemma_round_trip(v: Self, extra: Seq<u8>, budget: nat, v2: Self, rem: nat, e: DecodeError) {
        assert((v@ + extra).take(N as int) =~= v@);
    }
}

impl<const N: usize> Length for [u8; N] {
    fn length(&self) -> (r: usize) {
        N
    }
}

/// Round trip at the value level: decoding the written bytes of a fixed
/// array under its exact length yields the same bytes with no budget left.
pub proof fn lemma_array_value_round_trip<const N: usize>(v: [u8; N], v2: [u8; N], rem: nat)
    requires
        <[u8; N] as ReadFrom>::dec_ok(v@, N as nat, v2, rem),
    ensures
        v2 == v,
        rem == 0,
{
    assert(v@.take(N as int) =~= v@);
    assert(v2@ =~= v@);
    vstd::array::axiom_array_ext_equal(v2, v);
}

} // verus!
