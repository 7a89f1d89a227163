use vstd::prelude::*;

use crate::codec::{Length, ReadFrom, WriteTo};
use crate::stream::ByteReader;
use crate::DecodeError;

verus! {

impl<W: WriteTo> WriteTo for Option<W> {
    open spec fn enc(&self) -> Seq<u8> {
        match *self {
            None => seq![0u8],
            Some(x) => seq![1u8] + x.enc(),
        }
    }

    fn write_to(&self, writer: &mut Vec<u8>) {
        match self {
            None => {
                writer.push(0u8);
                proof {
                    assert(writer@ =~= old(writer)@ + self.enc());
                }
            },
            Some(x) => {
                writer.push(1u8);
                x.write_to(writer);
                proof {
                    assert(writer@ =~= old(writer)@ + self.enc());
                }
            },
        }
    }
}

impl<R: ReadFrom> ReadFrom for Option<R> {
    // The flag byte is written as 1, but on decode any nonzero flag counts
    // as present: such a value re-encodes with flag 1, so a non-canonical
    // flag survives decoding but not a round trip of the bytes themselves.
    open spec fn dec_ok(avail: Seq<u8>, budget: nat, v: Self, rem: nat) -> bool {
        &&& budget >= 1
        &&& avail.len() >= 1
        &&& match v {
            None => avail[0] == 0 && rem == budget - 1,
            Some(x) => avail[0] != 0 && R::dec_ok(avail.skip(1), (budget - 1) as nat, x, rem),
        }
    }

    open spec fn dec_err(avail: Seq<u8>, budget: nat, e: DecodeError) -> bool {
        ||| budget < 1 && e == DecodeError::BudgetExhausted
        ||| budget >= 1 && avail.len() < 1 && e == DecodeError::TruncatedInput
        ||| budget >= 1 && avail.len() >= 1 && avail[0] != 0 && R::dec_err(
            avail.skip(1),
            (budget - 1) as nat,
            e,
        )
    }

    open spec fn err_consumed(avail: Seq<u8>, budget: nat, e: DecodeError, consumed: nat) -> bool {
        ||| budget < 1 && consumed == 0
        ||| budget >= 1 && avail.len() < 1 && consumed == 0
        ||| budget >= 1 && avail.len() >= 1 && avail[0] != 0 && consumed >= 1 && R::err_consumed(
            avail.skip(1),
            (budget - 1) as nat,
            e,
            (consumed - 1) as nat,
        )
    }

    open spec fn budget_terminal() -> bool {
        R::budget_terminal()
    }

    open spec fn round_trip_safe(v: Self) -> bool {
        match v {
            None => true,
            Some(x) => R::round_trip_safe(x),
        }
    }

    fn read_from(reader: &mut ByteReader, budget: usize) -> (r: Result<(Self, usize), DecodeError>) {
        if budget < 1 {
            return Err(DecodeError::BudgetExhausted);
        }
        let ghost avail = old(reader).avail();
        let flag = match reader.take_bytes(1) {
            None => {
                return Err(DecodeError::TruncatedInput);
            },
            Some(bytes) => bytes[0],
        };
        proof {
            assert(reader.avail() =~= avail.skip(1));
        }
        if flag == 0 {
            Ok((None, budget - 1))
        } else {
            match R::read_from(reader, budget - 1) {
                Err(e) => Err(e),
                Ok((x, rem)) => Ok((Some(x), rem)),
            }
        }
    }

    proof fn lemma_dec_sound(avail: Seq<u8>, budget: nat, v: Self, rem: nat) {
        match v {
            None => {
            },
            Some(x) => {
                R::lemma_dec_sound(avail.skip(1), (budget - 1) as nat, x, rem);
            },
        }
    }

    proof fn lemma_round_trip(v: Self, extra: Seq<u8>, budget: nat, v2: Self, rem: nat, e: DecodeError) {
        let avail = v.enc() + extra;
        match v {
            None => {
                assert(avail[0] == 0);
                if Self::dec_ok(avail, budget, v2, rem) {
                    assert(v2.enc() =~= v.enc());
                }
            },
            Some(x) => {
                assert(avail[0] == 1);
                assert(avail.skip(1) =~= x.enc() + extra);
                if Self::dec_ok(avail, budget, v2, rem) {
                    let x2 = v2->Some_0;
                    R::lemma_round_trip(x, extra, (budget - 1) as nat, x2, rem, e);
                    assert(v2.enc() =~= v.enc());
                }
                if Self::dec_err(avail, budget, e) {
                    R::lemma_round_trip(x, extra, (budget - 1) as nat, x, 0, e);
                }
            },
        }
    }
}

impl<T: Length> Length for Option<T> {
    fn length(&self) -> (r: usize) {
        match self {
            None => 1,
            Some(x) => 1 + x.length(),
        }
    }
}

} // verus!
