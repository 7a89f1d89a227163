use vstd::prelude::*;

use crate::be::{lemma_u16_round_trip, u16_bytes};
use crate::codec::{Length, Name, ReadFrom, WriteTo};
use crate::stream::ByteReader;
use crate::DecodeError;

verus! {

/// A network endpoint with an explicit, portable wire format: a one-byte
/// address-family tag (`4` or `6`), the fixed-width address, and the port.
#[derive(Clone, Debug, PartialEq, Eq)]
pub enum Endpoint {
    V4 { addr: [u8; 4], port: u16 },
    V6 { addr: [u8; 16], port: u16 },
}

impl WriteTo for Endpoint {
    open spec fn enc(&self) -> Seq<u8> {
        match *self {
            Endpoint::V4 { addr, port } => seq![4u8] + addr@ + u16_bytes(port),
            Endpoint::V6 { addr, port } => seq![6u8] + addr@ + u16_bytes(port),
        }
    }

    fn write_to(&self, writer: &mut Vec<u8>) {
        match self {
            Endpoint::V4 { addr, port } => {
                writer.push(4u8);
                addr.write_to(writer);
                port.write_to(writer);
                proof {
                    assert(writer@ =~= old(writer)@ + self.enc());
                }
            },
            Endpoint::V6 { addr, port } => {
                writer.push(6u8);
                addr.write_to(writer);
                port.write_to(writer);
                proof {
                    assert(writer@ =~= old(writer)@ + self.enc());
                }
            },
        }
    }
}

impl ReadFrom for Endpoint {
    open spec fn dec_ok(avail: Seq<u8>, budget: nat, v: Self, rem: nat) -> bool {
        &&& budget >= 1
        &&& avail.len() >= 1
        &&& match v {
            Endpoint::V4 { addr, port } => {
                &&& avail[0] == 4
                &&& <[u8; 4] as ReadFrom>::dec_ok(avail.skip(1), (budget - 1) as nat, addr, (budget
                    - 5) as nat)
                &&& budget >= 5
                &&& avail.len() >= 5
                &&& <u16 as ReadFrom>::dec_ok(avail.skip(5), (budget - 5) as nat, port, rem)
            },
            Endpoint::V6 { addr, port } => {
                &&& avail[0] == 6
                &&& <[u8; 16] as ReadFrom>::dec_ok(avail.skip(1), (budget - 1) as nat, addr, (budget
                    - 17) as nat)
                &&& budget >= 17
                &&& avail.len() >= 17
                &&& <u16 as ReadFrom>::dec_ok(avail.skip(17), (budget - 17) as nat, port, rem)
            },
        }
    }

    open spec fn dec_err(avail: Seq<u8>, budget: nat, e: DecodeError) -> bool {
        ||| budget < 1 && e == DecodeError::BudgetExhausted
        ||| budget >= 1 && avail.len() < 1 && e == DecodeError::TruncatedInput
        ||| budget >= 1 && avail.len() >= 1 && avail[0] != 4 && avail[0] != 6 && e
            == DecodeError::InvalidEncoding
        ||| budget >= 1 && avail.len() >= 1 && avail[0] == 4 && {
            ||| <[u8; 4] as ReadFrom>::dec_err(avail.skip(1), (budget - 1) as nat, e)
            ||| budget >= 5 && avail.len() >= 5 && <u16 as ReadFrom>::dec_err(
                avail.skip(5),
                (budget - 5) as nat,
                e,
            )
        }
        ||| budget >= 1 && avail.len() >= 1 && avail[0] == 6 && {
            ||| <[u8; 16] as ReadFrom>::dec_err(avail.skip(1), (budget - 1) as nat, e)
            ||| budget >= 17 && avail.len() >= 17 && <u16 as ReadFrom>::dec_err(
                avail.skip(17),
                (budget - 17) as nat,
                e,
            )
        }
    }

    open spec fn err_consumed(avail: Seq<u8>, budget: nat, e: DecodeError, consumed: nat) -> bool {
        ||| budget < 1 && consumed == 0
        ||| budget >= 1 && avail.len() < 1 && consumed == 0
        ||| budget >= 1 && avail.len() >= 1 && avail[0] != 4 && avail[0] != 6 && consumed == 1
        ||| budget >= 1 && avail.len() >= 1 && avail[0] == 4 && <[u8; 4] as ReadFrom>::dec_err(
            avail.skip(1),
            (budget - 1) as nat,
            e,
        ) && consumed == 1
        ||| budget >= 5 && avail.len() >= 5 && avail[0] == 4 && <u16 as ReadFrom>::dec_err(
            avail.skip(5),
            (budget - 5) as nat,
            e,
        ) && consumed == 5
        ||| budget >= 1 && avail.len() >= 1 && avail[0] == 6 && <[u8; 16] as ReadFrom>::dec_err(
            avail.skip(1),
            (budget - 1) as nat,
            e,
        ) && consumed == 1
        ||| budget >= 17 && avail.len() >= 17 && avail[0] == 6 && <u16 as ReadFrom>::dec_err(
            avail.skip(17),
            (budget - 17) as nat,
            e,
        ) && consumed == 17
    }

    open spec fn budget_terminal() -> bool {
        false
    }

    open spec fn round_trip_safe(v: Self) -> bool {
        true
    }

    fn read_from(reader: &mut ByteReader, budget: usize) -> (r: Result<(Self, usize), DecodeError>) {
        if budget < 1 {
            return Err(DecodeError::BudgetExhausted);
        }
        let tag = match reader.take_bytes(1) {
            None => {
                return Err(DecodeError::TruncatedInput);
            },
            Some(bytes) => bytes[0],
        };
        let ghost avail = old(reader).avail();
        proof {
            assert(reader.avail() =~= avail.skip(1));
        }
        if tag == 4 {
            let (addr, rem1) = match <[u8; 4] as ReadFrom>::read_from(reader, budget - 1) {
                Err(e) => {
                    return Err(e);
                },
                Ok(p) => p,
            };
            proof {
                assert(reader.avail() =~= avail.skip(5));
            }
            let (port, rem) = match <u16 as ReadFrom>::read_from(reader, rem1) {
                Err(e) => {
                    return Err(e);
                },
                Ok(p) => p,
            };
            Ok((Endpoint::V4 { addr, port }, rem))
        } else if tag == 6 {
            let (addr, rem1) = match <[u8; 16] as ReadFrom>::read_from(reader, budget - 1) {
                Err(e) => {
                    return Err(e);
                },
                Ok(p) => p,
            };
            proof {
                assert(reader.avail() =~= avail.skip(17));
            }
            let (port, rem) = match <u16 as ReadFrom>::read_from(reader, rem1) {
                Err(e) => {
                    return Err(e);
                },
                Ok(p) => p,
            };
            Ok((Endpoint::V6 { addr, port }, rem))
        } else {
            Err(DecodeError::InvalidEncoding)
        }
    }

    proof fn lemma_dec_sound(avail: Seq<u8>, budget: nat, v: Self, rem: nat) {
        match v {
            Endpoint::V4 { addr, port } => {
                assert(v.enc().len() == 7);
            },
            Endpoint::V6 { addr, port } => {
                assert(v.enc().len() == 19);
            },
        }
    }

    proof fn lemma_round_trip(v: Self, extra: Seq<u8>, budget: nat, v2: Self, rem: nat, e: DecodeError) {
        let avail = v.enc() + extra;
        match v {
            Endpoint::V4 { addr, port } => {
                assert(avail[0] == 4);
                assert(avail.skip(1).take(4) =~= addr@);
                assert(avail.skip(5).len() >= 2);
                assert(avail.skip(5)[0] == u16_bytes(port)[0]);
                assert(avail.skip(5)[1] == u16_bytes(port)[1]);
                lemma_u16_round_trip(port);
                if Self::dec_ok(avail, budget, v2, rem) {
                    assert(v2.enc() =~= v.enc());
                }
            },
            Endpoint::V6 { addr, port } => {
                assert(avail[0] == 6);
                assert(avail.skip(1).take(16) =~= addr@);
                assert(avail.skip(17).len() >= 2);
                assert(avail.skip(17)[0] == u16_bytes(port)[0]);
                assert(avail.skip(17)[1] == u16_bytes(port)[1]);
                lemma_u16_round_trip(port);
                if Self::dec_ok(avail, budget, v2, rem) {
                    assert(v2.enc() =~= v.enc());
                }
            },
        }
    }
}

impl Length for Endpoint {
    fn length(&self) -> (r: usize) {
        match self {
            Endpoint::V4 { .. } => 7,
            Endpoint::V6 { .. } => 19,
        }
    }
}

impl Name for Endpoint {
    fn name() -> (r: &'static str) {
        "endpoint"
    }
}

/// Round trip at the value level: decoding a written endpoint under its
/// exact length yields the same family, address and port, nothing left.
pub proof fn lemma_endpoint_value_round_trip(v: Endpoint, v2: Endpoint, rem: nat)
    requires
        <Endpoint as ReadFrom>::dec_ok(v.enc(), v.enc().len() as nat, v2, rem),
    ensures
        v2 == v,
        rem == 0,
{
    let avail = v.enc();
    match v {
        Endpoint::V4 { addr, port } => {
            assert(avail[0] == 4);
            assert(avail.skip(1).take(4) =~= addr@);
            assert(avail.skip(5)[0] == u16_bytes(port)[0]);
            assert(avail.skip(5)[1] == u16_bytes(port)[1]);
            lemma_u16_round_trip(port);
            let addr2 = v2->V4_addr;
            assert(addr2@ =~= addr@);
            vstd::array::axiom_array_ext_equal(addr2, addr);
        },
        Endpoint::V6 { addr, port } => {
            assert(avail[0] == 6);
            assert(avail.skip(1).take(16) =~= addr@);
            assert(avail.skip(17)[0] == u16_bytes(port)[0]);
            assert(avail.skip(17)[1] == u16_bytes(port)[1]);
            lemma_u16_round_trip(port);
            let addr2 = v2->V6_addr;
            assert(addr2@ =~= addr@);
            vstd::array::axiom_array_ext_equal(addr2, addr);
        },
    }
}

} // verus!
