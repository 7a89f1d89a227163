use vstd::prelude::*;

use crate::be::u32_bytes;
use crate::stream::ByteReader;
use crate::DecodeError;

verus! {

/// A value that can serialize itself into an output byte sink.
pub trait WriteTo {
    /// The value's wire format: the exact byte string that `write_to` emits.
    spec fn enc(&self) -> Seq<u8>;

    /// Append the value's encoding to `writer`.
    fn write_to(&self, writer: &mut Vec<u8>)
        ensures
            final(writer)@ == old(writer)@ + self.enc(),
    ;
}

/// A value reconstructable from an input byte source, given a budget: the
/// number of bytes the decoder is permitted to consume.  A successful read
/// returns the value together with the unconsumed remainder of the budget.
pub trait ReadFrom: WriteTo + Sized {
    /// The decode relation for success: reading from the bytes `avail` under
    /// `budget` may yield the value `v` with `rem` budget left over.
    spec fn dec_ok(avail: Seq<u8>, budget: nat, v: Self, rem: nat) -> bool;

    /// The decode relation for failure: reading from the bytes `avail` under
    /// `budget` fails with the error `e`.
    spec fn dec_err(avail: Seq<u8>, budget: nat, e: DecodeError) -> bool;

    /// Whether decoding greedily consumes the entire budget (sequences, raw
    /// buffers, text, bit sets).  Such a type can only stand where it is known
    /// to occupy exactly the remaining bytes of its frame, typically last.
    spec fn budget_terminal() -> bool;

    /// How a failed read moves the cursor: this relation holds of the
    /// number of bytes consumed from the source before the error `e` was
    /// reported.  Fixed-size reads consume nothing on failure; a
    /// budget-terminal read that got its bytes consumes the whole budget
    /// even when validation then fails.
    spec fn err_consumed(avail: Seq<u8>, budget: nat, e: DecodeError, consumed: nat) -> bool;

    /// The values whose encoding is guaranteed to decode back (all values,
    /// for most types; sequences exclude layouts the greedy decoder cannot
    /// split, such as elements with an empty or budget-terminal encoding).
    spec fn round_trip_safe(v: Self) -> bool;

    /// Read a value, consuming at most `budget` bytes from `reader`.
    fn read_from(reader: &mut ByteReader, budget: usize) -> (r: Result<(Self, usize), DecodeError>)
        requires
            old(reader).wf(),
        ensures
            final(reader).wf(),
            final(reader).data@ == old(reader).data@,
            old(reader).pos <= final(reader).pos,
            final(reader).pos - old(reader).pos <= budget,
            match r {
                Ok((v, rem)) => {
                    &&& rem <= budget
                    &&& final(reader).pos == old(reader).pos + (budget - rem)
                    &&& Self::dec_ok(old(reader).avail(), budget as nat, v, rem as nat)
                },
                Err(e) => {
                    &&& Self::dec_err(old(reader).avail(), budget as nat, e)
                    &&& Self::err_consumed(
                        old(reader).avail(),
                        budget as nat,
                        e,
                        (final(reader).pos - old(reader).pos) as nat,
                    )
                },
            },
    ;

    /// Soundness of decoding: a decoded value's own encoding is exactly as
    /// long as the byte string that was consumed to produce it.  (Not
    /// byte-for-byte equal: an optional value accepts any nonzero presence
    /// flag, and such a flag re-encodes as 1.)
    proof fn lemma_dec_sound(avail: Seq<u8>, budget: nat, v: Self, rem: nat)
        requires
            Self::dec_ok(avail, budget, v, rem),
        ensures
            rem <= budget,
            budget - rem <= avail.len(),
            v.enc().len() == budget - rem,
    ;

    /// Round trip: decoding a written value under a sufficient budget (an
    /// exact one, for budget-terminal types) cannot fail, consumes exactly
    /// the value's encoding, and yields a value with that same encoding.
    proof fn lemma_round_trip(v: Self, extra: Seq<u8>, budget: nat, v2: Self, rem: nat, e: DecodeError)
        requires
            Self::round_trip_safe(v),
            v.enc().len() <= budget,
            Self::budget_terminal() ==> budget == v.enc().len(),
        ensures
            Self::dec_ok(v.enc() + extra, budget, v2, rem) ==> v2.enc() == v.enc() && rem == budget - v.enc().len(),
            !Self::dec_err(v.enc() + extra, budget, e),
    ;
}

/// A value that can report its exact serialized length without writing.
pub trait Length: WriteTo {
    /// The number of bytes that `write_to` would emit.
    fn length(&self) -> (r: usize)
        requires
            self.enc().len() <= usize::MAX,
        ensures
            r == self.enc().len(),
    ;

    /// The length as a 4-byte big-endian value, for embedding into an
    /// enclosing frame header; lengths above 32 bits are truncated.
    fn length_be_bytes(&self) -> (r: [u8; 4])
        requires
            self.enc().len() <= usize::MAX,
        ensures
            r@ == u32_bytes(self.enc().len() as u32),
    {
        let len = self.length();
        let x: u32 = #[verifier::truncate] (len as u32);
        let r: [u8; 4] = [
            #[verifier::truncate] ((x >> 24) as u8),
            #[verifier::truncate] ((x >> 16) as u8),
            #[verifier::truncate] ((x >> 8) as u8),
            #[verifier::truncate] (x as u8),
        ];
        proof {
            assert(r@ =~= u32_bytes(x));
        }
        r
    }
}

/// Marker for types whose serialized length is the same for every value.
pub trait ConstLength: Length {
}

/// A diagnostic label for a codec type.
pub trait Name {
    /// A short, stable name for the type.
    fn name() -> (r: &'static str);
}

} // verus!
