use vstd::prelude::*;
use vstd::string::StrSliceExecFns;
use vstd::utf8::{
    decode_utf8, decode_utf8_encode_utf8, encode_utf8, encode_utf8_decode_utf8,
    encode_utf8_valid_utf8, valid_utf8,
};

use crate::codec::{Length, Name, ReadFrom, WriteTo};
use crate::stream::{push_bytes, ByteReader};
use crate::DecodeError;

verus! {

/// Relies on `String::from_utf8`: it succeeds exactly on valid UTF-8 input
/// and decodes the bytes to their character sequence.
#[verifier::external_body]
fn string_from_utf8(bytes: Vec<u8>) -> (r: Option<String>)
    ensures
        match r {
            Some(s) => valid_utf8(bytes@) && s@ == decode_utf8(bytes@),
            None => !valid_utf8(bytes@),
        },
{
    String::from_utf8(bytes).ok()
}

impl WriteTo for String {
    open spec fn enc(&self) -> Seq<u8> {
        encode_utf8(self@)
    }

    fn write_to(&self, writer: &mut Vec<u8>) {
        let bytes = self.as_str().as_bytes_vec();
        push_bytes(writer, &bytes);
    }
}

impl ReadFrom for String {
    open spec fn dec_ok(avail: Seq<u8>, budget: nat, v: Self, rem: nat) -> bool {
        &&& budget <= avail.len()
        &&& valid_utf8(avail.take(budget as int))
        &&& v@ == decode_utf8(avail.take(budget as int))
        &&& rem == 0
    }

    open spec fn dec_err(avail: Seq<u8>, budget: nat, e: DecodeError) -> bool {
        ||| avail.len() < budget && e == DecodeError::TruncatedInput
        ||| budget <= avail.len() && !valid_utf8(avail.take(budget as int)) && e
            == DecodeError::InvalidEncoding
    }

    open spec fn err_consumed(avail: Seq<u8>, budget: nat, e: DecodeError, consumed: nat) -> bool {
        ||| avail.len() < budget && consumed == 0
        ||| budget <= avail.len() && consumed == budget
    }

    open spec fn budget_terminal() -> bool {
        true
    }

    open spec fn round_trip_safe(v: Self) -> bool {
        true
    }

    fn read_from(reader: &mut ByteReader, budget: usize) -> (r: Result<(Self, usize), DecodeError>) {
        match reader.take_bytes(budget) {
            None => Err(DecodeError::TruncatedInput),
            Some(bytes) => match string_from_utf8(bytes) {
                Some(s) => Ok((s, 0)),
                None => Err(DecodeError::InvalidEncoding),
            },
        }
    }

    proof fn lemma_dec_sound(avail: Seq<u8>, budget: nat, v: Self, rem: nat) {
        decode_utf8_encode_utf8(avail.take(budget as int));
    }

    proof fn lemma_round_trip(v: Self, extra: Seq<u8>, budget: nat, v2: Self, rem: nat, e: DecodeError) {
        let bytes = encode_utf8(v@);
        assert((bytes + extra).take(budget as int) =~= bytes);
        encode_utf8_valid_utf8(v@);
        encode_utf8_decode_utf8(v@);
    }
}

impl Length for String {
    fn length(&self) -> (r: usize) {
        self.as_str().len()
    }
}

impl Name for String {
    fn name() -> (r: &'static str) {
        "string"
    }
}

/// Round trip at the value level: decoding the written bytes of a text
/// value under its exact length yields the same characters, nothing left.
pub proof fn lemma_text_value_round_trip(v: String, v2: String, rem: nat)
    requires
        <String as ReadFrom>::dec_ok(encode_utf8(v@), encode_utf8(v@).len() as nat, v2, rem),
    ensures
        v2@ == v@,
        rem == 0,
{
    let bytes = encode_utf8(v@);
    assert(bytes.take(bytes.len() as int) =~= bytes);
    encode_utf8_decode_utf8(v@);
}

} // verus!
