use bit_vec::BitVec;
use write_to::aggregate::{Pancakes, TestInner};
use write_to::codec::{Length, ReadFrom, WriteTo};
use write_to::endpoint::Endpoint;
use write_to::stream::ByteReader;
use write_to::DecodeError;

fn encode<T: WriteTo>(v: &T) -> Vec<u8> {
    let mut out: Vec<u8> = Vec::new();
    v.write_to(&mut out);
    out
}

#[test]
fn it_works() {
    let test = Pancakes { item: 5, array: [1, 1], test_vec: vec![] };
    assert_eq!(test.get_item(), 5);
}

#[test]
fn lib_it_works() {
    let result = 2 + 2;
    assert_eq!(result, 4);
}

#[test]
fn u32_encodes_big_endian() {
    let bytes = encode(&5u32);
    assert_eq!(bytes, vec![0x00, 0x00, 0x00, 0x05]);
}

#[test]
fn round_trip_unsigned_scalars() {
    let bytes = encode(&0x1234u16);
    assert_eq!(bytes, vec![0x12, 0x34]);
    let mut r = ByteReader::new(bytes);
    let (v, rem) = <u16 as ReadFrom>::read_from(&mut r, 2).unwrap();
    assert_eq!(v, 0x1234);
    assert_eq!(rem, 0);

    let bytes = encode(&0x0102030405060708u64);
    assert_eq!(bytes.len(), 8);
    let mut r = ByteReader::new(bytes);
    let (v, rem) = <u64 as ReadFrom>::read_from(&mut r, 8).unwrap();
    assert_eq!(v, 0x0102030405060708);
    assert_eq!(rem, 0);

    let big: u128 = 0x0102030405060708090a0b0c0d0e0f10;
    let bytes = encode(&big);
    assert_eq!(bytes.len(), 16);
    let mut r = ByteReader::new(bytes);
    let (v, rem) = <u128 as ReadFrom>::read_from(&mut r, 16).unwrap();
    assert_eq!(v, big);
    assert_eq!(rem, 0);
}

#[test]
fn round_trip_signed_scalars() {
    for value in [-32768i16, -1, 0, 1, 32767] {
        let bytes = encode(&value);
        assert_eq!(bytes.len(), 2);
        let mut r = ByteReader::new(bytes);
        let (v, rem) = <i16 as ReadFrom>::read_from(&mut r, 2).unwrap();
        assert_eq!(v, value);
        assert_eq!(rem, 0);
    }
    let value: i32 = -2;
    let bytes = encode(&value);
    assert_eq!(bytes, vec![0xff, 0xff, 0xff, 0xfe]);
    let mut r = ByteReader::new(bytes);
    let (v, rem) = <i32 as ReadFrom>::read_from(&mut r, 4).unwrap();
    assert_eq!(v, -2);
    assert_eq!(rem, 0);

    let value: i64 = -123456789012345;
    let bytes = encode(&value);
    let mut r = ByteReader::new(bytes);
    let (v, rem) = <i64 as ReadFrom>::read_from(&mut r, 8).unwrap();
    assert_eq!(v, value);
    assert_eq!(rem, 0);
}

#[test]
fn round_trip_bool() {
    for value in [false, true] {
        let bytes = encode(&value);
        assert_eq!(bytes, vec![if value { 1 } else { 0 }]);
        assert_eq!(value.length(), 1);
        let mut r = ByteReader::new(bytes);
        let (v, rem) = <bool as ReadFrom>::read_from(&mut r, 1).unwrap();
        assert_eq!(v, value);
        assert_eq!(rem, 0);
    }
}

#[test]
fn bool_rejects_other_bytes() {
    let mut r = ByteReader::new(vec![2u8]);
    let e = <bool as ReadFrom>::read_from(&mut r, 1).unwrap_err();
    assert_eq!(e, DecodeError::InvalidEncoding);
}

#[test]
fn byte_array_encodes_raw() {
    let value: [u8; 2] = [1, 1];
    let bytes = encode(&value);
    assert_eq!(bytes, vec![0x01, 0x01]);
    assert_eq!(value.length(), 2);
    let mut r = ByteReader::new(bytes);
    let (v, rem) = <[u8; 2] as ReadFrom>::read_from(&mut r, 2).unwrap();
    assert_eq!(v, [1, 1]);
    assert_eq!(rem, 0);
}

#[test]
fn round_trip_byte_buffer() {
    let value: Vec<u8> = vec![9, 8, 7, 6];
    let bytes = encode(&value);
    assert_eq!(bytes, value);
    assert_eq!(value.length(), 4);
    let mut r = ByteReader::new(bytes);
    let (v, rem) = <Vec<u8> as ReadFrom>::read_from(&mut r, 4).unwrap();
    assert_eq!(v, value);
    assert_eq!(rem, 0);
}

#[test]
fn round_trip_text() {
    let value = String::from("grüße");
    let bytes = encode(&value);
    assert_eq!(bytes, value.as_bytes().to_vec());
    assert_eq!(value.length(), value.as_bytes().len());
    let budget = bytes.len();
    let mut r = ByteReader::new(bytes);
    let (v, rem) = <String as ReadFrom>::read_from(&mut r, budget).unwrap();
    assert_eq!(v, value);
    assert_eq!(rem, 0);
}

#[test]
fn text_rejects_invalid_utf8() {
    let mut r = ByteReader::new(vec![0xff, 0xfe, 0x01]);
    let e = <String as ReadFrom>::read_from(&mut r, 3).unwrap_err();
    assert_eq!(e, DecodeError::InvalidEncoding);
    // The declared bytes are consumed even though decoding fails.
    assert_eq!(r.pos, 3);
}

#[test]
fn round_trip_option() {
    let some: Option<u32> = Some(7);
    let bytes = encode(&some);
    assert_eq!(bytes, vec![1, 0, 0, 0, 7]);
    assert_eq!(some.length(), 5);
    let mut r = ByteReader::new(bytes);
    let (v, rem) = <Option<u32> as ReadFrom>::read_from(&mut r, 5).unwrap();
    assert_eq!(v, Some(7));
    assert_eq!(rem, 0);

    let none: Option<u32> = None;
    let bytes = encode(&none);
    assert_eq!(bytes, vec![0]);
    assert_eq!(none.length(), 1);
    let mut r = ByteReader::new(bytes);
    let (v, rem) = <Option<u32> as ReadFrom>::read_from(&mut r, 1).unwrap();
    assert_eq!(v, None);
    assert_eq!(rem, 0);
}

#[test]
fn option_accepts_any_nonzero_flag() {
    let mut r = ByteReader::new(vec![7u8, 0, 0, 0, 7]);
    let (v, rem) = <Option<u32> as ReadFrom>::read_from(&mut r, 5).unwrap();
    assert_eq!(v, Some(7));
    assert_eq!(rem, 0);
}

#[test]
fn round_trip_sequence() {
    let value: Vec<u16> = vec![10, 20, 30];
    let bytes = encode(&value);
    assert_eq!(bytes, vec![0, 10, 0, 20, 0, 30]);
    assert_eq!(value.length(), 6);
    let mut r = ByteReader::new(bytes);
    let (v, rem) = <Vec<u16> as ReadFrom>::read_from(&mut r, 6).unwrap();
    assert_eq!(v, value);
    assert_eq!(rem, 0);
}

#[test]
fn sequence_of_arrays_exact_budget() {
    let bytes = vec![1u8, 1, 2, 2];
    let mut r = ByteReader::new(bytes);
    let (v, rem) = <Vec<[u8; 2]> as ReadFrom>::read_from(&mut r, 4).unwrap();
    assert_eq!(v, vec![[1, 1], [2, 2]]);
    assert_eq!(rem, 0);
}

#[test]
fn sequence_budget_not_a_multiple_fails() {
    let bytes = vec![1u8, 1, 2, 2, 3];
    let mut r = ByteReader::new(bytes);
    let e = <Vec<[u8; 2]> as ReadFrom>::read_from(&mut r, 5).unwrap_err();
    assert!(e == DecodeError::TruncatedInput || e == DecodeError::BudgetExhausted);
}

#[test]
fn round_trip_bit_set() {
    let value = BitVec::from_bytes(&[0b1010_0000, 0b0000_0001]);
    assert_eq!(value.length(), 2);
    let bytes = encode(&value);
    assert_eq!(bytes, vec![0b1010_0000, 0b0000_0001]);
    let mut r = ByteReader::new(bytes);
    let (v, rem) = <BitVec as ReadFrom>::read_from(&mut r, 2).unwrap();
    assert_eq!(v, value);
    assert_eq!(rem, 0);
}

#[test]
fn bit_set_length_rounds_up() {
    let mut value = BitVec::from_elem(3, true);
    value.set(1, false);
    assert_eq!(value.length(), 1);
    let bytes = encode(&value);
    assert_eq!(bytes, vec![0b1010_0000]);
}

#[test]
fn round_trip_endpoint() {
    let v4 = Endpoint::V4 { addr: [127, 0, 0, 1], port: 8080 };
    let bytes = encode(&v4);
    assert_eq!(bytes, vec![4, 127, 0, 0, 1, 0x1f, 0x90]);
    assert_eq!(v4.length(), 7);
    let mut r = ByteReader::new(bytes);
    let (v, rem) = <Endpoint as ReadFrom>::read_from(&mut r, 7).unwrap();
    assert_eq!(v, v4);
    assert_eq!(rem, 0);

    let mut addr = [0u8; 16];
    addr[15] = 1;
    let v6 = Endpoint::V6 { addr, port: 443 };
    let bytes = encode(&v6);
    assert_eq!(bytes.len(), 19);
    assert_eq!(v6.length(), 19);
    let mut r = ByteReader::new(bytes);
    let (v, rem) = <Endpoint as ReadFrom>::read_from(&mut r, 19).unwrap();
    assert_eq!(v, v6);
    assert_eq!(rem, 0);
}

#[test]
fn endpoint_rejects_unknown_family() {
    let mut r = ByteReader::new(vec![9u8, 0, 0, 0, 0, 0, 0]);
    let e = <Endpoint as ReadFrom>::read_from(&mut r, 7).unwrap_err();
    assert_eq!(e, DecodeError::InvalidEncoding);
    // Only the family tag was consumed.
    assert_eq!(r.pos, 1);
}

#[test]
fn truncated_scalar_fails() {
    let mut r = ByteReader::new(vec![0u8, 0]);
    let e = <u32 as ReadFrom>::read_from(&mut r, 4).unwrap_err();
    assert_eq!(e, DecodeError::TruncatedInput);
    // A failed fixed-size read does not move the cursor.
    assert_eq!(r.pos, 0);
}

#[test]
fn exhausted_budget_fails() {
    let mut r = ByteReader::new(vec![0u8, 0, 0, 5]);
    let e = <u32 as ReadFrom>::read_from(&mut r, 2).unwrap_err();
    assert_eq!(e, DecodeError::BudgetExhausted);
    assert_eq!(r.pos, 0);
}

#[test]
fn remaining_budget_counts_consumed_bytes() {
    let mut r = ByteReader::new(vec![0u8, 9, 1, 2, 3, 4, 5, 6, 7, 8]);
    let (v, rem) = <u16 as ReadFrom>::read_from(&mut r, 10).unwrap();
    assert_eq!(v, 9);
    assert_eq!(rem, 8);
    assert_eq!(r.pos, 2);
}

#[test]
fn length_matches_written_bytes() {
    let pancakes = Pancakes {
        item: 77,
        array: [3, 4],
        test_vec: vec![
            TestInner { first: -5, second: 10 },
            TestInner { first: 6, second: 11 },
        ],
    };
    assert_eq!(pancakes.length(), encode(&pancakes).len());
    let inner = TestInner { first: 1, second: 2 };
    assert_eq!(inner.length(), encode(&inner).len());
    let text = String::from("hello");
    assert_eq!(text.length(), encode(&text).len());
    let opt: Option<u64> = Some(3);
    assert_eq!(opt.length(), encode(&opt).len());
}

#[test]
fn length_be_bytes_is_big_endian() {
    let value: Vec<u8> = vec![0; 300];
    assert_eq!(value.length_be_bytes(), [0, 0, 1, 44]);
}

#[test]
fn aggregate_scenario() {
    let value = Pancakes { item: 5, array: [1, 1], test_vec: vec![] };
    assert_eq!(value.length(), 6);
    let bytes = encode(&value);
    assert_eq!(bytes, vec![0x00, 0x00, 0x00, 0x05, 0x01, 0x01]);
    let mut r = ByteReader::new(bytes);
    let (v, rem) = <Pancakes as ReadFrom>::read_from(&mut r, 6).unwrap();
    assert_eq!(v, value);
    assert_eq!(rem, 0);
}

#[test]
fn round_trip_nested_aggregate() {
    let value = Pancakes {
        item: 0xdeadbeef,
        array: [9, 9],
        test_vec: vec![
            TestInner { first: -1, second: u64::MAX },
            TestInner { first: i32::MIN, second: 0 },
        ],
    };
    let budget = value.length();
    assert_eq!(budget, 6 + 2 * 12);
    let bytes = encode(&value);
    let mut r = ByteReader::new(bytes);
    let (v, rem) = <Pancakes as ReadFrom>::read_from(&mut r, budget).unwrap();
    assert_eq!(v, value);
    assert_eq!(rem, 0);
}

#[test]
fn normalized_accessors() {
    let inner = TestInner::normalized_new(-9, 42);
    assert_eq!(inner.first, -9);
    assert_eq!(inner.second, 42);
    assert_eq!(inner.get_first(), -9);
    assert_eq!(inner.get_second(), 42);
    let pancakes = Pancakes::normalized_new(5, [1, 1], vec![inner]);
    assert_eq!(pancakes.get_item(), 5);
}
