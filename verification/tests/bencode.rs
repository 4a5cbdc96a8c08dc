use hyperblow::bencode::Bencode;
use hyperblow::parse::{read_bytes, read_int, read_value, SyntaxError, SyntaxReason};
use serde_bencode::value::Value;
use std::collections::HashMap;

fn syntax(position: usize, reason: SyntaxReason) -> SyntaxError {
    SyntaxError { position, reason }
}

fn encoding_of(value: &Bencode) -> Vec<u8> {
    value.encode()
}

#[test]
fn integers_are_written_in_minimal_decimal() {
    assert_eq!(encoding_of(&Bencode::Int(0)), b"i0e");
    assert_eq!(encoding_of(&Bencode::Int(42)), b"i42e");
    assert_eq!(encoding_of(&Bencode::Int(-7)), b"i-7e");
    assert_eq!(encoding_of(&Bencode::Int(1000)), b"i1000e");
    assert_eq!(encoding_of(&Bencode::Int(i64::MAX)), b"i9223372036854775807e");
    assert_eq!(encoding_of(&Bencode::Int(i64::MIN)), b"i-9223372036854775808e");
}

#[test]
fn byte_strings_are_framed_by_their_length() {
    assert_eq!(encoding_of(&Bencode::Bytes(vec![])), b"0:");
    assert_eq!(encoding_of(&Bencode::Bytes(b"spam".to_vec())), b"4:spam");
    assert_eq!(encoding_of(&Bencode::Bytes(vec![0u8; 12])), [b"12:".as_slice(), &[0u8; 12]].concat());
}

#[test]
fn lists_and_dictionaries_keep_their_order() {
    let list = Bencode::List(vec![Bencode::Int(2), Bencode::Bytes(b"a".to_vec()), Bencode::Int(1)]);
    assert_eq!(encoding_of(&list), b"li2e1:ai1ee");
    let dict = Bencode::Dict(vec![
        (b"b".to_vec(), Bencode::Int(1)),
        (b"a".to_vec(), Bencode::List(vec![])),
    ]);
    assert_eq!(encoding_of(&dict), b"d1:bi1e1:alee");
    let mut out = b"x".to_vec();
    dict.encode_into(&mut out);
    assert_eq!(out, b"xd1:bi1e1:alee");
}

#[test]
fn encoding_agrees_with_serde_bencode_on_sorted_dictionaries() {
    let ours = Bencode::Dict(vec![
        (b"a".to_vec(), Bencode::Int(-12)),
        (b"b".to_vec(), Bencode::List(vec![Bencode::Bytes(b"xy".to_vec()), Bencode::Int(0)])),
        (b"c".to_vec(), Bencode::Dict(vec![(b"k".to_vec(), Bencode::Bytes(vec![0xff, 0x00]))])),
    ]);
    let mut inner = HashMap::new();
    inner.insert(b"k".to_vec(), Value::Bytes(vec![0xff, 0x00]));
    let mut theirs = HashMap::new();
    theirs.insert(b"a".to_vec(), Value::Int(-12));
    theirs.insert(
        b"b".to_vec(),
        Value::List(vec![Value::Bytes(b"xy".to_vec()), Value::Int(0)]),
    );
    theirs.insert(b"c".to_vec(), Value::Dict(inner));
    let expected = serde_bencode::to_bytes(&Value::Dict(theirs)).expect("serializes");
    assert_eq!(encoding_of(&ours), expected);
}

#[test]
fn parse_reads_back_what_encode_wrote() {
    let value = Bencode::Dict(vec![
        (b"z".to_vec(), Bencode::Int(i64::MIN)),
        (b"list".to_vec(), Bencode::List(vec![Bencode::Bytes(vec![]), Bencode::Int(5)])),
        (b"".to_vec(), Bencode::Dict(vec![])),
    ]);
    let bytes = value.encode();
    let read = Bencode::parse(&bytes).expect("an encoding parses");
    assert_eq!(read.encode(), bytes);
    match read {
        Bencode::Dict(entries) => {
            assert_eq!(entries.len(), 3);
            assert_eq!(entries[0].0, b"z");
            assert!(matches!(entries[0].1, Bencode::Int(i64::MIN)));
            assert_eq!(entries[1].0, b"list");
            assert_eq!(entries[2].0, b"");
        }
        _ => panic!("a dictionary was written"),
    }
}

#[test]
fn parse_takes_unsorted_keys_leading_zeros_in_lengths_and_trailing_bytes() {
    let read = Bencode::parse(b"d1:bi1e1:ai2ee").expect("keys need not be sorted");
    assert_eq!(read.encode(), b"d1:bi1e1:ai2ee");
    let read = Bencode::parse(b"004:spam").expect("a length may have leading zeros");
    assert_eq!(read.encode(), b"4:spam");
    let (value, next) = read_value(b"i7etrailing", 0).expect("a value, then more bytes");
    assert!(matches!(value, Bencode::Int(7)));
    assert_eq!(next, 3);
    assert!(Bencode::parse(b"i7etrailing").is_ok());
}

#[test]
fn truncated_string_is_a_syntax_error() {
    assert_eq!(Bencode::parse(b"5:abc").unwrap_err(), syntax(0, SyntaxReason::TruncatedString));
    assert_eq!(
        Bencode::parse(b"d1:a99999999999999999999999999:xe").unwrap_err(),
        syntax(4, SyntaxReason::TruncatedString)
    );
    assert_eq!(Bencode::parse(b"l3:ab").unwrap_err(), syntax(1, SyntaxReason::TruncatedString));
    assert_eq!(read_bytes(b"3:ab", 0).unwrap_err(), syntax(0, SyntaxReason::TruncatedString));
    let (bytes, next) = read_bytes(b"xx3:abcd", 2).expect("three bytes follow");
    assert_eq!(bytes, b"abc");
    assert_eq!(next, 7);
}

#[test]
fn unterminated_values_end_unexpectedly() {
    assert_eq!(Bencode::parse(b"").unwrap_err(), syntax(0, SyntaxReason::UnexpectedEnd));
    assert_eq!(Bencode::parse(b"li1e").unwrap_err(), syntax(4, SyntaxReason::UnexpectedEnd));
    assert_eq!(Bencode::parse(b"d1:a").unwrap_err(), syntax(4, SyntaxReason::UnexpectedEnd));
    assert_eq!(Bencode::parse(b"d1:ai1e").unwrap_err(), syntax(7, SyntaxReason::UnexpectedEnd));
    assert_eq!(Bencode::parse(b"i12").unwrap_err(), syntax(3, SyntaxReason::UnexpectedEnd));
    assert_eq!(Bencode::parse(b"i").unwrap_err(), syntax(1, SyntaxReason::UnexpectedEnd));
    assert_eq!(Bencode::parse(b"i-").unwrap_err(), syntax(2, SyntaxReason::UnexpectedEnd));
    assert_eq!(Bencode::parse(b"12").unwrap_err(), syntax(2, SyntaxReason::UnexpectedEnd));
}

#[test]
fn bytes_out_of_place() {
    assert_eq!(Bencode::parse(b"x").unwrap_err(), syntax(0, SyntaxReason::UnexpectedByte));
    assert_eq!(Bencode::parse(b"e").unwrap_err(), syntax(0, SyntaxReason::UnexpectedByte));
    assert_eq!(Bencode::parse(b"ie").unwrap_err(), syntax(1, SyntaxReason::UnexpectedByte));
    assert_eq!(Bencode::parse(b"i-e").unwrap_err(), syntax(2, SyntaxReason::UnexpectedByte));
    assert_eq!(Bencode::parse(b"i1xe").unwrap_err(), syntax(2, SyntaxReason::UnexpectedByte));
    assert_eq!(Bencode::parse(b"i+1e").unwrap_err(), syntax(1, SyntaxReason::UnexpectedByte));
    assert_eq!(Bencode::parse(b"3x:abc").unwrap_err(), syntax(1, SyntaxReason::UnexpectedByte));
    assert_eq!(Bencode::parse(b"di1ei2ee").unwrap_err(), syntax(1, SyntaxReason::UnexpectedByte));
    assert_eq!(Bencode::parse(b"l?e").unwrap_err(), syntax(1, SyntaxReason::UnexpectedByte));
}

#[test]
fn integers_must_be_canonical_and_in_range() {
    assert_eq!(Bencode::parse(b"i-0e").unwrap_err(), syntax(0, SyntaxReason::NonCanonicalInteger));
    assert_eq!(Bencode::parse(b"i007e").unwrap_err(), syntax(0, SyntaxReason::NonCanonicalInteger));
    assert_eq!(Bencode::parse(b"i00e").unwrap_err(), syntax(0, SyntaxReason::NonCanonicalInteger));
    assert_eq!(
        Bencode::parse(b"li-01ee").unwrap_err(),
        syntax(1, SyntaxReason::NonCanonicalInteger)
    );
    assert_eq!(
        Bencode::parse(b"i9223372036854775808e").unwrap_err(),
        syntax(0, SyntaxReason::IntegerOutOfRange)
    );
    assert_eq!(
        Bencode::parse(b"i-9223372036854775809e").unwrap_err(),
        syntax(0, SyntaxReason::IntegerOutOfRange)
    );
    assert_eq!(
        Bencode::parse(b"i123456789012345678901234567890e").unwrap_err(),
        syntax(0, SyntaxReason::IntegerOutOfRange)
    );
    assert_eq!(read_int(b"i0e", 0).expect("zero"), (0, 3));
    assert_eq!(read_int(b"i-9223372036854775808e", 0).expect("the least"), (i64::MIN, 22));
    assert_eq!(read_int(b"i9223372036854775807e", 0).expect("the greatest"), (i64::MAX, 21));
    assert_eq!(read_int(b"xi-15e", 1).expect("an integer after one byte"), (-15, 6));
}

#[test]
fn parse_agrees_with_serde_bencode_on_a_nested_value() {
    let bytes = b"d3:inti-3e4:listl2:abi0eli1eee3:mapd1:k1:vee";
    let ours = Bencode::parse(bytes).expect("well formed");
    let theirs: Value = serde_bencode::from_bytes(bytes).expect("well formed");
    assert_eq!(ours.encode(), serde_bencode::to_bytes(&theirs).expect("serializes"));
}
