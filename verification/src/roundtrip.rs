//! Reading is the inverse of encoding: the bytes that `encode` gives for a
//! value read back as that value, whatever stands before and after them.
use crate::bencode::{
    digits, encode, encode_bytes, encode_entries, encode_items, int_text, BencodeView, COLON,
    DICT_START, END, INT_START, LIST_START, MINUS, ZERO,
};
use crate::parse::{
    decimal, digits_end, is_digit, parse, parse_bytes, parse_entries, parse_int, parse_items,
    parse_value, SyntaxReason,
};
use vstd::prelude::*;

verus! {

/// Whether the bytes `part` stand in `s` from `pos` on.
pub open spec fn has_at(s: Seq<u8>, pos: int, part: Seq<u8>) -> bool {
    &&& 0 <= pos
    &&& pos + part.len() <= s.len()
    &&& s.subrange(pos, pos + part.len()) == part
}

/// Where `a + b` stands, `a` stands, and `b` right after it.
pub proof fn lemma_has_at_split(s: Seq<u8>, pos: int, a: Seq<u8>, b: Seq<u8>)
    requires
        has_at(s, pos, a + b),
    ensures
        has_at(s, pos, a),
        has_at(s, pos + a.len(), b),
{
    let whole = s.subrange(pos, pos + (a + b).len());
    assert(s.subrange(pos, pos + a.len()) =~= whole.subrange(0, a.len() as int));
    assert((a + b).subrange(0, a.len() as int) =~= a);
    assert(s.subrange(pos + a.len(), pos + a.len() + b.len()) =~= whole.subrange(
        a.len() as int,
        (a + b).len() as int,
    ));
    assert((a + b).subrange(a.len() as int, (a + b).len() as int) =~= b);
}

/// The bytes of `part` are the bytes of `s` from `pos` on.
pub proof fn lemma_has_at_index(s: Seq<u8>, pos: int, part: Seq<u8>)
    requires
        has_at(s, pos, part),
    ensures
        forall|k: int| 0 <= k < part.len() ==> s[pos + k] == #[trigger] part[k],
{
    assert forall|k: int| 0 <= k < part.len() implies s[pos + k] == #[trigger] part[k] by {
        assert(s.subrange(pos, pos + part.len())[k] == s[pos + k]);
    }
}

/// The digits of a number are digits, at least one, and start with a zero
/// only for the number zero, which is a single digit.
pub proof fn lemma_digits_shape(n: nat)
    ensures
        digits(n).len() >= 1,
        forall|k: int| 0 <= k < digits(n).len() ==> is_digit(#[trigger] digits(n)[k]),
        digits(n)[0] == ZERO <==> n == 0,
        n == 0 ==> digits(n).len() == 1,
    decreases n,
{
    if n >= 10 {
        lemma_digits_shape(n / 10);
    }
}

/// The digits of a number spell that number.
pub proof fn lemma_decimal_of_digits(s: Seq<u8>, from: int, n: nat)
    requires
        has_at(s, from, digits(n)),
    ensures
        decimal(s, from, from + digits(n).len()) == n,
    decreases n,
{
    lemma_has_at_index(s, from, digits(n));
    let len = digits(n).len() as int;
    if n < 10 {
        assert(digits(n)[0] == (ZERO + n) as u8);
        assert(decimal(s, from, from) == 0);
        assert(decimal(s, from, from + 1) == decimal(s, from, from) * 10 + (s[from] - ZERO) as nat);
    } else {
        let shorter = digits(n / 10);
        assert(digits(n) == shorter.push((ZERO + n % 10) as u8));
        assert(digits(n) =~= shorter + seq![(ZERO + n % 10) as u8]);
        lemma_has_at_split(s, from, shorter, seq![(ZERO + n % 10) as u8]);
        lemma_decimal_of_digits(s, from, n / 10);
        assert(digits(n)[len - 1] == (ZERO + n % 10) as u8);
        assert(s[from + len - 1] == digits(n)[len - 1]);
    }
}

/// A run of `count` digits that ends the bytes, or that a byte other than
/// a digit follows, ends after `count` bytes.
pub proof fn lemma_digits_end_run(s: Seq<u8>, pos: int, count: nat)
    requires
        0 <= pos,
        pos + count <= s.len(),
        forall|k: int| pos <= k < pos + count ==> is_digit(#[trigger] s[k]),
        pos + count == s.len() || !is_digit(s[pos + count]),
    ensures
        digits_end(s, pos) == pos + count,
    decreases count,
{
    if count > 0 {
        assert(is_digit(s[pos]));
        lemma_digits_end_run(s, pos + 1, (count - 1) as nat);
    }
}

/// Where the digits of `n` stand and no digit follows them, the run of
/// digits is theirs and spells `n`.
pub proof fn lemma_digits_read(s: Seq<u8>, pos: int, n: nat)
    requires
        has_at(s, pos, digits(n)),
        pos + digits(n).len() == s.len() || !is_digit(s[pos + digits(n).len()]),
    ensures
        digits_end(s, pos) == pos + digits(n).len(),
        decimal(s, pos, pos + digits(n).len()) == n,
{
    lemma_digits_shape(n);
    lemma_has_at_index(s, pos, digits(n));
    assert forall|k: int| pos <= k < pos + digits(n).len() implies is_digit(#[trigger] s[k]) by {
        assert(s[pos + (k - pos)] == digits(n)[k - pos]);
    }
    lemma_digits_end_run(s, pos, digits(n).len());
    lemma_decimal_of_digits(s, pos, n);
}

/// An encoded integer reads back as that integer.
pub proof fn lemma_parse_int(s: Seq<u8>, pos: int, value: i64)
    requires
        has_at(s, pos, encode(BencodeView::Int(value))),
    ensures
        parse_int(s, pos) == Ok::<(i64, int), (int, SyntaxReason)>(
            (value, pos + encode(BencodeView::Int(value)).len()),
        ),
        s[pos] == INT_START,
{
    let text = int_text(value as int);
    let whole = encode(BencodeView::Int(value));
    assert(whole == seq![INT_START] + text + seq![END]);
    lemma_has_at_index(s, pos, whole);
    assert(whole[0] == INT_START);
    assert(s[pos + 0] == whole[0]);
    lemma_has_at_split(s, pos, seq![INT_START] + text, seq![END]);
    lemma_has_at_split(s, pos, seq![INT_START], text);
    lemma_has_at_index(s, pos + 1 + text.len(), seq![END]);
    assert(seq![END][0] == END);
    assert(s[pos + 1 + text.len() + 0] == END);
    if value < 0 {
        let magnitude = (-value) as nat;
        lemma_digits_shape(magnitude);
        assert(text == seq![MINUS] + digits(magnitude));
        lemma_has_at_split(s, pos + 1, seq![MINUS], digits(magnitude));
        lemma_has_at_index(s, pos + 1, seq![MINUS]);
        assert(seq![MINUS][0] == MINUS);
        assert(s[pos + 1 + 0] == MINUS);
        lemma_digits_read(s, pos + 2, magnitude);
        lemma_has_at_index(s, pos + 2, digits(magnitude));
        assert(s[pos + 2 + 0] == digits(magnitude)[0]);
    } else {
        let magnitude = value as nat;
        lemma_digits_shape(magnitude);
        lemma_digits_read(s, pos + 1, magnitude);
        lemma_has_at_index(s, pos + 1, digits(magnitude));
        assert(s[pos + 1 + 0] == digits(magnitude)[0]);
        assert(is_digit(s[pos + 1]));
    }
}

/// An encoded byte string reads back as that byte string.
pub proof fn lemma_parse_bytes(s: Seq<u8>, pos: int, bytes: Seq<u8>)
    requires
        has_at(s, pos, encode_bytes(bytes)),
    ensures
        parse_bytes(s, pos) == Ok::<(Seq<u8>, int), (int, SyntaxReason)>(
            (bytes, pos + encode_bytes(bytes).len()),
        ),
        is_digit(s[pos]),
        pos < s.len(),
{
    let prefix = digits(bytes.len());
    lemma_digits_shape(bytes.len());
    assert(encode_bytes(bytes) == prefix + seq![COLON] + bytes);
    lemma_has_at_split(s, pos, prefix + seq![COLON], bytes);
    lemma_has_at_split(s, pos, prefix, seq![COLON]);
    lemma_has_at_index(s, pos + prefix.len(), seq![COLON]);
    assert(seq![COLON][0] == COLON);
    assert(s[pos + prefix.len() + 0] == COLON);
    lemma_digits_read(s, pos, bytes.len());
    lemma_has_at_index(s, pos, prefix);
    assert(s[pos + 0] == prefix[0]);
}

/// An encoded value reads back as that value, and the position after it
/// is the end of its encoding. No encoding is empty, and none starts with
/// the `e` that closes a list.
pub proof fn lemma_parse_value(s: Seq<u8>, pos: int, value: BencodeView)
    requires
        has_at(s, pos, encode(value)),
    ensures
        parse_value(s, pos) == Ok::<(BencodeView, int), (int, SyntaxReason)>(
            (value, pos + encode(value).len()),
        ),
        encode(value).len() >= 1,
        s[pos] != END,
    decreases value,
{
    match value {
        BencodeView::Int(i) => {
            lemma_parse_int(s, pos, i);
        },
        BencodeView::Bytes(bytes) => {
            lemma_parse_bytes(s, pos, bytes);
        },
        BencodeView::List(items) => {
            let inner = encode_items(items);
            assert(encode(value) == seq![LIST_START] + inner + seq![END]);
            assert(encode(value) =~= seq![LIST_START] + (inner + seq![END]));
            lemma_has_at_split(s, pos, seq![LIST_START], inner + seq![END]);
            lemma_has_at_index(s, pos, seq![LIST_START]);
            assert(seq![LIST_START][0] == LIST_START);
            assert(s[pos + 0] == LIST_START);
            lemma_parse_items(s, pos + 1, items);
        },
        BencodeView::Dict(entries) => {
            let inner = encode_entries(entries);
            assert(encode(value) == seq![DICT_START] + inner + seq![END]);
            assert(encode(value) =~= seq![DICT_START] + (inner + seq![END]));
            lemma_has_at_split(s, pos, seq![DICT_START], inner + seq![END]);
            lemma_has_at_index(s, pos, seq![DICT_START]);
            assert(seq![DICT_START][0] == DICT_START);
            assert(s[pos + 0] == DICT_START);
            lemma_parse_entries(s, pos + 1, entries);
        },
    }
}

/// The encoded members of a list, closed by `e`, read back as those
/// members.
pub proof fn lemma_parse_items(s: Seq<u8>, pos: int, items: Seq<BencodeView>)
    requires
        has_at(s, pos, encode_items(items) + seq![END]),
    ensures
        parse_items(s, pos) == Ok::<(Seq<BencodeView>, int), (int, SyntaxReason)>(
            (items, pos + encode_items(items).len() + 1),
        ),
    decreases items,
{
    if items.len() == 0 {
        assert(encode_items(items) + seq![END] =~= seq![END]);
        lemma_has_at_index(s, pos, seq![END]);
        assert(seq![END][0] == END);
        assert(s[pos + 0] == END);
        assert(items =~= Seq::<BencodeView>::empty());
    } else {
        let head = encode(items[0]);
        let tail = encode_items(items.drop_first());
        assert(encode_items(items) == head + tail);
        assert(encode_items(items) + seq![END] =~= head + (tail + seq![END]));
        lemma_has_at_split(s, pos, head, tail + seq![END]);
        lemma_parse_value(s, pos, items[0]);
        lemma_parse_items(s, pos + head.len(), items.drop_first());
        assert(seq![items[0]] + items.drop_first() =~= items);
        assert(encode_items(items).len() == head.len() + tail.len());
        assert(parse_value(s, pos) == Ok::<(BencodeView, int), (int, SyntaxReason)>(
            (items[0], pos + head.len()),
        ));
        assert(pos + head.len() + tail.len() + 1 <= s.len());
    }
}

/// The encoded entries of a dictionary, closed by `e`, read back as those
/// entries.
pub proof fn lemma_parse_entries(s: Seq<u8>, pos: int, entries: Seq<(Seq<u8>, BencodeView)>)
    requires
        has_at(s, pos, encode_entries(entries) + seq![END]),
    ensures
        parse_entries(s, pos) == Ok::<(Seq<(Seq<u8>, BencodeView)>, int), (int, SyntaxReason)>(
            (entries, pos + encode_entries(entries).len() + 1),
        ),
    decreases entries,
{
    if entries.len() == 0 {
        assert(encode_entries(entries) + seq![END] =~= seq![END]);
        lemma_has_at_index(s, pos, seq![END]);
        assert(seq![END][0] == END);
        assert(s[pos + 0] == END);
        assert(entries =~= Seq::<(Seq<u8>, BencodeView)>::empty());
    } else {
        let name = encode_bytes(entries[0].0);
        let head = encode(entries[0].1);
        let tail = encode_entries(entries.drop_first());
        assert(encode_entries(entries) == name + head + tail);
        assert(encode_entries(entries) + seq![END] =~= name + (head + (tail + seq![END])));
        lemma_has_at_split(s, pos, name, head + (tail + seq![END]));
        lemma_has_at_split(s, pos + name.len(), head, tail + seq![END]);
        lemma_parse_bytes(s, pos, entries[0].0);
        lemma_digits_shape(entries[0].0.len());
        lemma_parse_value(s, pos + name.len(), entries[0].1);
        lemma_parse_entries(s, pos + name.len() + head.len(), entries.drop_first());
        assert(seq![(entries[0].0, entries[0].1)] + entries.drop_first() =~= entries);
        assert(encode_entries(entries).len() == name.len() + head.len() + tail.len());
        assert(s[pos] != END);
        assert(pos + name.len() + head.len() + tail.len() + 1 <= s.len());
    }
}

/// Reading is the inverse of encoding: the encoding of a value, with
/// whatever bytes after it, reads back as that value.
pub proof fn lemma_round_trip(value: BencodeView, rest: Seq<u8>)
    ensures
        parse(encode(value) + rest) == Ok::<BencodeView, (int, SyntaxReason)>(value),
        parse(encode(value)) == Ok::<BencodeView, (int, SyntaxReason)>(value),
{
    let s = encode(value) + rest;
    assert(s.subrange(0, encode(value).len() as int) =~= encode(value));
    lemma_parse_value(s, 0, value);
    let alone = encode(value);
    assert(alone.subrange(0, alone.len() as int) =~= alone);
    lemma_parse_value(alone, 0, value);
}

/// Values with the same encoding are the same value.
pub proof fn lemma_encode_injective(a: BencodeView, b: BencodeView)
    requires
        encode(a) == encode(b),
    ensures
        a == b,
{
    lemma_round_trip(a, Seq::empty());
    lemma_round_trip(b, Seq::empty());
}

} // verus!
