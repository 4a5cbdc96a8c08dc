//! Reading a bencode value from bytes.
//!
//! `parse_value` says, for every byte sequence and position, which value
//! stands there and where it ends, or where and why the bytes are no
//! value. The functions that read bytes are proved to return just that.
use crate::bencode::{
    entry_views, item_views, Bencode, BencodeView, COLON, DICT_START, END, INT_START,
    LIST_START, MINUS, ZERO,
};
use vstd::prelude::*;

verus! {

/// Why bytes are no bencode value.
#[derive(Clone, Copy, Debug, PartialEq, Eq, Structural)]
pub enum SyntaxReason {
    /// The bytes end inside a value.
    UnexpectedEnd,
    /// A byte stands where the grammar has no place for it.
    UnexpectedByte,
    /// An integer with a leading zero, or minus zero.
    NonCanonicalInteger,
    /// An integer outside the range of 64 signed bits.
    IntegerOutOfRange,
    /// A byte string whose length reaches past the end of the bytes.
    TruncatedString,
}

/// Where and why bytes are no bencode value.
#[derive(Clone, Copy, Debug, PartialEq, Eq, Structural)]
pub struct SyntaxError {
    pub position: usize,
    pub reason: SyntaxReason,
}

/// Whether `byte` is one of the ten decimal digits.
pub open spec fn is_digit(byte: u8) -> bool {
    ZERO <= byte <= ZERO + 9
}

/// The end of the run of digits that starts at `pos`.
pub open spec fn digits_end(s: Seq<u8>, pos: int) -> int
    decreases s.len() - pos,
{
    if 0 <= pos < s.len() && is_digit(s[pos]) {
        digits_end(s, pos + 1)
    } else {
        pos
    }
}

/// The number that the digits from `from` up to `to` spell.
pub open spec fn decimal(s: Seq<u8>, from: int, to: int) -> nat
    decreases to - from,
{
    if to <= from {
        0
    } else {
        decimal(s, from, to - 1) * 10 + (s[to - 1] - ZERO) as nat
    }
}

/// The integer whose `i` stands at `pos`, and the position after its `e`.
/// The digits may carry one minus sign, no leading zero and no minus zero,
/// and must spell a number of 64 signed bits.
pub open spec fn parse_int(s: Seq<u8>, pos: int) -> Result<(i64, int), (int, SyntaxReason)> {
    let negative = pos + 1 < s.len() && s[pos + 1] == MINUS;
    let first = if negative {
        pos + 2
    } else {
        pos + 1
    };
    let end = digits_end(s, first);
    if end >= s.len() {
        Err((s.len() as int, SyntaxReason::UnexpectedEnd))
    } else if end == first || s[end] != END {
        Err((end, SyntaxReason::UnexpectedByte))
    } else if s[first] == ZERO && (negative || end - first > 1) {
        Err((pos, SyntaxReason::NonCanonicalInteger))
    } else {
        let magnitude = decimal(s, first, end) as int;
        let value = if negative {
            -magnitude
        } else {
            magnitude
        };
        if i64::MIN <= value <= i64::MAX {
            Ok((value as i64, end + 1))
        } else {
            Err((pos, SyntaxReason::IntegerOutOfRange))
        }
    }
}

/// The byte string whose length starts at `pos`, and the position after
/// its last byte.
pub open spec fn parse_bytes(s: Seq<u8>, pos: int) -> Result<(Seq<u8>, int), (int, SyntaxReason)> {
    let end = digits_end(s, pos);
    if end >= s.len() {
        Err((s.len() as int, SyntaxReason::UnexpectedEnd))
    } else if s[end] != COLON {
        Err((end, SyntaxReason::UnexpectedByte))
    } else {
        let length = decimal(s, pos, end);
        if end + 1 + length > s.len() {
            Err((pos, SyntaxReason::TruncatedString))
        } else {
            Ok((s.subrange(end + 1, end + 1 + length), end + 1 + length))
        }
    }
}

/// The value that starts at `pos`, and the position after it.
pub open spec fn parse_value(s: Seq<u8>, pos: int) -> Result<(BencodeView, int), (int, SyntaxReason)>
    decreases s.len() - pos, 0nat,
{
    if pos < 0 || pos >= s.len() {
        Err((s.len() as int, SyntaxReason::UnexpectedEnd))
    } else if s[pos] == INT_START {
        match parse_int(s, pos) {
            Ok((i, next)) => Ok((BencodeView::Int(i), next)),
            Err(e) => Err(e),
        }
    } else if is_digit(s[pos]) {
        match parse_bytes(s, pos) {
            Ok((bytes, next)) => Ok((BencodeView::Bytes(bytes), next)),
            Err(e) => Err(e),
        }
    } else if s[pos] == LIST_START {
        match parse_items(s, pos + 1) {
            Ok((items, next)) => Ok((BencodeView::List(items), next)),
            Err(e) => Err(e),
        }
    } else if s[pos] == DICT_START {
        match parse_entries(s, pos + 1) {
            Ok((entries, next)) => Ok((BencodeView::Dict(entries), next)),
            Err(e) => Err(e),
        }
    } else {
        Err((pos, SyntaxReason::UnexpectedByte))
    }
}

/// The members of a list from `pos` up to its `e`, and the position after
/// that `e`. The test on where a member ends only serves the proof that
/// the definition ends: by `lemma_parse_value_bounds` no member fails it.
pub open spec fn parse_items(s: Seq<u8>, pos: int) -> Result<
    (Seq<BencodeView>, int),
    (int, SyntaxReason),
>
    decreases s.len() - pos, 1nat,
{
    if pos < 0 || pos >= s.len() {
        Err((s.len() as int, SyntaxReason::UnexpectedEnd))
    } else if s[pos] == END {
        Ok((Seq::empty(), pos + 1))
    } else {
        match parse_value(s, pos) {
            Ok((item, next)) => if next <= pos || next > s.len() {
                Err((pos, SyntaxReason::UnexpectedByte))
            } else {
                match parse_items(s, next) {
                    Ok((rest, end)) => Ok((seq![item] + rest, end)),
                    Err(e) => Err(e),
                }
            },
            Err(e) => Err(e),
        }
    }
}

/// The entries of a dictionary from `pos` up to its `e`, and the position
/// after that `e`. Each entry is a byte-string key and a value. The tests
/// on where a key and a value end only serve the proof that the
/// definition ends: by `lemma_parse_value_bounds` no entry fails them.
pub open spec fn parse_entries(s: Seq<u8>, pos: int) -> Result<
    (Seq<(Seq<u8>, BencodeView)>, int),
    (int, SyntaxReason),
>
    decreases s.len() - pos, 1nat,
{
    if pos < 0 || pos >= s.len() {
        Err((s.len() as int, SyntaxReason::UnexpectedEnd))
    } else if s[pos] == END {
        Ok((Seq::empty(), pos + 1))
    } else if !is_digit(s[pos]) {
        Err((pos, SyntaxReason::UnexpectedByte))
    } else {
        match parse_bytes(s, pos) {
            Ok((key, after_key)) => if after_key <= pos || after_key > s.len() {
                Err((pos, SyntaxReason::UnexpectedByte))
            } else {
                match parse_value(s, after_key) {
                    Ok((value, next)) => if next <= after_key || next > s.len() {
                        Err((pos, SyntaxReason::UnexpectedByte))
                    } else {
                        match parse_entries(s, next) {
                            Ok((rest, end)) => Ok((seq![(key, value)] + rest, end)),
                            Err(e) => Err(e),
                        }
                    },
                    Err(e) => Err(e),
                }
            },
            Err(e) => Err(e),
        }
    }
}

/// The value that a descriptor's bytes begin with. Bytes after the value
/// are not looked at.
pub open spec fn parse(s: Seq<u8>) -> Result<BencodeView, (int, SyntaxReason)> {
    match parse_value(s, 0) {
        Ok((value, _)) => Ok(value),
        Err(e) => Err(e),
    }
}

/// A run of digits ends at or after its start, within the bytes, and
/// holds digits only. The byte after it, if any, is no digit.
pub proof fn lemma_digits_end(s: Seq<u8>, pos: int)
    requires
        0 <= pos <= s.len(),
    ensures
        pos <= digits_end(s, pos) <= s.len(),
        forall|k: int| pos <= k < digits_end(s, pos) ==> is_digit(#[trigger] s[k]),
        digits_end(s, pos) < s.len() ==> !is_digit(s[digits_end(s, pos)]),
    decreases s.len() - pos,
{
    if pos < s.len() && is_digit(s[pos]) {
        lemma_digits_end(s, pos + 1);
    }
}

/// More digits never spell a smaller number.
pub proof fn lemma_decimal_grows(s: Seq<u8>, from: int, mid: int, to: int)
    requires
        from <= mid <= to,
        forall|k: int| from <= k < to ==> is_digit(#[trigger] s[k]),
    ensures
        decimal(s, from, mid) <= decimal(s, from, to),
    decreases to - mid,
{
    if mid < to {
        lemma_decimal_grows(s, from, mid, to - 1);
    }
}

/// A value ends after its start and within the bytes, and an error names
/// a position within the bytes. So the tests on positions in
/// `parse_items` and `parse_entries` never turn a value down.
pub proof fn lemma_parse_value_bounds(s: Seq<u8>, pos: int)
    requires
        0 <= pos,
    ensures
        parse_value(s, pos) matches Ok((_, next)) ==> pos < next <= s.len(),
        parse_value(s, pos) matches Err((position, _)) ==> 0 <= position <= s.len(),
    decreases s.len() - pos, 0nat,
{
    if pos < s.len() {
        if s[pos] == INT_START {
            let negative = pos + 1 < s.len() && s[pos + 1] == MINUS;
            lemma_digits_end(s, if negative { pos + 2 } else { pos + 1 });
        } else if is_digit(s[pos]) {
            lemma_digits_end(s, pos);
        } else if s[pos] == LIST_START {
            lemma_parse_items_bounds(s, pos + 1);
        } else if s[pos] == DICT_START {
            lemma_parse_entries_bounds(s, pos + 1);
        }
    }
}

/// The members of a list end after their start and within the bytes.
pub proof fn lemma_parse_items_bounds(s: Seq<u8>, pos: int)
    requires
        0 <= pos,
    ensures
        parse_items(s, pos) matches Ok((_, next)) ==> pos < next <= s.len(),
        parse_items(s, pos) matches Err((position, _)) ==> 0 <= position <= s.len(),
    decreases s.len() - pos, 1nat,
{
    if pos < s.len() && s[pos] != END {
        lemma_parse_value_bounds(s, pos);
        if let Ok((_, next)) = parse_value(s, pos) {
            lemma_parse_items_bounds(s, next);
        }
    }
}

/// The entries of a dictionary end after their start and within the
/// bytes.
pub proof fn lemma_parse_entries_bounds(s: Seq<u8>, pos: int)
    requires
        0 <= pos,
    ensures
        parse_entries(s, pos) matches Ok((_, next)) ==> pos < next <= s.len(),
        parse_entries(s, pos) matches Err((position, _)) ==> 0 <= position <= s.len(),
    decreases s.len() - pos, 1nat,
{
    if pos < s.len() && s[pos] != END && is_digit(s[pos]) {
        lemma_digits_end(s, pos);
        if let Ok((_, after_key)) = parse_bytes(s, pos) {
            lemma_parse_value_bounds(s, after_key);
            if let Ok((_, next)) = parse_value(s, after_key) {
                lemma_parse_entries_bounds(s, next);
            }
        }
    }
}

/// What `parse_items` gives at `pos` when the members before `pos` are
/// `done` and the rest reads as `rest`.
pub open spec fn after_items(
    done: Seq<BencodeView>,
    rest: Result<(Seq<BencodeView>, int), (int, SyntaxReason)>,
) -> Result<(Seq<BencodeView>, int), (int, SyntaxReason)> {
    match rest {
        Ok((items, end)) => Ok((done + items, end)),
        Err(e) => Err(e),
    }
}

/// What `parse_entries` gives at `pos` when the entries before `pos` are
/// `done` and the rest reads as `rest`.
pub open spec fn after_entries(
    done: Seq<(Seq<u8>, BencodeView)>,
    rest: Result<(Seq<(Seq<u8>, BencodeView)>, int), (int, SyntaxReason)>,
) -> Result<(Seq<(Seq<u8>, BencodeView)>, int), (int, SyntaxReason)> {
    match rest {
        Ok((entries, end)) => Ok((done + entries, end)),
        Err(e) => Err(e),
    }
}

/// Whether what was read is what `parse_value` says.
pub open spec fn value_read(
    read: Result<(Bencode, usize), SyntaxError>,
    expected: Result<(BencodeView, int), (int, SyntaxReason)>,
) -> bool {
    match expected {
        Ok((value, next)) => read matches Ok((v, n)) && v@ == value && n == next,
        Err((position, reason)) => read matches Err(e) && e.position == position && e.reason
            == reason,
    }
}

/// The end of the run of digits that starts at `pos`.
fn scan_digits(bytes: &[u8], pos: usize) -> (end: usize)
    requires
        pos <= bytes@.len(),
    ensures
        end == digits_end(bytes@, pos as int),
        pos <= end <= bytes@.len(),
{
    let mut end = pos;
    while end < bytes.len() && ZERO <= bytes[end] && bytes[end] <= ZERO + 9
        invariant
            pos <= end <= bytes@.len(),
            digits_end(bytes@, pos as int) == digits_end(bytes@, end as int),
        decreases bytes@.len() - end,
    {
        end += 1;
    }
    end
}

/// A copy of the bytes from `from` up to `to`.
fn copy_range(bytes: &[u8], from: usize, to: usize) -> (copy: Vec<u8>)
    requires
        from <= to <= bytes@.len(),
    ensures
        copy@ == bytes@.subrange(from as int, to as int),
{
    let mut copy: Vec<u8> = Vec::new();
    let mut k = from;
    while k < to
        invariant
            from <= k <= to <= bytes@.len(),
            copy@ == bytes@.subrange(from as int, k as int),
        decreases to - k,
    {
        copy.push(bytes[k]);
        assert(bytes@.subrange(from as int, k + 1) =~= bytes@.subrange(from as int, k as int).push(
            bytes@[k as int],
        ));
        k += 1;
    }
    copy
}

/// The number that the digits from `from` up to `to` spell, where it is at
/// most `bound`.
fn read_decimal(bytes: &[u8], from: usize, to: usize, bound: u64) -> (number: Option<u64>)
    requires
        from <= to <= bytes@.len(),
        forall|j: int| from <= j < to ==> is_digit(#[trigger] bytes@[j]),
    ensures
        decimal(bytes@, from as int, to as int) <= bound ==> number == Some(
            decimal(bytes@, from as int, to as int) as u64,
        ),
        decimal(bytes@, from as int, to as int) > bound ==> number is None,
{
    let mut number: u64 = 0;
    let mut k = from;
    while k < to
        invariant
            from <= k <= to <= bytes@.len(),
            forall|j: int| from <= j < to ==> is_digit(#[trigger] bytes@[j]),
            number == decimal(bytes@, from as int, k as int),
            number <= bound,
        decreases to - k,
    {
        let digit = (bytes[k] - ZERO) as u64;
        proof {
            lemma_decimal_grows(bytes@, from as int, k + 1, to as int);
        }
        if digit > bound || number > (bound - digit) / 10 {
            return None;
        }
        number = number * 10 + digit;
        k += 1;
    }
    Some(number)
}

/// Reads the integer whose `i` stands at `pos`.
pub fn read_int(bytes: &[u8], pos: usize) -> (read: Result<(i64, usize), SyntaxError>)
    requires
        pos < bytes@.len(),
        bytes@[pos as int] == INT_START,
    ensures
        match parse_int(bytes@, pos as int) {
            Ok((value, next)) => read == Ok::<(i64, usize), SyntaxError>((value, next as usize))
                && pos < next <= bytes@.len(),
            Err((position, reason)) => read == Err::<(i64, usize), SyntaxError>(
                SyntaxError { position: position as usize, reason },
            ) && 0 <= position <= bytes@.len(),
        },
{
    let len = bytes.len();
    let negative = pos + 1 < len && bytes[pos + 1] == MINUS;
    let first = if negative {
        pos + 2
    } else {
        pos + 1
    };
    let end = scan_digits(bytes, first);
    proof {
        lemma_digits_end(bytes@, first as int);
    }
    if end >= len {
        return Err(SyntaxError { position: len, reason: SyntaxReason::UnexpectedEnd });
    }
    if end == first || bytes[end] != END {
        return Err(SyntaxError { position: end, reason: SyntaxReason::UnexpectedByte });
    }
    if bytes[first] == ZERO && (negative || end - first > 1) {
        return Err(SyntaxError { position: pos, reason: SyntaxReason::NonCanonicalInteger });
    }
    let magnitude = match read_decimal(bytes, first, end, 9223372036854775808) {
        Some(magnitude) => magnitude,
        None => {
            return Err(SyntaxError { position: pos, reason: SyntaxReason::IntegerOutOfRange });
        },
    };
    if negative {
        let value: i64 = if magnitude == 9223372036854775808 {
            i64::MIN
        } else {
            -(magnitude as i64)
        };
        Ok((value, end + 1))
    } else if magnitude > 9223372036854775807 {
        Err(SyntaxError { position: pos, reason: SyntaxReason::IntegerOutOfRange })
    } else {
        Ok((magnitude as i64, end + 1))
    }
}

/// Reads the byte string whose length starts at `pos`.
pub fn read_bytes(bytes: &[u8], pos: usize) -> (read: Result<(Vec<u8>, usize), SyntaxError>)
    requires
        pos < bytes@.len(),
        is_digit(bytes@[pos as int]),
    ensures
        match parse_bytes(bytes@, pos as int) {
            Ok((string, next)) => read matches Ok((v, n)) && v@ == string && n == next && pos
                < next <= bytes@.len(),
            Err((position, reason)) => read == Err::<(Vec<u8>, usize), SyntaxError>(
                SyntaxError { position: position as usize, reason },
            ) && 0 <= position <= bytes@.len(),
        },
{
    let len = bytes.len();
    let end = scan_digits(bytes, pos);
    proof {
        lemma_digits_end(bytes@, pos as int);
    }
    if end >= len {
        return Err(SyntaxError { position: len, reason: SyntaxReason::UnexpectedEnd });
    }
    if bytes[end] != COLON {
        return Err(SyntaxError { position: end, reason: SyntaxReason::UnexpectedByte });
    }
    let length = match read_decimal(bytes, pos, end, len as u64) {
        Some(length) => length as usize,
        None => {
            return Err(SyntaxError { position: pos, reason: SyntaxReason::TruncatedString });
        },
    };
    if length > len - end - 1 {
        return Err(SyntaxError { position: pos, reason: SyntaxReason::TruncatedString });
    }
    let start = end + 1;
    let stop = start + length;
    Ok((copy_range(bytes, start, stop), stop))
}

/// Reads the value that starts at `pos`.
pub fn read_value(bytes: &[u8], pos: usize) -> (read: Result<(Bencode, usize), SyntaxError>)
    requires
        pos <= bytes@.len(),
    ensures
        value_read(read, parse_value(bytes@, pos as int)),
        read matches Ok((_, next)) ==> pos < next <= bytes@.len(),
        read matches Err(e) ==> e.position <= bytes@.len(),
    decreases bytes@.len() - pos,
{
    let len = bytes.len();
    if pos >= len {
        return Err(SyntaxError { position: len, reason: SyntaxReason::UnexpectedEnd });
    }
    let lead = bytes[pos];
    if lead == INT_START {
        match read_int(bytes, pos) {
            Ok((i, next)) => Ok((Bencode::Int(i), next)),
            Err(e) => Err(e),
        }
    } else if ZERO <= lead && lead <= ZERO + 9 {
        match read_bytes(bytes, pos) {
            Ok((string, next)) => Ok((Bencode::Bytes(string), next)),
            Err(e) => Err(e),
        }
    } else if lead == LIST_START {
        let mut items: Vec<Bencode> = Vec::new();
        let mut cur = pos + 1;
        assert(item_views(items@) =~= Seq::<BencodeView>::empty());
        assert(after_items(item_views(items@), parse_items(bytes@, cur as int)) == parse_items(
            bytes@,
            pos + 1,
        )) by {
            let rest = parse_items(bytes@, cur as int);
            if rest is Ok {
                assert(Seq::<BencodeView>::empty() + rest->Ok_0.0 =~= rest->Ok_0.0);
            }
        }
        loop
            invariant
                pos < cur <= bytes@.len(),
                len == bytes@.len(),
                bytes@[pos as int] == LIST_START,
                after_items(item_views(items@), parse_items(bytes@, cur as int)) == parse_items(
                    bytes@,
                    pos + 1,
                ),
            decreases bytes@.len() - cur,
        {
            if cur >= len {
                return Err(SyntaxError { position: len, reason: SyntaxReason::UnexpectedEnd });
            }
            if bytes[cur] == END {
                let value = Bencode::List(items);
                proof {
                    assert(item_views(items@) + Seq::<BencodeView>::empty() =~= item_views(
                        items@,
                    ));
                    assert(value@ == BencodeView::List(item_views(items@)));
                }
                return Ok((value, cur + 1));
            }
            match read_value(bytes, cur) {
                Ok((item, next)) => {
                    proof {
                        let done = item_views(items@);
                        let rest = parse_items(bytes@, next as int);
                        assert(parse_items(bytes@, cur as int) == after_items(seq![item@], rest));
                        assert(item_views(items@.push(item)) =~= done.push(item@)) by {
                            assert(items@.push(item).drop_last() =~= items@);
                        }
                        if rest is Ok {
                            assert(done.push(item@) + rest->Ok_0.0 =~= done + (seq![item@]
                                + rest->Ok_0.0));
                        }
                    }
                    items.push(item);
                    cur = next;
                },
                Err(e) => {
                    return Err(e);
                },
            }
        }
    } else if lead == DICT_START {
        let mut entries: Vec<(Vec<u8>, Bencode)> = Vec::new();
        let mut cur = pos + 1;
        assert(entry_views(entries@) =~= Seq::<(Seq<u8>, BencodeView)>::empty());
        assert(after_entries(entry_views(entries@), parse_entries(bytes@, cur as int))
            == parse_entries(bytes@, pos + 1)) by {
            let rest = parse_entries(bytes@, cur as int);
            if rest is Ok {
                assert(Seq::<(Seq<u8>, BencodeView)>::empty() + rest->Ok_0.0 =~= rest->Ok_0.0);
            }
        }
        loop
            invariant
                pos < cur <= bytes@.len(),
                len == bytes@.len(),
                bytes@[pos as int] == DICT_START,
                after_entries(entry_views(entries@), parse_entries(bytes@, cur as int))
                    == parse_entries(bytes@, pos + 1),
            decreases bytes@.len() - cur,
        {
            if cur >= len {
                return Err(SyntaxError { position: len, reason: SyntaxReason::UnexpectedEnd });
            }
            if bytes[cur] == END {
                let value = Bencode::Dict(entries);
                proof {
                    assert(entry_views(entries@) + Seq::<(Seq<u8>, BencodeView)>::empty()
                        =~= entry_views(entries@));
                    assert(value@ == BencodeView::Dict(entry_views(entries@)));
                }
                return Ok((value, cur + 1));
            }
            if !(ZERO <= bytes[cur] && bytes[cur] <= ZERO + 9) {
                return Err(SyntaxError { position: cur, reason: SyntaxReason::UnexpectedByte });
            }
            let (key, after_key) = match read_bytes(bytes, cur) {
                Ok(read) => read,
                Err(e) => {
                    return Err(e);
                },
            };
            match read_value(bytes, after_key) {
                Ok((value, next)) => {
                    proof {
                        let done = entry_views(entries@);
                        let rest = parse_entries(bytes@, next as int);
                        assert(parse_entries(bytes@, cur as int) == after_entries(
                            seq![(key@, value@)],
                            rest,
                        ));
                        assert(entry_views(entries@.push((key, value))) =~= done.push(
                            (key@, value@),
                        )) by {
                            assert(entries@.push((key, value)).drop_last() =~= entries@);
                        }
                        if rest is Ok {
                            assert(done.push((key@, value@)) + rest->Ok_0.0 =~= done + (seq![
                                (key@, value@),
                            ] + rest->Ok_0.0));
                        }
                    }
                    entries.push((key, value));
                    cur = next;
                },
                Err(e) => {
                    return Err(e);
                },
            }
        }
    } else {
        Err(SyntaxError { position: pos, reason: SyntaxReason::UnexpectedByte })
    }
}

impl Bencode {
    /// Reads the value that `bytes` begin with. Bytes after the value are
    /// not looked at.
    pub fn parse(bytes: &[u8]) -> (read: Result<Bencode, SyntaxError>)
        ensures
            match parse(bytes@) {
                Ok(value) => read matches Ok(v) && v@ == value,
                Err((position, reason)) => read == Err::<Bencode, SyntaxError>(
                    SyntaxError { position: position as usize, reason },
                ),
            },
    {
        match read_value(bytes, 0) {
            Ok((value, _)) => Ok(value),
            Err(e) => Err(e),
        }
    }
}

} // verus!
