//! The bencode value model and its encoding.
//!
//! A value is an integer, a byte string, a list of values, or a dictionary:
//! a list of entries, each a byte-string key with a value, kept in the order
//! in which they were written.
use vstd::prelude::*;

verus! {

/// `i`, which opens an integer.
pub const INT_START: u8 = 105;

/// `l`, which opens a list.
pub const LIST_START: u8 = 108;

/// `d`, which opens a dictionary.
pub const DICT_START: u8 = 100;

/// `e`, which closes an integer, a list or a dictionary.
pub const END: u8 = 101;

/// `:`, which parts the length of a byte string from its bytes.
pub const COLON: u8 = 58;

/// `-`, the sign of a negative integer.
pub const MINUS: u8 = 45;

/// `0`, the first of the ten digits.
pub const ZERO: u8 = 48;

/// A bencode value.
#[derive(Debug)]
pub enum Bencode {
    Int(i64),
    Bytes(Vec<u8>),
    List(Vec<Bencode>),
    Dict(Vec<(Vec<u8>, Bencode)>),
}

/// A bencode value as the contracts see it.
pub enum BencodeView {
    Int(i64),
    Bytes(Seq<u8>),
    List(Seq<BencodeView>),
    Dict(Seq<(Seq<u8>, BencodeView)>),
}

impl View for Bencode {
    type V = BencodeView;

    open spec fn view(&self) -> BencodeView
        decreases self,
    {
        match self {
            Bencode::Int(i) => BencodeView::Int(*i),
            Bencode::Bytes(b) => BencodeView::Bytes(b@),
            Bencode::List(items) => BencodeView::List(item_views(items@)),
            Bencode::Dict(entries) => BencodeView::Dict(entry_views(entries@)),
        }
    }
}

/// The views of the members of a list, in order.
pub open spec fn item_views(items: Seq<Bencode>) -> Seq<BencodeView>
    decreases items,
{
    if items.len() == 0 {
        Seq::empty()
    } else {
        item_views(items.drop_last()).push(items.last().view())
    }
}

/// The keys and the views of the values of the entries of a dictionary, in
/// order.
pub open spec fn entry_views(entries: Seq<(Vec<u8>, Bencode)>) -> Seq<(Seq<u8>, BencodeView)>
    decreases entries,
{
    if entries.len() == 0 {
        Seq::empty()
    } else {
        entry_views(entries.drop_last()).push((entries.last().0@, entries.last().1.view()))
    }
}

/// The views of a list's members stand where the members stand.
pub proof fn lemma_item_views(items: Seq<Bencode>)
    ensures
        item_views(items).len() == items.len(),
        forall|k: int| 0 <= k < items.len() ==> (#[trigger] item_views(items)[k]) == items[k]@,
    decreases items.len(),
{
    if items.len() > 0 {
        lemma_item_views(items.drop_last());
        assert(item_views(items) == item_views(items.drop_last()).push(items.last().view()));
    }
}

/// The views of a dictionary's entries stand where the entries stand.
pub proof fn lemma_entry_views(entries: Seq<(Vec<u8>, Bencode)>)
    ensures
        entry_views(entries).len() == entries.len(),
        forall|k: int|
            0 <= k < entries.len() ==> (#[trigger] entry_views(entries)[k]) == (
                entries[k].0@,
                entries[k].1@,
            ),
    decreases entries.len(),
{
    if entries.len() > 0 {
        lemma_entry_views(entries.drop_last());
        assert(entry_views(entries) == entry_views(entries.drop_last()).push(
            (entries.last().0@, entries.last().1.view()),
        ));
    }
}

/// The view of a list holds the views of its members, in order.
pub proof fn lemma_list_view(value: Bencode)
    requires
        value is List,
    ensures
        value@ is List,
        value@->List_0.len() == value->List_0@.len(),
        forall|k: int|
            0 <= k < value->List_0@.len() ==> (#[trigger] value@->List_0[k])
                == value->List_0@[k]@,
{
    lemma_item_views(value->List_0@);
}

/// The view of a dictionary holds the keys and the views of the values of
/// its entries, in order.
pub proof fn lemma_dict_view(value: Bencode)
    requires
        value is Dict,
    ensures
        value@ is Dict,
        value@->Dict_0.len() == value->Dict_0@.len(),
        forall|k: int|
            0 <= k < value->Dict_0@.len() ==> (#[trigger] value@->Dict_0[k]) == (
                value->Dict_0@[k].0@,
                value->Dict_0@[k].1@,
            ),
{
    lemma_entry_views(value->Dict_0@);
}

/// The decimal digits of `n`, most significant first, without leading
/// zeros.
pub open spec fn digits(n: nat) -> Seq<u8>
    decreases n,
{
    if n < 10 {
        seq![(ZERO + n) as u8]
    } else {
        digits(n / 10).push((ZERO + n % 10) as u8)
    }
}

/// An integer in decimal, with a minus sign where it is negative.
pub open spec fn int_text(i: int) -> Seq<u8> {
    if i < 0 {
        seq![MINUS] + digits((-i) as nat)
    } else {
        digits(i as nat)
    }
}

/// A byte string framed by its length: `<length>:<bytes>`.
pub open spec fn encode_bytes(bytes: Seq<u8>) -> Seq<u8> {
    digits(bytes.len()) + seq![COLON] + bytes
}

/// The encoding of a value. Integers are in minimal decimal between `i`
/// and `e`, byte strings are framed by their length, lists and
/// dictionaries hold their members in order between `l` or `d` and `e`.
pub open spec fn encode(value: BencodeView) -> Seq<u8>
    decreases value,
{
    match value {
        BencodeView::Int(i) => seq![INT_START] + int_text(i as int) + seq![END],
        BencodeView::Bytes(bytes) => encode_bytes(bytes),
        BencodeView::List(items) => seq![LIST_START] + encode_items(items) + seq![END],
        BencodeView::Dict(entries) => seq![DICT_START] + encode_entries(entries) + seq![END],
    }
}

/// The encodings of the members of a list, one after another.
pub open spec fn encode_items(items: Seq<BencodeView>) -> Seq<u8>
    decreases items,
{
    if items.len() == 0 {
        Seq::<u8>::empty()
    } else {
        encode(items[0]) + encode_items(items.drop_first())
    }
}

/// The encodings of the entries of a dictionary, one after another: each
/// key as a byte string, then its value.
pub open spec fn encode_entries(entries: Seq<(Seq<u8>, BencodeView)>) -> Seq<u8>
    decreases entries,
{
    if entries.len() == 0 {
        Seq::<u8>::empty()
    } else {
        encode_bytes(entries[0].0) + encode(entries[0].1) + encode_entries(entries.drop_first())
    }
}

/// Appends the decimal digits of `n`.
fn push_digits(out: &mut Vec<u8>, n: u64)
    ensures
        final(out)@ == old(out)@ + digits(n as nat),
    decreases n,
{
    if n >= 10 {
        push_digits(out, n / 10);
    }
    let digit = (n % 10) as u8;
    out.push(ZERO + digit);
    assert(out@ =~= old(out)@ + digits(n as nat));
}

/// Appends an integer in decimal.
fn push_int(out: &mut Vec<u8>, i: i64)
    ensures
        final(out)@ == old(out)@ + int_text(i as int),
{
    if i < 0 {
        out.push(MINUS);
        let magnitude: u64 = if i == i64::MIN {
            9223372036854775808u64
        } else {
            (-i) as u64
        };
        push_digits(out, magnitude);
        assert(out@ =~= old(out)@ + int_text(i as int));
    } else {
        push_digits(out, i as u64);
    }
}

/// Appends a byte string framed by its length.
fn push_bytes(out: &mut Vec<u8>, bytes: &Vec<u8>)
    ensures
        final(out)@ == old(out)@ + encode_bytes(bytes@),
{
    push_digits(out, bytes.len() as u64);
    out.push(COLON);
    let ghost framed = out@;
    let mut i: usize = 0;
    while i < bytes.len()
        invariant
            i <= bytes.len(),
            out@ == framed + bytes@.take(i as int),
        decreases bytes.len() - i,
    {
        out.push(bytes[i]);
        assert(bytes@.take(i + 1) =~= bytes@.take(i as int).push(bytes@[i as int]));
        i += 1;
    }
    assert(bytes@.take(i as int) =~= bytes@);
    assert(out@ =~= old(out)@ + encode_bytes(bytes@));
}

impl Bencode {
    /// The encoding of the value.
    pub fn encode(&self) -> (bytes: Vec<u8>)
        ensures
            bytes@ == encode(self@),
    {
        let mut out: Vec<u8> = Vec::new();
        self.encode_into(&mut out);
        assert(out@ =~= encode(self@));
        out
    }

    /// Appends the encoding of the value to `out`.
    pub fn encode_into(&self, out: &mut Vec<u8>)
        ensures
            final(out)@ == old(out)@ + encode(self@),
        decreases self,
    {
        match self {
            Bencode::Int(i) => {
                out.push(INT_START);
                push_int(out, *i);
                out.push(END);
                assert(out@ =~= old(out)@ + encode(self@));
            },
            Bencode::Bytes(bytes) => {
                push_bytes(out, bytes);
            },
            Bencode::List(items) => {
                let ghost all = self@->List_0;
                proof {
                    lemma_list_view(*self);
                }
                out.push(LIST_START);
                let mut i: usize = 0;
                assert(all.skip(0) =~= all);
                while i < items.len()
                    invariant
                        i <= items.len(),
                        self == Bencode::List(*items),
                        all == self@->List_0,
                        all.len() == items@.len(),
                        forall|k: int| 0 <= k < all.len() ==> (#[trigger] all[k]) == items@[k]@,
                        out@ + encode_items(all.skip(i as int)) == old(out)@ + seq![LIST_START]
                            + encode_items(all),
                    decreases items.len() - i,
                {
                    let ghost before = out@;
                    items[i].encode_into(out);
                    proof {
                        let rest = all.skip(i as int);
                        assert(rest[0] == items@[i as int]@);
                        assert(rest.drop_first() =~= all.skip(i + 1));
                        assert(out@ + encode_items(all.skip(i + 1)) =~= before + encode_items(
                            rest,
                        ));
                    }
                    i += 1;
                }
                out.push(END);
                assert(out@ =~= old(out)@ + encode(self@));
            },
            Bencode::Dict(entries) => {
                let ghost all = self@->Dict_0;
                proof {
                    lemma_dict_view(*self);
                }
                out.push(DICT_START);
                let mut i: usize = 0;
                assert(all.skip(0) =~= all);
                while i < entries.len()
                    invariant
                        i <= entries.len(),
                        self == Bencode::Dict(*entries),
                        all == self@->Dict_0,
                        all.len() == entries@.len(),
                        forall|k: int|
                            0 <= k < all.len() ==> (#[trigger] all[k]) == (
                                entries@[k].0@,
                                entries@[k].1@,
                            ),
                        out@ + encode_entries(all.skip(i as int)) == old(out)@ + seq![DICT_START]
                            + encode_entries(all),
                    decreases entries.len() - i,
                {
                    let ghost before = out@;
                    push_bytes(out, &entries[i].0);
                    entries[i].1.encode_into(out);
                    proof {
                        let rest = all.skip(i as int);
                        assert(rest[0] == (entries@[i as int].0@, entries@[i as int].1@));
                        assert(rest.drop_first() =~= all.skip(i + 1));
                        assert(out@ + encode_entries(all.skip(i + 1)) =~= before
                            + encode_entries(rest));
                    }
                    i += 1;
                }
                out.push(END);
                assert(out@ =~= old(out)@ + encode(self@));
            },
        }
    }
}

} // verus!
