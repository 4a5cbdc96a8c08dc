//! The order of the keys in a descriptor has no part in what is decoded.
//!
//! Two dictionaries hold the same fields when every key finds the same
//! value in both. Dictionaries with distinct keys whose entries are a
//! permutation of one another do, and descriptors that differ in nothing
//! but the order of such entries decode to the same metadata, with the
//! same info hash.
use crate::bencode::{encode, BencodeView};
use crate::decode::{
    decode_bytes, entries_of, file_error, file_value, files_error, files_field_error,
    files_field_value, files_value, info_error, info_value, lookup, meta_error, meta_of,
    meta_value, mode_is_clear, pieces_error, pieces_value,
};
use crate::metadata::{info_hash, key};
use crate::laws::lemma_info_keys_differ;
use crate::roundtrip::lemma_round_trip;
use vstd::prelude::*;
use vstd::string::is_ascii_spec_bytes;

verus! {

/// Whether no two entries have the same key.
pub open spec fn distinct_keys(entries: Seq<(Seq<u8>, BencodeView)>) -> bool {
    forall|i: int, j: int|
        0 <= i < j < entries.len() ==> (#[trigger] entries[i]).0 != (#[trigger] entries[j]).0
}

/// Whether every key finds the same value in both lists of entries.
pub open spec fn same_fields(
    a: Seq<(Seq<u8>, BencodeView)>,
    b: Seq<(Seq<u8>, BencodeView)>,
) -> bool {
    forall|name: Seq<u8>| #[trigger] lookup(a, name) == lookup(b, name)
}

/// Whether two values are lists of files that hold, file by file, the
/// same fields; or are the same value.
pub open spec fn same_files(a: Option<BencodeView>, b: Option<BencodeView>) -> bool {
    a == b || (a matches Some(BencodeView::List(xs)) && b matches Some(BencodeView::List(ys))
        && xs.len() == ys.len() && forall|i: int|
        0 <= i < xs.len() ==> same_fields(entries_of(#[trigger] xs[i]), entries_of(ys[i])))
}

/// Whether two `info` dictionaries hold the same fields, the files
/// taken file by file.
pub open spec fn same_info(
    a: Seq<(Seq<u8>, BencodeView)>,
    b: Seq<(Seq<u8>, BencodeView)>,
) -> bool {
    &&& forall|name: Seq<u8>| name != key("files") ==> #[trigger] lookup(a, name) == lookup(b, name)
    &&& same_files(lookup(a, key("files")), lookup(b, key("files")))
}

/// Whether two values are `info` dictionaries that hold the same
/// fields; or are the same value.
pub open spec fn same_section(a: Option<BencodeView>, b: Option<BencodeView>) -> bool {
    a == b || (a matches Some(BencodeView::Dict(xs)) && b matches Some(BencodeView::Dict(ys))
        && same_info(xs, ys))
}

/// Whether two descriptors hold the same fields, whatever the order of
/// the entries in the descriptor, in its `info` section and in each of
/// its files.
pub open spec fn same_descriptor(a: BencodeView, b: BencodeView) -> bool {
    &&& forall|name: Seq<u8>|
        name != key("info") ==> #[trigger] lookup(entries_of(a), name) == lookup(
            entries_of(b),
            name,
        )
    &&& same_section(lookup(entries_of(a), key("info")), lookup(entries_of(b), key("info")))
}

/// What a key finds is an entry of the list, and a key that finds
/// nothing is the key of no entry.
pub proof fn lemma_lookup_found(entries: Seq<(Seq<u8>, BencodeView)>, name: Seq<u8>)
    ensures
        lookup(entries, name) matches Some(value) ==> entries.contains((name, value)),
        lookup(entries, name) is None ==> forall|i: int|
            0 <= i < entries.len() ==> (#[trigger] entries[i]).0 != name,
    decreases entries.len(),
{
    if entries.len() > 0 {
        if entries[0].0 == name {
            assert(entries[0] == (name, entries[0].1));
        } else {
            let rest = entries.drop_first();
            lemma_lookup_found(rest, name);
            if lookup(rest, name) is Some {
                let value = lookup(rest, name)->0;
                let i = choose|i: int| 0 <= i < rest.len() && rest[i] == (name, value);
                assert(entries[i + 1] == (name, value));
            } else {
                assert forall|i: int| 0 <= i < entries.len() implies (#[trigger] entries[i]).0
                    != name by {
                    if i > 0 {
                        assert(rest[i - 1] == entries[i]);
                    }
                }
            }
        }
    }
}

/// Among distinct keys, a key finds the value of its one entry.
pub proof fn lemma_lookup_unique(
    entries: Seq<(Seq<u8>, BencodeView)>,
    name: Seq<u8>,
    value: BencodeView,
)
    requires
        distinct_keys(entries),
        entries.contains((name, value)),
    ensures
        lookup(entries, name) == Some(value),
    decreases entries.len(),
{
    let i = choose|i: int| 0 <= i < entries.len() && entries[i] == (name, value);
    if entries[0].0 == name {
        if i > 0 {
            assert(entries[0].0 != entries[i].0);
        }
    } else {
        let rest = entries.drop_first();
        assert(rest[i - 1] == (name, value));
        assert forall|p: int, q: int| 0 <= p < q < rest.len() implies (#[trigger] rest[p]).0 != (
        #[trigger] rest[q]).0 by {
            assert(rest[p] == entries[p + 1]);
            assert(rest[q] == entries[q + 1]);
        }
        lemma_lookup_unique(rest, name, value);
    }
}

/// Entries with distinct keys, put in another order, hold the same
/// fields.
pub proof fn lemma_permuted_same_fields(
    a: Seq<(Seq<u8>, BencodeView)>,
    b: Seq<(Seq<u8>, BencodeView)>,
)
    requires
        distinct_keys(a),
        a.to_multiset() == b.to_multiset(),
    ensures
        same_fields(a, b),
{
    a.to_multiset_ensures();
    b.to_multiset_ensures();
    assert forall|name: Seq<u8>| #[trigger] lookup(a, name) == lookup(b, name) by {
        lemma_lookup_found(b, name);
        lemma_lookup_found(a, name);
        match lookup(b, name) {
            Some(value) => {
                assert(b.to_multiset().count((name, value)) > 0);
                assert(a.contains((name, value)));
                lemma_lookup_unique(a, name, value);
            },
            None => {
                if lookup(a, name) is Some {
                    let value = lookup(a, name)->0;
                    assert(a.to_multiset().count((name, value)) > 0);
                    assert(b.contains((name, value)));
                    let i = choose|i: int| 0 <= i < b.len() && b[i] == (name, value);
                    assert(b[i].0 == name);
                }
            },
        }
    }
}

/// The key `info` differs from the other keys of a descriptor.
pub proof fn lemma_info_key_differs()
    ensures
        key("info") != key("announce"),
        key("info") != key("announce-list"),
        key("info") != key("creation date"),
        key("info") != key("comment"),
        key("info") != key("encoding"),
        key("info") != key("created by"),
{
    reveal_strlit("info");
    reveal_strlit("announce");
    reveal_strlit("announce-list");
    reveal_strlit("creation date");
    reveal_strlit("comment");
    reveal_strlit("encoding");
    reveal_strlit("created by");
    is_ascii_spec_bytes("info");
    is_ascii_spec_bytes("announce");
    is_ascii_spec_bytes("announce-list");
    is_ascii_spec_bytes("creation date");
    is_ascii_spec_bytes("comment");
    is_ascii_spec_bytes("encoding");
    is_ascii_spec_bytes("created by");
    assert(key("info")[0] == 105u8);
    assert(key("announce")[0] == 97u8);
    assert(key("announce-list")[0] == 97u8);
    assert(key("creation date")[0] == 99u8);
    assert(key("comment")[0] == 99u8);
    assert(key("encoding")[0] == 101u8);
    assert(key("created by")[0] == 99u8);
}

/// Dictionaries with the same fields stand for the same file, or have
/// the same error.
pub proof fn lemma_same_file(a: Seq<(Seq<u8>, BencodeView)>, b: Seq<(Seq<u8>, BencodeView)>)
    requires
        same_fields(a, b),
    ensures
        file_error(a) == file_error(b),
        file_value(a) == file_value(b),
{
    assert(lookup(a, key("length")) == lookup(b, key("length")));
    assert(lookup(a, key("path")) == lookup(b, key("path")));
    assert(lookup(a, key("md5sum")) == lookup(b, key("md5sum")));
}

/// Lists that hold, file by file, the same fields stand for the same
/// files, or have the same error.
pub proof fn lemma_same_files(xs: Seq<BencodeView>, ys: Seq<BencodeView>)
    requires
        xs.len() == ys.len(),
        forall|i: int|
            0 <= i < xs.len() ==> same_fields(entries_of(#[trigger] xs[i]), entries_of(ys[i])),
    ensures
        files_error(xs) == files_error(ys),
        files_value(xs) == files_value(ys),
    decreases xs.len(),
{
    assert forall|i: int| 0 <= i < xs.len() implies file_value(entries_of(xs[i])) == file_value(
        entries_of(ys[i]),
    ) by {
        assert(same_fields(entries_of(xs[i]), entries_of(ys[i])));
        lemma_same_file(entries_of(xs[i]), entries_of(ys[i]));
    }
    assert(files_value(xs) =~= files_value(ys));
    if xs.len() > 0 {
        assert(same_fields(entries_of(xs[0]), entries_of(ys[0])));
        lemma_same_file(entries_of(xs[0]), entries_of(ys[0]));
        assert forall|i: int| 0 <= i < xs.drop_first().len() implies same_fields(
            entries_of(#[trigger] xs.drop_first()[i]),
            entries_of(ys.drop_first()[i]),
        ) by {
            assert(xs.drop_first()[i] == xs[i + 1]);
            assert(ys.drop_first()[i] == ys[i + 1]);
            assert(same_fields(entries_of(xs[i + 1]), entries_of(ys[i + 1])));
        }
        lemma_same_files(xs.drop_first(), ys.drop_first());
    }
}

/// Dictionaries with the same fields stand for the same `info`
/// section, or have the same error.
pub proof fn lemma_same_info(a: Seq<(Seq<u8>, BencodeView)>, b: Seq<(Seq<u8>, BencodeView)>)
    requires
        same_info(a, b),
    ensures
        info_error(a) == info_error(b),
        info_value(a) == info_value(b),
{
    lemma_info_keys_differ();
    assert(lookup(a, key("length")) == lookup(b, key("length")));
    assert(lookup(a, key("name")) == lookup(b, key("name")));
    assert(lookup(a, key("piece length")) == lookup(b, key("piece length")));
    assert(lookup(a, key("pieces")) == lookup(b, key("pieces")));
    let x = lookup(a, key("files"));
    let y = lookup(b, key("files"));
    if x != y {
        lemma_same_files(x->0->List_0, y->0->List_0);
    }
    assert(files_field_error(a) == files_field_error(b));
    assert(files_field_value(a) == files_field_value(b));
    assert(mode_is_clear(a) == mode_is_clear(b));
    assert(pieces_error(a) == pieces_error(b));
    assert(pieces_value(a) == pieces_value(b));
}

/// Descriptors with the same fields decode alike: to the same metadata,
/// or to the same error.
pub proof fn lemma_same_descriptor(a: BencodeView, b: BencodeView)
    requires
        same_descriptor(a, b),
    ensures
        meta_of(a) == meta_of(b),
{
    lemma_info_key_differs();
    let x = entries_of(a);
    let y = entries_of(b);
    assert(lookup(x, key("announce")) == lookup(y, key("announce")));
    assert(lookup(x, key("announce-list")) == lookup(y, key("announce-list")));
    assert(lookup(x, key("creation date")) == lookup(y, key("creation date")));
    assert(lookup(x, key("comment")) == lookup(y, key("comment")));
    assert(lookup(x, key("encoding")) == lookup(y, key("encoding")));
    assert(lookup(x, key("created by")) == lookup(y, key("created by")));
    let p = lookup(x, key("info"));
    let q = lookup(y, key("info"));
    if p != q {
        lemma_same_info(p->0->Dict_0, q->0->Dict_0);
    }
    assert(meta_error(a) == meta_error(b));
    if meta_error(a) is None {
        assert(meta_value(a) == meta_value(b));
    }
}

/// The order of the keys in the bytes of a descriptor has no part in
/// what is decoded, nor in the info hash: the encodings of two
/// descriptors with the same fields decode to the same metadata, or to
/// the same error.
pub proof fn lemma_key_order_is_not_hashed(a: BencodeView, b: BencodeView)
    requires
        same_descriptor(a, b),
    ensures
        decode_bytes(encode(a)) == decode_bytes(encode(b)),
        decode_bytes(encode(a)) matches Ok(first) ==> (decode_bytes(encode(b)) matches Ok(second)
            && info_hash(first.info) == info_hash(second.info)),
{
    lemma_round_trip(a, Seq::empty());
    lemma_round_trip(b, Seq::empty());
    lemma_same_descriptor(a, b);
}

/// A descriptor whose entries are put in another order holds the same
/// fields, where no key occurs twice in it.
pub proof fn lemma_permuted_descriptor(
    a: Seq<(Seq<u8>, BencodeView)>,
    b: Seq<(Seq<u8>, BencodeView)>,
)
    requires
        distinct_keys(a),
        a.to_multiset() == b.to_multiset(),
    ensures
        same_descriptor(BencodeView::Dict(a), BencodeView::Dict(b)),
{
    lemma_permuted_same_fields(a, b);
    assert(lookup(a, key("info")) == lookup(b, key("info")));
}

/// An `info` section whose entries are put in another order holds the
/// same fields, where no key occurs twice in it.
pub proof fn lemma_permuted_info(a: Seq<(Seq<u8>, BencodeView)>, b: Seq<(Seq<u8>, BencodeView)>)
    requires
        distinct_keys(a),
        a.to_multiset() == b.to_multiset(),
    ensures
        same_info(a, b),
        same_section(Some(BencodeView::Dict(a)), Some(BencodeView::Dict(b))),
{
    lemma_permuted_same_fields(a, b);
    assert(lookup(a, key("files")) == lookup(b, key("files")));
}

} // verus!
