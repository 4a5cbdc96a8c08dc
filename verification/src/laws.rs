//! What holds of decoding, canonical encoding and hashing together.
use crate::bencode::{encode, BencodeView, COLON};
use crate::decode::{
    as_text, as_texts, decode_bytes, entries_of, file_error, file_value, files_error,
    files_field_error, files_field_value, files_value, info_error, info_value, int_error,
    int_value, lookup, meta_of, mode_is_clear, pieces_error, pieces_value, text_error,
    text_value, DecodeError, Field,
};
use crate::digest::sha1_digest;
use crate::metadata::{
    file_tree, files_tree, info_bytes, info_hash, info_tree, key, optional_entry,
    optional_files, optional_int, optional_text, path_tree, text_tree, FileMetaView, FileView,
    InfoView,
};
use crate::parse::{decimal, is_digit, parse, parse_value, SyntaxReason};
use crate::roundtrip::{lemma_digits_end_run, lemma_encode_injective, lemma_round_trip};
use vstd::prelude::*;
use vstd::string::is_ascii_spec_bytes;
use vstd::utf8::{encode_utf8_decode_utf8, encode_utf8_valid_utf8};

verus! {

/// The keys of a file's dictionary differ from one another.
pub proof fn lemma_file_keys_differ()
    ensures
        key("length") != key("md5sum"),
        key("length") != key("path"),
        key("md5sum") != key("path"),
{
    reveal_strlit("length");
    reveal_strlit("md5sum");
    reveal_strlit("path");
    is_ascii_spec_bytes("length");
    is_ascii_spec_bytes("md5sum");
    is_ascii_spec_bytes("path");
    assert(key("length")[0] == 108u8);
    assert(key("md5sum")[0] == 109u8);
    assert(key("path")[0] == 112u8);
}

/// The keys of an `info` section differ from one another.
pub proof fn lemma_info_keys_differ()
    ensures
        key("files") != key("length"),
        key("files") != key("name"),
        key("files") != key("piece length"),
        key("files") != key("pieces"),
        key("length") != key("name"),
        key("length") != key("piece length"),
        key("length") != key("pieces"),
        key("name") != key("piece length"),
        key("name") != key("pieces"),
        key("piece length") != key("pieces"),
{
    reveal_strlit("files");
    reveal_strlit("length");
    reveal_strlit("name");
    reveal_strlit("piece length");
    reveal_strlit("pieces");
    is_ascii_spec_bytes("files");
    is_ascii_spec_bytes("length");
    is_ascii_spec_bytes("name");
    is_ascii_spec_bytes("piece length");
    is_ascii_spec_bytes("pieces");
    assert(key("files")[0] == 102u8);
    assert(key("length")[0] == 108u8);
    assert(key("name")[0] == 110u8);
    assert(key("piece length")[0] == 112u8);
    assert(key("pieces")[0] == 112u8);
    assert(key("piece length").len() == 12);
    assert(key("pieces").len() == 6);
}

/// The first entry under a key in two lists of entries, one after the
/// other, is the first in the first list, or else the first in the second.
pub proof fn lemma_lookup_concat(
    a: Seq<(Seq<u8>, BencodeView)>,
    b: Seq<(Seq<u8>, BencodeView)>,
    name: Seq<u8>,
)
    ensures
        lookup(a + b, name) == if lookup(a, name) is Some {
            lookup(a, name)
        } else {
            lookup(b, name)
        },
    decreases a.len(),
{
    if a.len() == 0 {
        assert(a + b =~= b);
    } else {
        assert((a + b)[0] == a[0]);
        assert((a + b).drop_first() =~= a.drop_first() + b);
        lemma_lookup_concat(a.drop_first(), b, name);
    }
}

/// In a single entry, only its own key finds its value.
pub proof fn lemma_lookup_one(entry: (Seq<u8>, BencodeView), name: Seq<u8>)
    ensures
        lookup(seq![entry], name) == if entry.0 == name {
            Some(entry.1)
        } else {
            None
        },
{
    assert(seq![entry].drop_first() =~= Seq::<(Seq<u8>, BencodeView)>::empty());
    assert(lookup(seq![entry].drop_first(), name) is None);
}

/// In the entry of an optional field, only the field's key finds the
/// value, and only where the field is present.
pub proof fn lemma_lookup_optional(field: &str, value: Option<BencodeView>, name: Seq<u8>)
    ensures
        lookup(optional_entry(field, value), name) == if key(field) == name {
            value
        } else {
            None
        },
{
    if value is Some {
        lemma_lookup_one((key(field), value->0), name);
    }
}

/// A text written as a byte string reads back as that text.
pub proof fn lemma_text_round_trip(text: Seq<char>)
    ensures
        as_text(text_tree(text)) == Some(text),
{
    encode_utf8_valid_utf8(text);
    encode_utf8_decode_utf8(text);
}

/// A path written as a list reads back as that path.
pub proof fn lemma_path_round_trip(path: Seq<Seq<char>>)
    ensures
        as_texts(path_tree(path)) == Some(path),
{
    let items = path_tree(path)->List_0;
    assert forall|i: int| 0 <= i < items.len() implies as_text(#[trigger] items[i]) == Some(
        path[i],
    ) by {
        lemma_text_round_trip(path[i]);
    }
    assert(as_texts(path_tree(path))->0 =~= path);
}

/// A file written as a dictionary reads back as that file.
pub proof fn lemma_file_round_trip(file: FileView)
    ensures
        file_error(entries_of(file_tree(file))) is None,
        file_value(entries_of(file_tree(file))) == file,
{
    lemma_file_keys_differ();
    let length = seq![(key("length"), BencodeView::Int(file.length))];
    let checksum = optional_entry("md5sum", optional_text(file.md5sum));
    let path = seq![(key("path"), path_tree(file.path))];
    let entries = entries_of(file_tree(file));
    assert(entries == length + checksum + path);
    lemma_lookup_concat(length + checksum, path, key("length"));
    lemma_lookup_concat(length, checksum, key("length"));
    lemma_lookup_concat(length + checksum, path, key("md5sum"));
    lemma_lookup_concat(length, checksum, key("md5sum"));
    lemma_lookup_concat(length + checksum, path, key("path"));
    lemma_lookup_concat(length, checksum, key("path"));
    lemma_lookup_one(length[0], key("length"));
    lemma_lookup_one(length[0], key("md5sum"));
    lemma_lookup_one(length[0], key("path"));
    lemma_lookup_one(path[0], key("md5sum"));
    lemma_lookup_one(path[0], key("path"));
    assert(length =~= seq![length[0]]);
    assert(path =~= seq![path[0]]);
    lemma_lookup_optional("md5sum", optional_text(file.md5sum), key("md5sum"));
    lemma_lookup_optional("md5sum", optional_text(file.md5sum), key("path"));
    lemma_path_round_trip(file.path);
    if file.md5sum is Some {
        lemma_text_round_trip(file.md5sum->0);
    }
}

/// A list of files without error has no first error.
pub proof fn lemma_files_without_error(items: Seq<BencodeView>)
    requires
        forall|i: int| 0 <= i < items.len() ==> file_error(entries_of(#[trigger] items[i])) is None,
    ensures
        files_error(items) is None,
    decreases items.len(),
{
    if items.len() > 0 {
        assert(file_error(entries_of(items[0])) is None);
        assert forall|i: int| 0 <= i < items.drop_first().len() implies file_error(
            entries_of(#[trigger] items.drop_first()[i]),
        ) is None by {
            assert(items.drop_first()[i] == items[i + 1]);
        }
        lemma_files_without_error(items.drop_first());
    }
}

/// Files written as a list read back as those files.
pub proof fn lemma_files_round_trip(files: Seq<FileView>)
    ensures
        files_error(files_tree(files)->List_0) is None,
        files_value(files_tree(files)->List_0) == files,
{
    let items = files_tree(files)->List_0;
    assert forall|i: int| 0 <= i < items.len() implies file_error(entries_of(#[trigger] items[i]))
        is None && file_value(entries_of(items[i])) == files[i] by {
        lemma_file_round_trip(files[i]);
    }
    lemma_files_without_error(items);
    assert(files_value(items) =~= files);
}

/// What stands under each key of a written `info` section: under the
/// key of a field its value, where the field is present, and nothing
/// under any other key.
pub proof fn lemma_info_lookup(info: InfoView, name: Seq<u8>)
    ensures
        lookup(entries_of(info_tree(info)), name) == if name == key("files") {
            optional_files(info.files)
        } else if name == key("length") {
            optional_int(info.length)
        } else if name == key("name") {
            optional_text(info.name)
        } else if name == key("piece length") {
            optional_int(info.piece_length)
        } else if name == key("pieces") {
            Some(BencodeView::Bytes(info.pieces))
        } else {
            None
        },
{
    lemma_info_keys_differ();
    let files = optional_entry("files", optional_files(info.files));
    let length = optional_entry("length", optional_int(info.length));
    let title = optional_entry("name", optional_text(info.name));
    let piece_length = optional_entry("piece length", optional_int(info.piece_length));
    let pieces = seq![(key("pieces"), BencodeView::Bytes(info.pieces))];
    assert(entries_of(info_tree(info)) == files + length + title + piece_length + pieces);
    lemma_lookup_concat(files + length + title + piece_length, pieces, name);
    lemma_lookup_concat(files + length + title, piece_length, name);
    lemma_lookup_concat(files + length, title, name);
    lemma_lookup_concat(files, length, name);
    lemma_lookup_optional("files", optional_files(info.files), name);
    lemma_lookup_optional("length", optional_int(info.length), name);
    lemma_lookup_optional("name", optional_text(info.name), name);
    lemma_lookup_optional("piece length", optional_int(info.piece_length), name);
    lemma_lookup_one(pieces[0], name);
    assert(pieces =~= seq![pieces[0]]);
}

/// An `info` section written as a dictionary reads back as that section.
/// Where the section is in one mode and its piece digests are twenty
/// bytes each, it reads back without error.
pub proof fn lemma_info_round_trip(info: InfoView)
    ensures
        info_value(entries_of(info_tree(info))) == info,
        info.wf() ==> info_error(entries_of(info_tree(info))) is None,
{
    lemma_info_keys_differ();
    let entries = entries_of(info_tree(info));
    lemma_info_lookup(info, key("files"));
    lemma_info_lookup(info, key("length"));
    lemma_info_lookup(info, key("name"));
    lemma_info_lookup(info, key("piece length"));
    lemma_info_lookup(info, key("pieces"));
    if info.name is Some {
        lemma_text_round_trip(info.name->0);
    }
    if info.files is Some {
        lemma_files_round_trip(info.files->0);
    }
    assert(text_value(entries, "name") == info.name);
    assert(int_value(entries, "length") == info.length);
    assert(int_value(entries, "piece length") == info.piece_length);
    assert(files_field_value(entries) == info.files);
    assert(pieces_value(entries) == info.pieces);
    if info.wf() {
        assert(mode_is_clear(entries));
        assert(pieces_error(entries) is None);
        assert(int_error(entries, "length", Field::Length) is None);
        assert(files_field_error(entries) is None);
        assert(text_error(entries, "name", Field::Name) is None);
        assert(int_error(entries, "piece length", Field::PieceLength) is None);
    }
}

/// The canonical bytes name the section: sections with the same
/// canonical bytes are the same section. So, in particular, the same files
/// in another order give other bytes to hash.
pub proof fn lemma_info_bytes_injective(a: InfoView, b: InfoView)
    requires
        info_bytes(a) == info_bytes(b),
    ensures
        a == b,
{
    lemma_encode_injective(info_tree(a), info_tree(b));
    lemma_info_round_trip(a);
    lemma_info_round_trip(b);
}

/// The order of the files is part of what is hashed: two sections that
/// differ in nothing but their lists of files have different canonical
/// bytes.
pub proof fn lemma_file_order_is_hashed(info: InfoView, files: Seq<FileView>, other: Seq<FileView>)
    requires
        files != other,
    ensures
        info_bytes(InfoView { files: Some(files), ..info }) != info_bytes(
            InfoView { files: Some(other), ..info },
        ),
{
    let a = InfoView { files: Some(files), ..info };
    let b = InfoView { files: Some(other), ..info };
    if info_bytes(a) == info_bytes(b) {
        lemma_info_bytes_injective(a, b);
    }
}

/// The info hash depends on the section alone: sections that are equal
/// have the same canonical bytes and the same hash, however they were
/// built.
pub proof fn lemma_info_hash_deterministic(a: InfoView, b: InfoView)
    requires
        a == b,
    ensures
        info_bytes(a) == info_bytes(b),
        info_hash(a) == info_hash(b),
{
}

/// A canonical `info` section survives decoding: a descriptor whose
/// `info` entry holds the canonical dictionary of a well-formed section
/// decodes to that section or fails on a field outside it, so the hash
/// taken after decoding is the hash of the bytes that stood in the
/// descriptor.
pub proof fn lemma_info_survives_decoding(value: BencodeView, info: InfoView)
    requires
        info.wf(),
        lookup(entries_of(value), key("info")) == Some(info_tree(info)),
    ensures
        meta_of(value) matches Ok(meta) ==> meta.info == info && info_hash(meta.info)
            == sha1_digest(encode(info_tree(info))),
        meta_of(value) matches Err(error) ==> error is MissingField && error != DecodeError::MissingField(
            Field::Info,
        ),
{
    lemma_info_round_trip(info);
}

/// An `info` dictionary with both `length` and `files`, or with
/// neither, is ambiguous: whatever else the descriptor holds, decoding
/// it gives that error.
pub proof fn lemma_ambiguous_mode(bytes: Seq<u8>, value: BencodeView)
    requires
        parse(bytes) == Ok::<BencodeView, (int, SyntaxReason)>(value),
        lookup(entries_of(value), key("info")) matches Some(BencodeView::Dict(info))
            && (lookup(info, key("length")) is Some) == (lookup(info, key("files")) is Some),
    ensures
        meta_of(value) == Err::<FileMetaView, DecodeError>(DecodeError::AmbiguousMode),
        decode_bytes(bytes) == Err::<FileMetaView, DecodeError>(DecodeError::AmbiguousMode),
        decode_bytes(encode(value)) == Err::<FileMetaView, DecodeError>(
            DecodeError::AmbiguousMode,
        ),
{
    lemma_round_trip(value, Seq::empty());
}

/// A byte string whose length prefix reaches past the end of the bytes
/// is a syntax error at the place where the prefix starts; a descriptor
/// that begins with one is no descriptor.
pub proof fn lemma_truncated_string(bytes: Seq<u8>, pos: int, colon: int)
    requires
        0 <= pos < colon < bytes.len(),
        forall|k: int| pos <= k < colon ==> is_digit(#[trigger] bytes[k]),
        bytes[colon] == COLON,
        colon + 1 + decimal(bytes, pos, colon) > bytes.len(),
    ensures
        parse_value(bytes, pos) == Err::<
            (BencodeView, int),
            (int, SyntaxReason),
        >((pos, SyntaxReason::TruncatedString)),
        pos == 0 ==> decode_bytes(bytes) == Err::<FileMetaView, DecodeError>(
            DecodeError::Syntax {
                position: 0,
                reason: SyntaxReason::TruncatedString,
            },
        ),
{
    lemma_digits_end_run(bytes, pos, (colon - pos) as nat);
    assert(is_digit(bytes[pos]));
}

/// Bytes that are no bencode value are no descriptor: decoding them
/// gives the error of the syntax, never metadata.
pub proof fn lemma_syntax_error(bytes: Seq<u8>)
    requires
        parse(bytes) is Err,
    ensures
        decode_bytes(bytes) is Err,
        decode_bytes(bytes)->Err_0 is Syntax,
{
}

/// Whether `a` comes before `b` in the order of raw bytes: where they
/// first differ `a` has the smaller byte, or `a` ends there and `b` goes
/// on.
pub open spec fn key_before(a: Seq<u8>, b: Seq<u8>) -> bool {
    exists|i: int|
        0 <= i <= a.len() && i <= b.len() && #[trigger] a.subrange(0, i) == b.subrange(0, i) && i
            < b.len() && (i < a.len() ==> a[i] < b[i])
}

/// Whether the keys of the entries ascend in the order of raw bytes.
pub open spec fn ascending_keys(entries: Seq<(Seq<u8>, BencodeView)>) -> bool {
    forall|i: int, j: int|
        0 <= i < j < entries.len() ==> key_before(
            (#[trigger] entries[i]).0,
            (#[trigger] entries[j]).0,
        )
}

/// A key comes before another that has a greater first byte.
proof fn lemma_before_by_first_byte(a: Seq<u8>, b: Seq<u8>)
    requires
        a.len() > 0,
        b.len() > 0,
        a[0] < b[0],
    ensures
        key_before(a, b),
{
    assert(a.subrange(0, 0) =~= b.subrange(0, 0));
}

/// The keys of a file's dictionary and of an `info` section, each in
/// the order in which they are written, ascend.
pub proof fn lemma_keys_ascend()
    ensures
        key_before(key("length"), key("md5sum")),
        key_before(key("length"), key("path")),
        key_before(key("md5sum"), key("path")),
        key_before(key("files"), key("length")),
        key_before(key("files"), key("name")),
        key_before(key("files"), key("piece length")),
        key_before(key("files"), key("pieces")),
        key_before(key("length"), key("name")),
        key_before(key("length"), key("piece length")),
        key_before(key("length"), key("pieces")),
        key_before(key("name"), key("piece length")),
        key_before(key("name"), key("pieces")),
        key_before(key("piece length"), key("pieces")),
{
    reveal_strlit("files");
    reveal_strlit("length");
    reveal_strlit("md5sum");
    reveal_strlit("name");
    reveal_strlit("path");
    reveal_strlit("piece length");
    reveal_strlit("pieces");
    is_ascii_spec_bytes("files");
    is_ascii_spec_bytes("length");
    is_ascii_spec_bytes("md5sum");
    is_ascii_spec_bytes("name");
    is_ascii_spec_bytes("path");
    is_ascii_spec_bytes("piece length");
    is_ascii_spec_bytes("pieces");
    assert(key("files")[0] == 102u8);
    assert(key("length")[0] == 108u8);
    assert(key("md5sum")[0] == 109u8);
    assert(key("name")[0] == 110u8);
    assert(key("path")[0] == 112u8);
    assert(key("piece length")[0] == 112u8);
    assert(key("pieces")[0] == 112u8);
    lemma_before_by_first_byte(key("length"), key("md5sum"));
    lemma_before_by_first_byte(key("length"), key("path"));
    lemma_before_by_first_byte(key("md5sum"), key("path"));
    lemma_before_by_first_byte(key("files"), key("length"));
    lemma_before_by_first_byte(key("files"), key("name"));
    lemma_before_by_first_byte(key("files"), key("piece length"));
    lemma_before_by_first_byte(key("files"), key("pieces"));
    lemma_before_by_first_byte(key("length"), key("name"));
    lemma_before_by_first_byte(key("length"), key("piece length"));
    lemma_before_by_first_byte(key("length"), key("pieces"));
    lemma_before_by_first_byte(key("name"), key("piece length"));
    lemma_before_by_first_byte(key("name"), key("pieces"));
    let a = key("piece length");
    let b = key("pieces");
    assert(a[5] == 32u8);
    assert(b[5] == 115u8);
    assert(a.subrange(0, 5) =~= b.subrange(0, 5));
}

/// The canonical dictionaries are canonical: the keys of a written file
/// and of a written `info` section ascend in the order of raw bytes.
pub proof fn lemma_canonical_key_order(info: InfoView, file: FileView)
    ensures
        ascending_keys(entries_of(info_tree(info))),
        ascending_keys(entries_of(file_tree(file))),
{
    lemma_keys_ascend();
    let entries = entries_of(info_tree(info));
    let files = optional_entry("files", optional_files(info.files));
    let length = optional_entry("length", optional_int(info.length));
    let title = optional_entry("name", optional_text(info.name));
    let piece_length = optional_entry("piece length", optional_int(info.piece_length));
    let pieces = seq![(key("pieces"), BencodeView::Bytes(info.pieces))];
    assert(entries == files + length + title + piece_length + pieces);
    assert forall|i: int, j: int| 0 <= i < j < entries.len() implies key_before(
        (#[trigger] entries[i]).0,
        (#[trigger] entries[j]).0,
    ) by {
        let rank = |k: Seq<u8>|
            if k == key("files") {
                0int
            } else if k == key("length") {
                1int
            } else if k == key("name") {
                2int
            } else if k == key("piece length") {
                3int
            } else {
                4int
            };
        lemma_info_keys_differ();
        assert(rank(entries[i].0) < rank(entries[j].0));
    }
    let parts = entries_of(file_tree(file));
    let size = seq![(key("length"), BencodeView::Int(file.length))];
    let checksum = optional_entry("md5sum", optional_text(file.md5sum));
    let path = seq![(key("path"), path_tree(file.path))];
    assert(parts == size + checksum + path);
    assert forall|i: int, j: int| 0 <= i < j < parts.len() implies key_before(
        (#[trigger] parts[i]).0,
        (#[trigger] parts[j]).0,
    ) by {
        lemma_file_keys_differ();
        assert(parts[i].0 == key("length") || parts[i].0 == key("md5sum"));
        assert(parts[j].0 == key("md5sum") || parts[j].0 == key("path"));
    }
}

} // verus!
