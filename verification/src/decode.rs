//! From a bencode value to the metadata of a descriptor.
//!
//! `meta_of` says which metadata a value stands for, or which error it
//! gives; `decode_bytes` says the same of a descriptor's bytes. A field
//! is looked up under its key in the dictionary that holds it; where a
//! key occurs more than once, the first entry counts. Entries under other
//! keys are passed over.
use crate::bencode::{
    item_views, lemma_dict_view, lemma_item_views, lemma_list_view, Bencode, BencodeView,
};
use crate::metadata::{
    files_view, key, text_view, texts_view, tiers_view, File, FileMeta, FileMetaView, FileView,
    Info, InfoView,
};
use crate::parse::{parse, SyntaxReason};
use vstd::prelude::*;
use vstd::utf8::{decode_utf8, encode_utf8, encode_utf8_decode_utf8, valid_utf8};

verus! {

/// The fields of a descriptor.
#[derive(Clone, Copy, Debug, PartialEq, Eq, Structural)]
pub enum Field {
    /// `announce`, the URL of the primary tracker.
    Announce,
    /// `announce-list`, the tiers of backup trackers.
    AnnounceList,
    /// `info`, the section that is hashed.
    Info,
    /// `creation date`.
    CreationDate,
    /// `comment`.
    Comment,
    /// `encoding`.
    Encoding,
    /// `created by`.
    CreatedBy,
    /// `name` in the `info` section.
    Name,
    /// `length` in the `info` section.
    Length,
    /// `files` in the `info` section.
    Files,
    /// `piece length` in the `info` section.
    PieceLength,
    /// `pieces` in the `info` section.
    Pieces,
    /// `length` of a file.
    FileLength,
    /// `path` of a file.
    FilePath,
    /// `md5sum` of a file.
    FileChecksum,
}

impl Field {
    /// The key under which the field stands in its dictionary.
    pub open spec fn spec_name(self) -> Seq<char> {
        match self {
            Field::Announce => "announce"@,
            Field::AnnounceList => "announce-list"@,
            Field::Info => "info"@,
            Field::CreationDate => "creation date"@,
            Field::Comment => "comment"@,
            Field::Encoding => "encoding"@,
            Field::CreatedBy => "created by"@,
            Field::Name => "name"@,
            Field::Length => "length"@,
            Field::Files => "files"@,
            Field::PieceLength => "piece length"@,
            Field::Pieces => "pieces"@,
            Field::FileLength => "length"@,
            Field::FilePath => "path"@,
            Field::FileChecksum => "md5sum"@,
        }
    }

    /// The key under which the field stands in its dictionary.
    pub fn name(self) -> (name: &'static str)
        ensures
            name@ == self.spec_name(),
    {
        match self {
            Field::Announce => "announce",
            Field::AnnounceList => "announce-list",
            Field::Info => "info",
            Field::CreationDate => "creation date",
            Field::Comment => "comment",
            Field::Encoding => "encoding",
            Field::CreatedBy => "created by",
            Field::Name => "name",
            Field::Length => "length",
            Field::Files => "files",
            Field::PieceLength => "piece length",
            Field::Pieces => "pieces",
            Field::FileLength => "length",
            Field::FilePath => "path",
            Field::FileChecksum => "md5sum",
        }
    }
}

/// Why bytes are no descriptor.
#[derive(Clone, Copy, Debug, PartialEq, Eq, Structural)]
pub enum DecodeError {
    /// The bytes are no bencode value.
    Syntax { position: usize, reason: SyntaxReason },
    /// A field that must be there is absent, or a field is there without
    /// the shape that the model gives it: a text that is no byte string
    /// in UTF-8, a number that is no integer, a list that is no list.
    MissingField(Field),
    /// The `info` section has both `length` and `files`, or neither.
    AmbiguousMode,
    /// The length of `pieces` is no multiple of twenty.
    MalformedPieces,
}

/// Why a descriptor could not be had.
#[derive(Debug)]
pub enum FileMetaError {
    /// The descriptor's file could not be read.
    FileError(String),
    /// The bytes are no descriptor.
    DataError(DecodeError),
}

/// The value of the first entry under `name`.
pub open spec fn lookup(entries: Seq<(Seq<u8>, BencodeView)>, name: Seq<u8>) -> Option<BencodeView>
    decreases entries.len(),
{
    if entries.len() == 0 {
        None
    } else if entries[0].0 == name {
        Some(entries[0].1)
    } else {
        lookup(entries.drop_first(), name)
    }
}

/// The entries of a dictionary; a value that is no dictionary has none.
pub open spec fn entries_of(value: BencodeView) -> Seq<(Seq<u8>, BencodeView)> {
    match value {
        BencodeView::Dict(entries) => entries,
        _ => Seq::empty(),
    }
}

/// The integer that a value is, if it is one.
pub open spec fn as_int(value: BencodeView) -> Option<i64> {
    match value {
        BencodeView::Int(i) => Some(i),
        _ => None,
    }
}

/// The text that a value spells, if it is a byte string in UTF-8.
pub open spec fn as_text(value: BencodeView) -> Option<Seq<char>> {
    match value {
        BencodeView::Bytes(bytes) => if valid_utf8(bytes) {
            Some(decode_utf8(bytes))
        } else {
            None
        },
        _ => None,
    }
}

/// The texts that a value lists, if it is a list of texts.
pub open spec fn as_texts(value: BencodeView) -> Option<Seq<Seq<char>>> {
    match value {
        BencodeView::List(items) => if forall|i: int|
            0 <= i < items.len() ==> as_text(#[trigger] items[i]) is Some {
            Some(Seq::new(items.len(), |i: int| as_text(items[i])->0))
        } else {
            None
        },
        _ => None,
    }
}

/// The tiers that a value lists, if it is a list of lists of texts.
pub open spec fn as_tiers(value: BencodeView) -> Option<Seq<Seq<Seq<char>>>> {
    match value {
        BencodeView::List(items) => if forall|i: int|
            0 <= i < items.len() ==> as_texts(#[trigger] items[i]) is Some {
            Some(Seq::new(items.len(), |i: int| as_texts(items[i])->0))
        } else {
            None
        },
        _ => None,
    }
}

/// The error of an optional integer: it is there and is no integer.
pub open spec fn int_error(entries: Seq<(Seq<u8>, BencodeView)>, name: &str, field: Field) -> Option<
    DecodeError,
> {
    match lookup(entries, key(name)) {
        Some(value) => if as_int(value) is Some {
            None
        } else {
            Some(DecodeError::MissingField(field))
        },
        None => None,
    }
}

/// The integer under `name`, if there is one.
pub open spec fn int_value(entries: Seq<(Seq<u8>, BencodeView)>, name: &str) -> Option<i64> {
    match lookup(entries, key(name)) {
        Some(value) => as_int(value),
        None => None,
    }
}

/// The error of an optional text: it is there and is no text.
pub open spec fn text_error(entries: Seq<(Seq<u8>, BencodeView)>, name: &str, field: Field) -> Option<
    DecodeError,
> {
    match lookup(entries, key(name)) {
        Some(value) => if as_text(value) is Some {
            None
        } else {
            Some(DecodeError::MissingField(field))
        },
        None => None,
    }
}

/// The text under `name`, if there is one.
pub open spec fn text_value(entries: Seq<(Seq<u8>, BencodeView)>, name: &str) -> Option<Seq<char>> {
    match lookup(entries, key(name)) {
        Some(value) => as_text(value),
        None => None,
    }
}

/// The error of a field that must be there: `field` is missing.
pub open spec fn required(present: bool, field: Field) -> Option<DecodeError> {
    if present {
        None
    } else {
        Some(DecodeError::MissingField(field))
    }
}

/// The first error of a file's dictionary: its `length` must be an
/// integer, its `path` a list of texts, its `md5sum` a text if it is
/// there.
pub open spec fn file_error(entries: Seq<(Seq<u8>, BencodeView)>) -> Option<DecodeError> {
    if int_value(entries, "length") is None {
        Some(DecodeError::MissingField(Field::FileLength))
    } else if lookup(entries, key("path")) is None || as_texts(lookup(entries, key("path"))->0)
        is None {
        Some(DecodeError::MissingField(Field::FilePath))
    } else {
        text_error(entries, "md5sum", Field::FileChecksum)
    }
}

/// The file that a dictionary without error stands for.
pub open spec fn file_value(entries: Seq<(Seq<u8>, BencodeView)>) -> FileView {
    FileView {
        length: int_value(entries, "length")->0,
        path: as_texts(lookup(entries, key("path"))->0)->0,
        md5sum: text_value(entries, "md5sum"),
    }
}

/// The error of the first file that has one.
pub open spec fn files_error(items: Seq<BencodeView>) -> Option<DecodeError>
    decreases items.len(),
{
    if items.len() == 0 {
        None
    } else if file_error(entries_of(items[0])) is Some {
        file_error(entries_of(items[0]))
    } else {
        files_error(items.drop_first())
    }
}

/// The files that a list without error stands for, in order.
pub open spec fn files_value(items: Seq<BencodeView>) -> Seq<FileView> {
    Seq::new(items.len(), |i: int| file_value(entries_of(items[i])))
}

/// The error of the `files` field: it is there and is no list, or one
/// of its files has an error.
pub open spec fn files_field_error(entries: Seq<(Seq<u8>, BencodeView)>) -> Option<DecodeError> {
    match lookup(entries, key("files")) {
        Some(BencodeView::List(items)) => files_error(items),
        Some(_) => Some(DecodeError::MissingField(Field::Files)),
        None => None,
    }
}

/// The files under `files`, if the field is there.
pub open spec fn files_field_value(entries: Seq<(Seq<u8>, BencodeView)>) -> Option<Seq<FileView>> {
    match lookup(entries, key("files")) {
        Some(BencodeView::List(items)) => Some(files_value(items)),
        _ => None,
    }
}

/// The error of `pieces`: it must be there as a byte string, of a
/// length that is a multiple of twenty.
pub open spec fn pieces_error(entries: Seq<(Seq<u8>, BencodeView)>) -> Option<DecodeError> {
    match lookup(entries, key("pieces")) {
        Some(BencodeView::Bytes(bytes)) => if bytes.len() % 20 == 0 {
            None
        } else {
            Some(DecodeError::MalformedPieces)
        },
        _ => Some(DecodeError::MissingField(Field::Pieces)),
    }
}

/// The piece digests of a section without error.
pub open spec fn pieces_value(entries: Seq<(Seq<u8>, BencodeView)>) -> Seq<u8> {
    match lookup(entries, key("pieces")) {
        Some(BencodeView::Bytes(bytes)) => bytes,
        _ => Seq::empty(),
    }
}

/// Whether a section names its mode: it has `length` or `files`, and
/// not both.
pub open spec fn mode_is_clear(entries: Seq<(Seq<u8>, BencodeView)>) -> bool {
    (lookup(entries, key("length")) is Some) != (lookup(entries, key("files")) is Some)
}

/// The first error of an `info` section. The mode comes first, then
/// `pieces`, `length`, `files`, `name` and `piece length`.
pub open spec fn info_error(entries: Seq<(Seq<u8>, BencodeView)>) -> Option<DecodeError> {
    if !mode_is_clear(entries) {
        Some(DecodeError::AmbiguousMode)
    } else if pieces_error(entries) is Some {
        pieces_error(entries)
    } else if int_error(entries, "length", Field::Length) is Some {
        int_error(entries, "length", Field::Length)
    } else if files_field_error(entries) is Some {
        files_field_error(entries)
    } else if text_error(entries, "name", Field::Name) is Some {
        text_error(entries, "name", Field::Name)
    } else {
        int_error(entries, "piece length", Field::PieceLength)
    }
}

/// The section that a dictionary without error stands for.
pub open spec fn info_value(entries: Seq<(Seq<u8>, BencodeView)>) -> InfoView {
    InfoView {
        name: text_value(entries, "name"),
        length: int_value(entries, "length"),
        files: files_field_value(entries),
        piece_length: int_value(entries, "piece length"),
        pieces: pieces_value(entries),
    }
}

/// The error of the `announce-list` field: it is there and is no list
/// of lists of texts.
pub open spec fn tiers_error(entries: Seq<(Seq<u8>, BencodeView)>) -> Option<DecodeError> {
    match lookup(entries, key("announce-list")) {
        Some(value) => if as_tiers(value) is Some {
            None
        } else {
            Some(DecodeError::MissingField(Field::AnnounceList))
        },
        None => None,
    }
}

/// The tiers under `announce-list`, if the field is there.
pub open spec fn tiers_value(entries: Seq<(Seq<u8>, BencodeView)>) -> Option<Seq<Seq<Seq<char>>>> {
    match lookup(entries, key("announce-list")) {
        Some(value) => as_tiers(value),
        None => None,
    }
}

/// The first error of a descriptor. The `info` section comes first: it
/// must be there as a dictionary, and be without error. Then come
/// `announce`, which must be there, `announce-list`, `creation date`,
/// `comment`, `encoding` and `created by`.
pub open spec fn meta_error(value: BencodeView) -> Option<DecodeError> {
    let entries = entries_of(value);
    let info = lookup(entries, key("info"));
    if !(info matches Some(BencodeView::Dict(_))) {
        Some(DecodeError::MissingField(Field::Info))
    } else if info_error(entries_of(info->0)) is Some {
        info_error(entries_of(info->0))
    } else if text_value(entries, "announce") is None {
        Some(DecodeError::MissingField(Field::Announce))
    } else if tiers_error(entries) is Some {
        tiers_error(entries)
    } else if int_error(entries, "creation date", Field::CreationDate) is Some {
        int_error(entries, "creation date", Field::CreationDate)
    } else if text_error(entries, "comment", Field::Comment) is Some {
        text_error(entries, "comment", Field::Comment)
    } else if text_error(entries, "encoding", Field::Encoding) is Some {
        text_error(entries, "encoding", Field::Encoding)
    } else {
        text_error(entries, "created by", Field::CreatedBy)
    }
}

/// The metadata that a value without error stands for.
pub open spec fn meta_value(value: BencodeView) -> FileMetaView {
    let entries = entries_of(value);
    FileMetaView {
        announce: text_value(entries, "announce")->0,
        announce_list: tiers_value(entries),
        info: info_value(entries_of(lookup(entries, key("info"))->0)),
        creation_data: int_value(entries, "creation date"),
        comment: text_value(entries, "comment"),
        encoding: text_value(entries, "encoding"),
        created_by: text_value(entries, "created by"),
    }
}

/// The metadata that a value stands for, or its first error.
pub open spec fn meta_of(value: BencodeView) -> Result<FileMetaView, DecodeError> {
    match meta_error(value) {
        Some(error) => Err(error),
        None => Ok(meta_value(value)),
    }
}

/// The metadata that a descriptor's bytes stand for, or their first
/// error: bytes that are no bencode value give the error of the syntax,
/// with its position and reason.
pub open spec fn decode_bytes(bytes: Seq<u8>) -> Result<FileMetaView, DecodeError> {
    match parse(bytes) {
        Ok(value) => meta_of(value),
        Err((position, reason)) => Err(
            DecodeError::Syntax { position: position as usize, reason },
        ),
    }
}

/// Whether what was decoded is what `expected` says.
pub open spec fn decoded(
    result: Result<FileMeta, DecodeError>,
    expected: Result<FileMetaView, DecodeError>,
) -> bool {
    match expected {
        Ok(meta) => result matches Ok(m) && m@ == meta,
        Err(error) => result matches Err(e) && e == error,
    }
}

/// `String::from_utf8`: the string whose bytes in UTF-8 are `bytes`, or
/// nothing where `bytes` are not valid UTF-8.
#[verifier::external_body]
fn text_from_utf8(bytes: Vec<u8>) -> (text: Option<String>)
    ensures
        text is Some <==> valid_utf8(bytes@),
        text matches Some(t) ==> encode_utf8(t@) == bytes@,
{
    String::from_utf8(bytes).ok()
}

/// Whether two byte strings are the same.
fn bytes_equal(a: &[u8], b: &[u8]) -> (same: bool)
    ensures
        same == (a@ == b@),
{
    if a.len() != b.len() {
        return false;
    }
    let mut i: usize = 0;
    while i < a.len()
        invariant
            i <= a@.len(),
            a@.len() == b@.len(),
            forall|k: int| 0 <= k < i ==> a@[k] == b@[k],
        decreases a@.len() - i,
    {
        if a[i] != b[i] {
            return false;
        }
        i += 1;
    }
    assert(a@ =~= b@);
    true
}

/// The value of the first entry under `name` in a dictionary; nothing in
/// a value that is no dictionary.
fn find<'a>(value: &'a Bencode, name: &str) -> (found: Option<&'a Bencode>)
    ensures
        match lookup(entries_of(value@), key(name)) {
            Some(v) => found matches Some(b) && b@ == v,
            None => found is None,
        },
{
    match value {
        Bencode::Dict(entries) => {
            let ghost all = entries_of(value@);
            proof {
                lemma_dict_view(*value);
                assert(all.skip(0) =~= all);
            }
            let mut i: usize = 0;
            while i < entries.len()
                invariant
                    i <= entries@.len(),
                    all == entries_of(value@),
                    all.len() == entries@.len(),
                    forall|k: int|
                        0 <= k < all.len() ==> (#[trigger] all[k]) == (
                            entries@[k].0@,
                            entries@[k].1@,
                        ),
                    lookup(all, key(name)) == lookup(all.skip(i as int), key(name)),
                decreases entries@.len() - i,
            {
                proof {
                    assert(all.skip(i as int)[0] == all[i as int]);
                    assert(all.skip(i as int).drop_first() =~= all.skip(i + 1));
                }
                if bytes_equal(entries[i].0.as_slice(), name.as_bytes()) {
                    return Some(&entries[i].1);
                }
                i += 1;
            }
            None
        },
        _ => None,
    }
}

/// The text that a value spells, if it is a byte string in UTF-8.
fn to_text(value: &Bencode) -> (text: Option<String>)
    ensures
        text_view(text) == as_text(value@),
{
    match value {
        Bencode::Bytes(bytes) => {
            let text = text_from_utf8(bytes.clone());
            proof {
                if text is Some {
                    encode_utf8_decode_utf8(text->0@);
                }
            }
            text
        },
        _ => None,
    }
}

/// The texts that a value lists, if it is a list of texts.
fn to_texts(value: &Bencode) -> (texts: Option<Vec<String>>)
    ensures
        match as_texts(value@) {
            Some(t) => texts matches Some(v) && texts_view(v@) == t,
            None => texts is None,
        },
{
    match value {
        Bencode::List(items) => {
            let ghost all = value@->List_0;
            proof {
                lemma_list_view(*value);
            }
            let mut texts: Vec<String> = Vec::new();
            let mut i: usize = 0;
            while i < items.len()
                invariant
                    i <= items@.len(),
                    value@ == BencodeView::List(all),
                    all.len() == items@.len(),
                    forall|k: int| 0 <= k < all.len() ==> (#[trigger] all[k]) == items@[k]@,
                    texts@.len() == i,
                    forall|k: int| 0 <= k < i ==> as_text(#[trigger] all[k]) == Some(texts@[k]@),
                decreases items@.len() - i,
            {
                match to_text(&items[i]) {
                    Some(text) => {
                        texts.push(text);
                    },
                    None => {
                        assert(as_text(all[i as int]) is None);
                        return None;
                    },
                }
                i += 1;
            }
            assert(texts_view(texts@) =~= as_texts(value@)->0);
            Some(texts)
        },
        _ => None,
    }
}

/// The tiers that a value lists, if it is a list of lists of texts.
fn to_tiers(value: &Bencode) -> (tiers: Option<Vec<Vec<String>>>)
    ensures
        match as_tiers(value@) {
            Some(t) => tiers matches Some(v) && tiers_view(v@) == t,
            None => tiers is None,
        },
{
    match value {
        Bencode::List(items) => {
            let ghost all = value@->List_0;
            proof {
                lemma_list_view(*value);
            }
            let mut tiers: Vec<Vec<String>> = Vec::new();
            let mut i: usize = 0;
            while i < items.len()
                invariant
                    i <= items@.len(),
                    value@ == BencodeView::List(all),
                    all.len() == items@.len(),
                    forall|k: int| 0 <= k < all.len() ==> (#[trigger] all[k]) == items@[k]@,
                    tiers@.len() == i,
                    forall|k: int|
                        0 <= k < i ==> as_texts(#[trigger] all[k]) == Some(
                            texts_view(tiers@[k]@),
                        ),
                decreases items@.len() - i,
            {
                match to_texts(&items[i]) {
                    Some(tier) => {
                        tiers.push(tier);
                    },
                    None => {
                        assert(as_texts(all[i as int]) is None);
                        return None;
                    },
                }
                i += 1;
            }
            assert(tiers_view(tiers@) =~= as_tiers(value@)->0);
            Some(tiers)
        },
        _ => None,
    }
}

/// The integer under `name` in a dictionary, if the field is there.
fn optional_int(value: &Bencode, name: &str, field: Field) -> (read: Result<Option<i64>, DecodeError>)
    ensures
        match int_error(entries_of(value@), name, field) {
            Some(error) => read == Err::<Option<i64>, DecodeError>(error),
            None => read == Ok::<Option<i64>, DecodeError>(int_value(entries_of(value@), name)),
        },
{
    match find(value, name) {
        Some(found) => match found {
            Bencode::Int(i) => Ok(Some(*i)),
            _ => Err(DecodeError::MissingField(field)),
        },
        None => Ok(None),
    }
}

/// The text under `name` in a dictionary, if the field is there.
fn optional_text(value: &Bencode, name: &str, field: Field) -> (read: Result<
    Option<String>,
    DecodeError,
>)
    ensures
        match text_error(entries_of(value@), name, field) {
            Some(error) => read == Err::<Option<String>, DecodeError>(error),
            None => read matches Ok(text) && text_view(text) == text_value(
                entries_of(value@),
                name,
            ),
        },
{
    match find(value, name) {
        Some(found) => match to_text(found) {
            Some(text) => Ok(Some(text)),
            None => Err(DecodeError::MissingField(field)),
        },
        None => Ok(None),
    }
}

impl File {
    /// The file that a dictionary stands for, or its first error.
    pub fn from_bencode(value: &Bencode) -> (read: Result<File, DecodeError>)
        ensures
            match file_error(entries_of(value@)) {
                Some(error) => read == Err::<File, DecodeError>(error),
                None => read matches Ok(file) && file@ == file_value(entries_of(value@)),
            },
    {
        let length = match optional_int(value, "length", Field::FileLength) {
            Ok(Some(length)) => length,
            _ => {
                return Err(DecodeError::MissingField(Field::FileLength));
            },
        };
        let path = match find(value, "path") {
            Some(found) => match to_texts(found) {
                Some(path) => path,
                None => {
                    return Err(DecodeError::MissingField(Field::FilePath));
                },
            },
            None => {
                return Err(DecodeError::MissingField(Field::FilePath));
            },
        };
        let md5sum = match optional_text(value, "md5sum", Field::FileChecksum) {
            Ok(md5sum) => md5sum,
            Err(error) => {
                return Err(error);
            },
        };
        Ok(File { length, path, md5sum })
    }
}

/// The files that the members of a list stand for, or the error of the
/// first that has one.
fn read_files(items: &Vec<Bencode>) -> (read: Result<Vec<File>, DecodeError>)
    ensures
        match files_error(item_views(items@)) {
            Some(error) => read == Err::<Vec<File>, DecodeError>(error),
            None => read matches Ok(files) && files_view(files@) == files_value(
                item_views(items@),
            ),
        },
{
    let ghost all = item_views(items@);
    proof {
        lemma_item_views(items@);
        assert(all.skip(0) =~= all);
    }
    let mut files: Vec<File> = Vec::new();
    let mut i: usize = 0;
    while i < items.len()
        invariant
            i <= items@.len(),
            all == item_views(items@),
            all.len() == items@.len(),
            forall|k: int| 0 <= k < all.len() ==> (#[trigger] all[k]) == items@[k]@,
            files_error(all) == files_error(all.skip(i as int)),
            files@.len() == i,
            forall|k: int|
                0 <= k < i ==> (#[trigger] files@[k])@ == file_value(entries_of(all[k])),
        decreases items@.len() - i,
    {
        proof {
            assert(all.skip(i as int)[0] == all[i as int]);
            assert(all.skip(i as int).drop_first() =~= all.skip(i + 1));
        }
        match File::from_bencode(&items[i]) {
            Ok(file) => {
                files.push(file);
            },
            Err(error) => {
                return Err(error);
            },
        }
        i += 1;
    }
    assert(files_view(files@) =~= files_value(all));
    Ok(files)
}

impl Info {
    /// The section that a dictionary stands for, or its first error.
    /// A section that is returned is in one mode, and its piece digests
    /// are twenty bytes each.
    pub fn from_bencode(value: &Bencode) -> (read: Result<Info, DecodeError>)
        ensures
            match info_error(entries_of(value@)) {
                Some(error) => read == Err::<Info, DecodeError>(error),
                None => read matches Ok(info) && info@ == info_value(entries_of(value@))
                    && info@.wf(),
            },
    {
        let has_length = find(value, "length").is_some();
        let has_files = find(value, "files").is_some();
        if has_length == has_files {
            return Err(DecodeError::AmbiguousMode);
        }
        let pieces = match find(value, "pieces") {
            Some(found) => match found {
                Bencode::Bytes(bytes) => {
                    if bytes.len() % 20 != 0 {
                        return Err(DecodeError::MalformedPieces);
                    }
                    bytes.clone()
                },
                _ => {
                    return Err(DecodeError::MissingField(Field::Pieces));
                },
            },
            None => {
                return Err(DecodeError::MissingField(Field::Pieces));
            },
        };
        let length = match optional_int(value, "length", Field::Length) {
            Ok(length) => length,
            Err(error) => {
                return Err(error);
            },
        };
        let files = match find(value, "files") {
            Some(found) => match found {
                Bencode::List(items) => match read_files(items) {
                    Ok(files) => Some(files),
                    Err(error) => {
                        return Err(error);
                    },
                },
                _ => {
                    return Err(DecodeError::MissingField(Field::Files));
                },
            },
            None => None,
        };
        let name = match optional_text(value, "name", Field::Name) {
            Ok(name) => name,
            Err(error) => {
                return Err(error);
            },
        };
        let piece_length = match optional_int(value, "piece length", Field::PieceLength) {
            Ok(piece_length) => piece_length,
            Err(error) => {
                return Err(error);
            },
        };
        Ok(Info { name, length, files, piece_length, pieces })
    }
}

impl FileMeta {
    /// The metadata that a value stands for, or its first error.
    pub fn from_bencode(value: &Bencode) -> (read: Result<FileMeta, DecodeError>)
        ensures
            decoded(read, meta_of(value@)),
    {
        let info = match find(value, "info") {
            Some(found) => match found {
                Bencode::Dict(_) => match Info::from_bencode(found) {
                    Ok(info) => info,
                    Err(error) => {
                        return Err(error);
                    },
                },
                _ => {
                    return Err(DecodeError::MissingField(Field::Info));
                },
            },
            None => {
                return Err(DecodeError::MissingField(Field::Info));
            },
        };
        let announce = match optional_text(value, "announce", Field::Announce) {
            Ok(Some(announce)) => announce,
            _ => {
                return Err(DecodeError::MissingField(Field::Announce));
            },
        };
        let announce_list = match find(value, "announce-list") {
            Some(found) => match to_tiers(found) {
                Some(tiers) => Some(tiers),
                None => {
                    return Err(DecodeError::MissingField(Field::AnnounceList));
                },
            },
            None => None,
        };
        let creation_data = match optional_int(value, "creation date", Field::CreationDate) {
            Ok(creation_data) => creation_data,
            Err(error) => {
                return Err(error);
            },
        };
        let comment = match optional_text(value, "comment", Field::Comment) {
            Ok(comment) => comment,
            Err(error) => {
                return Err(error);
            },
        };
        let encoding = match optional_text(value, "encoding", Field::Encoding) {
            Ok(encoding) => encoding,
            Err(error) => {
                return Err(error);
            },
        };
        let created_by = match optional_text(value, "created by", Field::CreatedBy) {
            Ok(created_by) => created_by,
            Err(error) => {
                return Err(error);
            },
        };
        Ok(FileMeta { announce, announce_list, info, creation_data, comment, encoding, created_by })
    }

    /// The metadata of the descriptor that `file` holds. What `self` is
    /// has no part in it.
    pub fn fromRawTorrentFile(&self, file: Vec<u8>) -> (read: Result<FileMeta, FileMetaError>)
        ensures
            match decode_bytes(file@) {
                Ok(meta) => read matches Ok(m) && m@ == meta,
                Err(error) => read matches Err(FileMetaError::DataError(e)) && e == error,
            },
    {
        match decode(file.as_slice()) {
            Ok(meta) => Ok(meta),
            Err(error) => Err(FileMetaError::DataError(error)),
        }
    }
}

/// Decodes a descriptor: the metadata that its bytes stand for, or the
/// first error. The bytes are only read.
pub fn decode(bytes: &[u8]) -> (read: Result<FileMeta, DecodeError>)
    ensures
        decoded(read, decode_bytes(bytes@)),
{
    match Bencode::parse(bytes) {
        Ok(value) => FileMeta::from_bencode(&value),
        Err(error) => Err(
            DecodeError::Syntax { position: error.position, reason: error.reason },
        ),
    }
}

} // verus!
