//! The metadata of a torrent descriptor, and the hash that names its
//! `info` section in the swarm.
use crate::bencode::{
    encode, entry_views, item_views, lemma_entry_views, lemma_item_views, Bencode, BencodeView,
};
use crate::digest::{sha1, sha1_digest};
use vstd::prelude::*;
use vstd::string::StrSliceExecFns;
use vstd::string::StringSliceAdditionalSpecFns;
use vstd::utf8::encode_utf8;

verus! {

/// One file of a multi-file torrent.
#[derive(Debug)]
pub struct File {
    /// Length of the file in bytes.
    pub length: i64,
    /// The path of the file, one segment per directory level.
    pub path: Vec<String>,
    /// An optional checksum of the file.
    pub md5sum: Option<String>,
}

/// The `info` section of a descriptor. Its encoding is what the info hash
/// is taken of.
#[derive(Debug)]
pub struct Info {
    /// Display name of the file or of the directory.
    pub name: Option<String>,
    /// Length of the one file, in single-file mode.
    pub length: Option<i64>,
    /// The files, in multi-file mode.
    pub files: Option<Vec<File>>,
    /// Number of bytes per piece.
    pub piece_length: Option<i64>,
    /// The SHA-1 digests of the pieces, twenty bytes each, one after another.
    pub pieces: Vec<u8>,
}

/// The metadata of a torrent descriptor.
#[derive(Debug)]
pub struct FileMeta {
    /// URL of the primary tracker.
    pub announce: String,
    /// Tiers of backup trackers, each an ordered list of URLs.
    pub announce_list: Option<Vec<Vec<String>>>,
    /// The `info` section.
    pub info: Info,
    /// When the torrent was created, in seconds since the UNIX epoch.
    pub creation_data: Option<i64>,
    /// A free-form comment.
    pub comment: Option<String>,
    /// Name of the character encoding of the strings.
    pub encoding: Option<String>,
    /// Name and version of the program that made the descriptor.
    pub created_by: Option<String>,
}

/// A file as the contracts see it.
pub struct FileView {
    pub length: i64,
    pub path: Seq<Seq<char>>,
    pub md5sum: Option<Seq<char>>,
}

/// An `info` section as the contracts see it.
pub struct InfoView {
    pub name: Option<Seq<char>>,
    pub length: Option<i64>,
    pub files: Option<Seq<FileView>>,
    pub piece_length: Option<i64>,
    pub pieces: Seq<u8>,
}

/// A descriptor's metadata as the contracts see it.
pub struct FileMetaView {
    pub announce: Seq<char>,
    pub announce_list: Option<Seq<Seq<Seq<char>>>>,
    pub info: InfoView,
    pub creation_data: Option<i64>,
    pub comment: Option<Seq<char>>,
    pub encoding: Option<Seq<char>>,
    pub created_by: Option<Seq<char>>,
}

/// The text of an optional string.
pub open spec fn text_view(text: Option<String>) -> Option<Seq<char>> {
    match text {
        Some(t) => Some(t@),
        None => None,
    }
}

/// The texts of a list of strings.
pub open spec fn texts_view(texts: Seq<String>) -> Seq<Seq<char>> {
    Seq::new(texts.len(), |i: int| texts[i]@)
}

/// The texts of a list of tiers.
pub open spec fn tiers_view(tiers: Seq<Vec<String>>) -> Seq<Seq<Seq<char>>> {
    Seq::new(tiers.len(), |i: int| texts_view(tiers[i]@))
}

/// The views of a list of files.
pub open spec fn files_view(files: Seq<File>) -> Seq<FileView> {
    Seq::new(files.len(), |i: int| files[i]@)
}

impl View for File {
    type V = FileView;

    open spec fn view(&self) -> FileView {
        FileView {
            length: self.length,
            path: texts_view(self.path@),
            md5sum: text_view(self.md5sum),
        }
    }
}

impl View for Info {
    type V = InfoView;

    open spec fn view(&self) -> InfoView {
        InfoView {
            name: text_view(self.name),
            length: self.length,
            files: match self.files {
                Some(files) => Some(files_view(files@)),
                None => None,
            },
            piece_length: self.piece_length,
            pieces: self.pieces@,
        }
    }
}

impl View for FileMeta {
    type V = FileMetaView;

    open spec fn view(&self) -> FileMetaView {
        FileMetaView {
            announce: self.announce@,
            announce_list: match self.announce_list {
                Some(tiers) => Some(tiers_view(tiers@)),
                None => None,
            },
            info: self.info@,
            creation_data: self.creation_data,
            comment: text_view(self.comment),
            encoding: text_view(self.encoding),
            created_by: text_view(self.created_by),
        }
    }
}

impl InfoView {
    /// What holds of every `info` section that was read from a
    /// descriptor: it is in single-file mode or in multi-file mode, never
    /// in both and never in neither, and its piece digests are twenty
    /// bytes each.
    pub open spec fn wf(self) -> bool {
        &&& (self.length is Some) != (self.files is Some)
        &&& self.pieces.len() % 20 == 0
    }
}

/// The bytes of a dictionary key.
pub open spec fn key(name: &str) -> Seq<u8> {
    name.spec_bytes()
}

/// A text as a byte string, in UTF-8.
pub open spec fn text_tree(text: Seq<char>) -> BencodeView {
    BencodeView::Bytes(encode_utf8(text))
}

/// The entry of a field that is present, no entry for one that is absent.
pub open spec fn optional_entry(name: &str, value: Option<BencodeView>) -> Seq<
    (Seq<u8>, BencodeView),
> {
    match value {
        Some(v) => seq![(key(name), v)],
        None => Seq::empty(),
    }
}

/// An optional integer as a value.
pub open spec fn optional_int(value: Option<i64>) -> Option<BencodeView> {
    match value {
        Some(i) => Some(BencodeView::Int(i)),
        None => None,
    }
}

/// An optional text as a value.
pub open spec fn optional_text(value: Option<Seq<char>>) -> Option<BencodeView> {
    match value {
        Some(t) => Some(text_tree(t)),
        None => None,
    }
}

/// The segments of a path as a list of byte strings, in order.
pub open spec fn path_tree(path: Seq<Seq<char>>) -> BencodeView {
    BencodeView::List(Seq::new(path.len(), |i: int| text_tree(path[i])))
}

/// A file as a dictionary, its keys in ascending order: `length`,
/// `md5sum` where there is one, `path`.
pub open spec fn file_tree(file: FileView) -> BencodeView {
    BencodeView::Dict(
        seq![(key("length"), BencodeView::Int(file.length))] + optional_entry(
            "md5sum",
            optional_text(file.md5sum),
        ) + seq![(key("path"), path_tree(file.path))],
    )
}

/// The files as a list of dictionaries, in the order given.
pub open spec fn files_tree(files: Seq<FileView>) -> BencodeView {
    BencodeView::List(Seq::new(files.len(), |i: int| file_tree(files[i])))
}

/// An optional list of files as a value.
pub open spec fn optional_files(files: Option<Seq<FileView>>) -> Option<BencodeView> {
    match files {
        Some(f) => Some(files_tree(f)),
        None => None,
    }
}

/// The `info` section as a dictionary, its keys in ascending order:
/// `files`, `length`, `name`, `piece length`, `pieces`. A field that is
/// absent has no entry.
pub open spec fn info_tree(info: InfoView) -> BencodeView {
    BencodeView::Dict(
        optional_entry("files", optional_files(info.files)) + optional_entry(
            "length",
            optional_int(info.length),
        ) + optional_entry("name", optional_text(info.name)) + optional_entry(
            "piece length",
            optional_int(info.piece_length),
        ) + seq![(key("pieces"), BencodeView::Bytes(info.pieces))],
    )
}

/// The canonical encoding of an `info` section: the bytes that are hashed.
pub open spec fn info_bytes(info: InfoView) -> Seq<u8> {
    encode(info_tree(info))
}

/// The info hash: the SHA-1 digest of the canonical encoding.
pub open spec fn info_hash(info: InfoView) -> Seq<u8> {
    sha1_digest(info_bytes(info))
}

/// Appends the entry of `name` with `value`.
fn push_entry(entries: &mut Vec<(Vec<u8>, Bencode)>, name: &str, value: Bencode)
    ensures
        entry_views(final(entries)@) == entry_views(old(entries)@)
            + seq![(key(name), value@)],
{
    let ghost before = entries@;
    entries.push((name.as_bytes_vec(), value));
    proof {
        lemma_entry_views(before);
        lemma_entry_views(entries@);
        assert(entry_views(entries@) =~= entry_views(before)
            + seq![(key(name), value@)]);
    }
}

/// A text as a byte string.
fn text_to_bencode(text: &String) -> (value: Bencode)
    ensures
        value@ == text_tree(text@),
{
    Bencode::Bytes(text.as_str().as_bytes_vec())
}

impl File {
    /// The file as a dictionary with its keys in ascending order.
    pub fn to_bencode(&self) -> (value: Bencode)
        ensures
            value@ == file_tree(self@),
    {
        let mut segments: Vec<Bencode> = Vec::new();
        let mut i: usize = 0;
        while i < self.path.len()
            invariant
                i <= self.path@.len(),
                segments@.len() == i,
                forall|k: int| 0 <= k < i ==> (#[trigger] segments@[k])@ == text_tree(self.path@[k]@),
            decreases self.path@.len() - i,
        {
            segments.push(text_to_bencode(&self.path[i]));
            i += 1;
        }
        let path = Bencode::List(segments);
        proof {
            lemma_item_views(segments@);
            assert(item_views(segments@) =~= path_tree(self@.path)->List_0);
            assert(path@ == path_tree(self@.path));
        }
        let mut entries: Vec<(Vec<u8>, Bencode)> = Vec::new();
        assert(entry_views(entries@) =~= Seq::<(Seq<u8>, BencodeView)>::empty());
        push_entry(&mut entries, "length", Bencode::Int(self.length));
        match &self.md5sum {
            Some(sum) => {
                push_entry(&mut entries, "md5sum", text_to_bencode(sum));
            },
            None => {},
        }
        push_entry(&mut entries, "path", path);
        let value = Bencode::Dict(entries);
        proof {
            assert(value@ == BencodeView::Dict(entry_views(entries@)));
            assert(entry_views(entries@) =~= file_tree(self@)->Dict_0);
        }
        value
    }
}

impl Info {
    /// The section as a dictionary with its keys in ascending order and
    /// no entry for an absent field.
    pub fn to_bencode(&self) -> (value: Bencode)
        ensures
            value@ == info_tree(self@),
    {
        let mut entries: Vec<(Vec<u8>, Bencode)> = Vec::new();
        assert(entry_views(entries@) =~= Seq::<(Seq<u8>, BencodeView)>::empty());
        match &self.files {
            Some(files) => {
                let mut items: Vec<Bencode> = Vec::new();
                let mut i: usize = 0;
                while i < files.len()
                    invariant
                        i <= files@.len(),
                        items@.len() == i,
                        forall|k: int|
                            0 <= k < i ==> (#[trigger] items@[k])@ == file_tree(files@[k]@),
                    decreases files@.len() - i,
                {
                    items.push(files[i].to_bencode());
                    i += 1;
                }
                let list = Bencode::List(items);
                proof {
                    lemma_item_views(items@);
                    assert(item_views(items@) =~= files_tree(
                        files_view(files@),
                    )->List_0);
                    assert(list@ == files_tree(files_view(files@)));
                }
                push_entry(&mut entries, "files", list);
            },
            None => {},
        }
        match self.length {
            Some(length) => {
                push_entry(&mut entries, "length", Bencode::Int(length));
            },
            None => {},
        }
        match &self.name {
            Some(name) => {
                push_entry(&mut entries, "name", text_to_bencode(name));
            },
            None => {},
        }
        match self.piece_length {
            Some(piece_length) => {
                push_entry(&mut entries, "piece length", Bencode::Int(piece_length));
            },
            None => {},
        }
        push_entry(&mut entries, "pieces", Bencode::Bytes(self.pieces.clone()));
        let value = Bencode::Dict(entries);
        proof {
            assert(value@ == BencodeView::Dict(entry_views(entries@)));
            assert(entry_views(entries@) =~= info_tree(self@)->Dict_0);
        }
        value
    }

    /// The canonical encoding of the section.
    pub fn canonical_bytes(&self) -> (bytes: Vec<u8>)
        ensures
            bytes@ == info_bytes(self@),
    {
        self.to_bencode().encode()
    }
}

impl FileMeta {
    /// The info hash of the descriptor: the SHA-1 digest of the canonical
    /// encoding of its `info` section.
    pub fn generateInfoHash(&self) -> (hash: [u8; 20])
        ensures
            hash@ == info_hash(self@.info),
    {
        let bytes = self.info.canonical_bytes();
        sha1(bytes.as_slice())
    }
}

} // verus!
