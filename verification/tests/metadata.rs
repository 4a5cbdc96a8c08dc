use hyperblow::bencode::Bencode;
use hyperblow::decode::{decode, DecodeError, Field, FileMetaError};
use hyperblow::metadata::{File, FileMeta, Info};
use hyperblow::parse::SyntaxReason;
use sha1::{Digest, Sha1};

const SINGLE_INFO_HASH: [u8; 20] = [
    8, 97, 9, 165, 99, 88, 164, 235, 4, 118, 213, 48, 124, 66, 238, 135, 194, 242, 190, 116,
];

fn pieces(n: u8) -> Vec<u8> {
    (0..n).collect()
}

fn single_info_bytes() -> Vec<u8> {
    let mut bytes = b"d6:lengthi12345e4:name8:test.txt12:piece lengthi16384e6:pieces20:".to_vec();
    bytes.extend_from_slice(&pieces(20));
    bytes.push(b'e');
    bytes
}

fn single_descriptor() -> Vec<u8> {
    let mut bytes = b"d8:announce33:udp://tracker.example:80/announce4:info".to_vec();
    bytes.extend_from_slice(&single_info_bytes());
    bytes.push(b'e');
    bytes
}

fn descriptor_with_info(info: &[u8]) -> Vec<u8> {
    let mut bytes = b"d8:announce18:http://t.example/a4:info".to_vec();
    bytes.extend_from_slice(info);
    bytes.push(b'e');
    bytes
}

fn info_with(entries: &[u8]) -> Vec<u8> {
    let mut bytes = b"d".to_vec();
    bytes.extend_from_slice(entries);
    bytes.extend_from_slice(b"6:pieces20:");
    bytes.extend_from_slice(&pieces(20));
    bytes.push(b'e');
    bytes
}

fn file(length: i64, path: &[&str], md5sum: Option<&str>) -> File {
    File {
        length,
        path: path.iter().map(|s| s.to_string()).collect(),
        md5sum: md5sum.map(|s| s.to_string()),
    }
}

fn multi_info(files: Vec<File>) -> Info {
    Info {
        name: Some("dir".to_string()),
        length: None,
        files: Some(files),
        piece_length: Some(32768),
        pieces: pieces(40),
    }
}

fn meta_with(info: Info) -> FileMeta {
    FileMeta {
        announce: "http://t.example/a".to_string(),
        announce_list: None,
        info,
        creation_data: None,
        comment: None,
        encoding: None,
        created_by: None,
    }
}

fn hex(bytes: &[u8]) -> String {
    bytes.iter().map(|b| format!("{:02x}", b)).collect()
}

#[test]
fn reference_vector_single_file() {
    let meta = decode(&single_descriptor()).expect("a well-formed descriptor");
    assert_eq!(meta.announce, "udp://tracker.example:80/announce");
    assert!(meta.announce_list.is_none());
    assert_eq!(meta.info.name.as_deref(), Some("test.txt"));
    assert_eq!(meta.info.length, Some(12345));
    assert!(meta.info.files.is_none());
    assert_eq!(meta.info.piece_length, Some(16384));
    assert_eq!(meta.info.pieces, pieces(20));
    assert!(meta.creation_data.is_none());
    assert!(meta.comment.is_none());
    assert!(meta.encoding.is_none());
    assert!(meta.created_by.is_none());
    assert_eq!(meta.info.canonical_bytes(), single_info_bytes());
    assert_eq!(meta.generateInfoHash(), SINGLE_INFO_HASH);
    assert_eq!(hex(&meta.generateInfoHash()), "086109a56358a4eb0476d5307c42ee87c2f2be74");
}

#[test]
fn info_hash_is_the_sha1_of_the_canonical_bytes() {
    let meta = meta_with(multi_info(vec![
        file(10, &["a", "b.txt"], None),
        file(20, &["c.bin"], Some("0123456789abcdef0123456789abcdef")),
    ]));
    let bytes = meta.info.canonical_bytes();
    let mut expected = b"d5:filesld6:lengthi10e4:pathl1:a5:b.txteed6:lengthi20e6:md5sum32:0123456789abcdef0123456789abcdef4:pathl5:c.bineee4:name3:dir12:piece lengthi32768e6:pieces40:".to_vec();
    expected.extend_from_slice(&pieces(40));
    expected.push(b'e');
    assert_eq!(bytes, expected);
    let mut hasher = Sha1::new();
    hasher.update(&bytes);
    let digest: [u8; 20] = hasher.finalize().into();
    assert_eq!(meta.generateInfoHash(), digest);
    assert_eq!(hex(&meta.generateInfoHash()), "712ff93a7449a914ffc9d2cb6bacb87dc733415f");
    assert_ne!(meta.generateInfoHash().to_vec(), bytes);
}

#[test]
fn info_hash_is_the_same_for_equal_sections() {
    let first = meta_with(multi_info(vec![file(10, &["a", "b.txt"], None)]));
    let second = meta_with(multi_info(vec![file(10, &["a", "b.txt"], None)]));
    assert_eq!(first.generateInfoHash(), second.generateInfoHash());
    assert_eq!(first.generateInfoHash(), first.generateInfoHash());
    assert_eq!(first.info.canonical_bytes(), second.info.canonical_bytes());
}

#[test]
fn order_of_the_files_changes_the_hash() {
    let one = file(10, &["a", "b.txt"], None);
    let two = file(20, &["c.bin"], Some("0123456789abcdef0123456789abcdef"));
    let forward = meta_with(multi_info(vec![one, two]));
    let one = file(10, &["a", "b.txt"], None);
    let two = file(20, &["c.bin"], Some("0123456789abcdef0123456789abcdef"));
    let backward = meta_with(multi_info(vec![two, one]));
    assert_ne!(forward.info.canonical_bytes(), backward.info.canonical_bytes());
    assert_ne!(forward.generateInfoHash(), backward.generateInfoHash());
    assert_eq!(hex(&backward.generateInfoHash()), "b02cf1b83477a10952ceb6ef0b26a3bb7ae19d2c");
}

#[test]
fn order_of_the_keys_in_the_input_does_not_change_the_hash() {
    let mut shuffled = b"d4:infod6:pieces20:".to_vec();
    shuffled.extend_from_slice(&pieces(20));
    shuffled.extend_from_slice(
        b"12:piece lengthi16384e4:name8:test.txt6:lengthi12345ee8:announce33:udp://tracker.example:80/announcee",
    );
    let meta = decode(&shuffled).expect("keys may come in any order");
    let sorted = decode(&single_descriptor()).expect("a well-formed descriptor");
    assert_eq!(meta.announce, sorted.announce);
    assert_eq!(meta.info.canonical_bytes(), single_info_bytes());
    assert_eq!(meta.generateInfoHash(), sorted.generateInfoHash());
    assert_eq!(meta.generateInfoHash(), SINGLE_INFO_HASH);
}

#[test]
fn absent_fields_have_no_entry() {
    let info = Info { name: None, length: Some(0), files: None, piece_length: None, pieces: vec![] };
    assert_eq!(info.canonical_bytes(), b"d6:lengthi0e6:pieces0:e");
    assert_eq!(info.to_bencode().encode(), b"d6:lengthi0e6:pieces0:e");
    let one = file(-3, &[], None);
    assert_eq!(one.to_bencode().encode(), b"d6:lengthi-3e4:pathlee");
}

#[test]
fn both_modes_or_neither_is_ambiguous() {
    let both = descriptor_with_info(&info_with(b"5:filesle6:lengthi1e"));
    assert_eq!(decode(&both).unwrap_err(), DecodeError::AmbiguousMode);
    let neither = descriptor_with_info(&info_with(b"4:name1:x"));
    assert_eq!(decode(&neither).unwrap_err(), DecodeError::AmbiguousMode);
    let both_without_pieces = descriptor_with_info(b"d5:filesle6:lengthi1ee");
    assert_eq!(decode(&both_without_pieces).unwrap_err(), DecodeError::AmbiguousMode);
    let both_without_announce = {
        let mut bytes = b"d4:info".to_vec();
        bytes.extend_from_slice(&info_with(b"5:filesle6:lengthi1e"));
        bytes.push(b'e');
        bytes
    };
    assert_eq!(decode(&both_without_announce).unwrap_err(), DecodeError::AmbiguousMode);
}

#[test]
fn required_fields_must_be_there() {
    let mut no_announce = b"d4:info".to_vec();
    no_announce.extend_from_slice(&single_info_bytes());
    no_announce.push(b'e');
    assert_eq!(decode(&no_announce).unwrap_err(), DecodeError::MissingField(Field::Announce));
    assert_eq!(
        decode(b"d8:announce3:x:ye").unwrap_err(),
        DecodeError::MissingField(Field::Info)
    );
    assert_eq!(decode(b"i5e").unwrap_err(), DecodeError::MissingField(Field::Info));
    assert_eq!(
        decode(b"d8:announce3:x:y4:infoi1ee").unwrap_err(),
        DecodeError::MissingField(Field::Info)
    );
    let no_pieces = descriptor_with_info(b"d6:lengthi1ee");
    assert_eq!(decode(&no_pieces).unwrap_err(), DecodeError::MissingField(Field::Pieces));
    let pieces_is_a_number = descriptor_with_info(b"d6:lengthi1e6:piecesi20ee");
    assert_eq!(
        decode(&pieces_is_a_number).unwrap_err(),
        DecodeError::MissingField(Field::Pieces)
    );
}

#[test]
fn pieces_must_be_twenty_bytes_each() {
    let short = descriptor_with_info(b"d6:lengthi1e6:pieces3:abce");
    assert_eq!(decode(&short).unwrap_err(), DecodeError::MalformedPieces);
    let mut long = b"d6:lengthi1e6:pieces21:".to_vec();
    long.extend_from_slice(&pieces(21));
    long.push(b'e');
    assert_eq!(decode(&descriptor_with_info(&long)).unwrap_err(), DecodeError::MalformedPieces);
    let empty = descriptor_with_info(b"d6:lengthi1e6:pieces0:e");
    assert!(decode(&empty).expect("no piece at all").info.pieces.is_empty());
}

#[test]
fn fields_must_have_their_shape() {
    let cases: Vec<(&[u8], Field)> = vec![
        (b"6:length1:x", Field::Length),
        (b"5:filesi1e", Field::Files),
        (b"6:lengthi1e4:namei1e", Field::Name),
        (b"6:lengthi1e4:name2:\xff\xfe", Field::Name),
        (b"6:lengthi1e12:piece length1:x", Field::PieceLength),
        (b"5:filesli1ee", Field::FileLength),
        (b"5:filesld4:pathleee", Field::FileLength),
        (b"5:filesld6:lengthi1eee", Field::FilePath),
        (b"5:filesld6:lengthi1e4:path1:xee", Field::FilePath),
        (b"5:filesld6:lengthi1e4:pathli1eeee", Field::FilePath),
        (b"5:filesld6:lengthi1e6:md5sumi1e4:pathleee", Field::FileChecksum),
    ];
    for (entries, field) in cases {
        let bytes = descriptor_with_info(&info_with(entries));
        assert_eq!(decode(&bytes).unwrap_err(), DecodeError::MissingField(field));
    }
    let mut top = b"d8:announcei1e4:info".to_vec();
    top.extend_from_slice(&single_info_bytes());
    top.push(b'e');
    assert_eq!(decode(&top).unwrap_err(), DecodeError::MissingField(Field::Announce));
    let tops: Vec<(&[u8], Field)> = vec![
        (b"13:announce-listi1e", Field::AnnounceList),
        (b"13:announce-listl1:xe", Field::AnnounceList),
        (b"13:announce-listlli1eee", Field::AnnounceList),
        (b"13:creation date1:x", Field::CreationDate),
        (b"7:commenti1e", Field::Comment),
        (b"8:encodingle", Field::Encoding),
        (b"10:created byde", Field::CreatedBy),
    ];
    for (entry, field) in tops {
        let mut bytes = b"d".to_vec();
        bytes.extend_from_slice(entry);
        bytes.extend_from_slice(b"8:announce3:x:y4:info");
        bytes.extend_from_slice(&single_info_bytes());
        bytes.push(b'e');
        assert_eq!(decode(&bytes).unwrap_err(), DecodeError::MissingField(field));
    }
}

#[test]
fn malformed_input_is_a_syntax_error() {
    let mut truncated = b"d8:announce33:udp://tracker.example:80/announce4:infod6:pieces999:".to_vec();
    truncated.extend_from_slice(&pieces(20));
    assert_eq!(
        decode(&truncated).unwrap_err(),
        DecodeError::Syntax { position: 62, reason: SyntaxReason::TruncatedString }
    );
    assert_eq!(
        decode(b"").unwrap_err(),
        DecodeError::Syntax { position: 0, reason: SyntaxReason::UnexpectedEnd }
    );
    assert_eq!(
        decode(b"d8:announce").unwrap_err(),
        DecodeError::Syntax { position: 11, reason: SyntaxReason::UnexpectedEnd }
    );
    assert_eq!(
        decode(b"d8:announcei01ee").unwrap_err(),
        DecodeError::Syntax { position: 11, reason: SyntaxReason::NonCanonicalInteger }
    );
    assert_eq!(
        decode(b"d8:announcei99999999999999999999ee").unwrap_err(),
        DecodeError::Syntax { position: 11, reason: SyntaxReason::IntegerOutOfRange }
    );
    assert_eq!(
        decode(b"d8:announce?e").unwrap_err(),
        DecodeError::Syntax { position: 11, reason: SyntaxReason::UnexpectedByte }
    );
}

#[test]
fn every_field_is_read() {
    let mut bytes = b"d8:announce18:http://t.example/a13:announce-listll18:http://t.example/a18:http://u.example/ael20:udp://v.example:6969ee10:created by4:tool7:comment5:hello13:creation datei1700000000e8:encoding5:UTF-84:infod5:filesld6:lengthi10e4:pathl1:a5:b.txteed6:lengthi20e6:md5sum32:0123456789abcdef0123456789abcdef4:pathl5:c.bineee4:name3:dir12:piece lengthi32768e6:pieces40:".to_vec();
    bytes.extend_from_slice(&pieces(40));
    bytes.extend_from_slice(b"7:privatei1ee5:extrali1eee");
    let meta = decode(&bytes).expect("a well-formed descriptor");
    assert_eq!(meta.announce, "http://t.example/a");
    assert_eq!(
        meta.announce_list,
        Some(vec![
            vec!["http://t.example/a".to_string(), "http://u.example/a".to_string()],
            vec!["udp://v.example:6969".to_string()],
        ])
    );
    assert_eq!(meta.created_by.as_deref(), Some("tool"));
    assert_eq!(meta.comment.as_deref(), Some("hello"));
    assert_eq!(meta.creation_data, Some(1700000000));
    assert_eq!(meta.encoding.as_deref(), Some("UTF-8"));
    assert_eq!(meta.info.name.as_deref(), Some("dir"));
    assert!(meta.info.length.is_none());
    assert_eq!(meta.info.piece_length, Some(32768));
    assert_eq!(meta.info.pieces, pieces(40));
    let files = meta.info.files.as_ref().expect("multi-file mode");
    assert_eq!(files.len(), 2);
    assert_eq!(files[0].length, 10);
    assert_eq!(files[0].path, vec!["a".to_string(), "b.txt".to_string()]);
    assert!(files[0].md5sum.is_none());
    assert_eq!(files[1].length, 20);
    assert_eq!(files[1].path, vec!["c.bin".to_string()]);
    assert_eq!(files[1].md5sum.as_deref(), Some("0123456789abcdef0123456789abcdef"));
    assert_eq!(hex(&meta.generateInfoHash()), "712ff93a7449a914ffc9d2cb6bacb87dc733415f");
}

#[test]
fn text_in_utf8_is_kept() {
    let bytes = descriptor_with_info(&info_with(b"6:lengthi1e4:name6:\xc3\xa9t\xc3\xa9!"));
    let meta = decode(&bytes).expect("the name is valid UTF-8");
    assert_eq!(meta.info.name.as_deref(), Some("\u{e9}t\u{e9}!"));
    let mut expected = b"d6:lengthi1e4:name6:\xc3\xa9t\xc3\xa9!6:pieces20:".to_vec();
    expected.extend_from_slice(&pieces(20));
    expected.push(b'e');
    assert_eq!(meta.info.canonical_bytes(), expected);
}

#[test]
fn first_entry_under_a_key_counts() {
    let bytes = descriptor_with_info(&info_with(b"6:lengthi1e4:name1:a4:name1:b"));
    let meta = decode(&bytes).expect("the second name is passed over");
    assert_eq!(meta.info.name.as_deref(), Some("a"));
}

#[test]
fn from_raw_torrent_file_wraps_the_decoder() {
    let any = meta_with(multi_info(vec![]));
    let meta = any.fromRawTorrentFile(single_descriptor()).ok().expect("a well-formed descriptor");
    assert_eq!(meta.generateInfoHash(), SINGLE_INFO_HASH);
    match any.fromRawTorrentFile(b"5:abc".to_vec()) {
        Err(FileMetaError::DataError(error)) => assert_eq!(
            error,
            DecodeError::Syntax { position: 0, reason: SyntaxReason::TruncatedString }
        ),
        _ => panic!("the bytes are no descriptor"),
    }
}

#[test]
fn from_bencode_reads_a_value_built_by_hand() {
    let info = Bencode::Dict(vec![
        (b"pieces".to_vec(), Bencode::Bytes(pieces(20))),
        (b"length".to_vec(), Bencode::Int(7)),
    ]);
    let read = Info::from_bencode(&info).expect("one mode, twenty bytes");
    assert_eq!(read.length, Some(7));
    let top = Bencode::Dict(vec![
        (b"info".to_vec(), info),
        (b"announce".to_vec(), Bencode::Bytes(b"udp://x.example:1".to_vec())),
    ]);
    let meta = FileMeta::from_bencode(&top).expect("a descriptor");
    assert_eq!(meta.announce, "udp://x.example:1");
    let entry = Bencode::Dict(vec![
        (b"path".to_vec(), Bencode::List(vec![Bencode::Bytes(b"f".to_vec())])),
        (b"length".to_vec(), Bencode::Int(1)),
    ]);
    let one = File::from_bencode(&entry).expect("a file");
    assert_eq!(one.path, vec!["f".to_string()]);
}

#[test]
fn fields_have_their_keys_as_names() {
    assert_eq!(Field::Announce.name(), "announce");
    assert_eq!(Field::AnnounceList.name(), "announce-list");
    assert_eq!(Field::Info.name(), "info");
    assert_eq!(Field::CreationDate.name(), "creation date");
    assert_eq!(Field::Comment.name(), "comment");
    assert_eq!(Field::Encoding.name(), "encoding");
    assert_eq!(Field::CreatedBy.name(), "created by");
    assert_eq!(Field::Name.name(), "name");
    assert_eq!(Field::Length.name(), "length");
    assert_eq!(Field::Files.name(), "files");
    assert_eq!(Field::PieceLength.name(), "piece length");
    assert_eq!(Field::Pieces.name(), "pieces");
    assert_eq!(Field::FileLength.name(), "length");
    assert_eq!(Field::FilePath.name(), "path");
    assert_eq!(Field::FileChecksum.name(), "md5sum");
}
