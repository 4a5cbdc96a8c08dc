use hyperblow::announce::{
    Announce, AnnounceBuildError, AnnounceEvent, AnnounceField, AnnounceRecord,
};

fn full_builder() -> Announce {
    let mut announce = Announce::empty();
    announce.set_connection_id(0x0102030405060708);
    announce.set_transaction_id(0x0a0b0c0d);
    announce.set_info_hash([7u8; 20]);
    announce.set_downloaded(1);
    announce.set_left(-2);
    announce.set_uploaded(0x1122334455667788);
    announce.set_key(-1);
    announce.set_port(6881);
    announce
}

#[test]
fn empty_builder_names_every_missing_field() {
    let announce = Announce::empty();
    match announce.getBytesMut() {
        Err(AnnounceBuildError::MissingFields(fields)) => {
            let names: Vec<&str> = fields.iter().map(|f| f.name()).collect();
            assert_eq!(
                names,
                vec![
                    "connection_id",
                    "transaction_id",
                    "info_hash",
                    "downloaded",
                    "left",
                    "uploaded",
                    "key",
                    "port"
                ]
            );
        }
        Ok(_) => panic!("an empty builder must not serialize"),
    }
}

#[test]
fn one_missing_field_is_named_alone() {
    let mut announce = Announce::empty();
    announce.set_connection_id(1);
    announce.set_transaction_id(2);
    announce.set_info_hash([0u8; 20]);
    announce.set_downloaded(0);
    announce.set_left(0);
    announce.set_uploaded(0);
    announce.set_key(3);
    match announce.serialize() {
        Err(AnnounceBuildError::MissingFields(fields)) => {
            assert_eq!(fields, vec![AnnounceField::Port]);
        }
        Ok(_) => panic!("the port is not set"),
    }
    match announce.record() {
        Err(AnnounceBuildError::MissingFields(fields)) => {
            assert_eq!(fields, vec![AnnounceField::Port]);
        }
        Ok(_) => panic!("the port is not set"),
    }
}

#[test]
fn announce_packet_has_the_fixed_layout() {
    let announce = full_builder();
    let buf = announce.getBytesMut().expect("every field is set");
    let bytes: &[u8] = &buf[..];
    assert_eq!(bytes.len(), 98);
    assert_eq!(&bytes[0..8], &[1, 2, 3, 4, 5, 6, 7, 8]);
    assert_eq!(&bytes[8..12], &[0, 0, 0, 1]);
    assert_eq!(&bytes[12..16], &[0x0a, 0x0b, 0x0c, 0x0d]);
    assert_eq!(&bytes[16..36], &[7u8; 20]);
    assert_eq!(&bytes[36..56], b"-BOWxxx-yyyyyyyyyyyy");
    assert_eq!(&bytes[56..64], &[0, 0, 0, 0, 0, 0, 0, 1]);
    assert_eq!(&bytes[64..72], &[0xff, 0xff, 0xff, 0xff, 0xff, 0xff, 0xff, 0xfe]);
    assert_eq!(&bytes[72..80], &[0x11, 0x22, 0x33, 0x44, 0x55, 0x66, 0x77, 0x88]);
    assert_eq!(&bytes[80..84], &[0, 0, 0, 0]);
    assert_eq!(&bytes[84..88], &[0, 0, 0, 0]);
    assert_eq!(&bytes[88..92], &[0xff, 0xff, 0xff, 0xff]);
    assert_eq!(&bytes[92..96], &[0xff, 0xff, 0xff, 0xff]);
    assert_eq!(&bytes[96..98], &[0x1a, 0xe1]);
}

#[test]
fn array_and_buffer_hold_the_same_bytes() {
    let announce = full_builder();
    let buf = announce.getBytesMut().expect("every field is set");
    let packet = announce.serialize().expect("every field is set");
    assert_eq!(&buf[..], &packet[..]);
    let record = announce.record().expect("every field is set");
    assert_eq!(&record.write()[..], &packet[..]);
    assert_eq!(record.serialize(), packet);
}

#[test]
fn record_with_extreme_values() {
    let record = AnnounceRecord {
        connection_id: i64::MIN,
        action: 1,
        transaction_id: i32::MIN,
        info_hash: [0xab; 20],
        peer_id: [0xcd; 20],
        downloaded: i64::MAX,
        left: 0,
        uploaded: -1,
        event: 3,
        ip_address: 0x7f000001,
        key: i32::MAX,
        num_want: 50,
        port: -1,
    };
    let packet = record.serialize();
    assert_eq!(&packet[0..8], &[0x80, 0, 0, 0, 0, 0, 0, 0]);
    assert_eq!(&packet[8..12], &1i32.to_be_bytes());
    assert_eq!(&packet[12..16], &[0x80, 0, 0, 0]);
    assert_eq!(&packet[16..36], &[0xab; 20]);
    assert_eq!(&packet[36..56], &[0xcd; 20]);
    assert_eq!(&packet[56..64], &[0x7f, 0xff, 0xff, 0xff, 0xff, 0xff, 0xff, 0xff]);
    assert_eq!(&packet[72..80], &[0xff; 8]);
    assert_eq!(&packet[80..84], &[0, 0, 0, 3]);
    assert_eq!(&packet[84..88], &[0x7f, 0, 0, 1]);
    assert_eq!(&packet[88..92], &[0x7f, 0xff, 0xff, 0xff]);
    assert_eq!(&packet[92..96], &[0, 0, 0, 50]);
    assert_eq!(&packet[96..98], &[0xff, 0xff]);
}

#[test]
fn event_codes() {
    assert_eq!(AnnounceEvent::Idle.code(), 0);
    assert_eq!(AnnounceEvent::Completed.code(), 1);
    assert_eq!(AnnounceEvent::Started.code(), 2);
    assert_eq!(AnnounceEvent::Stopped.code(), 3);
    let mut announce = full_builder();
    announce.set_event(AnnounceEvent::Started);
    announce.set_peer_id([9u8; 20]);
    let packet = announce.serialize().expect("every field is set");
    assert_eq!(&packet[80..84], &[0, 0, 0, 2]);
    assert_eq!(&packet[36..56], &[9u8; 20]);
}
