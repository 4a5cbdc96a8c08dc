//! The UDP tracker announce request: a builder that collects the fields, the
//! complete record it yields, and the fixed 98-byte layout of that record.
use crate::wire::{
    be_bytes, buffer_bytes, buffer_put_i16, buffer_put_i32, buffer_put_i64, buffer_put_slice,
    buffer_to_vec, buffer_with_capacity, lemma_be_bytes_len,
};
use bytes::BytesMut;
use vstd::prelude::*;

verus! {

/// Length in bytes of an announce request.
pub const ANNOUNCE_LEN: usize = 98;

/// Action code of an announce request.
pub const ACTION_ANNOUNCE: i32 = 1;

/// The event a client reports with an announce.
#[derive(Clone, Copy, Debug, PartialEq, Eq, Structural)]
pub enum AnnounceEvent {
    Idle,
    Completed,
    Started,
    Stopped,
}

impl AnnounceEvent {
    /// The number that stands for the event on the wire.
    pub open spec fn spec_code(self) -> i32 {
        match self {
            AnnounceEvent::Idle => 0,
            AnnounceEvent::Completed => 1,
            AnnounceEvent::Started => 2,
            AnnounceEvent::Stopped => 3,
        }
    }

    /// The number that stands for the event on the wire.
    pub fn code(self) -> (code: i32)
        ensures
            code == self.spec_code(),
    {
        match self {
            AnnounceEvent::Idle => 0,
            AnnounceEvent::Completed => 1,
            AnnounceEvent::Started => 2,
            AnnounceEvent::Stopped => 3,
        }
    }
}

/// The fields of an announce request, in the order of the wire layout.
#[derive(Clone, Copy, Debug, PartialEq, Eq, Structural)]
pub enum AnnounceField {
    ConnectionId,
    Action,
    TransactionId,
    InfoHash,
    PeerId,
    Downloaded,
    Left,
    Uploaded,
    Event,
    IpAddress,
    Key,
    NumWant,
    Port,
}

impl AnnounceField {
    /// The field's name as text.
    pub open spec fn spec_name(self) -> Seq<char> {
        match self {
            AnnounceField::ConnectionId => "connection_id"@,
            AnnounceField::Action => "action"@,
            AnnounceField::TransactionId => "transaction_id"@,
            AnnounceField::InfoHash => "info_hash"@,
            AnnounceField::PeerId => "peer_id"@,
            AnnounceField::Downloaded => "downloaded"@,
            AnnounceField::Left => "left"@,
            AnnounceField::Uploaded => "uploaded"@,
            AnnounceField::Event => "event"@,
            AnnounceField::IpAddress => "ip_address"@,
            AnnounceField::Key => "key"@,
            AnnounceField::NumWant => "num_want"@,
            AnnounceField::Port => "port"@,
        }
    }

    /// The field's name as text.
    pub fn name(self) -> (name: &'static str)
        ensures
            name@ == self.spec_name(),
    {
        match self {
            AnnounceField::ConnectionId => "connection_id",
            AnnounceField::Action => "action",
            AnnounceField::TransactionId => "transaction_id",
            AnnounceField::InfoHash => "info_hash",
            AnnounceField::PeerId => "peer_id",
            AnnounceField::Downloaded => "downloaded",
            AnnounceField::Left => "left",
            AnnounceField::Uploaded => "uploaded",
            AnnounceField::Event => "event",
            AnnounceField::IpAddress => "ip_address",
            AnnounceField::Key => "key",
            AnnounceField::NumWant => "num_want",
            AnnounceField::Port => "port",
        }
    }
}

/// Why a builder could not yield a record.
#[derive(Debug)]
pub enum AnnounceBuildError {
    /// Every field that was still unset, in the order of the wire layout.
    MissingFields(Vec<AnnounceField>),
}

/// A complete announce request: every field has its value.
#[derive(Clone, Copy, Debug)]
pub struct AnnounceRecord {
    pub connection_id: i64,
    pub action: i32,
    pub transaction_id: i32,
    pub info_hash: [u8; 20],
    pub peer_id: [u8; 20],
    pub downloaded: i64,
    pub left: i64,
    pub uploaded: i64,
    pub event: i32,
    pub ip_address: i32,
    pub key: i32,
    pub num_want: i32,
    pub port: i16,
}

impl AnnounceRecord {
    /// The request on the wire: thirteen fields back to back, every integer
    /// big-endian, the two identifiers as they are.
    pub open spec fn wire(self) -> Seq<u8> {
        be_bytes(self.connection_id as int, 8) + be_bytes(self.action as int, 4) + be_bytes(
            self.transaction_id as int,
            4,
        ) + self.info_hash@ + self.peer_id@ + be_bytes(self.downloaded as int, 8) + be_bytes(
            self.left as int,
            8,
        ) + be_bytes(self.uploaded as int, 8) + be_bytes(self.event as int, 4) + be_bytes(
            self.ip_address as int,
            4,
        ) + be_bytes(self.key as int, 4) + be_bytes(self.num_want as int, 4) + be_bytes(
            self.port as int,
            2,
        )
    }

    /// Writes the request into a fresh buffer.
    pub fn write(&self) -> (buf: BytesMut)
        ensures
            buffer_bytes(buf) == self.wire(),
            buffer_bytes(buf).len() == ANNOUNCE_LEN,
    {
        proof {
            lemma_wire_layout(*self);
            lemma_be_bytes_len(self.connection_id as int, 8);
            lemma_be_bytes_len(self.action as int, 4);
            lemma_be_bytes_len(self.transaction_id as int, 4);
            lemma_be_bytes_len(self.downloaded as int, 8);
            lemma_be_bytes_len(self.left as int, 8);
            lemma_be_bytes_len(self.uploaded as int, 8);
            lemma_be_bytes_len(self.event as int, 4);
            lemma_be_bytes_len(self.ip_address as int, 4);
            lemma_be_bytes_len(self.key as int, 4);
            lemma_be_bytes_len(self.num_want as int, 4);
            lemma_be_bytes_len(self.port as int, 2);
        }
        let mut buf = buffer_with_capacity(ANNOUNCE_LEN);
        buffer_put_i64(&mut buf, self.connection_id);
        buffer_put_i32(&mut buf, self.action);
        buffer_put_i32(&mut buf, self.transaction_id);
        buffer_put_slice(&mut buf, self.info_hash.as_slice());
        buffer_put_slice(&mut buf, self.peer_id.as_slice());
        buffer_put_i64(&mut buf, self.downloaded);
        buffer_put_i64(&mut buf, self.left);
        buffer_put_i64(&mut buf, self.uploaded);
        buffer_put_i32(&mut buf, self.event);
        buffer_put_i32(&mut buf, self.ip_address);
        buffer_put_i32(&mut buf, self.key);
        buffer_put_i32(&mut buf, self.num_want);
        buffer_put_i16(&mut buf, self.port);
        assert(buffer_bytes(buf) =~= self.wire());
        buf
    }

    /// The request as an array of exactly 98 bytes.
    pub fn serialize(&self) -> (packet: [u8; 98])
        ensures
            packet@ == self.wire(),
    {
        let buf = self.write();
        let bytes = buffer_to_vec(&buf);
        let mut packet = [0u8; 98];
        let mut i: usize = 0;
        while i < ANNOUNCE_LEN
            invariant
                i <= ANNOUNCE_LEN,
                bytes@.len() == ANNOUNCE_LEN,
                forall|j: int| 0 <= j < i ==> packet@[j] == bytes@[j],
            decreases ANNOUNCE_LEN - i,
        {
            packet[i] = bytes[i];
            i += 1;
        }
        assert(packet@ =~= bytes@);
        packet
    }
}

/// What a builder holds: each field of the request, set or not yet set.
pub struct AnnounceFields {
    pub connection_id: Option<i64>,
    pub action: Option<i32>,
    pub transaction_id: Option<i32>,
    pub info_hash: Option<[u8; 20]>,
    pub peer_id: Option<[u8; 20]>,
    pub downloaded: Option<i64>,
    pub left: Option<i64>,
    pub uploaded: Option<i64>,
    pub event: Option<i32>,
    pub ip_address: Option<i32>,
    pub key: Option<i32>,
    pub num_want: Option<i32>,
    pub port: Option<i16>,
}

/// The one-element list of `field` where it is unset, the empty list
/// where it is set.
pub open spec fn unset(absent: bool, field: AnnounceField) -> Seq<AnnounceField> {
    if absent {
        seq![field]
    } else {
        Seq::<AnnounceField>::empty()
    }
}

impl AnnounceFields {
    /// Every unset field, in the order of the wire layout.
    pub open spec fn missing(self) -> Seq<AnnounceField> {
        unset(self.connection_id is None, AnnounceField::ConnectionId) + unset(
            self.action is None,
            AnnounceField::Action,
        ) + unset(self.transaction_id is None, AnnounceField::TransactionId) + unset(
            self.info_hash is None,
            AnnounceField::InfoHash,
        ) + unset(self.peer_id is None, AnnounceField::PeerId) + unset(
            self.downloaded is None,
            AnnounceField::Downloaded,
        ) + unset(self.left is None, AnnounceField::Left) + unset(
            self.uploaded is None,
            AnnounceField::Uploaded,
        ) + unset(self.event is None, AnnounceField::Event) + unset(
            self.ip_address is None,
            AnnounceField::IpAddress,
        ) + unset(self.key is None, AnnounceField::Key) + unset(
            self.num_want is None,
            AnnounceField::NumWant,
        ) + unset(self.port is None, AnnounceField::Port)
    }

    /// Whether every field is set.
    pub open spec fn complete(self) -> bool {
        &&& self.connection_id is Some
        &&& self.action is Some
        &&& self.transaction_id is Some
        &&& self.info_hash is Some
        &&& self.peer_id is Some
        &&& self.downloaded is Some
        &&& self.left is Some
        &&& self.uploaded is Some
        &&& self.event is Some
        &&& self.ip_address is Some
        &&& self.key is Some
        &&& self.num_want is Some
        &&& self.port is Some
    }

    /// The record that a complete builder stands for.
    pub open spec fn record(self) -> AnnounceRecord
        recommends
            self.complete(),
    {
        AnnounceRecord {
            connection_id: self.connection_id->0,
            action: self.action->0,
            transaction_id: self.transaction_id->0,
            info_hash: self.info_hash->0,
            peer_id: self.peer_id->0,
            downloaded: self.downloaded->0,
            left: self.left->0,
            uploaded: self.uploaded->0,
            event: self.event->0,
            ip_address: self.ip_address->0,
            key: self.key->0,
            num_want: self.num_want->0,
            port: self.port->0,
        }
    }
}

/// Appends `field` to `names` where it is unset.
fn note_unset(names: &mut Vec<AnnounceField>, absent: bool, field: AnnounceField)
    ensures
        final(names)@ == old(names)@ + unset(absent, field),
{
    if absent {
        names.push(field);
    }
    assert(names@ =~= old(names)@ + unset(absent, field));
}

/// A builder is complete exactly when no field is missing.
pub proof fn lemma_complete_iff_none_missing(fields: AnnounceFields)
    ensures
        fields.complete() <==> fields.missing().len() == 0,
{
}

/// The peer identifier of this client: the text `-BOWxxx-yyyyyyyyyyyy`.
pub open spec fn default_peer_id() -> Seq<u8> {
    seq![
        45u8, 66u8, 79u8, 87u8, 120u8, 120u8, 120u8, 45u8, 121u8, 121u8, 121u8, 121u8, 121u8,
        121u8, 121u8, 121u8, 121u8, 121u8, 121u8, 121u8,
    ]
}

/// Collects the fields of an announce request. A record can be had from it,
/// and written, only once every field is set.
pub struct Announce {
    connection_id: Option<i64>,
    action: Option<i32>,
    transaction_id: Option<i32>,
    info_hash: Option<[u8; 20]>,
    peer_id: Option<[u8; 20]>,
    downloaded: Option<i64>,
    left: Option<i64>,
    uploaded: Option<i64>,
    event: Option<i32>,
    ip_address: Option<i32>,
    key: Option<i32>,
    num_want: Option<i32>,
    port: Option<i16>,
}

impl View for Announce {
    type V = AnnounceFields;

    closed spec fn view(&self) -> AnnounceFields {
        AnnounceFields {
            connection_id: self.connection_id,
            action: self.action,
            transaction_id: self.transaction_id,
            info_hash: self.info_hash,
            peer_id: self.peer_id,
            downloaded: self.downloaded,
            left: self.left,
            uploaded: self.uploaded,
            event: self.event,
            ip_address: self.ip_address,
            key: self.key,
            num_want: self.num_want,
            port: self.port,
        }
    }
}

impl Announce {
    /// A builder in which only the fields with a fixed value are set: the
    /// action (announce), this client's peer identifier, the event (none),
    /// the IP address (0: the tracker takes the sender's) and the number of
    /// peers wanted (-1: the tracker's default).
    pub fn empty() -> (announce: Self)
        ensures
            announce@.connection_id is None,
            announce@.action == Some(1i32),
            announce@.transaction_id is None,
            announce@.info_hash is None,
            announce@.peer_id is Some,
            announce@.peer_id->0@ == default_peer_id(),
            announce@.downloaded is None,
            announce@.left is None,
            announce@.uploaded is None,
            announce@.event == Some(0i32),
            announce@.ip_address == Some(0i32),
            announce@.key is None,
            announce@.num_want == Some(-1i32),
            announce@.port is None,
    {
        let peer_id: [u8; 20] = [
            45, 66, 79, 87, 120, 120, 120, 45, 121, 121, 121, 121, 121, 121, 121, 121, 121, 121,
            121, 121,
        ];
        assert(peer_id@ =~= default_peer_id());
        Announce {
            connection_id: None,
            action: Some(ACTION_ANNOUNCE),
            transaction_id: None,
            info_hash: None,
            peer_id: Some(peer_id),
            downloaded: None,
            left: None,
            uploaded: None,
            event: Some(0),
            ip_address: Some(0),
            key: None,
            num_want: Some(-1),
            port: None,
        }
    }

    /// The complete record, or every field that is still unset.
    pub fn record(&self) -> (result: Result<AnnounceRecord, AnnounceBuildError>)
        ensures
            self@.complete() ==> result == Ok::<AnnounceRecord, AnnounceBuildError>(
                self@.record(),
            ),
            !self@.complete() ==> (result matches Err(AnnounceBuildError::MissingFields(names))
                && names@ == self@.missing()),
    {
        let mut names: Vec<AnnounceField> = Vec::new();
        note_unset(&mut names, self.connection_id.is_none(), AnnounceField::ConnectionId);
        note_unset(&mut names, self.action.is_none(), AnnounceField::Action);
        note_unset(&mut names, self.transaction_id.is_none(), AnnounceField::TransactionId);
        note_unset(&mut names, self.info_hash.is_none(), AnnounceField::InfoHash);
        note_unset(&mut names, self.peer_id.is_none(), AnnounceField::PeerId);
        note_unset(&mut names, self.downloaded.is_none(), AnnounceField::Downloaded);
        note_unset(&mut names, self.left.is_none(), AnnounceField::Left);
        note_unset(&mut names, self.uploaded.is_none(), AnnounceField::Uploaded);
        note_unset(&mut names, self.event.is_none(), AnnounceField::Event);
        note_unset(&mut names, self.ip_address.is_none(), AnnounceField::IpAddress);
        note_unset(&mut names, self.key.is_none(), AnnounceField::Key);
        note_unset(&mut names, self.num_want.is_none(), AnnounceField::NumWant);
        note_unset(&mut names, self.port.is_none(), AnnounceField::Port);
        assert(names@ =~= self@.missing());
        match (
            self.connection_id,
            self.action,
            self.transaction_id,
            self.info_hash,
            self.peer_id,
            self.downloaded,
            self.left,
        ) {
            (
                Some(connection_id),
                Some(action),
                Some(transaction_id),
                Some(info_hash),
                Some(peer_id),
                Some(downloaded),
                Some(left),
            ) => match (
                self.uploaded,
                self.event,
                self.ip_address,
                self.key,
                self.num_want,
                self.port,
            ) {
                (Some(uploaded), Some(event), Some(ip_address), Some(key), Some(num_want), Some(port)) => {
                    Ok(
                        AnnounceRecord {
                            connection_id,
                            action,
                            transaction_id,
                            info_hash,
                            peer_id,
                            downloaded,
                            left,
                            uploaded,
                            event,
                            ip_address,
                            key,
                            num_want,
                            port,
                        },
                    )
                },
                _ => Err(AnnounceBuildError::MissingFields(names)),
            },
            _ => Err(AnnounceBuildError::MissingFields(names)),
        }
    }

    /// The request in a fresh buffer of 98 bytes, or every field that is
    /// still unset. No unset field is given a value.
    pub fn getBytesMut(&self) -> (result: Result<BytesMut, AnnounceBuildError>)
        ensures
            self@.complete() ==> (result matches Ok(buf) && buffer_bytes(buf)
                == self@.record().wire() && buffer_bytes(buf).len() == ANNOUNCE_LEN),
            !self@.complete() ==> (result matches Err(AnnounceBuildError::MissingFields(names))
                && names@ == self@.missing()),
    {
        match self.record() {
            Ok(record) => Ok(record.write()),
            Err(error) => Err(error),
        }
    }

    /// The request as an array of exactly 98 bytes, or every field that is
    /// still unset.
    pub fn serialize(&self) -> (result: Result<[u8; 98], AnnounceBuildError>)
        ensures
            self@.complete() ==> (result matches Ok(packet) && packet@
                == self@.record().wire()),
            !self@.complete() ==> (result matches Err(AnnounceBuildError::MissingFields(names))
                && names@ == self@.missing()),
    {
        match self.record() {
            Ok(record) => Ok(record.serialize()),
            Err(error) => Err(error),
        }
    }

    pub fn set_connection_id(&mut self, v: i64)
        ensures
            final(self)@ == (AnnounceFields { connection_id: Some(v), ..old(self)@ }),
    {
        self.connection_id = Some(v);
    }

    pub fn set_transaction_id(&mut self, v: i32)
        ensures
            final(self)@ == (AnnounceFields { transaction_id: Some(v), ..old(self)@ }),
    {
        self.transaction_id = Some(v);
    }

    pub fn set_info_hash(&mut self, v: [u8; 20])
        ensures
            final(self)@ == (AnnounceFields { info_hash: Some(v), ..old(self)@ }),
    {
        self.info_hash = Some(v);
    }

    pub fn set_peer_id(&mut self, v: [u8; 20])
        ensures
            final(self)@ == (AnnounceFields { peer_id: Some(v), ..old(self)@ }),
    {
        self.peer_id = Some(v);
    }

    pub fn set_downloaded(&mut self, v: i64)
        ensures
            final(self)@ == (AnnounceFields { downloaded: Some(v), ..old(self)@ }),
    {
        self.downloaded = Some(v);
    }

    pub fn set_uploaded(&mut self, v: i64)
        ensures
            final(self)@ == (AnnounceFields { uploaded: Some(v), ..old(self)@ }),
    {
        self.uploaded = Some(v);
    }

    pub fn set_left(&mut self, v: i64)
        ensures
            final(self)@ == (AnnounceFields { left: Some(v), ..old(self)@ }),
    {
        self.left = Some(v);
    }

    pub fn set_event(&mut self, v: AnnounceEvent)
        ensures
            final(self)@ == (AnnounceFields { event: Some(v.spec_code()), ..old(self)@ }),
    {
        self.event = Some(v.code());
    }

    pub fn set_port(&mut self, v: i16)
        ensures
            final(self)@ == (AnnounceFields { port: Some(v), ..old(self)@ }),
    {
        self.port = Some(v);
    }

    pub fn set_key(&mut self, v: i32)
        ensures
            final(self)@ == (AnnounceFields { key: Some(v), ..old(self)@ }),
    {
        self.key = Some(v);
    }
}

/// The layout of a request: it is 98 bytes long, the action stands at
/// offsets 8 to 11 and the info hash at offsets 16 to 35. The action of an
/// announce reads `00 00 00 01` there.
pub proof fn lemma_wire_layout(record: AnnounceRecord)
    ensures
        record.wire().len() == 98,
        record.wire().subrange(0, 8) == be_bytes(record.connection_id as int, 8),
        record.wire().subrange(8, 12) == be_bytes(record.action as int, 4),
        record.action == 1 ==> record.wire().subrange(8, 12) == seq![0u8, 0u8, 0u8, 1u8],
        record.wire().subrange(12, 16) == be_bytes(record.transaction_id as int, 4),
        record.wire().subrange(16, 36) == record.info_hash@,
        record.wire().subrange(36, 56) == record.peer_id@,
        record.wire().subrange(56, 64) == be_bytes(record.downloaded as int, 8),
        record.wire().subrange(64, 72) == be_bytes(record.left as int, 8),
        record.wire().subrange(72, 80) == be_bytes(record.uploaded as int, 8),
        record.wire().subrange(80, 84) == be_bytes(record.event as int, 4),
        record.wire().subrange(84, 88) == be_bytes(record.ip_address as int, 4),
        record.wire().subrange(88, 92) == be_bytes(record.key as int, 4),
        record.wire().subrange(92, 96) == be_bytes(record.num_want as int, 4),
        record.wire().subrange(96, 98) == be_bytes(record.port as int, 2),
{
    lemma_be_bytes_len(record.connection_id as int, 8);
    lemma_be_bytes_len(record.action as int, 4);
    lemma_be_bytes_len(record.transaction_id as int, 4);
    lemma_be_bytes_len(record.downloaded as int, 8);
    lemma_be_bytes_len(record.left as int, 8);
    lemma_be_bytes_len(record.uploaded as int, 8);
    lemma_be_bytes_len(record.event as int, 4);
    lemma_be_bytes_len(record.ip_address as int, 4);
    lemma_be_bytes_len(record.key as int, 4);
    lemma_be_bytes_len(record.num_want as int, 4);
    lemma_be_bytes_len(record.port as int, 2);
    let w = record.wire();
    assert(w.subrange(0, 8) =~= be_bytes(record.connection_id as int, 8));
    assert(w.subrange(8, 12) =~= be_bytes(record.action as int, 4));
    assert(w.subrange(12, 16) =~= be_bytes(record.transaction_id as int, 4));
    assert(w.subrange(16, 36) =~= record.info_hash@);
    assert(w.subrange(36, 56) =~= record.peer_id@);
    assert(w.subrange(56, 64) =~= be_bytes(record.downloaded as int, 8));
    assert(w.subrange(64, 72) =~= be_bytes(record.left as int, 8));
    assert(w.subrange(72, 80) =~= be_bytes(record.uploaded as int, 8));
    assert(w.subrange(80, 84) =~= be_bytes(record.event as int, 4));
    assert(w.subrange(84, 88) =~= be_bytes(record.ip_address as int, 4));
    assert(w.subrange(88, 92) =~= be_bytes(record.key as int, 4));
    assert(w.subrange(92, 96) =~= be_bytes(record.num_want as int, 4));
    assert(w.subrange(96, 98) =~= be_bytes(record.port as int, 2));
    assert(be_bytes(1, 4) =~= seq![0u8, 0u8, 0u8, 1u8]) by {
        reveal_with_fuel(be_bytes, 5);
    }
}

} // verus!
