//! The on-air link frame.
//!
//! One frame is one PHY transmission. Wire layout, big-endian:
//!
//! ```text
//! off field        size  notes
//! 0   MAGIC 53 4C   2
//! 2   VER           1    = 2
//! 3   TYPE          1
//! 4   FLAGS         1    bit 0 END_OF_OVER, bit 1 END_OF_MSG, bits 2-4 rx_rung
//! 5   CONN_ID       2    session id, the routing key
//! 7   SEQ           4
//! 11  ACK_THROUGH   4    cumulative in-order high-water acknowledged
//! 15  SACK          4    bit i: ACK_THROUGH + 1 + i received out of order
//! 19  MODE          1    ladder rung this frame was sent under
//! 20  LEN           2    length of the payload region
//! 22  PAYLOAD       N
//! 22+N CRC32        4    over everything before it
//! ```
//!
//! Callsigns ride only on the ID-bearing types, where the payload region is a
//! [`StationId`]; every other frame is addressed by its `CONN_ID` alone. A buffer is
//! rejected unless its length is exact and its CRC verifies, before any field of it
//! is trusted.
pub use crate::callsign::Callsign;
pub use crate::error::FrameError;
use vstd::prelude::*;

verus! {

/// Link protocol version that this library speaks.
pub const VERSION: u8 = 2;

/// The two bytes with which every frame starts.
pub const MAGIC: [u8; 2] = [0x53, 0x4C];

/// Fixed bytes before the payload region.
pub const HEADER_LEN: usize = 22;

/// Length of the CRC trailer.
pub const CRC_LEN: usize = 4;

/// Fixed bytes of every frame.
pub const LINK_OVERHEAD: usize = HEADER_LEN + CRC_LEN;

/// Largest payload of one frame: a frame of the largest size that the PHY carries,
/// less the overhead.
pub const LINK_MTU: usize = 65535 - LINK_OVERHEAD;

/// Length of the station-ID block: two callsign fields.
pub const STATION_ID_LEN: usize = 2 * crate::callsign::CALLSIGN_WIRE_LEN;

/// The session id that no live session has.
pub const CONN_ID_RESERVED: u16 = 0;

/// Flag: the frame is the last of the sender's over, and receiving it passes the
/// floor.
pub const FLAG_END_OF_OVER: u8 = 0x01;

/// Flag: the frame is the last fragment of a host message.
pub const FLAG_END_OF_MSG: u8 = 0x02;

/// Flag bits that hold the rung recommended to the peer.
pub const FLAG_RX_RUNG_MASK: u8 = 0x1C;

/// Position of the recommended rung among the flags.
pub const FLAG_RX_RUNG_SHIFT: u8 = 2;

/// Link frame type.
#[derive(Debug, Clone, Copy, PartialEq, Eq, Structural)]
pub enum FrameType {
    /// Payload-bearing data frame.
    Data,
    /// Cumulative and selective acknowledgement.
    Ack,
    /// Explicit negative acknowledgement.
    Nak,
    /// Connection request. ID-bearing.
    Conn,
    /// Connection acceptance. ID-bearing.
    ConnAck,
    /// Disconnect request. ID-bearing.
    Disc,
    /// Disconnect acknowledgement. ID-bearing.
    DiscAck,
    /// Idle keepalive.
    Keepalive,
    /// Periodic station identification. ID-bearing.
    Id,
}

impl FrameType {
    /// The type's byte on the wire.
    pub open spec fn code(self) -> u8 {
        match self {
            FrameType::Data => 1,
            FrameType::Ack => 2,
            FrameType::Nak => 3,
            FrameType::Conn => 4,
            FrameType::ConnAck => 5,
            FrameType::Disc => 6,
            FrameType::DiscAck => 7,
            FrameType::Keepalive => 8,
            FrameType::Id => 9,
        }
    }

    /// The type with a given byte on the wire.
    pub open spec fn with_code(b: u8) -> Option<FrameType> {
        match b {
            1 => Some(FrameType::Data),
            2 => Some(FrameType::Ack),
            3 => Some(FrameType::Nak),
            4 => Some(FrameType::Conn),
            5 => Some(FrameType::ConnAck),
            6 => Some(FrameType::Disc),
            7 => Some(FrameType::DiscAck),
            8 => Some(FrameType::Keepalive),
            9 => Some(FrameType::Id),
            _ => None,
        }
    }

    /// Whether frames of the type carry callsigns.
    pub open spec fn bears_id(self) -> bool {
        match self {
            FrameType::Conn => true,
            FrameType::ConnAck => true,
            FrameType::Disc => true,
            FrameType::DiscAck => true,
            FrameType::Id => true,
            _ => false,
        }
    }

    /// The type's byte on the wire.
    pub fn to_u8(self) -> (b: u8)
        ensures
            b == self.code(),
    {
        match self {
            FrameType::Data => 1,
            FrameType::Ack => 2,
            FrameType::Nak => 3,
            FrameType::Conn => 4,
            FrameType::ConnAck => 5,
            FrameType::Disc => 6,
            FrameType::DiscAck => 7,
            FrameType::Keepalive => 8,
            FrameType::Id => 9,
        }
    }

    /// The type with a given byte on the wire.
    pub fn from_u8(b: u8) -> (r: Result<Self, FrameError>)
        ensures
            match r {
                Ok(t) => FrameType::with_code(b) == Some(t),
                Err(e) => FrameType::with_code(b) is None && e == FrameError::UnknownType(b),
            },
    {
        match b {
            1 => Ok(FrameType::Data),
            2 => Ok(FrameType::Ack),
            3 => Ok(FrameType::Nak),
            4 => Ok(FrameType::Conn),
            5 => Ok(FrameType::ConnAck),
            6 => Ok(FrameType::Disc),
            7 => Ok(FrameType::DiscAck),
            8 => Ok(FrameType::Keepalive),
            9 => Ok(FrameType::Id),
            other => Err(FrameError::UnknownType(other)),
        }
    }

    /// Whether frames of the type carry a [`StationId`]: those that begin or end a
    /// communication, and the periodic identification.
    pub fn is_id_bearing(self) -> (b: bool)
        ensures
            b == self.bears_id(),
    {
        matches!(
            self,
            FrameType::Conn
            | FrameType::ConnAck
            | FrameType::Disc
            | FrameType::DiscAck
            | FrameType::Id
        )
    }
}

/// The two callsigns of an ID-bearing frame.
#[derive(Debug, PartialEq, Eq)]
pub struct StationId {
    /// Transmitting station.
    pub src: Callsign,
    /// Station that the frame is addressed to.
    pub dst: Callsign,
}

/// The texts of the two callsigns.
#[verifier::ext_equal]
pub struct StationText {
    /// Transmitting station.
    pub src: Seq<char>,
    /// Station that the frame is addressed to.
    pub dst: Seq<char>,
}

impl View for StationId {
    type V = StationText;

    open spec fn view(&self) -> StationText {
        StationText { src: self.src@, dst: self.dst@ }
    }
}

impl StationText {
    /// Both texts are callsigns.
    pub open spec fn valid(self) -> bool {
        crate::callsign::is_callsign(self.src) && crate::callsign::is_callsign(self.dst)
    }

    /// The station-ID block on the wire.
    pub open spec fn wire(self) -> Seq<u8> {
        crate::callsign::callsign_wire(self.src) + crate::callsign::callsign_wire(self.dst)
    }
}

impl StationId {
    /// Construct a station-ID block from source and destination callsigns.
    pub fn new(src: Callsign, dst: Callsign) -> (s: Self)
        ensures
            s@ == (StationText { src: src@, dst: dst@ }),
    {
        StationId { src, dst }
    }
}

impl Clone for StationId {
    fn clone(&self) -> (s: Self)
        ensures
            s@ == self@,
    {
        StationId { src: self.src.clone(), dst: self.dst.clone() }
    }
}

/// What a [`LinkFrame`] holds.
#[verifier::ext_equal]
pub struct FrameModel {
    /// Frame type.
    pub frame_type: FrameType,
    /// Control flags.
    pub flags: u8,
    /// Session id.
    pub conn_id: u16,
    /// Data sequence number, or control context.
    pub seq: u32,
    /// Cumulative high-water acknowledged.
    pub ack_through: u32,
    /// Selective-acknowledgement bitmap.
    pub sack: u32,
    /// Ladder rung that the frame is sent under.
    pub mode: u8,
    /// Station callsigns.
    pub id: Option<StationText>,
    /// Payload bytes.
    pub payload: Seq<u8>,
}

/// Two bytes of a number, most significant first.
pub open spec fn be16(n: u16) -> Seq<u8> {
    seq![(n / 256) as u8, (n % 256) as u8]
}

/// Four bytes of a number, most significant first.
pub open spec fn be32(n: u32) -> Seq<u8> {
    seq![
        (n / 16777216) as u8,
        ((n / 65536) % 256) as u8,
        ((n / 256) % 256) as u8,
        (n % 256) as u8,
    ]
}

/// The number in two bytes, most significant first.
pub open spec fn from_be16(b: Seq<u8>, at: int) -> u16 {
    (b[at] * 256 + b[at + 1]) as u16
}

/// The number in four bytes, most significant first.
pub open spec fn from_be32(b: Seq<u8>, at: int) -> u32 {
    (b[at] * 16777216 + b[at + 1] * 65536 + b[at + 2] * 256 + b[at + 3]) as u32
}

/// `crc::Crc::<u32>::new(&crc::CRC_32_ISO_HDLC).checksum`: the CRC-32 with the parameters
/// that `crc` documents for this algorithm, namely 32 bits, the reflected polynomial
/// 0xEDB88320, a register that starts as all ones, input and output reflected, and a
/// complement at the end. That is the same function as
/// [`crc32_ieee`](crate::narrow_fsk::crc32_ieee) is proved to compute.
#[verifier::external_body]
fn checksum(data: &[u8]) -> (c: u32)
    ensures
        c == crate::checksum::crc32(data@),
{
    crc::Crc::<u32>::new(&crc::CRC_32_ISO_HDLC).checksum(data)
}

impl FrameModel {
    /// A frame of the given type and session, with everything else clear.
    pub open spec fn blank(frame_type: FrameType, conn_id: u16, seq: u32) -> Self {
        FrameModel {
            frame_type,
            flags: 0,
            conn_id,
            seq,
            ack_through: 0,
            sack: 0,
            mode: 0,
            id: None,
            payload: Seq::empty(),
        }
    }

    /// Whether the frame ends the sender's over.
    pub open spec fn ends_over(self) -> bool {
        self.flags & FLAG_END_OF_OVER != 0
    }

    /// Whether the frame ends a host message.
    pub open spec fn ends_msg(self) -> bool {
        self.flags & FLAG_END_OF_MSG != 0
    }

    /// The rung recommended to the peer.
    pub open spec fn advised_rung(self) -> u8 {
        (self.flags & FLAG_RX_RUNG_MASK) >> FLAG_RX_RUNG_SHIFT
    }

    /// The frame as the last of its over.
    pub open spec fn ending_over(self) -> Self {
        FrameModel { flags: self.flags | FLAG_END_OF_OVER, ..self }
    }

    /// The frame as the last fragment of its message.
    pub open spec fn ending_msg(self) -> Self {
        FrameModel { flags: self.flags | FLAG_END_OF_MSG, ..self }
    }

    /// The frame stamped with its rung.
    pub open spec fn at_mode(self, mode: u8) -> Self {
        FrameModel { mode, ..self }
    }

    /// The frame stamped with the rung recommended to the peer.
    pub open spec fn advising(self, rung: u8) -> Self {
        FrameModel {
            flags: (self.flags & !FLAG_RX_RUNG_MASK) | ((rung << FLAG_RX_RUNG_SHIFT)
                & FLAG_RX_RUNG_MASK),
            ..self
        }
    }

    /// The callsigns, where there are any, are valid.
    pub open spec fn valid(self) -> bool {
        self.id matches Some(id) ==> id.valid()
    }

    /// The payload region on the wire.
    pub open spec fn region(self) -> Seq<u8> {
        match self.id {
            Some(id) => id.wire(),
            None => self.payload,
        }
    }

    /// The fixed bytes before the payload region.
    pub open spec fn header(self) -> Seq<u8> {
        seq![MAGIC[0], MAGIC[1], VERSION, self.frame_type.code(), self.flags] + be16(self.conn_id)
            + be32(self.seq) + be32(self.ack_through) + be32(self.sack) + seq![self.mode] + be16(
            self.region().len() as u16,
        )
    }

    /// The whole frame on the wire.
    pub open spec fn wire(self) -> Seq<u8> {
        let body = self.header() + self.region();
        body + be32(crate::checksum::crc32(body))
    }

    /// The wire bytes of the frame, or why it has none.
    pub open spec fn encoded(self) -> Result<Seq<u8>, crate::error::FrameFault> {
        if self.frame_type.bears_id() != self.id is Some {
            Err(
                crate::error::FrameFault::IdPresenceMismatch {
                    frame_type: self.frame_type.code(),
                    has_id: self.id is Some,
                },
            )
        } else if self.id is Some && self.payload.len() > 0 {
            Err(crate::error::FrameFault::IdFrameHasPayload)
        } else if self.region().len() > LINK_MTU {
            Err(
                crate::error::FrameFault::PayloadTooLarge {
                    len: self.region().len(),
                    max: LINK_MTU as nat,
                },
            )
        } else {
            Ok(self.wire())
        }
    }
}

/// The frame in some wire bytes, or why there is none.
pub open spec fn decoded(b: Seq<u8>) -> Result<FrameModel, crate::error::FrameFault> {
    let len = from_be16(b, 20) as int;
    if b.len() < LINK_OVERHEAD {
        Err(crate::error::FrameFault::TooShort { got: b.len() })
    } else if b[0] != MAGIC[0] || b[1] != MAGIC[1] {
        Err(crate::error::FrameFault::BadMagic)
    } else if b[2] != VERSION {
        Err(crate::error::FrameFault::BadVersion { got: b[2] })
    } else if FrameType::with_code(b[3]) is None {
        Err(crate::error::FrameFault::UnknownType(b[3]))
    } else if b.len() != LINK_OVERHEAD + len {
        Err(
            crate::error::FrameFault::LengthMismatch {
                expected: (LINK_OVERHEAD + len) as nat,
                got: b.len(),
            },
        )
    } else if crate::checksum::crc32(b.take(HEADER_LEN + len)) != from_be32(b, HEADER_LEN + len) {
        Err(crate::error::FrameFault::BadCrc)
    } else {
        let bare = FrameModel {
            frame_type: FrameType::with_code(b[3]).unwrap(),
            flags: b[4],
            conn_id: from_be16(b, 5),
            seq: from_be32(b, 7),
            ack_through: from_be32(b, 11),
            sack: from_be32(b, 15),
            mode: b[19],
            id: None,
            payload: Seq::empty(),
        };
        let region = b.subrange(HEADER_LEN as int, HEADER_LEN + len);
        if !bare.frame_type.bears_id() {
            Ok(FrameModel { payload: region, ..bare })
        } else if len != STATION_ID_LEN {
            Err(crate::error::FrameFault::BadStationIdLen { got: len as nat })
        } else {
            match crate::callsign::parse_callsign(region.subrange(0, 10)) {
                Err(text) => Err(crate::error::FrameFault::BadCallsign(text)),
                Ok(src) => match crate::callsign::parse_callsign(region.subrange(10, 20)) {
                    Err(text) => Err(crate::error::FrameFault::BadCallsign(text)),
                    Ok(dst) => Ok(FrameModel { id: Some(StationText { src, dst }), ..bare }),
                },
            }
        }
    }
}

/// A parsed or serializable link frame.
#[derive(Debug, PartialEq, Eq)]
pub struct LinkFrame {
    /// Frame type.
    pub frame_type: FrameType,
    /// Control flags.
    pub flags: u8,
    /// Session id, the routing key.
    pub conn_id: u16,
    /// Data sequence number, or control context sequence.
    pub seq: u32,
    /// Cumulative in-order high-water acknowledged.
    pub ack_through: u32,
    /// Selective-acknowledgement bitmap relative to `ack_through`.
    pub sack: u32,
    /// Ladder rung that this frame is transmitted under.
    pub mode: u8,
    /// Station callsigns, present iff the type is ID-bearing.
    pub id: Option<StationId>,
    /// Host data; empty for control and ID-bearing frames.
    pub payload: Vec<u8>,
}

impl View for LinkFrame {
    type V = FrameModel;

    open spec fn view(&self) -> FrameModel {
        FrameModel {
            frame_type: self.frame_type,
            flags: self.flags,
            conn_id: self.conn_id,
            seq: self.seq,
            ack_through: self.ack_through,
            sack: self.sack,
            mode: self.mode,
            id: match self.id {
                Some(id) => Some(id@),
                None => None,
            },
            payload: self.payload@,
        }
    }
}

impl LinkFrame {
    /// Build a data frame with its flags clear.
    pub fn data(conn_id: u16, seq: u32, payload: Vec<u8>) -> (f: Self)
        ensures
            f@ == (FrameModel {
                payload: payload@,
                ..FrameModel::blank(FrameType::Data, conn_id, seq)
            }),
    {
        LinkFrame {
            frame_type: FrameType::Data,
            flags: 0,
            conn_id,
            seq,
            ack_through: 0,
            sack: 0,
            mode: 0,
            id: None,
            payload,
        }
    }

    /// Build an acknowledgement.
    pub fn ack(conn_id: u16, ack_through: u32, sack: u32) -> (f: Self)
        ensures
            f@ == (FrameModel {
                ack_through,
                sack,
                ..FrameModel::blank(FrameType::Ack, conn_id, 0)
            }),
    {
        LinkFrame {
            frame_type: FrameType::Ack,
            flags: 0,
            conn_id,
            seq: 0,
            ack_through,
            sack,
            mode: 0,
            id: None,
            payload: Vec::new(),
        }
    }

    /// Build a bare control frame, one that carries no callsigns.
    pub fn control(frame_type: FrameType, conn_id: u16, seq: u32) -> (f: Self)
        ensures
            f@ == FrameModel::blank(frame_type, conn_id, seq),
    {
        LinkFrame {
            frame_type,
            flags: 0,
            conn_id,
            seq,
            ack_through: 0,
            sack: 0,
            mode: 0,
            id: None,
            payload: Vec::new(),
        }
    }

    /// Build an ID-bearing control frame.
    pub fn id_control(frame_type: FrameType, station: StationId, conn_id: u16, seq: u32) -> (f:
        Self)
        ensures
            f@ == (FrameModel {
                id: Some(station@),
                ..FrameModel::blank(frame_type, conn_id, seq)
            }),
    {
        LinkFrame {
            frame_type,
            flags: 0,
            conn_id,
            seq,
            ack_through: 0,
            sack: 0,
            mode: 0,
            id: Some(station),
            payload: Vec::new(),
        }
    }

    /// Build a periodic identification frame.
    pub fn id_frame(station: StationId, conn_id: u16) -> (f: Self)
        ensures
            f@ == (FrameModel {
                id: Some(station@),
                ..FrameModel::blank(FrameType::Id, conn_id, 0)
            }),
    {
        LinkFrame::id_control(FrameType::Id, station, conn_id, 0)
    }

    /// Mark this as the last frame of the sender's over.
    pub fn end_of_over(self) -> (f: Self)
        ensures
            f@ == self@.ending_over(),
    {
        let mut f = self;
        f.flags = f.flags | FLAG_END_OF_OVER;
        f
    }

    /// Whether this frame ends the sender's over.
    pub fn is_end_of_over(&self) -> (b: bool)
        ensures
            b == self@.ends_over(),
    {
        self.flags & FLAG_END_OF_OVER != 0
    }

    /// Mark this as the last fragment of a host message.
    pub fn end_of_msg(self) -> (f: Self)
        ensures
            f@ == self@.ending_msg(),
    {
        let mut f = self;
        f.flags = f.flags | FLAG_END_OF_MSG;
        f
    }

    /// Whether this frame is the last fragment of a host message.
    pub fn is_end_of_msg(&self) -> (b: bool)
        ensures
            b == self@.ends_msg(),
    {
        self.flags & FLAG_END_OF_MSG != 0
    }

    /// Stamp the ladder rung that this frame is sent under.
    pub fn with_mode(self, mode: u8) -> (f: Self)
        ensures
            f@ == self@.at_mode(mode),
    {
        let mut f = self;
        f.mode = mode;
        f
    }

    /// Stamp the rung that this station recommends to the peer, cut to three bits. The
    /// other flags stay as they are.
    pub fn with_rx_rung(self, rung: u8) -> (f: Self)
        ensures
            f@ == self@.advising(rung),
    {
        let mut f = self;
        f.flags = (f.flags & !FLAG_RX_RUNG_MASK) | ((rung << FLAG_RX_RUNG_SHIFT)
            & FLAG_RX_RUNG_MASK);
        f
    }

    /// The rung that the sender recommends.
    pub fn rx_rung(&self) -> (r: u8)
        ensures
            r == self@.advised_rung(),
    {
        (self.flags & FLAG_RX_RUNG_MASK) >> FLAG_RX_RUNG_SHIFT
    }

    /// Serialize to wire bytes. A frame carries callsigns iff its type is ID-bearing,
    /// and never both callsigns and host payload.
    pub fn encode(&self) -> (r: Result<Vec<u8>, FrameError>)
        ensures
            match (r, self@.encoded()) {
                (Ok(b), Ok(wire)) => b@ == wire,
                (Err(e), Err(fault)) => e@ == fault,
                _ => false,
            },
    {
        let id_bearing = self.frame_type.is_id_bearing();
        let has_id = self.id.is_some();
        if id_bearing != has_id {
            return Err(
                FrameError::IdPresenceMismatch { frame_type: self.frame_type.to_u8(), has_id },
            );
        }
        let mut region: Vec<u8> = Vec::new();
        match &self.id {
            Some(id) => {
                if self.payload.len() != 0 {
                    return Err(FrameError::IdFrameHasPayload);
                }
                let src = id.src.to_wire();
                let dst = id.dst.to_wire();
                region.extend_from_slice(src.as_slice());
                region.extend_from_slice(dst.as_slice());
                assert(region@ =~= id@.wire());
            },
            None => {
                region.extend_from_slice(self.payload.as_slice());
                assert(region@ =~= self.payload@);
            },
        }
        assert(region@ == self@.region());
        if region.len() > LINK_MTU {
            return Err(FrameError::PayloadTooLarge { len: region.len(), max: LINK_MTU });
        }
        let mut b: Vec<u8> = Vec::new();
        b.push(MAGIC[0]);
        b.push(MAGIC[1]);
        b.push(VERSION);
        b.push(self.frame_type.to_u8());
        b.push(self.flags);
        push_be16(&mut b, self.conn_id);
        push_be32(&mut b, self.seq);
        push_be32(&mut b, self.ack_through);
        push_be32(&mut b, self.sack);
        b.push(self.mode);
        push_be16(&mut b, region.len() as u16);
        assert(b@ =~= self@.header());
        b.extend_from_slice(region.as_slice());
        assert(b@ =~= self@.header() + self@.region());
        let crc: u32 = checksum(b.as_slice());
        push_be32(&mut b, crc);
        Ok(b)
    }

    /// Parse wire bytes: exact length first, then the CRC, then the fields. The region
    /// of an ID-bearing frame must be a station-ID block.
    pub fn decode(buf: &[u8]) -> (r: Result<Self, FrameError>)
        ensures
            match (r, decoded(buf@)) {
                (Ok(f), Ok(m)) => f@ == m,
                (Err(e), Err(fault)) => e@ == fault,
                _ => false,
            },
    {
        if buf.len() < LINK_OVERHEAD {
            return Err(FrameError::TooShort { got: buf.len() });
        }
        if buf[0] != MAGIC[0] || buf[1] != MAGIC[1] {
            return Err(FrameError::BadMagic);
        }
        if buf[2] != VERSION {
            return Err(FrameError::BadVersion { got: buf[2] });
        }
        let frame_type = match FrameType::from_u8(buf[3]) {
            Ok(t) => t,
            Err(e) => return Err(e),
        };
        let len: usize = read_be16(buf, 20) as usize;
        let expected: usize = LINK_OVERHEAD + len;
        if buf.len() != expected {
            return Err(FrameError::LengthMismatch { expected, got: buf.len() });
        }
        let body = vstd::slice::slice_subrange(buf, 0, HEADER_LEN + len);
        assert(body@ =~= buf@.take(HEADER_LEN + len));
        if checksum(body) != read_be32(buf, HEADER_LEN + len) {
            return Err(FrameError::BadCrc);
        }
        let region = vstd::slice::slice_subrange(buf, HEADER_LEN, HEADER_LEN + len);
        let mut id: Option<StationId> = None;
        let mut payload: Vec<u8> = Vec::new();
        if frame_type.is_id_bearing() {
            if len != STATION_ID_LEN {
                return Err(FrameError::BadStationIdLen { got: len });
            }
            let src = match Callsign::from_wire(vstd::slice::slice_subrange(region, 0, 10)) {
                Ok(c) => c,
                Err(e) => return Err(e),
            };
            let dst = match Callsign::from_wire(vstd::slice::slice_subrange(region, 10, 20)) {
                Ok(c) => c,
                Err(e) => return Err(e),
            };
            id = Some(StationId { src, dst });
        } else {
            payload.extend_from_slice(region);
            assert(payload@ =~= region@);
        }
        Ok(
            LinkFrame {
                frame_type,
                flags: buf[4],
                conn_id: read_be16(buf, 5),
                seq: read_be32(buf, 7),
                ack_through: read_be32(buf, 11),
                sack: read_be32(buf, 15),
                mode: buf[19],
                id,
                payload,
            },
        )
    }
}

impl Clone for LinkFrame {
    fn clone(&self) -> (f: Self)
        ensures
            f@ == self@,
    {
        let id = match &self.id {
            Some(id) => Some(id.clone()),
            None => None,
        };
        let payload = self.payload.clone();
        assert(payload@ =~= self.payload@);
        LinkFrame {
            frame_type: self.frame_type,
            flags: self.flags,
            conn_id: self.conn_id,
            seq: self.seq,
            ack_through: self.ack_through,
            sack: self.sack,
            mode: self.mode,
            id,
            payload,
        }
    }
}

/// Append a number, most significant byte first.
pub fn push_be16(b: &mut Vec<u8>, n: u16)
    ensures
        final(b)@ == old(b)@ + be16(n),
{
    b.push((n / 256) as u8);
    b.push((n % 256) as u8);
    assert(b@ =~= old(b)@ + be16(n));
}

/// Append a number, most significant byte first.
pub fn push_be32(b: &mut Vec<u8>, n: u32)
    ensures
        final(b)@ == old(b)@ + be32(n),
{
    b.push((n / 16777216) as u8);
    b.push(((n / 65536) % 256) as u8);
    b.push(((n / 256) % 256) as u8);
    b.push((n % 256) as u8);
    assert(b@ =~= old(b)@ + be32(n));
}

/// Read two bytes, most significant first.
pub fn read_be16(b: &[u8], at: usize) -> (n: u16)
    requires
        at + 2 <= b@.len(),
    ensures
        n == from_be16(b@, at as int),
{
    b[at] as u16 * 256 + b[at + 1] as u16
}

/// Read four bytes, most significant first.
pub fn read_be32(b: &[u8], at: usize) -> (n: u32)
    requires
        at + 4 <= b@.len(),
    ensures
        n == from_be32(b@, at as int),
{
    b[at] as u32 * 16777216 + b[at + 1] as u32 * 65536 + b[at + 2] as u32 * 256 + b[at + 3] as u32
}

/// Reading back what was written gives the number.
pub proof fn lemma_be16(n: u16)
    ensures
        from_be16(be16(n), 0) == n,
{
}

/// Reading back what was written gives the number.
pub proof fn lemma_be32(n: u32)
    ensures
        from_be32(be32(n), 0) == n,
{
}

/// Writing back what was read gives the bytes.
proof fn lemma_from_be16(b: Seq<u8>, at: int)
    requires
        0 <= at,
        at + 2 <= b.len(),
    ensures
        be16(from_be16(b, at)) == b.subrange(at, at + 2),
{
    assert(be16(from_be16(b, at)) =~= b.subrange(at, at + 2));
}

/// The four bytes of a number, most significant first.
proof fn lemma_bytes_of_number(a: int, b: int, c: int, d: int, n: int)
    requires
        0 <= a < 256,
        0 <= b < 256,
        0 <= c < 256,
        0 <= d < 256,
        n == a * 16777216 + b * 65536 + c * 256 + d,
    ensures
        n / 16777216 == a,
        (n / 65536) % 256 == b,
        (n / 256) % 256 == c,
        n % 256 == d,
{
    vstd::arithmetic::div_mod::lemma_fundamental_div_mod_converse(n, 16777216, a, b * 65536 + c * 256 + d);
    vstd::arithmetic::div_mod::lemma_fundamental_div_mod_converse(n, 65536, a * 256 + b, c * 256 + d);
    vstd::arithmetic::div_mod::lemma_fundamental_div_mod_converse(n, 256, a * 65536 + b * 256 + c, d);
    vstd::arithmetic::div_mod::lemma_fundamental_div_mod_converse(a * 256 + b, 256, a, b);
    vstd::arithmetic::div_mod::lemma_fundamental_div_mod_converse(a * 65536 + b * 256 + c, 256, a * 256 + b, c);
}

/// Writing back what was read gives the bytes.
proof fn lemma_from_be32(b: Seq<u8>, at: int)
    requires
        0 <= at,
        at + 4 <= b.len(),
    ensures
        be32(from_be32(b, at)) == b.subrange(at, at + 4),
{
    let (w, x, y, z) = (b[at], b[at + 1], b[at + 2], b[at + 3]);
    let n = from_be32(b, at);
    assert(n == w * 16777216 + x * 65536 + y * 256 + z);
    lemma_bytes_of_number(w as int, x as int, y as int, z as int, n as int);
    assert(be32(n) =~= b.subrange(at, at + 4));
}

/// Where the fields of an encoded frame lie.
proof fn lemma_wire_layout(m: FrameModel)
    requires
        m.region().len() <= LINK_MTU,
    ensures
        m.header().len() == HEADER_LEN,
        m.wire().len() == LINK_OVERHEAD + m.region().len(),
        m.wire()[0] == MAGIC[0],
        m.wire()[1] == MAGIC[1],
        m.wire()[2] == VERSION,
        m.wire()[3] == m.frame_type.code(),
        m.wire()[4] == m.flags,
        m.wire()[19] == m.mode,
        from_be16(m.wire(), 5) == m.conn_id,
        from_be32(m.wire(), 7) == m.seq,
        from_be32(m.wire(), 11) == m.ack_through,
        from_be32(m.wire(), 15) == m.sack,
        from_be16(m.wire(), 20) == m.region().len(),
        m.wire().take(HEADER_LEN + m.region().len()) == m.header() + m.region(),
        m.wire().subrange(HEADER_LEN as int, HEADER_LEN + m.region().len()) == m.region(),
        from_be32(m.wire(), HEADER_LEN + m.region().len()) == crate::checksum::crc32(
            m.header() + m.region(),
        ),
{
    let h = m.header();
    let n = m.region().len();
    lemma_header_bytes(m);
    let body = h + m.region();
    let crc = crate::checksum::crc32(body);
    let w = m.wire();
    assert(w == body + be32(crc));
    assert forall|i: int| 0 <= i < HEADER_LEN implies w[i] == h[i] by {
        assert(w[i] == body[i]);
    }
    lemma_be32(crc);
    assert forall|i: int| 0 <= i < 4 implies w[HEADER_LEN + n + i] == #[trigger] be32(crc)[i] by {}
    assert(be32(crc)[0] == w[HEADER_LEN + n] && be32(crc)[1] == w[HEADER_LEN + n + 1] && be32(
        crc,
    )[2] == w[HEADER_LEN + n + 2] && be32(crc)[3] == w[HEADER_LEN + n + 3]);
    assert(w.take(HEADER_LEN + n) =~= body);
    assert(w.subrange(HEADER_LEN as int, HEADER_LEN + n) =~= m.region());
}

/// The header byte by byte.
proof fn lemma_header_bytes(m: FrameModel)
    requires
        m.region().len() <= LINK_MTU,
    ensures
        m.header().len() == HEADER_LEN,
        m.header()[0] == MAGIC[0],
        m.header()[1] == MAGIC[1],
        m.header()[2] == VERSION,
        m.header()[3] == m.frame_type.code(),
        m.header()[4] == m.flags,
        m.header()[19] == m.mode,
        from_be16(m.header(), 5) == m.conn_id,
        from_be32(m.header(), 7) == m.seq,
        from_be32(m.header(), 11) == m.ack_through,
        from_be32(m.header(), 15) == m.sack,
        from_be16(m.header(), 20) == m.region().len(),
{
    let c = be16(m.conn_id);
    let s = be32(m.seq);
    let a = be32(m.ack_through);
    let k = be32(m.sack);
    let n = be16(m.region().len() as u16);
    lemma_be16(m.conn_id);
    lemma_be32(m.seq);
    lemma_be32(m.ack_through);
    lemma_be32(m.sack);
    lemma_be16(m.region().len() as u16);
    assert(m.header() =~= seq![
        MAGIC[0], MAGIC[1], VERSION, m.frame_type.code(), m.flags,
        c[0], c[1],
        s[0], s[1], s[2], s[3],
        a[0], a[1], a[2], a[3],
        k[0], k[1], k[2], k[3],
        m.mode,
        n[0], n[1],
    ]);
}

/// No corruption of a single byte is ever taken for a frame, be it in the header, in the
/// payload or in the checksum.
pub proof fn corrupted_byte_is_refused(m: FrameModel, i: int, v: u8)
    requires
        m.encoded() is Ok,
        0 <= i < m.wire().len(),
        v != m.wire()[i],
    ensures
        decoded(m.wire().update(i, v)) is Err,
{
    let w = m.wire();
    let b = w.update(i, v);
    let n = m.region().len() as int;
    lemma_wire_layout(m);
    if decoded(b) is Ok {
        let len = from_be16(b, 20) as int;
        assert(len == n);
        assert(i != 20 && i != 21);
        let end = HEADER_LEN + n;
        if i < end {
            assert(b.take(end) =~= w.take(end).update(i, v));
            crate::checksum::one_byte_changes_the_checksum(w.take(end), i, v);
            assert(from_be32(b, end) == from_be32(w, end));
        } else {
            assert(b.take(end) =~= w.take(end));
            assert(from_be32(b, end) != from_be32(w, end));
        }
    }
}

/// Decoding an encoded frame gives it back.
pub proof fn encoded_frame_decodes_to_itself(m: FrameModel)
    requires
        m.valid(),
        m.encoded() is Ok,
    ensures
        decoded(m.wire()) == Ok::<FrameModel, crate::error::FrameFault>(m),
{
    lemma_wire_layout(m);
    match m.id {
        None => {
            assert(decoded(m.wire())->Ok_0 =~= m);
        },
        Some(id) => {
            crate::callsign::callsign_round_trips(id.src);
            crate::callsign::callsign_round_trips(id.dst);
            assert(m.region().subrange(0, 10) =~= crate::callsign::callsign_wire(id.src));
            assert(m.region().subrange(10, 20) =~= crate::callsign::callsign_wire(id.dst));
            assert(m.payload =~= Seq::empty());
            assert(decoded(m.wire())->Ok_0 =~= m);
        },
    }
}

/// A frame that was decoded from a buffer of a size that the PHY carries is well formed
/// and can be sent on as it is; on the data plane it has one encoding only.
pub proof fn decoded_frame_encodes(b: Seq<u8>)
    requires
        decoded(b) is Ok,
        b.len() <= u16::MAX,
    ensures
        decoded(b)->Ok_0.valid(),
        decoded(b)->Ok_0.encoded() is Ok,
        !decoded(b)->Ok_0.frame_type.bears_id() ==> decoded(b)->Ok_0.wire() == b,
{
    let m = decoded(b)->Ok_0;
    let len = from_be16(b, 20) as int;
    if !m.frame_type.bears_id() {
        lemma_from_be16(b, 5);
        lemma_from_be32(b, 7);
        lemma_from_be32(b, 11);
        lemma_from_be32(b, 15);
        lemma_from_be16(b, 20);
        lemma_from_be32(b, HEADER_LEN + len);
        assert(m.region() =~= b.subrange(HEADER_LEN as int, HEADER_LEN + len));
        assert(m.header() =~= b.take(HEADER_LEN as int)) by {
            assert(b.subrange(5, 7)[0] == b[5]);
            assert(b.subrange(7, 11)[0] == b[7]);
            assert(b.subrange(11, 15)[0] == b[11]);
            assert(b.subrange(15, 19)[0] == b[15]);
            assert(b.subrange(20, 22)[0] == b[20]);
            let parts = seq![b[0], b[1], b[2], b[3], b[4]] + b.subrange(5, 7) + b.subrange(7, 11)
                + b.subrange(11, 15) + b.subrange(15, 19) + seq![b[19]] + b.subrange(20, 22);
            assert(m.header() =~= parts);
            assert(parts =~= b.take(HEADER_LEN as int));
        }
        assert(m.header() + m.region() =~= b.take(HEADER_LEN + len));
        assert(m.wire() =~= b);
    }
}

/// The recommended rung reads back as it was stamped, cut to three bits, and stamping
/// it disturbs neither of the end tokens.
pub proof fn advised_rung_packs_beside_the_end_tokens(m: FrameModel, rung: u8)
    ensures
        m.advising(rung).advised_rung() == rung & 7,
        rung < 8 ==> m.advising(rung).advised_rung() == rung,
        m.advising(rung).ends_over() == m.ends_over(),
        m.advising(rung).ends_msg() == m.ends_msg(),
{
    let f = m.flags;
    assert((((f & !0x1Cu8) | ((rung << 2u8) & 0x1Cu8)) & 0x1Cu8) >> 2u8 == rung & 7u8)
        by (bit_vector);
    assert(((f & !0x1Cu8) | ((rung << 2u8) & 0x1Cu8)) & 1u8 == f & 1u8) by (bit_vector);
    assert(((f & !0x1Cu8) | ((rung << 2u8) & 0x1Cu8)) & 2u8 == f & 2u8) by (bit_vector);
    assert(rung < 8u8 ==> rung & 7u8 == rung) by (bit_vector);
}

/// The two end tokens are independent of each other and of the recommended rung.
pub proof fn end_tokens_are_independent(m: FrameModel)
    ensures
        m.ending_over().ends_over(),
        m.ending_msg().ends_msg(),
        m.ending_over().ends_msg() == m.ends_msg(),
        m.ending_msg().ends_over() == m.ends_over(),
        m.ending_over().advised_rung() == m.advised_rung(),
        m.ending_msg().advised_rung() == m.advised_rung(),
{
    let f = m.flags;
    assert((f | 1u8) & 1u8 != 0 && (f | 2u8) & 2u8 != 0) by (bit_vector);
    assert((f | 1u8) & 2u8 == f & 2u8 && (f | 2u8) & 1u8 == f & 1u8) by (bit_vector);
    assert((f | 1u8) & 0x1Cu8 == f & 0x1Cu8 && (f | 2u8) & 0x1Cu8 == f & 0x1Cu8) by (bit_vector);
}

/// How the flags are laid out: the lowest bit ends the over, the next ends the message, and
/// the three above them are the advised rung.
pub proof fn flags_hold_tokens_and_advice(m: FrameModel)
    ensures
        m.ends_over() <==> m.flags % 2 == 1,
        m.ends_msg() <==> (m.flags / 2) % 2 == 1,
        m.advised_rung() == (m.flags / 4) % 8,
{
    let b = m.flags;
    assert((b & 1u8 != 0 <==> b % 2 == 1) && (b & 2u8 != 0 <==> (b / 2) % 2 == 1) && (b & 0x1Cu8)
        >> 2u8 == (b / 4) % 8) by (bit_vector);
}

/// The bytes of a frame on the wire. All numbers are written most significant byte first; the
/// last four bytes are the checksum of all before them. The region from byte 22 on is the
/// payload, or the two callsigns, each in ten bytes and filled up with zeros.
pub proof fn frame_bytes_stand_in_their_places(m: FrameModel)
    requires
        m.encoded() is Ok,
    ensures
        ({
            let w = m.encoded()->Ok_0;
            let n = w.len() as int;
            &&& n == 26 + (w[20] * 256 + w[21])
            &&& w[0] == 0x53 && w[1] == 0x4C && w[2] == 2
            &&& w[3] == (match m.frame_type {
                FrameType::Data => 1int,
                FrameType::Ack => 2,
                FrameType::Nak => 3,
                FrameType::Conn => 4,
                FrameType::ConnAck => 5,
                FrameType::Disc => 6,
                FrameType::DiscAck => 7,
                FrameType::Keepalive => 8,
                FrameType::Id => 9,
            })
            &&& w[4] == m.flags
            &&& w[5] * 256 + w[6] == m.conn_id
            &&& w[7] * 16777216 + w[8] * 65536 + w[9] * 256 + w[10] == m.seq
            &&& w[11] * 16777216 + w[12] * 65536 + w[13] * 256 + w[14] == m.ack_through
            &&& w[15] * 16777216 + w[16] * 65536 + w[17] * 256 + w[18] == m.sack
            &&& w[19] == m.mode
            &&& m.id is None ==> n == 26 + m.payload.len() && forall|i: int|
                0 <= i < m.payload.len() ==> w[22 + i] == #[trigger] m.payload[i]
            &&& m.id matches Some(id) ==> n == 46 && forall|i: int|
                0 <= i < 10 ==> #[trigger] w[22 + i] == field_byte(id.src, i) && w[32 + i]
                    == field_byte(id.dst, i)
            &&& w[n - 4] * 16777216 + w[n - 3] * 65536 + w[n - 2] * 256 + w[n - 1]
                == crate::checksum::crc32(w.take(n - 4))
        }),
{
    lemma_wire_layout(m);
    let w = m.wire();
    let region = m.region();
    assert forall|i: int| 0 <= i < region.len() implies w[22 + i] == #[trigger] region[i] by {
        assert(w.subrange(22, 22 + region.len() as int)[i] == w[22 + i]);
    }
    match m.id {
        Some(id) => {
            let (a, b) = (
                crate::callsign::callsign_wire(id.src),
                crate::callsign::callsign_wire(id.dst),
            );
            assert(region == a + b);
            assert forall|i: int| 0 <= i < 10 implies #[trigger] w[22 + i] == field_byte(id.src, i)
                && w[32 + i] == field_byte(id.dst, i) by {
                assert(region[i] == a[i]);
                assert(region[10 + i] == b[i]);
                assert(w[22 + (10 + i)] == region[10 + i]);
            }
        },
        None => {},
    }
}

/// Byte `i` of the field that holds a callsign.
pub open spec fn field_byte(text: Seq<char>, i: int) -> u8 {
    if i < text.len() {
        text[i] as u8
    } else {
        0
    }
}

/// Which frames can be encoded: those of the five identifying types with both callsigns and
/// no payload, and those of the other types with a payload of up to 65509 bytes and no
/// callsigns. What is wrong is said: first callsigns that are missing or out of place, then a
/// payload beside them, then one that is too large.
pub proof fn unfit_frames_are_not_encoded(m: FrameModel)
    ensures
        ({
            let identifies = m.frame_type is Conn || m.frame_type is ConnAck || m.frame_type is Disc
                || m.frame_type is DiscAck || m.frame_type is Id;
            let e = m.encoded();
            &&& e is Ok <==> identifies == m.id is Some && (identifies ==> m.payload.len() == 0)
                && m.payload.len() <= 65509
            &&& identifies != m.id is Some ==> e == Err::<Seq<u8>, crate::error::FrameFault>(
                crate::error::FrameFault::IdPresenceMismatch {
                    frame_type: m.frame_type.code(),
                    has_id: m.id is Some,
                },
            )
            &&& identifies && m.id is Some && m.payload.len() > 0 ==> e == Err::<
                Seq<u8>,
                crate::error::FrameFault,
            >(crate::error::FrameFault::IdFrameHasPayload)
            &&& !identifies && m.id is None && m.payload.len() > 65509 ==> e == Err::<
                Seq<u8>,
                crate::error::FrameFault,
            >(
                crate::error::FrameFault::PayloadTooLarge {
                    len: m.payload.len(),
                    max: 65509,
                },
            )
        }),
{
}

/// What a buffer is refused for, in the order in which it is looked at: its length, its
/// first two bytes, its version, its type, the length that it states, its checksum, and at
/// last its callsigns.
pub proof fn unfit_buffers_are_refused(b: Seq<u8>)
    ensures
        ({
            let r = decoded(b);
            let says = |f: crate::error::FrameFault|
                r == Err::<FrameModel, crate::error::FrameFault>(f);
            let n = b.len() as int;
            let stated = 26 + (b[20] * 256 + b[21]);
            let sum = b[n - 4] * 16777216 + b[n - 3] * 65536 + b[n - 2] * 256 + b[n - 1];
            if n < 26 {
                says(crate::error::FrameFault::TooShort { got: b.len() })
            } else if b[0] != 0x53 || b[1] != 0x4C {
                says(crate::error::FrameFault::BadMagic)
            } else if b[2] != 2 {
                says(crate::error::FrameFault::BadVersion { got: b[2] })
            } else if b[3] < 1 || b[3] > 9 {
                says(crate::error::FrameFault::UnknownType(b[3]))
            } else if stated != n {
                says(
                    crate::error::FrameFault::LengthMismatch {
                        expected: stated as nat,
                        got: b.len(),
                    },
                )
            } else if crate::checksum::crc32(b.take(n - 4)) != sum {
                says(crate::error::FrameFault::BadCrc)
            } else if b[3] <= 3 || b[3] == 8 {
                r is Ok
            } else if n != 46 {
                says(crate::error::FrameFault::BadStationIdLen { got: (n - 26) as nat })
            } else {
                &&& r is Ok <==> crate::callsign::parse_callsign(b.subrange(22, 32)) is Ok
                    && crate::callsign::parse_callsign(b.subrange(32, 42)) is Ok
                &&& r is Err ==> r->Err_0 is BadCallsign
            }
        }),
{
    let n = b.len() as int;
    let region = b.subrange(22, n - 4);
    if n == 46 {
        assert(region.subrange(0, 10) =~= b.subrange(22, 32));
        assert(region.subrange(10, 20) =~= b.subrange(32, 42));
    }
}

/// Every byte of a frame that decodes is accounted for: it says what the frame holds.
pub proof fn decoded_frame_holds_what_the_bytes_say(b: Seq<u8>)
    requires
        decoded(b) is Ok,
    ensures
        ({
            let m = decoded(b)->Ok_0;
            let identifies = 4 <= b[3] <= 7 || b[3] == 9;
            &&& m.frame_type.code() == b[3]
            &&& m.flags == b[4]
            &&& m.conn_id == b[5] * 256 + b[6]
            &&& m.seq == b[7] * 16777216 + b[8] * 65536 + b[9] * 256 + b[10]
            &&& m.ack_through == b[11] * 16777216 + b[12] * 65536 + b[13] * 256 + b[14]
            &&& m.sack == b[15] * 16777216 + b[16] * 65536 + b[17] * 256 + b[18]
            &&& m.mode == b[19]
            &&& m.id is Some <==> identifies
            &&& identifies ==> m.payload.len() == 0 && crate::callsign::parse_callsign(
                b.subrange(22, 32),
            ) == Ok::<Seq<char>, Seq<char>>(m.id->0.src) && crate::callsign::parse_callsign(
                b.subrange(32, 42),
            ) == Ok::<Seq<char>, Seq<char>>(m.id->0.dst)
            &&& !identifies ==> m.payload == b.subrange(22, b.len() - 4)
        }),
{
    let n = b.len() as int;
    let region = b.subrange(22, n - 4);
    if n == 46 {
        assert(region.subrange(0, 10) =~= b.subrange(22, 32));
        assert(region.subrange(10, 20) =~= b.subrange(32, 42));
    }
}

} // verus!
