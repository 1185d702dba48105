//! What can go wrong: link frames that do not parse, and PHY operations that fail.
use vstd::prelude::*;

verus! {

/// Errors from frame construction and parsing.
#[allow(inconsistent_fields)]
#[derive(Debug, PartialEq, Eq)]
pub enum FrameError {
    /// Buffer shorter than the fixed overhead.
    TooShort {
        /// Bytes received.
        got: usize,
    },
    /// Magic bytes did not match.
    BadMagic,
    /// Unsupported protocol version.
    BadVersion {
        /// Version byte seen.
        got: u8,
    },
    /// Unknown frame type byte.
    UnknownType(u8),
    /// Declared length did not match the buffer.
    LengthMismatch {
        /// Overhead plus declared length.
        expected: usize,
        /// Actual buffer length.
        got: usize,
    },
    /// CRC verification failed.
    BadCrc,
    /// Invalid callsign.
    BadCallsign(String),
    /// An ID-bearing frame's region was not exactly the station-ID block.
    BadStationIdLen {
        /// The declared region length seen.
        got: usize,
    },
    /// The presence of a station ID did not match the frame type.
    IdPresenceMismatch {
        /// The frame type byte.
        frame_type: u8,
        /// Whether a station ID was present.
        has_id: bool,
    },
    /// An ID-bearing frame carried host payload.
    IdFrameHasPayload,
    /// Payload exceeds the per-frame link MTU.
    PayloadTooLarge {
        /// Attempted payload length.
        len: usize,
        /// Per-frame MTU.
        max: usize,
    },
}

/// What a [`FrameError`] says, with its text as characters.
#[allow(inconsistent_fields)]
#[verifier::ext_equal]
pub enum FrameFault {
    /// See [`FrameError::TooShort`].
    TooShort {
        /// Bytes received.
        got: nat,
    },
    /// See [`FrameError::BadMagic`].
    BadMagic,
    /// See [`FrameError::BadVersion`].
    BadVersion {
        /// Version byte seen.
        got: u8,
    },
    /// See [`FrameError::UnknownType`].
    UnknownType(u8),
    /// See [`FrameError::LengthMismatch`].
    LengthMismatch {
        /// Overhead plus declared length.
        expected: nat,
        /// Actual buffer length.
        got: nat,
    },
    /// See [`FrameError::BadCrc`].
    BadCrc,
    /// See [`FrameError::BadCallsign`].
    BadCallsign(Seq<char>),
    /// See [`FrameError::BadStationIdLen`].
    BadStationIdLen {
        /// The declared region length seen.
        got: nat,
    },
    /// See [`FrameError::IdPresenceMismatch`].
    IdPresenceMismatch {
        /// The frame type byte.
        frame_type: u8,
        /// Whether a station ID was present.
        has_id: bool,
    },
    /// See [`FrameError::IdFrameHasPayload`].
    IdFrameHasPayload,
    /// See [`FrameError::PayloadTooLarge`].
    PayloadTooLarge {
        /// Attempted payload length.
        len: nat,
        /// Per-frame MTU.
        max: nat,
    },
}

impl View for FrameError {
    type V = FrameFault;

    open spec fn view(&self) -> FrameFault {
        match *self {
            FrameError::TooShort { got } => FrameFault::TooShort { got: got as nat },
            FrameError::BadMagic => FrameFault::BadMagic,
            FrameError::BadVersion { got } => FrameFault::BadVersion { got },
            FrameError::UnknownType(b) => FrameFault::UnknownType(b),
            FrameError::LengthMismatch { expected, got } => FrameFault::LengthMismatch {
                expected: expected as nat,
                got: got as nat,
            },
            FrameError::BadCrc => FrameFault::BadCrc,
            FrameError::BadCallsign(s) => FrameFault::BadCallsign(s@),
            FrameError::BadStationIdLen { got } => FrameFault::BadStationIdLen { got: got as nat },
            FrameError::IdPresenceMismatch { frame_type, has_id } => {
                FrameFault::IdPresenceMismatch { frame_type, has_id }
            },
            FrameError::IdFrameHasPayload => FrameFault::IdFrameHasPayload,
            FrameError::PayloadTooLarge { len, max } => FrameFault::PayloadTooLarge {
                len: len as nat,
                max: max as nat,
            },
        }
    }
}

} // verus!
