//! A half-duplex HF data modem: the connected-mode link layer, the mode ladder it
//! adapts over, and the framing that its waveforms carry.

pub mod adaptation_laws;
pub mod arq;
pub mod bits;
pub mod callsign;
pub mod capabilities;
pub mod checksum;
pub mod clock;
pub mod coded_framing;
pub mod conn;
pub mod constellations;
pub mod delivery;
pub mod driver;
pub mod driver_laws;
pub mod equalizer;
pub mod error;
pub mod exchange;
pub mod floor_rate14;
pub mod frame;
pub mod host;
pub mod image_fit;
pub mod link;
pub mod mac;
pub mod modem_args;
pub mod modes;
pub mod narrow_fsk;
pub mod null_phy;
pub mod ofdm_receiver;
pub mod preamble;
pub mod profile;
pub mod pump;
pub mod quality;
pub mod reception_laws;
pub mod registry;
pub mod session;
pub mod session_laws;
pub mod sitrep;
pub mod text;
pub mod time;
pub mod transport;
pub mod turn_laws;
pub mod wideband_lowdensity;

pub use callsign::Callsign;
pub use conn::{ConnState, Connection, HostEvent};
pub use error::FrameError;
pub use frame::{FrameType, LinkFrame, LINK_MTU, LINK_OVERHEAD};
pub use link::Link;
pub use profile::ModeProfile;
