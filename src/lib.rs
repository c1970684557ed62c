//! AX.25 packet-radio messaging core: station addresses, frames and their
//! wire encoding, KISS byte stuffing, the TNC session's decisions, and the
//! chat state that shows the traffic.

pub mod address;
pub mod chat;
pub mod frame;
pub mod interop;
pub mod kiss;
pub mod session;
pub mod text;
pub mod transport;

pub use address::{Address, AddressDecodeError, AddressFormatError, AddressModel};
pub use chat::LinbpqApp;
pub use frame::{
    Ax25Frame, CommandResponse, ContentModel, FrameContent, FrameDecodeError, FrameModel,
    ProtocolIdentifier,
};
pub use kiss::{kiss_encode, DecoderState, KissDecoder};
pub use session::{text_frame, Message, SendError, SessionState, TncSession};
pub use transport::{Endpoint, EndpointError, TransportKind};
