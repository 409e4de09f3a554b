//! Stream-oriented service framework: record framing, pluggable serialization
//! formats, Noise packet encryption, channels and a hierarchical service registry
//! with the introduction protocol that routes a new channel to its service.

mod channel;
mod error;
mod formats;
mod handshake;
mod noise;
mod record;
mod routes;

pub use channel::{Channel, Transport};
pub use error::Failure;
pub use handshake::{Handshake, Stage, Step, DEFAULT_NOISE_PARAMS};
pub use formats::{Bincode, Bson, CompleteFormat, Format, Json, Postcard, ReadFormat, SendFormat};
pub use noise::{initiator_from_draws, Snow, PACKET_LEN, TAG_LEN};
pub use record::{decode_record, decode_records, encode_record, payload_len, DEFAULT_CEILING};
pub use routes::{Entry, Register, RegisterEndpoint, Route, Status};
