//! Client-side transport core for a remote simulation process: length-prefixed
//! framing over a byte stream, a self-describing message codec, request
//! identity assignment, correlation of out-of-order responses, and a versioned
//! handshake that gates all further traffic.

pub mod codec;
pub mod connection;
pub mod dict;
pub mod error;
pub mod frame;
pub mod sensors;
pub mod value;
mod wire;

pub use codec::{decode_message, encode_message};
pub use connection::{Connection, PayloadView, RecvErrKind, RecvOutcome, ResponsePayload,
    PROTOCOL_VERSION};
pub use dict::{value_to_str_dict, StrDict};
pub use error::{BngError, ErrView};
pub use frame::{read_frame, write_frame};
pub use sensors::{rename_values, AdvancedImu, CameraRawReadings, Electrics, Gps, State};
pub use value::{str_dict, value_as_bool, value_as_str, value_as_u64, value_clone, value_eq,
    value_to_string, MsgValue, MsgView};
