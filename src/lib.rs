//! A client transport for JSON-RPC 2.0 over the header-framed byte streams
//! that language servers speak on their standard input and output.
pub mod client;
pub mod framing;
pub mod laws;
pub mod table;

pub use client::{
    notification_frame, request_frame,
    ClientError, DispatchError, Dispatched, JsonValue, ReaderStep, RpcClient, TransportState,
};
pub use framing::{decode_frame, encode_frame, parse_decimal, parse_header, push_decimal, Decoded, FramingError, LSPHeader};
pub use table::CorrelationTable;
