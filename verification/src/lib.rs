//! Client-side session layer for QEMU's JSON-line wire protocols.
//!
//! QMP (the machine protocol) interleaves command responses with
//! asynchronous events on one input channel; QGA (the guest agent
//! protocol) is a synchronous command/response channel opened by a
//! nonce round-trip.  This crate turns a duplex character stream into
//! correlated, typed command executions: the wire codec, the message
//! classifier and the session engines are all verified against a
//! specification of the wire grammar.

pub mod channel;
pub mod codec;
pub mod commands;
pub mod json;
pub mod laws;
pub mod qga;
pub mod qmp;
pub mod wire;

pub use channel::BrokenReader;
pub use channel::Channel;
pub use channel::IoFault;
pub use channel::MemReader;
pub use channel::MemWriter;
pub use channel::ReadHalf;
pub use channel::Stream;
pub use channel::WriteHalf;
pub use codec::Qapi;
pub use codec::encode_command;
pub use commands::Command;
pub use commands::device_add;
pub use commands::guest_sync;
pub use commands::qmp_capabilities;
pub use commands::query_version;
pub use json::Json;
pub use json::parse_json;
pub use json::to_json_text;
pub use qga::Qga;
pub use qmp::Qmp;
pub use wire::Error;
pub use wire::ErrorClass;
pub use wire::Event;
pub use wire::QMP;
pub use wire::QMPCapability;
pub use wire::QapiCapabilities;
pub use wire::QmpCapability;
pub use wire::QmpMessage;
pub use wire::SessionError;
pub use wire::Timestamp;
pub use wire::VersionInfo;
pub use wire::VersionTriple;
pub use wire::classify_message;
pub use wire::classify_response;
pub use wire::obj_find;
