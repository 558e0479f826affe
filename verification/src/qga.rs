//! The QGA session: a synchronous command channel opened by a nonce
//! round-trip.
//!
//! QGA has no asynchronous events, so a response-shaped line is
//! accepted as-is and anything else is a protocol violation.  The
//! handshake sends `guest-sync` with a serial number fresh within this
//! session and demands the peer echo exactly that number back: any
//! other value means the channel is desynchronized (such as a stale
//! reply to an earlier handshake of the same session), even if the
//! peer reported success.  The serial tells this session's handshakes
//! apart; it does not tell sessions apart.

use vstd::prelude::*;

use crate::channel::Channel;
use crate::channel::first_line;
use crate::channel::lemma_line_len;
use crate::channel::rest_lines;
use crate::codec::Qapi;
use crate::commands::Command;
use crate::commands::guest_sync;
use crate::commands::wire_line;
use crate::json::Json;
use crate::json::JsonV;
use crate::json::parse_text;
use crate::wire::Error;
use crate::wire::SessionError;
use crate::wire::classify_response;
use crate::wire::resp_model;
use crate::wire::response_of;

verus! {

broadcast use vstd::seq::group_seq_axioms;

/// The serial number the next handshake will send: a per-session
/// counter, sufficient because the nonce's only job is
/// self-consistency within one round trip.
pub open spec fn next_serial(n: int) -> int {
    if n == i64::MAX {
        1
    } else {
        n + 1
    }
}

/// A QGA session: the codec around the stream and the handshake
/// serial counter.
pub struct Qga<S> {
    inner: Qapi<S>,
    sync_serial: i64,
}

impl<S> Qga<S> {
    /// The owned stream.
    pub closed spec fn stream(&self) -> S {
        self.inner.stream
    }

    /// The serial number used by the latest handshake.
    pub closed spec fn serial(&self) -> int {
        self.sync_serial as int
    }

    pub fn new(stream: S) -> (r: Self)
        ensures
            r.stream() == stream,
            r.serial() == 0,
    {
        Qga { inner: Qapi::new(stream), sync_serial: 0 }
    }

    pub fn into_inner(self) -> (s: S)
        ensures
            s == self.stream(),
    {
        self.inner.stream
    }

    pub fn inner(&self) -> (s: &S)
        ensures
            *s == self.stream(),
    {
        &self.inner.stream
    }

    pub fn inner_mut(&mut self) -> (s: &mut S)
        ensures
            *s == old(self).stream(),
            final(self).stream() == *final(s),
            final(self).serial() == old(self).serial(),
    {
        &mut self.inner.stream
    }
}

impl<S: Channel> Qga<S> {
    /// Waits for the response to the command just sent.  There is no
    /// event channel: a line of any other well-formed shape is a
    /// protocol violation.
    pub fn read_response(&mut self) -> (r: Result<Result<Json, Error>, SessionError>)
        ensures
            final(self).serial() == old(self).serial(),
            old(self).stream().fault_free() ==> !(r matches Err(SessionError::Fault(_)))
                && final(self).stream().fault_free(),
            (match r {
                Err(SessionError::Fault(_)) => true,
                Err(SessionError::Remote(_)) => false,
                _ => ({
                    let s0 = old(self).stream().instream();
                    &&& final(self).stream().sent() == old(self).stream().sent()
                    &&& final(self).stream().pending() == old(self).stream().pending()
                    &&& if s0.len() == 0 {
                        r == Err::<Result<Json, Error>, SessionError>(
                            SessionError::UnexpectedEof,
                        ) && final(self).stream() == old(self).stream()
                    } else {
                        &&& final(self).stream().instream() == rest_lines(s0)
                        &&& (match parse_text(first_line(s0)) {
                            None => r == Err::<Result<Json, Error>, SessionError>(
                                SessionError::Decode,
                            ),
                            Some(v) => (match response_of(v) {
                                Some(res) => (match r {
                                    Ok(rr) => resp_model(rr) == res,
                                    _ => false,
                                }),
                                None => r == Err::<Result<Json, Error>, SessionError>(
                                    SessionError::InvalidData,
                                ),
                            }),
                        })
                    }
                }),
            }),
    {
        match self.inner.decode_line() {
            Err(e) => Err(e),
            Ok(None) => Err(SessionError::UnexpectedEof),
            Ok(Some(v)) => match classify_response(&v) {
                Some(res) => Ok(res),
                None => Err(SessionError::InvalidData),
            },
        }
    }

    /// Sends one command as one flushed line.
    pub fn write_command<C: Command>(&mut self, command: &C) -> (r: Result<
        (),
        SessionError,
    >)
        ensures
            final(self).serial() == old(self).serial(),
            old(self).stream().fault_free() ==> !(r matches Err(SessionError::Fault(_)))
                && final(self).stream().fault_free(),
            (match r {
                Ok(_) => final(self).stream().sent() == old(self).stream().sent() + old(self).stream().pending() + wire_line(command.name_spec(), command.args_spec())
                    && final(self).stream().pending() == Seq::<char>::empty() && final(self).stream().instream() == old(self).stream().instream(),
                Err(SessionError::Fault(_)) => true,
                Err(_) => false,
            }),
    {
        self.inner.write_command(command)
    }

    /// Sends one command and blocks until its one response arrives.
    pub fn execute<C: Command>(&mut self, command: &C) -> (r: Result<
        Result<Json, Error>,
        SessionError,
    >)
        ensures
            final(self).serial() == old(self).serial(),
            old(self).stream().fault_free() ==> !(r matches Err(SessionError::Fault(_)))
                && final(self).stream().fault_free(),
            (match r {
                Err(SessionError::Fault(_)) => true,
                Err(SessionError::Remote(_)) => false,
                _ => ({
                    let s0 = old(self).stream().instream();
                    &&& final(self).stream().sent() == old(self).stream().sent() + old(self).stream().pending() + wire_line(
                        command.name_spec(),
                        command.args_spec(),
                    )
                    &&& final(self).stream().pending() == Seq::<char>::empty()
                    &&& if s0.len() == 0 {
                        r == Err::<Result<Json, Error>, SessionError>(
                            SessionError::UnexpectedEof,
                        ) && final(self).stream().instream() == s0
                    } else {
                        &&& final(self).stream().instream() == rest_lines(s0)
                        &&& (match parse_text(first_line(s0)) {
                            None => r == Err::<Result<Json, Error>, SessionError>(
                                SessionError::Decode,
                            ),
                            Some(v) => (match response_of(v) {
                                Some(res) => (match r {
                                    Ok(rr) => resp_model(rr) == res,
                                    _ => false,
                                }),
                                None => r == Err::<Result<Json, Error>, SessionError>(
                                    SessionError::InvalidData,
                                ),
                            }),
                        })
                    }
                }),
            }),
    {
        match self.write_command(command) {
            Err(e) => {
                return Err(e);
            },
            Ok(_) => (),
        }
        self.read_response()
    }

    /// The opening nonce round-trip.  Fails with invalid-data when the
    /// peer echoes any value other than the serial just sent, even
    /// under a protocol-level success; surfaces a remote error as-is.
    pub fn handshake(&mut self) -> (r: Result<(), SessionError>)
        ensures
            final(self).serial() == next_serial(old(self).serial()),
            old(self).stream().fault_free() ==> !(r matches Err(SessionError::Fault(_)))
                && final(self).stream().fault_free(),
            (match r {
                Err(SessionError::Fault(_)) => true,
                _ => ({
                    let s0 = old(self).stream().instream();
                    let nonce = next_serial(old(self).serial());
                    &&& final(self).stream().sent() == old(self).stream().sent() + old(self).stream().pending() + wire_line(
                        "guest-sync"@,
                        Some(JsonV::Obj(seq![("id"@, JsonV::Int(nonce))])),
                    )
                    &&& if s0.len() == 0 {
                        r == Err::<(), SessionError>(SessionError::UnexpectedEof)
                    } else {
                        match parse_text(first_line(s0)) {
                            None => r == Err::<(), SessionError>(SessionError::Decode),
                            Some(v) => (match response_of(v) {
                                Some(Ok(echo)) => if echo == JsonV::Int(nonce) {
                                    r == Ok::<(), SessionError>(())
                                } else {
                                    r == Err::<(), SessionError>(
                                        SessionError::InvalidData,
                                    )
                                },
                                Some(Err(e)) => (match r {
                                    Err(SessionError::Remote(re)) => crate::wire::error_model(re) == e,
                                    _ => false,
                                }),
                                None => r == Err::<(), SessionError>(
                                    SessionError::InvalidData,
                                ),
                            }),
                        }
                    }
                }),
            }),
    {
        let serial: i64 = if self.sync_serial == i64::MAX {
            1
        } else {
            self.sync_serial + 1
        };
        self.sync_serial = serial;
        let sync = guest_sync { id: serial };
        match self.execute(&sync) {
            Err(e) => Err(e),
            Ok(Err(e)) => Err(SessionError::Remote(e)),
            Ok(Ok(v)) => if sync.echoed(&v) {
                Ok(())
            } else {
                Err(SessionError::InvalidData)
            },
        }
    }
}

} // verus!
