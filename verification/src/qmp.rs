//! The QMP session: handshake, demultiplexing, event queue.
//!
//! Responses and events share one input channel.  `demux` says what a
//! session waiting for a response does with any incoming text: events
//! are queued in arrival order until the first non-event line, which
//! decides the outcome.  Every session operation is specified against
//! `demux` of the stream it started from.

use vstd::prelude::*;

use crate::channel::Channel;
use crate::channel::first_line;
use crate::channel::lemma_line_len;
use crate::channel::rest_lines;
use crate::codec::Qapi;
use crate::commands::Command;
use crate::commands::qmp_capabilities;
use crate::commands::query_version;
use crate::commands::wire_line;
use crate::json::Json;
use crate::wire::Error;
use crate::wire::Event;
use crate::wire::EventV;
use crate::wire::ErrV;
use crate::json::JsonV;
use crate::wire::MsgV;
use crate::wire::QMP;
use crate::wire::QmpMessage;
use crate::wire::SessionError;
use crate::wire::classify_message;
use crate::wire::event_model;
use crate::wire::msg_of_line;
use crate::wire::qmp_model;
use crate::wire::resp_model;

verus! {

broadcast use vstd::seq::group_seq_axioms;

/// How a wait for a response ends.
pub enum EndV {
    /// The stream was exhausted with no response: unexpected EOF.
    Eof,
    /// A line that parses to no expected shape: decode failure.
    Bad,
    /// A greeting after the first read: protocol violation.
    Greet,
    /// A response: the peer's answer, success or remote error.
    Reply(Result<JsonV, ErrV>),
}

/// What demultiplexing an incoming stream yields: the events seen
/// before the deciding line, in arrival order; the outcome; and what
/// is left of the stream.
pub struct DemuxV {
    pub events: Seq<EventV>,
    pub end: EndV,
    pub rest: Seq<char>,
}

pub open spec fn demux(s: Seq<char>) -> DemuxV
    decreases s.len(),
    via demux_decreases
{
    if s.len() == 0 {
        DemuxV { events: Seq::empty(), end: EndV::Eof, rest: s }
    } else {
        match msg_of_line(first_line(s)) {
            None => DemuxV { events: Seq::empty(), end: EndV::Bad, rest: rest_lines(s) },
            Some(MsgV::Greeting(_)) => DemuxV {
                events: Seq::empty(),
                end: EndV::Greet,
                rest: rest_lines(s),
            },
            Some(MsgV::Response(r)) => DemuxV {
                events: Seq::empty(),
                end: EndV::Reply(r),
                rest: rest_lines(s),
            },
            Some(MsgV::Event(e)) => {
                let d = demux(rest_lines(s));
                DemuxV { events: seq![e] + d.events, end: d.end, rest: d.rest }
            },
        }
    }
}

#[via_fn]
proof fn demux_decreases(s: Seq<char>) {
    lemma_line_len(s);
}

/// The models of queued events, in queue order.
pub open spec fn events_model(q: Seq<Event>) -> Seq<EventV> {
    Seq::new(q.len(), |i: int| event_model(q[i]))
}

/// What stands before a concatenation's tail is a prefix of the whole.
proof fn lemma_prefix_concat(a: Seq<EventV>, b: Seq<EventV>)
    ensures
        a.is_prefix_of(a + b),
{
    assert((a + b).subrange(0, a.len() as int) =~= a);
}

/// A QMP session: the codec around the stream, and the events queued
/// while responses were awaited.
pub struct Qmp<S> {
    inner: Qapi<S>,
    event_queue: Vec<Event>,
}

impl<S> Qmp<S> {
    /// The owned stream.
    pub closed spec fn stream(&self) -> S {
        self.inner.stream
    }

    /// The queued events, oldest first.
    pub closed spec fn queue(&self) -> Seq<Event> {
        self.event_queue@
    }

    pub fn new(stream: S) -> (r: Self)
        ensures
            r.stream() == stream,
            r.queue() == Seq::<Event>::empty(),
    {
        Qmp { inner: Qapi::new(stream), event_queue: Vec::new() }
    }

    pub fn into_inner(self) -> (s: S)
        ensures
            s == self.stream(),
    {
        self.inner.stream
    }

    pub fn inner(&self) -> (s: &S)
        ensures
            *s == self.stream(),
    {
        &self.inner.stream
    }

    pub fn inner_mut(&mut self) -> (s: &mut S)
        ensures
            *s == old(self).stream(),
            final(self).stream() == *final(s),
            final(self).queue() == old(self).queue(),
    {
        &mut self.inner.stream
    }

    /// Drains the queued events: returns them in arrival order and
    /// leaves the queue empty.
    pub fn events(&mut self) -> (r: Vec<Event>)
        ensures
            r@ == old(self).queue(),
            final(self).queue() == Seq::<Event>::empty(),
            final(self).stream() == old(self).stream(),
    {
        let mut out: Vec<Event> = Vec::new();
        core::mem::swap(&mut self.event_queue, &mut out);
        out
    }
}

impl<S: Channel> Qmp<S> {
    /// Reads the mandatory opening greeting.  Only valid as the very
    /// first read: any other message kind is a protocol violation.
    pub fn read_capabilities(&mut self) -> (r: Result<QMP, SessionError>)
        ensures
            final(self).queue() == old(self).queue(),
            old(self).stream().fault_free() ==> !(r matches Err(SessionError::Fault(_)))
                && final(self).stream().fault_free(),
            (match r {
                Ok(q) => old(self).stream().instream().len() > 0 && msg_of_line(
                    first_line(old(self).stream().instream()),
                ) == Some(MsgV::Greeting(qmp_model(q))) && final(self).stream().instream()
                    == rest_lines(old(self).stream().instream()) && final(self).stream().sent() == old(self).stream().sent() && final(self).stream().pending() == old(self).stream().pending() && final(self).queue()
                    == old(self).queue(),
                Err(SessionError::UnexpectedEof) => old(self).stream().instream().len()
                    == 0 && final(self).stream() == old(self).stream() && final(self).queue() == old(self).queue(),
                Err(SessionError::Decode) => old(self).stream().instream().len() > 0
                    && msg_of_line(first_line(old(self).stream().instream())) is None
                    && final(self).stream().instream() == rest_lines(
                    old(self).stream().instream(),
                ) && final(self).stream().sent() == old(self).stream().sent() && final(self).stream().pending() == old(self).stream().pending(),
                Err(SessionError::InvalidData) => old(self).stream().instream().len() > 0
                    && (match msg_of_line(first_line(old(self).stream().instream())) {
                    Some(MsgV::Greeting(_)) => false,
                    Some(_) => true,
                    None => false,
                }) && final(self).stream().instream() == rest_lines(
                    old(self).stream().instream(),
                ) && final(self).stream().sent() == old(self).stream().sent() && final(self).stream().pending() == old(self).stream().pending(),
                Err(SessionError::Fault(_)) => true,
                Err(SessionError::Remote(_)) => false,
            }),
    {
        match self.inner.decode_line() {
            Err(e) => Err(e),
            Ok(None) => Err(SessionError::UnexpectedEof),
            Ok(Some(v)) => match classify_message(&v) {
                Some(QmpMessage::Greeting(g)) => Ok(g.QMP),
                Some(_) => Err(SessionError::InvalidData),
                None => Err(SessionError::Decode),
            },
        }
    }

    /// Waits for the response to the command just sent, queueing any
    /// events met on the way, in arrival order.
    pub fn read_response(&mut self) -> (r: Result<Result<Json, Error>, SessionError>)
        ensures
            final(self).queue().len() >= old(self).queue().len(),
            final(self).queue().take(old(self).queue().len() as int) == old(self).queue(),
            events_model(
                final(self).queue().skip(old(self).queue().len() as int),
            ).is_prefix_of(demux(old(self).stream().instream()).events),
            old(self).stream().fault_free() ==> !(r matches Err(SessionError::Fault(_)))
                && final(self).stream().fault_free(),
            (match r {
                Err(SessionError::Fault(_)) => true,
                Err(SessionError::Remote(_)) => false,
                _ => ({
                    let d = demux(old(self).stream().instream());
                    &&& events_model(
                        final(self).queue().skip(old(self).queue().len() as int),
                    ) == d.events
                    &&& final(self).stream().instream() == d.rest
                    &&& final(self).stream().sent() == old(self).stream().sent()
                    &&& final(self).stream().pending() == old(self).stream().pending()
                    &&& (match r {
                        Ok(res) => d.end == EndV::Reply(resp_model(res)),
                        Err(SessionError::UnexpectedEof) => d.end is Eof,
                        Err(SessionError::Decode) => d.end is Bad,
                        Err(SessionError::InvalidData) => d.end is Greet,
                        _ => false,
                    })
                }),
            }),
    {
        loop
            invariant
                old(self).queue().len() <= self.queue().len(),
                self.queue().take(old(self).queue().len() as int) == old(self).queue(),
                demux(old(self).stream().instream()).events == events_model(
                    self.queue().skip(old(self).queue().len() as int),
                ) + demux(self.stream().instream()).events,
                demux(old(self).stream().instream()).end == demux(
                    self.stream().instream(),
                ).end,
                demux(old(self).stream().instream()).rest == demux(
                    self.stream().instream(),
                ).rest,
                self.stream().sent() == old(self).stream().sent(),
                self.stream().pending() == old(self).stream().pending(),
                old(self).stream().fault_free() ==> self.stream().fault_free(),
            decreases self.stream().instream().len(),
        {
            let ghost cur = self.stream().instream();
            proof {
                lemma_prefix_concat(
                    events_model(self.queue().skip(old(self).queue().len() as int)),
                    demux(self.stream().instream()).events,
                );
            }
            match self.inner.decode_line() {
                Err(e) => {
                    return Err(e);
                },
                Ok(None) => {
                    return Err(SessionError::UnexpectedEof);
                },
                Ok(Some(v)) => match classify_message(&v) {
                    None => {
                        return Err(SessionError::Decode);
                    },
                    Some(QmpMessage::Greeting(_)) => {
                        return Err(SessionError::InvalidData);
                    },
                    Some(QmpMessage::Response(res)) => {
                        return Ok(res);
                    },
                    Some(QmpMessage::Event(e)) => {
                        let ghost q0 = self.event_queue@;
                        self.event_queue.push(e);
                        proof {
                            lemma_line_len(cur);
                            let oldlen = old(self).queue().len() as int;
                            assert(self.queue().take(oldlen) =~= q0.take(oldlen));
                            assert(events_model(self.queue().skip(oldlen)) =~= events_model(
                                q0.skip(oldlen),
                            ).push(event_model(e)));
                            assert(demux(cur).events =~= seq![event_model(e)] + demux(
                                self.stream().instream(),
                            ).events);
                            assert(events_model(q0.skip(oldlen)) + demux(cur).events
                                =~= events_model(self.queue().skip(oldlen)) + demux(
                                self.stream().instream(),
                            ).events);
                        }
                    },
                },
            }
        }
    }

    /// Sends one command as one flushed line.
    pub fn write_command<C: Command>(&mut self, command: &C) -> (r: Result<
        (),
        SessionError,
    >)
        ensures
            final(self).queue() == old(self).queue(),
            old(self).stream().fault_free() ==> !(r matches Err(SessionError::Fault(_)))
                && final(self).stream().fault_free(),
            (match r {
                Ok(_) => final(self).stream().sent() == old(self).stream().sent() + old(self).stream().pending() + wire_line(command.name_spec(), command.args_spec())
                    && final(self).stream().pending() == Seq::<char>::empty() && final(self).stream().instream() == old(self).stream().instream(),
                Err(SessionError::Fault(_)) => true,
                Err(_) => false,
            }),
    {
        self.inner.write_command(command)
    }

    /// Sends one command and blocks until its one response arrives,
    /// queueing events met on the way.  Exactly one command is in
    /// flight at a time.
    pub fn execute<C: Command>(&mut self, command: &C) -> (r: Result<
        Result<Json, Error>,
        SessionError,
    >)
        ensures
            final(self).queue().len() >= old(self).queue().len(),
            final(self).queue().take(old(self).queue().len() as int) == old(self).queue(),
            events_model(
                final(self).queue().skip(old(self).queue().len() as int),
            ).is_prefix_of(demux(old(self).stream().instream()).events),
            old(self).stream().fault_free() ==> !(r matches Err(SessionError::Fault(_)))
                && final(self).stream().fault_free(),
            (match r {
                Err(SessionError::Fault(_)) => true,
                Err(SessionError::Remote(_)) => false,
                _ => ({
                    let d = demux(old(self).stream().instream());
                    &&& events_model(
                        final(self).queue().skip(old(self).queue().len() as int),
                    ) == d.events
                    &&& final(self).stream().instream() == d.rest
                    &&& final(self).stream().sent() == old(self).stream().sent() + old(self).stream().pending() + wire_line(
                        command.name_spec(),
                        command.args_spec(),
                    )
                    &&& final(self).stream().pending() == Seq::<char>::empty()
                    &&& (match r {
                        Ok(res) => d.end == EndV::Reply(resp_model(res)),
                        Err(SessionError::UnexpectedEof) => d.end is Eof,
                        Err(SessionError::Decode) => d.end is Bad,
                        Err(SessionError::InvalidData) => d.end is Greet,
                        _ => false,
                    })
                }),
            }),
    {
        match self.write_command(command) {
            Err(e) => {
                return Err(e);
            },
            Ok(_) => (),
        }
        self.read_response()
    }

    /// The whole opening sequence: read the greeting, negotiate
    /// capabilities, return the greeting payload unchanged.
    pub fn handshake(&mut self) -> (r: Result<QMP, SessionError>)
        ensures
            final(self).queue().len() >= old(self).queue().len(),
            final(self).queue().take(old(self).queue().len() as int) == old(self).queue(),
            events_model(
                final(self).queue().skip(old(self).queue().len() as int),
            ).is_prefix_of(demux(rest_lines(old(self).stream().instream())).events),
            old(self).stream().fault_free() ==> !(r matches Err(SessionError::Fault(_)))
                && final(self).stream().fault_free(),
            (match r {
                Err(SessionError::Fault(_)) => true,
                _ => ({
                    let s0 = old(self).stream().instream();
                    if s0.len() == 0 {
                        r == Err::<QMP, SessionError>(SessionError::UnexpectedEof)
                            && final(self).stream() == old(self).stream() && final(self).queue() == old(self).queue()
                    } else {
                        match msg_of_line(first_line(s0)) {
                            Some(MsgV::Greeting(g)) => ({
                                let d = demux(rest_lines(s0));
                                &&& events_model(
                                    final(self).queue().skip(
                                        old(self).queue().len() as int,
                                    ),
                                ) == d.events
                                &&& final(self).stream().instream() == d.rest
                                &&& final(self).stream().sent() == old(self).stream().sent() + old(self).stream().pending()
                                    + wire_line(
                                    "qmp_capabilities"@,
                                    Option::<JsonV>::None,
                                )
                                &&& final(self).stream().pending()
                                    == Seq::<char>::empty()
                                &&& (match d.end {
                                    EndV::Reply(Ok(_)) => (match r {
                                        Ok(q) => qmp_model(q) == g,
                                        _ => false,
                                    }),
                                    EndV::Reply(Err(e)) => (match r {
                                        Err(SessionError::Remote(re)) => crate::wire::error_model(re) == e,
                                        _ => false,
                                    }),
                                    EndV::Eof => r == Err::<QMP, SessionError>(
                                        SessionError::UnexpectedEof,
                                    ),
                                    EndV::Bad => r == Err::<QMP, SessionError>(
                                        SessionError::Decode,
                                    ),
                                    EndV::Greet => r == Err::<QMP, SessionError>(
                                        SessionError::InvalidData,
                                    ),
                                })
                            }),
                            None => r == Err::<QMP, SessionError>(SessionError::Decode)
                                && final(self).stream().instream() == rest_lines(s0)
                                && final(self).stream().sent() == old(self).stream().sent(),
                            Some(_) => r == Err::<QMP, SessionError>(
                                SessionError::InvalidData,
                            ) && final(self).stream().instream() == rest_lines(s0)
                                && final(self).stream().sent() == old(self).stream().sent(),
                        }
                    }
                }),
            }),
    {
        let caps = match self.read_capabilities() {
            Ok(c) => c,
            Err(e) => {
                return Err(e);
            },
        };
        match self.execute(&(qmp_capabilities { enable: None })) {
            Err(e) => Err(e),
            Ok(Ok(_)) => Ok(caps),
            Ok(Err(e)) => Err(SessionError::Remote(e)),
        }
    }

    /// Issues a lightweight query and discards its result: a way to
    /// pull pending events off the socket.
    pub fn nop(&mut self) -> (r: Result<(), SessionError>)
        ensures
            final(self).queue().len() >= old(self).queue().len(),
            final(self).queue().take(old(self).queue().len() as int) == old(self).queue(),
            events_model(
                final(self).queue().skip(old(self).queue().len() as int),
            ).is_prefix_of(demux(old(self).stream().instream()).events),
            old(self).stream().fault_free() ==> !(r matches Err(SessionError::Fault(_)))
                && final(self).stream().fault_free(),
            (match r {
                Err(SessionError::Fault(_)) => true,
                _ => ({
                    let d = demux(old(self).stream().instream());
                    &&& events_model(
                        final(self).queue().skip(old(self).queue().len() as int),
                    ) == d.events
                    &&& final(self).stream().instream() == d.rest
                    &&& final(self).stream().sent() == old(self).stream().sent() + old(self).stream().pending() + wire_line("query-version"@, Option::<JsonV>::None)
                    &&& (match d.end {
                        EndV::Reply(Ok(_)) => r == Ok::<(), SessionError>(()),
                        EndV::Reply(Err(e)) => (match r {
                            Err(SessionError::Remote(re)) => crate::wire::error_model(re)
                                == e,
                            _ => false,
                        }),
                        EndV::Eof => r == Err::<(), SessionError>(
                            SessionError::UnexpectedEof,
                        ),
                        EndV::Bad => r == Err::<(), SessionError>(SessionError::Decode),
                        EndV::Greet => r == Err::<(), SessionError>(
                            SessionError::InvalidData,
                        ),
                    })
                }),
            }),
    {
        match self.execute(&(query_version {  })) {
            Err(e) => Err(e),
            Ok(Ok(_)) => Ok(()),
            Ok(Err(e)) => Err(SessionError::Remote(e)),
        }
    }
}

} // verus!
