//! The line codec: one physical line is one logical message.
//!
//! `decode_line` reads one newline-terminated line and parses it as a
//! single JSON value; a clean end of stream is signalled as "no
//! value", distinctly from a parse failure, which is fatal.
//! `write_command` frames a command as one JSON line and flushes it at
//! once: the peer acts only when the full line is visible.

use vstd::prelude::*;

use crate::channel::Channel;
use crate::channel::first_line;
use crate::channel::rest_lines;
use crate::commands::Command;
use crate::commands::envelope;
use crate::commands::wire_line;
use crate::json::Json;
use crate::json::entries_model;
use crate::json::json_model;
use crate::json::lemma_entries_model;
use crate::json::parse_json;
use crate::json::parse_text;
use crate::json::to_json_text;
use crate::wire::SessionError;

verus! {

broadcast use vstd::seq::group_seq_axioms;

/// Builds the one line a command is sent as, terminator included.
pub fn encode_command<C: Command>(command: &C) -> (s: String)
    ensures
        s@ == wire_line(command.name_spec(), command.args_spec()),
{
    let name = command.wire_name();
    let args = command.arguments();
    let mut entries: Vec<(String, Json)> = Vec::new();
    entries.push((String::from_str("execute"), Json::Text(name)));
    match args {
        Some(a) => entries.push((String::from_str("arguments"), a)),
        None => (),
    }
    let v = Json::Obj(entries);
    let mut text = to_json_text(&v);
    proof {
        lemma_entries_model(v->Obj_0@);
        match command.args_spec() {
            None => {
                assert(entries_model(v->Obj_0@) =~= envelope(
                    command.name_spec(),
                    command.args_spec(),
                )->Obj_0);
            },
            Some(a) => {
                assert(entries_model(v->Obj_0@) =~= envelope(
                    command.name_spec(),
                    command.args_spec(),
                )->Obj_0);
            },
        }
        reveal_strlit("\n");
        assert("\n"@ =~= seq!['\n']);
    }
    text.append("\n");
    text
}

/// The codec around a stream: reads lines as values, writes commands
/// as lines.  `buffer` holds the raw text of the line read last.
pub struct Qapi<S> {
    pub stream: S,
    pub buffer: String,
}

impl<S> Qapi<S> {
    pub fn new(s: S) -> (r: Self)
        ensures
            r.stream == s,
            r.buffer@ == Seq::<char>::empty(),
    {
        Qapi { stream: s, buffer: String::new() }
    }
}

impl<S: Channel> Qapi<S> {
    /// Reads one line and parses it as one JSON value.  `Ok(None)` is
    /// a clean end of stream; a non-empty line that does not parse is
    /// a fatal decode error, with the stream past the bad line.
    pub fn decode_line(&mut self) -> (r: Result<Option<Json>, SessionError>)
        ensures
            old(self).stream.fault_free() ==> !(r matches Err(SessionError::Fault(_)))
                && final(self).stream.fault_free(),
            (match r {
                Ok(None) => old(self).stream.instream().len() == 0 && final(self).stream
                    == old(self).stream && final(self).buffer@ == Seq::<char>::empty(),
                Ok(Some(v)) => old(self).stream.instream().len() > 0 && parse_text(
                    first_line(old(self).stream.instream()),
                ) == Some(json_model(v)) && final(self).stream.instream() == rest_lines(
                    old(self).stream.instream(),
                ) && final(self).stream.sent() == old(self).stream.sent() && final(self).stream.pending() == old(self).stream.pending() && final(self).buffer@
                    == first_line(old(self).stream.instream()),
                Err(SessionError::Decode) => old(self).stream.instream().len() > 0
                    && parse_text(first_line(old(self).stream.instream())) is None && final(self).stream.instream() == rest_lines(old(self).stream.instream()) && final(self).stream.sent() == old(self).stream.sent() && final(self).stream.pending()
                    == old(self).stream.pending() && final(self).buffer@ == first_line(
                    old(self).stream.instream(),
                ),
                Err(SessionError::Fault(_)) => final(self).buffer@
                    == Seq::<char>::empty(),
                Err(_) => false,
            }),
    {
        self.buffer = String::new();
        match self.stream.read_line() {
            Err(f) => Err(SessionError::Fault(f)),
            Ok(None) => Ok(None),
            Ok(Some(l)) => {
                let parsed = parse_json(l.as_str());
                self.buffer = l;
                match parsed {
                    Some(v) => Ok(Some(v)),
                    None => Err(SessionError::Decode),
                }
            },
        }
    }

    /// Serializes a command into its wire envelope, writes it as one
    /// newline-terminated line, and flushes immediately.
    pub fn write_command<C: Command>(&mut self, command: &C) -> (r: Result<
        (),
        SessionError,
    >)
        ensures
            old(self).stream.fault_free() ==> !(r matches Err(SessionError::Fault(_)))
                && final(self).stream.fault_free(),
            (match r {
                Ok(_) => final(self).stream.sent() == old(self).stream.sent() + old(self).stream.pending() + wire_line(command.name_spec(), command.args_spec())
                    && final(self).stream.pending() == Seq::<char>::empty() && final(self).stream.instream() == old(self).stream.instream() && final(self).buffer
                    == old(self).buffer,
                Err(SessionError::Fault(_)) => true,
                Err(_) => false,
            }),
    {
        let line = encode_command(command);
        match self.stream.write_text(line.as_str()) {
            Err(f) => {
                return Err(SessionError::Fault(f));
            },
            Ok(_) => (),
        }
        match self.stream.flush() {
            Err(f) => {
                return Err(SessionError::Fault(f));
            },
            Ok(_) => (),
        }
        Ok(())
    }
}

} // verus!
