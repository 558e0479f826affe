//! The message layer: what one decoded JSON value means to a session.
//!
//! A QMP peer sends exactly three kinds of lines — the opening
//! greeting, command responses, and asynchronous events — all on one
//! channel.  They are told apart by field presence, in a fixed
//! priority: a `"QMP"` key makes a greeting, an `"event"` key makes an
//! event, otherwise a `"return"` or `"error"` key makes a response.
//! A QGA peer sends responses only.

use vstd::prelude::*;

use crate::channel::IoFault;
use crate::json::Json;
use crate::json::JsonV;
use crate::json::entries_model;
use crate::json::json_model;
use crate::json::lemma_entries_model;
use crate::json::lemma_seq_model;
use crate::json::seq_model;

verus! {

broadcast use vstd::seq::group_seq_axioms;

/// The category of a remote-reported failure.
#[derive(Debug, Clone, Copy, PartialEq, Eq, Structural)]
pub enum ErrorClass {
    GenericError,
    CommandNotFound,
    DeviceNotActive,
    DeviceNotFound,
    KVMMissingCap,
}

/// A structured failure reported by the peer; distinct from transport
/// failures, and safe to handle without discarding the session.
#[derive(Debug, PartialEq)]
pub struct Error {
    pub class: ErrorClass,
    pub desc: String,
}

#[derive(Debug, Clone, Copy, PartialEq, Eq, Structural)]
pub struct Timestamp {
    pub seconds: i64,
    pub microseconds: i64,
}

/// An asynchronous, un-correlated notification pushed by a QMP peer.
#[derive(Debug, PartialEq)]
pub struct Event {
    pub name: String,
    pub data: Json,
    pub timestamp: Timestamp,
}

/// One advertised greeting capability; unrecognized ones are kept as
/// their raw value rather than rejected.
#[derive(Debug, PartialEq)]
pub enum QmpCapability {
    OutOfBand,
    Unknown(Json),
}

/// The recognized capabilities, as an enumerable type.
#[allow(non_camel_case_types)]
#[derive(Debug, Clone, Copy, PartialEq, Eq, Structural)]
pub enum QMPCapability {
    oob,
}

#[derive(Debug, Clone, Copy, PartialEq, Eq, Structural)]
pub struct VersionTriple {
    pub major: i64,
    pub minor: i64,
    pub micro: i64,
}

#[derive(Debug, PartialEq)]
pub struct VersionInfo {
    pub qemu: VersionTriple,
    pub package: String,
}

/// The greeting payload: version descriptor and advertised capability
/// flags; immutable once received.
#[allow(non_snake_case)]
#[derive(Debug, PartialEq)]
pub struct QMP {
    pub version: VersionInfo,
    pub capabilities: Vec<QmpCapability>,
}

/// The greeting envelope as it stands on the wire.
#[allow(non_snake_case)]
#[derive(Debug, PartialEq)]
pub struct QapiCapabilities {
    pub QMP: QMP,
}

/// The three-way union a QMP input line decodes to.
#[derive(Debug, PartialEq)]
pub enum QmpMessage {
    Greeting(QapiCapabilities),
    Response(Result<Json, Error>),
    Event(Event),
}

/// Why a session call failed.
#[derive(Debug, PartialEq)]
pub enum SessionError {
    /// A transport failure, propagated unchanged.
    Fault(IoFault),
    /// The stream ended while a response was awaited.
    UnexpectedEof,
    /// A line that is not valid JSON, or matches no expected shape.
    Decode,
    /// A well-formed message of the wrong kind for the current state.
    InvalidData,
    /// A failure the peer reported; surfaced by the calls that consume
    /// the response themselves.
    Remote(Error),
}

// ---------------------------------------------------------------------------
// Models.
// ---------------------------------------------------------------------------

pub struct ErrV {
    pub class: ErrorClass,
    pub desc: Seq<char>,
}

pub struct TsV {
    pub seconds: int,
    pub microseconds: int,
}

pub struct EventV {
    pub name: Seq<char>,
    pub data: JsonV,
    pub timestamp: TsV,
}

pub enum CapV {
    OutOfBand,
    Unknown(JsonV),
}

pub struct TripleV {
    pub major: int,
    pub minor: int,
    pub micro: int,
}

pub struct VersionV {
    pub qemu: TripleV,
    pub package: Seq<char>,
}

pub struct GreetingV {
    pub version: VersionV,
    pub capabilities: Seq<CapV>,
}

pub enum MsgV {
    Greeting(GreetingV),
    Response(Result<JsonV, ErrV>),
    Event(EventV),
}

pub open spec fn error_model(e: Error) -> ErrV {
    ErrV { class: e.class, desc: e.desc@ }
}

pub open spec fn ts_model(t: Timestamp) -> TsV {
    TsV { seconds: t.seconds as int, microseconds: t.microseconds as int }
}

pub open spec fn event_model(e: Event) -> EventV {
    EventV { name: e.name@, data: json_model(e.data), timestamp: ts_model(e.timestamp) }
}

pub open spec fn cap_model(c: QmpCapability) -> CapV {
    match c {
        QmpCapability::OutOfBand => CapV::OutOfBand,
        QmpCapability::Unknown(v) => CapV::Unknown(json_model(v)),
    }
}

pub open spec fn caps_model(s: Seq<QmpCapability>) -> Seq<CapV>
    decreases s.len(),
{
    if s.len() == 0 {
        Seq::empty()
    } else {
        caps_model(s.drop_last()).push(cap_model(s.last()))
    }
}

pub proof fn lemma_caps_model(s: Seq<QmpCapability>)
    ensures
        caps_model(s).len() == s.len(),
        forall|i: int| 0 <= i < s.len() ==> caps_model(s)[i] == cap_model(s[i]),
    decreases s.len(),
{
    if s.len() > 0 {
        lemma_caps_model(s.drop_last());
    }
}

pub open spec fn triple_model(t: VersionTriple) -> TripleV {
    TripleV { major: t.major as int, minor: t.minor as int, micro: t.micro as int }
}

pub open spec fn version_model(v: VersionInfo) -> VersionV {
    VersionV { qemu: triple_model(v.qemu), package: v.package@ }
}

pub open spec fn qmp_model(q: QMP) -> GreetingV {
    GreetingV { version: version_model(q.version), capabilities: caps_model(
        q.capabilities@,
    ) }
}

pub open spec fn greeting_model(g: QapiCapabilities) -> GreetingV {
    qmp_model(g.QMP)
}

pub open spec fn resp_model(r: Result<Json, Error>) -> Result<JsonV, ErrV> {
    match r {
        Ok(v) => Ok(json_model(v)),
        Err(e) => Err(error_model(e)),
    }
}

pub open spec fn msg_model(m: QmpMessage) -> MsgV {
    match m {
        QmpMessage::Greeting(g) => MsgV::Greeting(greeting_model(g)),
        QmpMessage::Response(r) => MsgV::Response(resp_model(r)),
        QmpMessage::Event(e) => MsgV::Event(event_model(e)),
    }
}

// ---------------------------------------------------------------------------
// Classification: what a decoded value means.
// ---------------------------------------------------------------------------

/// First binding of `key` in an object's members.
pub open spec fn obj_get_from(ms: Seq<(Seq<char>, JsonV)>, i: int, key: Seq<char>) -> Option<
    JsonV,
>
    decreases ms.len() - i,
{
    if 0 <= i < ms.len() {
        if ms[i].0 == key {
            Some(ms[i].1)
        } else {
            obj_get_from(ms, i + 1, key)
        }
    } else {
        None
    }
}

pub open spec fn obj_get(ms: Seq<(Seq<char>, JsonV)>, key: Seq<char>) -> Option<JsonV> {
    obj_get_from(ms, 0, key)
}

pub open spec fn class_of_name(s: Seq<char>) -> Option<ErrorClass> {
    if s == "GenericError"@ {
        Some(ErrorClass::GenericError)
    } else if s == "CommandNotFound"@ {
        Some(ErrorClass::CommandNotFound)
    } else if s == "DeviceNotActive"@ {
        Some(ErrorClass::DeviceNotActive)
    } else if s == "DeviceNotFound"@ {
        Some(ErrorClass::DeviceNotFound)
    } else if s == "KVMMissingCap"@ {
        Some(ErrorClass::KVMMissingCap)
    } else {
        None
    }
}

/// The `{"class": ..., "desc": ...}` error payload.
pub open spec fn error_of(v: JsonV) -> Option<ErrV> {
    match v {
        JsonV::Obj(ms) => match (obj_get(ms, "class"@), obj_get(ms, "desc"@)) {
            (Some(JsonV::Text(cn)), Some(JsonV::Text(d))) => match class_of_name(cn) {
                Some(c) => Some(ErrV { class: c, desc: d }),
                None => None,
            },
            _ => None,
        },
        _ => None,
    }
}

/// A response-shaped value: `{"return": ...}` or `{"error": {...}}`.
pub open spec fn response_of(v: JsonV) -> Option<Result<JsonV, ErrV>> {
    match v {
        JsonV::Obj(ms) => match obj_get(ms, "return"@) {
            Some(rv) => Some(Ok(rv)),
            None => match obj_get(ms, "error"@) {
                Some(ev) => match error_of(ev) {
                    Some(e) => Some(Err(e)),
                    None => None,
                },
                None => None,
            },
        },
        _ => None,
    }
}

pub open spec fn ts_of(v: JsonV) -> Option<TsV> {
    match v {
        JsonV::Obj(ms) => match (obj_get(ms, "seconds"@), obj_get(ms, "microseconds"@)) {
            (Some(JsonV::Int(sc)), Some(JsonV::Int(mc))) => Some(
                TsV { seconds: sc, microseconds: mc },
            ),
            _ => None,
        },
        _ => None,
    }
}

/// An event-shaped object: a text `"event"` name, a mandatory
/// `"timestamp"`, and an optional `"data"` payload.
pub open spec fn event_of(ms: Seq<(Seq<char>, JsonV)>) -> Option<EventV> {
    match obj_get(ms, "event"@) {
        Some(JsonV::Text(nm)) => match obj_get(ms, "timestamp"@) {
            Some(tv) => match ts_of(tv) {
                Some(t) => Some(
                    EventV {
                        name: nm,
                        data: (match obj_get(ms, "data"@) {
                            Some(d) => d,
                            None => JsonV::Null,
                        }),
                        timestamp: t,
                    },
                ),
                None => None,
            },
            None => None,
        },
        _ => None,
    }
}

/// A capability entry: the string `"oob"` is recognized, anything else
/// is kept as an unknown.
pub open spec fn cap_of(v: JsonV) -> CapV {
    if v == JsonV::Text("oob"@) {
        CapV::OutOfBand
    } else {
        CapV::Unknown(v)
    }
}

pub open spec fn caps_of(s: Seq<JsonV>) -> Seq<CapV>
    decreases s.len(),
{
    if s.len() == 0 {
        Seq::empty()
    } else {
        caps_of(s.drop_last()).push(cap_of(s.last()))
    }
}

pub proof fn lemma_caps_of(s: Seq<JsonV>)
    ensures
        caps_of(s).len() == s.len(),
        forall|i: int| 0 <= i < s.len() ==> caps_of(s)[i] == cap_of(s[i]),
    decreases s.len(),
{
    if s.len() > 0 {
        lemma_caps_of(s.drop_last());
    }
}

pub open spec fn triple_of(v: JsonV) -> Option<TripleV> {
    match v {
        JsonV::Obj(ms) => match (
            obj_get(ms, "major"@),
            obj_get(ms, "minor"@),
            obj_get(ms, "micro"@),
        ) {
            (Some(JsonV::Int(a)), Some(JsonV::Int(b)), Some(JsonV::Int(c))) => Some(
                TripleV { major: a, minor: b, micro: c },
            ),
            _ => None,
        },
        _ => None,
    }
}

pub open spec fn version_of(v: JsonV) -> Option<VersionV> {
    match v {
        JsonV::Obj(ms) => match (obj_get(ms, "qemu"@), obj_get(ms, "package"@)) {
            (Some(q), Some(JsonV::Text(p))) => match triple_of(q) {
                Some(t) => Some(VersionV { qemu: t, package: p }),
                None => None,
            },
            _ => None,
        },
        _ => None,
    }
}

/// The value under a greeting's `"QMP"` key.
pub open spec fn greeting_of(v: JsonV) -> Option<GreetingV> {
    match v {
        JsonV::Obj(ms) => match (obj_get(ms, "version"@), obj_get(ms, "capabilities"@)) {
            (Some(vv), Some(JsonV::Arr(cs))) => match version_of(vv) {
                Some(ver) => Some(GreetingV { version: ver, capabilities: caps_of(cs) }),
                None => None,
            },
            _ => None,
        },
        _ => None,
    }
}

/// The three-way split of one decoded QMP value, in fixed priority:
/// greeting, then event, then response.
pub open spec fn classify(v: JsonV) -> Option<MsgV> {
    match v {
        JsonV::Obj(ms) => match obj_get(ms, "QMP"@) {
            Some(g) => match greeting_of(g) {
                Some(gr) => Some(MsgV::Greeting(gr)),
                None => None,
            },
            None => match obj_get(ms, "event"@) {
                Some(_) => match event_of(ms) {
                    Some(e) => Some(MsgV::Event(e)),
                    None => None,
                },
                None => match response_of(v) {
                    Some(r) => Some(MsgV::Response(r)),
                    None => None,
                },
            },
        },
        _ => None,
    }
}

/// What one raw input line means to a QMP session.
pub open spec fn msg_of_line(l: Seq<char>) -> Option<MsgV> {
    match crate::json::parse_text(l) {
        Some(v) => classify(v),
        None => None,
    }
}

// ---------------------------------------------------------------------------
// The executable classifier.
// ---------------------------------------------------------------------------

fn text_is(s: &String, lit: &str) -> (b: bool)
    ensures
        b == (s@ == lit@),
{
    *s == String::from_str(lit)
}

/// First binding of `key` among an object's members.
pub fn obj_find<'a>(entries: &'a Vec<(String, Json)>, key: &str) -> (r: Option<&'a Json>)
    ensures
        (match r {
            Some(v) => obj_get(entries_model(entries@), key@) == Some(json_model(*v)),
            None => obj_get(entries_model(entries@), key@) is None,
        }),
{
    let ghost m = entries_model(entries@);
    proof {
        lemma_entries_model(entries@);
    }
    let mut i: usize = 0;
    while i < entries.len()
        invariant
            m == entries_model(entries@),
            m.len() == entries@.len(),
            forall|q: int| 0 <= q < entries@.len() ==> m[q] == (
                entries@[q].0@,
                json_model(entries@[q].1),
            ),
            i <= entries.len(),
            obj_get_from(m, 0, key@) == obj_get_from(m, i as int, key@),
        decreases entries.len() - i,
    {
        if text_is(&entries[i].0, key) {
            return Some(&entries[i].1);
        }
        i = i + 1;
    }
    None
}

fn class_x(s: &String) -> (r: Option<ErrorClass>)
    ensures
        r == class_of_name(s@),
{
    if text_is(s, "GenericError") {
        Some(ErrorClass::GenericError)
    } else if text_is(s, "CommandNotFound") {
        Some(ErrorClass::CommandNotFound)
    } else if text_is(s, "DeviceNotActive") {
        Some(ErrorClass::DeviceNotActive)
    } else if text_is(s, "DeviceNotFound") {
        Some(ErrorClass::DeviceNotFound)
    } else if text_is(s, "KVMMissingCap") {
        Some(ErrorClass::KVMMissingCap)
    } else {
        None
    }
}

fn error_x(v: &Json) -> (r: Option<Error>)
    ensures
        (match r {
            Some(e) => error_of(json_model(*v)) == Some(error_model(e)),
            None => error_of(json_model(*v)) is None,
        }),
{
    match v {
        Json::Obj(ms) => {
            match (obj_find(ms, "class"), obj_find(ms, "desc")) {
                (Some(Json::Text(c)), Some(Json::Text(d))) => match class_x(c) {
                    Some(cl) => Some(Error { class: cl, desc: d.clone() }),
                    None => None,
                },
                _ => None,
            }
        },
        _ => None,
    }
}

/// Reads a response-shaped value: `{"return": ...}` or
/// `{"error": {...}}`; anything else is no response.
pub fn classify_response(v: &Json) -> (r: Option<Result<Json, Error>>)
    ensures
        (match r {
            Some(res) => response_of(json_model(*v)) == Some(resp_model(res)),
            None => response_of(json_model(*v)) is None,
        }),
{
    match v {
        Json::Obj(ms) => match obj_find(ms, "return") {
            Some(rv) => Some(Ok(rv.clone())),
            None => match obj_find(ms, "error") {
                Some(ev) => match error_x(ev) {
                    Some(e) => Some(Err(e)),
                    None => None,
                },
                None => None,
            },
        },
        _ => None,
    }
}

fn ts_x(v: &Json) -> (r: Option<Timestamp>)
    ensures
        (match r {
            Some(t) => ts_of(json_model(*v)) == Some(ts_model(t)),
            None => ts_of(json_model(*v)) is None,
        }),
{
    match v {
        Json::Obj(ms) => match (obj_find(ms, "seconds"), obj_find(ms, "microseconds")) {
            (Some(Json::Int(a)), Some(Json::Int(b))) => Some(
                Timestamp { seconds: *a, microseconds: *b },
            ),
            _ => None,
        },
        _ => None,
    }
}

fn event_x(ms: &Vec<(String, Json)>) -> (r: Option<Event>)
    ensures
        (match r {
            Some(e) => event_of(entries_model(ms@)) == Some(event_model(e)),
            None => event_of(entries_model(ms@)) is None,
        }),
{
    match obj_find(ms, "event") {
        Some(Json::Text(nm)) => match obj_find(ms, "timestamp") {
            Some(tv) => match ts_x(tv) {
                Some(t) => {
                    let data = match obj_find(ms, "data") {
                        Some(d) => d.clone(),
                        None => Json::Null,
                    };
                    Some(Event { name: nm.clone(), data, timestamp: t })
                },
                None => None,
            },
            None => None,
        },
        _ => None,
    }
}

fn caps_x(items: &Vec<Json>) -> (r: Vec<QmpCapability>)
    ensures
        caps_model(r@) == caps_of(seq_model(items@)),
{
    let ghost m = seq_model(items@);
    proof {
        lemma_seq_model(items@);
        lemma_caps_of(m);
    }
    let mut out: Vec<QmpCapability> = Vec::new();
    let mut i: usize = 0;
    while i < items.len()
        invariant
            m == seq_model(items@),
            m.len() == items@.len(),
            forall|q: int| 0 <= q < items@.len() ==> m[q] == json_model(items@[q]),
            caps_of(m).len() == m.len(),
            forall|q: int| 0 <= q < m.len() ==> caps_of(m)[q] == cap_of(m[q]),
            i <= items.len(),
            out@.len() == i,
            forall|q: int| 0 <= q < i ==> cap_model(out@[q]) == cap_of(m[q]),
        decreases items.len() - i,
    {
        let item = &items[i];
        let isoob = match item {
            Json::Text(s) => text_is(s, "oob"),
            _ => false,
        };
        if isoob {
            out.push(QmpCapability::OutOfBand);
        } else {
            out.push(QmpCapability::Unknown(item.clone()));
        }
        i = i + 1;
    }
    proof {
        lemma_caps_model(out@);
        assert(caps_model(out@) =~= caps_of(m));
    }
    out
}

fn triple_x(v: &Json) -> (r: Option<VersionTriple>)
    ensures
        (match r {
            Some(t) => triple_of(json_model(*v)) == Some(triple_model(t)),
            None => triple_of(json_model(*v)) is None,
        }),
{
    match v {
        Json::Obj(ms) => match (
            obj_find(ms, "major"),
            obj_find(ms, "minor"),
            obj_find(ms, "micro"),
        ) {
            (Some(Json::Int(a)), Some(Json::Int(b)), Some(Json::Int(c))) => Some(
                VersionTriple { major: *a, minor: *b, micro: *c },
            ),
            _ => None,
        },
        _ => None,
    }
}

fn version_x(v: &Json) -> (r: Option<VersionInfo>)
    ensures
        (match r {
            Some(vi) => version_of(json_model(*v)) == Some(version_model(vi)),
            None => version_of(json_model(*v)) is None,
        }),
{
    match v {
        Json::Obj(ms) => match (obj_find(ms, "qemu"), obj_find(ms, "package")) {
            (Some(q), Some(Json::Text(p))) => match triple_x(q) {
                Some(t) => Some(VersionInfo { qemu: t, package: p.clone() }),
                None => None,
            },
            _ => None,
        },
        _ => None,
    }
}

fn greeting_x(g: &Json) -> (r: Option<QMP>)
    ensures
        (match r {
            Some(q) => greeting_of(json_model(*g)) == Some(qmp_model(q)),
            None => greeting_of(json_model(*g)) is None,
        }),
{
    match g {
        Json::Obj(ms) => match (obj_find(ms, "version"), obj_find(ms, "capabilities")) {
            (Some(vv), Some(Json::Arr(cs))) => match version_x(vv) {
                Some(ver) => Some(QMP { version: ver, capabilities: caps_x(cs) }),
                None => None,
            },
            _ => None,
        },
        _ => None,
    }
}

/// Whether a capability set advertises out-of-band execution.
pub open spec fn has_oob(caps: Seq<CapV>) -> bool {
    exists|i: int| 0 <= i < caps.len() && caps[i] is OutOfBand
}

/// The recognized capabilities of a set, in order; unrecognized ones
/// are silently ignored.
pub open spec fn known_caps(caps: Seq<CapV>) -> Seq<QMPCapability>
    decreases caps.len(),
{
    if caps.len() == 0 {
        Seq::empty()
    } else {
        known_caps(caps.drop_last()) + (if caps.last() is OutOfBand {
            seq![QMPCapability::oob]
        } else {
            Seq::empty()
        })
    }
}

impl QapiCapabilities {
    /// Whether the peer advertised out-of-band command execution.
    pub fn supports_oob(&self) -> (r: bool)
        ensures
            r == has_oob(greeting_model(*self).capabilities),
    {
        let caps = &self.QMP.capabilities;
        proof {
            lemma_caps_model(caps@);
        }
        let mut i: usize = 0;
        while i < caps.len()
            invariant
                caps == &self.QMP.capabilities,
                i <= caps@.len(),
                caps_model(caps@).len() == caps@.len(),
                forall|q: int| 0 <= q < caps@.len() ==> caps_model(caps@)[q] == cap_model(
                    caps@[q],
                ),
                forall|q: int| 0 <= q < i ==> !(caps_model(caps@)[q] is OutOfBand),
            decreases caps@.len() - i,
        {
            match &caps[i] {
                QmpCapability::OutOfBand => {
                    proof {
                        assert(caps_model(caps@)[i as int] is OutOfBand);
                    }
                    return true;
                },
                _ => (),
            }
            i = i + 1;
        }
        false
    }

    /// Enumerates the recognized capability flags, ignoring unknown
    /// ones rather than failing on them.
    pub fn capabilities(&self) -> (r: Vec<QMPCapability>)
        ensures
            r@ == known_caps(greeting_model(*self).capabilities),
    {
        let caps = &self.QMP.capabilities;
        let ghost m = caps_model(caps@);
        proof {
            lemma_caps_model(caps@);
        }
        let mut out: Vec<QMPCapability> = Vec::new();
        let mut i: usize = 0;
        while i < caps.len()
            invariant
                caps == &self.QMP.capabilities,
                i <= caps@.len(),
                m == caps_model(caps@),
                m.len() == caps@.len(),
                forall|q: int| 0 <= q < caps@.len() ==> m[q] == cap_model(caps@[q]),
                out@ == known_caps(m.take(i as int)),
            decreases caps@.len() - i,
        {
            match &caps[i] {
                QmpCapability::OutOfBand => {
                    out.push(QMPCapability::oob);
                },
                _ => (),
            }
            proof {
                assert(m.take(i + 1).drop_last() =~= m.take(i as int));
                assert(m.take(i + 1).last() == m[i as int]);
                assert(out@ =~= known_caps(m.take(i + 1)));
            }
            i = i + 1;
        }
        proof {
            assert(m.take(caps@.len() as int) =~= m);
        }
        out
    }
}

/// Splits one decoded QMP value into greeting, event or response, in
/// that fixed priority.
pub fn classify_message(v: &Json) -> (r: Option<QmpMessage>)
    ensures
        (match r {
            Some(m) => classify(json_model(*v)) == Some(msg_model(m)),
            None => classify(json_model(*v)) is None,
        }),
{
    match v {
        Json::Obj(ms) => match obj_find(ms, "QMP") {
            Some(g) => match greeting_x(g) {
                Some(q) => Some(QmpMessage::Greeting(QapiCapabilities { QMP: q })),
                None => None,
            },
            None => match obj_find(ms, "event") {
                Some(_) => match event_x(ms) {
                    Some(e) => Some(QmpMessage::Event(e)),
                    None => None,
                },
                None => match classify_response(v) {
                    Some(res) => Some(QmpMessage::Response(res)),
                    None => None,
                },
            },
        },
        _ => None,
    }
}

} // verus!
