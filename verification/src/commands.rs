//! The command contract and the commands the sessions themselves use.
//!
//! A command is a wire name plus optional arguments; on the wire it is
//! the single line `{"execute": <name>, "arguments": <args>}` (the
//! `"arguments"` member omitted when a command has none), terminated
//! by one newline byte.

use vstd::prelude::*;

use crate::json::Json;
use crate::json::JsonV;
use crate::json::entries_model;
use crate::json::json_model;
use crate::json::lemma_entries_model;
use crate::json::ser_val;
use crate::wire::QMPCapability;

verus! {

broadcast use vstd::seq::group_seq_axioms;

/// One remote procedure call: a stable wire name and the arguments to
/// send, if any.
pub trait Command {
    /// The wire name of this command.
    spec fn name_spec(&self) -> Seq<char>;

    /// The arguments member, or `None` to omit it.
    spec fn args_spec(&self) -> Option<JsonV>;

    fn wire_name(&self) -> (r: String)
        ensures
            r@ == self.name_spec(),
    ;

    fn arguments(&self) -> (r: Option<Json>)
        ensures
            (match r {
                Some(j) => self.args_spec() == Some(json_model(j)),
                None => self.args_spec() is None,
            }),
    ;
}

/// The wire envelope of a command.
pub open spec fn envelope(name: Seq<char>, args: Option<JsonV>) -> JsonV {
    match args {
        None => JsonV::Obj(seq![("execute"@, JsonV::Text(name))]),
        Some(a) => JsonV::Obj(
            seq![("execute"@, JsonV::Text(name)), ("arguments"@, a)],
        ),
    }
}

/// The full line a command is sent as, newline terminator included.
pub open spec fn wire_line(name: Seq<char>, args: Option<JsonV>) -> Seq<char> {
    ser_val(envelope(name, args)) + seq!['\n']
}

/// The capabilities-negotiation command that completes a QMP
/// handshake.
#[allow(non_camel_case_types)]
#[derive(Debug, PartialEq)]
pub struct qmp_capabilities {
    pub enable: Option<Vec<QMPCapability>>,
}

pub open spec fn cap_name(c: QMPCapability) -> JsonV {
    JsonV::Text("oob"@)
}

pub open spec fn cap_names(s: Seq<QMPCapability>) -> Seq<JsonV> {
    Seq::new(s.len(), |i: int| cap_name(s[i]))
}

impl Command for qmp_capabilities {
    open spec fn name_spec(&self) -> Seq<char> {
        "qmp_capabilities"@
    }

    open spec fn args_spec(&self) -> Option<JsonV> {
        match self.enable {
            None => None,
            Some(v) => Some(
                JsonV::Obj(seq![("enable"@, JsonV::Arr(cap_names(v@)))]),
            ),
        }
    }

    fn wire_name(&self) -> (r: String) {
        String::from_str("qmp_capabilities")
    }

    fn arguments(&self) -> (r: Option<Json>) {
        match &self.enable {
            None => None,
            Some(v) => {
                let mut items: Vec<Json> = Vec::new();
                let mut i: usize = 0;
                while i < v.len()
                    invariant
                        i <= v.len(),
                        items@.len() == i,
                        forall|q: int| 0 <= q < i ==> items@[q] == Json::Text(
                            items@[q]->Text_0,
                        ) && items@[q]->Text_0@ == "oob"@,
                    decreases v.len() - i,
                {
                    items.push(Json::Text(String::from_str("oob")));
                    i = i + 1;
                }
                let mut entries: Vec<(String, Json)> = Vec::new();
                entries.push((String::from_str("enable"), Json::Arr(items)));
                proof {
                    crate::json::lemma_seq_model(items@);
                    assert(crate::json::seq_model(items@) =~= cap_names(v@));
                    lemma_entries_model(entries@);
                    assert(entries_model(entries@) =~= seq![
                        ("enable"@, JsonV::Arr(cap_names(v@))),
                    ]);
                }
                Some(Json::Obj(entries))
            },
        }
    }
}

/// A lightweight query used only to poll the connection.
#[allow(non_camel_case_types)]
#[derive(Debug, PartialEq)]
pub struct query_version {}

impl Command for query_version {
    open spec fn name_spec(&self) -> Seq<char> {
        "query-version"@
    }

    open spec fn args_spec(&self) -> Option<JsonV> {
        None
    }

    fn wire_name(&self) -> (r: String) {
        String::from_str("query-version")
    }

    fn arguments(&self) -> (r: Option<Json>) {
        None
    }
}

/// The QGA synchronization command: the peer must echo the `id` back.
#[allow(non_camel_case_types)]
#[derive(Debug, PartialEq)]
pub struct guest_sync {
    pub id: i64,
}

impl Command for guest_sync {
    open spec fn name_spec(&self) -> Seq<char> {
        "guest-sync"@
    }

    open spec fn args_spec(&self) -> Option<JsonV> {
        Some(JsonV::Obj(seq![("id"@, JsonV::Int(self.id as int))]))
    }

    fn wire_name(&self) -> (r: String) {
        String::from_str("guest-sync")
    }

    fn arguments(&self) -> (r: Option<Json>) {
        let mut entries: Vec<(String, Json)> = Vec::new();
        entries.push((String::from_str("id"), Json::Int(self.id)));
        proof {
            lemma_entries_model(entries@);
            assert(entries_model(entries@) =~= seq![("id"@, JsonV::Int(self.id as int))]);
        }
        Some(Json::Obj(entries))
    }
}

impl guest_sync {
    /// Whether a success payload is exactly the echo of this command's
    /// serial: the test the handshake's verdict rests on.
    pub fn echoed(&self, v: &Json) -> (r: bool)
        ensures
            r == (json_model(*v) == JsonV::Int(self.id as int)),
    {
        match v {
            Json::Int(n) => *n == self.id,
            _ => false,
        }
    }
}

/// Hot-plugs a device: free-form properties around a mandatory driver
/// name.
#[allow(non_camel_case_types)]
#[derive(Debug, PartialEq)]
pub struct device_add(pub Vec<(String, Json)>);

/// First index bound to `key` among a dictionary's members.
pub open spec fn key_idx_from(ms: Seq<(Seq<char>, JsonV)>, i: int, key: Seq<char>) -> Option<
    int,
>
    decreases ms.len() - i,
{
    if 0 <= i < ms.len() {
        if ms[i].0 == key {
            Some(i)
        } else {
            key_idx_from(ms, i + 1, key)
        }
    } else {
        None
    }
}

/// A single-binding insert: replaces the first binding of `key` in
/// place, or appends one when the key is absent.
pub open spec fn upsert(ms: Seq<(Seq<char>, JsonV)>, key: Seq<char>, v: JsonV) -> Seq<
    (Seq<char>, JsonV),
> {
    match key_idx_from(ms, 0, key) {
        Some(i) => ms.update(i, (key, v)),
        None => ms.push((key, v)),
    }
}

/// Extends a dictionary with properties in order, each one a single
/// binding: a later property overrides any earlier binding of its key.
pub open spec fn dict_extend(
    base: Seq<(Seq<char>, JsonV)>,
    props: Seq<(String, Json)>,
) -> Seq<(Seq<char>, JsonV)>
    decreases props.len(),
{
    if props.len() == 0 {
        base
    } else {
        dict_extend(upsert(base, props[0].0@, json_model(props[0].1)), props.drop_first())
    }
}

/// The dictionary `device_add::new` builds: driver, then the optional
/// id and bus, then the caller's properties in order, one binding per
/// key, with a later property overriding any earlier binding.
pub open spec fn device_add_entries(
    driver: String,
    id: Option<String>,
    bus: Option<String>,
    props: Seq<(String, Json)>,
) -> Seq<(Seq<char>, JsonV)> {
    dict_extend(
        seq![("driver"@, JsonV::Text(driver@))] + (match id {
            Some(s) => seq![("id"@, JsonV::Text(s@))],
            None => Seq::empty(),
        }) + (match bus {
            Some(s) => seq![("bus"@, JsonV::Text(s@))],
            None => Seq::empty(),
        }),
        props,
    )
}

/// Inserts one binding, keeping keys unique: the first binding of the
/// key is replaced in place, otherwise the binding is appended.
fn dict_upsert(dict: &mut Vec<(String, Json)>, key: String, v: Json)
    ensures
        entries_model(final(dict)@) == upsert(
            entries_model(old(dict)@),
            key@,
            json_model(v),
        ),
{
    let ghost m = entries_model(dict@);
    proof {
        lemma_entries_model(dict@);
    }
    let mut i: usize = 0;
    while i < dict.len()
        invariant
            dict@ == old(dict)@,
            m == entries_model(dict@),
            m.len() == dict@.len(),
            forall|q: int| 0 <= q < dict@.len() ==> m[q] == (
                dict@[q].0@,
                json_model(dict@[q].1),
            ),
            i <= dict@.len(),
            key_idx_from(m, 0, key@) == key_idx_from(m, i as int, key@),
        decreases dict@.len() - i,
    {
        if dict[i].0 == key {
            let ghost before = dict@;
            let _ = dict.remove(i);
            dict.insert(i, (key, v));
            proof {
                assert(m[i as int].0 == key@);
                assert(key_idx_from(m, i as int, key@) == Some(i as int));
                assert(dict@ =~= before.update(i as int, (key, v)));
                lemma_entries_model(dict@);
                assert(entries_model(dict@) =~= m.update(
                    i as int,
                    (key@, json_model(v)),
                ));
            }
            return ;
        }
        i = i + 1;
    }
    dict.push((key, v));
    proof {
        lemma_entries_model(dict@);
        assert(entries_model(dict@) =~= m.push((key@, json_model(v))));
    }
}

impl device_add {
    pub fn new(
        driver: String,
        id: Option<String>,
        bus: Option<String>,
        props: Vec<(String, Json)>,
    ) -> (r: device_add)
        ensures
            entries_model(r.0@) == device_add_entries(driver, id, bus, props@),
    {
        let ghost p0 = props@;
        let mut dict: Vec<(String, Json)> = Vec::new();
        dict.push((String::from_str("driver"), Json::Text(driver)));
        match id {
            Some(v) => dict.push((String::from_str("id"), Json::Text(v))),
            None => (),
        }
        match bus {
            Some(v) => dict.push((String::from_str("bus"), Json::Text(v))),
            None => (),
        }
        proof {
            lemma_entries_model(dict@);
            assert(entries_model(dict@) =~= seq![("driver"@, JsonV::Text(driver@))]
                + (match id {
                Some(s) => seq![("id"@, JsonV::Text(s@))],
                None => Seq::empty(),
            }) + (match bus {
                Some(s) => seq![("bus"@, JsonV::Text(s@))],
                None => Seq::empty(),
            }));
        }
        let ghost base = entries_model(dict@);
        let mut rest = props;
        while rest.len() > 0
            invariant
                dict_extend(base, p0) == dict_extend(entries_model(dict@), rest@),
            decreases rest.len(),
        {
            let ghost r0 = rest@;
            let ghost m0 = entries_model(dict@);
            let e = rest.remove(0);
            dict_upsert(&mut dict, e.0, e.1);
            proof {
                assert(rest@ =~= r0.drop_first());
                assert(dict_extend(m0, r0) == dict_extend(
                    upsert(m0, r0[0].0@, json_model(r0[0].1)),
                    r0.drop_first(),
                ));
            }
        }
        device_add(dict)
    }
}

impl Command for device_add {
    open spec fn name_spec(&self) -> Seq<char> {
        "device_add"@
    }

    open spec fn args_spec(&self) -> Option<JsonV> {
        Some(JsonV::Obj(entries_model(self.0@)))
    }

    fn wire_name(&self) -> (r: String) {
        String::from_str("device_add")
    }

    fn arguments(&self) -> (r: Option<Json>) {
        let mut out: Vec<(String, Json)> = Vec::new();
        let mut i: usize = 0;
        while i < self.0.len()
            invariant
                i <= self.0@.len(),
                out@.len() == i,
                forall|q: int| 0 <= q < i ==> out@[q].0@ == self.0@[q].0@ && json_model(
                    out@[q].1,
                ) == json_model(self.0@[q].1),
            decreases self.0@.len() - i,
        {
            let k = self.0[i].0.clone();
            let v = self.0[i].1.clone();
            out.push((k, v));
            i = i + 1;
        }
        proof {
            lemma_entries_model(out@);
            lemma_entries_model(self.0@);
            assert(entries_model(out@) =~= entries_model(self.0@));
        }
        Some(Json::Obj(out))
    }
}

} // verus!
