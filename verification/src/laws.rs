//! Laws of the demultiplexer.
//!
//! These state, over `demux` alone, the guarantees the session
//! contracts hand out: a response-first peer yields its response with
//! the event queue untouched, and events met while a response is
//! awaited are delivered in arrival order, none dropped, none
//! reordered.

use vstd::prelude::*;

use crate::channel::first_line;
use crate::channel::lemma_line_len_at;
use crate::channel::rest_lines;
use crate::commands::envelope;
use crate::json::JsonV;
use crate::json::digit_char;
use crate::json::digit_val;
use crate::json::esc;
use crate::json::int_cap;
use crate::json::is_digit;
use crate::json::is_ws;
use crate::json::lemma_ser_content_concat;
use crate::json::exp_end;
use crate::json::frac_end;
use crate::json::hex_char;
use crate::json::hex_val;
use crate::json::num_end;
use crate::json::num_val;
use crate::json::skip_digits;
use crate::json::parse_items;
use crate::json::parse_members;
use crate::json::parse_number;
use crate::json::parse_string;
use crate::json::parse_text;
use crate::json::parse_value;
use crate::json::ser_content;
use crate::json::ser_entry;
use crate::json::ser_int;
use crate::json::ser_items;
use crate::json::ser_members;
use crate::json::ser_nat;
use crate::json::ser_val;
use crate::json::skip_ws;
use crate::json::unescape;
use crate::qmp::DemuxV;
use crate::qmp::EndV;
use crate::qmp::demux;
use crate::wire::ErrV;
use crate::wire::EventV;
use crate::wire::MsgV;
use crate::wire::msg_of_line;

verus! {

broadcast use vstd::seq::group_seq_axioms;

/// When the first line in wait is a response, the wait ends with
/// exactly that response, queues no event, and consumes one line: a
/// command executed against a peer that echoes a matching response
/// returns its payload and leaves the event queue unchanged.
pub proof fn lemma_demux_reply_first(s: Seq<char>, res: Result<JsonV, ErrV>)
    requires
        s.len() > 0,
        msg_of_line(first_line(s)) == Some(MsgV::Response(res)),
    ensures
        demux(s) == (DemuxV {
            events: Seq::<EventV>::empty(),
            end: EndV::Reply(res),
            rest: rest_lines(s),
        }),
{
}

/// An event line never satisfies the wait: it is queued first, and
/// the wait goes on in the rest of the stream.
pub proof fn lemma_demux_event_first(s: Seq<char>, e: EventV)
    requires
        s.len() > 0,
        msg_of_line(first_line(s)) == Some(MsgV::Event(e)),
    ensures
        demux(s).events == seq![e] + demux(rest_lines(s)).events,
        demux(s).end == demux(rest_lines(s)).end,
        demux(s).rest == demux(rest_lines(s)).rest,
{
}

/// One whole framed line: non-empty, terminated by its only newline.
pub open spec fn is_wire_line(l: Seq<char>) -> bool {
    l.len() > 0 && l.last() == '\n' && (forall|q: int| 0 <= q < l.len() - 1 ==> l[q]
        != '\n')
}

/// Framing is stable under what follows: a whole line is read off the
/// front of any stream it heads.
pub proof fn lemma_first_line_of(l: Seq<char>, t: Seq<char>)
    requires
        is_wire_line(l),
    ensures
        first_line(l + t) == l,
        rest_lines(l + t) == t,
{
    lemma_line_len_at(l + t, l.len() - 1);
    assert(first_line(l + t) =~= l);
    assert(rest_lines(l + t) =~= t);
}

/// Concatenation of framed lines.
pub open spec fn wire_cat(lines: Seq<Seq<char>>) -> Seq<char>
    decreases lines.len(),
{
    if lines.len() == 0 {
        Seq::empty()
    } else {
        lines[0] + wire_cat(lines.drop_first())
    }
}

/// Events received while awaiting a response are preserved in arrival
/// order, never reordered and never interleaved into the response the
/// caller sees: a run of event lines contributes exactly its events,
/// in order, and leaves the outcome to the rest of the stream.
pub proof fn lemma_demux_event_run(lines: Seq<Seq<char>>, evs: Seq<EventV>, tail: Seq<char>)
    requires
        lines.len() == evs.len(),
        forall|i: int| 0 <= i < lines.len() ==> is_wire_line(#[trigger] lines[i]),
        forall|i: int| 0 <= i < lines.len() ==> msg_of_line(#[trigger] lines[i]) == Some(
            MsgV::Event(evs[i]),
        ),
    ensures
        demux(wire_cat(lines) + tail).events == evs + demux(tail).events,
        demux(wire_cat(lines) + tail).end == demux(tail).end,
        demux(wire_cat(lines) + tail).rest == demux(tail).rest,
    decreases lines.len(),
{
    if lines.len() == 0 {
        assert(wire_cat(lines) + tail =~= tail);
        assert(evs + demux(tail).events =~= demux(tail).events);
    } else {
        let s = wire_cat(lines) + tail;
        let l0 = lines[0];
        let rest = lines.drop_first();
        assert(s =~= l0 + (wire_cat(rest) + tail));
        lemma_first_line_of(l0, wire_cat(rest) + tail);
        assert(s.len() > 0);
        assert(first_line(s) == l0);
        assert(rest_lines(s) == wire_cat(rest) + tail);
        lemma_demux_event_first(s, evs[0]);
        lemma_demux_event_run(rest, evs.drop_first(), tail);
        assert(seq![evs[0]] + (evs.drop_first() + demux(tail).events) =~= evs + demux(
            tail,
        ).events);
    }
}

// ---------------------------------------------------------------------------
// Serialization round-trip.
// ---------------------------------------------------------------------------

/// A value the wire can carry: every integer in it fits the wire's
/// 64-bit signed range.
pub open spec fn wf_json(v: JsonV) -> bool
    decreases v,
{
    match v {
        JsonV::Int(n) => i64::MIN <= n <= i64::MAX,
        JsonV::Num(t) => parse_number(t, 0) == Some((JsonV::Num(t), t.len() as int)),
        JsonV::Arr(es) => forall|i: int| 0 <= i < es.len() ==> wf_json(#[trigger] es[i]),
        JsonV::Obj(ms) => forall|i: int| 0 <= i < ms.len() ==> wf_json(
            #[trigger] ms[i].1,
        ),
        _ => true,
    }
}

/// Trailing text that cannot extend a serialized value: nothing a
/// number lexeme could continue with.
pub open spec fn ends_ok(t: Seq<char>) -> bool {
    t.len() == 0 || (!is_digit(t[0]) && t[0] != '.' && t[0] != 'e' && t[0] != 'E')
}

proof fn lemma_digit_inverse(d: int)
    requires
        0 <= d <= 9,
    ensures
        is_digit(digit_char(d)),
        digit_val(digit_char(d)) == d,
{
}

proof fn lemma_ser_nat_digits(m: int)
    requires
        0 <= m,
    ensures
        ser_nat(m).len() >= 1,
        forall|i: int| 0 <= i < ser_nat(m).len() ==> is_digit(#[trigger] ser_nat(m)[i]),
    decreases m,
{
    if m < 10 {
        lemma_digit_inverse(m);
    } else {
        lemma_ser_nat_digits(m / 10);
        lemma_digit_inverse(m % 10);
    }
}

proof fn lemma_hex_inverse(d: int)
    requires
        0 <= d <= 15,
    ensures
        hex_val(hex_char(d)) == d,
{
    if d < 10 {
        lemma_digit_inverse(d);
    }
}

/// Folding a digit run onto an accumulator, as the parser reads it.
spec fn dfold(acc: int, s: Seq<char>) -> int
    decreases s.len(),
{
    if s.len() == 0 {
        acc
    } else {
        dfold(acc * 10 + digit_val(s[0]), s.drop_first())
    }
}

proof fn lemma_dfold_concat(acc: int, a: Seq<char>, b: Seq<char>)
    ensures
        dfold(acc, a + b) == dfold(dfold(acc, a), b),
    decreases a.len(),
{
    if a.len() == 0 {
        assert(a + b =~= b);
    } else {
        assert((a + b)[0] == a[0]);
        assert((a + b).drop_first() =~= a.drop_first() + b);
        lemma_dfold_concat(acc * 10 + digit_val(a[0]), a.drop_first(), b);
    }
}

proof fn lemma_dfold_single(acc: int, c: char)
    ensures
        dfold(acc, seq![c]) == acc * 10 + digit_val(c),
{
    assert(seq![c].drop_first() =~= Seq::<char>::empty());
    assert(dfold(acc * 10 + digit_val(c), Seq::<char>::empty()) == acc * 10 + digit_val(
        c,
    ));
}

proof fn lemma_dfold_ser_nat(m: int)
    requires
        0 <= m,
    ensures
        dfold(0, ser_nat(m)) == m,
    decreases m,
{
    if m < 10 {
        lemma_digit_inverse(m);
        assert(ser_nat(m) == seq![digit_char(m)]);
        lemma_dfold_single(0, digit_char(m));
    } else {
        lemma_dfold_ser_nat(m / 10);
        lemma_digit_inverse(m % 10);
        vstd::arithmetic::div_mod::lemma_fundamental_div_mod(m, 10);
        assert(ser_nat(m) =~= ser_nat(m / 10) + seq![digit_char(m % 10)]);
        lemma_dfold_concat(0, ser_nat(m / 10), seq![digit_char(m % 10)]);
        lemma_dfold_single(m / 10, digit_char(m % 10));
    }
}

proof fn lemma_skip_digits_bounds(s: Seq<char>, i: int)
    requires
        0 <= i <= s.len(),
    ensures
        i <= skip_digits(s, i) <= s.len(),
    decreases s.len() - i,
{
    if i < s.len() && is_digit(s[i]) {
        lemma_skip_digits_bounds(s, i + 1);
    }
}

proof fn lemma_skip_digits_all(s: Seq<char>, i: int)
    requires
        0 <= i <= s.len(),
        forall|k: int| i <= k < s.len() ==> is_digit(#[trigger] s[k]),
    ensures
        skip_digits(s, i) == s.len(),
    decreases s.len() - i,
{
    if i < s.len() {
        lemma_skip_digits_all(s, i + 1);
    }
}

proof fn lemma_num_val_dfold(s: Seq<char>, a: int, b: int, acc: int)
    requires
        0 <= a <= b <= s.len(),
    ensures
        num_val(s, a, b, acc) == dfold(acc, s.subrange(a, b)),
    decreases b - a,
{
    if a < b {
        assert(s.subrange(a, b)[0] == s[a]);
        assert(s.subrange(a, b).drop_first() =~= s.subrange(a + 1, b));
        lemma_num_val_dfold(s, a + 1, b, acc * 10 + digit_val(s[a]));
    } else {
        assert(s.subrange(a, b) =~= Seq::<char>::empty());
    }
}

/// The printed form of an integer is one whole number lexeme that
/// reads back as the integer.
proof fn lemma_parse_ser_int_origin(n: int)
    requires
        i64::MIN <= n <= i64::MAX,
    ensures
        parse_number(ser_int(n), 0) == Some((JsonV::Int(n), ser_int(n).len() as int)),
{
    let s = ser_int(n);
    if n < 0 {
        let m = -n;
        lemma_ser_nat_digits(m);
        assert(s =~= seq!['-'] + ser_nat(m));
        assert(s[0] == '-');
        assert forall|k: int| 1 <= k < s.len() implies is_digit(#[trigger] s[k]) by {
            assert(s[k] == ser_nat(m)[k - 1]);
        }
        assert(s[1] == ser_nat(m)[0]);
        lemma_skip_digits_all(s, 1);
        assert(frac_end(s, s.len() as int) == Some(s.len() as int));
        assert(exp_end(s, s.len() as int) == Some(s.len() as int));
        lemma_num_val_dfold(s, 1, s.len() as int, 0);
        assert(s.subrange(1, s.len() as int) =~= ser_nat(m));
        lemma_dfold_ser_nat(m);
    } else {
        lemma_ser_nat_digits(n);
        assert(s == ser_nat(n));
        assert(s[0] != '-');
        lemma_skip_digits_all(s, 0);
        assert(frac_end(s, s.len() as int) == Some(s.len() as int));
        assert(exp_end(s, s.len() as int) == Some(s.len() as int));
        lemma_num_val_dfold(s, 0, s.len() as int, 0);
        assert(s.subrange(0, s.len() as int) =~= ser_nat(n));
        lemma_dfold_ser_nat(n);
    }
}

proof fn lemma_skip_digits_shift(pre: Seq<char>, t: Seq<char>, tail: Seq<char>, x: int)
    requires
        0 <= x <= t.len(),
        ends_ok(tail),
    ensures
        skip_digits(pre + t + tail, pre.len() + x) == pre.len() + skip_digits(t, x),
    decreases t.len() - x,
{
    let s = pre + t + tail;
    if x < t.len() {
        assert(s[pre.len() + x] == t[x]);
        if is_digit(t[x]) {
            lemma_skip_digits_shift(pre, t, tail, x + 1);
        }
    } else {
        if tail.len() > 0 {
            assert(s[pre.len() + x] == tail[0]);
        }
    }
}

proof fn lemma_num_val_shift(
    pre: Seq<char>,
    t: Seq<char>,
    tail: Seq<char>,
    p: int,
    q: int,
    acc: int,
)
    requires
        0 <= p <= q <= t.len(),
    ensures
        num_val(pre + t + tail, pre.len() + p, pre.len() + q, acc) == num_val(
            t,
            p,
            q,
            acc,
        ),
    decreases q - p,
{
    if p < q {
        assert((pre + t + tail)[pre.len() + p] == t[p]);
        lemma_num_val_shift(pre, t, tail, p + 1, q, acc * 10 + digit_val(t[p]));
    }
}

/// A whole number lexeme keeps its reading wherever it stands, as long
/// as what follows cannot extend it.
#[verifier::rlimit(80)]
proof fn lemma_parse_number_shift(pre: Seq<char>, t: Seq<char>, tail: Seq<char>, v: JsonV)
    requires
        parse_number(t, 0) == Some((v, t.len() as int)),
        ends_ok(tail),
    ensures
        parse_number(pre + t + tail, pre.len() as int) == Some(
            (v, pre.len() as int + t.len()),
        ),
{
    let s = pre + t + tail;
    let a = pre.len() as int;
    assert(num_end(t, 0) == Some(t.len() as int));
    assert(0 < t.len());
    let d0: int = if t[0] == '-' {
        1
    } else {
        0
    };
    assert(s[a] == t[0]);
    assert(d0 < t.len() && is_digit(t[d0]));
    assert(s[a + d0] == t[d0]);
    lemma_skip_digits_shift(pre, t, tail, d0);
    lemma_skip_digits_bounds(t, d0);
    let j1 = skip_digits(t, d0);
    if j1 < t.len() && t[j1] == '.' {
        assert(s[a + j1] == t[j1]);
        assert(j1 + 1 < t.len() && is_digit(t[j1 + 1]));
        assert(s[a + j1 + 1] == t[j1 + 1]);
        lemma_skip_digits_shift(pre, t, tail, j1 + 1);
        lemma_skip_digits_bounds(t, j1 + 1);
    } else {
        if j1 < t.len() {
            assert(s[a + j1] == t[j1]);
        } else {
            if tail.len() > 0 {
                assert(s[a + j1] == tail[0]);
            }
        }
    }
    assert(frac_end(t, j1) is Some);
    let j2: int = match frac_end(t, j1) {
        Some(x) => x,
        None => 0,
    };
    assert(frac_end(s, a + j1) == Some(a + j2));
    assert(0 <= j2 <= t.len());
    if j2 < t.len() && (t[j2] == 'e' || t[j2] == 'E') {
        assert(s[a + j2] == t[j2]);
        if j2 + 2 <= t.len() && (t[j2 + 1] == '+' || t[j2 + 1] == '-') {
            let dt = j2 + 2;
            assert(s[a + j2 + 1] == t[j2 + 1]);
            assert(dt < t.len() && is_digit(t[dt]));
            assert(s[a + dt] == t[dt]);
            lemma_skip_digits_shift(pre, t, tail, dt);
            lemma_skip_digits_bounds(t, dt);
        } else {
            let dt = j2 + 1;
            assert(dt < t.len() && is_digit(t[dt]));
            assert(s[a + dt] == t[dt]);
            lemma_skip_digits_shift(pre, t, tail, dt);
            lemma_skip_digits_bounds(t, dt);
        }
    } else {
        if j2 < t.len() {
            assert(s[a + j2] == t[j2]);
        } else {
            if tail.len() > 0 {
                assert(s[a + j2] == tail[0]);
            }
        }
    }
    assert(num_end(s, a) == Some(a + t.len()));
    lemma_num_val_shift(pre, t, tail, d0, j1, 0);
    assert(s.subrange(a, a + t.len()) =~= t);
    assert(t.subrange(0, t.len() as int) =~= t);
}

proof fn lemma_esc_shape(c: char)
    ensures
        esc(c).len() == 1 || esc(c).len() == 2 || esc(c).len() == 6,
        esc(c).len() == 2 ==> esc(c)[0] == '\\' && unescape(esc(c)[1]) == Some(c),
        esc(c).len() == 1 ==> esc(c)[0] == c && c != '"' && c != '\\',
        esc(c).len() == 6 ==> esc(c)[0] == '\\' && esc(c)[1] == 'u' && esc(c)[2] == '0'
            && esc(c)[3] == '0' && hex_val(esc(c)[4]) == c as u32 / 16 && hex_val(
            esc(c)[5],
        ) == c as u32 % 16 && (c as u32) < 32,
{
    if (c as u32) < 32 && c != '\n' && c != '\r' && c != '\t' && c != '\u{0008}' && c
        != '\u{000C}' {
        lemma_hex_inverse((c as u32 / 16) as int);
        lemma_hex_inverse((c as u32 % 16) as int);
    }
}

/// The escaped form of string content parses back to the content.
proof fn lemma_parse_ser_string(pre: Seq<char>, u: Seq<char>, t: Seq<char>)
    ensures
        parse_string(pre + ser_content(u) + seq!['"'] + t, pre.len() as int) == Some(
            (u, pre.len() as int + ser_content(u).len() + 1),
        ),
    decreases u.len(),
{
    let s = pre + ser_content(u) + seq!['"'] + t;
    if u.len() == 0 {
        assert(s[pre.len() as int] == '"');
        assert(Seq::<char>::empty() =~= u);
    } else {
        let c = u[0];
        assert(u =~= seq![c] + u.drop_first());
        lemma_ser_content_concat(seq![c], u.drop_first());
        assert(seq![c].drop_last() =~= Seq::<char>::empty());
        assert(ser_content(Seq::<char>::empty()) == Seq::<char>::empty());
        assert(seq![c].last() == c);
        assert(ser_content(seq![c]) =~= esc(c));
        assert(ser_content(u) =~= esc(c) + ser_content(u.drop_first()));
        lemma_esc_shape(c);
        lemma_parse_ser_string(pre + esc(c), u.drop_first(), t);
        assert((pre + esc(c)) + ser_content(u.drop_first()) + seq!['"'] + t =~= s);
        if esc(c).len() == 1 {
            assert(s[pre.len() as int] == c);
            assert(seq![c] + u.drop_first() =~= u);
        } else if esc(c).len() == 2 {
            assert(s[pre.len() as int] == '\\');
            assert(s[pre.len() as int + 1] == esc(c)[1]);
            assert(seq![c] + u.drop_first() =~= u);
        } else {
            assert(s[pre.len() as int] == '\\');
            assert(s[pre.len() as int + 1] == 'u');
            assert(s[pre.len() as int + 2] == '0');
            assert(s[pre.len() as int + 3] == '0');
            assert(s[pre.len() as int + 4] == esc(c)[4]);
            assert(s[pre.len() as int + 5] == esc(c)[5]);
            assert(hex_val('0') == 0);
            let h = hex_val(s[pre.len() as int + 2]) * 4096 + hex_val(
                s[pre.len() as int + 3],
            ) * 256 + hex_val(s[pre.len() as int + 4]) * 16 + hex_val(
                s[pre.len() as int + 5],
            );
            vstd::arithmetic::div_mod::lemma_fundamental_div_mod(c as u32 as int, 16);
            assert(h == c as u32);
            vstd::utf8::char_u32_cast(c, (h as u32));
            assert(((h as u32) as char) == c);
            assert(seq![c] + u.drop_first() =~= u);
        }
    }
}

/// The first character a serialized value opens with: never
/// whitespace, never a separator, and deciding its branch.
proof fn lemma_ser_val_head(v: JsonV)
    requires
        wf_json(v),
    ensures
        ser_val(v).len() >= 1,
        !is_ws(ser_val(v)[0]),
        ser_val(v)[0] != ',' && ser_val(v)[0] != ']' && ser_val(v)[0] != '}',
        (match v {
            JsonV::Null => ser_val(v)[0] == 'n',
            JsonV::Bool(b) => ser_val(v)[0] == (if b {
                't'
            } else {
                'f'
            }),
            JsonV::Int(n) => (if n < 0 {
                ser_val(v)[0] == '-'
            } else {
                is_digit(ser_val(v)[0])
            }) && ser_val(v)[0] != '{' && ser_val(v)[0] != '[' && ser_val(v)[0] != '"'
                && ser_val(v)[0] != 'n' && ser_val(v)[0] != 't' && ser_val(v)[0] != 'f',
            JsonV::Num(u) => (u[0] == '-' || is_digit(u[0])) && ser_val(v)[0] != '{'
                && ser_val(v)[0] != '[' && ser_val(v)[0] != '"' && ser_val(v)[0] != 'n'
                && ser_val(v)[0] != 't' && ser_val(v)[0] != 'f',
            JsonV::Text(_) => ser_val(v)[0] == '"',
            JsonV::Arr(_) => ser_val(v)[0] == '[',
            JsonV::Obj(_) => ser_val(v)[0] == '{',
        }),
{
    match v {
        JsonV::Int(n) => {
            if n < 0 {
            } else {
                lemma_ser_nat_digits(n);
                assert(is_digit(ser_nat(n)[0]));
            }
        },
        JsonV::Num(u) => {
            assert(num_end(u, 0) == Some(u.len() as int));
            assert(0 < u.len());
            if u[0] != '-' {
                assert(is_digit(u[0]));
            }
        },
        _ => {},
    }
}

/// In a comma-separated list, serialization peels off the head.
proof fn lemma_ser_items_head(es: Seq<JsonV>)
    requires
        es.len() >= 2,
    ensures
        ser_items(es) == ser_val(es[0]) + seq![','] + ser_items(es.drop_first()),
    decreases es.len(),
{
    if es.len() == 2 {
        assert(es.drop_last() =~= seq![es[0]]);
        assert(es.drop_first() =~= seq![es[1]]);
        assert(ser_items(seq![es[0]]) == ser_val(es[0]));
        assert(ser_items(seq![es[1]]) == ser_val(es[1]));
        assert(es.last() == es[1]);
        assert(ser_items(es) == ser_items(es.drop_last()) + seq![','] + ser_val(
            es.last(),
        ));
        assert(ser_items(es) =~= ser_val(es[0]) + seq![','] + ser_items(
            es.drop_first(),
        ));
    } else {
        lemma_ser_items_head(es.drop_last());
        assert(es.drop_last()[0] == es[0]);
        assert(es.drop_last().drop_first() =~= es.drop_first().drop_last());
        assert(es.drop_first().last() == es.last());
        assert(es.drop_first().len() >= 2);
        assert(ser_items(es) == ser_items(es.drop_last()) + seq![','] + ser_val(
            es.last(),
        ));
        assert(ser_items(es.drop_first()) == ser_items(es.drop_first().drop_last())
            + seq![','] + ser_val(es.drop_first().last()));
        assert(ser_items(es.drop_last()) == ser_val(es[0]) + seq![','] + ser_items(
            es.drop_last().drop_first(),
        ));
        assert(ser_items(es) =~= ser_val(es[0]) + seq![','] + ser_items(
            es.drop_first(),
        ));
    }
}

proof fn lemma_ser_members_head(ms: Seq<(Seq<char>, JsonV)>)
    requires
        ms.len() >= 2,
    ensures
        ser_members(ms) == ser_entry(ms[0]) + seq![','] + ser_members(ms.drop_first()),
    decreases ms.len(),
{
    if ms.len() == 2 {
        assert(ms.drop_last() =~= seq![ms[0]]);
        assert(ms.drop_first() =~= seq![ms[1]]);
        assert(ser_members(seq![ms[0]]) == ser_entry(ms[0]));
        assert(ser_members(seq![ms[1]]) == ser_entry(ms[1]));
        assert(ms.last() == ms[1]);
        assert(ser_members(ms) == ser_members(ms.drop_last()) + seq![','] + ser_entry(
            ms.last(),
        ));
        assert(ser_members(ms) =~= ser_entry(ms[0]) + seq![','] + ser_members(
            ms.drop_first(),
        ));
    } else {
        lemma_ser_members_head(ms.drop_last());
        assert(ms.drop_last()[0] == ms[0]);
        assert(ms.drop_last().drop_first() =~= ms.drop_first().drop_last());
        assert(ms.drop_first().last() == ms.last());
        assert(ms.drop_first().len() >= 2);
        assert(ser_members(ms) == ser_members(ms.drop_last()) + seq![','] + ser_entry(
            ms.last(),
        ));
        assert(ser_members(ms.drop_first()) == ser_members(ms.drop_first().drop_last())
            + seq![','] + ser_entry(ms.drop_first().last()));
        assert(ser_members(ms.drop_last()) == ser_entry(ms[0]) + seq![','] + ser_members(
            ms.drop_last().drop_first(),
        ));
        assert(ser_members(ms) =~= ser_entry(ms[0]) + seq![','] + ser_members(
            ms.drop_first(),
        ));
    }
}

/// The grammar's two directions are inverse: what the serializer
/// writes, the parser reads back as the same value, whatever follows.
#[verifier::rlimit(80)]
proof fn lemma_parse_ser_val(pre: Seq<char>, v: JsonV, t: Seq<char>)
    requires
        wf_json(v),
        ends_ok(t),
    ensures
        parse_value(pre + ser_val(v) + t, pre.len() as int) == Some(
            (v, pre.len() as int + ser_val(v).len()),
        ),
    decreases v, 1int,
{
    let s = pre + ser_val(v) + t;
    lemma_ser_val_head(v);
    assert(s[pre.len() as int] == ser_val(v)[0]);
    assert(skip_ws(s, pre.len() as int) == pre.len());
    match v {
        JsonV::Null => {
            assert(s.subrange(pre.len() as int, pre.len() as int + 4) =~= seq![
                'n',
                'u',
                'l',
                'l',
            ]);
        },
        JsonV::Bool(b) => {
            if b {
                assert(s.subrange(pre.len() as int, pre.len() as int + 4) =~= seq![
                    't',
                    'r',
                    'u',
                    'e',
                ]);
            } else {
                assert(s.subrange(pre.len() as int, pre.len() as int + 5) =~= seq![
                    'f',
                    'a',
                    'l',
                    's',
                    'e',
                ]);
            }
        },
        JsonV::Int(n) => {
            lemma_parse_ser_int_origin(n);
            lemma_parse_number_shift(pre, ser_int(n), t, JsonV::Int(n));
        },
        JsonV::Num(u) => {
            lemma_parse_number_shift(pre, u, t, JsonV::Num(u));
        },
        JsonV::Text(u) => {
            lemma_parse_ser_string(pre + seq!['"'], u, t);
            assert((pre + seq!['"']) + ser_content(u) + seq!['"'] + t =~= s);
        },
        JsonV::Arr(es) => {
            if es.len() == 0 {
                assert(ser_items(Seq::<JsonV>::empty()) == Seq::<char>::empty());
                assert(es =~= Seq::<JsonV>::empty());
                assert(ser_val(v) =~= seq!['[', ']']);
                assert(s[pre.len() as int + 1] == ']');
                assert(skip_ws(s, pre.len() as int + 1) == pre.len() + 1);
            } else {
                lemma_ser_val_head(es[0]);
                assert((pre + seq!['[']) + ser_items(es) + seq![']'] + t =~= s);
                assert(ser_items(es)[0] == ser_val(es[0])[0] && ser_items(es).len()
                    >= 1) by {
                    if es.len() == 1 {
                    } else {
                        lemma_ser_items_head(es);
                    }
                }
                assert(s[pre.len() as int + 1] == ser_val(es[0])[0]);
                assert(skip_ws(s, pre.len() as int + 1) == pre.len() + 1);
                lemma_parse_ser_items(pre + seq!['['], es, t);
            }
        },
        JsonV::Obj(ms) => {
            if ms.len() == 0 {
                assert(ser_members(Seq::<(Seq<char>, JsonV)>::empty())
                    == Seq::<char>::empty());
                assert(ms =~= Seq::<(Seq<char>, JsonV)>::empty());
                assert(ser_val(v) =~= seq!['{', '}']);
                assert(s[pre.len() as int + 1] == '}');
                assert(skip_ws(s, pre.len() as int + 1) == pre.len() + 1);
            } else {
                assert((pre + seq!['{']) + ser_members(ms) + seq!['}'] + t =~= s);
                assert(ser_members(ms)[0] == '"' && ser_members(ms).len() >= 1) by {
                    assert(ser_entry(ms[0])[0] == '"');
                    if ms.len() == 1 {
                    } else {
                        lemma_ser_members_head(ms);
                    }
                }
                assert(s[pre.len() as int + 1] == '"');
                assert(skip_ws(s, pre.len() as int + 1) == pre.len() + 1);
                lemma_parse_ser_members(pre + seq!['{'], ms, t);
            }
        },
    }
}

proof fn lemma_parse_ser_items(pre: Seq<char>, es: Seq<JsonV>, t: Seq<char>)
    requires
        es.len() >= 1,
        forall|i: int| 0 <= i < es.len() ==> wf_json(#[trigger] es[i]),
        ends_ok(t),
    ensures
        parse_items(pre + ser_items(es) + seq![']'] + t, pre.len() as int) == Some(
            (es, pre.len() as int + ser_items(es).len() + 1),
        ),
    decreases es, 0int,
{
    let s = pre + ser_items(es) + seq![']'] + t;
    lemma_ser_val_head(es[0]);
    if es.len() == 1 {
        lemma_parse_ser_val(pre, es[0], seq![']'] + t);
        assert(pre + ser_val(es[0]) + (seq![']'] + t) =~= s);
        let j = pre.len() + ser_val(es[0]).len();
        assert(s[j as int] == ']');
        assert(skip_ws(s, j as int) == j);
        assert(seq![es[0]] =~= es);
    } else {
        lemma_ser_items_head(es);
        lemma_parse_ser_val(
            pre,
            es[0],
            seq![','] + ser_items(es.drop_first()) + seq![']'] + t,
        );
        assert(pre + ser_val(es[0]) + (seq![','] + ser_items(es.drop_first()) + seq![']']
            + t) =~= s);
        let j = pre.len() + ser_val(es[0]).len();
        assert(s[j as int] == ',');
        assert(skip_ws(s, j as int) == j);
        lemma_parse_ser_items(pre + ser_val(es[0]) + seq![','], es.drop_first(), t);
        assert((pre + ser_val(es[0]) + seq![',']) + ser_items(es.drop_first()) + seq![']']
            + t =~= s);
        assert(seq![es[0]] + es.drop_first() =~= es);
    }
}

#[verifier::rlimit(100)]
proof fn lemma_parse_ser_members(pre: Seq<char>, ms: Seq<(Seq<char>, JsonV)>, t: Seq<char>)
    requires
        ms.len() >= 1,
        forall|i: int| 0 <= i < ms.len() ==> wf_json(#[trigger] ms[i].1),
        ends_ok(t),
    ensures
        parse_members(pre + ser_members(ms) + seq!['}'] + t, pre.len() as int) == Some(
            (ms, pre.len() as int + ser_members(ms).len() + 1),
        ),
    decreases ms, 0int,
{
    let s = pre + ser_members(ms) + seq!['}'] + t;
    let key = ms[0].0;
    let v0 = ms[0].1;
    let rest_txt: Seq<char> = if ms.len() == 1 {
        seq!['}'] + t
    } else {
        seq![','] + ser_members(ms.drop_first()) + seq!['}'] + t
    };
    if ms.len() >= 2 {
        lemma_ser_members_head(ms);
    }
    assert(ser_members(ms) + seq!['}'] + t =~= ser_entry(ms[0]) + rest_txt);
    assert(s =~= pre + ser_entry(ms[0]) + rest_txt);
    assert(s =~= (pre + seq!['"']) + ser_content(key) + seq!['"'] + (seq![':'] + ser_val(
        v0,
    ) + rest_txt));
    assert(s[pre.len() as int] == '"');
    assert(skip_ws(s, pre.len() as int) == pre.len());
    lemma_parse_ser_string(pre + seq!['"'], key, seq![':'] + ser_val(v0) + rest_txt);
    let k1 = pre.len() + 1 + ser_content(key).len() + 1;
    assert(s[k1 as int] == ':');
    assert(skip_ws(s, k1 as int) == k1);
    lemma_ser_val_head(v0);
    lemma_parse_ser_val(
        pre + seq!['"'] + ser_content(key) + seq!['"', ':'],
        v0,
        rest_txt,
    );
    assert((pre + seq!['"'] + ser_content(key) + seq!['"', ':']) + ser_val(v0) + rest_txt
        =~= s);
    let k3 = k1 + 1 + ser_val(v0).len();
    if ms.len() == 1 {
        assert(s[k3 as int] == '}');
        assert(skip_ws(s, k3 as int) == k3);
        assert(seq![(key, v0)] =~= ms);
    } else {
        assert(s[k3 as int] == ',');
        assert(skip_ws(s, k3 as int) == k3);
        lemma_parse_ser_members(
            pre + ser_entry(ms[0]) + seq![','],
            ms.drop_first(),
            t,
        );
        assert((pre + ser_entry(ms[0]) + seq![',']) + ser_members(ms.drop_first())
            + seq!['}'] + t =~= s);
        assert(seq![(key, v0)] + ms.drop_first() =~= ms);
    }
}

/// Serialization idempotence: the text a wire value is written as
/// parses back, alone or with its line terminator, to that value.
pub proof fn lemma_wire_round_trip(v: JsonV)
    requires
        wf_json(v),
    ensures
        parse_text(ser_val(v)) == Some(v),
        parse_text(ser_val(v) + seq!['\n']) == Some(v),
{
    lemma_parse_ser_val(Seq::empty(), v, Seq::empty());
    assert(Seq::<char>::empty() + ser_val(v) + Seq::<char>::empty() =~= ser_val(v));
    lemma_parse_ser_val(Seq::empty(), v, seq!['\n']);
    assert(Seq::<char>::empty() + ser_val(v) + seq!['\n'] =~= ser_val(v) + seq!['\n']);
    let s2 = ser_val(v) + seq!['\n'];
    assert(s2[ser_val(v).len() as int] == '\n');
    assert(skip_ws(s2, ser_val(v).len() as int + 1) == s2.len());
    assert(skip_ws(s2, ser_val(v).len() as int) == s2.len());
}

/// Encoding a command and decoding the same text reproduces the
/// command's name and argument structure.
pub proof fn lemma_command_round_trip(name: Seq<char>, args: Option<JsonV>)
    requires
        (match args {
            Some(a) => wf_json(a),
            None => true,
        }),
    ensures
        parse_text(ser_val(envelope(name, args))) == Some(envelope(name, args)),
        parse_text(ser_val(envelope(name, args)) + seq!['\n']) == Some(
            envelope(name, args),
        ),
{
    let e = envelope(name, args);
    assert(wf_json(e)) by {
        match args {
            None => {
                assert(forall|i: int| 0 <= i < e->Obj_0.len() ==> wf_json(
                    #[trigger] e->Obj_0[i].1,
                ));
            },
            Some(a) => {
                assert(forall|i: int| 0 <= i < e->Obj_0.len() ==> wf_json(
                    #[trigger] e->Obj_0[i].1,
                ));
            },
        }
    }
    lemma_wire_round_trip(e);
}

} // verus!
