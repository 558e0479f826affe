//! The wire value type and the JSON-line grammar.
//!
//! Every QMP/QGA message is one JSON value on one line.  `Json` is the
//! executable value type; `JsonV` is its mathematical model.  The
//! grammar is given twice: `parse_value` and friends define what a
//! sequence of characters means, `ser_val` and friends define the text
//! a value is written as.  The executable parser and serializer are
//! verified against these definitions.

use vstd::prelude::*;

verus! {

broadcast use {vstd::seq::group_seq_axioms, vstd::std_specs::vec::group_vec_axioms};

/// An arbitrary JSON value as carried by the protocols.
///
/// A number within the 64-bit signed range is carried as `Int`, which
/// is what the QEMU schema's `int` type is; any other JSON number (a
/// fraction, an exponent, an integer beyond that range) is carried
/// opaquely as `Num`, its exact wire text.
#[derive(Debug, PartialEq)]
pub enum Json {
    Null,
    Bool(bool),
    Int(i64),
    Num(String),
    Text(String),
    Arr(Vec<Json>),
    Obj(Vec<(String, Json)>),
}

/// Mathematical model of a `Json` value.
pub enum JsonV {
    Null,
    Bool(bool),
    Int(int),
    Num(Seq<char>),
    Text(Seq<char>),
    Arr(Seq<JsonV>),
    Obj(Seq<(Seq<char>, JsonV)>),
}

pub open spec fn json_model(j: Json) -> JsonV
    decreases j,
{
    match j {
        Json::Null => JsonV::Null,
        Json::Bool(b) => JsonV::Bool(b),
        Json::Int(n) => JsonV::Int(n as int),
        Json::Num(s) => JsonV::Num(s@),
        Json::Text(s) => JsonV::Text(s@),
        Json::Arr(items) => JsonV::Arr(seq_model(items@)),
        Json::Obj(entries) => JsonV::Obj(entries_model(entries@)),
    }
}

pub open spec fn seq_model(s: Seq<Json>) -> Seq<JsonV>
    decreases s,
{
    if s.len() == 0 {
        Seq::empty()
    } else {
        seq_model(s.drop_last()).push(json_model(s.last()))
    }
}

pub open spec fn entries_model(s: Seq<(String, Json)>) -> Seq<(Seq<char>, JsonV)>
    decreases s,
{
    if s.len() == 0 {
        Seq::empty()
    } else {
        entries_model(s.drop_last()).push((s.last().0@, json_model(s.last().1)))
    }
}

pub proof fn lemma_seq_model(s: Seq<Json>)
    ensures
        seq_model(s).len() == s.len(),
        forall|i: int| 0 <= i < s.len() ==> seq_model(s)[i] == json_model(s[i]),
    decreases s.len(),
{
    if s.len() > 0 {
        lemma_seq_model(s.drop_last());
    }
}

pub proof fn lemma_entries_model(s: Seq<(String, Json)>)
    ensures
        entries_model(s).len() == s.len(),
        forall|i: int| 0 <= i < s.len() ==> entries_model(s)[i] == (s[i].0@, json_model(
            s[i].1,
        )),
    decreases s.len(),
{
    if s.len() > 0 {
        lemma_entries_model(s.drop_last());
    }
}

// ---------------------------------------------------------------------------
// The grammar: what a sequence of characters parses to.
// ---------------------------------------------------------------------------

pub open spec fn is_ws(c: char) -> bool {
    c == ' ' || c == '\t' || c == '\r' || c == '\n'
}

pub open spec fn is_digit(c: char) -> bool {
    48 <= c as u32 && c as u32 <= 57
}

pub open spec fn digit_val(c: char) -> int {
    c as u32 - 48
}

pub open spec fn digit_char(d: int) -> char {
    if d == 0 {
        '0'
    } else if d == 1 {
        '1'
    } else if d == 2 {
        '2'
    } else if d == 3 {
        '3'
    } else if d == 4 {
        '4'
    } else if d == 5 {
        '5'
    } else if d == 6 {
        '6'
    } else if d == 7 {
        '7'
    } else if d == 8 {
        '8'
    } else {
        '9'
    }
}

pub open spec fn hex_val(c: char) -> int {
    if is_digit(c) {
        c as u32 - 48
    } else if 97 <= c as u32 && c as u32 <= 102 {
        c as u32 - 87
    } else if 65 <= c as u32 && c as u32 <= 70 {
        c as u32 - 55
    } else {
        -1
    }
}

pub open spec fn hex_char(d: int) -> char {
    if d < 10 {
        digit_char(d)
    } else if d == 10 {
        'a'
    } else if d == 11 {
        'b'
    } else if d == 12 {
        'c'
    } else if d == 13 {
        'd'
    } else if d == 14 {
        'e'
    } else {
        'f'
    }
}

/// The character an escape introducer `\` followed by `c` stands for,
/// for the short escapes; `\u` escapes are handled in the grammar
/// itself.
pub open spec fn unescape(c: char) -> Option<char> {
    if c == '"' {
        Some('"')
    } else if c == '\\' {
        Some('\\')
    } else if c == '/' {
        Some('/')
    } else if c == 'n' {
        Some('\n')
    } else if c == 'r' {
        Some('\r')
    } else if c == 't' {
        Some('\t')
    } else if c == 'b' {
        Some('\u{0008}')
    } else if c == 'f' {
        Some('\u{000C}')
    } else {
        None
    }
}

/// Index of the first non-whitespace character at or after `i`.
pub open spec fn skip_ws(s: Seq<char>, i: int) -> int
    decreases s.len() - i,
{
    if 0 <= i < s.len() && is_ws(s[i]) {
        skip_ws(s, i + 1)
    } else {
        i
    }
}

/// Largest magnitude the number grammar accepts while reading digits:
/// `2^63`, the magnitude of the most negative 64-bit integer.
pub open spec fn int_cap() -> int {
    0x8000_0000_0000_0000
}

/// Index of the first non-digit character at or after `i`.
pub open spec fn skip_digits(s: Seq<char>, i: int) -> int
    decreases s.len() - i,
{
    if 0 <= i < s.len() && is_digit(s[i]) {
        skip_digits(s, i + 1)
    } else {
        i
    }
}

/// The decimal value of the digits in `s[i..j)`, folded onto `acc`.
pub open spec fn num_val(s: Seq<char>, i: int, j: int, acc: int) -> int
    decreases j - i,
{
    if i < j {
        num_val(s, i + 1, j, acc * 10 + digit_val(s[i]))
    } else {
        acc
    }
}

/// End of an optional fraction part whose `.` would stand at `i`.
pub open spec fn frac_end(s: Seq<char>, i: int) -> Option<int> {
    if 0 <= i < s.len() && s[i] == '.' {
        if i + 1 < s.len() && is_digit(s[i + 1]) {
            Some(skip_digits(s, i + 1))
        } else {
            None
        }
    } else {
        Some(i)
    }
}

/// End of an optional exponent part whose `e`/`E` would stand at `i`.
pub open spec fn exp_end(s: Seq<char>, i: int) -> Option<int> {
    if 0 <= i < s.len() && (s[i] == 'e' || s[i] == 'E') {
        let d = if i + 2 <= s.len() && (s[i + 1] == '+' || s[i + 1] == '-') {
            i + 2
        } else {
            i + 1
        };
        if d < s.len() && is_digit(s[d]) {
            Some(skip_digits(s, d))
        } else {
            None
        }
    } else {
        Some(i)
    }
}

/// End of the number lexeme starting at `i`: optional sign, an integer
/// digit run, an optional fraction, an optional exponent.
pub open spec fn num_end(s: Seq<char>, i: int) -> Option<int> {
    if !(0 <= i < s.len()) {
        None
    } else {
        let d = if s[i] == '-' {
            i + 1
        } else {
            i
        };
        if !(d < s.len() && is_digit(s[d])) {
            None
        } else {
            match frac_end(s, skip_digits(s, d)) {
                None => None,
                Some(j2) => exp_end(s, j2),
            }
        }
    }
}

/// A number: a plain integer lexeme within the 64-bit signed range is
/// an `Int`; any other lexeme is kept verbatim as a `Num`.
pub open spec fn parse_number(s: Seq<char>, i: int) -> Option<(JsonV, int)> {
    match num_end(s, i) {
        None => None,
        Some(j) => {
            let d = if s[i] == '-' {
                i + 1
            } else {
                i
            };
            let j1 = skip_digits(s, d);
            let m = num_val(s, d, j1, 0);
            if j1 == j && s[i] == '-' && m <= int_cap() {
                Some((JsonV::Int(-m), j))
            } else if j1 == j && s[i] != '-' && m < int_cap() {
                Some((JsonV::Int(m), j))
            } else {
                Some((JsonV::Num(s.subrange(i, j)), j))
            }
        },
    }
}

/// Reads string content after an opening quote, up to and including the
/// closing quote; yields the unescaped content.  A `\uXXXX` escape
/// names a Unicode scalar value directly; surrogate halves (the pair
/// form of astral-plane escapes) are not accepted, while astral-plane
/// characters themselves pass through as ordinary content.
pub open spec fn parse_string(s: Seq<char>, i: int) -> Option<(Seq<char>, int)>
    decreases s.len() - i,
{
    if !(0 <= i < s.len()) {
        None
    } else if s[i] == '"' {
        Some((Seq::empty(), i + 1))
    } else if s[i] == '\\' {
        if i + 1 >= s.len() {
            None
        } else if s[i + 1] == 'u' {
            if i + 6 > s.len() {
                None
            } else if !(hex_val(s[i + 2]) >= 0 && hex_val(s[i + 3]) >= 0 && hex_val(
                s[i + 4],
            ) >= 0 && hex_val(s[i + 5]) >= 0) {
                None
            } else {
                let h = hex_val(s[i + 2]) * 4096 + hex_val(s[i + 3]) * 256 + hex_val(
                    s[i + 4],
                ) * 16 + hex_val(s[i + 5]);
                if 0xD800 <= h < 0xE000 {
                    None
                } else {
                    match parse_string(s, i + 6) {
                        None => None,
                        Some((t, j)) => Some((seq![((h as u32) as char)] + t, j)),
                    }
                }
            }
        } else {
            match unescape(s[i + 1]) {
                None => None,
                Some(c) => match parse_string(s, i + 2) {
                    None => None,
                    Some((t, j)) => Some((seq![c] + t, j)),
                },
            }
        }
    } else {
        match parse_string(s, i + 1) {
            None => None,
            Some((t, j)) => Some((seq![s[i]] + t, j)),
        }
    }
}

/// A keyword such as `null` spelled out at `i`.
pub open spec fn parse_exact(s: Seq<char>, i: int, w: Seq<char>, v: JsonV) -> Option<
    (JsonV, int),
> {
    if 0 <= i && i + w.len() <= s.len() && s.subrange(i, i + w.len() as int) == w {
        Some((v, i + w.len()))
    } else {
        None
    }
}

pub open spec fn parse_value(s: Seq<char>, i: int) -> Option<(JsonV, int)>
    decreases s.len() - i, 3int,
{
    let j = skip_ws(s, i);
    if j < i || j >= s.len() {
        None
    } else {
        let c = s[j];
        if c == '{' {
            parse_obj(s, j + 1)
        } else if c == '[' {
            parse_arr(s, j + 1)
        } else if c == '"' {
            match parse_string(s, j + 1) {
                None => None,
                Some((t, k)) => Some((JsonV::Text(t), k)),
            }
        } else if c == 'n' {
            parse_exact(s, j, seq!['n', 'u', 'l', 'l'], JsonV::Null)
        } else if c == 't' {
            parse_exact(s, j, seq!['t', 'r', 'u', 'e'], JsonV::Bool(true))
        } else if c == 'f' {
            parse_exact(s, j, seq!['f', 'a', 'l', 's', 'e'], JsonV::Bool(false))
        } else if c == '-' || is_digit(c) {
            parse_number(s, j)
        } else {
            None
        }
    }
}

/// Elements of a non-empty array, starting at the first element,
/// up to and including the closing bracket.
pub open spec fn parse_items(s: Seq<char>, i: int) -> Option<(Seq<JsonV>, int)>
    decreases s.len() - i, 4int,
{
    match parse_value(s, i) {
        None => None,
        Some((v, j)) => {
            if j <= i {
                None
            } else {
                let k = skip_ws(s, j);
                if k < j || k >= s.len() {
                    None
                } else if s[k] == ',' {
                    match parse_items(s, k + 1) {
                        None => None,
                        Some((rest, m)) => Some((seq![v] + rest, m)),
                    }
                } else if s[k] == ']' {
                    Some((seq![v], k + 1))
                } else {
                    None
                }
            }
        },
    }
}

/// Members of a non-empty object, starting at (whitespace before) the
/// first key, up to and including the closing brace.
pub open spec fn parse_members(s: Seq<char>, i: int) -> Option<
    (Seq<(Seq<char>, JsonV)>, int),
>
    decreases s.len() - i, 4int,
{
    let j = skip_ws(s, i);
    if j < i || j >= s.len() || s[j] != '"' {
        None
    } else {
        match parse_string(s, j + 1) {
            None => None,
            Some((key, k1)) => {
                if k1 <= j {
                    None
                } else {
                    let k2 = skip_ws(s, k1);
                    if k2 < k1 || k2 >= s.len() || s[k2] != ':' {
                        None
                    } else {
                        match parse_value(s, k2 + 1) {
                            None => None,
                            Some((v, k3)) => {
                                if k3 <= k2 {
                                    None
                                } else {
                                    let k4 = skip_ws(s, k3);
                                    if k4 < k3 || k4 >= s.len() {
                                        None
                                    } else if s[k4] == ',' {
                                        match parse_members(s, k4 + 1) {
                                            None => None,
                                            Some((rest, m)) => Some(
                                                (seq![(key, v)] + rest, m),
                                            ),
                                        }
                                    } else if s[k4] == '}' {
                                        Some((seq![(key, v)], k4 + 1))
                                    } else {
                                        None
                                    }
                                }
                            },
                        }
                    }
                }
            },
        }
    }
}

pub open spec fn parse_arr(s: Seq<char>, i: int) -> Option<(JsonV, int)>
    decreases s.len() - i, 5int,
{
    let j = skip_ws(s, i);
    if j < i || j >= s.len() {
        None
    } else if s[j] == ']' {
        Some((JsonV::Arr(Seq::empty()), j + 1))
    } else {
        match parse_items(s, j) {
            None => None,
            Some((es, m)) => Some((JsonV::Arr(es), m)),
        }
    }
}

pub open spec fn parse_obj(s: Seq<char>, i: int) -> Option<(JsonV, int)>
    decreases s.len() - i, 5int,
{
    let j = skip_ws(s, i);
    if j < i || j >= s.len() {
        None
    } else if s[j] == '}' {
        Some((JsonV::Obj(Seq::empty()), j + 1))
    } else {
        match parse_members(s, i) {
            None => None,
            Some((ms, m)) => Some((JsonV::Obj(ms), m)),
        }
    }
}

/// What one full line of text means: one JSON value, possibly
/// surrounded by whitespace (the line terminator among it).
pub open spec fn parse_text(s: Seq<char>) -> Option<JsonV> {
    match parse_value(s, 0) {
        None => None,
        Some((v, j)) => if skip_ws(s, j) == s.len() {
            Some(v)
        } else {
            None
        },
    }
}

// ---------------------------------------------------------------------------
// The executable parser.
// ---------------------------------------------------------------------------

/// Relies on `String`'s `FromIterator` implementation: collecting the
/// vector's characters yields the string of exactly those characters,
/// in order.
#[verifier::external_body]
pub(crate) fn string_of(v: &Vec<char>) -> (s: String)
    ensures
        s@ == v@,
{
    v.iter().collect()
}

fn ws_char(c: char) -> (b: bool)
    ensures
        b == is_ws(c),
{
    c == ' ' || c == '\t' || c == '\r' || c == '\n'
}

fn digit_test(c: char) -> (b: bool)
    ensures
        b == is_digit(c),
{
    let u = c as u32;
    48 <= u && u <= 57
}

/// A segment equals a word exactly when it matches it character by
/// character.
proof fn lemma_exact(s: Seq<char>, i: int, w: Seq<char>)
    requires
        0 <= i,
        i + w.len() <= s.len(),
    ensures
        (s.subrange(i, i + w.len() as int) == w) <==> (forall|k: int|
            0 <= k < w.len() ==> s[i + k] == w[k]),
{
    if s.subrange(i, i + w.len() as int) == w {
        assert forall|k: int| 0 <= k < w.len() implies s[i + k] == w[k] by {
            assert(s.subrange(i, i + w.len() as int)[k] == s[i + k]);
        }
    }
    if forall|k: int| 0 <= k < w.len() ==> s[i + k] == w[k] {
        assert(s.subrange(i, i + w.len() as int) =~= w);
    }
}

fn p_ws(s: &str, n: usize, i: usize) -> (j: usize)
    requires
        n == s@.len(),
        i <= n,
    ensures
        j as int == skip_ws(s@, i as int),
        i <= j <= n,
    decreases n - i,
{
    if i < n {
        let c = s.get_char(i);
        if ws_char(c) {
            return p_ws(s, n, i + 1);
        }
    }
    i
}

fn p_string(s: &str, n: usize, i: usize) -> (r: Option<(Vec<char>, usize)>)
    requires
        n == s@.len(),
        i <= n,
    ensures
        (match r {
            Some((cv, j)) => parse_string(s@, i as int) == Some((cv@, j as int)) && i <= j
                <= n,
            None => parse_string(s@, i as int) is None,
        }),
    decreases n - i,
{
    if i >= n {
        return None;
    }
    let c = s.get_char(i);
    if c == '"' {
        let cv: Vec<char> = Vec::new();
        Some((cv, i + 1))
    } else if c == '\\' {
        if i + 1 >= n {
            return None;
        }
        let e = s.get_char(i + 1);
        if e == 'u' {
            if n - i < 6 {
                return None;
            }
            let h2 = s.get_char(i + 2);
            let h3 = s.get_char(i + 3);
            let h4 = s.get_char(i + 4);
            let h5 = s.get_char(i + 5);
            if !(hex_test(h2) && hex_test(h3) && hex_test(h4) && hex_test(h5)) {
                return None;
            }
            let h: u32 = hexv(h2) * 4096 + hexv(h3) * 256 + hexv(h4) * 16 + hexv(h5);
            if 0xD800 <= h && h < 0xE000 {
                return None;
            }
            let u = char_from_code(h);
            proof {
                vstd::utf8::char_u32_cast(u, h);
            }
            match p_string(s, n, i + 6) {
                None => None,
                Some((mut t, j)) => {
                    t.insert(0, u);
                    proof {
                        assert(t@ =~= seq![u] + t@.subrange(1, t@.len() as int));
                    }
                    Some((t, j))
                },
            }
        } else {
            match unesc(e) {
                None => None,
                Some(u) => match p_string(s, n, i + 2) {
                    None => None,
                    Some((mut t, j)) => {
                        t.insert(0, u);
                        proof {
                            assert(t@ =~= seq![u] + t@.subrange(1, t@.len() as int));
                        }
                        Some((t, j))
                    },
                },
            }
        }
    } else {
        match p_string(s, n, i + 1) {
            None => None,
            Some((mut t, j)) => {
                t.insert(0, c);
                proof {
                    assert(t@ =~= seq![c] + t@.subrange(1, t@.len() as int));
                }
                Some((t, j))
            },
        }
    }
}

fn hex_test(c: char) -> (b: bool)
    ensures
        b == (hex_val(c) >= 0),
{
    let u = c as u32;
    (48 <= u && u <= 57) || (97 <= u && u <= 102) || (65 <= u && u <= 70)
}

fn hexv(c: char) -> (r: u32)
    requires
        hex_val(c) >= 0,
    ensures
        r as int == hex_val(c),
{
    let u = c as u32;
    if 48 <= u && u <= 57 {
        u - 48
    } else if 97 <= u && u <= 102 {
        u - 87
    } else {
        u - 55
    }
}

/// Relies on `char::from_u32`: a code point below the surrogate range
/// or between it and the Unicode maximum converts to the `char` with
/// exactly that scalar value (`from_u32` returns `None` only outside
/// those ranges, so the unwrap cannot fail).
#[verifier::external_body]
fn char_from_code(h: u32) -> (c: char)
    requires
        h < 0xD800 || (0xE000 <= h && h < 0x110000),
    ensures
        c as u32 == h,
{
    char::from_u32(h).unwrap()
}

fn unesc(c: char) -> (r: Option<char>)
    ensures
        r == unescape(c),
{
    if c == '"' {
        Some('"')
    } else if c == '\\' {
        Some('\\')
    } else if c == '/' {
        Some('/')
    } else if c == 'n' {
        Some('\n')
    } else if c == 'r' {
        Some('\r')
    } else if c == 't' {
        Some('\t')
    } else if c == 'b' {
        Some('\u{0008}')
    } else if c == 'f' {
        Some('\u{000C}')
    } else {
        None
    }
}

/// Relates the digit fold at a grown right end to one more digit.
proof fn lemma_num_val_snoc(s: Seq<char>, a: int, b: int, acc: int)
    requires
        a <= b,
    ensures
        num_val(s, a, b + 1, acc) == num_val(s, a, b, acc) * 10 + digit_val(s[b]),
    decreases b - a,
{
    if a < b {
        lemma_num_val_snoc(s, a + 1, b, acc * 10 + digit_val(s[a]));
    } else {
        assert(num_val(s, b, b + 1, acc) == num_val(
            s,
            b + 1,
            b + 1,
            acc * 10 + digit_val(s[b]),
        ));
        assert(num_val(s, b + 1, b + 1, acc * 10 + digit_val(s[b])) == acc * 10
            + digit_val(s[b]));
        assert(num_val(s, a, b, acc) == acc);
    }
}

fn scan_digits(s: &str, n: usize, i: usize) -> (j: usize)
    requires
        n == s@.len(),
        i <= n,
    ensures
        j as int == skip_digits(s@, i as int),
        i <= j <= n,
    decreases n - i,
{
    if i < n {
        if digit_test(s.get_char(i)) {
            return scan_digits(s, n, i + 1);
        }
    }
    i
}

fn p_number(s: &str, n: usize, i: usize) -> (r: Option<(Json, usize)>)
    requires
        n == s@.len(),
        i <= n,
    ensures
        (match r {
            Some((v, j)) => parse_number(s@, i as int) == Some((json_model(v), j as int))
                && i <= j <= n,
            None => parse_number(s@, i as int) is None,
        }),
{
    if i >= n {
        return None;
    }
    let neg = s.get_char(i) == '-';
    let d = if neg {
        i + 1
    } else {
        i
    };
    if d >= n {
        return None;
    }
    if !digit_test(s.get_char(d)) {
        return None;
    }
    // the integer digit run, with its value computed up to saturation
    let mut acc: u128 = 0;
    let mut k = d;
    loop
        invariant
            n == s@.len(),
            d <= k <= n,
            num_val(s@, d as int, k as int, 0) >= 0,
            (acc <= 0x8000_0000_0000_0000u128 && acc as int == num_val(
                s@,
                d as int,
                k as int,
                0,
            )) || (acc == 0x8000_0000_0000_0001u128 && num_val(s@, d as int, k as int, 0)
                > int_cap()),
            skip_digits(s@, d as int) == skip_digits(s@, k as int),
        ensures
            d <= k <= n,
            k as int == skip_digits(s@, d as int),
            num_val(s@, d as int, k as int, 0) >= 0,
            (acc <= 0x8000_0000_0000_0000u128 && acc as int == num_val(
                s@,
                d as int,
                k as int,
                0,
            )) || (acc == 0x8000_0000_0000_0001u128 && num_val(s@, d as int, k as int, 0)
                > int_cap()),
        decreases n - k,
    {
        if k < n {
            let c = s.get_char(k);
            if digit_test(c) {
                let dv: u32 = c as u32 - 48;
                proof {
                    lemma_num_val_snoc(s@, d as int, k as int, 0);
                }
                if acc > 0x8000_0000_0000_0000u128 {
                    // already saturated; the value only grows
                } else {
                    let a2: u128 = acc * 10 + dv as u128;
                    if a2 > 0x8000_0000_0000_0000u128 {
                        acc = 0x8000_0000_0000_0001u128;
                    } else {
                        acc = a2;
                    }
                }
                k = k + 1;
                continue ;
            }
        }
        break ;
    }
    let j1 = k;
    // optional fraction
    let mut j2 = j1;
    let mut plain = true;
    if j1 < n && s.get_char(j1) == '.' {
        if j1 + 1 < n && digit_test(s.get_char(j1 + 1)) {
            j2 = scan_digits(s, n, j1 + 1);
            plain = false;
        } else {
            return None;
        }
    }
    // optional exponent
    let mut j3 = j2;
    if j2 < n && (s.get_char(j2) == 'e' || s.get_char(j2) == 'E') {
        let d2 = if j2 + 1 < n && (s.get_char(j2 + 1) == '+' || s.get_char(j2 + 1) == '-') {
            j2 + 2
        } else {
            j2 + 1
        };
        if d2 < n && digit_test(s.get_char(d2)) {
            j3 = scan_digits(s, n, d2);
            plain = false;
        } else {
            return None;
        }
    }
    if plain {
        if neg {
            if acc <= 0x8000_0000_0000_0000u128 {
                let w: i128 = -(acc as i128);
                return Some((Json::Int(w as i64), j1));
            }
        } else {
            if acc < 0x8000_0000_0000_0000u128 {
                return Some((Json::Int(acc as u64 as i64), j1));
            }
        }
    }
    let lex = s.substring_char(i, j3).to_owned();
    Some((Json::Num(lex), j3))
}

fn p_value(s: &str, n: usize, i: usize) -> (r: Option<(Json, usize)>)
    requires
        n == s@.len(),
        i <= n,
    ensures
        (match r {
            Some((v, j)) => parse_value(s@, i as int) == Some((json_model(v), j as int))
                && i <= j <= n,
            None => parse_value(s@, i as int) is None,
        }),
    decreases n - i, 3int,
{
    let j = p_ws(s, n, i);
    if j >= n {
        return None;
    }
    let c = s.get_char(j);
    if c == '{' {
        p_obj(s, n, j + 1)
    } else if c == '[' {
        p_arr(s, n, j + 1)
    } else if c == '"' {
        match p_string(s, n, j + 1) {
            None => None,
            Some((t, k)) => Some((Json::Text(string_of(&t)), k)),
        }
    } else if c == 'n' {
        proof {
            if j + 4 <= n {
                lemma_exact(s@, j as int, seq!['n', 'u', 'l', 'l']);
            }
        }
        if n - j >= 4 && s.get_char(j + 1) == 'u' && s.get_char(j + 2) == 'l' && s.get_char(
            j + 3,
        ) == 'l' {
            Some((Json::Null, j + 4))
        } else {
            None
        }
    } else if c == 't' {
        proof {
            if j + 4 <= n {
                lemma_exact(s@, j as int, seq!['t', 'r', 'u', 'e']);
            }
        }
        if n - j >= 4 && s.get_char(j + 1) == 'r' && s.get_char(j + 2) == 'u' && s.get_char(
            j + 3,
        ) == 'e' {
            Some((Json::Bool(true), j + 4))
        } else {
            None
        }
    } else if c == 'f' {
        proof {
            if j + 5 <= n {
                lemma_exact(s@, j as int, seq!['f', 'a', 'l', 's', 'e']);
            }
        }
        if n - j >= 5 && s.get_char(j + 1) == 'a' && s.get_char(j + 2) == 'l' && s.get_char(
            j + 3,
        ) == 's' && s.get_char(j + 4) == 'e' {
            Some((Json::Bool(false), j + 5))
        } else {
            None
        }
    } else if c == '-' || digit_test(c) {
        p_number(s, n, j)
    } else {
        None
    }
}

fn p_items(s: &str, n: usize, i: usize) -> (r: Option<(Vec<Json>, usize)>)
    requires
        n == s@.len(),
        i <= n,
    ensures
        (match r {
            Some((vs, j)) => parse_items(s@, i as int) == Some((seq_model(vs@), j as int))
                && i <= j <= n,
            None => parse_items(s@, i as int) is None,
        }),
    decreases n - i, 4int,
{
    match p_value(s, n, i) {
        None => None,
        Some((v, j)) => {
            if j <= i {
                return None;
            }
            let k = p_ws(s, n, j);
            if k >= n {
                return None;
            }
            let c = s.get_char(k);
            if c == ',' {
                match p_items(s, n, k + 1) {
                    None => None,
                    Some((mut rest, m)) => {
                        let ghost r0 = rest@;
                        rest.insert(0, v);
                        proof {
                            assert(rest@[0] == v);
                            assert(rest@.drop_first() =~= r0);
                            lemma_seq_model_cons(rest@);
                        }
                        Some((rest, m))
                    },
                }
            } else if c == ']' {
                let mut one: Vec<Json> = Vec::new();
                one.push(v);
                proof {
                    lemma_seq_model(one@);
                    assert(seq_model(one@) =~= seq![json_model(v)]);
                }
                Some((one, k + 1))
            } else {
                None
            }
        },
    }
}

/// Unrolls the element model of a non-empty vector at its head.
proof fn lemma_seq_model_cons(s: Seq<Json>)
    requires
        s.len() > 0,
    ensures
        seq_model(s) == seq![json_model(s[0])] + seq_model(s.drop_first()),
{
    lemma_seq_model(s);
    lemma_seq_model(s.drop_first());
    assert(seq_model(s) =~= seq![json_model(s[0])] + seq_model(s.drop_first()));
}

/// Unrolls the entry model of a non-empty vector at its head.
proof fn lemma_entries_model_cons(s: Seq<(String, Json)>)
    requires
        s.len() > 0,
    ensures
        entries_model(s) == seq![(s[0].0@, json_model(s[0].1))] + entries_model(
            s.drop_first(),
        ),
{
    lemma_entries_model(s);
    lemma_entries_model(s.drop_first());
    assert(entries_model(s) =~= seq![(s[0].0@, json_model(s[0].1))] + entries_model(
        s.drop_first(),
    ));
}

fn p_members(s: &str, n: usize, i: usize) -> (r: Option<(Vec<(String, Json)>, usize)>)
    requires
        n == s@.len(),
        i <= n,
    ensures
        (match r {
            Some((ms, j)) => parse_members(s@, i as int) == Some(
                (entries_model(ms@), j as int),
            ) && i <= j <= n,
            None => parse_members(s@, i as int) is None,
        }),
    decreases n - i, 4int,
{
    let j = p_ws(s, n, i);
    if j >= n {
        return None;
    }
    if s.get_char(j) != '"' {
        return None;
    }
    match p_string(s, n, j + 1) {
        None => None,
        Some((key, k1)) => {
            let k2 = p_ws(s, n, k1);
            if k2 >= n {
                return None;
            }
            if s.get_char(k2) != ':' {
                return None;
            }
            match p_value(s, n, k2 + 1) {
                None => None,
                Some((v, k3)) => {
                    let k4 = p_ws(s, n, k3);
                    if k4 >= n {
                        return None;
                    }
                    let c = s.get_char(k4);
                    if c == ',' {
                        match p_members(s, n, k4 + 1) {
                            None => None,
                            Some((mut rest, m)) => {
                                let ghost r0 = rest@;
                                let kx = string_of(&key);
                                rest.insert(0, (kx, v));
                                proof {
                                    assert(rest@[0].0@ == key@);
                                    assert(rest@.drop_first() =~= r0);
                                    lemma_entries_model_cons(rest@);
                                }
                                Some((rest, m))
                            },
                        }
                    } else if c == '}' {
                        let mut one: Vec<(String, Json)> = Vec::new();
                        one.push((string_of(&key), v));
                        proof {
                            lemma_entries_model(one@);
                            assert(entries_model(one@) =~= seq![
                                (key@, json_model(v)),
                            ]);
                        }
                        Some((one, k4 + 1))
                    } else {
                        None
                    }
                },
            }
        },
    }
}

fn p_arr(s: &str, n: usize, i: usize) -> (r: Option<(Json, usize)>)
    requires
        n == s@.len(),
        i <= n,
    ensures
        (match r {
            Some((v, j)) => parse_arr(s@, i as int) == Some((json_model(v), j as int)) && i
                <= j <= n,
            None => parse_arr(s@, i as int) is None,
        }),
    decreases n - i, 5int,
{
    let j = p_ws(s, n, i);
    if j >= n {
        return None;
    }
    if s.get_char(j) == ']' {
        let items: Vec<Json> = Vec::new();
        proof {
            assert(seq_model(items@) =~= Seq::<JsonV>::empty());
        }
        Some((Json::Arr(items), j + 1))
    } else {
        match p_items(s, n, j) {
            None => None,
            Some((es, m)) => Some((Json::Arr(es), m)),
        }
    }
}

fn p_obj(s: &str, n: usize, i: usize) -> (r: Option<(Json, usize)>)
    requires
        n == s@.len(),
        i <= n,
    ensures
        (match r {
            Some((v, j)) => parse_obj(s@, i as int) == Some((json_model(v), j as int)) && i
                <= j <= n,
            None => parse_obj(s@, i as int) is None,
        }),
    decreases n - i, 5int,
{
    let j = p_ws(s, n, i);
    if j >= n {
        return None;
    }
    if s.get_char(j) == '}' {
        let entries: Vec<(String, Json)> = Vec::new();
        proof {
            assert(entries_model(entries@) =~= Seq::<(Seq<char>, JsonV)>::empty());
        }
        Some((Json::Obj(entries), j + 1))
    } else {
        match p_members(s, n, i) {
            None => None,
            Some((ms, m)) => Some((Json::Obj(ms), m)),
        }
    }
}

/// Parses one full line of text as a single JSON value.
pub fn parse_json(s: &str) -> (r: Option<Json>)
    ensures
        (match r {
            Some(v) => parse_text(s@) == Some(json_model(v)),
            None => parse_text(s@) is None,
        }),
{
    let n = s.unicode_len();
    match p_value(s, n, 0) {
        None => None,
        Some((v, j)) => {
            let k = p_ws(s, n, j);
            if k == n {
                Some(v)
            } else {
                None
            }
        },
    }
}

// ---------------------------------------------------------------------------
// The grammar: the text a value is written as.
// ---------------------------------------------------------------------------

/// Decimal digits of a non-negative integer.
pub open spec fn ser_nat(m: int) -> Seq<char>
    decreases m,
{
    if m < 10 {
        seq![digit_char(m)]
    } else {
        ser_nat(m / 10).push(digit_char(m % 10))
    }
}

pub open spec fn ser_int(n: int) -> Seq<char> {
    if n < 0 {
        seq!['-'] + ser_nat(-n)
    } else {
        ser_nat(n)
    }
}

/// The escape sequence (or the character itself) a string content
/// character is written as.
pub open spec fn esc(c: char) -> Seq<char> {
    if c == '"' {
        seq!['\\', '"']
    } else if c == '\\' {
        seq!['\\', '\\']
    } else if c == '\n' {
        seq!['\\', 'n']
    } else if c == '\r' {
        seq!['\\', 'r']
    } else if c == '\t' {
        seq!['\\', 't']
    } else if c == '\u{0008}' {
        seq!['\\', 'b']
    } else if c == '\u{000C}' {
        seq!['\\', 'f']
    } else if (c as u32) < 32 {
        seq![
            '\\',
            'u',
            '0',
            '0',
            hex_char(c as u32 as int / 16),
            hex_char(c as u32 as int % 16),
        ]
    } else {
        seq![c]
    }
}

pub open spec fn ser_content(t: Seq<char>) -> Seq<char>
    decreases t.len(),
{
    if t.len() == 0 {
        Seq::empty()
    } else {
        ser_content(t.drop_last()) + esc(t.last())
    }
}

pub open spec fn ser_val(v: JsonV) -> Seq<char>
    decreases v,
{
    match v {
        JsonV::Null => seq!['n', 'u', 'l', 'l'],
        JsonV::Bool(b) => if b {
            seq!['t', 'r', 'u', 'e']
        } else {
            seq!['f', 'a', 'l', 's', 'e']
        },
        JsonV::Int(n) => ser_int(n),
        JsonV::Num(t) => t,
        JsonV::Text(t) => seq!['"'] + ser_content(t) + seq!['"'],
        JsonV::Arr(es) => seq!['['] + ser_items(es) + seq![']'],
        JsonV::Obj(ms) => seq!['{'] + ser_members(ms) + seq!['}'],
    }
}

pub open spec fn ser_items(es: Seq<JsonV>) -> Seq<char>
    decreases es,
{
    if es.len() == 0 {
        Seq::empty()
    } else if es.len() == 1 {
        ser_val(es[0])
    } else {
        ser_items(es.drop_last()) + seq![','] + ser_val(es.last())
    }
}

pub open spec fn ser_entry(m: (Seq<char>, JsonV)) -> Seq<char>
    decreases m,
{
    seq!['"'] + ser_content(m.0) + seq!['"', ':'] + ser_val(m.1)
}

pub open spec fn ser_members(ms: Seq<(Seq<char>, JsonV)>) -> Seq<char>
    decreases ms,
{
    if ms.len() == 0 {
        Seq::empty()
    } else if ms.len() == 1 {
        ser_entry(ms[0])
    } else {
        ser_members(ms.drop_last()) + seq![','] + ser_entry(ms.last())
    }
}

// ---------------------------------------------------------------------------
// The executable serializer.
// ---------------------------------------------------------------------------

fn digit_ch(d: u64) -> (c: char)
    requires
        d < 10,
    ensures
        c == digit_char(d as int),
{
    if d == 0 {
        '0'
    } else if d == 1 {
        '1'
    } else if d == 2 {
        '2'
    } else if d == 3 {
        '3'
    } else if d == 4 {
        '4'
    } else if d == 5 {
        '5'
    } else if d == 6 {
        '6'
    } else if d == 7 {
        '7'
    } else if d == 8 {
        '8'
    } else {
        '9'
    }
}

fn ser_mag(m: u64, out: &mut Vec<char>)
    ensures
        final(out)@ == old(out)@ + ser_nat(m as int),
    decreases m,
{
    if m < 10 {
        out.push(digit_ch(m));
        proof {
            assert(final(out)@ =~= old(out)@ + ser_nat(m as int));
        }
    } else {
        ser_mag(m / 10, out);
        out.push(digit_ch(m % 10));
        proof {
            assert(final(out)@ =~= old(out)@ + ser_nat(m as int));
        }
    }
}

fn ser_int_x(n: i64, out: &mut Vec<char>)
    ensures
        final(out)@ == old(out)@ + ser_int(n as int),
{
    if n < 0 {
        out.push('-');
        let w: i128 = -(n as i128);
        ser_mag(w as u64, out);
        proof {
            assert(final(out)@ =~= old(out)@ + ser_int(n as int));
        }
    } else {
        ser_mag(n as u64, out);
    }
}

/// `ser_content` distributes over concatenation.
pub proof fn lemma_ser_content_concat(a: Seq<char>, b: Seq<char>)
    ensures
        ser_content(a + b) == ser_content(a) + ser_content(b),
    decreases b.len(),
{
    if b.len() == 0 {
        assert(a + b =~= a);
        assert(ser_content(a) + ser_content(b) =~= ser_content(a));
    } else {
        lemma_ser_content_concat(a, b.drop_last());
        assert((a + b).drop_last() =~= a + b.drop_last());
        assert((a + b).last() == b.last());
        assert(ser_content(a) + ser_content(b) =~= ser_content(a) + ser_content(
            b.drop_last(),
        ) + esc(b.last()));
    }
}

fn esc_x(c: char, out: &mut Vec<char>)
    ensures
        final(out)@ == old(out)@ + esc(c),
{
    if c == '"' {
        out.push('\\');
        out.push('"');
    } else if c == '\\' {
        out.push('\\');
        out.push('\\');
    } else if c == '\n' {
        out.push('\\');
        out.push('n');
    } else if c == '\r' {
        out.push('\\');
        out.push('r');
    } else if c == '\t' {
        out.push('\\');
        out.push('t');
    } else if c == '\u{0008}' {
        out.push('\\');
        out.push('b');
    } else if c == '\u{000C}' {
        out.push('\\');
        out.push('f');
    } else if (c as u32) < 32 {
        let u = c as u32;
        out.push('\\');
        out.push('u');
        out.push('0');
        out.push('0');
        out.push(hex_ch(u / 16));
        out.push(hex_ch(u % 16));
    } else {
        out.push(c);
    }
    proof {
        assert(final(out)@ =~= old(out)@ + esc(c));
    }
}

fn hex_ch(d: u32) -> (c: char)
    requires
        d < 16,
    ensures
        c == hex_char(d as int),
{
    if d < 10 {
        digit_ch(d as u64)
    } else if d == 10 {
        'a'
    } else if d == 11 {
        'b'
    } else if d == 12 {
        'c'
    } else if d == 13 {
        'd'
    } else if d == 14 {
        'e'
    } else {
        'f'
    }
}

fn ser_content_x(t: &String, out: &mut Vec<char>)
    ensures
        final(out)@ == old(out)@ + ser_content(t@),
{
    let s = t.as_str();
    let n = s.unicode_len();
    let mut i: usize = 0;
    while i < n
        invariant
            n == s@.len(),
            s@ == t@,
            i <= n,
            out@ == old(out)@ + ser_content(t@.take(i as int)),
        decreases n - i,
    {
        let c = s.get_char(i);
        proof {
            assert(t@.take(i + 1).drop_last() =~= t@.take(i as int));
            assert(t@.take(i + 1).last() == c);
            lemma_ser_content_concat(t@.take(i as int), seq![c]);
        }
        esc_x(c, out);
        i = i + 1;
        proof {
            assert(out@ =~= old(out)@ + ser_content(t@.take(i as int)));
        }
    }
    proof {
        assert(t@.take(n as int) =~= t@);
    }
}

/// Appends a string's characters verbatim.
fn push_chars(t: &String, out: &mut Vec<char>)
    ensures
        final(out)@ == old(out)@ + t@,
{
    let s = t.as_str();
    let n = s.unicode_len();
    let mut i: usize = 0;
    while i < n
        invariant
            n == s@.len(),
            s@ == t@,
            i <= n,
            out@ == old(out)@ + t@.take(i as int),
        decreases n - i,
    {
        let c = s.get_char(i);
        out.push(c);
        i = i + 1;
        proof {
            assert(out@ =~= old(out)@ + t@.take(i as int));
        }
    }
    proof {
        assert(t@.take(n as int) =~= t@);
    }
}

fn ser_val_x(v: &Json, out: &mut Vec<char>)
    ensures
        final(out)@ == old(out)@ + ser_val(json_model(*v)),
    decreases *v,
{
    match v {
        Json::Null => {
            out.push('n');
            out.push('u');
            out.push('l');
            out.push('l');
            proof {
                assert(final(out)@ =~= old(out)@ + ser_val(json_model(*v)));
            }
        },
        Json::Bool(b) => {
            if *b {
                out.push('t');
                out.push('r');
                out.push('u');
                out.push('e');
            } else {
                out.push('f');
                out.push('a');
                out.push('l');
                out.push('s');
                out.push('e');
            }
            proof {
                assert(final(out)@ =~= old(out)@ + ser_val(json_model(*v)));
            }
        },
        Json::Int(n) => {
            ser_int_x(*n, out);
        },
        Json::Num(t) => {
            push_chars(t, out);
        },
        Json::Text(t) => {
            out.push('"');
            ser_content_x(t, out);
            out.push('"');
            proof {
                assert(final(out)@ =~= old(out)@ + ser_val(json_model(*v)));
            }
        },
        Json::Arr(items) => {
            out.push('[');
            let ghost base = out@;
            let ghost m = seq_model(items@);
            proof {
                lemma_seq_model(items@);
            }
            let mut idx: usize = 0;
            while idx < items.len()
                invariant
                    *v == Json::Arr(*items),
                    idx <= items.len(),
                    m == seq_model(items@),
                    m.len() == items@.len(),
                    forall|q: int| 0 <= q < items@.len() ==> m[q] == json_model(
                        items@[q],
                    ),
                    base == old(out)@ + seq!['['],
                    out@ == base + ser_items(m.take(idx as int)),
                decreases items.len() - idx,
            {
                if idx > 0 {
                    out.push(',');
                }
                proof {
                    assert(decreases_to!(*v => (*v)->Arr_0));
                    assert((*v)->Arr_0 == *items);
                    assert(decreases_to!(*items => items@[idx as int]));
                    assert(decreases_to!(*v => items@[idx as int]));
                }
                ser_val_x(&items[idx], out);
                proof {
                    assert(m.take(idx + 1).drop_last() =~= m.take(idx as int));
                    assert(m.take(idx + 1).last() == m[idx as int]);
                    assert(out@ =~= base + ser_items(m.take(idx + 1)));
                }
                idx = idx + 1;
            }
            out.push(']');
            proof {
                assert(m.take(items@.len() as int) =~= m);
                assert(final(out)@ =~= old(out)@ + ser_val(json_model(*v)));
            }
        },
        Json::Obj(entries) => {
            out.push('{');
            let ghost base = out@;
            let ghost m = entries_model(entries@);
            proof {
                lemma_entries_model(entries@);
            }
            let mut idx: usize = 0;
            while idx < entries.len()
                invariant
                    *v == Json::Obj(*entries),
                    idx <= entries.len(),
                    m == entries_model(entries@),
                    m.len() == entries@.len(),
                    forall|q: int| 0 <= q < entries@.len() ==> m[q] == (
                        entries@[q].0@,
                        json_model(entries@[q].1),
                    ),
                    base == old(out)@ + seq!['{'],
                    out@ == base + ser_members(m.take(idx as int)),
                decreases entries.len() - idx,
            {
                if idx > 0 {
                    out.push(',');
                }
                out.push('"');
                ser_content_x(&entries[idx].0, out);
                out.push('"');
                out.push(':');
                proof {
                    assert(decreases_to!(*v => (*v)->Obj_0));
                    assert((*v)->Obj_0 == *entries);
                    assert(decreases_to!(*entries => entries@[idx as int]));
                    assert(decreases_to!(entries@[idx as int] => entries@[idx as int].1));
                    assert(decreases_to!(*v => entries@[idx as int].1));
                }
                ser_val_x(&entries[idx].1, out);
                proof {
                    assert(m.take(idx + 1).drop_last() =~= m.take(idx as int));
                    assert(m.take(idx + 1).last() == m[idx as int]);
                    assert(out@ =~= base + ser_members(m.take(idx as int)) + (if idx
                        == 0 {
                        Seq::<char>::empty()
                    } else {
                        seq![',']
                    }) + ser_entry(m[idx as int]));
                    assert(out@ =~= base + ser_members(m.take(idx + 1)));
                }
                idx = idx + 1;
            }
            out.push('}');
            proof {
                assert(m.take(entries@.len() as int) =~= m);
                assert(final(out)@ =~= old(out)@ + ser_val(json_model(*v)));
            }
        },
    }
}

impl Clone for Json {
    /// A clone means the same value.
    fn clone(&self) -> (r: Json)
        ensures
            json_model(r) == json_model(*self),
        decreases *self,
    {
        match self {
            Json::Null => Json::Null,
            Json::Bool(b) => Json::Bool(*b),
            Json::Int(n) => Json::Int(*n),
            Json::Num(s) => Json::Num(s.clone()),
            Json::Text(s) => Json::Text(s.clone()),
            Json::Arr(items) => {
                let mut out: Vec<Json> = Vec::new();
                let mut idx: usize = 0;
                while idx < items.len()
                    invariant
                        *self == Json::Arr(*items),
                        idx <= items.len(),
                        out@.len() == idx,
                        forall|q: int| 0 <= q < idx ==> json_model(out@[q]) == json_model(
                            items@[q],
                        ),
                    decreases items.len() - idx,
                {
                    proof {
                        assert(decreases_to!(*self => (*self)->Arr_0));
                        assert((*self)->Arr_0 == *items);
                        assert(decreases_to!(*items => items@[idx as int]));
                        assert(decreases_to!(*self => items@[idx as int]));
                    }
                    let c = items[idx].clone();
                    out.push(c);
                    idx = idx + 1;
                }
                proof {
                    lemma_seq_model(out@);
                    lemma_seq_model(items@);
                    assert(seq_model(out@) =~= seq_model(items@));
                }
                Json::Arr(out)
            },
            Json::Obj(entries) => {
                let mut out: Vec<(String, Json)> = Vec::new();
                let mut idx: usize = 0;
                while idx < entries.len()
                    invariant
                        *self == Json::Obj(*entries),
                        idx <= entries.len(),
                        out@.len() == idx,
                        forall|q: int| 0 <= q < idx ==> out@[q].0@ == entries@[q].0@
                            && json_model(out@[q].1) == json_model(entries@[q].1),
                    decreases entries.len() - idx,
                {
                    proof {
                        assert(decreases_to!(*self => (*self)->Obj_0));
                        assert((*self)->Obj_0 == *entries);
                        assert(decreases_to!(*entries => entries@[idx as int]));
                        assert(decreases_to!(entries@[idx as int] => entries@[idx
                            as int].1));
                        assert(decreases_to!(*self => entries@[idx as int].1));
                    }
                    let k = entries[idx].0.clone();
                    let c = entries[idx].1.clone();
                    out.push((k, c));
                    idx = idx + 1;
                }
                proof {
                    lemma_entries_model(out@);
                    lemma_entries_model(entries@);
                    assert(entries_model(out@) =~= entries_model(entries@));
                }
                Json::Obj(out)
            },
        }
    }
}

/// Writes a value as its wire text: compact, no surrounding whitespace.
pub fn to_json_text(v: &Json) -> (r: String)
    ensures
        r@ == ser_val(json_model(*v)),
{
    let mut out: Vec<char> = Vec::new();
    ser_val_x(v, &mut out);
    string_of(&out)
}

} // verus!
