//! The wire codec of the duplex connection.
//!
//! Chat events travel as structured text records. An inbound record holds the
//! fields `UserId`, `ChatroomName`, `Content` and `Timestamp` (an RFC 3339
//! UTC instant); an outbound record holds `User`, `ChatroomName` and
//! `Message` and omits the timestamp, which the server assigns. A record is
//! one object of quoted fields in any order, with the usual whitespace and
//! string escapes; field keys are plain (unescaped), and an escaped
//! `\uXXXX` names a basic-plane scalar (surrogates are rejected, so a
//! malformed frame is dropped rather than mis-read).

use vstd::prelude::*;

use vstd::string::{StrSliceExecFns, StringExecFns};

use crate::messages::{ChatMessage, MsgModel, OutModel, RoomMessage};

verus! {

broadcast use vstd::utf8::char_u32_cast;

/// Relies on std's `String::push`: appends exactly the one character.
pub assume_specification[ String::push ](s: &mut String, ch: char)
    ensures
        final(s)@ == old(s)@.push(ch),
;

/// Relies on std's `char::from_u32`: yields the character of a Unicode
/// scalar value and rejects exactly the surrogates and out-of-range values.
pub assume_specification[ char::from_u32 ](i: u32) -> (r: Option<char>)
    ensures
        r is Some <==> (i < 0xD800 || (0xE000 <= i && i <= 0x10FFFF)),
        r matches Some(c) ==> c as u32 == i,
;

/// The characters of a string slice, as an indexable vector.
pub fn str_to_chars(s: &str) -> (r: Vec<char>)
    ensures
        r@ == s@,
{
    let n = s.unicode_len();
    let mut r: Vec<char> = Vec::new();
    let mut i: usize = 0;
    while i < n
        invariant
            i <= n,
            n == s@.len(),
            r@ =~= s@.take(i as int),
        decreases n - i,
    {
        r.push(s.get_char(i));
        i = i + 1;
    }
    proof {
        assert(s@.take(n as int) =~= s@);
    }
    r
}

/// Record whitespace: space, tab, line feed, carriage return.
pub open spec fn is_ws(c: char) -> bool {
    c == ' ' || c == '\t' || c == '\n' || c == '\r'
}

/// The first position at or after `i` holding no whitespace.
pub open spec fn skip_ws(s: Seq<char>, i: int) -> int
    decreases s.len() - i
        when 0 <= i <= s.len()
{
    if i < s.len() && is_ws(s[i]) {
        skip_ws(s, i + 1)
    } else {
        i
    }
}

fn skip_ws_exec(v: &Vec<char>, start: usize) -> (j: usize)
    requires
        start <= v@.len(),
    ensures
        j as int == skip_ws(v@, start as int),
        start <= j <= v@.len(),
{
    let mut i: usize = start;
    while i < v.len() && (v[i] == ' ' || v[i] == '\t' || v[i] == '\n' || v[i] == '\r')
        invariant
            start <= i <= v@.len(),
            skip_ws(v@, start as int) == skip_ws(v@, i as int),
        decreases v@.len() - i,
    {
        i = i + 1;
    }
    i
}

/// The value of a hexadecimal digit, lower or upper case.
pub open spec fn hex_val(c: char) -> Option<u32> {
    let u = c as u32;
    if 0x30 <= u && u <= 0x39 {
        Some((u - 0x30) as u32)
    } else if 0x61 <= u && u <= 0x66 {
        Some((u - 0x61 + 10) as u32)
    } else if 0x41 <= u && u <= 0x46 {
        Some((u - 0x41 + 10) as u32)
    } else {
        None
    }
}

fn hex_val_exec(c: char) -> (r: Option<u32>)
    ensures
        r == hex_val(c),
{
    let u = c as u32;
    if 0x30 <= u && u <= 0x39 {
        Some(u - 0x30)
    } else if 0x61 <= u && u <= 0x66 {
        Some(u - 0x61 + 10)
    } else if 0x41 <= u && u <= 0x46 {
        Some(u - 0x41 + 10)
    } else {
        None
    }
}

/// Parses the remainder of a quoted string, escapes honoured, `acc` holding
/// what is already read: yields the string's characters and the position
/// after the closing quote.
pub open spec fn parse_string_body(s: Seq<char>, i: int, acc: Seq<char>) -> Option<
    (Seq<char>, int),
>
    decreases s.len() - i
        when 0 <= i <= s.len()
{
    if i >= s.len() {
        None
    } else if s[i] == '"' {
        Some((acc, i + 1))
    } else if s[i] == '\\' {
        if i + 2 > s.len() {
            None
        } else {
            let e = s[i + 1];
            if e == '"' || e == '\\' || e == '/' {
                parse_string_body(s, i + 2, acc.push(e))
            } else if e == 'b' {
                parse_string_body(s, i + 2, acc.push('\u{8}'))
            } else if e == 'f' {
                parse_string_body(s, i + 2, acc.push('\u{c}'))
            } else if e == 'n' {
                parse_string_body(s, i + 2, acc.push('\n'))
            } else if e == 'r' {
                parse_string_body(s, i + 2, acc.push('\r'))
            } else if e == 't' {
                parse_string_body(s, i + 2, acc.push('\t'))
            } else if e == 'u' {
                if i + 6 <= s.len() {
                    match (hex_val(s[i + 2]), hex_val(s[i + 3]), hex_val(s[i + 4]), hex_val(
                        s[i + 5],
                    )) {
                        (Some(d1), Some(d2), Some(d3), Some(d4)) => {
                            let cp = (d1 * 0x1000 + d2 * 0x100 + d3 * 0x10 + d4) as u32;
                            if cp < 0xD800 || cp >= 0xE000 {
                                parse_string_body(s, i + 6, acc.push(cp as char))
                            } else {
                                None
                            }
                        },
                        _ => None,
                    }
                } else {
                    None
                }
            } else {
                None
            }
        }
    } else if (s[i] as u32) >= 0x20 {
        parse_string_body(s, i + 1, acc.push(s[i]))
    } else {
        None
    }
}

proof fn lemma_parse_string_body_bounds(s: Seq<char>, i: int, acc: Seq<char>)
    requires
        0 <= i <= s.len(),
    ensures
        match parse_string_body(s, i, acc) {
            Some((_, j)) => i < j <= s.len(),
            None => true,
        },
    decreases s.len() - i,
{
    if i < s.len() && s[i] != '"' {
        if s[i] == '\\' && i + 2 <= s.len() {
            let e = s[i + 1];
            if e == '"' || e == '\\' || e == '/' {
                lemma_parse_string_body_bounds(s, i + 2, acc.push(e));
            } else if e == 'b' {
                lemma_parse_string_body_bounds(s, i + 2, acc.push('\u{8}'));
            } else if e == 'f' {
                lemma_parse_string_body_bounds(s, i + 2, acc.push('\u{c}'));
            } else if e == 'n' {
                lemma_parse_string_body_bounds(s, i + 2, acc.push('\n'));
            } else if e == 'r' {
                lemma_parse_string_body_bounds(s, i + 2, acc.push('\r'));
            } else if e == 't' {
                lemma_parse_string_body_bounds(s, i + 2, acc.push('\t'));
            } else if e == 'u' && i + 6 <= s.len() {
                match (hex_val(s[i + 2]), hex_val(s[i + 3]), hex_val(s[i + 4]), hex_val(
                    s[i + 5],
                )) {
                    (Some(d1), Some(d2), Some(d3), Some(d4)) => {
                        let cp = (d1 * 0x1000 + d2 * 0x100 + d3 * 0x10 + d4) as u32;
                        lemma_parse_string_body_bounds(s, i + 6, acc.push(cp as char));
                    },
                    _ => {},
                }
            }
        } else if s[i] != '\\' && (s[i] as u32) >= 0x20 {
            lemma_parse_string_body_bounds(s, i + 1, acc.push(s[i]));
        }
    }
}

#[verifier::rlimit(50)]
fn parse_string_body_exec(v: &Vec<char>, start: usize) -> (r: Option<(String, usize)>)
    requires
        start <= v@.len(),
    ensures
        match r {
            Some((out, j)) => {
                &&& parse_string_body(v@, start as int, Seq::<char>::empty()) == Some(
                    (out@, j as int),
                )
                &&& start < j <= v@.len()
            },
            None => parse_string_body(v@, start as int, Seq::<char>::empty()) is None,
        },
{
    let mut i: usize = start;
    let mut acc = String::new();
    proof {
        assert(acc@ =~= Seq::<char>::empty());
    }
    loop
        invariant
            start <= i <= v@.len(),
            parse_string_body(v@, start as int, Seq::<char>::empty()) == parse_string_body(
                v@,
                i as int,
                acc@,
            ),
        decreases v@.len() - i,
    {
        let ghost i0 = i as int;
        let ghost a0 = acc@;
        if i >= v.len() {
            return None;
        }
        let c = v[i];
        if c == '"' {
            proof {
                lemma_parse_string_body_bounds(v@, start as int, Seq::<char>::empty());
            }
            return Some((acc, i + 1));
        }
        if c == '\\' {
            if v.len() - i < 2 {
                return None;
            }
            let e = v[i + 1];
            if e == '"' || e == '\\' || e == '/' {
                acc.push(e);
                i = i + 2;
                proof {
                    assert(parse_string_body(v@, i0, a0) == parse_string_body(v@, i as int, acc@));
                }
            } else if e == 'b' {
                acc.push('\u{8}');
                i = i + 2;
                proof {
                    assert(parse_string_body(v@, i0, a0) == parse_string_body(v@, i as int, acc@));
                }
            } else if e == 'f' {
                acc.push('\u{c}');
                i = i + 2;
                proof {
                    assert(parse_string_body(v@, i0, a0) == parse_string_body(v@, i as int, acc@));
                }
            } else if e == 'n' {
                acc.push('\n');
                i = i + 2;
                proof {
                    assert(parse_string_body(v@, i0, a0) == parse_string_body(v@, i as int, acc@));
                }
            } else if e == 'r' {
                acc.push('\r');
                i = i + 2;
                proof {
                    assert(parse_string_body(v@, i0, a0) == parse_string_body(v@, i as int, acc@));
                }
            } else if e == 't' {
                acc.push('\t');
                i = i + 2;
                proof {
                    assert(parse_string_body(v@, i0, a0) == parse_string_body(v@, i as int, acc@));
                }
            } else if e == 'u' {
                if v.len() - i < 6 {
                    return None;
                }
                let d1 = hex_val_exec(v[i + 2]);
                let d2 = hex_val_exec(v[i + 3]);
                let d3 = hex_val_exec(v[i + 4]);
                let d4 = hex_val_exec(v[i + 5]);
                match (d1, d2, d3, d4) {
                    (Some(x1), Some(x2), Some(x3), Some(x4)) => {
                        let cp: u32 = x1 * 0x1000 + x2 * 0x100 + x3 * 0x10 + x4;
                        if cp < 0xD800 || cp >= 0xE000 {
                            match char::from_u32(cp) {
                                Some(ch) => {
                                    acc.push(ch);
                                    i = i + 6;
                                    proof {
                                        vstd::utf8::char_u32_cast(ch, cp);
                                        assert(ch == ((x1 * 0x1000 + x2 * 0x100 + x3 * 0x10
                                            + x4) as u32) as char);
                                        assert(parse_string_body(v@, i0, a0) == parse_string_body(
                                            v@,
                                            i as int,
                                            acc@,
                                        ));
                                    }
                                },
                                None => {
                                    proof {
                                        assert(false);
                                    }
                                    return None;
                                },
                            }
                        } else {
                            return None;
                        }
                    },
                    _ => {
                        return None;
                    },
                }
            } else {
                return None;
            }
        } else if (c as u32) >= 0x20 {
            acc.push(c);
            i = i + 1;
            proof {
                assert(parse_string_body(v@, i0, a0) == parse_string_body(v@, i as int, acc@));
            }
        } else {
            return None;
        }
    }
}

/// Parses the remainder of a plain quoted string: no escapes, no control
/// characters. Field keys are written this way.
pub open spec fn parse_plain_string_body(s: Seq<char>, i: int, acc: Seq<char>) -> Option<
    (Seq<char>, int),
>
    decreases s.len() - i
        when 0 <= i <= s.len()
{
    if i >= s.len() {
        None
    } else if s[i] == '"' {
        Some((acc, i + 1))
    } else if s[i] != '\\' && (s[i] as u32) >= 0x20 {
        parse_plain_string_body(s, i + 1, acc.push(s[i]))
    } else {
        None
    }
}

proof fn lemma_parse_plain_string_body_bounds(s: Seq<char>, i: int, acc: Seq<char>)
    requires
        0 <= i <= s.len(),
    ensures
        match parse_plain_string_body(s, i, acc) {
            Some((_, j)) => i < j <= s.len(),
            None => true,
        },
    decreases s.len() - i,
{
    if i < s.len() && s[i] != '"' && s[i] != '\\' && (s[i] as u32) >= 0x20 {
        lemma_parse_plain_string_body_bounds(s, i + 1, acc.push(s[i]));
    }
}

fn parse_plain_string_body_exec(v: &Vec<char>, start: usize) -> (r: Option<(String, usize)>)
    requires
        start <= v@.len(),
    ensures
        match r {
            Some((out, j)) => {
                &&& parse_plain_string_body(v@, start as int, Seq::<char>::empty()) == Some(
                    (out@, j as int),
                )
                &&& start < j <= v@.len()
            },
            None => parse_plain_string_body(v@, start as int, Seq::<char>::empty()) is None,
        },
{
    let mut i: usize = start;
    let mut acc = String::new();
    proof {
        assert(acc@ =~= Seq::<char>::empty());
    }
    loop
        invariant
            start <= i <= v@.len(),
            parse_plain_string_body(v@, start as int, Seq::<char>::empty())
                == parse_plain_string_body(v@, i as int, acc@),
        decreases v@.len() - i,
    {
        if i >= v.len() {
            return None;
        }
        let c = v[i];
        if c == '"' {
            proof {
                lemma_parse_plain_string_body_bounds(v@, start as int, Seq::<char>::empty());
            }
            return Some((acc, i + 1));
        }
        if c != '\\' && (c as u32) >= 0x20 {
            acc.push(c);
            i = i + 1;
        } else {
            return None;
        }
    }
}

/// The author field's key in an inbound record.
pub open spec fn key_user() -> Seq<char> {
    "UserId"@
}

/// The room field's key in a wire record.
pub open spec fn key_room() -> Seq<char> {
    "ChatroomName"@
}

/// The content field's key in an inbound record.
pub open spec fn key_content() -> Seq<char> {
    "Content"@
}

/// The timestamp field's key in an inbound record.
pub open spec fn key_timestamp() -> Seq<char> {
    "Timestamp"@
}

/// One `"key" : "value"` member, preceded by optional whitespace: yields the
/// key, the value and the position after the value's closing quote.
pub open spec fn parse_member(s: Seq<char>, i: int) -> Option<(Seq<char>, Seq<char>, int)> {
    let k = skip_ws(s, i);
    if k < s.len() && s[k] == '"' {
        match parse_plain_string_body(s, k + 1, Seq::<char>::empty()) {
            Some((key, j)) => {
                let c = skip_ws(s, j);
                if c < s.len() && s[c] == ':' {
                    let w = skip_ws(s, c + 1);
                    if w < s.len() && s[w] == '"' {
                        match parse_string_body(s, w + 1, Seq::<char>::empty()) {
                            Some((val, e)) => Some((key, val, e)),
                            None => None,
                        }
                    } else {
                        None
                    }
                } else {
                    None
                }
            },
            None => None,
        }
    } else {
        None
    }
}

fn parse_member_exec(v: &Vec<char>, start: usize) -> (r: Option<(String, String, usize)>)
    requires
        start <= v@.len(),
    ensures
        match r {
            Some((key, val, j)) => {
                &&& parse_member(v@, start as int) == Some((key@, val@, j as int))
                &&& start < j <= v@.len()
            },
            None => parse_member(v@, start as int) is None,
        },
{
    let k = skip_ws_exec(v, start);
    if !(k < v.len()) {
        return None;
    }
    if v[k] != '"' {
        return None;
    }
    match parse_plain_string_body_exec(v, k + 1) {
        Some((key, j)) => {
            let c = skip_ws_exec(v, j);
            if !(c < v.len()) {
                return None;
            }
            if v[c] != ':' {
                return None;
            }
            let w = skip_ws_exec(v, c + 1);
            if !(w < v.len()) {
                return None;
            }
            if v[w] != '"' {
                return None;
            }
            match parse_string_body_exec(v, w + 1) {
                Some((val, e)) => Some((key, val, e)),
                None => None,
            }
        },
        None => None,
    }
}

/// The raw text fields of one parsed inbound record.
#[verifier::ext_equal]
pub ghost struct RawRecord {
    pub user: Seq<char>,
    pub room: Seq<char>,
    pub content: Seq<char>,
    pub timestamp: Seq<char>,
}

/// The value stored under `name` among four key/value pairs, first match
/// winning.
pub open spec fn lookup4(
    k1: Seq<char>,
    v1: Seq<char>,
    k2: Seq<char>,
    v2: Seq<char>,
    k3: Seq<char>,
    v3: Seq<char>,
    k4: Seq<char>,
    v4: Seq<char>,
    name: Seq<char>,
) -> Option<Seq<char>> {
    if k1 == name {
        Some(v1)
    } else if k2 == name {
        Some(v2)
    } else if k3 == name {
        Some(v3)
    } else if k4 == name {
        Some(v4)
    } else {
        None
    }
}

/// Distributes four parsed members over the four expected field keys. Four
/// members can cover the four keys only by holding each exactly once, so a
/// record with a repeated or unknown key is rejected.
pub open spec fn assemble_record(
    k1: Seq<char>,
    v1: Seq<char>,
    k2: Seq<char>,
    v2: Seq<char>,
    k3: Seq<char>,
    v3: Seq<char>,
    k4: Seq<char>,
    v4: Seq<char>,
) -> Option<RawRecord> {
    match (
        lookup4(k1, v1, k2, v2, k3, v3, k4, v4, key_user()),
        lookup4(k1, v1, k2, v2, k3, v3, k4, v4, key_room()),
        lookup4(k1, v1, k2, v2, k3, v3, k4, v4, key_content()),
        lookup4(k1, v1, k2, v2, k3, v3, k4, v4, key_timestamp()),
    ) {
        (Some(u), Some(r), Some(c), Some(t)) => Some(
            RawRecord { user: u, room: r, content: c, timestamp: t },
        ),
        _ => None,
    }
}

/// A whole inbound record: an object of exactly four members, the expected
/// keys in any order, with nothing but whitespace around it.
pub open spec fn parse_record(s: Seq<char>) -> Option<RawRecord> {
    let b = skip_ws(s, 0);
    if b < s.len() && s[b] == '{' {
        match parse_member(s, b + 1) {
            Some((k1, v1, i1)) => {
                let c1 = skip_ws(s, i1);
                if c1 < s.len() && s[c1] == ',' {
                    match parse_member(s, c1 + 1) {
                        Some((k2, v2, i2)) => {
                            let c2 = skip_ws(s, i2);
                            if c2 < s.len() && s[c2] == ',' {
                                match parse_member(s, c2 + 1) {
                                    Some((k3, v3, i3)) => {
                                        let c3 = skip_ws(s, i3);
                                        if c3 < s.len() && s[c3] == ',' {
                                            match parse_member(s, c3 + 1) {
                                                Some((k4, v4, i4)) => {
                                                    let e = skip_ws(s, i4);
                                                    if e < s.len() && s[e] == '}' && skip_ws(
                                                        s,
                                                        e + 1,
                                                    ) == s.len() {
                                                        assemble_record(
                                                            k1,
                                                            v1,
                                                            k2,
                                                            v2,
                                                            k3,
                                                            v3,
                                                            k4,
                                                            v4,
                                                        )
                                                    } else {
                                                        None
                                                    }
                                                },
                                                None => None,
                                            }
                                        } else {
                                            None
                                        }
                                    },
                                    None => None,
                                }
                            } else {
                                None
                            }
                        },
                        None => None,
                    }
                } else {
                    None
                }
            },
            None => None,
        }
    } else {
        None
    }
}

/// The UTC instant, in non-leap milliseconds since the epoch, that an
/// RFC 3339 date-and-time text denotes, if it denotes one: the result
/// depends on the text alone.
pub uninterp spec fn rfc3339_instant(s: Seq<char>) -> Option<i64>;

/// Relies on chrono's `DateTime::parse_from_rfc3339` and
/// `timestamp_millis`: parses an RFC 3339 date-and-time text and counts its
/// non-leap milliseconds since 1970-01-01T00:00:00Z; both depend on the text
/// alone.
#[verifier::external_body]
fn parse_rfc3339_millis(s: &str) -> (r: Option<i64>)
    ensures
        r == rfc3339_instant(s@),
{
    match chrono::DateTime::parse_from_rfc3339(s) {
        Ok(dt) => Some(dt.timestamp_millis()),
        Err(_) => None,
    }
}

/// The message an inbound frame decodes to, if it is well formed: the parsed
/// record's text fields, with the timestamp field read as an RFC 3339
/// instant.
pub open spec fn spec_decode(s: Seq<char>) -> Option<MsgModel> {
    match parse_record(s) {
        None => None,
        Some(raw) => match rfc3339_instant(raw.timestamp) {
            None => None,
            Some(ts) => Some(
                MsgModel {
                    user: raw.user,
                    room: raw.room,
                    content: raw.content,
                    timestamp: ts as int,
                },
            ),
        },
    }
}

fn lookup4_exec(
    k1: &String,
    v1: &String,
    k2: &String,
    v2: &String,
    k3: &String,
    v3: &String,
    k4: &String,
    v4: &String,
    name: &String,
) -> (r: Option<String>)
    ensures
        match lookup4(k1@, v1@, k2@, v2@, k3@, v3@, k4@, v4@, name@) {
            Some(val) => r matches Some(x) && x@ == val,
            None => r is None,
        },
{
    if *k1 == *name {
        Some(v1.clone())
    } else if *k2 == *name {
        Some(v2.clone())
    } else if *k3 == *name {
        Some(v3.clone())
    } else if *k4 == *name {
        Some(v4.clone())
    } else {
        None
    }
}

/// Decodes one inbound text frame to a message record. Exactly the frames of
/// the wire grammar decode; a frame whose timestamp is no RFC 3339 instant,
/// or whose shape is otherwise off, is rejected, and the reader path drops
/// it.
#[verifier::rlimit(50)]
pub fn decode_room_message(frame: &str) -> (r: Option<RoomMessage>)
    ensures
        match spec_decode(frame@) {
            None => r is None,
            Some(m) => r matches Some(x) && x@ == m,
        },
{
    let v = str_to_chars(frame);
    let b = skip_ws_exec(&v, 0);
    if !(b < v.len()) {
        return None;
    }
    if v[b] != '{' {
        return None;
    }
    let m1 = parse_member_exec(&v, b + 1);
    match m1 {
        Some((k1, v1, i1)) => {
            let c1 = skip_ws_exec(&v, i1);
            if !(c1 < v.len()) {
                return None;
            }
            if v[c1] != ',' {
                return None;
            }
            let m2 = parse_member_exec(&v, c1 + 1);
            match m2 {
                Some((k2, v2, i2)) => {
                    let c2 = skip_ws_exec(&v, i2);
                    if !(c2 < v.len()) {
                        return None;
                    }
                    if v[c2] != ',' {
                        return None;
                    }
                    let m3 = parse_member_exec(&v, c2 + 1);
                    match m3 {
                        Some((k3, v3, i3)) => {
                            let c3 = skip_ws_exec(&v, i3);
                            if !(c3 < v.len()) {
                                return None;
                            }
                            if v[c3] != ',' {
                                return None;
                            }
                            let m4 = parse_member_exec(&v, c3 + 1);
                            match m4 {
                                Some((k4, v4, i4)) => {
                                    let e = skip_ws_exec(&v, i4);
                                    if !(e < v.len()) {
                                        return None;
                                    }
                                    if v[e] != '}' {
                                        return None;
                                    }
                                    let t = skip_ws_exec(&v, e + 1);
                                    if t != v.len() {
                                        return None;
                                    }
                                    finish_record(&k1, &v1, &k2, &v2, &k3, &v3, &k4, &v4)
                                },
                                None => None,
                            }
                        },
                        None => None,
                    }
                },
                None => None,
            }
        },
        None => None,
    }
}

/// Distributes four parsed members over the expected keys and reads the
/// timestamp field, yielding the decoded message.
fn finish_record(
    k1: &String,
    v1: &String,
    k2: &String,
    v2: &String,
    k3: &String,
    v3: &String,
    k4: &String,
    v4: &String,
) -> (r: Option<RoomMessage>)
    ensures
        ({
            let res = match assemble_record(k1@, v1@, k2@, v2@, k3@, v3@, k4@, v4@) {
                None => None,
                Some(raw) => match rfc3339_instant(raw.timestamp) {
                    None => None,
                    Some(ts) => Some(
                        MsgModel {
                            user: raw.user,
                            room: raw.room,
                            content: raw.content,
                            timestamp: ts as int,
                        },
                    ),
                },
            };
            match res {
                None => r is None,
                Some(m) => r matches Some(x) && x@ == m,
            }
        }),
{
    let name_user = String::from_str("UserId");
    let name_room = String::from_str("ChatroomName");
    let name_content = String::from_str("Content");
    let name_timestamp = String::from_str("Timestamp");
    let fu = lookup4_exec(k1, v1, k2, v2, k3, v3, k4, v4, &name_user);
    let fr = lookup4_exec(k1, v1, k2, v2, k3, v3, k4, v4, &name_room);
    let fc = lookup4_exec(k1, v1, k2, v2, k3, v3, k4, v4, &name_content);
    let ft = lookup4_exec(k1, v1, k2, v2, k3, v3, k4, v4, &name_timestamp);
    match (fu, fr, fc, ft) {
        (Some(user), Some(room), Some(content), Some(tstext)) => {
            match parse_rfc3339_millis(tstext.as_str()) {
                Some(ts) => Some(
                    RoomMessage { user, room, message: content, timestamp: ts },
                ),
                None => None,
            }
        },
        _ => None,
    }
}

/// One hexadecimal digit, lower case.
pub open spec fn hex_digit(v: u32) -> char {
    if v == 0 {
        '0'
    } else if v == 1 {
        '1'
    } else if v == 2 {
        '2'
    } else if v == 3 {
        '3'
    } else if v == 4 {
        '4'
    } else if v == 5 {
        '5'
    } else if v == 6 {
        '6'
    } else if v == 7 {
        '7'
    } else if v == 8 {
        '8'
    } else if v == 9 {
        '9'
    } else if v == 10 {
        'a'
    } else if v == 11 {
        'b'
    } else if v == 12 {
        'c'
    } else if v == 13 {
        'd'
    } else if v == 14 {
        'e'
    } else {
        'f'
    }
}

/// The escape of one character in an encoded string field: quote, backslash
/// and control characters are escaped, everything else stands as itself.
pub open spec fn esc_char(c: char) -> Seq<char> {
    if c == '"' {
        seq!['\\', '"']
    } else if c == '\\' {
        seq!['\\', '\\']
    } else if c == '\u{8}' {
        seq!['\\', 'b']
    } else if c == '\u{c}' {
        seq!['\\', 'f']
    } else if c == '\n' {
        seq!['\\', 'n']
    } else if c == '\r' {
        seq!['\\', 'r']
    } else if c == '\t' {
        seq!['\\', 't']
    } else if (c as u32) < 0x20 {
        seq!['\\', 'u', '0', '0', hex_digit((c as u32) / 16), hex_digit((c as u32) % 16)]
    } else {
        seq![c]
    }
}

/// A whole string field, escaped character by character.
pub open spec fn spec_escape(s: Seq<char>) -> Seq<char>
    decreases s.len(),
{
    if s.len() == 0 {
        Seq::<char>::empty()
    } else {
        esc_char(s[0]) + spec_escape(s.drop_first())
    }
}

/// The text an outbound record encodes to: its three fields, escaped, in the
/// fixed key order the writer path emits.
pub open spec fn spec_encode_chat(m: OutModel) -> Seq<char> {
    "{\"User\":\""@ + spec_escape(m.user) + "\",\"ChatroomName\":\""@ + spec_escape(m.room)
        + "\",\"Message\":\""@ + spec_escape(m.message) + "\"}"@
}

/// Appends the escaped field text to the output.
fn push_escaped(out: &mut String, s: &String)
    ensures
        final(out)@ == old(out)@ + spec_escape(s@),
{
    let ghost out0 = out@;
    let v = str_to_chars(s.as_str());
    let mut i: usize = 0;
    proof {
        assert(v@.skip(0) =~= v@);
    }
    while i < v.len()
        invariant
            i <= v@.len(),
            v@ == s@,
            out0 + spec_escape(v@) == out@ + spec_escape(v@.skip(i as int)),
        decreases v@.len() - i,
    {
        let ghost rem0 = v@.skip(i as int);
        proof {
            assert(rem0[0] == v@[i as int]);
            assert(rem0.drop_first() =~= v@.skip(i as int + 1));
        }
        let c = v[i];
        if c == '"' {
            out.append("\\\"");
            proof {
                reveal_strlit("\\\"");
                assert("\\\""@ =~= esc_char(c));
            }
        } else if c == '\\' {
            out.append("\\\\");
            proof {
                reveal_strlit("\\\\");
                assert("\\\\"@ =~= esc_char(c));
            }
        } else if c == '\u{8}' {
            out.append("\\b");
            proof {
                reveal_strlit("\\b");
                assert("\\b"@ =~= esc_char(c));
            }
        } else if c == '\u{c}' {
            out.append("\\f");
            proof {
                reveal_strlit("\\f");
                assert("\\f"@ =~= esc_char(c));
            }
        } else if c == '\n' {
            out.append("\\n");
            proof {
                reveal_strlit("\\n");
                assert("\\n"@ =~= esc_char(c));
            }
        } else if c == '\r' {
            out.append("\\r");
            proof {
                reveal_strlit("\\r");
                assert("\\r"@ =~= esc_char(c));
            }
        } else if c == '\t' {
            out.append("\\t");
            proof {
                reveal_strlit("\\t");
                assert("\\t"@ =~= esc_char(c));
            }
        } else {
            let u = c as u32;
            if u < 0x20 {
                out.append("\\u00");
                let hi: char = if u >= 16 {
                    '1'
                } else {
                    '0'
                };
                out.push(hi);
                let lo = u % 16;
                let lo_c: char = if lo == 0 {
                    '0'
                } else if lo == 1 {
                    '1'
                } else if lo == 2 {
                    '2'
                } else if lo == 3 {
                    '3'
                } else if lo == 4 {
                    '4'
                } else if lo == 5 {
                    '5'
                } else if lo == 6 {
                    '6'
                } else if lo == 7 {
                    '7'
                } else if lo == 8 {
                    '8'
                } else if lo == 9 {
                    '9'
                } else if lo == 10 {
                    'a'
                } else if lo == 11 {
                    'b'
                } else if lo == 12 {
                    'c'
                } else if lo == 13 {
                    'd'
                } else if lo == 14 {
                    'e'
                } else {
                    'f'
                };
                out.push(lo_c);
                proof {
                    reveal_strlit("\\u00");
                    assert(hi == hex_digit(u / 16));
                    assert(lo_c == hex_digit(u % 16));
                    assert("\\u00"@ + seq![hi] + seq![lo_c] =~= esc_char(c));
                }
            } else {
                out.push(c);
                proof {
                    assert(seq![c] =~= esc_char(c));
                }
            }
        }
        i = i + 1;
        proof {
            assert(out0 + spec_escape(v@) =~= out@ + spec_escape(v@.skip(i as int)));
        }
    }
    proof {
        assert(v@.skip(v@.len() as int) =~= Seq::<char>::empty());
        assert(final(out)@ =~= old(out)@ + spec_escape(s@));
    }
}

/// Serializes an outbound record to its wire text: the three fields under
/// the keys `User`, `ChatroomName` and `Message`, escaped.
pub fn encode_chat_message(m: &ChatMessage) -> (r: String)
    ensures
        r@ == spec_encode_chat(m@),
{
    let mut out = String::new();
    out.append("{\"User\":\"");
    push_escaped(&mut out, &m.user);
    out.append("\",\"ChatroomName\":\"");
    push_escaped(&mut out, &m.room);
    out.append("\",\"Message\":\"");
    push_escaped(&mut out, &m.message);
    out.append("\"}");
    proof {
        assert(out@ =~= spec_encode_chat(m@));
    }
    out
}


proof fn lemma_hex_val_of_digit(d: u32)
    requires
        d < 16,
    ensures
        hex_val(hex_digit(d)) == Some(d),
{
}

/// Escaping round trip: a string field escaped by `spec_escape` and closed
/// with a quote is read back by the string-body parser as exactly the
/// original characters, whatever precedes and follows it. This ties the
/// writer path's field encoding to the reader path's grammar.
#[verifier::rlimit(80)]
pub proof fn lemma_escape_round_trip(
    prefix: Seq<char>,
    s: Seq<char>,
    suffix: Seq<char>,
    acc: Seq<char>,
)
    ensures
        parse_string_body(
            prefix + spec_escape(s) + seq!['"'] + suffix,
            prefix.len() as int,
            acc,
        ) == Some::<(Seq<char>, int)>(
            (acc + s, prefix.len() as int + spec_escape(s).len() as int + 1),
        ),
    decreases s.len(),
{
    let u = prefix + spec_escape(s) + seq!['"'] + suffix;
    let i = prefix.len() as int;
    if s.len() == 0 {
        assert(spec_escape(s) == Seq::<char>::empty());
        assert(u[i] == '"');
        assert(acc + s =~= acc);
    } else {
        let c = s[0];
        let s2 = s.drop_first();
        assert(spec_escape(s) == esc_char(c) + spec_escape(s2));
        let e = esc_char(c);
        let prefix2 = prefix + e;
        lemma_escape_round_trip(prefix2, s2, suffix, acc.push(c));
        let u2 = prefix2 + spec_escape(s2) + seq!['"'] + suffix;
        assert(u =~= u2);
        assert(acc.push(c) + s2 =~= acc + s);
        assert(forall|k: int| 0 <= k < e.len() ==> u[i + k] == e[k]);
        if c == '"' || c == '\\' {
            assert(u[i] == '\\' && u[i + 1] == c);
            assert(parse_string_body(u, i, acc) == parse_string_body(u, i + 2, acc.push(c)));
        } else if c == '\u{8}' || c == '\u{c}' || c == '\n' || c == '\r' || c == '\t' {
            assert(u[i] == '\\');
            assert(parse_string_body(u, i, acc) == parse_string_body(u, i + 2, acc.push(c)));
        } else if (c as u32) < 0x20 {
            let cv = c as u32;
            assert(u[i] == '\\' && u[i + 1] == 'u' && u[i + 2] == '0' && u[i + 3] == '0');
            assert(u[i + 4] == hex_digit(cv / 16) && u[i + 5] == hex_digit(cv % 16));
            lemma_hex_val_of_digit(cv / 16);
            lemma_hex_val_of_digit(cv % 16);
            assert(hex_val('0') == Some(0u32));
            let cp = (0 * 0x1000 + 0 * 0x100 + (cv / 16) * 0x10 + cv % 16) as u32;
            assert(cp == cv);
            vstd::utf8::char_u32_cast(c, cv);
            assert((cp as char) == c);
            assert(parse_string_body(u, i, acc) == parse_string_body(u, i + 6, acc.push(c)));
        } else {
            assert(u[i] == c && (c as u32) >= 0x20 && c != '"' && c != '\\');
            assert(parse_string_body(u, i, acc) == parse_string_body(u, i + 1, acc.push(c)));
        }
        assert(parse_string_body(u, i, acc) == parse_string_body(
            u,
            i + e.len() as int,
            acc.push(c),
        ));
        assert(parse_string_body(u, i, acc) == Some::<(Seq<char>, int)>(
            (acc + s, i + e.len() + spec_escape(s2).len() + 1),
        ));
    }
}

} // verus!
