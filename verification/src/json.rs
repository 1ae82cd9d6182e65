//! A JSON value model: its compact text form (as `serde_json::to_string`
//! writes it) and field access (as `serde_json::Value::get` reads it).
//!
//! Parsing is `serde_json`'s work; `parse_json` hands its result over as a
//! `Json`.

use vstd::prelude::*;
use crate::text::{chars_of, push_str, same_str};

verus! {

/// A JSON value. Numbers keep their decimal text; objects keep their entries
/// in order.
#[derive(Debug)]
pub enum Json {
    Null,
    Bool(bool),
    Number(String),
    Str(String),
    Array(Vec<Json>),
    Object(Vec<(String, Json)>),
}

// ---------------------------------------------------------------------------
// Text form

/// The lower-case hexadecimal digit for `0 <= n < 16`.
pub open spec fn hex_digit(n: int) -> char {
    if n < 10 {
        ('0' as int + n) as char
    } else {
        ('a' as int + (n - 10)) as char
    }
}

/// How a string character is written inside JSON quotes: quote, backslash and
/// control characters escaped, everything else as it is.
pub open spec fn escape_char(c: char) -> Seq<char> {
    let n = c as u32;
    if c == '"' {
        seq!['\\', '"']
    } else if c == '\\' {
        seq!['\\', '\\']
    } else if n == 0x08 {
        seq!['\\', 'b']
    } else if n == 0x0C {
        seq!['\\', 'f']
    } else if c == '\n' {
        seq!['\\', 'n']
    } else if c == '\r' {
        seq!['\\', 'r']
    } else if c == '\t' {
        seq!['\\', 't']
    } else if n < 0x20 {
        seq!['\\', 'u', '0', '0', hex_digit((n / 16) as int), hex_digit((n % 16) as int)]
    } else {
        seq![c]
    }
}

/// The characters of `s`, each escaped.
pub open spec fn escaped(s: Seq<char>) -> Seq<char>
    decreases s.len(),
{
    if s.len() == 0 {
        Seq::empty()
    } else {
        escaped(s.drop_last()) + escape_char(s.last())
    }
}

/// `s` as a JSON string literal.
pub open spec fn quoted(s: Seq<char>) -> Seq<char> {
    seq!['"'] + escaped(s) + seq!['"']
}

/// The compact JSON text of `j`.
pub open spec fn json_text(j: Json) -> Seq<char>
    decreases j, 0nat,
{
    match j {
        Json::Null => seq!['n', 'u', 'l', 'l'],
        Json::Bool(b) => if b {
            seq!['t', 'r', 'u', 'e']
        } else {
            seq!['f', 'a', 'l', 's', 'e']
        },
        Json::Number(n) => n@,
        Json::Str(s) => quoted(s@),
        Json::Array(items) => seq!['['] + items_text(items@, 0) + seq![']'],
        Json::Object(entries) => seq!['{'] + entries_text(entries@, 0) + seq!['}'],
    }
}

/// A comma before every element but the first.
pub open spec fn separator(n: nat) -> Seq<char> {
    if n == 0 {
        Seq::empty()
    } else {
        seq![',']
    }
}

/// The texts of `items[n..]`, comma-separated (a comma first when `n > 0`).
pub open spec fn items_text(items: Seq<Json>, n: nat) -> Seq<char>
    decreases items, items.len() - n,
{
    if n >= items.len() {
        Seq::empty()
    } else {
        separator(n) + json_text(items[n as int]) + items_text(items, n + 1)
    }
}

/// The texts of `entries[n..]` as `"key":value`, comma-separated.
pub open spec fn entries_text(entries: Seq<(String, Json)>, n: nat) -> Seq<char>
    decreases entries, entries.len() - n,
{
    if n >= entries.len() {
        Seq::empty()
    } else {
        separator(n) + quoted(entries[n as int].0@) + seq![':'] + json_text(entries[n as int].1)
            + entries_text(entries, n + 1)
    }
}

pub(crate) fn hex(n: u32) -> (res: char)
    requires
        n < 16,
    ensures
        res == hex_digit(n as int),
{
    if n < 10 {
        char_of(48 + n)
    } else {
        char_of(97 + (n - 10))
    }
}

fn char_of(n: u32) -> (res: char)
    requires
        n < 128,
    ensures
        res == n as char,
{
    (n as u8) as char
}

/// Appends `escape_char(c)`.
fn push_escaped_char(out: &mut String, c: char)
    ensures
        final(out)@ == old(out)@ + escape_char(c),
{
    let n = c as u32;
    if c == '"' {
        out.push('\\');
        out.push('"');
    } else if c == '\\' {
        out.push('\\');
        out.push('\\');
    } else if n == 0x08 {
        out.push('\\');
        out.push('b');
    } else if n == 0x0C {
        out.push('\\');
        out.push('f');
    } else if c == '\n' {
        out.push('\\');
        out.push('n');
    } else if c == '\r' {
        out.push('\\');
        out.push('r');
    } else if c == '\t' {
        out.push('\\');
        out.push('t');
    } else if n < 0x20 {
        out.push('\\');
        out.push('u');
        out.push('0');
        out.push('0');
        out.push(hex(n / 16));
        out.push(hex(n % 16));
    } else {
        out.push(c);
    }
    assert(final(out)@ =~= old(out)@ + escape_char(c));
}

/// Appends `quoted(s)`.
pub fn push_quoted(out: &mut String, s: &str)
    ensures
        final(out)@ == old(out)@ + quoted(s@),
{
    let cs = chars_of(s);
    out.push('"');
    let ghost start = out@;
    let mut i: usize = 0;
    while i < cs.len()
        invariant
            i <= cs@.len(),
            cs@ == s@,
            start == old(out)@ + seq!['"'],
            out@ == start + escaped(cs@.take(i as int)),
        decreases cs@.len() - i,
    {
        push_escaped_char(out, cs[i]);
        assert(cs@.take(i + 1).drop_last() =~= cs@.take(i as int));
        i = i + 1;
    }
    assert(cs@.take(cs@.len() as int) =~= cs@);
    out.push('"');
    assert(final(out)@ =~= old(out)@ + quoted(s@));
}

/// Appends the compact text of `j`.
pub fn write_json(out: &mut String, j: &Json)
    ensures
        final(out)@ == old(out)@ + json_text(*j),
    decreases j,
{
    match j {
        Json::Null => {
            push_str(out, "null");
            proof { reveal_strlit("null"); }
        },
        Json::Bool(b) => {
            if *b {
                push_str(out, "true");
                proof { reveal_strlit("true"); }
            } else {
                push_str(out, "false");
                proof { reveal_strlit("false"); }
            }
        },
        Json::Number(n) => {
            push_str(out, n.as_str());
        },
        Json::Str(s) => {
            push_quoted(out, s.as_str());
        },
        Json::Array(items) => {
            out.push('[');
            let ghost start = out@;
            let mut i: usize = 0;
            while i < items.len()
                invariant
                    i <= items@.len(),
                    *j == Json::Array(*items),
                    start == old(out)@ + seq!['['],
                    start + items_text(items@, 0) == out@ + items_text(items@, i as nat),
                decreases items@.len() - i,
            {
                if i > 0 {
                    out.push(',');
                }
                proof {
                    assert(decreases_to!(*j => j->Array_0));
                    assert(decreases_to!(*items => items@));
                    assert(decreases_to!(items@ => items@[i as int]));
                    assert(decreases_to!(*j => items@[i as int]));
                }
                write_json(out, &items[i]);
                i = i + 1;
            }
            out.push(']');
            assert(final(out)@ =~= old(out)@ + json_text(*j));
        },
        Json::Object(entries) => {
            out.push('{');
            let ghost start = out@;
            let mut i: usize = 0;
            while i < entries.len()
                invariant
                    i <= entries@.len(),
                    *j == Json::Object(*entries),
                    start == old(out)@ + seq!['{'],
                    start + entries_text(entries@, 0) == out@ + entries_text(entries@, i as nat),
                decreases entries@.len() - i,
            {
                if i > 0 {
                    out.push(',');
                }
                let entry = &entries[i];
                push_quoted(out, entry.0.as_str());
                out.push(':');
                proof {
                    assert(decreases_to!(*j => j->Object_0));
                    assert(decreases_to!(*entries => entries@));
                    assert(decreases_to!(entries@ => entries@[i as int]));
                    assert(decreases_to!(entries@[i as int] => entries@[i as int].1));
                    assert(decreases_to!(*j => entries@[i as int].1));
                }
                write_json(out, &entry.1);
                i = i + 1;
            }
            out.push('}');
            assert(final(out)@ =~= old(out)@ + json_text(*j));
        },
    }
}

// ---------------------------------------------------------------------------
// Field access

/// The index of the first entry of `entries[i..]` whose key is `key`.
pub open spec fn entry_index(entries: Seq<(String, Json)>, key: Seq<char>, i: int) -> Option<int>
    decreases entries.len() - i,
{
    if i < 0 || i >= entries.len() {
        None
    } else if entries[i].0@ == key {
        Some(i)
    } else {
        entry_index(entries, key, i + 1)
    }
}

/// `j[key]` for an object `j` holding `key`; nothing otherwise
/// (`serde_json::Value::get` with a string key).
pub open spec fn field(j: Json, key: Seq<char>) -> Option<Json> {
    match j {
        Json::Object(entries) => match entry_index(entries@, key, 0) {
            Some(k) => Some(entries@[k].1),
            None => None,
        },
        _ => None,
    }
}

/// The text of a string value.
pub open spec fn str_value(j: Option<Json>) -> Option<Seq<char>> {
    match j {
        Some(Json::Str(s)) => Some(s@),
        _ => None,
    }
}

/// The text of `j[key]` when that is a string.
pub open spec fn field_str(j: Json, key: Seq<char>) -> Option<Seq<char>> {
    str_value(field(j, key))
}

/// `a == b`.
pub fn str_eq(a: &str, b: &str) -> (res: bool)
    ensures
        res == (a@ == b@),
{
    let ac = chars_of(a);
    same_str(ac.as_slice(), b)
}

/// `j[key]`, as `field` states it.
pub fn get<'a>(j: &'a Json, key: &str) -> (res: Option<&'a Json>)
    ensures
        match res {
            Some(v) => field(*j, key@) == Some(*v),
            None => field(*j, key@) is None,
        },
{
    match j {
        Json::Object(entries) => {
            let mut i: usize = 0;
            while i < entries.len()
                invariant
                    i <= entries@.len(),
                    *j == Json::Object(*entries),
                    entry_index(entries@, key@, 0) == entry_index(entries@, key@, i as int),
                decreases entries@.len() - i,
            {
                if str_eq(entries[i].0.as_str(), key) {
                    return Some(&entries[i].1);
                }
                i = i + 1;
            }
            None
        },
        _ => None,
    }
}

/// The text of `j[key]` when that is a string.
pub fn get_str<'a>(j: &'a Json, key: &str) -> (res: Option<&'a String>)
    ensures
        match res {
            Some(s) => field_str(*j, key@) == Some(s@),
            None => field_str(*j, key@) is None,
        },
{
    match get(j, key) {
        Some(Json::Str(s)) => Some(s),
        _ => None,
    }
}

/// `j[key]` is the string `want`.
pub fn field_is(j: &Json, key: &str, want: &str) -> (res: bool)
    ensures
        res == (field_str(*j, key@) == Some(want@)),
{
    match get_str(j, key) {
        Some(s) => str_eq(s.as_str(), want),
        None => false,
    }
}

/// An owned copy of `s`.
pub fn owned(s: &str) -> (res: String)
    ensures
        res@ == s@,
{
    s.to_owned()
}

// ---------------------------------------------------------------------------
// Parsing

/// `serde_json::Value`, carried through opaquely on its way to a `Json`.
#[verifier::external_type_specification]
#[verifier::external_body]
pub struct ExJsonValue(serde_json::Value);

/// What `serde_json::from_str::<serde_json::Value>` makes of a text: the
/// value as a `Json`, or the text its error displays (such as
/// `EOF while parsing a value at line 1 column 0`).
pub uninterp spec fn parsed_json(text: Seq<char>) -> Result<Json, Seq<char>>;

/// Parses `text` with `serde_json::from_str` into a `serde_json::Value` and
/// hands it over as a `Json`, or hands over the error's displayed text. The
/// contract claims only that the result is a function of the text; what the
/// parser accepts, and its error texts, are not restated here.
#[verifier::external_body]
pub(crate) fn parse_json(text: &str) -> (res: Result<Json, String>)
    ensures
        match (res, parsed_json(text@)) {
            (Ok(v), Ok(w)) => v == w,
            (Err(m), Err(n)) => m@ == n,
            _ => false,
        },
{
    match serde_json::from_str::<serde_json::Value>(text) {
        Ok(value) => Ok(from_value(value)),
        Err(err) => Err(err.to_string()),
    }
}

/// Moves a `serde_json::Value` into a `Json`, one variant for one variant;
/// a number keeps the text that `serde_json::Number`'s `Display` writes.
#[verifier::external_body]
fn from_value(value: serde_json::Value) -> Json {
    match value {
        serde_json::Value::Null => Json::Null,
        serde_json::Value::Bool(b) => Json::Bool(b),
        serde_json::Value::Number(n) => Json::Number(n.to_string()),
        serde_json::Value::String(s) => Json::Str(s),
        serde_json::Value::Array(items) => Json::Array(items.into_iter().map(from_value).collect()),
        serde_json::Value::Object(map) => Json::Object(
            map.into_iter().map(|(k, v)| (k, from_value(v))).collect(),
        ),
    }
}


// ---------------------------------------------------------------------------
// Reading string literals back

/// The value of a hexadecimal digit (either case), as JSON reads it.
pub open spec fn hex_value(c: char) -> Option<int> {
    if '0' <= c && c <= '9' {
        Some(c as int - '0' as int)
    } else if 'a' <= c && c <= 'f' {
        Some(c as int - 'a' as int + 10)
    } else if 'A' <= c && c <= 'F' {
        Some(c as int - 'A' as int + 10)
    } else {
        None
    }
}

/// The character a one-letter JSON escape (`\"`, `\\`, `\/`, `\b`, `\f`,
/// `\n`, `\r`, `\t`) stands for.
pub open spec fn short_escape(e: char) -> Option<char> {
    if e == '"' {
        Some('"')
    } else if e == '\\' {
        Some('\\')
    } else if e == '/' {
        Some('/')
    } else if e == 'b' {
        Some(8int as char)
    } else if e == 'f' {
        Some(12int as char)
    } else if e == 'n' {
        Some('\n')
    } else if e == 'r' {
        Some('\r')
    } else if e == 't' {
        Some('\t')
    } else {
        None
    }
}

/// The value of the four hex digits `t[i..i + 4]`, if they are all digits.
pub open spec fn hex4(t: Seq<char>, i: int) -> Option<int> {
    match (hex_value(t[i]), hex_value(t[i + 1]), hex_value(t[i + 2]), hex_value(t[i + 3])) {
        (Some(a), Some(b), Some(c), Some(d)) => Some(((a * 16 + b) * 16 + c) * 16 + d),
        _ => None,
    }
}

/// What a JSON reader makes of the characters between the quotes of a
/// string literal (RFC 8259, section 7): escapes decoded, and `None` where a
/// quote, a control character or a bad escape stands raw. `\u` escapes of
/// surrogates are read as unreadable here.
pub open spec fn json_unescape(t: Seq<char>) -> Option<Seq<char>>
    decreases t.len(),
{
    if t.len() == 0 {
        Some(Seq::empty())
    } else if t[0] == '\\' {
        if t.len() < 2 {
            None
        } else {
            match short_escape(t[1]) {
                Some(c) => match json_unescape(t.skip(2)) {
                    Some(r) => Some(seq![c] + r),
                    None => None,
                },
                None => if t[1] == 'u' && t.len() >= 6 {
                    match hex4(t, 2) {
                        Some(code) => if code < 0xD800 || 0xE000 <= code {
                            match json_unescape(t.skip(6)) {
                                Some(r) => Some(seq![code as char] + r),
                                None => None,
                            }
                        } else {
                            None
                        },
                        None => None,
                    }
                } else {
                    None
                },
            }
        }
    } else if t[0] == '"' || (t[0] as u32) < 0x20 {
        None
    } else {
        match json_unescape(t.skip(1)) {
            Some(r) => Some(seq![t[0]] + r),
            None => None,
        }
    }
}

/// What a JSON reader makes of a string literal, quotes included.
pub open spec fn json_string_value(q: Seq<char>) -> Option<Seq<char>> {
    if q.len() >= 2 && q[0] == '"' && q.last() == '"' {
        json_unescape(q.subrange(1, q.len() - 1))
    } else {
        None
    }
}

proof fn lemma_unescape_concat(x: Seq<char>, y: Seq<char>)
    requires
        json_unescape(x) is Some,
    ensures
        json_unescape(x + y) == match json_unescape(y) {
            Some(b) => Some(json_unescape(x)->0 + b),
            None => None::<Seq<char>>,
        },
    decreases x.len(),
{
    if x.len() == 0 {
        assert(x + y =~= y);
        assert(json_unescape(x)->0 =~= Seq::<char>::empty());
        match json_unescape(y) {
            Some(b) => assert(json_unescape(x)->0 + b =~= b),
            None => {},
        }
    } else {
        let xy = x + y;
        assert(xy[0] == x[0]);
        if x[0] == '\\' {
            assert(xy[1] == x[1]);
            if short_escape(x[1]) is Some {
                assert(xy.skip(2) =~= x.skip(2) + y);
                lemma_unescape_concat(x.skip(2), y);
            } else {
                assert(xy[2] == x[2] && xy[3] == x[3] && xy[4] == x[4] && xy[5] == x[5]);
                assert(hex4(xy, 2) == hex4(x, 2));
                assert(xy.skip(6) =~= x.skip(6) + y);
                lemma_unescape_concat(x.skip(6), y);
            }
        } else {
            assert(xy.skip(1) =~= x.skip(1) + y);
            lemma_unescape_concat(x.skip(1), y);
        }
        match json_unescape(y) {
            Some(b) => {
                assert(json_unescape(xy) is Some);
                assert(json_unescape(xy)->0 =~= json_unescape(x)->0 + b);
            },
            None => {},
        }
    }
}

proof fn lemma_hex_value_digit(d: int)
    requires
        0 <= d < 16,
    ensures
        hex_value(hex_digit(d)) == Some(d),
{
}

proof fn lemma_unescape_char(c: char)
    ensures
        json_unescape(escape_char(c)) == Some(seq![c]),
{
    let e = escape_char(c);
    let n = c as u32;
    assert(seq![c] + Seq::<char>::empty() =~= seq![c]);
    if c == '"' || c == '\\' || n == 0x08 || n == 0x0C || c == '\n' || c == '\r' || c == '\t' {
        assert(e.len() == 2 && e[0] == '\\');
        assert(e.skip(2) =~= Seq::<char>::empty());
        assert(json_unescape(e.skip(2)) == Some(Seq::<char>::empty()));
        if n == 0x08 {
            assert(e[1] == 'b');
            assert((8int as char) == c);
        } else if n == 0x0C {
            assert(e[1] == 'f');
            assert((12int as char) == c);
        }
        assert(short_escape(e[1]) == Some(c));
        assert(json_unescape(e) == Some(seq![c]));
    } else if n < 0x20 {
        lemma_hex_value_digit((n / 16) as int);
        lemma_hex_value_digit((n % 16) as int);
        assert(hex_value('0') == Some(0int));
        assert(hex4(e, 2) == Some(n as int));
        assert((n as int) as char == c);
        assert(e.skip(6) =~= Seq::<char>::empty());
        assert(json_unescape(e.skip(6)) == Some(Seq::<char>::empty()));
        assert(json_unescape(e) == Some(seq![c]));
    } else {
        assert(e.skip(1) =~= Seq::<char>::empty());
        assert(json_unescape(e.skip(1)) == Some(Seq::<char>::empty()));
        assert(json_unescape(e) == Some(seq![c]));
    }
}

/// Every string survives being written as a JSON literal: a JSON reader
/// gives back exactly `s` from `quoted(s)`. So every quote, backslash and
/// control character of `s` is escaped, and nothing else changes.
pub proof fn law_quoted_reads_back(s: Seq<char>)
    ensures
        json_unescape(escaped(s)) == Some(s),
        json_string_value(quoted(s)) == Some(s),
    decreases s.len(),
{
    if s.len() > 0 {
        law_quoted_reads_back(s.drop_last());
        lemma_unescape_char(s.last());
        lemma_unescape_concat(escaped(s.drop_last()), escape_char(s.last()));
        assert(s.drop_last() + seq![s.last()] =~= s);
    } else {
        assert(escaped(s) =~= Seq::<char>::empty());
        assert(s =~= Seq::<char>::empty());
    }
    let q = quoted(s);
    assert(q.subrange(1, q.len() - 1) =~= escaped(s));
}

} // verus!
