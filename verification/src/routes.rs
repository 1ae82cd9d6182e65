//! The HTTP surface's logic: request bodies read, prompts built, models
//! resolved, Bearer keys checked, response bodies and stream chunks written.
//! The server hands these functions plain values and sends what they return.

use vstd::prelude::*;
use crate::agent::{AgentError, AgentStatus, AgentTurn, BridgeDelta, DeltaView, agent_error_text, digits, push_digits};
use crate::config::model_key;
use crate::json::{
    field, field_is, field_str, get, get_str, json_text, owned, parse_json, parsed_json,
    hex, hex_digit, push_quoted, quoted, str_eq, write_json, Json,
};
use crate::models::{keys_of, lookup, ModelMap};
use crate::setup::{gate_after, resolve_in, SetupGate};
use crate::text::{
    ascii_lowercase, chars_of, find, find_from, first_index, index_of, is_whitespace, is_ws, occurs_at,
    lemma_find_from_bounds, lemma_first_index_bounds, lowercase, push_chars, push_str, same_str,
    slice, split_once, split_once_chars, string_of, string_views, strip_prefix,
    strip_prefix_chars, trim, trimmed,
};

verus! {

// ---------------------------------------------------------------------------
// Errors

/// An error response: HTTP status, message and OpenAI-style error type.
#[derive(Debug, Clone)]
pub struct ApiError {
    pub status: u16,
    pub message: String,
    pub kind: String,
}

/// The JSON body of an error response.
pub open spec fn error_body_text(message: Seq<char>, kind: Seq<char>) -> Seq<char> {
    "{\"error\":{\"message\":"@ + quoted(message) + ",\"type\":"@ + quoted(kind) + "}}"@
}

impl ApiError {
    /// The JSON body of this error.
    pub fn body(&self) -> (res: String)
        ensures
            res@ == error_body_text(self.message@, self.kind@),
    {
        let mut out = String::new();
        push_str(&mut out, "{\"error\":{\"message\":");
        push_quoted(&mut out, self.message.as_str());
        push_str(&mut out, ",\"type\":");
        push_quoted(&mut out, self.kind.as_str());
        push_str(&mut out, "}}");
        assert(out@ =~= error_body_text(self.message@, self.kind@));
        out
    }
}

/// The end of the token starting at `i`: the first white space at or after
/// `i`, or the end of `s`.
pub open spec fn token_end(s: Seq<char>, i: int) -> int
    decreases s.len() - i,
{
    if i >= s.len() {
        s.len() as int
    } else if is_whitespace(s[i]) {
        i
    } else {
        token_end(s, i + 1)
    }
}

pub proof fn lemma_token_end_bounds(s: Seq<char>, i: int)
    requires
        0 <= i <= s.len(),
    ensures
        i <= token_end(s, i) <= s.len(),
    decreases s.len() - i,
{
    if i < s.len() && !is_whitespace(s[i]) {
        lemma_token_end_bounds(s, i + 1);
    }
}

/// `s[i..]` with each `Bearer <token>` written as `Bearer [redacted]`: the
/// token (up to white space) is dropped, whatever follows it stays.
pub open spec fn redact_from(s: Seq<char>, i: int) -> Seq<char>
    decreases s.len() - i,
{
    if i < 0 || i > s.len() {
        Seq::empty()
    } else {
        match find_from(s, "Bearer "@, i) {
            None => s.subrange(i, s.len() as int),
            Some(k) => {
                proof {
                    reveal_strlit("Bearer ");
                    lemma_find_from_bounds(s, "Bearer "@, i);
                    lemma_token_end_bounds(s, k + 7);
                }
                s.subrange(i, k) + "Bearer [redacted]"@ + redact_from(s, token_end(s, k + 7))
            },
        }
    }
}

/// Agent error text with every Bearer token removed.
pub open spec fn redacted(s: Seq<char>) -> Seq<char> {
    redact_from(s, 0)
}

proof fn lemma_redact_from_marks(s: Seq<char>, i: int)
    requires
        0 <= i <= s.len(),
    ensures
        forall|j: int| occurs_at(redact_from(s, i), "Bearer "@, j) ==> occurs_at(
            #[trigger] redact_from(s, i),
            "Bearer [redacted]"@,
            j,
        ),
    decreases s.len() - i,
{
    reveal_strlit("Bearer ");
    reveal_strlit("Bearer [redacted]");
    let b = "Bearer "@;
    let br = "Bearer [redacted]"@;
    let r = redact_from(s, i);
    lemma_find_from_bounds(s, b, i);
    match find_from(s, b, i) {
        None => {
            assert(r == s.subrange(i, s.len() as int));
            assert forall|j: int| occurs_at(r, b, j) implies occurs_at(r, br, j) by {
                assert(s.subrange(i + j, i + j + 7) =~= r.subrange(j, j + 7));
                assert(occurs_at(s, b, i + j));
            }
        },
        Some(k) => {
            lemma_token_end_bounds(s, k + 7);
            let t = token_end(s, k + 7);
            lemma_redact_from_marks(s, t);
            let pre = s.subrange(i, k);
            let rest = redact_from(s, t);
            let m = k - i;
            assert(r == pre + br + rest);
            assert forall|j: int| occurs_at(r, b, j) implies occurs_at(r, br, j) by {
                assert(r.subrange(j, j + 7) == b);
                if j + 7 <= m {
                    assert(s.subrange(i + j, i + j + 7) =~= r.subrange(j, j + 7));
                    assert(occurs_at(s, b, i + j));
                } else if j < m {
                    assert(r[m] == br[0]);
                    assert(r[m] == r.subrange(j, j + 7)[m - j]);
                    assert(b[m - j] != 'B');
                } else if j == m {
                    assert(r.subrange(m, m + 17) =~= br);
                } else if j < m + 17 {
                    assert(r[j] == r.subrange(j, j + 7)[0]);
                    assert(r[j] == br[j - m]);
                    assert(br[j - m] != 'B');
                } else {
                    let q = j - m - 17;
                    assert(rest.subrange(q, q + 7) =~= r.subrange(j, j + 7));
                    assert(occurs_at(rest, b, q));
                    assert(occurs_at(rest, br, q));
                    assert(r.subrange(j, j + 17) =~= rest.subrange(q, q + 17));
                }
            }
        },
    }
}

/// No Bearer token survives in agent error text: wherever `Bearer ` occurs
/// in the redacted text, `Bearer [redacted]` stands there.
pub proof fn law_bearer_always_redacted(s: Seq<char>, j: int)
    requires
        occurs_at(redacted(s), "Bearer "@, j),
    ensures
        occurs_at(redacted(s), "Bearer [redacted]"@, j),
{
    lemma_redact_from_marks(s, 0);
}

/// Removes the token after every `Bearer ` in agent error text, so no
/// credential reaches an error response.
pub fn sanitize_agent_error(raw: &str) -> (res: String)
    ensures
        res@ == redacted(raw@),
{
    let cs = chars_of(raw);
    let n = cs.len();
    let p = chars_of("Bearer ");
    proof {
        reveal_strlit("Bearer ");
    }
    let mut out = String::new();
    let mut i: usize = 0;
    loop
        invariant
            i <= cs@.len(),
            cs@ == raw@,
            n == cs@.len(),
            p@ == "Bearer "@,
            p@.len() == 7,
            out@ + redact_from(cs@, i as int) == redacted(raw@),
        decreases cs@.len() - i,
    {
        match find(cs.as_slice(), p.as_slice(), i) {
            None => {
                let rest = slice(cs.as_slice(), i, n);
                push_chars(&mut out, rest.as_slice());
                assert(out@ =~= redacted(raw@));
                return out;
            },
            Some(k) => {
                proof {
                    lemma_find_from_bounds(cs@, p@, i as int);
                }
                let before = slice(cs.as_slice(), i, k);
                let ghost prev = out@;
                push_chars(&mut out, before.as_slice());
                push_str(&mut out, "Bearer [redacted]");
                let mut e = k + 7;
                while e < n && !is_ws(cs[e])
                    invariant
                        k + 7 <= e <= n,
                        n == cs@.len(),
                        token_end(cs@, k + 7) == token_end(cs@, e as int),
                    decreases n - e,
                {
                    e = e + 1;
                }
                assert(out@ + redact_from(cs@, e as int) =~= prev + redact_from(cs@, i as int));
                i = e;
            },
        }
    }
}

/// The 502 answer to a failed agent run: its message, redacted.
pub fn agent_failure(e: &AgentError) -> (res: ApiError)
    ensures
        res.status == 502,
        res.message@ == redacted(agent_error_text(*e)),
        res.kind@ == "server_error"@,
{
    let m = e.message();
    ApiError { status: 502, message: sanitize_agent_error(m.as_str()), kind: owned("server_error") }
}

/// The 401 answer to a request without the bridge key.
pub fn unauthorized() -> (res: ApiError)
    ensures
        res.status == 401,
        res.message@ == "invalid api key"@,
        res.kind@ == "invalid_request_error"@,
{
    ApiError { status: 401, message: owned("invalid api key"), kind: owned("invalid_request_error") }
}

/// The 415 answer to a chat request whose body is not declared as JSON.
pub fn json_required() -> (res: ApiError)
    ensures
        res.status == 415,
        res.message@ == "Expected request with `Content-Type: application/json`"@,
        res.kind@ == "invalid_request_error"@,
{
    ApiError {
        status: 415,
        message: owned("Expected request with `Content-Type: application/json`"),
        kind: owned("invalid_request_error"),
    }
}

// ---------------------------------------------------------------------------
// Authentication

/// A request is authorized when the bridge has a key and the `Authorization`
/// header is `Bearer ` followed by exactly that key.
pub open spec fn authorized(header: Option<Seq<char>>, api_key: Seq<char>) -> bool {
    api_key.len() > 0 && match header {
        Some(h) => strip_prefix(h, "Bearer "@) == Some(api_key),
        None => false,
    }
}

/// Checks the `Authorization` header against the bridge key.
pub fn bearer_authorized(header: Option<&str>, api_key: &str) -> (res: bool)
    ensures
        res == authorized(
            match header {
                Some(h) => Some(h@),
                None => None,
            },
            api_key@,
        ),
{
    if api_key.is_empty() {
        return false;
    }
    match header {
        None => false,
        Some(h) => {
            let hc = chars_of(h);
            match strip_prefix_chars(hc.as_slice(), chars_of("Bearer ").as_slice()) {
                Some(token) => same_str(token.as_slice(), api_key),
                None => false,
            }
        },
    }
}

// ---------------------------------------------------------------------------
// Chat requests

/// One message of a chat request.
#[derive(Debug, Clone)]
pub struct ChatMessage {
    pub role: String,
    pub content: String,
}

/// A chat completions request.
#[derive(Debug, Clone)]
pub struct ChatRequest {
    pub model: String,
    pub messages: Vec<ChatMessage>,
    pub stream: bool,
}

/// Why a request body was refused.
#[derive(Debug, Clone, PartialEq, Eq)]
pub enum RequestError {
    /// The body is not JSON; the text is the parser's error.
    Syntax(String),
    /// The body is JSON of another shape; the text says what is wrong.
    Shape(String),
}

/// `(role, content)` of each message.
pub open spec fn message_views(ms: Seq<ChatMessage>) -> Seq<(Seq<char>, Seq<char>)> {
    ms.map_values(|m: ChatMessage| (m.role@, m.content@))
}

/// The text one element of a content array contributes: a `text` part's
/// string `text`, a bare string, nothing for anything else.
pub open spec fn content_part(p: Json) -> Seq<char> {
    if field_str(p, "type"@) == Some("text"@) {
        match field_str(p, "text"@) {
            Some(t) => t,
            None => Seq::empty(),
        }
    } else {
        match p {
            Json::Str(s) => s@,
            _ => Seq::empty(),
        }
    }
}

/// The texts of content parts, joined.
pub open spec fn content_parts(parts: Seq<Json>) -> Seq<char>
    decreases parts.len(),
{
    if parts.len() == 0 {
        Seq::empty()
    } else {
        content_parts(parts.drop_last()) + content_part(parts.last())
    }
}

/// A message's `content`: a string, or an array of parts flattened to text;
/// any other value is refused, naming it.
pub open spec fn message_content(v: Json) -> Result<Seq<char>, Seq<char>> {
    match v {
        Json::Str(s) => Ok(s@),
        Json::Array(parts) => Ok(content_parts(parts@)),
        _ => Err("message content must be string or content parts array, got "@ + json_text(v)),
    }
}

/// A refusal of a request body: whether it is of the parser's syntax kind
/// (answered 400), and its text.
pub open spec fn refusal_view(e: RequestError) -> (bool, Seq<char>) {
    match e {
        RequestError::Syntax(d) => (true, d@),
        RequestError::Shape(d) => (false, d@),
    }
}

/// A number's text is that of a float: it holds a `.` or an exponent.
pub open spec fn is_float_text(n: Seq<char>) -> bool {
    n.contains('.') || n.contains('e') || n.contains('E')
}

/// How `{:?}` writes an ASCII character inside a string: quote, backslash
/// and control characters escaped, the rest as it is.
pub open spec fn debug_char(c: char) -> Seq<char> {
    let n = c as u32;
    if c == '"' {
        seq!['\\', '"']
    } else if c == '\\' {
        seq!['\\', '\\']
    } else if c == '\n' {
        seq!['\\', 'n']
    } else if c == '\r' {
        seq!['\\', 'r']
    } else if c == '\t' {
        seq!['\\', 't']
    } else if n == 0 {
        seq!['\\', '0']
    } else if n < 0x10 {
        seq!['\\', 'u', '{', hex_digit(n as int), '}']
    } else if n < 0x20 || n == 0x7f {
        seq!['\\', 'u', '{', hex_digit((n / 16) as int), hex_digit((n % 16) as int), '}']
    } else {
        seq![c]
    }
}

/// `s` with each character as `debug_char` writes it.
pub open spec fn debug_escaped(s: Seq<char>) -> Seq<char>
    decreases s.len(),
{
    if s.len() == 0 {
        Seq::empty()
    } else {
        debug_escaped(s.drop_last()) + debug_char(s.last())
    }
}

/// How the JSON parser names a value met where another type was expected.
pub open spec fn unexpected(v: Json) -> Seq<char> {
    match v {
        Json::Null => "null"@,
        Json::Bool(b) => "boolean `"@ + bool_text(b) + "`"@,
        Json::Number(n) => if is_float_text(n@) {
            "floating point `"@ + n@ + "`"@
        } else {
            "integer `"@ + n@ + "`"@
        },
        Json::Str(s) => "string \""@ + debug_escaped(s@) + "\""@,
        Json::Array(_) => "sequence"@,
        Json::Object(_) => "map"@,
    }
}

/// The refusal of a value of the wrong type.
pub open spec fn invalid_type(v: Json, expected: Seq<char>) -> Seq<char> {
    "invalid type: "@ + unexpected(v) + ", expected "@ + expected
}

/// A refusal's text led by the path of the value it concerns (none for the
/// whole body).
pub open spec fn at_path(path: Seq<char>, text: Seq<char>) -> Seq<char> {
    if path.len() == 0 {
        text
    } else {
        path + ": "@ + text
    }
}

/// A shape refusal at `path`.
pub open spec fn refused(path: Seq<char>, text: Seq<char>) -> (bool, Seq<char>) {
    (false, at_path(path, text))
}

/// The path of element `i` of the array at `base`.
pub open spec fn elem_path(base: Seq<char>, i: nat) -> Seq<char> {
    base + "["@ + digits(i) + "]"@
}

/// A message at `path`: an object with a string `role` and a `content`, or a
/// `[role, content]` array. A field of the wrong type is refused before a
/// missing one, `role` before `content`; an array with more elements is of
/// the syntax kind.
pub open spec fn message_at(v: Json, path: Seq<char>) -> Result<(Seq<char>, Seq<char>), (bool, Seq<char>)> {
    match v {
        Json::Object(_) => {
            let role = field(v, "role"@);
            let content = field(v, "content"@);
            if role is Some && !(role->0 is Str) {
                Err(refused(path + ".role"@, invalid_type(role->0, "a string"@)))
            } else if content is Some && message_content(content->0) is Err {
                Err(refused(path + ".content"@, message_content(content->0)->Err_0))
            } else if role is None {
                Err(refused(path, "missing field `role`"@))
            } else if content is None {
                Err(refused(path, "missing field `content`"@))
            } else {
                Ok((role->0->Str_0@, message_content(content->0)->Ok_0))
            }
        },
        Json::Array(items) => {
            let it = items@;
            if it.len() == 0 {
                Err(refused(path, "invalid length 0, expected struct ChatMessage with 2 elements"@))
            } else if !(it[0] is Str) {
                Err(refused(path + "[0]"@, invalid_type(it[0], "a string"@)))
            } else if it.len() == 1 {
                Err(refused(path, "invalid length 1, expected struct ChatMessage with 2 elements"@))
            } else if message_content(it[1]) is Err {
                Err(refused(path + "[1]"@, message_content(it[1])->Err_0))
            } else if it.len() > 2 {
                Err((true, at_path(path, "trailing characters"@)))
            } else {
                Ok((it[0]->Str_0@, message_content(it[1])->Ok_0))
            }
        },
        _ => Err(refused(path, invalid_type(v, "struct ChatMessage"@))),
    }
}

/// The messages of the array at `base`, or the refusal of the first
/// malformed one.
pub open spec fn messages_at(items: Seq<Json>, base: Seq<char>) -> Result<Seq<(Seq<char>, Seq<char>)>, (bool, Seq<char>)>
    decreases items.len(),
{
    if items.len() == 0 {
        Ok(Seq::empty())
    } else {
        match messages_at(items.drop_last(), base) {
            Err(e) => Err(e),
            Ok(ms) => match message_at(items.last(), elem_path(base, (items.len() - 1) as nat)) {
                Ok(x) => Ok(ms.push(x)),
                Err(e) => Err(e),
            },
        }
    }
}

/// A request's `model` at `path`: a string, empty when absent.
pub open spec fn model_value(m: Option<Json>, path: Seq<char>) -> Result<Seq<char>, (bool, Seq<char>)> {
    match m {
        None => Ok(Seq::empty()),
        Some(Json::Str(s)) => Ok(s@),
        Some(x) => Err(refused(path, invalid_type(x, "a string"@))),
    }
}

/// A request's `messages` at `path`: an array of messages.
pub open spec fn messages_value(ms: Json, path: Seq<char>) -> Result<Seq<(Seq<char>, Seq<char>)>, (bool, Seq<char>)> {
    match ms {
        Json::Array(items) => messages_at(items@, path),
        _ => Err(refused(path, invalid_type(ms, "a sequence"@))),
    }
}

/// A request's `stream` at `path`: a boolean, false when absent.
pub open spec fn stream_value(st: Option<Json>, path: Seq<char>) -> Result<bool, (bool, Seq<char>)> {
    match st {
        None => Ok(false),
        Some(Json::Bool(b)) => Ok(b),
        Some(x) => Err(refused(path, invalid_type(x, "a boolean"@))),
    }
}

/// The element at `i`, if there is one.
pub open spec fn element(items: Seq<Json>, i: int) -> Option<Json> {
    if 0 <= i < items.len() {
        Some(items[i])
    } else {
        None
    }
}

/// A chat request: an object with `model`, `messages` (required) and
/// `stream`, other fields ignored, or a `[model, messages, stream]` array.
/// Values of the wrong type are refused in that order, then a missing
/// `messages`; an array with more elements is of the syntax kind.
pub open spec fn request_of(v: Json) -> Result<(Seq<char>, Seq<(Seq<char>, Seq<char>)>, bool), (bool, Seq<char>)> {
    match v {
        Json::Object(_) => match model_value(field(v, "model"@), "model"@) {
            Err(e) => Err(e),
            Ok(model) => match field(v, "messages"@) {
                Some(ms) => match messages_value(ms, "messages"@) {
                    Err(e) => Err(e),
                    Ok(list) => match stream_value(field(v, "stream"@), "stream"@) {
                        Err(e) => Err(e),
                        Ok(stream) => Ok((model, list, stream)),
                    },
                },
                None => match stream_value(field(v, "stream"@), "stream"@) {
                    Err(e) => Err(e),
                    Ok(_) => Err((false, "missing field `messages`"@)),
                },
            },
        },
        Json::Array(items) => match model_value(element(items@, 0), "[0]"@) {
            Err(e) => Err(e),
            Ok(model) => match element(items@, 1) {
                None => Err((false, "invalid length 1, expected struct ChatRequest with 3 elements"@)),
                Some(ms) => match messages_value(ms, "[1]"@) {
                    Err(e) => Err(e),
                    Ok(list) => match stream_value(element(items@, 2), "[2]"@) {
                        Err(e) => Err(e),
                        Ok(stream) => if items@.len() > 3 {
                            Err((true, "trailing characters"@))
                        } else {
                            Ok((model, list, stream))
                        },
                    },
                },
            },
        },
        _ => Err((false, invalid_type(v, "struct ChatRequest"@))),
    }
}

/// The view of a request.
pub open spec fn request_view(r: ChatRequest) -> (Seq<char>, Seq<(Seq<char>, Seq<char>)>, bool) {
    (r.model@, message_views(r.messages@), r.stream)
}

fn content_text(v: &Json) -> (res: Result<String, String>)
    ensures
        match res {
            Ok(s) => message_content(*v) == Ok::<Seq<char>, Seq<char>>(s@),
            Err(m) => message_content(*v) == Err::<Seq<char>, Seq<char>>(m@),
        },
{
    match v {
        Json::Str(s) => Ok(s.clone()),
        Json::Array(parts) => {
            let mut out = String::new();
            let mut i: usize = 0;
            while i < parts.len()
                invariant
                    i <= parts@.len(),
                    out@ == content_parts(parts@.take(i as int)),
                decreases parts@.len() - i,
            {
                let p = &parts[i];
                if field_is(p, "type", "text") {
                    match get_str(p, "text") {
                        Some(t) => push_str(&mut out, t.as_str()),
                        None => {},
                    }
                } else {
                    match p {
                        Json::Str(s) => push_str(&mut out, s.as_str()),
                        _ => {},
                    }
                }
                assert(parts@.take(i + 1).drop_last() =~= parts@.take(i as int));
                i = i + 1;
            }
            assert(parts@.take(parts@.len() as int) =~= parts@);
            Ok(out)
        },
        _ => {
            let mut m = String::new();
            push_str(&mut m, "message content must be string or content parts array, got ");
            write_json(&mut m, v);
            Err(m)
        },
    }
}

fn has_float_mark(cs: &[char]) -> (res: bool)
    ensures
        res == is_float_text(cs@),
{
    let mut i: usize = 0;
    while i < cs.len()
        invariant
            i <= cs@.len(),
            forall|j: int| 0 <= j < i ==> cs@[j] != '.' && cs@[j] != 'e' && cs@[j] != 'E',
        decreases cs@.len() - i,
    {
        let c = cs[i];
        if c == '.' || c == 'e' || c == 'E' {
            assert(cs@[i as int] == c);
            return true;
        }
        i = i + 1;
    }
    false
}

fn push_debug_char(out: &mut String, c: char)
    ensures
        final(out)@ == old(out)@ + debug_char(c),
{
    let n = c as u32;
    if c == '"' {
        push_str(out, "\\\"");
    } else if c == '\\' {
        push_str(out, "\\\\");
    } else if c == '\n' {
        push_str(out, "\\n");
    } else if c == '\r' {
        push_str(out, "\\r");
    } else if c == '\t' {
        push_str(out, "\\t");
    } else if n == 0 {
        push_str(out, "\\0");
    } else if n < 0x10 {
        push_str(out, "\\u{");
        out.push(hex(n));
        out.push('}');
    } else if n < 0x20 || n == 0x7f {
        push_str(out, "\\u{");
        out.push(hex(n / 16));
        out.push(hex(n % 16));
        out.push('}');
    } else {
        out.push(c);
    }
    proof {
        reveal_strlit("\\\"");
        reveal_strlit("\\\\");
        reveal_strlit("\\n");
        reveal_strlit("\\r");
        reveal_strlit("\\t");
        reveal_strlit("\\0");
        reveal_strlit("\\u{");
    }
    assert(final(out)@ =~= old(out)@ + debug_char(c));
}

fn push_debug_escaped(out: &mut String, s: &str)
    ensures
        final(out)@ == old(out)@ + debug_escaped(s@),
{
    let cs = chars_of(s);
    let mut i: usize = 0;
    while i < cs.len()
        invariant
            i <= cs@.len(),
            cs@ == s@,
            out@ == old(out)@ + debug_escaped(cs@.take(i as int)),
        decreases cs@.len() - i,
    {
        let ghost before = out@;
        push_debug_char(out, cs[i]);
        assert(cs@.take(i + 1).drop_last() =~= cs@.take(i as int));
        assert(cs@.take(i + 1).last() == cs@[i as int]);
        i = i + 1;
        assert(out@ =~= old(out)@ + debug_escaped(cs@.take(i as int)));
    }
    assert(cs@.take(cs@.len() as int) =~= cs@);
}

fn push_unexpected(out: &mut String, v: &Json)
    ensures
        final(out)@ == old(out)@ + unexpected(*v),
{
    match v {
        Json::Null => push_str(out, "null"),
        Json::Bool(b) => {
            push_str(out, "boolean `");
            push_bool(out, *b);
            push_str(out, "`");
        },
        Json::Number(n) => {
            let cs = chars_of(n.as_str());
            if has_float_mark(cs.as_slice()) {
                push_str(out, "floating point `");
            } else {
                push_str(out, "integer `");
            }
            push_str(out, n.as_str());
            push_str(out, "`");
        },
        Json::Str(s) => {
            push_str(out, "string \"");
            push_debug_escaped(out, s.as_str());
            push_str(out, "\"");
        },
        Json::Array(_) => push_str(out, "sequence"),
        Json::Object(_) => push_str(out, "map"),
    }
    assert(final(out)@ =~= old(out)@ + unexpected(*v));
}

fn invalid_type_text(v: &Json, expected: &str) -> (res: String)
    ensures
        res@ == invalid_type(*v, expected@),
{
    let mut out = owned("invalid type: ");
    push_unexpected(&mut out, v);
    push_str(&mut out, ", expected ");
    push_str(&mut out, expected);
    assert(out@ =~= invalid_type(*v, expected@));
    out
}

fn refusal(path: &str, text: String) -> (res: RequestError)
    ensures
        refusal_view(res) == refused(path@, text@),
{
    if path.is_empty() {
        RequestError::Shape(text)
    } else {
        let mut m = owned(path);
        push_str(&mut m, ": ");
        push_str(&mut m, text.as_str());
        RequestError::Shape(m)
    }
}

fn joined(a: &str, b: &str) -> (res: String)
    ensures
        res@ == a@ + b@,
{
    let mut m = owned(a);
    push_str(&mut m, b);
    m
}

fn elem_path_text(base: &str, i: usize) -> (res: String)
    ensures
        res@ == elem_path(base@, i as nat),
{
    let mut m = owned(base);
    push_str(&mut m, "[");
    push_digits(&mut m, i as u64);
    push_str(&mut m, "]");
    assert(m@ =~= elem_path(base@, i as nat));
    m
}

fn message_from(v: &Json, path: &str) -> (res: Result<ChatMessage, RequestError>)
    ensures
        match res {
            Ok(m) => message_at(*v, path@) == Ok::<(Seq<char>, Seq<char>), (bool, Seq<char>)>((m.role@, m.content@)),
            Err(e) => message_at(*v, path@) == Err::<(Seq<char>, Seq<char>), (bool, Seq<char>)>(refusal_view(e)),
        },
{
    match v {
        Json::Object(_) => {
            let role = get(v, "role");
            let content = get(v, "content");
            match role {
                Some(Json::Str(_)) => {},
                Some(r) => {
                    return Err(refusal(joined(path, ".role").as_str(), invalid_type_text(r, "a string")));
                },
                None => {},
            }
            let text = match content {
                Some(c) => match content_text(c) {
                    Ok(t) => Some(t),
                    Err(m) => {
                        return Err(refusal(joined(path, ".content").as_str(), m));
                    },
                },
                None => None,
            };
            match role {
                Some(Json::Str(r)) => match text {
                    Some(t) => Ok(ChatMessage { role: r.clone(), content: t }),
                    None => Err(refusal(path, owned("missing field `content`"))),
                },
                _ => Err(refusal(path, owned("missing field `role`"))),
            }
        },
        Json::Array(items) => {
            if items.len() == 0 {
                return Err(refusal(path, owned("invalid length 0, expected struct ChatMessage with 2 elements")));
            }
            let role = match &items[0] {
                Json::Str(r) => r.clone(),
                other => {
                    return Err(refusal(joined(path, "[0]").as_str(), invalid_type_text(other, "a string")));
                },
            };
            if items.len() == 1 {
                return Err(refusal(path, owned("invalid length 1, expected struct ChatMessage with 2 elements")));
            }
            let text = match content_text(&items[1]) {
                Ok(t) => t,
                Err(m) => {
                    return Err(refusal(joined(path, "[1]").as_str(), m));
                },
            };
            if items.len() > 2 {
                let mut m = owned("trailing characters");
                if !path.is_empty() {
                    m = owned(path);
                    push_str(&mut m, ": trailing characters");
                }
                proof {
                    reveal_strlit(": trailing characters");
                    reveal_strlit(": ");
                    reveal_strlit("trailing characters");
                }
                assert(m@ =~= at_path(path@, "trailing characters"@));
                return Err(RequestError::Syntax(m));
            }
            Ok(ChatMessage { role, content: text })
        },
        _ => Err(refusal(path, invalid_type_text(v, "struct ChatMessage"))),
    }
}

/// The first refusal in a prefix is the refusal of the whole list.
proof fn lemma_messages_at_prefix(items: Seq<Json>, base: Seq<char>, n: int)
    requires
        0 <= n <= items.len(),
        messages_at(items.take(n), base) is Err,
    ensures
        messages_at(items, base) == messages_at(items.take(n), base),
    decreases items.len() - n,
{
    if n < items.len() {
        assert(items.take(n + 1).drop_last() =~= items.take(n));
        lemma_messages_at_prefix(items, base, n + 1);
    } else {
        assert(items.take(n) =~= items);
    }
}

fn messages_from(items: &Vec<Json>, base: &str) -> (res: Result<Vec<ChatMessage>, RequestError>)
    ensures
        match res {
            Ok(ms) => messages_at(items@, base@) == Ok::<Seq<(Seq<char>, Seq<char>)>, (bool, Seq<char>)>(message_views(ms@)),
            Err(e) => messages_at(items@, base@) == Err::<Seq<(Seq<char>, Seq<char>)>, (bool, Seq<char>)>(refusal_view(e)),
        },
{
    let mut messages: Vec<ChatMessage> = Vec::new();
    let mut i: usize = 0;
    assert(items@.take(0) =~= Seq::<Json>::empty());
    assert(message_views(messages@) =~= Seq::<(Seq<char>, Seq<char>)>::empty());
    while i < items.len()
        invariant
            i <= items@.len(),
            messages_at(items@.take(i as int), base@) == Ok::<Seq<(Seq<char>, Seq<char>)>, (bool, Seq<char>)>(message_views(messages@)),
        decreases items@.len() - i,
    {
        assert(items@.take(i + 1).drop_last() =~= items@.take(i as int));
        assert(items@.take(i + 1).last() == items@[i as int]);
        let path = elem_path_text(base, i);
        match message_from(&items[i], path.as_str()) {
            Ok(msg) => {
                let ghost prev = messages@;
                messages.push(msg);
                assert(message_views(messages@) =~= message_views(prev).push((msg.role@, msg.content@)));
            },
            Err(e) => {
                proof {
                    lemma_messages_at_prefix(items@, base@, i + 1);
                }
                return Err(e);
            },
        }
        i = i + 1;
    }
    assert(items@.take(items@.len() as int) =~= items@);
    Ok(messages)
}

/// The view of an optional borrowed value.
pub open spec fn opt_json(o: Option<&Json>) -> Option<Json> {
    match o {
        Some(x) => Some(*x),
        None => None,
    }
}

fn model_from(m: Option<&Json>, path: &str) -> (res: Result<String, RequestError>)
    ensures
        match res {
            Ok(s) => model_value(opt_json(m), path@) == Ok::<Seq<char>, (bool, Seq<char>)>(s@),
            Err(e) => model_value(opt_json(m), path@) == Err::<Seq<char>, (bool, Seq<char>)>(refusal_view(e)),
        },
{
    match m {
        None => Ok(String::new()),
        Some(Json::Str(s)) => Ok(s.clone()),
        Some(x) => Err(refusal(path, invalid_type_text(x, "a string"))),
    }
}

fn list_from(ms: &Json, path: &str) -> (res: Result<Vec<ChatMessage>, RequestError>)
    ensures
        match res {
            Ok(l) => messages_value(*ms, path@) == Ok::<Seq<(Seq<char>, Seq<char>)>, (bool, Seq<char>)>(message_views(l@)),
            Err(e) => messages_value(*ms, path@) == Err::<Seq<(Seq<char>, Seq<char>)>, (bool, Seq<char>)>(refusal_view(e)),
        },
{
    match ms {
        Json::Array(items) => messages_from(items, path),
        _ => Err(refusal(path, invalid_type_text(ms, "a sequence"))),
    }
}

fn stream_from(st: Option<&Json>, path: &str) -> (res: Result<bool, RequestError>)
    ensures
        match res {
            Ok(b) => stream_value(opt_json(st), path@) == Ok::<bool, (bool, Seq<char>)>(b),
            Err(e) => stream_value(opt_json(st), path@) == Err::<bool, (bool, Seq<char>)>(refusal_view(e)),
        },
{
    match st {
        None => Ok(false),
        Some(Json::Bool(b)) => Ok(*b),
        Some(x) => Err(refusal(path, invalid_type_text(x, "a boolean"))),
    }
}

fn element_at(items: &Vec<Json>, i: usize) -> (res: Option<&Json>)
    ensures
        opt_json(res) == element(items@, i as int),
{
    if i < items.len() {
        Some(&items[i])
    } else {
        None
    }
}

/// The chat request a JSON value describes (see `request_of`), or the
/// refusal of it.
pub fn chat_request_from_json(v: &Json) -> (res: Result<ChatRequest, RequestError>)
    ensures
        match res {
            Ok(r) => request_of(*v) == Ok::<(Seq<char>, Seq<(Seq<char>, Seq<char>)>, bool), (bool, Seq<char>)>(request_view(r)),
            Err(e) => request_of(*v) == Err::<(Seq<char>, Seq<(Seq<char>, Seq<char>)>, bool), (bool, Seq<char>)>(refusal_view(e)),
        },
{
    match v {
        Json::Object(_) => {
            let model = match model_from(get(v, "model"), "model") {
                Ok(m) => m,
                Err(e) => {
                    return Err(e);
                },
            };
            match get(v, "messages") {
                Some(ms) => {
                    let messages = match list_from(ms, "messages") {
                        Ok(l) => l,
                        Err(e) => {
                            return Err(e);
                        },
                    };
                    match stream_from(get(v, "stream"), "stream") {
                        Ok(stream) => Ok(ChatRequest { model, messages, stream }),
                        Err(e) => Err(e),
                    }
                },
                None => match stream_from(get(v, "stream"), "stream") {
                    Ok(_) => Err(RequestError::Shape(owned("missing field `messages`"))),
                    Err(e) => Err(e),
                },
            }
        },
        Json::Array(items) => {
            let model = match model_from(element_at(items, 0), "[0]") {
                Ok(m) => m,
                Err(e) => {
                    return Err(e);
                },
            };
            let ms = match element_at(items, 1) {
                Some(ms) => ms,
                None => {
                    return Err(RequestError::Shape(owned("invalid length 1, expected struct ChatRequest with 3 elements")));
                },
            };
            let messages = match list_from(ms, "[1]") {
                Ok(l) => l,
                Err(e) => {
                    return Err(e);
                },
            };
            let stream = match stream_from(element_at(items, 2), "[2]") {
                Ok(b) => b,
                Err(e) => {
                    return Err(e);
                },
            };
            if items.len() > 3 {
                return Err(RequestError::Syntax(owned("trailing characters")));
            }
            Ok(ChatRequest { model, messages, stream })
        },
        _ => Err(RequestError::Shape(invalid_type_text(v, "struct ChatRequest"))),
    }
}

/// The chat request in a request body: `Syntax` with the JSON parser's error
/// text when it is not JSON, else the request or the refusal that
/// `request_of` gives.
pub fn parse_chat_request(body: &str) -> (res: Result<ChatRequest, RequestError>)
    ensures
        parsed_json(body@) matches Err(m) ==> (res matches Err(RequestError::Syntax(d)) && d@ == m),
        parsed_json(body@) matches Ok(v) ==> match res {
            Ok(r) => request_of(v) == Ok::<(Seq<char>, Seq<(Seq<char>, Seq<char>)>, bool), (bool, Seq<char>)>(request_view(r)),
            Err(e) => request_of(v) == Err::<(Seq<char>, Seq<(Seq<char>, Seq<char>)>, bool), (bool, Seq<char>)>(refusal_view(e)),
        },
{
    match parse_json(body) {
        Err(m) => Err(RequestError::Syntax(m)),
        Ok(v) => chat_request_from_json(&v),
    }
}

/// The message of a 400 for a body that is not JSON.
pub open spec fn syntax_message(detail: Seq<char>) -> Seq<char> {
    "Failed to parse the request body as JSON: "@ + detail
}

/// The message of a 422 for JSON of the wrong shape.
pub open spec fn shape_message(detail: Seq<char>) -> Seq<char> {
    "Failed to deserialize the JSON body into the target type: "@ + detail
}

/// The answer to a refused body: 400 for text that is not JSON, 422 for JSON
/// of the wrong shape, each message led by what the problem is, then its
/// detail.
pub fn request_error(e: &RequestError) -> (res: ApiError)
    ensures
        e matches RequestError::Syntax(d) ==> res.status == 400 && res.message@ == syntax_message(d@),
        e matches RequestError::Shape(d) ==> res.status == 422 && res.message@ == shape_message(d@),
        res.kind@ == "invalid_request_error"@,
{
    match e {
        RequestError::Syntax(d) => {
            let mut m = owned("Failed to parse the request body as JSON: ");
            push_str(&mut m, d.as_str());
            ApiError { status: 400, message: m, kind: owned("invalid_request_error") }
        },
        RequestError::Shape(d) => {
            let mut m = owned("Failed to deserialize the JSON body into the target type: ");
            push_str(&mut m, d.as_str());
            ApiError { status: 422, message: m, kind: owned("invalid_request_error") }
        },
    }
}

// ---------------------------------------------------------------------------
// Prompt and plan

/// The content of the last `user` message: the agent keeps no session in
/// print mode, and earlier turns (above all earlier assistant replies) are
/// not replayed into the prompt.
pub open spec fn last_user_content(ms: Seq<(Seq<char>, Seq<char>)>) -> Option<Seq<char>>
    decreases ms.len(),
{
    if ms.len() == 0 {
        None
    } else if ms.last().0 == "user"@ {
        Some(ms.last().1)
    } else {
        last_user_content(ms.drop_last())
    }
}

/// Builds the print-mode prompt: the latest user turn; none without a user
/// turn.
pub fn conversation_prompt(messages: &[ChatMessage]) -> (res: Option<String>)
    ensures
        match res {
            Some(p) => last_user_content(message_views(messages@)) == Some(p@),
            None => last_user_content(message_views(messages@)) is None,
        },
{
    let mut i = messages.len();
    assert(message_views(messages@).take(i as int) =~= message_views(messages@));
    while i > 0
        invariant
            i <= messages@.len(),
            last_user_content(message_views(messages@)) == last_user_content(message_views(messages@).take(i as int)),
        decreases i,
    {
        let m = &messages[i - 1];
        assert(message_views(messages@).take(i as int).last() == (m.role@, m.content@));
        assert(message_views(messages@).take(i as int).drop_last() =~= message_views(messages@).take(i - 1));
        if str_eq(m.role.as_str(), "user") {
            return Some(m.content.clone());
        }
        i = i - 1;
    }
    None
}

/// What a chat request asks the agent to do.
#[derive(Debug, Clone)]
pub struct ChatPlan {
    /// The Cursor `--model` value.
    pub cursor_model: String,
    /// The bridge model id reported back.
    pub model_id: String,
    pub prompt: String,
    pub stream: bool,
}

/// The message refusing a model id.
pub open spec fn model_refusal(model: Seq<char>) -> Seq<char> {
    "model not allowed: "@ + (if model.len() == 0 {
        "(empty)"@
    } else {
        model
    }) + " (use GET /v1/models for the allowlist)"@
}

/// The prompt of a request, its latest user turn; a 400 when it has none.
/// This needs no model list, so a request without a user turn is refused
/// before the allowlist is looked at (and before discovery could run).
pub fn user_turn(req: &ChatRequest) -> (res: Result<String, ApiError>)
    ensures
        match res {
            Ok(p) => last_user_content(message_views(req.messages@)) == Some(p@),
            Err(e) => last_user_content(message_views(req.messages@)) is None && e.status == 400
                && e.message@ == "messages must include a user turn"@
                && e.kind@ == "invalid_request_error"@,
        },
{
    match conversation_prompt(req.messages.as_slice()) {
        Some(p) => Ok(p),
        None => Err(
            ApiError {
                status: 400,
                message: owned("messages must include a user turn"),
                kind: owned("invalid_request_error"),
            },
        ),
    }
}

/// Decides a chat request: refused (400) without a user turn, refused (400)
/// for a model outside the allowlist, else the agent run to make.
pub fn plan_chat(req: &ChatRequest, models: &ModelMap, default_model_id: &str) -> (res: Result<ChatPlan, ApiError>)
    ensures
        last_user_content(message_views(req.messages@)) is None ==> (res matches Err(e)
            && e.status == 400 && e.message@ == "messages must include a user turn"@
            && e.kind@ == "invalid_request_error"@),
        last_user_content(message_views(req.messages@)) is Some && lookup(
            models@,
            model_key(default_model_id@, req.model@),
        ) is None ==> (res matches Err(e) && e.status == 400 && e.message@ == model_refusal(
            req.model@,
        ) && e.kind@ == "invalid_request_error"@),
        last_user_content(message_views(req.messages@)) is Some && lookup(
            models@,
            model_key(default_model_id@, req.model@),
        ) is Some ==> res is Ok,
        res matches Ok(p) ==> {
            &&& last_user_content(message_views(req.messages@)) == Some(p.prompt@)
            &&& lookup(models@, model_key(default_model_id@, req.model@)) == Some(p.cursor_model@)
            &&& p.model_id@ == model_key(default_model_id@, req.model@)
            &&& p.stream == req.stream
        },
{
    let prompt = match user_turn(req) {
        Ok(p) => p,
        Err(e) => return Err(e),
    };
    let cursor_model = match resolve_in(models, default_model_id, req.model.as_str()) {
        Some(c) => c,
        None => {
            let mut m = String::new();
            push_str(&mut m, "model not allowed: ");
            if req.model.as_str().is_empty() {
                push_str(&mut m, "(empty)");
            } else {
                push_str(&mut m, req.model.as_str());
            }
            push_str(&mut m, " (use GET /v1/models for the allowlist)");
            assert(m@ =~= model_refusal(req.model@));
            return Err(ApiError { status: 400, message: m, kind: owned("invalid_request_error") });
        },
    };
    let model_id = if req.model.as_str().is_empty() {
        owned(default_model_id)
    } else {
        req.model.clone()
    };
    Ok(ChatPlan { cursor_model, model_id, prompt, stream: req.stream })
}


// ---------------------------------------------------------------------------
// Response bodies

/// `true` or `false`.
pub open spec fn bool_text(b: bool) -> Seq<char> {
    if b {
        "true"@
    } else {
        "false"@
    }
}

fn push_bool(out: &mut String, b: bool)
    ensures
        final(out)@ == old(out)@ + bool_text(b),
{
    if b {
        push_str(out, "true");
    } else {
        push_str(out, "false");
    }
}

/// The liveness body: `{"ok":true}`, nothing about keys or credentials.
pub fn healthz_body() -> (res: String)
    ensures
        res@ == "{\"ok\":true}"@,
{
    owned("{\"ok\":true}")
}

/// One entry of the model list.
pub open spec fn model_entry(id: Seq<char>) -> Seq<char> {
    "{\"id\":"@ + quoted(id) + ",\"object\":\"model\",\"owned_by\":\"cursor-bridge\"}"@
}

/// The entries of `ids[n..]`, comma-separated (a comma first when `n > 0`).
pub open spec fn model_entries(ids: Seq<Seq<char>>, n: nat) -> Seq<char>
    decreases ids.len() - n,
{
    if n >= ids.len() {
        Seq::empty()
    } else {
        (if n == 0 {
            Seq::empty()
        } else {
            ","@
        }) + model_entry(ids[n as int]) + model_entries(ids, n + 1)
    }
}

/// The body of `GET /v1/models`: every allowed id, in order.
pub open spec fn models_list_text(ids: Seq<Seq<char>>) -> Seq<char> {
    "{\"data\":["@ + model_entries(ids, 0) + "],\"object\":\"list\"}"@
}

/// The body of `GET /v1/models` for an allowlist.
pub fn models_list_body(models: &ModelMap) -> (res: String)
    ensures
        res@ == models_list_text(keys_of(models@)),
{
    let ids = models.ids();
    let ghost v = string_views(ids@);
    let mut out = String::new();
    push_str(&mut out, "{\"data\":[");
    let ghost start = out@;
    let mut i: usize = 0;
    while i < ids.len()
        invariant
            i <= ids@.len(),
            v == string_views(ids@),
            start + model_entries(v, 0) == out@ + model_entries(v, i as nat),
        decreases ids@.len() - i,
    {
        let ghost before = out@;
        if i > 0 {
            push_str(&mut out, ",");
        }
        push_str(&mut out, "{\"id\":");
        push_quoted(&mut out, ids[i].as_str());
        push_str(&mut out, ",\"object\":\"model\",\"owned_by\":\"cursor-bridge\"}");
        assert(v[i as int] == ids@[i as int]@);
        assert(out@ =~= before + (if i == 0 { Seq::<char>::empty() } else { ","@ }) + model_entry(v[i as int]));
        i = i + 1;
    }
    push_str(&mut out, "],\"object\":\"list\"}");
    assert(out@ =~= models_list_text(keys_of(models@)));
    out
}

/// The body of a non-streamed completion: the reply, its reasoning when
/// there is any, the model id.
pub open spec fn completion_text(model_id: Seq<char>, content: Seq<char>, reasoning: Seq<char>) -> Seq<char> {
    "{\"choices\":[{\"finish_reason\":\"stop\",\"index\":0,\"message\":{\"content\":"@ + quoted(content)
        + (if reasoning.len() > 0 {
        ",\"reasoning_content\":"@ + quoted(reasoning)
    } else {
        Seq::empty()
    }) + ",\"role\":\"assistant\"}}],\"id\":\"chatcmpl-bridge\",\"model\":"@ + quoted(model_id)
        + ",\"object\":\"chat.completion\"}"@
}

/// The body of a non-streamed completion.
pub fn chat_completion_body(model_id: &str, turn: &AgentTurn) -> (res: String)
    ensures
        res@ == completion_text(model_id@, turn.content@, turn.reasoning_content@),
{
    let mut out = String::new();
    push_str(&mut out, "{\"choices\":[{\"finish_reason\":\"stop\",\"index\":0,\"message\":{\"content\":");
    push_quoted(&mut out, turn.content.as_str());
    if !turn.reasoning_content.as_str().is_empty() {
        push_str(&mut out, ",\"reasoning_content\":");
        push_quoted(&mut out, turn.reasoning_content.as_str());
    }
    push_str(&mut out, ",\"role\":\"assistant\"}}],\"id\":\"chatcmpl-bridge\",\"model\":");
    push_quoted(&mut out, model_id);
    push_str(&mut out, ",\"object\":\"chat.completion\"}");
    assert(out@ =~= completion_text(model_id@, turn.content@, turn.reasoning_content@));
    out
}

// ---------------------------------------------------------------------------
// Streamed completions

/// The `delta` object of a streamed piece, with the role on the first one.
pub open spec fn delta_object(d: DeltaView, with_role: bool) -> Seq<char> {
    "{"@ + match d {
        DeltaView::Content(t) => "\"content\":"@ + quoted(t),
        DeltaView::Reasoning(t) => "\"reasoning_content\":"@ + quoted(t),
    } + (if with_role {
        ",\"role\":\"assistant\""@
    } else {
        Seq::empty()
    }) + "}"@
}

/// A stream chunk around a `delta` object; `stop` marks the last one.
pub open spec fn chunk_text(model_id: Seq<char>, delta: Seq<char>, stop: bool) -> Seq<char> {
    "{\"choices\":[{\"delta\":"@ + delta + ",\"finish_reason\":"@ + (if stop {
        "\"stop\""@
    } else {
        "null"@
    }) + ",\"index\":0}],\"id\":\"chatcmpl-bridge\",\"model\":"@ + quoted(model_id)
        + ",\"object\":\"chat.completion.chunk\"}"@
}

/// The chunk that reports a failed run inside the stream.
pub open spec fn error_chunk_text(model_id: Seq<char>, message: Seq<char>) -> Seq<char> {
    chunk_text(
        model_id,
        "{\"content\":"@ + quoted("\n\n[bridge error: "@ + message + "]"@) + "}"@,
        true,
    )
}

/// The `data:` that ends every stream.
pub open spec fn done_marker() -> Seq<char> {
    "[DONE]"@
}

/// Where a stream stands: the model id it reports, whether the role went
/// out, whether it has ended.
pub struct SseStream {
    model_id: String,
    sent_role: bool,
    ended: bool,
}

impl View for SseStream {
    type V = (Seq<char>, bool, bool);

    closed spec fn view(&self) -> (Seq<char>, bool, bool) {
        (self.model_id@, self.sent_role, self.ended)
    }
}

fn push_chunk_head(out: &mut String)
    ensures
        final(out)@ == old(out)@ + "{\"choices\":[{\"delta\":"@,
{
    push_str(out, "{\"choices\":[{\"delta\":");
}

fn push_chunk_tail(out: &mut String, model_id: &str, stop: bool)
    ensures
        final(out)@ == old(out)@ + ",\"finish_reason\":"@ + (if stop {
            "\"stop\""@
        } else {
            "null"@
        }) + ",\"index\":0}],\"id\":\"chatcmpl-bridge\",\"model\":"@ + quoted(model_id@)
            + ",\"object\":\"chat.completion.chunk\"}"@,
{
    push_str(out, ",\"finish_reason\":");
    if stop {
        push_str(out, "\"stop\"");
    } else {
        push_str(out, "null");
    }
    push_str(out, ",\"index\":0}],\"id\":\"chatcmpl-bridge\",\"model\":");
    push_quoted(out, model_id);
    push_str(out, ",\"object\":\"chat.completion.chunk\"}");
}

impl SseStream {
    /// A stream that has sent nothing yet.
    pub fn new(model_id: &str) -> (res: SseStream)
        ensures
            res@ == (model_id@, false, false),
    {
        SseStream { model_id: owned(model_id), sent_role: false, ended: false }
    }

    /// The chunk for one piece of the reply; the first carries the role.
    /// Nothing once the stream has ended.
    pub fn delta_chunk(&mut self, d: &BridgeDelta) -> (res: Option<String>)
        ensures
            old(self)@.2 ==> res is None && final(self)@ == old(self)@,
            !old(self)@.2 ==> (res matches Some(c) && c@ == chunk_text(
                old(self)@.0,
                delta_object(d@, !old(self)@.1),
                false,
            ) && final(self)@ == (old(self)@.0, true, false)),
    {
        if self.ended {
            return None;
        }
        let mut out = String::new();
        push_chunk_head(&mut out);
        push_str(&mut out, "{");
        match d {
            BridgeDelta::Content(t) => {
                push_str(&mut out, "\"content\":");
                push_quoted(&mut out, t.as_str());
            },
            BridgeDelta::Reasoning(t) => {
                push_str(&mut out, "\"reasoning_content\":");
                push_quoted(&mut out, t.as_str());
            },
        }
        if !self.sent_role {
            push_str(&mut out, ",\"role\":\"assistant\"");
        }
        push_str(&mut out, "}");
        push_chunk_tail(&mut out, self.model_id.as_str(), false);
        assert(out@ =~= chunk_text(self.model_id@, delta_object(d@, !self.sent_role), false));
        self.sent_role = true;
        Some(out)
    }

    /// The chunks that end a stream after a failed run: the error as content,
    /// then `[DONE]`. Nothing once the stream has ended.
    pub fn error_chunks(&mut self, message: &str) -> (res: Vec<String>)
        ensures
            old(self)@.2 ==> res@.len() == 0 && final(self)@ == old(self)@,
            !old(self)@.2 ==> string_views(res@) == seq![error_chunk_text(old(self)@.0, message@), done_marker()]
                && final(self)@ == (old(self)@.0, old(self)@.1, true),
    {
        if self.ended {
            return Vec::new();
        }
        let mut out = String::new();
        push_chunk_head(&mut out);
        push_str(&mut out, "{\"content\":");
        let mut text = String::new();
        push_str(&mut text, "\n\n[bridge error: ");
        push_str(&mut text, message);
        push_str(&mut text, "]");
        push_quoted(&mut out, text.as_str());
        push_str(&mut out, "}");
        push_chunk_tail(&mut out, self.model_id.as_str(), true);
        assert(out@ =~= error_chunk_text(self.model_id@, message@));
        self.ended = true;
        let res = vec![out, owned("[DONE]")];
        assert(string_views(res@) =~= seq![error_chunk_text(old(self)@.0, message@), done_marker()]);
        res
    }

    /// The chunks that end a stream after a successful run: an empty delta
    /// with `finish_reason` `stop`, then `[DONE]`. Nothing once the stream has
    /// ended.
    pub fn end_chunks(&mut self) -> (res: Vec<String>)
        ensures
            old(self)@.2 ==> res@.len() == 0 && final(self)@ == old(self)@,
            !old(self)@.2 ==> string_views(res@) == seq![chunk_text(old(self)@.0, "{}"@, true), done_marker()]
                && final(self)@ == (old(self)@.0, old(self)@.1, true),
    {
        if self.ended {
            return Vec::new();
        }
        let mut out = String::new();
        push_chunk_head(&mut out);
        push_str(&mut out, "{}");
        push_chunk_tail(&mut out, self.model_id.as_str(), true);
        assert(out@ =~= chunk_text(self.model_id@, "{}"@, true));
        self.ended = true;
        let res = vec![out, owned("[DONE]")];
        assert(string_views(res@) =~= seq![chunk_text(old(self)@.0, "{}"@, true), done_marker()]);
        res
    }
}

// ---------------------------------------------------------------------------
// Setup endpoints

/// The body that reports a login URL.
pub open spec fn login_text(url: Seq<char>, setup_enabled: bool) -> Seq<char> {
    "{\"login_url\":"@ + quoted(url) + ",\"setup_enabled\":"@ + bool_text(setup_enabled) + "}"@
}

/// The body that reports a login URL.
pub fn login_body(url: &str, setup_enabled: bool) -> (res: String)
    ensures
        res@ == login_text(url@, setup_enabled),
{
    let mut out = String::new();
    push_str(&mut out, "{\"login_url\":");
    push_quoted(&mut out, url);
    push_str(&mut out, ",\"setup_enabled\":");
    push_bool(&mut out, setup_enabled);
    push_str(&mut out, "}");
    assert(out@ =~= login_text(url@, setup_enabled));
    out
}

/// The body that reports the login state.
pub open spec fn status_text(logged_in: bool, setup_enabled: bool, summary: Seq<char>) -> Seq<char> {
    "{\"logged_in\":"@ + bool_text(logged_in) + ",\"setup_enabled\":"@ + bool_text(setup_enabled)
        + ",\"summary\":"@ + quoted(summary) + "}"@
}

/// The body that reports the login state.
pub fn status_body(logged_in: bool, setup_enabled: bool, summary: &str) -> (res: String)
    ensures
        res@ == status_text(logged_in, setup_enabled, summary@),
{
    let mut out = String::new();
    push_str(&mut out, "{\"logged_in\":");
    push_bool(&mut out, logged_in);
    push_str(&mut out, ",\"setup_enabled\":");
    push_bool(&mut out, setup_enabled);
    push_str(&mut out, ",\"summary\":");
    push_quoted(&mut out, summary);
    push_str(&mut out, "}");
    assert(out@ =~= status_text(logged_in, setup_enabled, summary@));
    out
}

/// The 410 answer once setup is over; the page says why it is gone.
pub fn setup_gone(page: bool) -> (res: ApiError)
    ensures
        res.status == 410,
        res.kind@ == "setup_complete"@,
        page ==> res.message@ == "setup UI is disabled (Cursor already logged in, or setup completed)"@,
        !page ==> res.message@ == "setup UI is disabled"@,
{
    let message = if page {
        owned("setup UI is disabled (Cursor already logged in, or setup completed)")
    } else {
        owned("setup UI is disabled")
    };
    ApiError { status: 410, message, kind: owned("setup_complete") }
}

/// What `POST /setup/login` does next.
pub enum LoginStep {
    /// Answer with this error.
    Refuse(ApiError),
    /// Answer with this body (a login already running).
    Answer(String),
    /// Start `agent login`.
    Start,
}

/// Decides `POST /setup/login`: gone once setup is over; the URL of a login
/// already running (so a refreshed page keeps the OAuth flow); else start one.
pub fn setup_login_step(gate: &SetupGate, running_url: Option<&str>) -> (res: LoginStep)
    ensures
        !gate@ ==> (res matches LoginStep::Refuse(e) && e.status == 410 && e.message@
            == "setup UI is disabled"@),
        gate@ && running_url is Some ==> (res matches LoginStep::Answer(b) && b@ == login_text(
            running_url->0@,
            true,
        )),
        gate@ && running_url is None ==> res is Start,
{
    if !gate.is_enabled() {
        return LoginStep::Refuse(setup_gone(false));
    }
    match running_url {
        Some(u) => LoginStep::Answer(login_body(u, true)),
        None => LoginStep::Start,
    }
}

/// The answer to a started login: its URL, or the failure (502).
pub fn login_started(gate: &SetupGate, started: &Result<String, AgentError>) -> (res: Result<String, ApiError>)
    ensures
        match started {
            Ok(url) => res matches Ok(b) && b@ == login_text(url@, gate@),
            Err(e) => res matches Err(a) && a.status == 502 && a.message@ == redacted(agent_error_text(*e)),
        },
{
    match started {
        Ok(url) => Ok(login_body(url.as_str(), gate.is_enabled())),
        Err(e) => Err(agent_failure(e)),
    }
}

/// The answer to `GET /setup/status` once setup is over (the agent is not
/// asked then); nothing while setup is open.
pub fn setup_status_closed(gate: &SetupGate) -> (res: Option<String>)
    ensures
        !gate@ ==> (res matches Some(b) && b@ == status_text(true, false, "setup complete"@)),
        gate@ ==> res is None,
{
    if gate.is_enabled() {
        None
    } else {
        Some(status_body(true, false, "setup complete"))
    }
}

/// Whether the setup-complete flag is to be written: `agent status` reported
/// a login.
pub fn needs_setup_flag(reported: &Result<AgentStatus, AgentError>) -> (res: bool)
    ensures
        res == (reported matches Ok(st) && st.logged_in),
{
    match reported {
        Ok(st) => st.logged_in,
        Err(_) => false,
    }
}

/// Decides `GET /setup/status` from what `agent status` reported while setup
/// was open, and whether the setup-complete flag was written (it is written
/// after a login). The setup UI turns off for good only once the flag is
/// written; the answer reports it as it then stands.
pub fn setup_status_step(
    gate: &mut SetupGate,
    reported: Result<AgentStatus, AgentError>,
    flag_written: bool,
) -> (res: Result<String, ApiError>)
    ensures
        reported matches Ok(st) ==> {
            &&& final(gate)@ == gate_after(old(gate)@, st.logged_in && flag_written)
            &&& (res matches Ok(b) && b@ == status_text(st.logged_in, final(gate)@, st.summary@))
        },
        reported matches Err(e) ==> {
            &&& final(gate)@ == gate_after(old(gate)@, false)
            &&& (res matches Err(a) && a.status == 502 && a.message@ == redacted(agent_error_text(e)))
        },
{
    match reported {
        Ok(st) => {
            if st.logged_in && flag_written {
                gate.disable();
            }
            Ok(status_body(st.logged_in, gate.is_enabled(), st.summary.as_str()))
        },
        Err(e) => Err(agent_failure(&e)),
    }
}

// ---------------------------------------------------------------------------
// Laws

/// A prior assistant reply never reaches the prompt: appending an assistant
/// message leaves the prompt as it was.
pub proof fn law_assistant_reply_not_replayed(ms: Seq<(Seq<char>, Seq<char>)>, reply: Seq<char>)
    ensures
        last_user_content(ms.push(("assistant"@, reply))) == last_user_content(ms),
{
    reveal_strlit("assistant");
    reveal_strlit("user");
    let ext = ms.push(("assistant"@, reply));
    assert(ext.drop_last() =~= ms);
    assert(ext.last().0 != "user"@) by {
        assert(ext.last().0[0] == 'a');
        assert("user"@[0] == 'u');
    }
}

/// The newest user turn is the prompt, whatever came before it.
pub proof fn law_latest_user_turn_is_prompt(ms: Seq<(Seq<char>, Seq<char>)>, turn: Seq<char>)
    ensures
        last_user_content(ms.push(("user"@, turn))) == Some(turn),
{
    let ext = ms.push(("user"@, turn));
    assert(ext.last() == ("user"@, turn));
}

/// The header a client builds from the key is accepted, whatever the key
/// (so long as there is one).
pub proof fn law_bearer_header_accepted(key: Seq<char>)
    requires
        key.len() > 0,
    ensures
        authorized(Some("Bearer "@ + key), key),
{
    let h = "Bearer "@ + key;
    assert(h.take("Bearer "@.len() as int) =~= "Bearer "@);
    assert(h.skip("Bearer "@.len() as int) =~= key);
}

/// Without a configured key no request is authorized.
pub proof fn law_empty_key_refuses_all(header: Option<Seq<char>>)
    ensures
        !authorized(header, Seq::empty()),
{
}

/// `s` holds no line feed.
pub open spec fn one_line(s: Seq<char>) -> bool {
    forall|i: int| 0 <= i < s.len() ==> s[i] != '\n'
}

proof fn lemma_one_line_concat(a: Seq<char>, b: Seq<char>)
    requires
        one_line(a),
        one_line(b),
    ensures
        one_line(a + b),
{
    assert forall|i: int| 0 <= i < (a + b).len() implies (a + b)[i] != '\n' by {
        if i < a.len() {
            assert((a + b)[i] == a[i]);
        } else {
            assert((a + b)[i] == b[i - a.len()]);
        }
    }
}

proof fn lemma_escaped_one_line(s: Seq<char>)
    ensures
        one_line(crate::json::escaped(s)),
    decreases s.len(),
{
    if s.len() > 0 {
        lemma_escaped_one_line(s.drop_last());
        let c = s.last();
        let e = crate::json::escape_char(c);
        assert(one_line(e)) by {
            let n = c as u32;
            if n < 0x20 && c != '\n' && c != '\r' && c != '\t' && n != 0x08 && n != 0x0C && c != '"' && c != '\\' {
                assert(e.len() == 6);
                assert(e[4] == crate::json::hex_digit((n / 16) as int));
                assert(e[5] == crate::json::hex_digit((n % 16) as int));
            }
        }
        lemma_one_line_concat(crate::json::escaped(s.drop_last()), e);
    }
}

/// A JSON string literal spans one line: line feeds inside are escaped.
pub proof fn law_quoted_one_line(s: Seq<char>)
    ensures
        one_line(quoted(s)),
{
    lemma_escaped_one_line(s);
    lemma_one_line_concat(seq!['"'], crate::json::escaped(s));
    lemma_one_line_concat(seq!['"'] + crate::json::escaped(s), seq!['"']);
}

/// Every streamed chunk is one line, so it fits one SSE `data:` field
/// whatever the model id and the reply text hold.
pub proof fn law_chunk_one_line(model_id: Seq<char>, d: DeltaView, with_role: bool, stop: bool)
    ensures
        one_line(chunk_text(model_id, delta_object(d, with_role), stop)),
{
    reveal_strlit("{\"choices\":[{\"delta\":");
    reveal_strlit(",\"finish_reason\":");
    reveal_strlit("\"stop\"");
    reveal_strlit("null");
    reveal_strlit(",\"index\":0}],\"id\":\"chatcmpl-bridge\",\"model\":");
    reveal_strlit(",\"object\":\"chat.completion.chunk\"}");
    reveal_strlit("{");
    reveal_strlit("}");
    reveal_strlit("\"content\":");
    reveal_strlit("\"reasoning_content\":");
    reveal_strlit(",\"role\":\"assistant\"");
    law_quoted_one_line(model_id);
    let inner = match d {
        DeltaView::Content(t) => "\"content\":"@ + quoted(t),
        DeltaView::Reasoning(t) => "\"reasoning_content\":"@ + quoted(t),
    };
    match d {
        DeltaView::Content(t) => {
            law_quoted_one_line(t);
            lemma_one_line_concat("\"content\":"@, quoted(t));
        },
        DeltaView::Reasoning(t) => {
            law_quoted_one_line(t);
            lemma_one_line_concat("\"reasoning_content\":"@, quoted(t));
        },
    }
    let role = if with_role {
        ",\"role\":\"assistant\""@
    } else {
        Seq::<char>::empty()
    };
    lemma_one_line_concat("{"@, inner);
    lemma_one_line_concat("{"@ + inner, role);
    lemma_one_line_concat("{"@ + inner + role, "}"@);
    let delta = delta_object(d, with_role);
    assert(delta == "{"@ + inner + role + "}"@);
    let fin = if stop {
        "\"stop\""@
    } else {
        "null"@
    };
    lemma_one_line_concat("{\"choices\":[{\"delta\":"@, delta);
    lemma_one_line_concat("{\"choices\":[{\"delta\":"@ + delta, ",\"finish_reason\":"@);
    lemma_one_line_concat("{\"choices\":[{\"delta\":"@ + delta + ",\"finish_reason\":"@, fin);
    lemma_one_line_concat(
        "{\"choices\":[{\"delta\":"@ + delta + ",\"finish_reason\":"@ + fin,
        ",\"index\":0}],\"id\":\"chatcmpl-bridge\",\"model\":"@,
    );
    lemma_one_line_concat(
        "{\"choices\":[{\"delta\":"@ + delta + ",\"finish_reason\":"@ + fin
            + ",\"index\":0}],\"id\":\"chatcmpl-bridge\",\"model\":"@,
        quoted(model_id),
    );
    lemma_one_line_concat(
        "{\"choices\":[{\"delta\":"@ + delta + ",\"finish_reason\":"@ + fin
            + ",\"index\":0}],\"id\":\"chatcmpl-bridge\",\"model\":"@ + quoted(model_id),
        ",\"object\":\"chat.completion.chunk\"}"@,
    );
}


// ---------------------------------------------------------------------------
// Content type

/// A `Content-Type` value names JSON: its media type (before any `;`
/// parameters, trimmed, ASCII case ignored) is `application/json` or an
/// `application/...+json` type.
pub open spec fn json_media_type(value: Seq<char>) -> bool {
    let lower = ascii_lowercase(value);
    let essence = match first_index(lower, ';', 0) {
        Some(k) => trim(lower.take(k)),
        None => trim(lower),
    };
    match split_once(essence, "/"@) {
        Some((t, sub)) => t == "application"@ && (sub == "json"@ || (sub.len() >= 5 && sub.skip(
            sub.len() - 5,
        ) == "+json"@)),
        None => false,
    }
}

/// Whether a request's `Content-Type` names JSON.
pub fn is_json_media_type(value: &str) -> (res: bool)
    ensures
        res == json_media_type(value@),
{
    let lower = lowercase(chars_of(value).as_slice());
    let essence = match index_of(lower.as_slice(), ';', 0) {
        Some(k) => {
            proof {
                lemma_first_index_bounds(lower@, ';', 0);
            }
            let head = slice(lower.as_slice(), 0, k);
            assert(head@ =~= lower@.take(k as int));
            trimmed(head.as_slice())
        },
        None => trimmed(lower.as_slice()),
    };
    match split_once_chars(essence.as_slice(), chars_of("/").as_slice()) {
        Some((t, sub)) => {
            if !same_str(t.as_slice(), "application") {
                return false;
            }
            if same_str(sub.as_slice(), "json") {
                return true;
            }
            if sub.len() >= 5 {
                let tail = slice(sub.as_slice(), sub.len() - 5, sub.len());
                assert(tail@ =~= sub@.skip(sub@.len() - 5));
                same_str(tail.as_slice(), "+json")
            } else {
                false
            }
        },
        None => false,
    }
}


/// A message written as an object with a string `role` and a string
/// `content` reads as exactly that role and content, wherever it stands.
pub proof fn law_plain_message_reads_as_written(v: Json, path: Seq<char>, role: String, content: String)
    requires
        v is Object,
        field(v, "role"@) == Some(Json::Str(role)),
        field(v, "content"@) == Some(Json::Str(content)),
    ensures
        message_at(v, path) == Ok::<(Seq<char>, Seq<char>), (bool, Seq<char>)>((role@, content@)),
{
}

/// Messages are read in order, one per element: when the array is accepted,
/// message `i` is what element `i` (at its own path) reads as.
pub proof fn law_messages_keep_order(items: Seq<Json>, base: Seq<char>)
    requires
        messages_at(items, base) is Ok,
    ensures
        messages_at(items, base)->Ok_0.len() == items.len(),
        forall|i: int| 0 <= i < items.len() ==> message_at(#[trigger] items[i], elem_path(base, i as nat))
            == Ok::<(Seq<char>, Seq<char>), (bool, Seq<char>)>(messages_at(items, base)->Ok_0[i]),
    decreases items.len(),
{
    if items.len() > 0 {
        let d = items.drop_last();
        law_messages_keep_order(d, base);
        assert forall|i: int| 0 <= i < items.len() implies message_at(#[trigger] items[i], elem_path(base, i as nat))
            == Ok::<(Seq<char>, Seq<char>), (bool, Seq<char>)>(messages_at(items, base)->Ok_0[i]) by {
            if i < d.len() {
                assert(items[i] == d[i]);
            }
        }
    }
}

/// The prompt of an accepted request is its last message's content when
/// that message is a user turn: later messages win over earlier ones.
pub proof fn law_prompt_is_last_user_message(items: Seq<Json>, base: Seq<char>, content: String)
    requires
        items.len() > 0,
        messages_at(items, base) is Ok,
        items.last() is Object,
        field(items.last(), "role"@) matches Some(Json::Str(r)) && r@ == "user"@,
        field(items.last(), "content"@) == Some(Json::Str(content)),
    ensures
        last_user_content(messages_at(items, base)->Ok_0) == Some(content@),
{
    let n = items.len() - 1;
    law_messages_keep_order(items, base);
    let r = field(items.last(), "role"@)->0->Str_0;
    law_plain_message_reads_as_written(items[n], elem_path(base, n as nat), r, content);
    assert(items[n] == items.last());
}

/// Text pieces joined by commas.
pub open spec fn comma_list(items: Seq<Seq<char>>) -> Seq<char>
    decreases items.len(),
{
    if items.len() == 0 {
        Seq::empty()
    } else if items.len() == 1 {
        items[0]
    } else {
        items[0] + ","@ + comma_list(items.drop_first())
    }
}

proof fn lemma_model_entries_list(ids: Seq<Seq<char>>, n: int)
    requires
        0 <= n < ids.len(),
    ensures
        model_entries(ids, n as nat) == (if n == 0 {
            Seq::<char>::empty()
        } else {
            ","@
        }) + comma_list(ids.skip(n).map_values(|id: Seq<char>| model_entry(id))),
    decreases ids.len() - n,
{
    reveal_strlit(",");
    let es = ids.skip(n).map_values(|id: Seq<char>| model_entry(id));
    assert(es[0] == model_entry(ids[n]));
    if n + 1 == ids.len() {
        assert(model_entries(ids, (n + 1) as nat) =~= Seq::<char>::empty());
        assert(es.len() == 1);
    } else {
        lemma_model_entries_list(ids, n + 1);
        assert(es.drop_first() =~= ids.skip(n + 1).map_values(|id: Seq<char>| model_entry(id)));
    }
}

/// `GET /v1/models` lists every allowed id once, in the allowlist's order:
/// its `data` array is the entries of all ids, comma-separated.
pub proof fn law_models_list_has_every_id(ids: Seq<Seq<char>>)
    ensures
        models_list_text(ids) == "{\"data\":["@ + comma_list(ids.map_values(|id: Seq<char>| model_entry(id)))
            + "],\"object\":\"list\"}"@,
{
    if ids.len() == 0 {
        assert(ids.map_values(|id: Seq<char>| model_entry(id)) =~= Seq::<Seq<char>>::empty());
        assert(model_entries(ids, 0) =~= Seq::<char>::empty());
    } else {
        lemma_model_entries_list(ids, 0);
        assert(ids.skip(0) =~= ids);
    }
}

/// A piece keeps its kind in the stream whether or not its chunk is the
/// first: reasoning is sent under `reasoning_content` only and reply text
/// under `content` only; the first chunk adds the assistant role after it.
pub proof fn law_piece_keeps_its_field(t: Seq<char>, first: bool)
    ensures
        delta_object(DeltaView::Reasoning(t), first) == "{\"reasoning_content\":"@ + quoted(t) + (if first {
            ",\"role\":\"assistant\""@
        } else {
            Seq::<char>::empty()
        }) + "}"@,
        delta_object(DeltaView::Content(t), first) == "{\"content\":"@ + quoted(t) + (if first {
            ",\"role\":\"assistant\""@
        } else {
            Seq::<char>::empty()
        }) + "}"@,
{
    reveal_strlit("{\"reasoning_content\":");
    reveal_strlit("{\"content\":");
    reveal_strlit("\"reasoning_content\":");
    reveal_strlit("\"content\":");
    reveal_strlit("{");
}

} // verus!
