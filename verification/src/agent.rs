//! What the bridge reads back from the Cursor CLI (`agent`): its errors,
//! `agent status`, `agent models`, `agent login` and print-mode turns in
//! `stream-json` form. Spawning the process stays with the caller, who
//! hands the captured output in as a `ProcessOutput`.

use vstd::prelude::*;
use vstd::utf8::{decode_utf8, valid_utf8};
use crate::json::{field, field_str, get, get_str, field_is, json_text, parse_json, parsed_json, write_json, owned, Json};
use crate::config::Config;
use crate::text::{
    ascii_lowercase, chars_of, contains, contains_chars, eq_ignore_ascii_case, find, find_from,
    is_alnum, is_ascii_alphanumeric, is_whitespace, is_ws, lemma_find_from_bounds, lines,
    lines_of, lowercase, push_str, same_ignore_ascii_case, slice, split_once, split_once_chars,
    string_of, trim, trimmed, views, string_views, pair_views, strip_cr, first_index,
    lemma_first_index_bounds, lemma_trim_push_ws, lines_from, lemma_trim_idempotent,
};

verus! {

// ---------------------------------------------------------------------------
// Errors and captured output

/// Why an agent run failed.
#[derive(Debug, Clone)]
pub enum AgentError {
    /// The process could not be started or read; the text is the I/O error.
    Spawn(String),
    /// The process exited unsuccessfully.
    Exit { status: i32, stderr: String },
    /// Print-mode output was not UTF-8.
    Utf8,
    /// `agent login` printed no URL in time.
    LoginUrlTimeout,
    /// `agent login` ended without printing a URL.
    LoginUrlMissing,
}

/// The decimal digits of `n`.
pub open spec fn digits(n: nat) -> Seq<char>
    decreases n,
{
    if n < 10 {
        seq![('0' as int + n) as char]
    } else {
        digits(n / 10) + seq![('0' as int + n % 10) as char]
    }
}

/// `n` in decimal, with a leading `-` when negative (as `Display` writes it).
pub open spec fn decimal(n: int) -> Seq<char> {
    if n < 0 {
        seq!['-'] + digits((-n) as nat)
    } else {
        digits(n as nat)
    }
}

/// The message of each error.
pub open spec fn agent_error_text(e: AgentError) -> Seq<char> {
    match e {
        AgentError::Spawn(m) => "failed to spawn agent: "@ + m@,
        AgentError::Exit { status, stderr } => "agent exited with status "@ + decimal(
            status as int,
        ) + ": "@ + stderr@,
        AgentError::Utf8 => "agent output was not valid utf-8"@,
        AgentError::LoginUrlTimeout => "timed out waiting for login URL from agent"@,
        AgentError::LoginUrlMissing => "agent login produced no URL"@,
    }
}

fn digit_char(d: u64) -> (res: char)
    requires
        d < 10,
    ensures
        res == ('0' as int + d) as char,
{
    ((48 + d) as u8) as char
}

/// Appends the decimal digits of `n`.
pub(crate) fn push_digits(out: &mut String, n: u64)
    ensures
        final(out)@ == old(out)@ + digits(n as nat),
    decreases n,
{
    if n >= 10 {
        push_digits(out, n / 10);
    }
    out.push(digit_char(n % 10));
    assert(final(out)@ =~= old(out)@ + digits(n as nat));
}

/// Appends `n` in decimal.
pub fn push_decimal(out: &mut String, n: i64)
    ensures
        final(out)@ == old(out)@ + decimal(n as int),
{
    if n < 0 {
        out.push('-');
        let m: u64 = if n == i64::MIN {
            9223372036854775808u64
        } else {
            (-n) as u64
        };
        push_digits(out, m);
        assert(final(out)@ =~= old(out)@ + decimal(n as int));
    } else {
        push_digits(out, n as u64);
    }
}

impl AgentError {
    /// The error's message, as `Display` shows it.
    pub fn message(&self) -> (res: String)
        ensures
            res@ == agent_error_text(*self),
    {
        let mut out = String::new();
        match self {
            AgentError::Spawn(m) => {
                push_str(&mut out, "failed to spawn agent: ");
                push_str(&mut out, m.as_str());
            },
            AgentError::Exit { status, stderr } => {
                push_str(&mut out, "agent exited with status ");
                push_decimal(&mut out, *status as i64);
                push_str(&mut out, ": ");
                push_str(&mut out, stderr.as_str());
            },
            AgentError::Utf8 => {
                push_str(&mut out, "agent output was not valid utf-8");
            },
            AgentError::LoginUrlTimeout => {
                push_str(&mut out, "timed out waiting for login URL from agent");
            },
            AgentError::LoginUrlMissing => {
                push_str(&mut out, "agent login produced no URL");
            },
        }
        assert(out@ =~= agent_error_text(*self));
        out
    }
}

/// What a finished agent process left behind.
pub struct ProcessOutput {
    /// The process exited successfully.
    pub success: bool,
    /// Its exit code, absent when a signal ended it.
    pub code: Option<i32>,
    pub stdout: Vec<u8>,
    pub stderr: Vec<u8>,
}

/// The status an unsuccessful exit reports: the code, or `-1` without one.
pub open spec fn exit_code(code: Option<i32>) -> i32 {
    match code {
        Some(c) => c,
        None => -1i32,
    }
}

/// What `String::from_utf8_lossy` makes of `bytes`: invalid sequences become
/// U+FFFD.
pub uninterp spec fn lossy_utf8(bytes: Seq<u8>) -> Seq<char>;

/// `String::from_utf8_lossy`: claims the result is a function of the bytes,
/// and is the plain decoding where the bytes are valid UTF-8.
#[verifier::external_body]
fn lossy_string(bytes: &[u8]) -> (res: String)
    ensures
        res@ == lossy_utf8(bytes@),
        valid_utf8(bytes@) ==> res@ == decode_utf8(bytes@),
{
    String::from_utf8_lossy(bytes).into_owned()
}

/// `String::from_utf8`: a string exactly when the bytes are valid UTF-8, and
/// then their decoding.
#[verifier::external_body]
fn utf8_string(bytes: Vec<u8>) -> (res: Option<String>)
    ensures
        res is Some <==> valid_utf8(bytes@),
        res matches Some(s) ==> s@ == decode_utf8(bytes@),
{
    match String::from_utf8(bytes) {
        Ok(s) => Some(s),
        Err(_) => None,
    }
}

fn code_or_minus_one(code: Option<i32>) -> (res: i32)
    ensures
        res == exit_code(code),
{
    match code {
        Some(c) => c,
        None => -1,
    }
}

// ---------------------------------------------------------------------------
// `agent status`

/// Login state as `agent status` reports it.
#[derive(Debug, Clone)]
pub struct AgentStatus {
    pub logged_in: bool,
    pub summary: String,
}

/// The text `agent status` reports: trimmed stdout, or trimmed stderr when
/// stdout is blank.
pub open spec fn status_report(out: ProcessOutput) -> Seq<char> {
    let o = trim(lossy_utf8(out.stdout@));
    if o.len() == 0 {
        trim(lossy_utf8(out.stderr@))
    } else {
        o
    }
}

/// A report means "logged in" when it says "logged in" (or shows an account's
/// `@`) and does not say "not logged in", ignoring ASCII case.
pub open spec fn reports_logged_in(report: Seq<char>) -> bool {
    let lower = ascii_lowercase(report);
    !contains(lower, "not logged in"@) && (contains(lower, "logged in"@) || contains(lower, "@"@))
}

/// At most the first 200 characters of `s`.
pub open spec fn first_200(s: Seq<char>) -> Seq<char> {
    if s.len() <= 200 {
        s
    } else {
        s.take(200)
    }
}

/// Keeps at most the first 200 characters of a status line.
pub fn sanitize_status_line(raw: &str) -> (res: String)
    ensures
        res@ == first_200(raw@),
{
    let cs = chars_of(raw);
    if cs.len() <= 200 {
        string_of(cs.as_slice())
    } else {
        let head = slice(cs.as_slice(), 0, 200);
        string_of(head.as_slice())
    }
}

/// Reads the output of `agent status`. It fails only when the process failed
/// and printed nothing; it then reports the exit code and trimmed stderr.
pub fn status_from_output(out: &ProcessOutput) -> (res: Result<AgentStatus, AgentError>)
    ensures
        res is Err <==> !out.success && status_report(*out).len() == 0,
        res matches Err(e) ==> e matches AgentError::Exit { status, stderr } && status == exit_code(
            out.code,
        ) && stderr@ == trim(lossy_utf8(out.stderr@)),
        res matches Ok(st) ==> st.logged_in == reports_logged_in(status_report(*out))
            && st.summary@ == first_200(status_report(*out)),
{
    let so = lossy_string(out.stdout.as_slice());
    let se = lossy_string(out.stderr.as_slice());
    let so_c = chars_of(so.as_str());
    let se_c = chars_of(se.as_str());
    let o = trimmed(so_c.as_slice());
    let e = trimmed(se_c.as_slice());
    let report = if o.len() == 0 { e.clone() } else { o };
    if !out.success && report.len() == 0 {
        return Err(AgentError::Exit { status: code_or_minus_one(out.code), stderr: string_of(e.as_slice()) });
    }
    let lower = lowercase(report.as_slice());
    let not_in = contains_chars(lower.as_slice(), chars_of("not logged in").as_slice());
    let is_in = contains_chars(lower.as_slice(), chars_of("logged in").as_slice());
    let at = contains_chars(lower.as_slice(), chars_of("@").as_slice());
    let text = string_of(report.as_slice());
    Ok(AgentStatus { logged_in: !not_in && (is_in || at), summary: sanitize_status_line(text.as_str()) })
}

// ---------------------------------------------------------------------------
// `agent models`

/// A model that `agent models` lists.
#[derive(Debug, Clone, PartialEq, Eq)]
pub struct DiscoveredModel {
    pub id: String,
    pub label: String,
}

/// A character allowed in a model id.
pub open spec fn is_model_id_char(c: char) -> bool {
    is_ascii_alphanumeric(c) || c == '-' || c == '_' || c == '.'
}

/// The `(id, label)` that one line of `agent models` names, if any: a trimmed
/// `id - label` line, neither part blank, the id made of ASCII letters,
/// digits, `-`, `_` and `.`; the "Available models" heading names none.
pub open spec fn model_line(line: Seq<char>) -> Option<(Seq<char>, Seq<char>)> {
    let t = trim(line);
    if t.len() == 0 || eq_ignore_ascii_case(t, "available models"@) {
        None
    } else {
        match split_once(t, " - "@) {
            None => None,
            Some((a, b)) => {
                let id = trim(a);
                let label = trim(b);
                if id.len() == 0 || label.len() == 0 {
                    None
                } else if !(forall|i: int| 0 <= i < id.len() ==> is_model_id_char(#[trigger] id[i])) {
                    None
                } else {
                    Some((id, label))
                }
            },
        }
    }
}

/// The models that `lines` name, in order.
pub open spec fn models_of_lines(lines: Seq<Seq<char>>) -> Seq<(Seq<char>, Seq<char>)>
    decreases lines.len(),
{
    if lines.len() == 0 {
        Seq::empty()
    } else {
        models_of_lines(lines.drop_last()) + match model_line(lines.last()) {
            Some(m) => seq![m],
            None => Seq::empty(),
        }
    }
}

/// The models listed in the output of `agent models`.
pub open spec fn listed_models(stdout: Seq<char>) -> Seq<(Seq<char>, Seq<char>)> {
    models_of_lines(lines(stdout))
}

/// The `(id, label)` of each model.
pub open spec fn model_pairs(ms: Seq<DiscoveredModel>) -> Seq<(Seq<char>, Seq<char>)> {
    ms.map_values(|m: DiscoveredModel| (m.id@, m.label@))
}

fn is_model_id(id: &[char]) -> (res: bool)
    ensures
        res == forall|i: int| 0 <= i < id@.len() ==> is_model_id_char(#[trigger] id@[i]),
{
    let mut i: usize = 0;
    while i < id.len()
        invariant
            i <= id@.len(),
            forall|j: int| 0 <= j < i ==> is_model_id_char(#[trigger] id@[j]),
        decreases id@.len() - i,
    {
        let c = id[i];
        if !(is_alnum(c) || c == '-' || c == '_' || c == '.') {
            return false;
        }
        i = i + 1;
    }
    true
}

fn model_from_line(line: &[char]) -> (res: Option<DiscoveredModel>)
    ensures
        match res {
            Some(m) => model_line(line@) == Some((m.id@, m.label@)),
            None => model_line(line@) is None,
        },
{
    let t = trimmed(line);
    if t.len() == 0 || same_ignore_ascii_case(t.as_slice(), chars_of("available models").as_slice()) {
        return None;
    }
    match split_once_chars(t.as_slice(), chars_of(" - ").as_slice()) {
        None => None,
        Some((a, b)) => {
            let id = trimmed(a.as_slice());
            let label = trimmed(b.as_slice());
            if id.len() == 0 || label.len() == 0 {
                return None;
            }
            if !is_model_id(id.as_slice()) {
                return None;
            }
            Some(DiscoveredModel { id: string_of(id.as_slice()), label: string_of(label.as_slice()) })
        },
    }
}

/// Parses `agent models` / `--list-models` text (`id - label` lines).
pub fn parse_models_output(stdout: &str) -> (res: Vec<DiscoveredModel>)
    ensures
        model_pairs(res@) == listed_models(stdout@),
{
    let cs = chars_of(stdout);
    let ls = lines_of(cs.as_slice());
    let mut out: Vec<DiscoveredModel> = Vec::new();
    let mut i: usize = 0;
    while i < ls.len()
        invariant
            i <= ls@.len(),
            views(ls@) == lines(stdout@),
            model_pairs(out@) == models_of_lines(views(ls@).take(i as int)),
        decreases ls@.len() - i,
    {
        let ghost prev = out@;
        let line = &ls[i];
        match model_from_line(line.as_slice()) {
            Some(m) => {
                out.push(m);
            },
            None => {},
        }
        assert(views(ls@).take(i + 1).drop_last() =~= views(ls@).take(i as int));
        assert(model_pairs(out@) =~= models_of_lines(views(ls@).take(i + 1)));
        i = i + 1;
    }
    assert(views(ls@).take(ls@.len() as int) =~= views(ls@));
    out
}

/// The models that the output of `agent models` lists. It fails only when the
/// process failed and printed nothing on stdout; it then reports the exit
/// code and stderr.
pub fn models_from_output(out: &ProcessOutput) -> (res: Result<Vec<DiscoveredModel>, AgentError>)
    ensures
        res is Err <==> !out.success && trim(lossy_utf8(out.stdout@)).len() == 0,
        res matches Err(e) ==> e matches AgentError::Exit { status, stderr } && status == exit_code(
            out.code,
        ) && stderr@ == lossy_utf8(out.stderr@),
        res matches Ok(ms) ==> model_pairs(ms@) == listed_models(lossy_utf8(out.stdout@)),
{
    let so = lossy_string(out.stdout.as_slice());
    let so_c = chars_of(so.as_str());
    let t = trimmed(so_c.as_slice());
    if !out.success && t.len() == 0 {
        let se = lossy_string(out.stderr.as_slice());
        return Err(AgentError::Exit { status: code_or_minus_one(out.code), stderr: se });
    }
    Ok(parse_models_output(so.as_str()))
}

// ---------------------------------------------------------------------------
// `agent login`

/// A character that ends a URL in a line of output.
pub open spec fn ends_url(c: char) -> bool {
    is_whitespace(c) || c == '"' || c == '\''
}

/// The first index `k >= i` of `s` where a URL ends.
pub open spec fn url_end_from(s: Seq<char>, i: int) -> int
    decreases s.len() - i,
{
    if i >= s.len() {
        s.len() as int
    } else if ends_url(s[i]) {
        i
    } else {
        url_end_from(s, i + 1)
    }
}

/// Trailing punctuation that is not part of a URL.
pub open spec fn is_url_trailer(c: char) -> bool {
    c == '.' || c == ',' || c == ';' || c == ')'
}

/// `s` without trailing `.`, `,`, `;` and `)`.
pub open spec fn trim_url_trailers(s: Seq<char>) -> Seq<char>
    decreases s.len(),
{
    if s.len() > 0 && is_url_trailer(s.last()) {
        trim_url_trailers(s.drop_last())
    } else {
        s
    }
}

/// The first `https://` URL in a line, up to white space or a quote, without
/// trailing punctuation, and longer than `https://` itself.
pub open spec fn https_url(line: Seq<char>) -> Option<Seq<char>> {
    match find_from(line, "https://"@, 0) {
        None => None,
        Some(k) => {
            let rest = line.skip(k);
            let url = trim_url_trailers(rest.take(url_end_from(rest, 0)));
            if url.len() > 8 {
                Some(url)
            } else {
                None
            }
        },
    }
}

proof fn lemma_url_end_bounds(s: Seq<char>, i: int)
    requires
        0 <= i <= s.len(),
    ensures
        i <= url_end_from(s, i) <= s.len(),
    decreases s.len() - i,
{
    if i < s.len() && !ends_url(s[i]) {
        lemma_url_end_bounds(s, i + 1);
    }
}

/// Finds the first `https://` URL in a line of `agent login` output.
pub fn extract_https_url(line: &str) -> (res: Option<String>)
    ensures
        match res {
            Some(u) => https_url(line@) == Some(u@),
            None => https_url(line@) is None,
        },
{
    let cs = chars_of(line);
    let n = cs.len();
    let pat = chars_of("https://");
    proof {
        reveal_strlit("https://");
    }
    match find(cs.as_slice(), pat.as_slice(), 0) {
        None => None,
        Some(k) => {
            proof {
                lemma_find_from_bounds(cs@, pat@, 0);
            }
            let rest = slice(cs.as_slice(), k, n);
            assert(rest@ =~= line@.skip(k as int));
            let mut e: usize = 0;
            while e < rest.len() && !(is_ws(rest[e]) || rest[e] == '"' || rest[e] == '\'')
                invariant
                    e <= rest@.len(),
                    url_end_from(rest@, 0) == url_end_from(rest@, e as int),
                decreases rest@.len() - e,
            {
                e = e + 1;
            }
            let mut u = e;
            while u > 0 && (rest[u - 1] == '.' || rest[u - 1] == ',' || rest[u - 1] == ';' || rest[u - 1] == ')')
                invariant
                    u <= e <= rest@.len(),
                    trim_url_trailers(rest@.take(e as int)) == trim_url_trailers(rest@.take(u as int)),
                decreases u,
            {
                assert(rest@.take(u as int).drop_last() =~= rest@.take(u - 1));
                u = u - 1;
            }
            if u > 8 {
                let url = slice(rest.as_slice(), 0, u);
                assert(url@ =~= rest@.take(u as int));
                Some(string_of(url.as_slice()))
            } else {
                None
            }
        },
    }
}


// ---------------------------------------------------------------------------
// `stream-json` events

/// A piece of an assistant turn: thinking, or text for the reply.
#[derive(Debug, Clone, PartialEq, Eq)]
pub enum BridgeDelta {
    Reasoning(String),
    Content(String),
}

/// The mathematical value of a `BridgeDelta`.
pub enum DeltaView {
    Reasoning(Seq<char>),
    Content(Seq<char>),
}

impl View for BridgeDelta {
    type V = DeltaView;

    open spec fn view(&self) -> DeltaView {
        match self {
            BridgeDelta::Reasoning(t) => DeltaView::Reasoning(t@),
            BridgeDelta::Content(t) => DeltaView::Content(t@),
        }
    }
}

/// The text of a `{"type":"text","text":...}` part; nothing for other parts.
pub open spec fn part_text(part: Json) -> Seq<char> {
    if field_str(part, "type"@) == Some("text"@) {
        match field_str(part, "text"@) {
            Some(t) => t,
            None => Seq::empty(),
        }
    } else {
        Seq::empty()
    }
}

/// The text parts of `parts`, joined.
pub open spec fn parts_text(parts: Seq<Json>) -> Seq<char>
    decreases parts.len(),
{
    if parts.len() == 0 {
        Seq::empty()
    } else {
        parts_text(parts.drop_last()) + part_text(parts.last())
    }
}

/// The new assistant text an event carries: an `assistant` event with
/// `timestamp_ms` and without `model_call_id` (buffered flushes repeat text
/// already streamed), whose `message.content` array has non-empty text.
pub open spec fn assistant_delta(v: Json) -> Option<Seq<char>> {
    if field_str(v, "type"@) != Some("assistant"@) {
        None
    } else if field(v, "timestamp_ms"@) is None || field(v, "model_call_id"@) is Some {
        None
    } else {
        match field(v, "message"@) {
            Some(m) => match field(m, "content"@) {
                Some(Json::Array(parts)) => {
                    let t = parts_text(parts@);
                    if t.len() == 0 {
                        None
                    } else {
                        Some(t)
                    }
                },
                _ => None,
            },
            None => None,
        }
    }
}

/// How a character is written inside an HTML attribute value.
pub open spec fn html_escape_char(c: char) -> Seq<char> {
    if c == '&' {
        "&amp;"@
    } else if c == '"' {
        "&quot;"@
    } else if c == '<' {
        "&lt;"@
    } else if c == '>' {
        "&gt;"@
    } else if c == '\'' {
        "&#x27;"@
    } else {
        seq![c]
    }
}

/// `s` escaped for an HTML attribute value.
pub open spec fn html_escaped(s: Seq<char>) -> Seq<char>
    decreases s.len(),
{
    if s.len() == 0 {
        Seq::empty()
    } else {
        html_escaped(s.drop_last()) + html_escape_char(s.last())
    }
}

/// The value, or `null`.
pub open spec fn or_null(j: Option<Json>) -> Json {
    match j {
        Some(v) => v,
        None => Json::Null,
    }
}

/// The tool's name and body in a `tool_call` event: the first entry of its
/// `tool_call` object (such as `readToolCall`), or `tool` and `null`.
pub open spec fn tool_entry(v: Json) -> (Seq<char>, Json) {
    match field(v, "tool_call"@) {
        Some(Json::Object(entries)) => if entries@.len() > 0 {
            (entries@[0].0@, entries@[0].1)
        } else {
            ("tool"@, Json::Null)
        },
        _ => ("tool"@, Json::Null),
    }
}

/// A tool call as Open WebUI renders one: a `<details type="tool_calls">`
/// block with the call id, the tool's name, its JSON arguments and, once
/// done, its JSON result, each escaped as an attribute value.
pub open spec fn tool_details(v: Json, done: bool) -> Seq<char> {
    let call_id = match field_str(v, "call_id"@) {
        Some(c) => c,
        None => Seq::empty(),
    };
    let (name, body) = tool_entry(v);
    let head = "\n<details type=\"tool_calls\" done=\""@ + (if done {
        "true"@
    } else {
        "false"@
    }) + "\" id=\""@ + html_escaped(call_id) + "\" name=\""@ + html_escaped(name)
        + "\" arguments=\""@ + html_escaped(json_text(or_null(field(body, "args"@))));
    if done {
        head + "\" result=\""@ + html_escaped(json_text(or_null(field(body, "result"@))))
            + "\">\n<summary>Tool Executed</summary>\n</details>\n"@
    } else {
        head + "\">\n<summary>Executing...</summary>\n</details>\n"@
    }
}

/// What one `stream-json` event contributes to the reply: `thinking` deltas
/// as reasoning, assistant text (as `assistant_delta` picks it) and tool calls
/// that start or complete as content; nothing for anything else.
pub open spec fn event_delta(v: Json) -> Option<DeltaView> {
    if field_str(v, "type"@) == Some("assistant"@) {
        match assistant_delta(v) {
            Some(t) => Some(DeltaView::Content(t)),
            None => None,
        }
    } else if field_str(v, "type"@) == Some("thinking"@) {
        if field_str(v, "subtype"@) == Some("delta"@) {
            match field_str(v, "text"@) {
                Some(t) => if t.len() > 0 {
                    Some(DeltaView::Reasoning(t))
                } else {
                    None
                },
                None => None,
            }
        } else {
            None
        }
    } else if field_str(v, "type"@) == Some("tool_call"@) {
        if field_str(v, "subtype"@) == Some("started"@) {
            Some(DeltaView::Content(tool_details(v, false)))
        } else if field_str(v, "subtype"@) == Some("completed"@) {
            Some(DeltaView::Content(tool_details(v, true)))
        } else {
            None
        }
    } else {
        None
    }
}


/// The view of an optional delta.
pub open spec fn delta_view(d: Option<BridgeDelta>) -> Option<DeltaView> {
    match d {
        Some(x) => Some(x@),
        None => None,
    }
}

/// The view of an optional string.
pub open spec fn text_view(s: Option<String>) -> Option<Seq<char>> {
    match s {
        Some(x) => Some(x@),
        None => None,
    }
}

/// What a line of `stream-json` output contributes: nothing when it is not
/// JSON, else its event's delta.
pub open spec fn line_delta(line: Seq<char>) -> Option<DeltaView> {
    match parsed_json(line) {
        Ok(v) => event_delta(v),
        Err(_) => None,
    }
}

/// The new assistant text in a line of `stream-json` output.
pub open spec fn line_assistant_delta(line: Seq<char>) -> Option<Seq<char>> {
    match parsed_json(line) {
        Ok(v) => assistant_delta(v),
        Err(_) => None,
    }
}

/// The joined text parts of a `message.content` array.
fn text_of_parts(parts: &Vec<Json>) -> (res: String)
    ensures
        res@ == parts_text(parts@),
{
    let mut out = String::new();
    let mut i: usize = 0;
    while i < parts.len()
        invariant
            i <= parts@.len(),
            out@ == parts_text(parts@.take(i as int)),
        decreases parts@.len() - i,
    {
        let part = &parts[i];
        if field_is(part, "type", "text") {
            match get_str(part, "text") {
                Some(t) => push_str(&mut out, t.as_str()),
                None => {},
            }
        }
        assert(parts@.take(i + 1).drop_last() =~= parts@.take(i as int));
        i = i + 1;
    }
    assert(parts@.take(parts@.len() as int) =~= parts@);
    out
}

/// The new assistant text that an event carries (see `assistant_delta`).
pub fn assistant_text(v: &Json) -> (res: Option<String>)
    ensures
        text_view(res) == assistant_delta(*v),
{
    if !field_is(v, "type", "assistant") {
        return None;
    }
    if get(v, "timestamp_ms").is_none() || get(v, "model_call_id").is_some() {
        return None;
    }
    match get(v, "message") {
        Some(m) => match get(m, "content") {
            Some(Json::Array(parts)) => {
                let t = text_of_parts(parts);
                if t.as_str().is_empty() {
                    None
                } else {
                    Some(t)
                }
            },
            _ => None,
        },
        None => None,
    }
}

/// Extracts a live text delta from one `stream-json` NDJSON line.
pub fn extract_stream_json_delta(line: &str) -> (res: Option<String>)
    ensures
        text_view(res) == line_assistant_delta(line@),
{
    match parse_json(line) {
        Ok(v) => assistant_text(&v),
        Err(_) => None,
    }
}

/// Appends `html_escaped(s)`.
fn push_html_escaped(out: &mut String, s: &str)
    ensures
        final(out)@ == old(out)@ + html_escaped(s@),
{
    let cs = chars_of(s);
    let ghost start = out@;
    let mut i: usize = 0;
    while i < cs.len()
        invariant
            i <= cs@.len(),
            cs@ == s@,
            out@ == start + html_escaped(cs@.take(i as int)),
        decreases cs@.len() - i,
    {
        let c = cs[i];
        if c == '&' {
            push_str(out, "&amp;");
        } else if c == '"' {
            push_str(out, "&quot;");
        } else if c == '<' {
            push_str(out, "&lt;");
        } else if c == '>' {
            push_str(out, "&gt;");
        } else if c == '\'' {
            push_str(out, "&#x27;");
        } else {
            out.push(c);
        }
        assert(cs@.take(i + 1).drop_last() =~= cs@.take(i as int));
        i = i + 1;
        assert(out@ =~= start + html_escaped(cs@.take(i as int)));
    }
    assert(cs@.take(cs@.len() as int) =~= cs@);
}

/// Appends the JSON text of `body[key]`, or `null`.
fn push_member_text(out: &mut String, body: &Json, key: &str)
    ensures
        final(out)@ == old(out)@ + html_escaped(json_text(or_null(field(*body, key@)))),
{
    let mut text = String::new();
    match get(body, key) {
        Some(x) => write_json(&mut text, x),
        None => write_json(&mut text, &Json::Null),
    }
    push_html_escaped(out, text.as_str());
}

/// The `<details type="tool_calls">` block of a tool-call event.
pub fn tool_details_text(v: &Json, done: bool) -> (res: String)
    ensures
        res@ == tool_details(*v, done),
{
    let null = Json::Null;
    let mut out = String::new();
    push_str(&mut out, "\n<details type=\"tool_calls\" done=\"");
    if done {
        push_str(&mut out, "true");
    } else {
        push_str(&mut out, "false");
    }
    push_str(&mut out, "\" id=\"");
    match get_str(v, "call_id") {
        Some(c) => push_html_escaped(&mut out, c.as_str()),
        None => push_html_escaped(&mut out, ""),
    }
    proof {
        reveal_strlit("");
    }
    push_str(&mut out, "\" name=\"");
    let (name, body): (&str, &Json) = match get(v, "tool_call") {
        Some(Json::Object(entries)) => if entries.len() > 0 {
            (entries[0].0.as_str(), &entries[0].1)
        } else {
            ("tool", &null)
        },
        _ => ("tool", &null),
    };
    assert(tool_entry(*v) == (name@, *body));
    push_html_escaped(&mut out, name);
    push_str(&mut out, "\" arguments=\"");
    push_member_text(&mut out, body, "args");
    if done {
        push_str(&mut out, "\" result=\"");
        push_member_text(&mut out, body, "result");
        push_str(&mut out, "\">\n<summary>Tool Executed</summary>\n</details>\n");
    } else {
        push_str(&mut out, "\">\n<summary>Executing...</summary>\n</details>\n");
    }
    assert(out@ =~= tool_details(*v, done));
    out
}

/// What one `stream-json` event contributes to the reply (see `event_delta`).
pub fn map_stream_event(v: &Json) -> (res: Option<BridgeDelta>)
    ensures
        delta_view(res) == event_delta(*v),
{
    if field_is(v, "type", "assistant") {
        match assistant_text(v) {
            Some(t) => Some(BridgeDelta::Content(t)),
            None => None,
        }
    } else if field_is(v, "type", "thinking") {
        if field_is(v, "subtype", "delta") {
            match get_str(v, "text") {
                Some(t) => if t.as_str().is_empty() {
                    None
                } else {
                    Some(BridgeDelta::Reasoning(t.clone()))
                },
                None => None,
            }
        } else {
            None
        }
    } else if field_is(v, "type", "tool_call") {
        if field_is(v, "subtype", "started") {
            Some(BridgeDelta::Content(tool_details_text(v, false)))
        } else if field_is(v, "subtype", "completed") {
            Some(BridgeDelta::Content(tool_details_text(v, true)))
        } else {
            None
        }
    } else {
        None
    }
}

/// Maps one `stream-json` line to what it contributes to the reply.
pub fn map_stream_json_line(line: &str) -> (res: Option<BridgeDelta>)
    ensures
        delta_view(res) == line_delta(line@),
{
    match parse_json(line) {
        Ok(v) => map_stream_event(&v),
        Err(_) => None,
    }
}


// ---------------------------------------------------------------------------
// Print-mode turns

/// A finished assistant turn: reply text and thinking text.
#[derive(Debug, Clone)]
pub struct AgentTurn {
    pub content: String,
    pub reasoning_content: String,
}

/// The content texts of `ds`, joined.
pub open spec fn content_of(ds: Seq<DeltaView>) -> Seq<char>
    decreases ds.len(),
{
    if ds.len() == 0 {
        Seq::empty()
    } else {
        content_of(ds.drop_last()) + match ds.last() {
            DeltaView::Content(t) => t,
            DeltaView::Reasoning(_) => Seq::empty(),
        }
    }
}

/// The reasoning texts of `ds`, joined.
pub open spec fn reasoning_of(ds: Seq<DeltaView>) -> Seq<char>
    decreases ds.len(),
{
    if ds.len() == 0 {
        Seq::empty()
    } else {
        reasoning_of(ds.drop_last()) + match ds.last() {
            DeltaView::Reasoning(t) => t,
            DeltaView::Content(_) => Seq::empty(),
        }
    }
}

/// The deltas that `lines` carry, in order.
pub open spec fn deltas_of_lines(ls: Seq<Seq<char>>) -> Seq<DeltaView>
    decreases ls.len(),
{
    if ls.len() == 0 {
        Seq::empty()
    } else {
        deltas_of_lines(ls.drop_last()) + match line_delta(ls.last()) {
            Some(d) => seq![d],
            None => Seq::empty(),
        }
    }
}

/// The deltas in a whole `stream-json` output.
pub open spec fn output_deltas(stdout: Seq<char>) -> Seq<DeltaView> {
    deltas_of_lines(lines(stdout))
}

/// Appends a delta to a turn.
pub fn add_delta(turn: &mut AgentTurn, d: &BridgeDelta)
    ensures
        final(turn).content@ == old(turn).content@ + content_of(seq![d@]),
        final(turn).reasoning_content@ == old(turn).reasoning_content@ + reasoning_of(seq![d@]),
{
    proof {
        lemma_single(d@);
    }
    match d {
        BridgeDelta::Content(t) => push_str(&mut turn.content, t.as_str()),
        BridgeDelta::Reasoning(t) => push_str(&mut turn.reasoning_content, t.as_str()),
    }
}

proof fn lemma_single(d: DeltaView)
    ensures
        content_of(seq![d]) == match d {
            DeltaView::Content(t) => t,
            DeltaView::Reasoning(_) => Seq::<char>::empty(),
        },
        reasoning_of(seq![d]) == match d {
            DeltaView::Reasoning(t) => t,
            DeltaView::Content(_) => Seq::<char>::empty(),
        },
{
    let s = seq![d];
    assert(s.drop_last() =~= Seq::<DeltaView>::empty());
    assert(s.last() == d);
    assert(content_of(s) =~= content_of(s.drop_last()) + match d {
        DeltaView::Content(t) => t,
        DeltaView::Reasoning(_) => Seq::<char>::empty(),
    });
    assert(reasoning_of(s) =~= reasoning_of(s.drop_last()) + match d {
        DeltaView::Reasoning(t) => t,
        DeltaView::Content(_) => Seq::<char>::empty(),
    });
}

proof fn lemma_split_last(ds: Seq<DeltaView>, d: DeltaView)
    ensures
        content_of(ds.push(d)) == content_of(ds) + content_of(seq![d]),
        reasoning_of(ds.push(d)) == reasoning_of(ds) + reasoning_of(seq![d]),
{
    lemma_single(d);
    assert(ds.push(d).drop_last() =~= ds);
    assert(ds.push(d).last() == d);
}

/// The turn that `stream-json` output describes: its content and reasoning
/// deltas, each joined in order.
pub fn turn_from_text(stdout: &str) -> (res: AgentTurn)
    ensures
        res.content@ == content_of(output_deltas(stdout@)),
        res.reasoning_content@ == reasoning_of(output_deltas(stdout@)),
{
    let cs = chars_of(stdout);
    let ls = lines_of(cs.as_slice());
    let mut turn = AgentTurn { content: String::new(), reasoning_content: String::new() };
    let mut i: usize = 0;
    while i < ls.len()
        invariant
            i <= ls@.len(),
            views(ls@) == lines(stdout@),
            turn.content@ == content_of(deltas_of_lines(views(ls@).take(i as int))),
            turn.reasoning_content@ == reasoning_of(deltas_of_lines(views(ls@).take(i as int))),
        decreases ls@.len() - i,
    {
        let line = string_of(ls[i].as_slice());
        let ghost before = deltas_of_lines(views(ls@).take(i as int));
        assert(views(ls@).take(i + 1).drop_last() =~= views(ls@).take(i as int));
        match map_stream_json_line(line.as_str()) {
            Some(d) => {
                proof {
                    lemma_split_last(before, d@);
                    assert(deltas_of_lines(views(ls@).take(i + 1)) =~= before.push(d@));
                }
                add_delta(&mut turn, &d);
            },
            None => {
                assert(deltas_of_lines(views(ls@).take(i + 1)) =~= before);
            },
        }
        i = i + 1;
    }
    assert(views(ls@).take(ls@.len() as int) =~= views(ls@));
    turn
}

/// The turn that a print-mode run produced. A failed run reports its exit
/// code and stderr; output that is not UTF-8 is an error.
pub fn turn_from_output(out: ProcessOutput) -> (res: Result<AgentTurn, AgentError>)
    ensures
        !out.success ==> (res matches Err(e) && e matches AgentError::Exit { status, stderr }
            && status == exit_code(out.code) && stderr@ == lossy_utf8(out.stderr@)),
        out.success && !valid_utf8(out.stdout@) ==> (res matches Err(e) && e is Utf8),
        out.success && valid_utf8(out.stdout@) ==> (res matches Ok(t)
            && t.content@ == content_of(output_deltas(decode_utf8(out.stdout@)))
            && t.reasoning_content@ == reasoning_of(output_deltas(decode_utf8(out.stdout@)))),
{
    if !out.success {
        let se = lossy_string(out.stderr.as_slice());
        return Err(AgentError::Exit { status: code_or_minus_one(out.code), stderr: se });
    }
    match utf8_string(out.stdout) {
        None => Err(AgentError::Utf8),
        Some(text) => Ok(turn_from_text(text.as_str())),
    }
}

/// Whether an agent process that streamed its output ended in failure.
pub fn stream_exit_error(success: bool, code: Option<i32>, stderr: &str) -> (res: Option<AgentError>)
    ensures
        success ==> res is None,
        !success ==> (res matches Some(e) && e matches AgentError::Exit { status, stderr: s }
            && status == exit_code(code) && s@ == stderr@),
{
    if success {
        None
    } else {
        Some(AgentError::Exit { status: code_or_minus_one(code), stderr: owned(stderr) })
    }
}

// ---------------------------------------------------------------------------
// Command lines

/// The arguments of a print-mode turn: non-interactive (`-p`), trusting the
/// workspace and forcing tools (nobody can answer a prompt), streaming JSON
/// events with partial output, for one model and one prompt.
pub open spec fn print_args(cursor_model: Seq<char>, prompt: Seq<char>) -> Seq<Seq<char>> {
    seq![
        "-p"@,
        "--trust"@,
        "--force"@,
        "--output-format"@,
        "stream-json"@,
        "--stream-partial-output"@,
        "--model"@,
        cursor_model,
        prompt,
    ]
}

/// The arguments of a print-mode turn (see `print_args`).
pub fn print_turn_args(cursor_model: &str, prompt: &str) -> (res: Vec<String>)
    ensures
        string_views(res@) == print_args(cursor_model@, prompt@),
{
    let res = vec![
        owned("-p"),
        owned("--trust"),
        owned("--force"),
        owned("--output-format"),
        owned("stream-json"),
        owned("--stream-partial-output"),
        owned("--model"),
        owned(cursor_model),
        owned(prompt),
    ];
    assert(string_views(res@) =~= print_args(cursor_model@, prompt@));
    res
}

/// The environment of every agent run: credentials land in the state
/// directory (as `HOME`), no browser is opened.
pub open spec fn agent_env_spec(state_dir: Seq<char>) -> Seq<(Seq<char>, Seq<char>)> {
    seq![
        ("HOME"@, state_dir),
        ("NO_OPEN_BROWSER"@, "1"@),
        ("FAKE_AGENT_STATE_DIR"@, state_dir),
        ("CURSOR_BRIDGE_STATE_DIR"@, state_dir),
    ]
}

/// The environment of every agent run (see `agent_env_spec`).
pub fn agent_env(config: &Config) -> (res: Vec<(String, String)>)
    ensures
        pair_views(res@) == agent_env_spec(config.state_dir@),
{
    let d = config.state_dir.as_str();
    let res = vec![
        (owned("HOME"), owned(d)),
        (owned("NO_OPEN_BROWSER"), owned("1")),
        (owned("FAKE_AGENT_STATE_DIR"), owned(d)),
        (owned("CURSOR_BRIDGE_STATE_DIR"), owned(d)),
    ];
    assert(pair_views(res@) =~= agent_env_spec(config.state_dir@));
    res
}



// ---------------------------------------------------------------------------
// Process plumbing decisions

/// How the search for a login URL in `agent login`'s output ended.
pub enum LoginSearch {
    /// A line held this URL.
    Found(String),
    /// The output ended, or could not be read, before a URL.
    Ended,
    /// The time allowed ran out.
    TimedOut,
}

/// The outcome of `agent login`: its URL, `LoginUrlMissing` when its output
/// ended first, `LoginUrlTimeout` when time ran out.
pub fn login_outcome(search: LoginSearch) -> (res: Result<String, AgentError>)
    ensures
        match search {
            LoginSearch::Found(u) => res matches Ok(r) && r@ == u@,
            LoginSearch::Ended => res matches Err(e) && e is LoginUrlMissing,
            LoginSearch::TimedOut => res matches Err(e) && e is LoginUrlTimeout,
        },
{
    match search {
        LoginSearch::Found(u) => Ok(u),
        LoginSearch::Ended => Err(AgentError::LoginUrlMissing),
        LoginSearch::TimedOut => Err(AgentError::LoginUrlTimeout),
    }
}

/// What one read of `agent login`'s output gave.
pub enum LoginRead {
    /// A line of stdout.
    Stdout(String),
    /// Stdout ended.
    StdoutClosed,
    /// A line of stderr.
    Stderr(String),
    /// Stderr ended.
    StderrClosed,
    /// Either stream could not be read.
    Failed,
}

/// One step of the search for the login URL: the search ends with the URL of
/// the first line (on either stream) that holds one, or when stdout ends or a
/// read fails; the end of stderr alone does not end it.
pub fn login_search_step(read: LoginRead) -> (res: Option<LoginSearch>)
    ensures
        match read {
            LoginRead::Stdout(l) | LoginRead::Stderr(l) => match https_url(l@) {
                Some(u) => res matches Some(LoginSearch::Found(f)) && f@ == u,
                None => res is None,
            },
            LoginRead::StdoutClosed | LoginRead::Failed => res matches Some(LoginSearch::Ended),
            LoginRead::StderrClosed => res is None,
        },
{
    match read {
        LoginRead::Stdout(l) | LoginRead::Stderr(l) => match extract_https_url(l.as_str()) {
            Some(u) => Some(LoginSearch::Found(u)),
            None => None,
        },
        LoginRead::StdoutClosed | LoginRead::Failed => Some(LoginSearch::Ended),
        LoginRead::StderrClosed => None,
    }
}

/// What one read of a streamed run's stdout gave.
pub enum StreamRead {
    /// A line.
    Line(String),
    /// Stdout ended.
    Closed,
    /// Stdout could not be read; the text is the I/O error.
    Failed(String),
}

/// What to do after one read of a streamed run's stdout.
pub enum StreamStep {
    /// Send this reply piece.
    Emit(BridgeDelta),
    /// The line carries nothing to send; read on.
    Skip,
    /// Stop reading; the read error, if one stopped it.
    Finish(Option<String>),
}

/// One step of reading a streamed run: each line that maps to a reply piece is
/// sent, other lines are skipped, and the end of stdout or a read error stops
/// the reading.
pub fn stream_read_step(read: StreamRead) -> (res: StreamStep)
    ensures
        match read {
            StreamRead::Line(l) => match line_delta(l@) {
                Some(d) => res matches StreamStep::Emit(x) && x@ == d,
                None => res is Skip,
            },
            StreamRead::Closed => res matches StreamStep::Finish(None),
            StreamRead::Failed(m) => res matches StreamStep::Finish(Some(e)) && e@ == m@,
        },
{
    match read {
        StreamRead::Line(l) => match map_stream_json_line(l.as_str()) {
            Some(d) => StreamStep::Emit(d),
            None => StreamStep::Skip,
        },
        StreamRead::Closed => StreamStep::Finish(None),
        StreamRead::Failed(m) => StreamStep::Finish(Some(m)),
    }
}

/// How a streamed run ends once its stdout is read: a failed wait for the
/// process is a spawn error, then a stdout read error is, then an
/// unsuccessful exit reports its status and stderr; a clean run ends with no
/// error.
pub fn stream_end(
    read_error: Option<String>,
    exit: Result<(bool, Option<i32>), String>,
    stderr: &str,
) -> (res: Option<AgentError>)
    ensures
        match exit {
            Err(w) => res matches Some(AgentError::Spawn(m)) && m@ == w@,
            Ok((success, code)) => match read_error {
                Some(r) => res matches Some(AgentError::Spawn(m)) && m@ == r@,
                None => if success {
                    res is None
                } else {
                    res matches Some(AgentError::Exit { status, stderr: s }) && status == exit_code(code)
                        && s@ == stderr@
                },
            },
        },
{
    match exit {
        Err(w) => Some(AgentError::Spawn(w)),
        Ok((success, code)) => match read_error {
            Some(r) => Some(AgentError::Spawn(r)),
            None => stream_exit_error(success, code, stderr),
        },
    }
}

/// How much of a streamed run's stderr is kept, in bytes (reading stops once
/// it is passed).
pub const STDERR_CAP_BYTES: usize = 8192;

/// Adds a line of stderr to what was kept, lines joined by `\n`.
pub fn push_stderr_line(buf: &mut String, line: &str)
    ensures
        final(buf)@ == old(buf)@ + (if old(buf)@.len() > 0 {
            seq!['\n']
        } else {
            Seq::empty()
        }) + line@,
{
    if !buf.as_str().is_empty() {
        buf.push('\n');
    }
    push_str(buf, line);
}

/// The kept stderr has passed the cap, so reading stops.
pub fn stderr_full(buf: &str) -> (res: bool)
    ensures
        res == (buf.len() > STDERR_CAP_BYTES),
{
    buf.len() > STDERR_CAP_BYTES
}

// ---------------------------------------------------------------------------
// Laws

/// Every model that `agent models` output lists has a non-blank id made of
/// ASCII letters, digits, `-`, `_` and `.`, and a non-blank label; none is
/// the "Available models" heading.
pub proof fn law_listed_models_well_formed(stdout: Seq<char>, i: int)
    requires
        0 <= i < listed_models(stdout).len(),
    ensures
        listed_models(stdout)[i].0.len() > 0,
        listed_models(stdout)[i].1.len() > 0,
        forall|j: int| 0 <= j < listed_models(stdout)[i].0.len() ==> is_model_id_char(
            #[trigger] listed_models(stdout)[i].0[j],
        ),
{
    lemma_models_of_lines_well_formed(lines(stdout), i);
}

proof fn lemma_models_of_lines_well_formed(ls: Seq<Seq<char>>, i: int)
    requires
        0 <= i < models_of_lines(ls).len(),
    ensures
        models_of_lines(ls)[i].0.len() > 0,
        models_of_lines(ls)[i].1.len() > 0,
        forall|j: int| 0 <= j < models_of_lines(ls)[i].0.len() ==> is_model_id_char(
            #[trigger] models_of_lines(ls)[i].0[j],
        ),
    decreases ls.len(),
{
    if ls.len() > 0 {
        let prev = models_of_lines(ls.drop_last());
        if i < prev.len() {
            lemma_models_of_lines_well_formed(ls.drop_last(), i);
        }
    }
}


proof fn lemma_models_concat(x: Seq<Seq<char>>, y: Seq<Seq<char>>)
    ensures
        models_of_lines(x + y) == models_of_lines(x) + models_of_lines(y),
    decreases y.len(),
{
    if y.len() == 0 {
        assert(x + y =~= x);
        assert(models_of_lines(x) + models_of_lines(y) =~= models_of_lines(x));
    } else {
        lemma_models_concat(x, y.drop_last());
        assert((x + y).drop_last() =~= x + y.drop_last());
        assert((x + y).last() == y.last());
    }
}

proof fn lemma_models_single(l: Seq<char>)
    ensures
        models_of_lines(seq![l]) == match model_line(l) {
            Some(m) => seq![m],
            None => Seq::<(Seq<char>, Seq<char>)>::empty(),
        },
{
    let one = seq![l];
    assert(one.drop_last() =~= Seq::<Seq<char>>::empty());
    assert(one.last() == l);
    assert(models_of_lines(one) =~= models_of_lines(one.drop_last()) + match model_line(l) {
        Some(m) => seq![m],
        None => Seq::<(Seq<char>, Seq<char>)>::empty(),
    });
}

proof fn lemma_model_line_strip_cr(t: Seq<char>)
    ensures
        model_line(strip_cr(t)) == model_line(t),
{
    if t.len() > 0 && t.last() == '\r' {
        assert(t.drop_last().push('\r') =~= t);
        lemma_trim_push_ws(t.drop_last(), '\r');
    }
}

proof fn lemma_first_newline_prefix(a: Seq<char>, b: Seq<char>, i: int)
    requires
        0 <= i <= a.len(),
    ensures
        first_index(a + seq!['\n'] + b, '\n', i) == match first_index(a, '\n', i) {
            Some(k) => Some(k),
            None => Some(a.len() as int),
        },
    decreases a.len() - i,
{
    let s = a + seq!['\n'] + b;
    assert(s[a.len() as int] == '\n');
    if i < a.len() {
        assert(s[i] == a[i]);
        if a[i] != '\n' {
            lemma_first_newline_prefix(a, b, i + 1);
        }
    }
}

proof fn lemma_first_newline_suffix(a: Seq<char>, b: Seq<char>, j: int)
    requires
        0 <= j <= b.len(),
    ensures
        first_index(a + seq!['\n'] + b, '\n', a.len() as int + 1 + j) == match first_index(b, '\n', j) {
            Some(k) => Some(a.len() as int + 1 + k),
            None => None::<int>,
        },
    decreases b.len() - j,
{
    let s = a + seq!['\n'] + b;
    if j < b.len() {
        assert(s[a.len() as int + 1 + j] == b[j]);
        if b[j] != '\n' {
            lemma_first_newline_suffix(a, b, j + 1);
        }
    }
}

proof fn lemma_lines_suffix(a: Seq<char>, b: Seq<char>, j: int)
    requires
        0 <= j <= b.len(),
    ensures
        lines_from(a + seq!['\n'] + b, a.len() as int + 1 + j) == lines_from(b, j),
    decreases b.len() - j,
{
    let s = a + seq!['\n'] + b;
    let n = a.len() as int;
    if j < b.len() {
        lemma_first_newline_suffix(a, b, j);
        lemma_first_index_bounds(b, '\n', j);
        match first_index(b, '\n', j) {
            Some(k) => {
                assert(s.subrange(n + 1 + j, n + 1 + k) =~= b.subrange(j, k));
                lemma_lines_suffix(a, b, k + 1);
            },
            None => {
                assert(s.subrange(n + 1 + j, s.len() as int) =~= b.subrange(j, b.len() as int));
            },
        }
    }
}

proof fn lemma_lines_prefix(a: Seq<char>, b: Seq<char>, i: int)
    requires
        0 <= i <= a.len(),
    ensures
        models_of_lines(lines_from(a + seq!['\n'] + b, i)) == models_of_lines(lines_from(a, i))
            + models_of_lines(lines_from(a + seq!['\n'] + b, a.len() as int + 1)),
    decreases a.len() - i,
{
    let s = a + seq!['\n'] + b;
    let n = a.len() as int;
    let rest = lines_from(s, n + 1);
    lemma_first_newline_prefix(a, b, i);
    lemma_first_index_bounds(a, '\n', i);
    if i == n {
        let line = strip_cr(s.subrange(n, n));
        assert(s.subrange(n, n) =~= Seq::<char>::empty());
        assert(lines_from(s, n) == seq![line] + rest);
        lemma_models_concat(seq![line], rest);
        lemma_models_single(line);
        assert(lines_from(a, n) =~= Seq::<Seq<char>>::empty());
        assert(models_of_lines(Seq::<Seq<char>>::empty()) + models_of_lines(rest) =~= models_of_lines(rest));
    } else {
        match first_index(a, '\n', i) {
            Some(k) => {
                let line = strip_cr(a.subrange(i, k));
                assert(s.subrange(i, k) =~= a.subrange(i, k));
                assert(lines_from(s, i) == seq![line] + lines_from(s, k + 1));
                assert(lines_from(a, i) == seq![line] + lines_from(a, k + 1));
                lemma_lines_prefix(a, b, k + 1);
                lemma_models_concat(seq![line], lines_from(s, k + 1));
                lemma_models_concat(seq![line], lines_from(a, k + 1));
            },
            None => {
                let t = a.subrange(i, n);
                assert(s.subrange(i, n) =~= t);
                assert(lines_from(s, i) == seq![strip_cr(t)] + rest);
                assert(lines_from(a, i) == seq![t]);
                lemma_models_concat(seq![strip_cr(t)], rest);
                lemma_models_single(strip_cr(t));
                lemma_models_single(t);
                lemma_model_line_strip_cr(t);
            },
        }
    }
}

/// Output read in two parts lists the models of both: the models of
/// `a`, a line break, then `b` are those of `a` followed by those of `b`.
pub proof fn law_models_output_concatenates(a: Seq<char>, b: Seq<char>)
    ensures
        listed_models(a + seq!['\n'] + b) == listed_models(a) + listed_models(b),
{
    lemma_lines_prefix(a, b, 0);
    lemma_lines_suffix(a, b, 0);
}

proof fn lemma_url_end_prefix(s: Seq<char>, i: int)
    requires
        0 <= i <= s.len(),
    ensures
        forall|j: int| i <= j < url_end_from(s, i) ==> !ends_url(#[trigger] s[j]),
    decreases s.len() - i,
{
    if i < s.len() && !ends_url(s[i]) {
        lemma_url_end_prefix(s, i + 1);
    }
}

proof fn lemma_trim_trailers_prefix(s: Seq<char>)
    ensures
        trim_url_trailers(s).len() <= s.len(),
        trim_url_trailers(s) == s.take(trim_url_trailers(s).len() as int),
    decreases s.len(),
{
    if s.len() > 0 && is_url_trailer(s.last()) {
        lemma_trim_trailers_prefix(s.drop_last());
        assert(s.drop_last().take(trim_url_trailers(s).len() as int) =~= s.take(trim_url_trailers(s).len() as int));
    } else {
        assert(s.take(s.len() as int) =~= s);
    }
}

/// A login URL found in a line starts with `https://`, has more after it,
/// and holds no white space or quote.
pub proof fn law_login_url_shape(line: Seq<char>)
    ensures
        https_url(line) matches Some(u) ==> {
            &&& u.len() > 8
            &&& u.take(8) == "https://"@
            &&& forall|j: int| 0 <= j < u.len() ==> !ends_url(#[trigger] u[j])
        },
{
    reveal_strlit("https://");
    lemma_find_from_bounds(line, "https://"@, 0);
    match find_from(line, "https://"@, 0) {
        None => {},
        Some(k) => {
            let rest = line.skip(k);
            let end = url_end_from(rest, 0);
            lemma_url_end_bounds(rest, 0);
            lemma_url_end_prefix(rest, 0);
            let x = rest.take(end);
            let u = trim_url_trailers(x);
            lemma_trim_trailers_prefix(x);
            if u.len() > 8 {
                assert(rest.take(8) =~= "https://"@) by {
                    assert forall|j: int| 0 <= j < 8 implies rest[j] == "https://"@[j] by {
                        assert(rest[j] == line[k + j]);
                        assert(line.subrange(k, k + 8)[j] == line[k + j]);
                    }
                }
                assert(u.take(8) =~= "https://"@) by {
                    assert forall|j: int| 0 <= j < 8 implies u[j] == rest[j] by {
                        assert(u[j] == x[j]);
                    }
                }
                assert forall|j: int| 0 <= j < u.len() implies !ends_url(#[trigger] u[j]) by {
                    assert(u[j] == x[j]);
                    assert(x[j] == rest[j]);
                }
            }
        },
    }
}


/// Buffered flushes repeat text already streamed and are skipped: an
/// assistant event with `model_call_id`, or without `timestamp_ms`, adds no
/// text.
pub proof fn law_buffered_flush_skipped(v: Json)
    requires
        field(v, "model_call_id"@) is Some || field(v, "timestamp_ms"@) is None,
    ensures
        assistant_delta(v) is None,
{
}

/// The text a line carries is the same whether it is read for a plain
/// delta or mapped with reasoning and tool calls: content, in both.
pub proof fn law_assistant_line_is_content(line: Seq<char>)
    ensures
        line_assistant_delta(line) matches Some(t) ==> line_delta(line) == Some(DeltaView::Content(t)),
{
}


/// A live assistant event keeps all of its text: an `assistant` event with
/// `timestamp_ms` and no `model_call_id` whose text parts join to anything
/// non-empty (white space and line breaks included) carries exactly that
/// text, as reply content.
pub proof fn law_live_assistant_text_kept(v: Json, m: Json, parts: Vec<Json>)
    requires
        field_str(v, "type"@) == Some("assistant"@),
        field(v, "timestamp_ms"@) is Some,
        field(v, "model_call_id"@) is None,
        field(v, "message"@) == Some(m),
        field(m, "content"@) == Some(Json::Array(parts)),
        parts_text(parts@).len() > 0,
    ensures
        assistant_delta(v) == Some(parts_text(parts@)),
        event_delta(v) == Some(DeltaView::Content(parts_text(parts@))),
{
}

/// The text parts of a content array are joined whole and in order: adding
/// a `{"type":"text","text":t}` part appends exactly `t`.
pub proof fn law_parts_text_appends(parts: Seq<Json>, p: Json, t: Seq<char>)
    requires
        field_str(p, "type"@) == Some("text"@),
        field_str(p, "text"@) == Some(t),
    ensures
        parts_text(parts.push(p)) == parts_text(parts) + t,
{
    assert(parts.push(p).drop_last() =~= parts);
}


/// A thinking delta keeps all of its text: a `thinking` event of subtype
/// `delta` with non-empty `text` carries exactly that text, as reasoning.
pub proof fn law_thinking_text_kept(v: Json, t: Seq<char>)
    requires
        field_str(v, "type"@) == Some("thinking"@),
        field_str(v, "subtype"@) == Some("delta"@),
        field_str(v, "text"@) == Some(t),
        t.len() > 0,
    ensures
        event_delta(v) == Some(DeltaView::Reasoning(t)),
{
    reveal_strlit("assistant");
    reveal_strlit("thinking");
    assert("assistant"@ != "thinking"@) by {
        assert("assistant"@[0] != "thinking"@[0]);
    }
}

/// Lines are read in order: a further line adds its piece, if it has one,
/// after the pieces already read.
pub proof fn law_line_pieces_in_order(ls: Seq<Seq<char>>, l: Seq<char>)
    ensures
        deltas_of_lines(ls.push(l)) == deltas_of_lines(ls) + match line_delta(l) {
            Some(d) => seq![d],
            None => Seq::<DeltaView>::empty(),
        },
{
    assert(ls.push(l).drop_last() =~= ls);
}

/// A turn's reply and reasoning are assembled in order: a further reply
/// piece appends its text to the reply and leaves the reasoning as it was,
/// and a further reasoning piece does the reverse.
pub proof fn law_pieces_assemble_in_order(ds: Seq<DeltaView>, t: Seq<char>)
    ensures
        content_of(ds.push(DeltaView::Content(t))) == content_of(ds) + t,
        reasoning_of(ds.push(DeltaView::Content(t))) == reasoning_of(ds),
        reasoning_of(ds.push(DeltaView::Reasoning(t))) == reasoning_of(ds) + t,
        content_of(ds.push(DeltaView::Reasoning(t))) == content_of(ds),
{
    assert(ds.push(DeltaView::Content(t)).drop_last() =~= ds);
    assert(ds.push(DeltaView::Reasoning(t)).drop_last() =~= ds);
    assert(reasoning_of(ds) + Seq::<char>::empty() =~= reasoning_of(ds));
    assert(content_of(ds) + Seq::<char>::empty() =~= content_of(ds));
}

} // verus!
