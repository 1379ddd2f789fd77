//! The Pi RPC conversation: framing requests, reading replies and state, and sorting the
//! records Pi writes into replies and events.

use vstd::prelude::*;
use crate::catalog::{new_session_title, new_session_title_text};
use crate::json::{
    as_str, get, get_array, get_bool, get_str, has_type, insert_member, items_view, json_of_bytes,
    json_of_text, lookup, members_view, object, parse_json, parse_json_bytes, set_member, Json, JsonV,
};
use crate::protocol::ServerMessage;
use crate::text::{first_index_of, lemma_first_index_of, opt_view, owned, string_of, text_eq};

verus! {

/// Seconds a request waits for Pi's reply before it gives up.
pub const REQUEST_TIMEOUT_SECS: u64 = 25;

pub open spec fn is_lower_hex(c: char) -> bool {
    ||| 0x30 <= (c as int) <= 0x39
    ||| 0x61 <= (c as int) <= 0x66
}

/// A random UUID (version 4) in lowercase hyphenated form.
pub open spec fn is_uuid_v4_text(s: Seq<char>) -> bool {
    &&& s.len() == 36
    &&& forall|i: int|
        0 <= i < 36 ==> if i == 8 || i == 13 || i == 18 || i == 23 {
            #[trigger] s[i] == '-'
        } else {
            is_lower_hex(s[i])
        }
    &&& s[14] == '4'
    &&& (s[19] == '8' || s[19] == '9' || s[19] == 'a' || s[19] == 'b')
}

/// Calls `uuid::Uuid::new_v4` and renders it with `to_string`. Trusted: the text is a
/// lowercase hyphenated version-4 UUID, as the crate's `format_hyphenated` writes the bits
/// that `new_v4` sets. Which UUID comes is random and not stated. The crate panics when the
/// operating system's random source fails, which no `requires` can rule out.
#[verifier::external_body]
fn new_uuid() -> (r: String)
    ensures
        is_uuid_v4_text(r@),
{
    uuid::Uuid::new_v4().to_string()
}

/// A fresh identifier for a request or a running session.
pub fn new_id() -> (r: String)
    ensures
        is_uuid_v4_text(r@),
{
    new_uuid()
}

/// The members of a request's parameters: those of an object, none for any other value.
pub open spec fn params_members(params: JsonV) -> Seq<(Seq<char>, JsonV)> {
    match params {
        JsonV::Object(ms) => ms,
        _ => seq![],
    }
}

/// The request of the given kind: the parameters with "id" and "type" set.
pub open spec fn request_spec(kind: Seq<char>, params: JsonV, id: Seq<char>) -> JsonV {
    JsonV::Object(
        insert_member(
            insert_member(params_members(params), "id"@, JsonV::Str(id)),
            "type"@,
            JsonV::Str(kind),
        ),
    )
}

/// A request carries its id and its kind, and every other parameter as given.
pub proof fn lemma_request_reads(kind: Seq<char>, params: JsonV, id: Seq<char>, key: Seq<char>)
    ensures
        get(request_spec(kind, params, id), "id"@) == Some(JsonV::Str(id)),
        get(request_spec(kind, params, id), "type"@) == Some(JsonV::Str(kind)),
        key != "id"@ && key != "type"@ && params is Object ==> get(request_spec(kind, params, id), key)
            == get(params, key),
{
    let m0 = params_members(params);
    let m1 = insert_member(m0, "id"@, JsonV::Str(id));
    crate::json::lemma_insert_member_reads(m0, "id"@, JsonV::Str(id), key);
    crate::json::lemma_insert_member_reads(m1, "type"@, JsonV::Str(kind), "id"@);
    crate::json::lemma_insert_member_reads(m1, "type"@, JsonV::Str(kind), key);
    assert("id"@ != "type"@) by {
        reveal_strlit("id");
        reveal_strlit("type");
        assert("id"@.len() != "type"@.len());
    }
}

/// Applying the same state twice is applying it once.
pub proof fn lemma_apply_state_idempotent(s: RuntimeStateV, state: JsonV)
    ensures
        apply_state_spec(apply_state_spec(s, state), state) == apply_state_spec(s, state),
{
}

pub fn build_request(kind: &str, params: Json, id: &str) -> (r: Json)
    ensures
        r@ == request_spec(kind@, params@, id@),
{
    let ghost pv = params@;
    let mut ms = match params {
        Json::Object(ms) => {
            proof {
                crate::json::lemma_object_view(ms);
            }
            ms
        },
        _ => Vec::new(),
    };
    assert(members_view(ms@) =~= params_members(pv));
    set_member(&mut ms, "id", Json::text(id));
    set_member(&mut ms, "type", Json::text(kind));
    object(ms)
}

/// A new request of the given kind, with a fresh id; returns the id and the request.
pub fn new_request(kind: &str, params: Json) -> (r: (String, Json))
    ensures
        is_uuid_v4_text(r.0@),
        r.1@ == request_spec(kind@, params@, r.0@),
{
    let id = new_id();
    let body = build_request(kind, params, id.as_str());
    (id, body)
}

/// Why a request to Pi gave no data.
#[derive(Debug)]
pub enum RpcError {
    /// No reply came in time.
    TimedOut { kind: String },
    /// The process went away before it replied.
    Closed { kind: String },
    /// Pi replied that the request failed.
    Failed { message: String },
}

impl RpcError {
    pub open spec fn message_spec(&self) -> Seq<char> {
        match self {
            RpcError::TimedOut { kind } => "Pi RPC request timed out: "@ + kind@,
            RpcError::Closed { kind } => "Pi RPC process closed while waiting for "@ + kind@,
            RpcError::Failed { message } => message@,
        }
    }

    /// The text that reports this error.
    pub fn message(&self) -> (r: String)
        ensures
            r@ == self.message_spec(),
    {
        match self {
            RpcError::TimedOut { kind } => {
                let mut s = owned("Pi RPC request timed out: ");
                s.append(kind.as_str());
                s
            },
            RpcError::Closed { kind } => {
                let mut s = owned("Pi RPC process closed while waiting for ");
                s.append(kind.as_str());
                s
            },
            RpcError::Failed { message } => message.clone(),
        }
    }
}

/// What a reply gives: its data (null when it has none) when it says "success": true,
/// otherwise its "error" text or a general failure.
pub open spec fn reply_spec(response: JsonV) -> Result<JsonV, Seq<char>> {
    if get_bool(response, "success"@) == Some(true) {
        Ok(
            match get(response, "data"@) {
                Some(d) => d,
                None => JsonV::Null,
            },
        )
    } else {
        Err(
            match get_str(response, "error"@) {
                Some(e) => e,
                None => "Pi RPC request failed"@,
            },
        )
    }
}

pub fn reply_data(response: &Json) -> (r: Result<Json, RpcError>)
    ensures
        match r {
            Ok(d) => reply_spec(response@) == Ok::<JsonV, Seq<char>>(d@),
            Err(e) => e is Failed && reply_spec(response@) == Err::<JsonV, Seq<char>>(e.message_spec()),
        },
{
    let ok = match response.get("success") {
        Some(v) => v.as_bool(),
        None => None,
    };
    if ok == Some(true) {
        match response.get("data") {
            Some(d) => Ok(d.copy()),
            None => Ok(Json::Null),
        }
    } else {
        let message = match response.str_field("error") {
            Some(e) => e.clone(),
            None => owned("Pi RPC request failed"),
        };
        Err(RpcError::Failed { message })
    }
}

/// An object with one member.
pub fn single_member(key: &str, value: Json) -> (r: Json)
    ensures
        r@ == JsonV::Object(seq![(key@, value@)]),
{
    let mut ms: Vec<(String, Json)> = Vec::new();
    ms.push((owned(key), value));
    let r = object(ms);
    assert(members_view(ms@) =~= seq![(key@, value@)]);
    r
}

/// An object with no members.
pub fn empty_object() -> (r: Json)
    ensures
        r@ == JsonV::Object(seq![]),
{
    let ms: Vec<(String, Json)> = Vec::new();
    assert(members_view(ms@) =~= seq![]);
    object(ms)
}

/// The parameters of a prompt. Unless the behavior is "normal" and Pi is idle, they say how
/// the prompt joins the stream: "followUp" for "follow_up", otherwise "steer".
pub open spec fn prompt_params_spec(message: Seq<char>, behavior: Seq<char>, streaming: bool) -> JsonV {
    let base = seq![("message"@, JsonV::Str(message))];
    if behavior != "normal"@ || streaming {
        JsonV::Object(
            base.push(
                (
                    "streamingBehavior"@,
                    JsonV::Str(
                        if behavior == "follow_up"@ {
                            "followUp"@
                        } else {
                            "steer"@
                        },
                    ),
                ),
            ),
        )
    } else {
        JsonV::Object(base)
    }
}

pub fn prompt_params(message: &str, behavior: &str, streaming: bool) -> (r: Json)
    ensures
        r@ == prompt_params_spec(message@, behavior@, streaming),
{
    let mut ms: Vec<(String, Json)> = Vec::new();
    ms.push((owned("message"), Json::text(message)));
    if !text_eq(behavior, "normal") || streaming {
        let how = if text_eq(behavior, "follow_up") {
            owned("followUp")
        } else {
            owned("steer")
        };
        ms.push((owned("streamingBehavior"), Json::Str(how)));
    }
    let r = object(ms);
    assert(members_view(ms@) =~= params_members(prompt_params_spec(message@, behavior@, streaming)));
    r
}

/// The array member `key` of `data`, or no values.
pub open spec fn list_field_spec(data: JsonV, key: Seq<char>) -> Seq<JsonV> {
    match get_array(data, key) {
        Some(items) => items,
        None => seq![],
    }
}

pub fn list_field(data: &Json, key: &str) -> (r: Vec<Json>)
    ensures
        items_view(r@) == list_field_spec(data@, key@),
{
    match data.get(key) {
        Some(v) => match v.as_array() {
            Some(items) => crate::json::copy_all(items),
            None => {
                let r: Vec<Json> = Vec::new();
                assert(items_view(r@) =~= seq![]);
                r
            },
        },
        None => {
            let r: Vec<Json> = Vec::new();
            assert(items_view(r@) =~= seq![]);
            r
        },
    }
}

/// The entry that stands for a message in the timeline.
pub open spec fn timeline_entry(m: JsonV) -> JsonV {
    JsonV::Object(seq![("type"@, JsonV::Str("message"@)), ("message"@, m)])
}

/// The timeline made of the user messages, in order.
pub open spec fn timeline_spec(messages: Seq<JsonV>) -> Seq<JsonV>
    decreases messages.len(),
{
    if messages.len() == 0 {
        seq![]
    } else {
        let rest = timeline_spec(messages.drop_last());
        let m = messages.last();
        if get_str(m, "role"@) == Some("user"@) {
            rest.push(timeline_entry(m))
        } else {
            rest
        }
    }
}

pub fn timeline_from_messages(messages: &Vec<Json>) -> (r: Vec<Json>)
    ensures
        items_view(r@) == timeline_spec(items_view(messages@)),
{
    let ghost mv = items_view(messages@);
    let mut out: Vec<Json> = Vec::new();
    let mut i: usize = 0;
    assert(items_view(out@) =~= timeline_spec(mv.take(0)));
    while i < messages.len()
        invariant
            mv == items_view(messages@),
            i <= messages.len(),
            items_view(out@) == timeline_spec(mv.take(i as int)),
        decreases messages.len() - i,
    {
        let m = &messages[i];
        proof {
            assert(mv.take(i + 1).drop_last() =~= mv.take(i as int));
            assert(mv.take(i + 1).last() == m@);
        }
        let is_user = match m.str_field("role") {
            Some(role) => text_eq(role.as_str(), "user"),
            None => false,
        };
        if is_user {
            let mut ms: Vec<(String, Json)> = Vec::new();
            ms.push((owned("type"), Json::text("message")));
            ms.push((owned("message"), m.copy()));
            let e = object(ms);
            assert(members_view(ms@) =~= seq![("type"@, JsonV::Str("message"@)), ("message"@, m@)]);
            let ghost before = out@;
            out.push(e);
            assert(items_view(out@) =~= items_view(before).push(e@));
        }
        i = i + 1;
    }
    assert(mv.take(i as int) =~= mv);
    out
}

/// The timeline of a snapshot: the entries Pi lists when it answers "get_entries", otherwise
/// (older releases) the one made of the user messages.
pub fn snapshot_entries(entries_reply: Result<Json, RpcError>, messages: &Vec<Json>) -> (r: Vec<Json>)
    ensures
        items_view(r@) == match entries_reply {
            Ok(d) => list_field_spec(d@, "entries"@),
            Err(_) => timeline_spec(items_view(messages@)),
        },
{
    match entries_reply {
        Ok(data) => list_field(&data, "entries"),
        Err(_) => timeline_from_messages(messages),
    }
}

/// What the server knows of a running Pi session.
#[derive(Debug)]
pub struct RuntimeState {
    pub session_file: Option<String>,
    pub title: String,
    pub streaming: bool,
}

pub struct RuntimeStateV {
    pub session_file: Option<Seq<char>>,
    pub title: Seq<char>,
    pub streaming: bool,
}

impl View for RuntimeState {
    type V = RuntimeStateV;

    open spec fn view(&self) -> RuntimeStateV {
        RuntimeStateV {
            session_file: opt_view(self.session_file),
            title: self.title@,
            streaming: self.streaming,
        }
    }
}

/// What a "get_state" reply changes: the session file, the name, and whether Pi is streaming,
/// each only when the reply carries it.
pub open spec fn apply_state_spec(s: RuntimeStateV, state: JsonV) -> RuntimeStateV {
    RuntimeStateV {
        session_file: match get_str(state, "sessionFile"@) {
            Some(p) => Some(p),
            None => s.session_file,
        },
        title: match get_str(state, "sessionName"@) {
            Some(n) => n,
            None => s.title,
        },
        streaming: match get_bool(state, "isStreaming"@) {
            Some(b) => b,
            None => s.streaming,
        },
    }
}

/// Whether Pi streams after an event: it starts with "agent_start" and stops with
/// "agent_settled"; other events leave it as it was.
pub open spec fn streaming_after_spec(streaming: bool, event: JsonV) -> bool {
    if has_type(event, "agent_start"@) {
        true
    } else if has_type(event, "agent_settled"@) {
        false
    } else {
        streaming
    }
}

impl RuntimeState {
    /// The process has ended: Pi no longer streams.
    pub fn stop(&mut self)
        ensures
            final(self)@ == (RuntimeStateV { streaming: false, ..old(self)@ }),
    {
        self.streaming = false;
    }

    /// A session just started: resumed from `resume` when given, untitled, idle.
    pub fn new(resume: Option<&str>) -> (r: RuntimeState)
        ensures
            r@.session_file == match resume {
                Some(p) => Some(p@),
                None => None::<Seq<char>>,
            },
            r@.title == new_session_title(),
            !r@.streaming,
    {
        RuntimeState {
            session_file: match resume {
                Some(p) => Some(owned(p)),
                None => None,
            },
            title: new_session_title_text(),
            streaming: false,
        }
    }

    pub fn apply_state(&mut self, state: &Json)
        ensures
            final(self)@ == apply_state_spec(old(self)@, state@),
    {
        if let Some(p) = state.str_field("sessionFile") {
            self.session_file = Some(p.clone());
        }
        if let Some(n) = state.str_field("sessionName") {
            self.title = n.clone();
        }
        let streaming = match state.get("isStreaming") {
            Some(v) => v.as_bool(),
            None => None,
        };
        if let Some(b) = streaming {
            self.streaming = b;
        }
    }

    pub fn observe_event(&mut self, event: &Json)
        ensures
            final(self)@ == (RuntimeStateV {
                streaming: streaming_after_spec(old(self)@.streaming, event@),
                ..old(self)@
            }),
    {
        if event.has_type("agent_start") {
            self.streaming = true;
        } else if event.has_type("agent_settled") {
            self.streaming = false;
        }
    }
}

/// A record line without its line ending: one "\n", then one "\r", when present.
pub open spec fn strip_record_end_spec(b: Seq<u8>) -> Seq<u8> {
    let b1 = if b.len() > 0 && b.last() == 10u8 {
        b.drop_last()
    } else {
        b
    };
    if b1.len() > 0 && b1.last() == 13u8 {
        b1.drop_last()
    } else {
        b1
    }
}

pub fn strip_record_end(line: &mut Vec<u8>)
    ensures
        final(line)@ == strip_record_end_spec(old(line)@),
{
    if line.len() > 0 && line[line.len() - 1] == 10u8 {
        line.pop();
    }
    if line.len() > 0 && line[line.len() - 1] == 13u8 {
        line.pop();
    }
}

/// The id of a reply: a record of type "response" with a string "id".
pub open spec fn response_id_spec(record: JsonV) -> Option<Seq<char>> {
    if has_type(record, "response"@) {
        get_str(record, "id"@)
    } else {
        None
    }
}

pub fn response_id(record: &Json) -> (r: Option<String>)
    ensures
        opt_view(r) == response_id_spec(record@),
{
    if record.has_type("response") {
        match record.str_field("id") {
            Some(id) => Some(id.clone()),
            None => None,
        }
    } else {
        None
    }
}

/// The message that forwards a record of a session to the browser.
pub fn rpc_event(runtime_id: &str, event: Json) -> (r: ServerMessage)
    ensures
        r matches ServerMessage::RpcEvent { runtime_id: id, event: e } && id@ == runtime_id@
            && e@ == event@,
{
    ServerMessage::RpcEvent { runtime_id: owned(runtime_id), event }
}

/// The message that tells the browser a session's process has ended.
pub fn stopped_notice(runtime_id: &str) -> (r: ServerMessage)
    ensures
        r matches ServerMessage::Error { message } && message@ == "Session "@ + runtime_id@
            + " stopped"@,
{
    let mut message = owned("Session ");
    message.append(runtime_id);
    message.append(" stopped");
    ServerMessage::Error { message }
}

/// The arguments that start Pi in RPC mode, resuming the session file when given.
pub open spec fn launch_args_spec(resume: Option<Seq<char>>) -> Seq<Seq<char>> {
    let base = seq!["--mode"@, "rpc"@];
    match resume {
        Some(p) => base + seq!["--session"@, p],
        None => base,
    }
}

pub fn launch_args(resume: Option<&str>) -> (r: Vec<String>)
    ensures
        r@.map_values(|s: String| s@) == launch_args_spec(
            match resume {
                Some(p) => Some(p@),
                None => None,
            },
        ),
{
    let mut args: Vec<String> = Vec::new();
    args.push(owned("--mode"));
    args.push(owned("rpc"));
    if let Some(p) = resume {
        args.push(owned("--session"));
        args.push(owned(p));
    }
    assert(args@.map_values(|s: String| s@) =~= launch_args_spec(
        match resume {
            Some(p) => Some(p@),
            None => None,
        },
    ));
    args
}

/// The first line of a text, as `str::lines` gives it: up to the first "\n", without a "\r"
/// before that "\n"; nothing for an empty text.
pub open spec fn first_line_spec(content: Seq<char>) -> Option<Seq<char>> {
    if content.len() == 0 {
        None
    } else {
        let i = first_index_of(content, '\n');
        if i < 0 {
            Some(content)
        } else {
            let line = content.take(i);
            if line.len() > 0 && line.last() == '\r' {
                Some(line.drop_last())
            } else {
                Some(line)
            }
        }
    }
}

pub fn first_line(content: &str) -> (r: Option<String>)
    ensures
        opt_view(r) == first_line_spec(content@),
{
    let v = crate::text::chars_of(content);
    if v.len() == 0 {
        return None;
    }
    let mut i: usize = 0;
    while i < v.len() && v[i] != '\n'
        invariant
            i <= v.len(),
            forall|j: int| 0 <= j < i ==> v@[j] != '\n',
        decreases v.len() - i,
    {
        i = i + 1;
    }
    proof {
        lemma_first_index_of(v@, '\n', i as int);
    }
    if i == v.len() {
        assert(v@.take(i as int) =~= v@);
        return Some(string_of(v.as_slice()));
    }
    let mut end = i;
    if end > 0 && v[end - 1] == '\r' {
        end = end - 1;
    }
    let line = string_of(&v.as_slice()[0..end]);
    assert(line@ =~= if end < i { v@.take(i as int).drop_last() } else { v@.take(i as int) });
    Some(line)
}

/// The working directory a session file records in its header line.
pub fn session_cwd(header: &Json) -> (r: Option<String>)
    ensures
        opt_view(r) == get_str(header@, "cwd"@),
{
    match header.str_field("cwd") {
        Some(c) => Some(c.clone()),
        None => None,
    }
}

/// What the first line of a session file records as its working directory: the header's
/// string "cwd", when the first line is JSON.
pub open spec fn session_cwd_spec(content: Seq<char>) -> Option<Seq<char>> {
    match first_line_spec(content) {
        None => None,
        Some(line) => match json_of_text(line) {
            None => None,
            Some(v) => get_str(v, "cwd"@),
        },
    }
}

/// The working directory recorded in the first line of a session file's content.
pub fn session_cwd_of(content: &str) -> (r: Option<String>)
    ensures
        opt_view(r) == session_cwd_spec(content@),
{
    let line = match first_line(content) {
        Some(l) => l,
        None => return None,
    };
    match parse_json(line.as_str()) {
        Some(header) => session_cwd(&header),
        None => None,
    }
}

/// Whether no two entries have the same id.
pub open spec fn distinct_ids<T>(es: Seq<(String, T)>) -> bool {
    forall|i: int, j: int| 0 <= i < j < es.len() ==> (#[trigger] es[i]).0@ != (#[trigger] es[j]).0@
}

/// The map from id to waiter that a list of entries stands for.
pub open spec fn entries_map<T>(es: Seq<(String, T)>) -> Map<Seq<char>, T>
    decreases es.len(),
{
    if es.len() == 0 {
        Map::empty()
    } else {
        entries_map(es.drop_last()).insert(es.last().0@, es.last().1)
    }
}

proof fn lemma_entries_dom<T>(es: Seq<(String, T)>, k: Seq<char>)
    ensures
        entries_map(es).dom().contains(k) <==> exists|i: int| 0 <= i < es.len() && (#[trigger] es[i]).0@ == k,
    decreases es.len(),
{
    if es.len() > 0 {
        lemma_entries_dom(es.drop_last(), k);
        if entries_map(es.drop_last()).dom().contains(k) {
            let i = choose|i: int| 0 <= i < es.drop_last().len() && (#[trigger] es.drop_last()[i]).0@ == k;
            assert(es[i] == es.drop_last()[i]);
        }
        if exists|i: int| 0 <= i < es.len() && (#[trigger] es[i]).0@ == k {
            let i = choose|i: int| 0 <= i < es.len() && (#[trigger] es[i]).0@ == k;
            if i < es.len() - 1 {
                assert(es.drop_last()[i] == es[i]);
            }
        }
    }
}

proof fn lemma_entries_at<T>(es: Seq<(String, T)>, i: int)
    requires
        distinct_ids(es),
        0 <= i < es.len(),
    ensures
        entries_map(es).dom().contains(es[i].0@),
        entries_map(es)[es[i].0@] == es[i].1,
        entries_map(es.remove(i)) == entries_map(es).remove(es[i].0@),
    decreases es.len(),
{
    let k = es[i].0@;
    let p = es.drop_last();
    assert(distinct_ids(p)) by {
        assert forall|a: int, b: int| 0 <= a < b < p.len() implies (#[trigger] p[a]).0@ != (#[trigger] p[b]).0@ by {
            assert(p[a] == es[a] && p[b] == es[b]);
        }
    }
    if i == es.len() - 1 {
        assert(!entries_map(p).dom().contains(k)) by {
            lemma_entries_dom(p, k);
            if exists|j: int| 0 <= j < p.len() && (#[trigger] p[j]).0@ == k {
                let j = choose|j: int| 0 <= j < p.len() && (#[trigger] p[j]).0@ == k;
                assert(p[j] == es[j]);
            }
        }
        assert(es.remove(i) =~= p);
        assert(entries_map(p).insert(k, es[i].1).remove(k) =~= entries_map(p));
    } else {
        lemma_entries_at(p, i);
        assert(p[i] == es[i]);
        let l = es.last();
        assert(l.0@ != k);
        let r = es.remove(i);
        assert(r.len() > 0);
        assert(r.drop_last() =~= p.remove(i));
        assert(r.last() == l);
        assert(entries_map(r) == entries_map(p.remove(i)).insert(l.0@, l.1));
        assert(entries_map(p).remove(k).insert(l.0@, l.1) =~= entries_map(p).insert(l.0@, l.1).remove(k));
    }
}

/// The requests that wait for a reply: each id with what waits for it.
pub struct Pending<T> {
    entries: Vec<(String, T)>,
}

impl<T> View for Pending<T> {
    type V = Map<Seq<char>, T>;

    closed spec fn view(&self) -> Map<Seq<char>, T> {
        entries_map(self.entries@)
    }
}

impl<T> Pending<T> {
    /// Whether the entries are well formed: each id at most once.
    pub closed spec fn wf(&self) -> bool {
        distinct_ids(self.entries@)
    }

    /// No request waits.
    pub fn new() -> (r: Pending<T>)
        ensures
            r.wf(),
            r@ == Map::<Seq<char>, T>::empty(),
    {
        Pending { entries: Vec::new() }
    }

    /// The number of requests that wait.
    pub fn len(&self) -> (r: usize)
        requires
            self.wf(),
        ensures
            r == self@.len(),
    {
        proof {
            self.lemma_len();
        }
        self.entries.len()
    }

    proof fn lemma_len(&self)
        requires
            self.wf(),
        ensures
            self@.len() == self.entries@.len(),
            self@.dom().finite(),
    {
        let es = self.entries@;
        lemma_entries_len(es);
    }

    /// Takes out what waits for `id`, if anything does.
    pub fn take(&mut self, id: &str) -> (r: Option<T>)
        requires
            old(self).wf(),
        ensures
            final(self).wf(),
            match r {
                Some(w) => old(self)@.contains_key(id@) && w == old(self)@[id@],
                None => !old(self)@.contains_key(id@),
            },
            final(self)@ == old(self)@.remove(id@),
    {
        let ghost es = self.entries@;
        let mut i: usize = 0;
        while i < self.entries.len()
            invariant
                es == self.entries@,
                es == old(self).entries@,
                distinct_ids(es),
                i <= es.len(),
                forall|j: int| 0 <= j < i ==> (#[trigger] es[j]).0@ != id@,
            decreases es.len() - i,
        {
            if text_eq(self.entries[i].0.as_str(), id) {
                proof {
                    lemma_entries_at(es, i as int);
                }
                let (_, w) = self.entries.remove(i);
                assert(distinct_ids(self.entries@)) by {
                    let r = self.entries@;
                    assert forall|a: int, b: int| 0 <= a < b < r.len() implies (#[trigger] r[a]).0@ != (#[trigger] r[b]).0@ by {
                        let a2 = if a < i { a } else { a + 1 };
                        let b2 = if b < i { b } else { b + 1 };
                        assert(r[a] == es[a2] && r[b] == es[b2]);
                    }
                }
                return Some(w);
            }
            i = i + 1;
        }
        proof {
            lemma_entries_dom(es, id@);
            assert(entries_map(es).remove(id@) =~= entries_map(es));
        }
        None
    }

    /// Records that `waiter` waits for the reply to `id`, in place of anything that waited
    /// for it before.
    pub fn insert(&mut self, id: String, waiter: T)
        requires
            old(self).wf(),
        ensures
            final(self).wf(),
            final(self)@ == old(self)@.insert(id@, waiter),
    {
        let _ = self.take(id.as_str());
        let ghost es = self.entries@;
        proof {
            lemma_entries_dom(es, id@);
        }
        self.entries.push((id, waiter));
        proof {
            let r = self.entries@;
            assert(r.drop_last() =~= es);
            assert forall|a: int, b: int| 0 <= a < b < r.len() implies (#[trigger] r[a]).0@ != (#[trigger] r[b]).0@ by {
                if b == r.len() - 1 {
                    assert(r[a] == es[a]);
                } else {
                    assert(r[a] == es[a] && r[b] == es[b]);
                }
            }
            assert(entries_map(es).insert(id@, waiter) =~= old(self)@.remove(id@).insert(id@, waiter));
            assert(old(self)@.remove(id@).insert(id@, waiter) =~= old(self)@.insert(id@, waiter));
        }
    }
}

proof fn lemma_entries_len<T>(es: Seq<(String, T)>)
    requires
        distinct_ids(es),
    ensures
        entries_map(es).dom().finite(),
        entries_map(es).len() == es.len(),
    decreases es.len(),
{
    if es.len() > 0 {
        let p = es.drop_last();
        assert(distinct_ids(p)) by {
            assert forall|a: int, b: int| 0 <= a < b < p.len() implies (#[trigger] p[a]).0@ != (#[trigger] p[b]).0@ by {
                assert(p[a] == es[a] && p[b] == es[b]);
            }
        }
        lemma_entries_len(p);
        lemma_entries_dom(p, es.last().0@);
        if entries_map(p).dom().contains(es.last().0@) {
            let j = choose|j: int| 0 <= j < p.len() && (#[trigger] p[j]).0@ == es.last().0@;
            assert(p[j] == es[j]);
        }
    }
}

/// A request whose write failed is withdrawn: recording a waiter for a fresh id and then
/// taking it out gives that waiter back and leaves the pending requests as they were.
pub proof fn lemma_withdrawn_request<T>(pending: Map<Seq<char>, T>, id: Seq<char>, waiter: T)
    requires
        !pending.contains_key(id),
    ensures
        pending.insert(id, waiter).contains_key(id),
        pending.insert(id, waiter)[id] == waiter,
        pending.insert(id, waiter).remove(id) == pending,
{
    assert(pending.insert(id, waiter).remove(id) =~= pending);
}

/// A record Pi wrote, as routed: not JSON, the reply to a waiting request (with what waits
/// for it), or an event for the browser.
pub enum Routed<T> {
    Malformed,
    Reply { waiter: T, record: Json },
    Event { record: Json },
}

/// Routing one line of Pi's output: its line ending is cut off and it is read as JSON. A reply
/// whose id has a waiting request goes to it, and the request stops waiting; any other
/// record is an event; a line that is not JSON is passed over.
pub fn route_record<T>(pending: &mut Pending<T>, line: &mut Vec<u8>) -> (r: Routed<T>)
    requires
        old(pending).wf(),
    ensures
        final(pending).wf(),
        final(line)@ == strip_record_end_spec(old(line)@),
        match json_of_bytes(strip_record_end_spec(old(line)@)) {
            None => r is Malformed && final(pending)@ == old(pending)@,
            Some(v) => match response_id_spec(v) {
                Some(id) if old(pending)@.contains_key(id) => (r matches Routed::Reply {
                    waiter,
                    record,
                } && waiter == old(pending)@[id] && record@ == v) && final(pending)@ == old(
                    pending,
                )@.remove(id),
                _ => (r matches Routed::Event { record } && record@ == v) && final(pending)@
                    == old(pending)@,
            },
        },
{
    strip_record_end(line);
    let record = match parse_json_bytes(line.as_slice()) {
        Some(v) => v,
        None => return Routed::Malformed,
    };
    if let Some(id) = response_id(&record) {
        if let Some(waiter) = pending.take(id.as_str()) {
            return Routed::Reply { waiter, record };
        }
    }
    Routed::Event { record }
}

/// How a prompt joins Pi's stream. Its parameters carry the message; they say how the prompt
/// joins exactly when the behavior is not "normal" or Pi is streaming; and then they say
/// "followUp" exactly when the behavior is "follow_up" (whether Pi streams or not), and
/// "steer" otherwise.
pub proof fn lemma_prompt_joins_stream(message: Seq<char>, behavior: Seq<char>, streaming: bool)
    ensures
        get_str(prompt_params_spec(message, behavior, streaming), "message"@) == Some(message),
        get(prompt_params_spec(message, behavior, streaming), "streamingBehavior"@) is Some <==> (
        behavior != "normal"@ || streaming),
        get_str(prompt_params_spec(message, behavior, streaming), "streamingBehavior"@) == Some(
            "followUp"@,
        ) <==> ((behavior != "normal"@ || streaming) && behavior == "follow_up"@),
        get_str(prompt_params_spec(message, behavior, streaming), "streamingBehavior"@) == Some(
            "steer"@,
        ) <==> ((behavior != "normal"@ || streaming) && behavior != "follow_up"@),
{
    reveal_strlit("message");
    reveal_strlit("streamingBehavior");
    reveal_strlit("followUp");
    reveal_strlit("steer");
    assert("message"@ != "streamingBehavior"@) by {
        assert("message"@.len() != "streamingBehavior"@.len());
    }
    assert("followUp"@ != "steer"@) by {
        assert("followUp"@.len() != "steer"@.len());
    }
    let base = seq![("message"@, JsonV::Str(message))];
    assert(base.drop_first() =~= Seq::<(Seq<char>, JsonV)>::empty());
    if behavior != "normal"@ || streaming {
        let how = if behavior == "follow_up"@ {
            "followUp"@
        } else {
            "steer"@
        };
        let ms = base.push(("streamingBehavior"@, JsonV::Str(how)));
        assert(ms[0] == ("message"@, JsonV::Str(message)));
        assert(ms.drop_first() =~= seq![("streamingBehavior"@, JsonV::Str(how))]);
        assert(ms.drop_first().drop_first() =~= Seq::<(Seq<char>, JsonV)>::empty());
        assert(ms.drop_first()[0].0 == "streamingBehavior"@);
        assert(lookup(ms.drop_first(), "streamingBehavior"@) == Some(JsonV::Str(how)));
        assert(lookup(ms, "streamingBehavior"@) == lookup(ms.drop_first(), "streamingBehavior"@));
        assert(lookup(ms, "message"@) == Some(JsonV::Str(message)));
    } else {
        assert(lookup(base.drop_first(), "streamingBehavior"@) is None);
        assert(lookup(base, "streamingBehavior"@) == lookup(base.drop_first(), "streamingBehavior"@));
        assert(lookup(base, "message"@) == Some(JsonV::Str(message)));
    }
}

/// The messages whose "role" is the string "user", in order.
pub open spec fn user_messages(ms: Seq<JsonV>) -> Seq<JsonV> {
    ms.filter(|m: JsonV| get_str(m, "role"@) == Some("user"@))
}

/// The timeline made from messages is the user messages, in order, each as an entry of type
/// "message" that holds it; a message of any other role gives no entry.
pub proof fn lemma_timeline_is_user_messages(ms: Seq<JsonV>)
    ensures
        timeline_spec(ms).len() == user_messages(ms).len(),
        forall|i: int|
            0 <= i < timeline_spec(ms).len() ==> #[trigger] timeline_spec(ms)[i] == JsonV::Object(
                seq![("type"@, JsonV::Str("message"@)), ("message"@, user_messages(ms)[i])],
            ),
    decreases ms.len(),
{
    reveal(Seq::filter);
    if ms.len() > 0 {
        lemma_timeline_is_user_messages(ms.drop_last());
    }
}

/// Only an "agent_start" record sets streaming and only an "agent_settled" record clears it;
/// a record of any other type leaves the flag as it was.
pub proof fn lemma_streaming_follows_agent(streaming: bool, event: JsonV)
    ensures
        has_type(event, "agent_start"@) ==> streaming_after_spec(streaming, event),
        has_type(event, "agent_settled"@) ==> !streaming_after_spec(streaming, event),
        !has_type(event, "agent_start"@) && !has_type(event, "agent_settled"@)
            ==> streaming_after_spec(streaming, event) == streaming,
{
    reveal_strlit("agent_start");
    reveal_strlit("agent_settled");
    assert("agent_start"@ != "agent_settled"@) by {
        assert("agent_start"@.len() != "agent_settled"@.len());
    }
}

} // verus!
