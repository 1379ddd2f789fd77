//! Session catalog: titles, session-file summaries, and their order.

use vstd::prelude::*;
use crate::json::{
    as_i64, as_str, get, get_str, has_type, items_view, json_of_text, parse_json, Json, JsonV,
};
use crate::paths::{extension_spec, is_session_file};
use crate::protocol::{summaries_view, SessionSummary, SummaryV};
use crate::text::{
    is_one_line, lemma_one_line_fixed, lemma_one_line_is_one_line, collapse_whitespace, is_ws, join, lemma_text_lt_asymmetric, lemma_text_lt_total,
    lemma_text_lt_transitive, one_line, owned, push_text, string_of, text_eq, text_less, text_lt,
    trim, trim_spec,
};

verus! {

/// The title a session carries until it is named: "新对话".
pub open spec fn new_session_title() -> Seq<char> {
    seq!['新', '对', '话']
}

pub fn new_session_title_text() -> (r: String)
    ensures
        r@ == new_session_title(),
{
    let mut s = String::new();
    s.push('新');
    s.push('对');
    s.push('话');
    assert(s@ =~= new_session_title());
    s
}

/// The number of characters a title keeps before it is cut short.
pub const TITLE_LIMIT: usize = 42;

/// A title made of `input`: one line, at most `TITLE_LIMIT` characters plus an ellipsis,
/// and "新对话" when nothing is left.
pub open spec fn compact_title_spec(input: Seq<char>) -> Seq<char> {
    let line = one_line(input);
    let title = if line.len() > TITLE_LIMIT {
        line.take(TITLE_LIMIT as int).push('…')
    } else {
        line
    };
    if title.len() == 0 {
        new_session_title()
    } else {
        title
    }
}

/// Compacting a title again changes nothing: `compact_title_spec` is idempotent.
pub proof fn lemma_compact_title_idempotent(input: Seq<char>)
    ensures
        compact_title_spec(compact_title_spec(input)) == compact_title_spec(input),
{
    let line = one_line(input);
    lemma_one_line_is_one_line(input);
    let t = compact_title_spec(input);
    if line.len() == 0 {
        let n = new_session_title();
        assert(is_one_line(n)) by {
            assert forall|i: int| 0 <= i < n.len() implies !is_ws(#[trigger] n[i]) || n[i] == ' ' by {}
        }
        lemma_one_line_fixed(n);
    } else if line.len() > TITLE_LIMIT {
        let k = line.take(TITLE_LIMIT as int);
        assert(t == k.push('…'));
        assert(is_one_line(t)) by {
            assert forall|i: int| 0 <= i < t.len() implies !is_ws(#[trigger] t[i]) || t[i] == ' ' by {
                if i < k.len() {
                    assert(t[i] == line[i]);
                }
            }
            assert forall|i: int| 0 <= i < t.len() - 1 implies !(#[trigger] t[i] == ' ' && t[i + 1] == ' ') by {
                if i < k.len() - 1 {
                    assert(t[i] == line[i] && t[i + 1] == line[i + 1]);
                }
            }
            assert(t[0] == line[0]);
        }
        lemma_one_line_fixed(t);
        assert(t.take(TITLE_LIMIT as int) =~= k);
    } else {
        lemma_one_line_fixed(line);
    }
}

pub fn compact_title(input: &str) -> (r: String)
    ensures
        r@ == compact_title_spec(input@),
        0 < r@.len() <= TITLE_LIMIT + 1,
        forall|j: int| 0 <= j < r@.len() ==> !is_ws(#[trigger] r@[j]) || r@[j] == ' ',
{
    let line = collapse_whitespace(input);
    if line.len() == 0 {
        return new_session_title_text();
    }
    if line.len() > TITLE_LIMIT {
        let mut title = string_of(&line.as_slice()[0..TITLE_LIMIT]);
        title.push('…');
        proof {
            assert(line@.subrange(0, TITLE_LIMIT as int) =~= line@.take(TITLE_LIMIT as int));
        }
        title
    } else {
        string_of(line.as_slice())
    }
}


/// The RFC 3339 text of the instant `ms` milliseconds after the Unix epoch, or nothing when
/// the instant is out of range: the result of chrono's `DateTime::<Utc>::from_timestamp_millis`
/// followed by `to_rfc3339`.
pub uninterp spec fn rfc3339_from_millis(ms: i64) -> Option<Seq<char>>;

/// Calls `chrono::DateTime::<Utc>::from_timestamp_millis` and renders the instant with
/// `to_rfc3339`. Trusted: the result is `rfc3339_from_millis(ms)`, and it is present for every
/// instant from 1970 to the end of year 9999 (chrono's range reaches years far beyond both
/// ends). The text itself is not stated.
#[verifier::external_body]
fn millis_to_rfc3339(ms: i64) -> (r: Option<String>)
    ensures
        match r {
            Some(s) => rfc3339_from_millis(ms) == Some(s@),
            None => rfc3339_from_millis(ms) is None,
        },
        0 <= ms <= 253402300799999 ==> r is Some,
{
    match chrono::DateTime::<chrono::Utc>::from_timestamp_millis(ms) {
        Some(t) => Some(t.to_rfc3339()),
        None => None,
    }
}

/// The texts of the blocks of type "text", in order.
pub open spec fn block_texts(items: Seq<JsonV>) -> Seq<Seq<char>>
    decreases items.len(),
{
    if items.len() == 0 {
        seq![]
    } else {
        let rest = block_texts(items.drop_last());
        let b = items.last();
        if has_type(b, "text"@) {
            match get_str(b, "text"@) {
                Some(t) => rest.push(t),
                None => rest,
            }
        } else {
            rest
        }
    }
}

/// The text of a message's content: the content itself when it is a string, or the texts of
/// its "text" blocks joined by newlines when that is not empty.
pub open spec fn extract_text_spec(content: JsonV) -> Option<Seq<char>> {
    match content {
        JsonV::Str(s) => Some(s),
        JsonV::Array(items) => {
            let t = join(block_texts(items), seq!['\n']);
            if t.len() > 0 {
                Some(t)
            } else {
                None
            }
        },
        _ => None,
    }
}

pub fn extract_text(content: &Json) -> (r: Option<String>)
    ensures
        match r {
            Some(s) => extract_text_spec(content@) == Some(s@),
            None => extract_text_spec(content@) is None,
        },
{
    if let Some(text) = content.as_str() {
        return Some(text.clone());
    }
    let items = match content.as_array() {
        Some(items) => items,
        None => return None,
    };
    let ghost iv = items_view(items@);
    let mut out: Vec<char> = Vec::new();
    let mut parts: usize = 0;
    let mut i: usize = 0;
    while i < items.len()
        invariant
            iv == items_view(items@),
            i <= items.len(),
            parts <= i,
            parts == block_texts(iv.take(i as int)).len(),
            out@ == join(block_texts(iv.take(i as int)), seq!['\n']),
        decreases items.len() - i,
    {
        let b = &items[i];
        proof {
            assert(iv.take(i + 1).drop_last() =~= iv.take(i as int));
            assert(iv.take(i + 1).last() == b@);
        }
        if b.has_type("text") {
            if let Some(t) = b.str_field("text") {
                proof {
                    crate::text::lemma_join_push(block_texts(iv.take(i as int)), seq!['\n'], t@);
                }
                if parts > 0 {
                    out.push('\n');
                }
                push_text(&mut out, t.as_str());
                parts = parts + 1;
            }
        }
        i = i + 1;
    }
    assert(iv.take(i as int) =~= iv);
    if out.len() > 0 {
        Some(string_of(out.as_slice()))
    } else {
        None
    }
}

/// When a session entry happened: the message's millisecond timestamp when it has one,
/// otherwise the entry's own "timestamp" text.
pub open spec fn message_timestamp_spec(entry: JsonV) -> Option<Seq<char>> {
    let ms = match get(entry, "message"@) {
        Some(m) => match get(m, "timestamp"@) {
            Some(t) => as_i64(t),
            None => None,
        },
        None => None,
    };
    match ms {
        Some(n) => rfc3339_from_millis(n as i64),
        None => get_str(entry, "timestamp"@),
    }
}

pub fn message_timestamp(entry: &Json) -> (r: Option<String>)
    ensures
        match r {
            Some(s) => message_timestamp_spec(entry@) == Some(s@),
            None => message_timestamp_spec(entry@) is None,
        },
{
    if let Some(message) = entry.get("message") {
        if let Some(t) = message.get("timestamp") {
            if let Some(ms) = t.as_i64() {
                return millis_to_rfc3339(ms);
            }
        }
    }
    match entry.str_field("timestamp") {
        Some(s) => Some(s.clone()),
        None => None,
    }
}

/// The name a "session_info" entry gives, trimmed, when it is not empty.
pub open spec fn session_name_spec(entry: JsonV) -> Option<Seq<char>> {
    match get_str(entry, "name"@) {
        Some(n) => if trim_spec(n).len() > 0 {
            Some(trim_spec(n))
        } else {
            None
        },
        None => None,
    }
}

fn session_name(entry: &Json) -> (r: Option<String>)
    ensures
        match r {
            Some(s) => session_name_spec(entry@) == Some(s@),
            None => session_name_spec(entry@) is None,
        },
{
    match entry.str_field("name") {
        Some(n) => {
            let t = trim(n.as_str());
            if !t.as_str().is_empty() {
                Some(t)
            } else {
                None
            }
        },
        None => None,
    }
}

/// What reading a session file has found so far.
pub enum ScanState {
    /// The file is not a readable session.
    Rejected,
    Open {
        header: Option<JsonV>,
        title: Option<Seq<char>>,
        first_user: Option<Seq<char>>,
        count: nat,
        last: Option<Seq<char>>,
    },
}

/// Reading one more line of a session file. A line that is not JSON changes nothing. The first
/// JSON line must be the "session" header. After it, a "session_info" entry names the session
/// (or clears the name), and each "message" entry is counted, moves the last activity time,
/// and, while no user message has given a title, a user message's text gives one. A message
/// entry without a message, or a first user message without content, rejects the file.
pub open spec fn scan_step(st: ScanState, line: Option<JsonV>) -> ScanState {
    match st {
        ScanState::Rejected => ScanState::Rejected,
        ScanState::Open { header, title, first_user, count, last } => match line {
            None => st,
            Some(v) => if header is None {
                if has_type(v, "session"@) {
                    ScanState::Open { header: Some(v), title, first_user, count, last }
                } else {
                    ScanState::Rejected
                }
            } else {
                let title = if has_type(v, "session_info"@) {
                    session_name_spec(v)
                } else {
                    title
                };
                if !has_type(v, "message"@) {
                    ScanState::Open { header, title, first_user, count, last }
                } else {
                    let count = count + 1;
                    let last = match message_timestamp_spec(v) {
                        Some(t) => Some(t),
                        None => last,
                    };
                    match get(v, "message"@) {
                        None => ScanState::Rejected,
                        Some(m) => if first_user is None && get_str(m, "role"@) == Some("user"@) {
                            match get(m, "content"@) {
                                None => ScanState::Rejected,
                                Some(c) => ScanState::Open {
                                    header,
                                    title,
                                    first_user: match extract_text_spec(c) {
                                        Some(t) => Some(compact_title_spec(t)),
                                        None => None,
                                    },
                                    count,
                                    last,
                                },
                            }
                        } else {
                            ScanState::Open { header, title, first_user, count, last }
                        },
                    }
                }
            },
        },
    }
}

/// Reading all the lines of a session file, in order.
pub open spec fn scan_lines(lines: Seq<Option<JsonV>>) -> ScanState
    decreases lines.len(),
{
    if lines.len() == 0 {
        ScanState::Open { header: None, title: None, first_user: None, count: 0, last: None }
    } else {
        scan_step(scan_lines(lines.drop_last()), lines.last())
    }
}

/// The lines of a file, each parsed as JSON or not.
pub open spec fn lines_view(lines: Seq<Option<Json>>) -> Seq<Option<JsonV>> {
    lines.map_values(|l: Option<Json>| match l {
        Some(j) => Some(j@),
        None => None,
    })
}

/// The summary of the session file at `path` with the given lines; `fallback_modified` is
/// its modification time when no message tells one. Nothing when the file is not a session
/// or its header has no string "id".
pub open spec fn parse_session_spec(
    path: Seq<char>,
    lines: Seq<Option<JsonV>>,
    fallback_modified: Seq<char>,
) -> Option<SummaryV> {
    match scan_lines(lines) {
        ScanState::Rejected => None,
        ScanState::Open { header, title, first_user, count, last } => match header {
            None => None,
            Some(h) => match get_str(h, "id"@) {
                None => None,
                Some(id) => Some(
                    SummaryV {
                        catalog_id: id,
                        runtime_id: None,
                        title: match title {
                            Some(t) => t,
                            None => match first_user {
                                Some(t) => t,
                                None => new_session_title(),
                            },
                        },
                        cwd: match get_str(h, "cwd"@) {
                            Some(c) => c,
                            None => seq![],
                        },
                        created_at: match get_str(h, "timestamp"@) {
                            Some(c) => c,
                            None => seq![],
                        },
                        modified_at: match last {
                            Some(t) => t,
                            None => fallback_modified,
                        },
                        message_count: count,
                        running: false,
                        path: Some(path),
                    },
                ),
            },
        },
    }
}

proof fn lemma_rejected_stays(lines: Seq<Option<JsonV>>, i: int)
    requires
        0 <= i <= lines.len(),
        scan_lines(lines.take(i)) is Rejected,
    ensures
        scan_lines(lines) is Rejected,
    decreases lines.len() - i,
{
    if i == lines.len() {
        assert(lines.take(i) =~= lines);
    } else {
        assert(lines.take(i + 1).drop_last() =~= lines.take(i));
        lemma_rejected_stays(lines, i + 1);
    }
}

fn opt_text(o: Option<&String>) -> (r: String)
    ensures
        r@ == match o {
            Some(s) => s@,
            None => Seq::<char>::empty(),
        },
{
    match o {
        Some(s) => s.clone(),
        None => String::new(),
    }
}

/// The summary of a session file, from its lines taken as JSON values (or not JSON).
pub fn summarize_session(path: &str, lines: &Vec<Option<Json>>, fallback_modified: &str) -> (r:
    Option<SessionSummary>)
    ensures
        match r {
            Some(s) => parse_session_spec(path@, lines_view(lines@), fallback_modified@) == Some(
                s@,
            ),
            None => parse_session_spec(path@, lines_view(lines@), fallback_modified@) is None,
        },
{
    let ghost lv = lines_view(lines@);
    let mut header: Option<&Json> = None;
    let mut title: Option<String> = None;
    let mut first_user: Option<String> = None;
    let mut count: usize = 0;
    let mut last: Option<String> = None;
    let mut i: usize = 0;
    assert(lv.take(0).len() == 0);
    while i < lines.len()
        invariant
            lv == lines_view(lines@),
            i <= lines.len(),
            count <= i,
            scan_lines(lv.take(i as int)) == (ScanState::Open {
                header: match header {
                    Some(h) => Some(h@),
                    None => None,
                },
                title: crate::text::opt_view(title),
                first_user: crate::text::opt_view(first_user),
                count: count as nat,
                last: crate::text::opt_view(last),
            }),
        decreases lines.len() - i,
    {
        proof {
            assert(lv.take(i + 1).drop_last() =~= lv.take(i as int));
            assert(lv.take(i + 1).last() == lv[i as int]);
        }
        let ghost before = scan_lines(lv.take(i as int));
        if let Some(value) = &lines[i] {
            assert(lv[i as int] == Some(value@));
            if header.is_none() {
                if !value.has_type("session") {
                    proof {
                        lemma_rejected_stays(lv, i + 1);
                    }
                    return None;
                }
                header = Some(value);
            } else {
                if value.has_type("session_info") {
                    title = session_name(value);
                }
                if value.has_type("message") {
                    count = count + 1;
                    if let Some(t) = message_timestamp(value) {
                        last = Some(t);
                    }
                    let message = match value.get("message") {
                        Some(m) => m,
                        None => {
                            proof {
                                lemma_rejected_stays(lv, i + 1);
                            }
                            return None;
                        },
                    };
                    if first_user.is_none() {
                        let is_user = match message.str_field("role") {
                            Some(role) => crate::text::text_eq(role.as_str(), "user"),
                            None => false,
                        };
                        if is_user {
                            let content = match message.get("content") {
                                Some(c) => c,
                                None => {
                                    proof {
                                        lemma_rejected_stays(lv, i + 1);
                                    }
                                    return None;
                                },
                            };
                            first_user = match extract_text(content) {
                                Some(t) => Some(compact_title(t.as_str())),
                                None => None,
                            };
                        }
                    }
                }
            }
        } else {
            assert(lv[i as int] is None);
        }
        i = i + 1;
    }
    proof {
        assert(lv.take(i as int) =~= lv);
    }
    let header = match header {
        Some(h) => h,
        None => return None,
    };
    let catalog_id = match header.str_field("id") {
        Some(id) => id.clone(),
        None => return None,
    };
    let title = match title {
        Some(t) => t,
        None => match first_user {
            Some(t) => t,
            None => new_session_title_text(),
        },
    };
    let modified_at = match last {
        Some(t) => t,
        None => owned(fallback_modified),
    };
    Some(
        SessionSummary {
            catalog_id,
            runtime_id: None,
            title,
            cwd: opt_text(header.str_field("cwd")),
            created_at: opt_text(header.str_field("timestamp")),
            modified_at,
            message_count: count,
            running: false,
            path: Some(owned(path)),
        },
    )
}


/// Each line of a file as serde_json reads it: a JSON value, or nothing.
pub open spec fn parsed_lines(lines: Seq<String>) -> Seq<Option<JsonV>> {
    lines.map_values(|l: String| json_of_text(l@))
}

/// The summary of the session file at `path` with the given lines of text; each line is read
/// as JSON, and one that is not JSON is passed over.
pub fn parse_session(path: &str, lines: &Vec<String>, fallback_modified: &str) -> (r: Option<
    SessionSummary,
>)
    ensures
        match r {
            Some(s) => parse_session_spec(path@, parsed_lines(lines@), fallback_modified@) == Some(
                s@,
            ),
            None => parse_session_spec(path@, parsed_lines(lines@), fallback_modified@) is None,
        },
{
    let mut values: Vec<Option<Json>> = Vec::new();
    let mut i: usize = 0;
    while i < lines.len()
        invariant
            i <= lines.len(),
            lines_view(values@) == parsed_lines(lines@.take(i as int)),
        decreases lines.len() - i,
    {
        let v = parse_json(lines[i].as_str());
        let ghost before = values@;
        values.push(v);
        assert(lines_view(values@) =~= lines_view(before).push(
            match v {
                Some(j) => Some(j@),
                None => None,
            },
        ));
        assert(parsed_lines(lines@.take(i + 1)) =~= parsed_lines(lines@.take(i as int)).push(
            json_of_text(lines@[i as int]@),
        ));
        i = i + 1;
    }
    assert(lines@.take(i as int) =~= lines@);
    summarize_session(path, &values, fallback_modified)
}

/// The lines that are JSON, in order.
pub open spec fn json_lines(lines: Seq<Option<JsonV>>) -> Seq<JsonV>
    decreases lines.len(),
{
    if lines.len() == 0 {
        seq![]
    } else {
        match lines.last() {
            Some(v) => json_lines(lines.drop_last()).push(v),
            None => json_lines(lines.drop_last()),
        }
    }
}

/// The lines as all JSON.
pub open spec fn all_json(values: Seq<JsonV>) -> Seq<Option<JsonV>> {
    values.map_values(|v: JsonV| Some(v))
}

proof fn lemma_scan_skips_non_json(lines: Seq<Option<JsonV>>)
    ensures
        scan_lines(lines) == scan_lines(all_json(json_lines(lines))),
    decreases lines.len(),
{
    if lines.len() > 0 {
        let p = lines.drop_last();
        lemma_scan_skips_non_json(p);
        match lines.last() {
            Some(v) => {
                let q = all_json(json_lines(p).push(v));
                assert(q.drop_last() =~= all_json(json_lines(p)));
                assert(q.last() == Some(v));
            },
            None => {},
        }
    }
}

/// Lines that are not JSON change nothing: two files whose JSON lines are the same, in the
/// same order, give the same summary, wherever other lines stand between them.
pub proof fn lemma_non_json_lines_ignored(
    path: Seq<char>,
    a: Seq<String>,
    b: Seq<String>,
    fallback_modified: Seq<char>,
)
    requires
        json_lines(parsed_lines(a)) == json_lines(parsed_lines(b)),
    ensures
        parse_session_spec(path, parsed_lines(a), fallback_modified) == parse_session_spec(
            path,
            parsed_lines(b),
            fallback_modified,
        ),
{
    lemma_scan_skips_non_json(parsed_lines(a));
    lemma_scan_skips_non_json(parsed_lines(b));
}

/// The number of values whose "type" is the string `name`.
pub open spec fn count_of_type(vs: Seq<JsonV>, name: Seq<char>) -> nat
    decreases vs.len(),
{
    if vs.len() == 0 {
        0
    } else {
        count_of_type(vs.drop_last(), name) + if has_type(vs.last(), name) {
            1nat
        } else {
            0nat
        }
    }
}

proof fn lemma_scan_counts(vals: Seq<JsonV>)
    ensures
        match scan_lines(all_json(vals)) {
            ScanState::Open { header, count, .. } => if vals.len() == 0 {
                header is None && count == 0
            } else {
                header == Some(vals[0]) && count == count_of_type(vals.drop_first(), "message"@)
            },
            ScanState::Rejected => true,
        },
    decreases vals.len(),
{
    if vals.len() > 0 {
        let p = vals.drop_last();
        lemma_scan_counts(p);
        let q = all_json(vals);
        assert(q.drop_last() =~= all_json(p));
        assert(q.last() == Some(vals.last()));
        if vals.len() > 1 {
            assert(vals.drop_first().drop_last() =~= p.drop_first());
            assert(vals.drop_first().last() == vals.last());
            assert(p[0] == vals[0]);
        } else {
            assert(vals.drop_first() =~= Seq::<JsonV>::empty());
            assert(vals.last() == vals[0]);
        }
    }
}

/// A session's summary counts the JSON lines after its header whose "type" is "message"; a
/// line of any other type, or one that is not JSON, leaves the count unchanged. Its id is
/// the header's "id".
pub proof fn lemma_message_count(
    path: Seq<char>,
    lines: Seq<Option<JsonV>>,
    fallback_modified: Seq<char>,
)
    ensures
        parse_session_spec(path, lines, fallback_modified) matches Some(s) ==> (json_lines(lines).len()
            > 0 && s.message_count == count_of_type(json_lines(lines).drop_first(), "message"@)
            && get_str(json_lines(lines)[0], "id"@) == Some(s.catalog_id)),
{
    lemma_scan_skips_non_json(lines);
    lemma_scan_counts(json_lines(lines));
}

/// Newest first: no summary is followed by one modified later.
pub open spec fn newest_first(s: Seq<SummaryV>) -> bool {
    forall|i: int, j: int|
        0 <= i < j < s.len() ==> !text_lt(#[trigger] s[i].modified_at, #[trigger] s[j].modified_at)
}

/// The summaries modified at the time `k`.
pub open spec fn modified_at_time(k: Seq<char>) -> spec_fn(SummaryV) -> bool {
    |s: SummaryV| s.modified_at == k
}

/// Same summaries, and those modified at the same time in the same order.
pub open spec fn same_order_per_time(a: Seq<SummaryV>, b: Seq<SummaryV>) -> bool {
    forall|k: Seq<char>|
        #[trigger] a.filter(modified_at_time(k)) == b.filter(modified_at_time(k))
}

proof fn lemma_filter_none(s: Seq<SummaryV>, pred: spec_fn(SummaryV) -> bool)
    requires
        forall|i: int| 0 <= i < s.len() ==> !pred(#[trigger] s[i]),
    ensures
        s.filter(pred) == Seq::<SummaryV>::empty(),
    decreases s.len(),
{
    reveal(Seq::filter);
    if s.len() > 0 {
        lemma_filter_none(s.drop_last(), pred);
    }
}

proof fn lemma_filter_single(x: SummaryV, pred: spec_fn(SummaryV) -> bool)
    ensures
        seq![x].filter(pred) == if pred(x) {
            seq![x]
        } else {
            Seq::<SummaryV>::empty()
        },
{
    reveal_with_fuel(Seq::filter, 2);
    assert(seq![x].drop_last() =~= Seq::<SummaryV>::empty());
}

proof fn lemma_filter_insert(o: Seq<SummaryV>, p: int, x: SummaryV, k: Seq<char>)
    requires
        0 <= p <= o.len(),
        forall|j: int| 0 <= j < p ==> (#[trigger] o[j]).modified_at != x.modified_at,
    ensures
        o.insert(p, x).filter(modified_at_time(k)) == if x.modified_at == k {
            seq![x] + o.filter(modified_at_time(k))
        } else {
            o.filter(modified_at_time(k))
        },
{
    let pred = modified_at_time(k);
    let a = o.take(p);
    let b = o.skip(p);
    assert(o.insert(p, x) =~= a + (seq![x] + b));
    assert(o =~= a + b);
    Seq::filter_distributes_over_add(a, seq![x] + b, pred);
    Seq::filter_distributes_over_add(seq![x], b, pred);
    Seq::filter_distributes_over_add(a, b, pred);
    lemma_filter_single(x, pred);
    if x.modified_at == k {
        assert forall|i: int| 0 <= i < a.len() implies !pred(#[trigger] a[i]) by {
            assert(a[i] == o[i]);
        }
        lemma_filter_none(a, pred);
        assert(a.filter(pred) + (seq![x] + b.filter(pred)) =~= seq![x] + (a.filter(pred) + b.filter(pred)));
    } else {
        assert(seq![x].filter(pred) =~= Seq::<SummaryV>::empty());
        assert(a.filter(pred) + (seq![x].filter(pred) + b.filter(pred)) =~= a.filter(pred) + b.filter(pred));
    }
}

proof fn lemma_newest_first_insert(o: Seq<SummaryV>, p: int, x: SummaryV)
    requires
        newest_first(o),
        0 <= p <= o.len(),
        forall|j: int| 0 <= j < p ==> text_lt(x.modified_at, (#[trigger] o[j]).modified_at),
        p == o.len() || !text_lt(x.modified_at, o[p].modified_at),
    ensures
        newest_first(o.insert(p, x)),
        forall|j: int| 0 <= j < p ==> (#[trigger] o[j]).modified_at != x.modified_at,
{
    let q = o.insert(p, x);
    assert forall|j: int| 0 <= j < p implies (#[trigger] o[j]).modified_at != x.modified_at by {
        crate::text::lemma_text_lt_irreflexive(x.modified_at);
    }
    assert forall|i: int, j: int| 0 <= i < j < q.len() implies !text_lt(
        #[trigger] q[i].modified_at,
        #[trigger] q[j].modified_at,
    ) by {
        if i < p && j == p {
            lemma_text_lt_asymmetric(x.modified_at, o[i].modified_at);
        } else if i == p {
            let y = o[j - 1].modified_at;
            if text_lt(x.modified_at, y) {
                let z = o[p].modified_at;
                assert(!text_lt(z, y));
                lemma_text_lt_total(x.modified_at, z);
                if text_lt(z, x.modified_at) {
                    lemma_text_lt_transitive(z, x.modified_at, y);
                }
            }
        } else if i < p {
            assert(q[i] == o[i]);
            assert(q[j] == o[j - 1] || q[j] == o[j]);
        } else {
            assert(q[i] == o[i - 1]);
            assert(q[j] == o[j - 1]);
        }
    }
}

proof fn lemma_view_insert(s: Seq<SessionSummary>, p: int, x: SessionSummary)
    requires
        0 <= p <= s.len(),
    ensures
        summaries_view(s.insert(p, x)) == summaries_view(s).insert(p, x@),
{
    assert(summaries_view(s.insert(p, x)) =~= summaries_view(s).insert(p, x@));
}

/// Orders summaries newest first; summaries modified at the same time keep their order.
pub fn sort_by_recency(sessions: Vec<SessionSummary>) -> (r: Vec<SessionSummary>)
    ensures
        newest_first(summaries_view(r@)),
        same_order_per_time(summaries_view(r@), summaries_view(sessions@)),
{
    let ghost input = summaries_view(sessions@);
    let mut rest = sessions;
    let mut out: Vec<SessionSummary> = Vec::new();
    proof {
        assert(input.skip(input.len() as int) =~= Seq::<SummaryV>::empty());
        assert(summaries_view(out@) =~= Seq::<SummaryV>::empty());
        assert(summaries_view(rest@) =~= input.take(rest@.len() as int));
    }
    while rest.len() > 0
        invariant
            rest@.len() <= input.len(),
            summaries_view(rest@) == input.take(rest@.len() as int),
            newest_first(summaries_view(out@)),
            forall|k: Seq<char>|
                #[trigger] summaries_view(out@).filter(modified_at_time(k)) == input.skip(
                    rest@.len() as int,
                ).filter(modified_at_time(k)),
        decreases rest@.len(),
    {
        let ghost n = rest@.len() as int;
        let ghost before = rest@;
        let x = rest.pop().unwrap();
        proof {
            assert(x == before[n - 1]);
            assert(summaries_view(before)[n - 1] == x@);
            assert(input.take(n)[n - 1] == input[n - 1]);
            assert(x@ == input[n - 1]);
            assert(summaries_view(rest@) =~= input.take(n - 1));
        }
        let mut p: usize = 0;
        while p < out.len() && text_less(x.modified_at.as_str(), out[p].modified_at.as_str())
            invariant
                p <= out.len(),
                forall|j: int|
                    0 <= j < p ==> text_lt(x@.modified_at, (#[trigger] summaries_view(out@)[j]).modified_at),
            decreases out.len() - p,
        {
            p = p + 1;
        }
        let ghost o = summaries_view(out@);
        proof {
            lemma_newest_first_insert(o, p as int, x@);
            lemma_view_insert(out@, p as int, x);
            assert(input.skip(n - 1) =~= seq![x@] + input.skip(n));
            assert forall|k: Seq<char>| #[trigger] o.insert(p as int, x@).filter(modified_at_time(k))
                == input.skip(n - 1).filter(modified_at_time(k)) by {
                lemma_filter_insert(o, p as int, x@, k);
                Seq::filter_distributes_over_add(seq![x@], input.skip(n), modified_at_time(k));
                lemma_filter_single(x@, modified_at_time(k));
                if x@.modified_at != k {
                    assert(seq![x@].filter(modified_at_time(k)) + input.skip(n).filter(modified_at_time(k))
                        =~= input.skip(n).filter(modified_at_time(k)));
                }
            }
        }
        out.insert(p, x);
    }
    proof {
        assert(input.skip(0) =~= input);
    }
    out
}


/// The first summary with the given catalog id.
pub open spec fn find_by_id_spec(s: Seq<SummaryV>, catalog_id: Seq<char>) -> Option<SummaryV>
    decreases s.len(),
{
    if s.len() == 0 {
        None
    } else if s[0].catalog_id == catalog_id {
        Some(s[0])
    } else {
        find_by_id_spec(s.drop_first(), catalog_id)
    }
}

proof fn lemma_find_skip(s: Seq<SummaryV>, id: Seq<char>, i: int)
    requires
        0 <= i <= s.len(),
        forall|j: int| 0 <= j < i ==> (#[trigger] s[j]).catalog_id != id,
    ensures
        find_by_id_spec(s, id) == find_by_id_spec(s.skip(i), id),
    decreases i,
{
    if i == 0 {
        assert(s.skip(0) =~= s);
    } else {
        lemma_find_skip(s.drop_first(), id, i - 1);
        assert(s.drop_first().skip(i - 1) =~= s.skip(i));
    }
}

/// The first session in `sessions` with the given catalog id.
pub fn find_by_id(sessions: &Vec<SessionSummary>, catalog_id: &str) -> (r: Option<SessionSummary>)
    ensures
        match r {
            Some(s) => find_by_id_spec(summaries_view(sessions@), catalog_id@) == Some(s@),
            None => find_by_id_spec(summaries_view(sessions@), catalog_id@) is None,
        },
{
    let ghost sv = summaries_view(sessions@);
    let mut i: usize = 0;
    while i < sessions.len()
        invariant
            sv == summaries_view(sessions@),
            i <= sessions.len(),
            forall|j: int| 0 <= j < i ==> (#[trigger] sv[j]).catalog_id != catalog_id@,
        decreases sessions.len() - i,
    {
        if text_eq(sessions[i].catalog_id.as_str(), catalog_id) {
            proof {
                lemma_find_skip(sv, catalog_id@, i as int);
                assert(sv.skip(i as int)[0] == sv[i as int]);
            }
            return Some(sessions[i].copy());
        }
        i = i + 1;
    }
    proof {
        lemma_find_skip(sv, catalog_id@, i as int);
    }
    None
}

/// A file found under the sessions directory: its path, its lines of text, and its
/// modification time as RFC 3339 text.
#[derive(Debug)]
pub struct SessionFile {
    pub path: String,
    pub lines: Vec<String>,
    pub fallback_modified: String,
}

/// The summaries of the files that are sessions (their extension is "jsonl" and their
/// content a session), in the order of the files.
pub open spec fn parse_all(files: Seq<SessionFile>) -> Seq<SummaryV>
    decreases files.len(),
{
    if files.len() == 0 {
        seq![]
    } else {
        let rest = parse_all(files.drop_last());
        let f = files.last();
        if extension_spec(f.path@) == Some("jsonl"@) {
            match parse_session_spec(f.path@, parsed_lines(f.lines@), f.fallback_modified@) {
                Some(s) => rest.push(s),
                None => rest,
            }
        } else {
            rest
        }
    }
}

/// The catalog: the summaries of the files that are sessions, newest first. Files whose
/// extension is not "jsonl" are passed over.
pub fn scan(files: &Vec<SessionFile>) -> (r: Vec<SessionSummary>)
    ensures
        newest_first(summaries_view(r@)),
        same_order_per_time(summaries_view(r@), parse_all(files@)),
{
    let mut found: Vec<SessionSummary> = Vec::new();
    let mut i: usize = 0;
    while i < files.len()
        invariant
            i <= files.len(),
            summaries_view(found@) == parse_all(files@.take(i as int)),
        decreases files.len() - i,
    {
        let f = &files[i];
        proof {
            assert(files@.take(i + 1).drop_last() =~= files@.take(i as int));
            assert(files@.take(i + 1).last() == *f);
        }
        let ghost before = found@;
        if is_session_file(f.path.as_str()) {
            match parse_session(f.path.as_str(), &f.lines, f.fallback_modified.as_str()) {
                Some(s) => {
                    found.push(s);
                    assert(summaries_view(found@) =~= summaries_view(before).push(s@));
                },
                None => {},
            }
        }
        i = i + 1;
    }
    assert(files@.take(i as int) =~= files@);
    sort_by_recency(found)
}

} // verus!
