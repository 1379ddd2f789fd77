//! The session hub's decisions: the live-session limit, the merged session list, opening a
//! catalog session, and preparing a prompt.

use vstd::prelude::*;
use crate::catalog::{
    compact_title, compact_title_spec, find_by_id, find_by_id_spec, modified_at_time, new_session_title,
    newest_first, same_order_per_time, sort_by_recency,
};
use crate::paths::{same_file, same_file_spec};
use crate::protocol::{summaries_view, PromptBehavior, SessionSummary, SummaryV};
use crate::text::{copy_opt, decimal, decimal_spec, opt_view, owned, text_eq, trim, trim_spec};

verus! {

/// Why the hub refused a request.
#[derive(Debug)]
pub enum HubError {
    /// As many sessions run as the configuration allows.
    LimitReached { limit: usize },
    /// No session in the catalog has the id.
    NotFound,
    /// The catalog session has no file to resume.
    PathUnavailable,
    /// No running session has the id.
    NotRunning,
    /// The prompt holds nothing but whitespace.
    EmptyMessage,
}

impl HubError {
    pub open spec fn message_spec(&self) -> Seq<char> {
        match self {
            HubError::LimitReached { limit } => "the live session limit ("@ + decimal_spec(
                *limit as nat,
            ) + ") has been reached"@,
            HubError::NotFound => "session not found"@,
            HubError::PathUnavailable => "session path is unavailable"@,
            HubError::NotRunning => "session is not running"@,
            HubError::EmptyMessage => "message cannot be empty"@,
        }
    }

    /// The text that reports this error.
    pub fn message(&self) -> (r: String)
        ensures
            r@ == self.message_spec(),
    {
        match self {
            HubError::LimitReached { limit } => {
                let mut s = owned("the live session limit (");
                let n = decimal(*limit as u64);
                s.append(n.as_str());
                s.append(") has been reached");
                s
            },
            HubError::NotFound => owned("session not found"),
            HubError::PathUnavailable => owned("session path is unavailable"),
            HubError::NotRunning => owned("session is not running"),
            HubError::EmptyMessage => owned("message cannot be empty"),
        }
    }
}

/// Another session may start only while fewer than `limit` run.
pub fn check_capacity(live: usize, limit: usize) -> (r: Result<(), HubError>)
    ensures
        r is Ok <==> live < limit,
        r is Err ==> r == Err::<(), HubError>(HubError::LimitReached { limit }),
{
    if live >= limit {
        Err(HubError::LimitReached { limit })
    } else {
        Ok(())
    }
}

/// A running session as the hub lists it.
#[derive(Debug)]
pub struct LiveSession {
    pub runtime_id: String,
    pub cwd: String,
    pub session_file: Option<String>,
    pub title: String,
}

pub struct LiveV {
    pub runtime_id: Seq<char>,
    pub cwd: Seq<char>,
    pub session_file: Option<Seq<char>>,
    pub title: Seq<char>,
}

impl View for LiveSession {
    type V = LiveV;

    open spec fn view(&self) -> LiveV {
        LiveV {
            runtime_id: self.runtime_id@,
            cwd: self.cwd@,
            session_file: opt_view(self.session_file),
            title: self.title@,
        }
    }
}

pub open spec fn lives_view(s: Seq<LiveSession>) -> Seq<LiveV> {
    s.map_values(|l: LiveSession| l@)
}

/// The first catalog summary of the session file at `path`.
pub open spec fn find_by_path(catalog: Seq<SummaryV>, path: Seq<char>) -> Option<SummaryV>
    decreases catalog.len(),
{
    if catalog.len() == 0 {
        None
    } else if same_file_spec(catalog[0].path, Some(path)) {
        Some(catalog[0])
    } else {
        find_by_path(catalog.drop_first(), path)
    }
}

/// The catalog id of a running session: that of its session file in the catalog, or else
/// its runtime id.
pub open spec fn catalog_id_for(l: LiveV, catalog: Seq<SummaryV>) -> Seq<char> {
    match l.session_file {
        Some(p) => match find_by_path(catalog, p) {
            Some(s) => s.catalog_id,
            None => l.runtime_id,
        },
        None => l.runtime_id,
    }
}

/// The summary of a running session, created and modified at the given times.
pub open spec fn runtime_summary_spec(
    l: LiveV,
    catalog: Seq<SummaryV>,
    created_at: Seq<char>,
    modified_at: Seq<char>,
) -> SummaryV {
    SummaryV {
        catalog_id: catalog_id_for(l, catalog),
        runtime_id: Some(l.runtime_id),
        title: l.title,
        cwd: l.cwd,
        created_at,
        modified_at,
        message_count: 0,
        running: true,
        path: l.session_file,
    }
}

proof fn lemma_find_by_path_skip(s: Seq<SummaryV>, path: Seq<char>, i: int)
    requires
        0 <= i <= s.len(),
        forall|j: int| 0 <= j < i ==> !same_file_spec((#[trigger] s[j]).path, Some(path)),
    ensures
        find_by_path(s, path) == find_by_path(s.skip(i), path),
    decreases i,
{
    if i == 0 {
        assert(s.skip(0) =~= s);
    } else {
        lemma_find_by_path_skip(s.drop_first(), path, i - 1);
        assert(s.drop_first().skip(i - 1) =~= s.skip(i));
    }
}

fn catalog_id_of(l: &LiveSession, catalog: &Vec<SessionSummary>) -> (r: String)
    ensures
        r@ == catalog_id_for(l@, summaries_view(catalog@)),
{
    let ghost cv = summaries_view(catalog@);
    match &l.session_file {
        None => l.runtime_id.clone(),
        Some(p) => {
            let mut i: usize = 0;
            while i < catalog.len()
                invariant
                    cv == summaries_view(catalog@),
                    opt_view(l.session_file) == Some(p@),
                    i <= catalog.len(),
                    forall|j: int| 0 <= j < i ==> !same_file_spec((#[trigger] cv[j]).path, Some(p@)),
                decreases catalog.len() - i,
            {
                let same = same_file(&catalog[i].path, &l.session_file);
                if same {
                    proof {
                        lemma_find_by_path_skip(cv, p@, i as int);
                        assert(cv.skip(i as int)[0] == cv[i as int]);
                    }
                    return catalog[i].catalog_id.clone();
                }
                i = i + 1;
            }
            proof {
                lemma_find_by_path_skip(cv, p@, i as int);
            }
            l.runtime_id.clone()
        },
    }
}

/// The summary of a running session, created and modified at the given times.
pub fn runtime_summary_at(
    l: &LiveSession,
    catalog: &Vec<SessionSummary>,
    created_at: &str,
    modified_at: &str,
) -> (r: SessionSummary)
    ensures
        r@ == runtime_summary_spec(l@, summaries_view(catalog@), created_at@, modified_at@),
{
    SessionSummary {
        catalog_id: catalog_id_of(l, catalog),
        runtime_id: Some(l.runtime_id.clone()),
        title: l.title.clone(),
        cwd: l.cwd.clone(),
        created_at: owned(created_at),
        modified_at: owned(modified_at),
        message_count: 0,
        running: true,
        path: copy_opt(&l.session_file),
    }
}

/// A UTC time as chrono's `to_rfc3339` writes it for an instant from 1970 on: a date, "T",
/// a time (perhaps with a fraction of a second), then the offset "+00:00"; at least 25
/// characters in all.
pub open spec fn is_utc_rfc3339(t: Seq<char>) -> bool {
    &&& t.len() >= 25
    &&& t.subrange(t.len() - 6, t.len() as int) == seq!['+', '0', '0', ':', '0', '0']
}

/// Calls `chrono::Utc::now` and renders the time with `to_rfc3339`. Trusted: the text has
/// the shape `is_utc_rfc3339` (chrono's `write_rfc3339` writes the date and time, then the
/// zero offset as "+00:00"); which instant it names is whatever the clock says, and is not
/// stated. chrono panics when the system clock reads a time before 1970; that comes from the
/// machine, which no `requires` can rule out, and the server reads the clock the same way.
#[verifier::external_body]
fn now_rfc3339() -> (r: String)
    ensures
        is_utc_rfc3339(r@),
{
    chrono::Utc::now().to_rfc3339()
}

/// The summary of a running session, created and modified now.
pub fn runtime_summary(l: &LiveSession, catalog: &Vec<SessionSummary>) -> (r: SessionSummary)
    ensures
        exists|c: Seq<char>, m: Seq<char>|
            is_utc_rfc3339(c) && is_utc_rfc3339(m) && r@ == runtime_summary_spec(
                l@,
                summaries_view(catalog@),
                c,
                m,
            ),
{
    let created = now_rfc3339();
    let modified = now_rfc3339();
    runtime_summary_at(l, catalog, created.as_str(), modified.as_str())
}

/// The last running session whose session file is `path`.
pub open spec fn last_live_at(live: Seq<LiveV>, path: Option<Seq<char>>) -> Option<LiveV>
    decreases live.len(),
{
    if live.len() == 0 {
        None
    } else if same_file_spec(live.last().session_file, path) {
        Some(live.last())
    } else {
        last_live_at(live.drop_last(), path)
    }
}

/// A catalog summary as the list shows it: when a session runs on its file, with that
/// session's runtime id and title, and running.
pub open spec fn mark_running(s: SummaryV, live: Seq<LiveV>) -> SummaryV {
    match last_live_at(live, s.path) {
        Some(l) => SummaryV { runtime_id: Some(l.runtime_id), running: true, title: l.title, ..s },
        None => s,
    }
}

/// Whether some summary in the list is of the session file `path`.
pub open spec fn lists_path(list: Seq<SummaryV>, path: Option<Seq<char>>) -> bool {
    exists|i: int| 0 <= i < list.len() && same_file_spec((#[trigger] list[i]).path, path)
}

/// The list with a summary added for each running session, in order, whose session file it
/// does not yet list.
pub open spec fn add_unlisted(
    list: Seq<SummaryV>,
    live: Seq<LiveV>,
    catalog: Seq<SummaryV>,
    now: Seq<char>,
) -> Seq<SummaryV>
    decreases live.len(),
{
    if live.len() == 0 {
        list
    } else {
        let acc = add_unlisted(list, live.drop_last(), catalog, now);
        let l = live.last();
        if lists_path(acc, l.session_file) {
            acc
        } else {
            acc.push(runtime_summary_spec(l, catalog, now, now))
        }
    }
}

/// The session list before ordering: the catalog with running sessions marked, then the
/// running sessions it does not list.
pub open spec fn merged_sessions(catalog: Seq<SummaryV>, live: Seq<LiveV>, now: Seq<char>) -> Seq<
    SummaryV,
> {
    add_unlisted(catalog.map_values(|s: SummaryV| mark_running(s, live)), live, catalog, now)
}

fn mark(s: &mut SessionSummary, live: &Vec<LiveSession>)
    ensures
        final(s)@ == mark_running(old(s)@, lives_view(live@)),
{
    let ghost lv = lives_view(live@);
    let mut k: usize = live.len();
    assert(lv.take(k as int) =~= lv);
    while k > 0
        invariant
            lv == lives_view(live@),
            k <= live.len(),
            s@ == old(s)@,
            last_live_at(lv, old(s)@.path) == last_live_at(lv.take(k as int), old(s)@.path),
        decreases k,
    {
        assert(lv.take(k as int).drop_last() =~= lv.take(k - 1));
        assert(lv.take(k as int).last() == live@[k - 1]@);
        if same_file(&live[k - 1].session_file, &s.path) {
            s.runtime_id = Some(live[k - 1].runtime_id.clone());
            s.running = true;
            s.title = live[k - 1].title.clone();
            return;
        }
        k = k - 1;
    }
}

fn lists_path_exec(list: &Vec<SessionSummary>, path: &Option<String>) -> (r: bool)
    ensures
        r == lists_path(summaries_view(list@), opt_view(*path)),
{
    let ghost v = summaries_view(list@);
    let mut i: usize = 0;
    while i < list.len()
        invariant
            v == summaries_view(list@),
            i <= list.len(),
            forall|j: int| 0 <= j < i ==> !same_file_spec((#[trigger] v[j]).path, opt_view(*path)),
        decreases list.len() - i,
    {
        if same_file(&list[i].path, path) {
            assert(same_file_spec(v[i as int].path, opt_view(*path)));
            return true;
        }
        i = i + 1;
    }
    false
}

/// The session list at time `now`: the catalog with running sessions marked and the other
/// running sessions added, newest first.
pub fn list_sessions_at(catalog: Vec<SessionSummary>, live: &Vec<LiveSession>, now: &str) -> (r:
    Vec<SessionSummary>)
    ensures
        newest_first(summaries_view(r@)),
        same_order_per_time(
            summaries_view(r@),
            merged_sessions(summaries_view(catalog@), lives_view(live@), now@),
        ),
{
    let ghost cv = summaries_view(catalog@);
    let ghost lv = lives_view(live@);
    let mut list: Vec<SessionSummary> = Vec::new();
    let mut i: usize = 0;
    while i < catalog.len()
        invariant
            cv == summaries_view(catalog@),
            lv == lives_view(live@),
            i <= catalog.len(),
            summaries_view(list@) == cv.take(i as int).map_values(
                |s: SummaryV| mark_running(s, lv),
            ),
        decreases catalog.len() - i,
    {
        let mut s = catalog[i].copy();
        mark(&mut s, live);
        assert(s@ == mark_running(cv[i as int], lv));
        let ghost before = list@;
        list.push(s);
        assert(summaries_view(list@) =~= summaries_view(before).push(s@));
        assert(cv.take(i + 1) =~= cv.take(i as int).push(cv[i as int]));
        i = i + 1;
        assert(summaries_view(list@) =~= cv.take(i as int).map_values(
            |s: SummaryV| mark_running(s, lv),
        ));
    }
    assert(cv.take(i as int) =~= cv);
    let mut k: usize = 0;
    while k < live.len()
        invariant
            cv == summaries_view(catalog@),
            lv == lives_view(live@),
            k <= live.len(),
            summaries_view(list@) == add_unlisted(
                cv.map_values(|s: SummaryV| mark_running(s, lv)),
                lv.take(k as int),
                cv,
                now@,
            ),
        decreases live.len() - k,
    {
        proof {
            assert(lv.take(k + 1).drop_last() =~= lv.take(k as int));
            assert(lv.take(k + 1).last() == live@[k as int]@);
        }
        if !lists_path_exec(&list, &live[k].session_file) {
            let s = runtime_summary_at(&live[k], &catalog, now, now);
            let ghost before = list@;
            list.push(s);
            assert(summaries_view(list@) =~= summaries_view(before).push(s@));
        }
        k = k + 1;
    }
    assert(lv.take(k as int) =~= lv);
    sort_by_recency(list)
}

/// The session list now: the catalog with running sessions marked and the other running
/// sessions added (as created and modified at the time of the call), newest first.
pub fn list_sessions(catalog: Vec<SessionSummary>, live: &Vec<LiveSession>) -> (r: Vec<
    SessionSummary,
>)
    ensures
        newest_first(summaries_view(r@)),
        exists|now: Seq<char>|
            is_utc_rfc3339(now) && same_order_per_time(
                summaries_view(r@),
                merged_sessions(summaries_view(catalog@), lives_view(live@), now),
            ),
{
    let now = now_rfc3339();
    list_sessions_at(catalog, live, now.as_str())
}

/// The runtime id of the session `catalog_id` in the list, when it is running.
pub open spec fn running_runtime_spec(sessions: Seq<SummaryV>, catalog_id: Seq<char>) -> Option<
    Seq<char>,
> {
    match find_by_id_spec(sessions, catalog_id) {
        Some(s) => s.runtime_id,
        None => None,
    }
}

pub fn running_runtime(sessions: &Vec<SessionSummary>, catalog_id: &str) -> (r: Option<String>)
    ensures
        opt_view(r) == running_runtime_spec(summaries_view(sessions@), catalog_id@),
{
    match find_by_id(sessions, catalog_id) {
        Some(s) => s.runtime_id,
        None => None,
    }
}

/// The session file to resume and the title to give when opening the catalog session
/// `catalog_id` of a fresh scan.
pub open spec fn spawn_target_spec(fresh: Seq<SummaryV>, catalog_id: Seq<char>) -> Result<
    (Seq<char>, Seq<char>),
    HubError,
> {
    match find_by_id_spec(fresh, catalog_id) {
        None => Err(HubError::NotFound),
        Some(s) => match s.path {
            None => Err(HubError::PathUnavailable),
            Some(p) => Ok((p, s.title)),
        },
    }
}

pub fn spawn_target(fresh: &Vec<SessionSummary>, catalog_id: &str) -> (r: Result<
    (String, String),
    HubError,
>)
    ensures
        match r {
            Ok((p, t)) => spawn_target_spec(summaries_view(fresh@), catalog_id@) == Ok::<
                (Seq<char>, Seq<char>),
                HubError,
            >((p@, t@)),
            Err(e) => spawn_target_spec(summaries_view(fresh@), catalog_id@) == Err::<
                (Seq<char>, Seq<char>),
                HubError,
            >(e),
        },
{
    match find_by_id(fresh, catalog_id) {
        None => Err(HubError::NotFound),
        Some(s) => match s.path {
            None => Err(HubError::PathUnavailable),
            Some(p) => Ok((p, s.title)),
        },
    }
}

/// The word Pi's RPC uses for a prompt behavior.
pub open spec fn behavior_name_spec(b: PromptBehavior) -> Seq<char> {
    match b {
        PromptBehavior::Normal => "normal"@,
        PromptBehavior::Steer => "steer"@,
        PromptBehavior::FollowUp => "follow_up"@,
    }
}

pub fn behavior_name(b: PromptBehavior) -> (r: String)
    ensures
        r@ == behavior_name_spec(b),
{
    match b {
        PromptBehavior::Normal => owned("normal"),
        PromptBehavior::Steer => owned("steer"),
        PromptBehavior::FollowUp => owned("follow_up"),
    }
}

/// What sending a prompt takes: a title for a session still untitled, and the behavior word.
#[derive(Debug)]
pub struct PromptPlan {
    pub new_title: Option<String>,
    pub behavior: String,
}

/// A prompt that is only whitespace is refused. Otherwise a session still titled "新对话"
/// takes its title from the prompt.
pub fn plan_prompt(message: &str, current_title: &str, behavior: PromptBehavior) -> (r: Result<
    PromptPlan,
    HubError,
>)
    ensures
        r is Err <==> trim_spec(message@).len() == 0,
        r matches Err(e) ==> e is EmptyMessage,
        r matches Ok(p) ==> opt_view(p.new_title) == (if current_title@ == new_session_title() {
            Some(compact_title_spec(message@))
        } else {
            None::<Seq<char>>
        }) && p.behavior@ == behavior_name_spec(behavior),
{
    let t = trim(message);
    if t.as_str().is_empty() {
        return Err(HubError::EmptyMessage);
    }
    let blank = crate::catalog::new_session_title_text();
    let new_title = if text_eq(current_title, blank.as_str()) {
        Some(compact_title(message))
    } else {
        None
    };
    Ok(PromptPlan { new_title, behavior: behavior_name(behavior) })
}


proof fn lemma_add_unlisted_keeps(
    list: Seq<SummaryV>,
    live: Seq<LiveV>,
    catalog: Seq<SummaryV>,
    now: Seq<char>,
)
    ensures
        add_unlisted(list, live, catalog, now).len() >= list.len(),
        forall|j: int| 0 <= j < list.len() ==> #[trigger] add_unlisted(list, live, catalog, now)[j] == list[j],
        forall|i: int|
            0 <= i < live.len() ==> lists_path(
                add_unlisted(list, live, catalog, now),
                (#[trigger] live[i]).session_file,
            ),
    decreases live.len(),
{
    if live.len() > 0 {
        let prev = live.drop_last();
        lemma_add_unlisted_keeps(list, prev, catalog, now);
        let acc = add_unlisted(list, prev, catalog, now);
        let l = live.last();
        let r = add_unlisted(list, live, catalog, now);
        assert forall|i: int| 0 <= i < live.len() implies lists_path(r, (#[trigger] live[i]).session_file) by {
            if i < live.len() - 1 {
                assert(live[i] == prev[i]);
                assert(lists_path(acc, prev[i].session_file));
                let k = choose|k: int| 0 <= k < acc.len() && same_file_spec((#[trigger] acc[k]).path, prev[i].session_file);
                assert(r[k] == acc[k]);
            } else if !lists_path(acc, l.session_file) {
                assert(same_file_spec(r[acc.len() as int].path, l.session_file));
            }
        }
    }
}

/// Every running session is in the merged list: some summary there is of its session file.
pub proof fn lemma_running_sessions_listed(
    catalog: Seq<SummaryV>,
    live: Seq<LiveV>,
    now: Seq<char>,
    i: int,
)
    requires
        0 <= i < live.len(),
    ensures
        lists_path(merged_sessions(catalog, live, now), live[i].session_file),
{
    lemma_add_unlisted_keeps(catalog.map_values(|s: SummaryV| mark_running(s, live)), live, catalog, now);
}

/// Every catalog session is in the merged list, in its place, with its catalog id, title
/// and path, marked running exactly when a running session has its file.
pub proof fn lemma_catalog_sessions_listed(
    catalog: Seq<SummaryV>,
    live: Seq<LiveV>,
    now: Seq<char>,
    j: int,
)
    requires
        0 <= j < catalog.len(),
    ensures
        merged_sessions(catalog, live, now)[j] == mark_running(catalog[j], live),
        merged_sessions(catalog, live, now)[j].catalog_id == catalog[j].catalog_id,
        merged_sessions(catalog, live, now)[j].path == catalog[j].path,
        merged_sessions(catalog, live, now)[j].running <==> (catalog[j].running || last_live_at(
            live,
            catalog[j].path,
        ) is Some),
{
    let marked = catalog.map_values(|s: SummaryV| mark_running(s, live));
    lemma_add_unlisted_keeps(marked, live, catalog, now);
    assert(marked[j] == mark_running(catalog[j], live));
}

/// What opening a catalog session does first: turn to the session that already runs on it,
/// or start one.
#[derive(Debug)]
pub enum OpenStep {
    Running { runtime_id: String },
    Start,
}

/// Opening the catalog session `catalog_id`, given the current session list and how many
/// sessions run: a session that runs on it is reused, whatever the limit; otherwise a new
/// one may start only below the limit.
pub fn open_step(sessions: &Vec<SessionSummary>, catalog_id: &str, live: usize, limit: usize) -> (r:
    Result<OpenStep, HubError>)
    ensures
        match running_runtime_spec(summaries_view(sessions@), catalog_id@) {
            Some(id) => r matches Ok(OpenStep::Running { runtime_id }) && runtime_id@ == id,
            None => (r is Ok <==> live < limit) && (r matches Ok(step) ==> step is Start) && (
            r matches Err(e) ==> e == HubError::LimitReached { limit }),
        },
{
    match running_runtime(sessions, catalog_id) {
        Some(runtime_id) => Ok(OpenStep::Running { runtime_id }),
        None => match check_capacity(live, limit) {
            Ok(()) => Ok(OpenStep::Start),
            Err(e) => Err(e),
        },
    }
}

proof fn lemma_filter_from<A>(s: Seq<A>, pred: spec_fn(A) -> bool, i: int)
    requires
        0 <= i < s.filter(pred).len(),
    ensures
        s.contains(s.filter(pred)[i]),
    decreases s.len(),
{
    reveal(Seq::filter);
    if s.len() > 0 {
        let p = s.drop_last();
        let rest = p.filter(pred);
        if i < rest.len() {
            lemma_filter_from(p, pred, i);
            assert(s.filter(pred)[i] == rest[i]);
            let k = choose|k: int| 0 <= k < p.len() && p[k] == rest[i];
            assert(s[k] == p[k]);
        } else {
            assert(s.filter(pred)[i] == s[s.len() - 1]);
        }
    }
}

proof fn lemma_same_members(a: Seq<SummaryV>, b: Seq<SummaryV>, x: SummaryV)
    requires
        same_order_per_time(a, b),
    ensures
        a.contains(x) <==> b.contains(x),
{
    broadcast use vstd::seq_lib::group_filter_ensures;
    let pred = modified_at_time(x.modified_at);
    assert(a.filter(pred) == b.filter(pred));
    if a.contains(x) {
        let i = choose|i: int| 0 <= i < a.len() && a[i] == x;
        assert(a.filter(pred).contains(a[i]));
        let k = choose|k: int| 0 <= k < b.filter(pred).len() && b.filter(pred)[k] == x;
        lemma_filter_from(b, pred, k);
    }
    if b.contains(x) {
        let i = choose|i: int| 0 <= i < b.len() && b[i] == x;
        assert(b.filter(pred).contains(b[i]));
        let k = choose|k: int| 0 <= k < a.filter(pred).len() && a.filter(pred)[k] == x;
        lemma_filter_from(a, pred, k);
    }
}

proof fn lemma_find_unique(s: Seq<SummaryV>, id: Seq<char>, x: SummaryV)
    requires
        s.contains(x),
        x.catalog_id == id,
        forall|i: int| 0 <= i < s.len() && (#[trigger] s[i]).catalog_id == id ==> s[i] == x,
    ensures
        find_by_id_spec(s, id) == Some(x),
    decreases s.len(),
{
    if s[0].catalog_id != id {
        let i = choose|i: int| 0 <= i < s.len() && s[i] == x;
        assert(s.drop_first()[i - 1] == x);
        assert forall|k: int| 0 <= k < s.drop_first().len() && (#[trigger] s.drop_first()[k]).catalog_id == id implies s.drop_first()[k] == x by {
            assert(s.drop_first()[k] == s[k + 1]);
        }
        lemma_find_unique(s.drop_first(), id, x);
    }
}

proof fn lemma_find_by_path_found(catalog: Seq<SummaryV>, path: Seq<char>)
    requires
        find_by_path(catalog, path) is Some,
    ensures
        exists|i: int| 0 <= i < catalog.len() && same_file_spec((#[trigger] catalog[i]).path, Some(path)),
    decreases catalog.len(),
{
    if !same_file_spec(catalog[0].path, Some(path)) {
        lemma_find_by_path_found(catalog.drop_first(), path);
        let i = choose|i: int| 0 <= i < catalog.drop_first().len() && same_file_spec((#[trigger] catalog.drop_first()[i]).path, Some(path));
        assert(catalog[i + 1] == catalog.drop_first()[i]);
    } else {
        assert(same_file_spec(catalog[0].path, Some(path)));
    }
}

proof fn lemma_add_unlisted_new(
    list: Seq<SummaryV>,
    live: Seq<LiveV>,
    catalog: Seq<SummaryV>,
    now: Seq<char>,
    i: int,
)
    requires
        list.len() <= i < add_unlisted(list, live, catalog, now).len(),
    ensures
        exists|k: int|
            0 <= k < live.len() && add_unlisted(list, live, catalog, now)[i] == runtime_summary_spec(
                #[trigger] live[k],
                catalog,
                now,
                now,
            ) && !lists_path(list, live[k].session_file),
    decreases live.len(),
{
    let prev = live.drop_last();
    let acc = add_unlisted(list, prev, catalog, now);
    let r = add_unlisted(list, live, catalog, now);
    lemma_add_unlisted_keeps(list, prev, catalog, now);
    if i < acc.len() {
        lemma_add_unlisted_new(list, prev, catalog, now, i);
        let k = choose|k: int|
            0 <= k < prev.len() && acc[i] == runtime_summary_spec(#[trigger] prev[k], catalog, now, now)
                && !lists_path(list, prev[k].session_file);
        assert(live[k] == prev[k]);
        assert(r[i] == acc[i]);
    } else {
        let l = live.last();
        assert(!lists_path(acc, l.session_file));
        if lists_path(list, l.session_file) {
            let j = choose|j: int| 0 <= j < list.len() && same_file_spec((#[trigger] list[j]).path, l.session_file);
            assert(acc[j] == list[j]);
        }
        assert(live[live.len() - 1] == l);
    }
}

proof fn lemma_last_live_is(live: Seq<LiveV>, path: Option<Seq<char>>, k: int)
    requires
        0 <= k < live.len(),
        same_file_spec(live[k].session_file, path),
        forall|k2: int| k < k2 < live.len() ==> !same_file_spec((#[trigger] live[k2]).session_file, path),
    ensures
        last_live_at(live, path) == Some(live[k]),
    decreases live.len(),
{
    if k < live.len() - 1 {
        let p = live.drop_last();
        assert(!same_file_spec(live[live.len() - 1].session_file, path));
        assert forall|k2: int| k < k2 < p.len() implies !same_file_spec((#[trigger] p[k2]).session_file, path) by {
            assert(p[k2] == live[k2]);
        }
        assert(p[k] == live[k]);
        lemma_last_live_is(p, path, k);
    }
}

/// Opening a running catalog session again finds the session that runs on it: when exactly
/// one catalog session has the id, the running session `live[k]` has that session's file and
/// no running session after it has the same file, and no running session has the id as its
/// runtime id, the session list (in any order that keeps the merged list's order per time)
/// names `live[k]` for the id; `open_step` then reuses it whatever the limit.
pub proof fn lemma_open_running_again(
    catalog: Seq<SummaryV>,
    live: Seq<LiveV>,
    now: Seq<char>,
    listed: Seq<SummaryV>,
    id: Seq<char>,
    j: int,
    k: int,
)
    requires
        0 <= j < catalog.len(),
        catalog[j].catalog_id == id,
        forall|i: int| 0 <= i < catalog.len() && i != j ==> (#[trigger] catalog[i]).catalog_id != id,
        0 <= k < live.len(),
        same_file_spec(live[k].session_file, catalog[j].path),
        forall|k2: int| k < k2 < live.len() ==> !same_file_spec((#[trigger] live[k2]).session_file, catalog[j].path),
        forall|i: int| 0 <= i < live.len() ==> (#[trigger] live[i]).runtime_id != id,
        same_order_per_time(listed, merged_sessions(catalog, live, now)),
    ensures
        running_runtime_spec(listed, id) == Some(live[k].runtime_id),
{
    lemma_last_live_is(live, catalog[j].path, k);
    let marked = catalog.map_values(|s: SummaryV| mark_running(s, live));
    let m = merged_sessions(catalog, live, now);
    lemma_add_unlisted_keeps(marked, live, catalog, now);
    let x = m[j];
    assert(x == mark_running(catalog[j], live));
    assert forall|i: int| 0 <= i < m.len() && (#[trigger] m[i]).catalog_id == id implies m[i] == x by {
        if i < catalog.len() {
            assert(m[i] == marked[i]);
            assert(marked[i].catalog_id == catalog[i].catalog_id);
        } else {
            lemma_add_unlisted_new(marked, live, catalog, now, i);
            let k = choose|k: int|
                0 <= k < live.len() && m[i] == runtime_summary_spec(#[trigger] live[k], catalog, now, now)
                    && !lists_path(marked, live[k].session_file);
            let l = live[k];
            if let Some(p) = l.session_file {
                if find_by_path(catalog, p) is Some {
                    lemma_find_by_path_found(catalog, p);
                    let c = choose|c: int| 0 <= c < catalog.len() && same_file_spec((#[trigger] catalog[c]).path, Some(p));
                    assert(marked[c].path == catalog[c].path);
                    assert(lists_path(marked, l.session_file));
                }
            }
        }
    }
    assert forall|i: int| 0 <= i < listed.len() && (#[trigger] listed[i]).catalog_id == id implies listed[i] == x by {
        assert(listed.contains(listed[i]));
        lemma_same_members(listed, m, listed[i]);
    }
    assert(m.contains(x));
    lemma_same_members(listed, m, x);
    lemma_find_unique(listed, id, x);
}

} // verus!
