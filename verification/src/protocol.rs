//! Messages between the browser and the server, and the session summaries they carry.

use vstd::prelude::*;
use crate::json::Json;
use crate::text::{copy_opt, opt_view};

verus! {

/// A request from the browser.
#[derive(Debug)]
pub enum ClientMessage {
    ListSessions,
    CreateSession,
    OpenSession { catalog_id: String },
    ActivateSession { runtime_id: String },
    Prompt { runtime_id: String, message: String, behavior: PromptBehavior },
    Abort { runtime_id: String },
    Compact { runtime_id: String },
    SetModel { runtime_id: String, provider: String, model_id: String },
    SetThinkingLevel { runtime_id: String, level: String },
}

/// How a prompt joins a conversation that may still be streaming.
#[derive(PartialEq, Eq, Structural, Clone, Copy, Debug)]
pub enum PromptBehavior {
    Normal,
    Steer,
    FollowUp,
}

impl Default for PromptBehavior {
    fn default() -> (r: PromptBehavior)
        ensures
            r == PromptBehavior::Normal,
    {
        PromptBehavior::Normal
    }
}

/// A message from the server to the browser.
#[derive(Debug)]
pub enum ServerMessage {
    Hello { protocol: u8 },
    Sessions { sessions: Vec<SessionSummary> },
    SessionOpened { session: Box<SessionSummary>, state: Json, messages: Vec<Json>, entries: Vec<Json> },
    RpcEvent { runtime_id: String, event: Json },
    Error { message: String },
}

/// One session as the session menu shows it.
#[derive(Debug)]
pub struct SessionSummary {
    pub catalog_id: String,
    pub runtime_id: Option<String>,
    pub title: String,
    pub cwd: String,
    pub created_at: String,
    pub modified_at: String,
    pub message_count: usize,
    pub running: bool,
    /// The session file; never sent to the browser.
    pub path: Option<String>,
}

/// A session summary with its texts as character sequences.
pub struct SummaryV {
    pub catalog_id: Seq<char>,
    pub runtime_id: Option<Seq<char>>,
    pub title: Seq<char>,
    pub cwd: Seq<char>,
    pub created_at: Seq<char>,
    pub modified_at: Seq<char>,
    pub message_count: nat,
    pub running: bool,
    pub path: Option<Seq<char>>,
}

impl View for SessionSummary {
    type V = SummaryV;

    open spec fn view(&self) -> SummaryV {
        SummaryV {
            catalog_id: self.catalog_id@,
            runtime_id: opt_view(self.runtime_id),
            title: self.title@,
            cwd: self.cwd@,
            created_at: self.created_at@,
            modified_at: self.modified_at@,
            message_count: self.message_count as nat,
            running: self.running,
            path: opt_view(self.path),
        }
    }
}

/// The summaries of a list, in order.
pub open spec fn summaries_view(s: Seq<SessionSummary>) -> Seq<SummaryV> {
    s.map_values(|x: SessionSummary| x@)
}

impl SessionSummary {
    /// A copy of this summary.
    pub fn copy(&self) -> (r: SessionSummary)
        ensures
            r@ == self@,
    {
        SessionSummary {
            catalog_id: self.catalog_id.clone(),
            runtime_id: copy_opt(&self.runtime_id),
            title: self.title.clone(),
            cwd: self.cwd.clone(),
            created_at: self.created_at.clone(),
            modified_at: self.modified_at.clone(),
            message_count: self.message_count,
            running: self.running,
            path: copy_opt(&self.path),
        }
    }
}

} // verus!
