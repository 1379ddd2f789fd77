//! Server settings and how the missing ones are filled in.

use vstd::prelude::*;
use crate::text::{opt_view, owned, push_text, string_of};

verus! {

/// The settings of the server.
#[derive(Debug)]
pub struct Config {
    /// Address to listen on. Keep loopback-only behind Caddy/Tailscale.
    pub host: String,
    /// HTTP/WebSocket port.
    pub port: u16,
    /// Working directory for newly created Pi sessions.
    pub cwd: Option<String>,
    /// Pi executable.
    pub pi_binary: String,
    /// Pi agent data directory.
    pub agent_dir: Option<String>,
    /// Maximum number of live Pi RPC processes.
    pub max_sessions: usize,
}

/// Why the settings could not be completed.
#[derive(Debug)]
pub enum ConfigError {
    NoCurrentDir,
    NoHomeDir,
}

impl ConfigError {
    pub open spec fn message_spec(&self) -> Seq<char> {
        match self {
            ConfigError::NoCurrentDir => "cannot resolve current directory"@,
            ConfigError::NoHomeDir => "cannot resolve home directory"@,
        }
    }

    pub fn message(&self) -> (r: String)
        ensures
            r@ == self.message_spec(),
    {
        match self {
            ConfigError::NoCurrentDir => owned("cannot resolve current directory"),
            ConfigError::NoHomeDir => owned("cannot resolve home directory"),
        }
    }
}

/// `base` joined with the relative path `rel`, as `Path::join` does: a "/" goes between
/// them unless `base` is empty or already ends with one.
pub open spec fn join_path_spec(base: Seq<char>, rel: Seq<char>) -> Seq<char> {
    if base.len() == 0 || base.last() == '/' {
        base + rel
    } else {
        base + seq!['/'] + rel
    }
}

/// Joins a relative path to a base path.
pub fn join_path(base: &str, rel: &str) -> (r: String)
    ensures
        r@ == join_path_spec(base@, rel@),
{
    let mut v: Vec<char> = Vec::new();
    push_text(&mut v, base);
    if v.len() > 0 && v[v.len() - 1] != '/' {
        v.push('/');
    }
    push_text(&mut v, rel);
    string_of(v.as_slice())
}

/// Calls `dirs::home_dir` and gives the path as text; a home path that is not valid
/// UTF-8 gives nothing, as the settings hold paths as text and a lossy rendering would
/// name another directory. Nothing is stated of the result: it comes from the environment
/// or the user database.
#[verifier::external_body]
fn home_dir() -> Option<String> {
    match dirs::home_dir() {
        Some(p) => p.into_os_string().into_string().ok(),
        None => None,
    }
}

/// The settings completed with the given current directory and home directory: the working
/// directory defaults to the current one, the agent directory to `.pi/agent` under home.
pub open spec fn resolve_spec(
    cwd: Option<Seq<char>>,
    agent_dir: Option<Seq<char>>,
    current_dir: Option<Seq<char>>,
    home_dir: Option<Seq<char>>,
) -> Result<(Seq<char>, Seq<char>), ConfigError> {
    let c = match cwd {
        Some(c) => Some(c),
        None => current_dir,
    };
    match c {
        None => Err(ConfigError::NoCurrentDir),
        Some(c) => {
            let a = match agent_dir {
                Some(a) => Some(a),
                None => match home_dir {
                    Some(h) => Some(join_path_spec(h, ".pi/agent"@)),
                    None => None,
                },
            };
            match a {
                None => Err(ConfigError::NoHomeDir),
                Some(a) => Ok((c, a)),
            }
        },
    }
}

impl Config {
    /// Fills in the working directory and the agent directory from the given current and
    /// home directories.
    pub fn resolve_with(self, current_dir: Option<String>, home_dir: Option<String>) -> (r:
        Result<Config, ConfigError>)
        ensures
            match r {
                Ok(c) => resolve_spec(
                    opt_view(self.cwd),
                    opt_view(self.agent_dir),
                    opt_view(current_dir),
                    opt_view(home_dir),
                ) == Ok::<(Seq<char>, Seq<char>), ConfigError>(
                    (opt_view(c.cwd)->0, opt_view(c.agent_dir)->0),
                ) && c.cwd is Some && c.agent_dir is Some && c.host == self.host && c.port
                    == self.port && c.pi_binary == self.pi_binary && c.max_sessions
                    == self.max_sessions,
                Err(e) => resolve_spec(
                    opt_view(self.cwd),
                    opt_view(self.agent_dir),
                    opt_view(current_dir),
                    opt_view(home_dir),
                ) == Err::<(Seq<char>, Seq<char>), ConfigError>(e),
            },
    {
        let mut config = self;
        if config.cwd.is_none() {
            match current_dir {
                Some(d) => config.cwd = Some(d),
                None => return Err(ConfigError::NoCurrentDir),
            }
        }
        if config.agent_dir.is_none() {
            match home_dir {
                Some(h) => config.agent_dir = Some(join_path(h.as_str(), ".pi/agent")),
                None => return Err(ConfigError::NoHomeDir),
            }
        }
        Ok(config)
    }

    /// Fills in the working directory from `current_dir` and, when it is missing, the agent
    /// directory from the user's home directory.
    pub fn resolve(self, current_dir: Option<String>) -> (r: Result<Config, ConfigError>)
        ensures
            match r {
                Ok(c) => c.cwd is Some && c.agent_dir is Some && opt_view(c.cwd) == (match self.cwd {
                    Some(d) => opt_view(Some(d)),
                    None => opt_view(current_dir),
                }) && (self.agent_dir is Some ==> opt_view(c.agent_dir) == opt_view(self.agent_dir)) && (
                self.agent_dir is None ==> exists|h: Seq<char>|
                    opt_view(c.agent_dir) == Some(join_path_spec(h, ".pi/agent"@))) && c.host
                    == self.host && c.port == self.port && c.pi_binary == self.pi_binary
                    && c.max_sessions == self.max_sessions,
                Err(e) => (e is NoCurrentDir <==> (self.cwd is None && current_dir is None)) && (
                e is NoHomeDir ==> self.agent_dir is None),
            },
    {
        let home = if self.agent_dir.is_none() && (self.cwd.is_some() || current_dir.is_some()) {
            home_dir()
        } else {
            None
        };
        self.resolve_with(current_dir, home)
    }

    /// The working directory of a resolved configuration.
    pub fn cwd(&self) -> (r: &String)
        requires
            self.cwd is Some,
        ensures
            Some(*r) == self.cwd,
    {
        self.cwd.as_ref().unwrap()
    }

    /// The agent directory of a resolved configuration.
    pub fn agent_dir(&self) -> (r: &String)
        requires
            self.agent_dir is Some,
        ensures
            Some(*r) == self.agent_dir,
    {
        self.agent_dir.as_ref().unwrap()
    }
}

/// Where Pi keeps its session files: the `sessions` directory of the agent directory.
pub fn sessions_dir(agent_dir: &str) -> (r: String)
    ensures
        r@ == join_path_spec(agent_dir@, "sessions"@),
{
    join_path(agent_dir, "sessions")
}

} // verus!
