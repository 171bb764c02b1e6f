//! What the window and the service say to each other: one request, one response, one connection.

use vstd::prelude::*;

use crate::config::Settings;
#[allow(unused_imports)]
use crate::config::default_settings;

verus! {

pub const PIPE_NAME: &'static str = "\\\\.\\pipe\\dns-ai-svc";

/// Who may use the pipe: the system and administrators everything, and whoever sits at the machine
/// reading and writing.
pub const PIPE_SDDL: &'static str = "D:(A;;GA;;;SY)(A;;GA;;;BA)(A;;GRGW;;;IU)";

/// What the window asks for. Nothing in it names a path or an address.
#[derive(Clone, Copy, Debug, PartialEq, Eq, Structural)]
pub enum Request {
    Status,
    Enable,
    Disable,
    SetSettings { settings: Settings },
}

/// An adapter as the window shows it.
#[derive(Clone, Debug)]
pub struct AdapterView {
    pub alias: String,
    pub index: u32,
    pub current_v4: String,
    pub current_v6: String,
}

/// What the window draws.
#[derive(Clone, Debug)]
pub struct Status {
    /// Whether the adapters are pointed at the resolver, as far as is known.
    pub enabled: bool,
    /// Whether the local resolver listens.
    pub stub_running: bool,
    pub adapters: Vec<AdapterView>,
    pub settings: Settings,
    /// Whether this Windows has a DNS-over-HTTPS client.
    pub native_supported: bool,
    /// How the service is registered to start, which may differ from the setting.
    pub service_autostart: bool,
    pub service_version: String,
}

impl Default for Status {
    fn default() -> (r: Status)
        ensures
            !r.enabled,
            !r.stub_running,
            r.adapters@.len() == 0,
            r.settings == default_settings(),
            !r.native_supported,
            !r.service_autostart,
            r.service_version@.len() == 0,
    {
        Status {
            enabled: false,
            stub_running: false,
            adapters: Vec::new(),
            settings: Settings::default(),
            native_supported: false,
            service_autostart: false,
            service_version: String::new(),
        }
    }
}

/// What is answered.
#[derive(Debug)]
pub struct Response {
    pub ok: bool,
    pub error: Option<String>,
    pub status: Option<Status>,
}

impl Response {
    /// The request was carried out.
    pub fn ok(status: Status) -> (r: Response)
        ensures
            r == (Response { ok: true, error: None, status: Some(status) }),
    {
        Response { ok: true, error: None, status: Some(status) }
    }

    /// The request could not be carried out.
    pub fn err(e: String) -> (r: Response)
        ensures
            r == (Response { ok: false, error: Some(e), status: None }),
    {
        Response { ok: false, error: Some(e), status: None }
    }

    /// What came of a request. The state of the machine goes back in either case.
    pub fn after(result: Result<(), String>, status: Status) -> (r: Response)
        ensures
            r == (match result {
                Ok(_) => Response { ok: true, error: None, status: Some(status) },
                Err(e) => Response { ok: false, error: Some(e), status: Some(status) },
            }),
    {
        match result {
            Ok(_) => Response::ok(status),
            Err(e) => Response { ok: false, error: Some(e), status: Some(status) },
        }
    }

    /// What was asked could not be read.
    pub fn unreadable(cause: &str) -> (r: Response)
        ensures
            !r.ok,
            r.error is Some,
            r.error->0@ == "некорректный запрос: "@ + cause@,
            r.status is None,
    {
        let mut text = "некорректный запрос: ".to_owned();
        text.append(cause);
        Response::err(text)
    }
}

/// All instances of the pipe are busy.
pub const ERROR_PIPE_BUSY: i32 = 231;

/// How often the pipe is tried.
pub const PIPE_ATTEMPTS: u32 = 10;

/// What to do after the pipe could not be opened.
#[derive(Clone, Copy, Debug, PartialEq, Eq, Structural)]
pub enum PipeStep {
    /// It is tried again after a short wait.
    Retry,
    /// It stayed busy.
    Busy,
    /// There is nobody at the other end.
    Silent,
}

impl PipeStep {
    /// What a step that gives up says to a person.
    pub fn message(&self) -> (r: Option<&'static str>)
        ensures
            match *self {
                PipeStep::Retry => r is None,
                PipeStep::Busy => r is Some && r->0@ == "служба занята"@,
                PipeStep::Silent => r is Some && r->0@ == "служба DNS-AI не отвечает"@,
            },
    {
        match self {
            PipeStep::Retry => None,
            PipeStep::Busy => Some("служба занята"),
            PipeStep::Silent => Some("служба DNS-AI не отвечает"),
        }
    }
}

/// What to do after `attempts` attempts to open the pipe, the last of which failed with `code`. Only
/// a busy pipe is tried again.
pub fn pipe_step(attempts: u32, code: Option<i32>) -> (r: PipeStep)
    ensures
        r == (if code != Some(ERROR_PIPE_BUSY) {
            PipeStep::Silent
        } else if attempts < PIPE_ATTEMPTS {
            PipeStep::Retry
        } else {
            PipeStep::Busy
        }),
{
    match code {
        Some(c) => if c == ERROR_PIPE_BUSY {
            if attempts < PIPE_ATTEMPTS {
                PipeStep::Retry
            } else {
                PipeStep::Busy
            }
        } else {
            PipeStep::Silent
        },
        None => PipeStep::Silent,
    }
}

/// Where the window and the service meet, and who may: the system and administrators everything,
/// whoever sits at the machine reading and writing.
pub proof fn law_where_they_meet()
    ensures
        PIPE_NAME@ == "\\\\.\\pipe\\dns-ai-svc"@,
        PIPE_SDDL@ == "D:(A;;GA;;;SY)(A;;GA;;;BA)(A;;GRGW;;;IU)"@,
        ERROR_PIPE_BUSY == 231,
        PIPE_ATTEMPTS == 10,
{
}

} // verus!
