//! The life cycle of the `llama-server` process as a state machine: what
//! starting, stopping and polling decide. Spawning, killing, waiting and
//! the HTTP health check are done by the caller, which hands their outcome
//! back.

use vstd::prelude::*;
use crate::args::{alias_of_path, bare_name, spec_file_stem, extract_host_port, is_model_flag, model_alias, model_flag_message, profile_args_valid, spec_host_port, spec_split_args, split_args, unclosed_quote_message, validate_profile_args, views};
use crate::config::{spec_active_profile, AppConfig, BinaryLocation};
use crate::text::{chars_of, trim_quotes, decimal, decimal_chars, push_all, push_lit, signed_decimal, signed_decimal_chars, string_of, sub_chars};

verus! {

broadcast use vstd::string::group_string_axioms;

/// Where the server is in its life cycle.
#[derive(Clone, Copy, PartialEq, Eq, Structural, Debug)]
pub enum ServerPhase {
    Stopped,
    Starting,
    RunningEmpty,
    RunningLoaded,
    Error,
}

/// A process has been spawned and not yet seen to end or been stopped.
pub open spec fn is_live(p: ServerPhase) -> bool {
    p == ServerPhase::Starting || p == ServerPhase::RunningEmpty || p == ServerPhase::RunningLoaded
}

/// Whether `p` is a phase with a spawned server process.
pub fn phase_is_live(p: ServerPhase) -> (r: bool)
    ensures
        r == is_live(p),
{
    p == ServerPhase::Starting || p == ServerPhase::RunningEmpty || p == ServerPhase::RunningLoaded
}

/// What the user interface shows of the server.
#[derive(Clone, Debug)]
pub struct ServerStatus {
    pub phase: ServerPhase,
    pub pid: Option<u32>,
    pub url: Option<String>,
    pub loaded_model: Option<String>,
    pub last_error: Option<String>,
    pub wants_model: bool,
}

/// The status of a server that is not running and has no error.
pub open spec fn is_stopped_status(s: ServerStatus) -> bool {
    &&& s.phase == ServerPhase::Stopped
    &&& s.pid is None
    &&& s.url is None
    &&& s.loaded_model is None
    &&& s.last_error is None
    &&& !s.wants_model
}

impl Default for ServerStatus {
    fn default() -> (r: ServerStatus)
        ensures
            is_stopped_status(r),
    {
        ServerStatus {
            phase: ServerPhase::Stopped,
            pid: None,
            url: None,
            loaded_model: None,
            last_error: None,
            wants_model: false,
        }
    }
}

fn copy_text(o: &Option<String>) -> (r: Option<String>)
    ensures
        r == *o,
{
    match o {
        Some(s) => Some(s.clone()),
        None => None,
    }
}

impl ServerStatus {
    /// A copy of this status.
    pub fn snapshot(&self) -> (r: ServerStatus)
        ensures
            r == *self,
    {
        ServerStatus {
            phase: self.phase,
            pid: self.pid,
            url: copy_text(&self.url),
            loaded_model: copy_text(&self.loaded_model),
            last_error: copy_text(&self.last_error),
            wants_model: self.wants_model,
        }
    }
}


/// Everything needed to spawn the server, as decided from the settings.
#[derive(Debug)]
pub struct LaunchPlan {
    /// Where the binary is, relative to the configured path.
    pub binary: BinaryLocation,
    /// The profile's tokens as written, quotes kept (passed verbatim where
    /// the platform takes a raw command line).
    pub args: Vec<String>,
    /// The same tokens, each without one pair of surrounding double quotes.
    pub bare_args: Vec<String>,
    /// The model file to load, if any.
    pub model: Option<String>,
    /// The alias to serve the model under, present with `model`.
    pub alias: Option<String>,
    /// The base URL at which the server will answer.
    pub url: String,
    /// Whether a model was asked for.
    pub with_model: bool,
}

/// A token without one pair of surrounding double quotes.
pub open spec fn bare_arg(a: Seq<char>) -> Seq<char> {
    if a.len() >= 2 && a[0] == '"' && a.last() == '"' {
        a.subrange(1, a.len() - 1)
    } else {
        a
    }
}

/// The arguments that load a model: `-m`, its path, `--alias`, its alias;
/// none when there is no model.
pub open spec fn model_args(model: Option<String>, alias: Option<String>) -> Seq<Seq<char>> {
    match (model, alias) {
        (Some(m), Some(a)) => seq!["-m"@, m@, "--alias"@, a@],
        _ => seq![],
    }
}

fn push_copies(out: &mut Vec<String>, items: &Vec<String>)
    ensures
        views(final(out)@) == views(old(out)@) + views(items@),
{
    let ghost start = views(out@);
    let mut i: usize = 0;
    while i < items.len()
        invariant
            i <= items.len(),
            views(out@) == start + views(items@).take(i as int),
        decreases items.len() - i,
    {
        let ghost prev = out@;
        let c = items[i].clone();
        assert(c@ == items@[i as int]@);
        out.push(c);
        assert(out@ =~= prev.push(c));
        assert(views(out@) =~= views(prev).push(c@));
        assert(views(items@).take(i + 1) =~= views(items@).take(i as int).push(items@[i as int]@));
        i = i + 1;
    }
    assert(views(items@).take(items@.len() as int) =~= views(items@));
}

impl LaunchPlan {
    /// The server's command line after the program: the profile's tokens,
    /// as written when `raw` (for a platform that takes the command line
    /// raw) and otherwise without surrounding double quotes, followed by the
    /// arguments that load the model, if any.
    pub fn command_args(&self, raw: bool) -> (r: Vec<String>)
        ensures
            views(r@) == (if raw {
                views(self.args@)
            } else {
                views(self.bare_args@)
            }) + model_args(self.model, self.alias),
    {
        let mut out: Vec<String> = Vec::new();
        assert(views(out@) =~= Seq::<Seq<char>>::empty());
        if raw {
            push_copies(&mut out, &self.args);
        } else {
            push_copies(&mut out, &self.bare_args);
        }
        let ghost before = views(out@);
        match (&self.model, &self.alias) {
            (Some(m), Some(a)) => {
                out.push("-m".to_string());
                out.push(m.clone());
                out.push("--alias".to_string());
                out.push(a.clone());
                assert(views(out@) =~= before + seq!["-m"@, m@, "--alias"@, a@]);
            },
            _ => {
                assert(views(out@) =~= before + Seq::<Seq<char>>::empty());
            },
        }
        out
    }
}

/// The base URL of a server listening at `host` and `port`.
pub open spec fn spec_url(host: Seq<char>, port: u16) -> Seq<char> {
    "http://"@ + host + ":"@ + decimal(port as nat)
}

/// The error text, if any, with which a start is refused: the server is
/// live, the binary was not found, there is no profile, the profile's
/// arguments are invalid, or the requested model is missing.
pub open spec fn spec_start_error(
    phase: ServerPhase,
    config: AppConfig,
    binary: Result<BinaryLocation, Seq<char>>,
    with_model: bool,
    model_exists: bool,
) -> Option<Seq<char>> {
    if is_live(phase) {
        Some("Server is already running or starting"@)
    } else {
        match binary {
            Err(e) => Some(e),
            Ok(_) => match spec_active_profile(config) {
                None => Some("No active profile"@),
                Some(p) => if !profile_args_valid(p.args@) {
                    Some(
                        if spec_split_args(p.args@) is None {
                            unclosed_quote_message()
                        } else {
                            model_flag_message()
                        },
                    )
                } else if with_model {
                    match config.active_model_path {
                        None => Some("No model selected"@),
                        Some(m) => if !model_exists {
                            Some("Model file not found: "@ + m@)
                        } else {
                            None
                        },
                    }
                } else {
                    None
                },
            },
        }
    }
}

/// The view of a result whose error is text.
pub open spec fn result_view<T>(r: Result<T, String>) -> Result<T, Seq<char>> {
    match r {
        Ok(v) => Ok(v),
        Err(e) => Err(e@),
    }
}

fn bare_token(t: &String) -> (r: String)
    ensures
        r@ == bare_arg(t@),
{
    let v = chars_of(t.as_str());
    let n = v.len();
    if n >= 2 && v[0] == '"' && v[n - 1] == '"' {
        string_of(&sub_chars(&v, 1, n - 1))
    } else {
        t.clone()
    }
}

/// Decides how to start the server from the settings. `binary` is the
/// outcome of `AppConfig::resolve_llama_binary`, and `model_exists` whether
/// the selected model path names a file; both are only consulted once the
/// earlier checks pass.
pub fn plan_start(
    status: &ServerStatus,
    config: &AppConfig,
    binary: Result<BinaryLocation, String>,
    with_model: bool,
    model_exists: bool,
) -> (r: Result<LaunchPlan, String>)
    ensures
        r is Err <==> spec_start_error(
            status.phase,
            *config,
            result_view(binary),
            with_model,
            model_exists,
        ) is Some,
        r matches Err(e) ==> spec_start_error(
            status.phase,
            *config,
            result_view(binary),
            with_model,
            model_exists,
        ) == Some(e@),
        r matches Ok(plan) ==> {
            let p = spec_active_profile(*config)->0;
            let hp = spec_host_port(Some(p.args@));
            &&& spec_active_profile(*config) is Some
            &&& binary == Ok::<BinaryLocation, String>(plan.binary)
            &&& spec_split_args(p.args@) == Some(views(plan.args@))
            &&& plan.bare_args@.len() == plan.args@.len()
            &&& forall|i: int|
                0 <= i < plan.args@.len() ==> (#[trigger] plan.bare_args@[i])@ == bare_arg(
                    plan.args@[i]@,
                )
            &&& plan.model == if with_model {
                config.active_model_path
            } else {
                None
            }
            &&& plan.with_model == with_model
            &&& (plan.with_model ==> plan.model is Some)
            &&& (plan.alias is Some <==> plan.model is Some)
            &&& (plan.alias matches Some(a) ==> alias_of_path(plan.model->0@, a@) && a@.len() > 0)
            &&& (plan.alias matches Some(a) ==> (bare_name(plan.model->0@) ==> a@ == spec_file_stem(
                plan.model->0@,
            )))
            &&& plan.url@ == spec_url(hp.0, hp.1)
            &&& forall|i: int|
                0 <= i < plan.args@.len() ==> !is_model_flag(trim_quotes(#[trigger] plan.args@[i]@))
        },
{
    if phase_is_live(status.phase) {
        return Err("Server is already running or starting".to_string());
    }
    let location = match binary {
        Ok(l) => l,
        Err(e) => {
            return Err(e);
        },
    };
    let profile = match config.active_profile() {
        Some(p) => p,
        None => {
            return Err("No active profile".to_string());
        },
    };
    match validate_profile_args(profile.args.as_str()) {
        Ok(()) => {},
        Err(e) => {
            return Err(e);
        },
    }
    let args = match split_args(profile.args.as_str()) {
        Ok(a) => a,
        Err(e) => {
            return Err(e);
        },
    };
    let model: Option<String> = if with_model {
        match &config.active_model_path {
            None => {
                return Err("No model selected".to_string());
            },
            Some(m) => {
                if !model_exists {
                    let mut msg = chars_of("Model file not found: ");
                    let mv = chars_of(m.as_str());
                    push_all(&mut msg, &mv);
                    return Err(string_of(&msg));
                }
                Some(m.clone())
            },
        }
    } else {
        None
    };
    let alias = match &model {
        Some(m) => Some(model_alias(m.as_str())),
        None => None,
    };
    let (host, port) = extract_host_port(Some(profile));
    let mut url = chars_of("http://");
    let hv = chars_of(host.as_str());
    push_all(&mut url, &hv);
    push_lit(&mut url, ":");
    let pv = decimal_chars(port as u64);
    push_all(&mut url, &pv);
    let mut bare_args: Vec<String> = Vec::new();
    let mut i: usize = 0;
    proof {
        assert forall|k: int| 0 <= k < args@.len() implies !is_model_flag(
            trim_quotes(#[trigger] args@[k]@),
        ) by {
            assert(views(args@)[k] == args@[k]@);
        }
    }
    while i < args.len()
        invariant
            i <= args.len(),
            bare_args@.len() == i,
            forall|j: int| 0 <= j < i ==> (#[trigger] bare_args@[j])@ == bare_arg(args@[j]@),
        decreases args.len() - i,
    {
        bare_args.push(bare_token(&args[i]));
        i = i + 1;
    }
    Ok(
        LaunchPlan {
            binary: location,
            args,
            bare_args,
            model,
            alias,
            url: string_of(&url),
            with_model,
        },
    )
}


/// How long a starting server may take to answer its health check, in
/// seconds.
pub const HEALTH_WAIT_SECS: u64 = 120;

/// Whether a start that has been waiting `secs` seconds and `subsec_nanos`
/// nanoseconds has waited longer than `HEALTH_WAIT_SECS`.
pub fn health_wait_expired(secs: u64, subsec_nanos: u32) -> (r: bool)
    requires
        subsec_nanos < 1_000_000_000,
    ensures
        r == (secs as int * 1_000_000_000 + subsec_nanos as int > HEALTH_WAIT_SECS as int
            * 1_000_000_000),
{
    secs > HEALTH_WAIT_SECS || (secs == HEALTH_WAIT_SECS && subsec_nanos > 0)
}

/// What the caller saw when it asked the spawned process whether it ended
/// (`Child::try_wait`).
#[derive(Debug)]
pub enum ProcessCheck {
    /// The process ended, with this exit code if it had one.
    Exited(Option<i32>),
    /// The process is still running.
    Running,
    /// Asking failed, with this message.
    Failed(String),
}

/// What the caller must do after `ServerManager::poll_process`.
#[derive(Debug)]
pub enum PollStep {
    /// Nothing more this round.
    Done,
    /// Ask this URL whether the server is healthy, then call
    /// `ServerManager::poll_health`.
    CheckHealth(String),
}

/// The answer of the health endpoint.
#[derive(Debug)]
pub enum HealthOutcome {
    /// It answered with a success status.
    Healthy,
    /// It answered with another status.
    Unhealthy,
    /// The request failed, with this message.
    Failed(String),
}

/// The server process and what is known about it. `C` is the handle of the
/// spawned process and `T` the moment it was spawned; the manager only
/// keeps them.
pub struct ServerManager<C, T> {
    child: Option<C>,
    status: ServerStatus,
    started_at: Option<T>,
    spawn_model: Option<String>,
}

/// The status after a failed start is given up: the error phase with
/// nothing running, keeping the error `last_error`.
pub open spec fn stopped_with_error(last_error: Option<String>) -> ServerStatus {
    ServerStatus {
        phase: ServerPhase::Error,
        pid: None,
        url: None,
        loaded_model: None,
        last_error,
        wants_model: false,
    }
}

/// The text of the recorded error, if any.
pub open spec fn error_text(s: ServerStatus) -> Option<Seq<char>> {
    match s.last_error {
        Some(m) => Some(m@),
        None => None,
    }
}

/// Error text: the process ended with exit code `code` (`-1` if none).
pub open spec fn exit_message(code: Option<i32>) -> Seq<char> {
    "llama-server process exited (code "@ + signed_decimal(
        match code {
            Some(c) => c as int,
            None => -1,
        },
    ) + ")"@
}

impl<C, T> Default for ServerManager<C, T> {
    fn default() -> (r: Self)
        ensures
            r.wf(),
            is_stopped_status(r.view_status()),
            !r.has_child(),
            r.view_spawn_model() is None,
    {
        ServerManager::new()
    }
}

impl<C, T> ServerManager<C, T> {
    /// The status shown to the user.
    pub closed spec fn view_status(&self) -> ServerStatus {
        self.status
    }

    /// The handle of the spawned process, if one is held.
    pub closed spec fn view_child(&self) -> Option<C> {
        self.child
    }

    /// The moment the held process was spawned.
    pub closed spec fn view_started_at(&self) -> Option<T> {
        self.started_at
    }

    /// Whether a spawned process is held.
    pub open spec fn has_child(&self) -> bool {
        self.view_child() is Some
    }

    /// Whether the spawn time is held.
    pub open spec fn has_started_at(&self) -> bool {
        self.view_started_at() is Some
    }

    /// The model the current or last spawn was asked to load.
    pub closed spec fn view_spawn_model(&self) -> Option<String> {
        self.spawn_model
    }

    /// The manager's invariant: a process is held exactly while the phase
    /// is live, together with its spawn time and pid; a model is reported
    /// loaded exactly in the loaded phase; a spawn that wants a model names
    /// one; a live server has a URL.
    pub open spec fn wf(&self) -> bool {
        &&& self.has_child() == is_live(self.view_status().phase)
        &&& is_live(self.view_status().phase) ==> self.view_status().url is Some
        &&& self.has_started_at() == self.has_child()
        &&& self.view_status().pid is Some == self.has_child()
        &&& (self.view_status().phase == ServerPhase::RunningLoaded)
            == self.view_status().loaded_model is Some
        &&& self.view_status().wants_model ==> self.view_spawn_model() is Some
    }

    /// A manager with no process and a stopped status.
    pub fn new() -> (r: Self)
        ensures
            r.wf(),
            is_stopped_status(r.view_status()),
            !r.has_child(),
            r.view_spawn_model() is None,
    {
        ServerManager {
            child: None,
            status: ServerStatus::default(),
            started_at: None,
            spawn_model: None,
        }
    }

    /// A copy of the status.
    pub fn status(&self) -> (r: ServerStatus)
        ensures
            r == self.view_status(),
    {
        self.status.snapshot()
    }

    /// The moment the current process was spawned.
    pub fn started_at(&self) -> (r: Option<&T>)
        ensures
            r is Some == self.has_started_at(),
            r matches Some(t) ==> *t == self.view_started_at()->0,
    {
        self.started_at.as_ref()
    }

    /// The handle of the current process, to ask it whether it ended.
    pub fn child_mut(&mut self) -> (r: Option<&mut C>)
        ensures
            r is Some == old(self).has_child(),
            r matches Some(c) ==> *c == old(self).view_child()->0,
            final(self).has_child() == old(self).has_child(),
            final(self).view_status() == old(self).view_status(),
            final(self).has_started_at() == old(self).has_started_at(),
            final(self).view_spawn_model() == old(self).view_spawn_model(),
    {
        self.child.as_mut()
    }

    /// Records an error message without changing the phase.
    pub fn set_last_error(&mut self, msg: String)
        requires
            old(self).wf(),
        ensures
            final(self).wf(),
            final(self).view_status() == (ServerStatus { last_error: Some(msg), ..old(self).view_status() }),
            final(self).has_child() == old(self).has_child(),
            final(self).view_spawn_model() == old(self).view_spawn_model(),
    {
        self.status.last_error = Some(msg);
    }

    /// Takes over a freshly spawned process: the server is starting, at the
    /// plan's URL, wanting the plan's model.
    pub fn start(&mut self, plan: LaunchPlan, child: C, started_at: T, pid: u32)
        requires
            old(self).wf(),
            !is_live(old(self).view_status().phase),
            plan.with_model ==> plan.model is Some,
        ensures
            final(self).wf(),
            final(self).has_child(),
            final(self).view_status() == (ServerStatus {
                phase: ServerPhase::Starting,
                pid: Some(pid),
                url: Some(plan.url),
                loaded_model: None,
                last_error: None,
                wants_model: plan.with_model,
            }),
            final(self).view_spawn_model() == plan.model,
            final(self).view_child() == Some(child),
            final(self).view_started_at() == Some(started_at),
    {
        self.child = Some(child);
        self.spawn_model = plan.model;
        self.started_at = Some(started_at);
        self.status = ServerStatus {
            phase: ServerPhase::Starting,
            pid: Some(pid),
            url: Some(plan.url),
            loaded_model: None,
            last_error: None,
            wants_model: plan.with_model,
        };
    }

    /// Stops tracking the process and returns its handle, for the caller to
    /// kill and reap; the status becomes stopped.
    pub fn stop(&mut self) -> (r: Option<C>)
        requires
            old(self).wf(),
        ensures
            final(self).wf(),
            r == old(self).view_child(),
            !final(self).has_child(),
            is_stopped_status(final(self).view_status()),
            final(self).view_spawn_model() is None,
    {
        let c = self.child.take();
        self.started_at = None;
        self.spawn_model = None;
        self.status = ServerStatus::default();
        c
    }

    /// Stops after a failure, keeping the error: the status ends in the
    /// error phase when it was already there or an error is recorded, and
    /// is stopped otherwise.
    fn stop_keep_error(&mut self) -> (r: Option<C>)
        ensures
            final(self).wf(),
            r == old(self).view_child(),
            !final(self).has_child(),
            final(self).view_status() == (ServerStatus {
                phase: if old(self).view_status().phase == ServerPhase::Error
                    || old(self).view_status().last_error is Some {
                    ServerPhase::Error
                } else {
                    ServerPhase::Stopped
                },
                pid: None,
                url: None,
                loaded_model: None,
                last_error: old(self).view_status().last_error,
                wants_model: false,
            }),
            final(self).view_spawn_model() is None,
    {
        let err = copy_text(&self.status.last_error);
        let phase = self.status.phase;
        let c = self.child.take();
        self.started_at = None;
        self.spawn_model = None;
        self.status = ServerStatus {
            phase: if phase == ServerPhase::Error {
                ServerPhase::Error
            } else {
                ServerPhase::Stopped
            },
            pid: None,
            url: None,
            loaded_model: None,
            last_error: err,
            wants_model: false,
        };
        if self.status.phase != ServerPhase::Error && self.status.last_error.is_some() {
            self.status.phase = ServerPhase::Error;
        }
        c
    }

    /// The first half of a poll: reacts to what the process check found.
    /// An ended process puts the server in the error phase; a live server
    /// with a URL is to be health-checked at `<url>/health`.
    pub fn poll_process(&mut self, check: ProcessCheck) -> (r: PollStep)
        requires
            old(self).wf(),
        ensures
            final(self).wf(),
            old(self).has_child() ==> match check {
                ProcessCheck::Exited(code) => {
                    &&& !final(self).has_child()
                    &&& final(self).view_status() == (ServerStatus {
                        phase: ServerPhase::Error,
                        pid: None,
                        loaded_model: None,
                        last_error: final(self).view_status().last_error,
                        ..old(self).view_status()
                    })
                    &&& error_text(final(self).view_status()) == Some(exit_message(code))
                    &&& r is Done
                },
                ProcessCheck::Running => final(self).view_status() == old(self).view_status(),
                ProcessCheck::Failed(e) => {
                    &&& final(self).view_status() == (ServerStatus {
                        last_error: final(self).view_status().last_error,
                        ..old(self).view_status()
                    })
                    &&& error_text(final(self).view_status()) == Some("Process check error: "@ + e@)
                },
            },
            old(self).has_child() && !(check is Exited) ==> final(self).has_child() && (r matches PollStep::CheckHealth(u)
                && final(self).view_status().url matches Some(base) && u@ == base@ + "/health"@),
            !old(self).has_child() ==> r is Done && final(self).view_status() == old(
                self,
            ).view_status(),
            final(self).view_spawn_model() == old(self).view_spawn_model(),
    {
        if self.child.is_some() {
            match check {
                ProcessCheck::Exited(code) => {
                    let c: i32 = match code {
                        Some(c) => c,
                        None => -1,
                    };
                    let mut msg = chars_of("llama-server process exited (code ");
                    let cv = signed_decimal_chars(c as i64);
                    push_all(&mut msg, &cv);
                    push_lit(&mut msg, ")");
                    self.child = None;
                    self.started_at = None;
                    self.status.phase = ServerPhase::Error;
                    self.status.pid = None;
                    self.status.loaded_model = None;
                    self.status.last_error = Some(string_of(&msg));
                    return PollStep::Done;
                },
                ProcessCheck::Running => {},
                ProcessCheck::Failed(e) => {
                    let mut msg = chars_of("Process check error: ");
                    let ev = chars_of(e.as_str());
                    push_all(&mut msg, &ev);
                    self.status.last_error = Some(string_of(&msg));
                },
            }
        } else if phase_is_live(self.status.phase) {
            self.status.phase = ServerPhase::Error;
            self.status.last_error = Some("Process lost".to_string());
            return PollStep::Done;
        }
        if !phase_is_live(self.status.phase) {
            return PollStep::Done;
        }
        match &self.status.url {
            None => PollStep::Done,
            Some(u) => {
                let mut h = chars_of(u.as_str());
                push_lit(&mut h, "/health");
                PollStep::CheckHealth(string_of(&h))
            },
        }
    }

    /// The second half of a poll, after `PollStep::CheckHealth`: a healthy
    /// server is running (with its model loaded when it wants one); a
    /// starting server that has waited too long is stopped with an error,
    /// its handle returned to be killed; a failed check on a running server
    /// is recorded as an error.
    pub fn poll_health(&mut self, outcome: HealthOutcome, waited_too_long: bool) -> (r: Option<C>)
        requires
            old(self).wf(),
            is_live(old(self).view_status().phase),
        ensures
            final(self).wf(),
            match outcome {
                HealthOutcome::Healthy => r is None && final(self).has_child() && final(self).view_status()
                    == (ServerStatus {
                    phase: if old(self).view_status().wants_model {
                        ServerPhase::RunningLoaded
                    } else {
                        ServerPhase::RunningEmpty
                    },
                    loaded_model: if old(self).view_status().wants_model {
                        old(self).view_spawn_model()
                    } else {
                        None
                    },
                    last_error: None,
                    ..old(self).view_status()
                }),
                HealthOutcome::Unhealthy => if old(self).view_status().phase == ServerPhase::Starting
                    && waited_too_long {
                    &&& r is Some
                    &&& !final(self).has_child()
                    &&& final(self).view_status() == stopped_with_error(final(self).view_status().last_error)
                    &&& error_text(final(self).view_status()) == Some("/health wait timeout (120s)"@)
                } else {
                    r is None && final(self).view_status() == old(self).view_status()
                },
                HealthOutcome::Failed(e) => if old(self).view_status().phase == ServerPhase::Starting {
                    if waited_too_long {
                        &&& r is Some
                        &&& !final(self).has_child()
                        &&& final(self).view_status() == stopped_with_error(final(self).view_status().last_error)
                        &&& error_text(final(self).view_status()) == Some("Health check: "@ + e@)
                    } else {
                        r is None && final(self).view_status() == old(self).view_status()
                    }
                } else {
                    r is None && final(self).view_status() == (ServerStatus {
                        last_error: final(self).view_status().last_error,
                        ..old(self).view_status()
                    }) && error_text(final(self).view_status()) == Some("Health: "@ + e@)
                },
            },
            r is None ==> final(self).has_child() == old(self).has_child(),
            r is Some ==> r == old(self).view_child(),
    {
        match outcome {
            HealthOutcome::Healthy => {
                if self.status.wants_model {
                    self.status.phase = ServerPhase::RunningLoaded;
                    self.status.loaded_model = copy_text(&self.spawn_model);
                } else {
                    self.status.phase = ServerPhase::RunningEmpty;
                    self.status.loaded_model = None;
                }
                self.status.last_error = None;
                None
            },
            HealthOutcome::Unhealthy => {
                if self.status.phase == ServerPhase::Starting && waited_too_long {
                    self.status.phase = ServerPhase::Error;
                    self.status.last_error = Some("/health wait timeout (120s)".to_string());
                    self.stop_keep_error()
                } else {
                    None
                }
            },
            HealthOutcome::Failed(e) => {
                if self.status.phase == ServerPhase::Starting {
                    if waited_too_long {
                        let mut msg = chars_of("Health check: ");
                        let ev = chars_of(e.as_str());
                        push_all(&mut msg, &ev);
                        self.status.phase = ServerPhase::Error;
                        self.status.last_error = Some(string_of(&msg));
                        self.stop_keep_error()
                    } else {
                        None
                    }
                } else {
                    let mut msg = chars_of("Health: ");
                    let ev = chars_of(e.as_str());
                    push_all(&mut msg, &ev);
                    self.status.last_error = Some(string_of(&msg));
                    None
                }
            },
        }
    }
}

/// What every reachable status shows: a pid exactly while the server is
/// starting or running, a loaded model exactly while one is loaded, and a
/// URL whenever the server is starting or running. Every operation of the
/// manager keeps `wf`, so this holds of its status after any of them.
pub proof fn status_consistent<C, T>(m: ServerManager<C, T>)
    requires
        m.wf(),
    ensures
        m.view_status().pid is Some <==> is_live(m.view_status().phase),
        m.view_status().loaded_model is Some <==> m.view_status().phase == ServerPhase::RunningLoaded,
        is_live(m.view_status().phase) ==> m.view_status().url is Some,
{
}

} // verus!
