//! Decisions around the Nginx process: where its files live, how `ps`
//! elapsed times are read, what a run of the binary means, the status shown
//! to the user, and the clean-up of a process left over from an earlier
//! session.
use vstd::prelude::*;

use crate::error::{display_prefix, message_of, outcome_is, AppError, ErrorKind};
use crate::models::NginxStatus;
use crate::text::{decimal, decimal_string, find, first_match, has_match, parse_u64, parse_u64_spec, split, split_spec, trim, trim_spec, views};
use crate::validators::{parse_u32, parse_u32_spec};

verus! {

/// `comp` under the directory `dir`, separated by `/`.
pub open spec fn join_path(dir: Seq<char>, comp: Seq<char>) -> Seq<char> {
    if dir.len() == 0 {
        comp
    } else if dir.last() == '/' {
        dir + comp
    } else {
        dir + "/"@ + comp
    }
}

/// `comp` under the directory `dir`, separated by `/`.
pub fn join(dir: &str, comp: &str) -> (r: String)
    ensures
        r@ == join_path(dir@, comp@),
{
    let n = dir.unicode_len();
    let mut s = String::from_str(dir);
    if n > 0 && dir.get_char(n - 1) != '/' {
        s.append("/");
    }
    s.append(comp);
    s
}

/// The directory Nginx runs in (its `-p` prefix).
pub open spec fn prefix_path_spec(data_dir: Seq<char>) -> Seq<char> {
    join_path(data_dir, "nginx"@)
}

/// The directory Nginx runs in (its `-p` prefix).
pub fn prefix_path(data_dir: &str) -> (r: String)
    ensures
        r@ == prefix_path_spec(data_dir@),
{
    join(data_dir, "nginx")
}

/// The main configuration file.
pub fn config_path(data_dir: &str) -> (r: String)
    ensures
        r@ == join_path(prefix_path_spec(data_dir@), "nginx.conf"@),
{
    let p = prefix_path(data_dir);
    join(p.as_str(), "nginx.conf")
}

/// The file Nginx writes its process id to.
pub fn pid_path(data_dir: &str) -> (r: String)
    ensures
        r@ == join_path(prefix_path_spec(data_dir@), "nginx.pid"@),
{
    let p = prefix_path(data_dir);
    join(p.as_str(), "nginx.pid")
}

/// The seconds of an elapsed time in the `ps -o etime` form
/// `[[dd-]hh:]mm:ss`: days before the first `-`, then two or three fields
/// separated by `:`. Every field is a `u64` as `u64::from_str` reads it.
pub open spec fn etime_seconds(etime: Seq<char>) -> Option<int> {
    let dash = has_match(etime, "-"@);
    let k = first_match(etime, "-"@);
    let days: Option<u64> = if dash {
        parse_u64_spec(etime.take(k))
    } else {
        Some(0)
    };
    let rest = if dash {
        etime.skip(k + 1)
    } else {
        etime
    };
    let parts = split_spec(rest, ':');
    match days {
        None => None,
        Some(d) => if parts.len() == 2 {
            match (parse_u64_spec(parts[0]), parse_u64_spec(parts[1])) {
                (Some(m), Some(s)) => Some(d * 86400 + m * 60 + s),
                _ => None,
            }
        } else if parts.len() == 3 {
            match (parse_u64_spec(parts[0]), parse_u64_spec(parts[1]), parse_u64_spec(parts[2])) {
                (Some(h), Some(m), Some(s)) => Some(d * 86400 + h * 3600 + m * 60 + s),
                _ => None,
            }
        } else {
            None
        },
    }
}

/// Reads a `ps` elapsed time as seconds; `None` when it is not of the form
/// `[[dd-]hh:]mm:ss`. The total must fit in a `u64` (the sum is not checked
/// for overflow).
pub fn parse_etime(etime: &str) -> (r: Option<u64>)
    requires
        etime_seconds(etime@) matches Some(v) ==> v <= u64::MAX,
    ensures
        match r {
            Some(v) => etime_seconds(etime@) == Some(v as int),
            None => etime_seconds(etime@) is None,
        },
{
    let n = etime.unicode_len();
    let mut days: u64 = 0;
    let rest: &str;
    match find(etime, "-") {
        Some(k) => {
            proof {
                reveal_strlit("-");
            }
            match parse_u64(etime.substring_char(0, k)) {
                Some(d) => {
                    days = d;
                },
                None => {
                    proof {
                        assert(etime@.subrange(0, k as int) =~= etime@.take(k as int));
                    }
                    return None;
                },
            }
            proof {
                assert(etime@.subrange(0, k as int) =~= etime@.take(k as int));
            }
            rest = etime.substring_char(k + 1, n);
            proof {
                assert(rest@ =~= etime@.skip(k + 1));
            }
        },
        None => {
            rest = etime;
        },
    }
    let parts = split(rest, ':');
    proof {
        assert(views(parts@).len() == parts@.len());
    }
    if parts.len() == 2 {
        proof {
            assert(views(parts@)[0] == parts@[0]@);
            assert(views(parts@)[1] == parts@[1]@);
        }
        let m = match parse_u64(parts[0]) {
            Some(v) => v,
            None => return None,
        };
        let s = match parse_u64(parts[1]) {
            Some(v) => v,
            None => return None,
        };
        proof {
            assert(days * 86400 + m * 60 + s <= u64::MAX);
        }
        Some(days * 86400 + m * 60 + s)
    } else if parts.len() == 3 {
        proof {
            assert(views(parts@)[0] == parts@[0]@);
            assert(views(parts@)[1] == parts@[1]@);
            assert(views(parts@)[2] == parts@[2]@);
        }
        let h = match parse_u64(parts[0]) {
            Some(v) => v,
            None => return None,
        };
        let m = match parse_u64(parts[1]) {
            Some(v) => v,
            None => return None,
        };
        let s = match parse_u64(parts[2]) {
            Some(v) => v,
            None => return None,
        };
        proof {
            assert(days * 86400 + h * 3600 + m * 60 + s <= u64::MAX);
        }
        Some(days * 86400 + h * 3600 + m * 60 + s)
    } else {
        None
    }
}

/// How a run of the Nginx binary went.
#[derive(Debug, Clone)]
pub enum NginxRun {
    /// The binary could not be found.
    Missing(AppError),
    /// The process could not be started; the error's text.
    SpawnFailed(String),
    /// The process ran; whether it exited with success, and its stderr.
    Finished { success: bool, stderr: String },
}

/// What a reload reports for the run of `nginx -s reload`.
pub open spec fn reload_spec(run: NginxRun) -> Result<(), (ErrorKind, Seq<char>)> {
    match run {
        NginxRun::Missing(e) => Err(crate::error::error_view(e)),
        NginxRun::SpawnFailed(m) => Err((ErrorKind::Nginx, "Failed to reload nginx: "@ + m@)),
        NginxRun::Finished { success, stderr } => if success {
            Ok(())
        } else {
            Err((ErrorKind::Nginx, "nginx reload failed: "@ + stderr@))
        },
    }
}

/// The result of reloading Nginx's configuration, from the run of
/// `nginx -s reload`.
pub fn reload(run: NginxRun) -> (r: Result<(), AppError>)
    ensures
        outcome_is(r, reload_spec(run)),
{
    match run {
        NginxRun::Missing(e) => Err(e),
        NginxRun::SpawnFailed(m) => {
            let mut s = String::from_str("Failed to reload nginx: ");
            s.append(m.as_str());
            Err(AppError::Nginx(s))
        },
        NginxRun::Finished { success, stderr } => if success {
            Ok(())
        } else {
            let mut s = String::from_str("nginx reload failed: ");
            s.append(stderr.as_str());
            Err(AppError::Nginx(s))
        },
    }
}

/// The result of `nginx -t`: whether the configuration passed, and the
/// test's output.
pub fn test_config(run: NginxRun) -> (r: Result<(bool, String), AppError>)
    ensures
        match run {
            NginxRun::Missing(e) => r == Err::<(bool, String), AppError>(e),
            NginxRun::SpawnFailed(m) => r matches Err(AppError::Nginx(t)) && t@
                == "Failed to test nginx config: "@ + m@,
            NginxRun::Finished { success, stderr } => r == Ok::<(bool, String), AppError>(
                (success, stderr),
            ),
        },
{
    match run {
        NginxRun::Missing(e) => Err(e),
        NginxRun::SpawnFailed(m) => {
            let mut s = String::from_str("Failed to test nginx config: ");
            s.append(m.as_str());
            Err(AppError::Nginx(s))
        },
        NginxRun::Finished { success, stderr } => Ok((success, stderr)),
    }
}

/// Starting needs a configuration: `conf_shown` is how its path is shown.
pub fn check_config_present(conf_exists: bool, conf_shown: &str) -> (r: Result<(), AppError>)
    ensures
        outcome_is(
            r,
            if conf_exists {
                Ok(())
            } else {
                Err((ErrorKind::Nginx, "nginx.conf not found at "@ + conf_shown@ + ". Generate config first."@))
            },
        ),
{
    if conf_exists {
        Ok(())
    } else {
        let mut m = String::from_str("nginx.conf not found at ");
        m.append(conf_shown);
        m.append(". Generate config first.");
        Err(AppError::Nginx(m))
    }
}

/// Starting refuses while the process of the PID file is alive.
pub fn check_not_running(running_pid: Option<u32>) -> (r: Result<(), AppError>)
    ensures
        outcome_is(
            r,
            match running_pid {
                Some(p) => Err((ErrorKind::Nginx, "nginx is already running with PID "@ + decimal(p as nat))),
                None => Ok(()),
            },
        ),
{
    match running_pid {
        Some(p) => Err(AppError::Nginx(crate::text::join2("nginx is already running with PID ", decimal_string(p as u64).as_str()))),
        None => Ok(()),
    }
}

/// What a start reports for the run of the Nginx binary.
pub open spec fn start_spec(run: NginxRun) -> Result<(), (ErrorKind, Seq<char>)> {
    match run {
        NginxRun::Missing(e) => Err(crate::error::error_view(e)),
        NginxRun::SpawnFailed(m) => Err((ErrorKind::Nginx, "Failed to start nginx: "@ + m@)),
        NginxRun::Finished { success, stderr } => if success {
            Ok(())
        } else {
            Err((ErrorKind::Nginx, "nginx start failed: "@ + stderr@))
        },
    }
}

/// The result of starting Nginx, from the run of the binary.
pub fn start_result(run: NginxRun) -> (r: Result<(), AppError>)
    ensures
        outcome_is(r, start_spec(run)),
{
    match run {
        NginxRun::Missing(e) => Err(e),
        NginxRun::SpawnFailed(m) => Err(AppError::Nginx(crate::text::join2("Failed to start nginx: ", m.as_str()))),
        NginxRun::Finished { success, stderr } => if success {
            Ok(())
        } else {
            Err(AppError::Nginx(crate::text::join2("nginx start failed: ", stderr.as_str())))
        },
    }
}

/// What the run of `nginx -s quit` means for stopping.
#[derive(Debug, Clone)]
pub enum StopVerdict {
    /// Nginx was not running: the PID file is removed and stopping succeeds.
    NotRunning,
    /// Nginx accepted the signal: wait for its process to exit.
    AwaitExit,
    /// Stopping failed; `logged` tells whether the failure goes to the error log.
    Failed { error: AppError, logged: bool },
}

/// Whether a failed `nginx -s quit` only says that Nginx was not running:
/// its stderr tells so, or it reports an error while no live process is
/// recorded.
pub open spec fn quit_says_not_running(stderr: Seq<char>, pid_gone: bool) -> bool {
    has_match(stderr, "no such process"@) || has_match(stderr, "is not running"@) || (has_match(
        stderr,
        "error"@,
    ) && pid_gone)
}

/// The verdict on a run of `nginx -s quit`; `pid_gone` tells whether no live
/// process is recorded in the PID file after it.
pub fn stop_verdict(run: NginxRun, pid_gone: bool) -> (r: StopVerdict)
    ensures
        match run {
            NginxRun::Missing(e) => r matches StopVerdict::Failed { error, logged } && error == e && !logged,
            NginxRun::SpawnFailed(m) => r matches StopVerdict::Failed { error, logged } && !logged
                && crate::error::error_view(error) == (ErrorKind::Nginx, "Failed to stop nginx: "@ + m@),
            NginxRun::Finished { success, stderr } => if success {
                r is AwaitExit
            } else if quit_says_not_running(stderr@, pid_gone) {
                r is NotRunning
            } else {
                r matches StopVerdict::Failed { error, logged } && logged && crate::error::error_view(error) == (
                    ErrorKind::Nginx,
                    "nginx stop failed: "@ + stderr@,
                )
            },
        },
{
    match run {
        NginxRun::Missing(e) => StopVerdict::Failed { error: e, logged: false },
        NginxRun::SpawnFailed(m) => StopVerdict::Failed {
            error: AppError::Nginx(crate::text::join2("Failed to stop nginx: ", m.as_str())),
            logged: false,
        },
        NginxRun::Finished { success, stderr } => {
            if success {
                StopVerdict::AwaitExit
            } else if crate::text::contains(stderr.as_str(), "no such process") || crate::text::contains(
                stderr.as_str(),
                "is not running",
            ) || (crate::text::contains(stderr.as_str(), "error") && pid_gone) {
                StopVerdict::NotRunning
            } else {
                StopVerdict::Failed {
                    error: AppError::Nginx(crate::text::join2("nginx stop failed: ", stderr.as_str())),
                    logged: true,
                }
            }
        },
    }
}

/// The result of waiting for the process `pid` to exit after `nginx -s quit`.
pub fn stop_wait_result(stopped: bool, pid: u32) -> (r: Result<(), AppError>)
    ensures
        outcome_is(
            r,
            if stopped {
                Ok(())
            } else {
                Err(
                    (
                        ErrorKind::Nginx,
                        "nginx did not stop within timeout (pid "@ + decimal(pid as nat) + ")"@,
                    ),
                )
            },
        ),
{
    if stopped {
        Ok(())
    } else {
        Err(AppError::Nginx(crate::text::join3("nginx did not stop within timeout (pid ", decimal_string(pid as u64).as_str(), ")")))
    }
}

/// The error shown with a stopped Nginx: none while it runs or before a
/// configuration exists; otherwise the output of a failed test, or the
/// displayed error of a test that could not run.
pub open spec fn status_error(
    running: bool,
    config_exists: bool,
    test: Option<Result<(bool, String), AppError>>,
) -> Option<Seq<char>> {
    if running || !config_exists {
        None
    } else {
        match test {
            Some(Ok((true, _))) => None,
            Some(Ok((false, m))) => Some(m@),
            Some(Err(e)) => Some(display_prefix(e) + message_of(e)),
            None => None,
        }
    }
}

/// The status word: `running`, `error` (stopped with an error) or `stopped`.
pub open spec fn status_word(running: bool, error: Option<Seq<char>>) -> Seq<char> {
    if running {
        "running"@
    } else if error is Some {
        "error"@
    } else {
        "stopped"@
    }
}

/// The status of Nginx from the process id of a live process (if any), its
/// uptime, whether a configuration exists, and, for a stopped Nginx with a
/// configuration, the result of testing it.
pub fn status(
    pid: Option<u32>,
    uptime: Option<u64>,
    config_exists: bool,
    test: Option<Result<(bool, String), AppError>>,
) -> (r: NginxStatus)
    requires
        pid is None && config_exists ==> test is Some,
    ensures
        r.pid == pid,
        r.uptime_seconds == (if pid is Some {
            uptime
        } else {
            None
        }),
        crate::config_engine::opt_text(r.error_message) == status_error(
            pid is Some,
            config_exists,
            test,
        ),
        r.status@ == status_word(pid is Some, status_error(pid is Some, config_exists, test)),
{
    let running = pid.is_some();
    let uptime_seconds = if running {
        uptime
    } else {
        None
    };
    let error_message: Option<String> = if running || !config_exists {
        None
    } else {
        match test {
            Some(Ok((valid, msg))) => if valid {
                None
            } else {
                Some(msg)
            },
            Some(Err(e)) => Some(e.to_display_string()),
            None => None,
        }
    };
    let word = if running {
        String::from_str("running")
    } else if error_message.is_some() {
        String::from_str("error")
    } else {
        String::from_str("stopped")
    };
    NginxStatus { status: word, pid, uptime_seconds, error_message }
}

} // verus!

verus! {

/// A line the clean-up writes to Nginx's error log.
#[derive(Debug, Clone, Copy, PartialEq, Eq)]
pub enum CleanupLog {
    Unparseable,
    Stale(u32),
    Found(u32),
    Graceful(u32),
    ForceKill(u32),
}

/// The text of a clean-up log line.
pub open spec fn cleanup_log_spec(l: CleanupLog) -> Seq<char> {
    match l {
        CleanupLog::Unparseable => "Removing unparseable nginx PID file on startup"@,
        CleanupLog::Stale(p) => "Removed stale nginx PID file on startup (pid "@ + decimal(p as nat)
            + " not running)"@,
        CleanupLog::Found(p) => "Found running nginx process (pid "@ + decimal(p as nat)
            + ") from previous session, attempting graceful stop"@,
        CleanupLog::Graceful(p) => "Stale nginx process (pid "@ + decimal(p as nat)
            + ") stopped gracefully on startup"@,
        CleanupLog::ForceKill(p) => "Force killing stale nginx process (pid "@ + decimal(p as nat)
            + ") on startup"@,
    }
}

fn around(before: &str, p: u32, after: &str) -> (r: String)
    ensures
        r@ == before@ + decimal(p as nat) + after@,
{
    let mut s = String::from_str(before);
    let d = decimal_string(p as u64);
    s.append(d.as_str());
    s.append(after);
    s
}

impl CleanupLog {
    /// The text of this log line.
    pub fn text(&self) -> (r: String)
        ensures
            r@ == cleanup_log_spec(*self),
    {
        match *self {
            CleanupLog::Unparseable => String::from_str(
                "Removing unparseable nginx PID file on startup",
            ),
            CleanupLog::Stale(p) => around(
                "Removed stale nginx PID file on startup (pid ",
                p,
                " not running)",
            ),
            CleanupLog::Found(p) => around(
                "Found running nginx process (pid ",
                p,
                ") from previous session, attempting graceful stop",
            ),
            CleanupLog::Graceful(p) => around(
                "Stale nginx process (pid ",
                p,
                ") stopped gracefully on startup",
            ),
            CleanupLog::ForceKill(p) => around(
                "Force killing stale nginx process (pid ",
                p,
                ") on startup",
            ),
        }
    }
}

/// What follows a log line in the clean-up.
#[derive(Debug, Clone, Copy, PartialEq, Eq)]
pub enum CleanupNext {
    Remove,
    Quit(u32),
    Kill(u32),
}

/// Where the clean-up of a left-over process stands.
#[derive(Debug, Clone, Copy, PartialEq, Eq)]
pub enum CleanupState {
    Idle,
    ReadingPid,
    AfterLog(CleanupNext),
    Probing(u32),
    Quitting(u32),
    /// Waiting for the process to exit, at the given poll (1 to 6).
    Waiting(u32, u8),
    Killing(u32),
    Removing,
    Done,
}

/// What the caller is to do next.
#[derive(Debug, Clone, Copy, PartialEq, Eq)]
pub enum CleanupAction {
    /// Read the PID file (answer `PidFile`).
    ReadPidFile,
    /// Append the line to the error log (answer `Done`).
    Log(CleanupLog),
    /// Remove the PID file, ignoring errors (answer `Done`).
    RemovePidFile,
    /// Tell whether the process runs (answer `Alive`).
    IsAlive(u32),
    /// Ask Nginx to quit, if its binary is found (answer `Done`).
    SendQuit,
    /// Wait half a second, then tell whether the process runs (answer `Alive`).
    PollAlive(u32),
    /// Kill the process (answer `Done`).
    ForceKill(u32),
    /// Nothing is left to do.
    Finish,
}

/// What the caller reports back.
#[derive(Debug, Clone)]
pub enum CleanupEvent {
    Begin,
    PidFile(Option<String>),
    Alive(bool),
    Done,
}

/// The next state and action of the clean-up, for an event that fits the
/// state. A PID file that cannot be read ends it; an unparseable or stale one
/// is removed; a live process is asked to quit, polled up to six times, and
/// killed if it still runs; the PID file is then removed.
pub open spec fn cleanup_next(s: CleanupState, e: CleanupEvent) -> Option<(CleanupState, CleanupAction)> {
    match (s, e) {
        (CleanupState::Idle, CleanupEvent::Begin) => Some((CleanupState::ReadingPid, CleanupAction::ReadPidFile)),
        (CleanupState::ReadingPid, CleanupEvent::PidFile(c)) => match c {
            None => Some((CleanupState::Done, CleanupAction::Finish)),
            Some(text) => match parse_u32_spec(trim_spec(text@)) {
                None => Some(
                    (
                        CleanupState::AfterLog(CleanupNext::Remove),
                        CleanupAction::Log(CleanupLog::Unparseable),
                    ),
                ),
                Some(p) => Some((CleanupState::Probing(p), CleanupAction::IsAlive(p))),
            },
        },
        (CleanupState::Probing(p), CleanupEvent::Alive(alive)) => if alive {
            Some((CleanupState::AfterLog(CleanupNext::Quit(p)), CleanupAction::Log(CleanupLog::Found(p))))
        } else {
            Some((CleanupState::AfterLog(CleanupNext::Remove), CleanupAction::Log(CleanupLog::Stale(p))))
        },
        (CleanupState::AfterLog(n), CleanupEvent::Done) => match n {
            CleanupNext::Remove => Some((CleanupState::Removing, CleanupAction::RemovePidFile)),
            CleanupNext::Quit(p) => Some((CleanupState::Quitting(p), CleanupAction::SendQuit)),
            CleanupNext::Kill(p) => Some((CleanupState::Killing(p), CleanupAction::ForceKill(p))),
        },
        (CleanupState::Quitting(p), CleanupEvent::Done) => Some(
            (CleanupState::Waiting(p, 1), CleanupAction::PollAlive(p)),
        ),
        (CleanupState::Waiting(p, k), CleanupEvent::Alive(alive)) => if !alive {
            Some(
                (CleanupState::AfterLog(CleanupNext::Remove), CleanupAction::Log(CleanupLog::Graceful(p))),
            )
        } else if k < 6 {
            Some((CleanupState::Waiting(p, (k + 1) as u8), CleanupAction::PollAlive(p)))
        } else {
            Some(
                (CleanupState::AfterLog(CleanupNext::Kill(p)), CleanupAction::Log(CleanupLog::ForceKill(p))),
            )
        },
        (CleanupState::Killing(_), CleanupEvent::Done) => Some(
            (CleanupState::Removing, CleanupAction::RemovePidFile),
        ),
        (CleanupState::Removing, CleanupEvent::Done) => Some((CleanupState::Done, CleanupAction::Finish)),
        _ => None,
    }
}

/// One step of cleaning up an Nginx process left from an earlier session.
pub fn cleanup_stale_process(state: CleanupState, event: CleanupEvent) -> (r: Option<(CleanupState, CleanupAction)>)
    ensures
        r == cleanup_next(state, event),
{
    let step = match (state, event) {
        (CleanupState::Idle, CleanupEvent::Begin) => (CleanupState::ReadingPid, CleanupAction::ReadPidFile),
        (CleanupState::ReadingPid, CleanupEvent::PidFile(c)) => match c {
            None => (CleanupState::Done, CleanupAction::Finish),
            Some(text) => match parse_u32(trim(text.as_str())) {
                None => (CleanupState::AfterLog(CleanupNext::Remove), CleanupAction::Log(CleanupLog::Unparseable)),
                Some(p) => (CleanupState::Probing(p), CleanupAction::IsAlive(p)),
            },
        },
        (CleanupState::Probing(p), CleanupEvent::Alive(alive)) => if alive {
            (CleanupState::AfterLog(CleanupNext::Quit(p)), CleanupAction::Log(CleanupLog::Found(p)))
        } else {
            (CleanupState::AfterLog(CleanupNext::Remove), CleanupAction::Log(CleanupLog::Stale(p)))
        },
        (CleanupState::AfterLog(n), CleanupEvent::Done) => match n {
            CleanupNext::Remove => (CleanupState::Removing, CleanupAction::RemovePidFile),
            CleanupNext::Quit(p) => (CleanupState::Quitting(p), CleanupAction::SendQuit),
            CleanupNext::Kill(p) => (CleanupState::Killing(p), CleanupAction::ForceKill(p)),
        },
        (CleanupState::Quitting(p), CleanupEvent::Done) => (CleanupState::Waiting(p, 1), CleanupAction::PollAlive(p)),
        (CleanupState::Waiting(p, k), CleanupEvent::Alive(alive)) => if !alive {
            (CleanupState::AfterLog(CleanupNext::Remove), CleanupAction::Log(CleanupLog::Graceful(p)))
        } else if k < 6 {
            (CleanupState::Waiting(p, k + 1), CleanupAction::PollAlive(p))
        } else {
            (CleanupState::AfterLog(CleanupNext::Kill(p)), CleanupAction::Log(CleanupLog::ForceKill(p)))
        },
        (CleanupState::Killing(_), CleanupEvent::Done) => (CleanupState::Removing, CleanupAction::RemovePidFile),
        (CleanupState::Removing, CleanupEvent::Done) => (CleanupState::Done, CleanupAction::Finish),
        _ => {
            return None;
        },
    };
    Some(step)
}

/// The answer to the `k`-th poll (from 0); polls past the given answers find
/// the process gone.
pub open spec fn poll_answer(polls: Seq<bool>, k: int) -> bool {
    if 0 <= k < polls.len() {
        polls[k]
    } else {
        false
    }
}

/// The event with which the system answers an action of the clean-up.
pub open spec fn cleanup_respond(
    s: CleanupState,
    a: CleanupAction,
    pid_file: Option<String>,
    alive: bool,
    polls: Seq<bool>,
) -> CleanupEvent {
    match a {
        CleanupAction::ReadPidFile => CleanupEvent::PidFile(pid_file),
        CleanupAction::IsAlive(_) => CleanupEvent::Alive(alive),
        CleanupAction::PollAlive(_) => match s {
            CleanupState::Waiting(_, k) => CleanupEvent::Alive(poll_answer(polls, k - 1)),
            _ => CleanupEvent::Alive(false),
        },
        CleanupAction::Finish => CleanupEvent::Begin,
        _ => CleanupEvent::Done,
    }
}

/// The actions of a clean-up from state `s` and event `e`, each answered by
/// the system, until it finishes (or `fuel` runs out).
pub open spec fn cleanup_trace(
    s: CleanupState,
    e: CleanupEvent,
    pid_file: Option<String>,
    alive: bool,
    polls: Seq<bool>,
    fuel: nat,
) -> Seq<CleanupAction>
    decreases fuel,
{
    match cleanup_next(s, e) {
        None => Seq::empty(),
        Some((s2, a)) => if fuel == 0 || a is Finish {
            seq![a]
        } else {
            seq![a] + cleanup_trace(
                s2,
                cleanup_respond(s2, a, pid_file, alive, polls),
                pid_file,
                alive,
                polls,
                (fuel - 1) as nat,
            )
        },
    }
}

/// The process id a PID file names, if it can be read.
pub open spec fn named_pid(pid_file: Option<String>) -> Option<u32> {
    match pid_file {
        Some(t) => parse_u32_spec(trim_spec(t@)),
        None => None,
    }
}

/// No action of `t` kills a process.
pub open spec fn kills_none(t: Seq<CleanupAction>) -> bool {
    forall|k: int| 0 <= k < t.len() ==> !(#[trigger] t[k] is ForceKill)
}

proof fn lemma_cons(a: CleanupAction, rest: Seq<CleanupAction>, x: CleanupAction)
    requires
        rest.len() > 0,
    ensures
        (seq![a] + rest).last() == rest.last(),
        (seq![a] + rest).contains(x) <==> (a == x || rest.contains(x)),
        kills_none(seq![a] + rest) <==> (!(a is ForceKill) && kills_none(rest)),
{
    let t = seq![a] + rest;
    if t.contains(x) {
        let k = choose|k: int| 0 <= k < t.len() && t[k] == x;
        if k > 0 {
            assert(rest[k - 1] == x);
        }
    }
    if rest.contains(x) {
        let k = choose|k: int| 0 <= k < rest.len() && rest[k] == x;
        assert(t[k + 1] == x);
    }
    if kills_none(rest) && !(a is ForceKill) {
        assert forall|k: int| 0 <= k < t.len() implies !(#[trigger] t[k] is ForceKill) by {
            if k > 0 {
                assert(t[k] == rest[k - 1]);
            }
        }
    }
    if kills_none(t) {
        assert forall|k: int| 0 <= k < rest.len() implies !(#[trigger] rest[k] is ForceKill) by {
            assert(t[k + 1] == rest[k]);
        }
        assert(t[0] == a);
    }
}

proof fn lemma_wait_trace(
    p: u32,
    k: u8,
    pid_file: Option<String>,
    alive: bool,
    polls: Seq<bool>,
    fuel: nat,
)
    requires
        1 <= k <= 6,
        fuel >= 3 + (6 - k),
    ensures
        ({
            let t = cleanup_trace(
                CleanupState::Waiting(p, k),
                CleanupEvent::Alive(poll_answer(polls, k - 1)),
                pid_file,
                alive,
                polls,
                fuel,
            );
            let stuck = forall|j: int| k - 1 <= j < 6 ==> #[trigger] poll_answer(polls, j);
            &&& t.len() > 0
            &&& t.last() == CleanupAction::Finish
            &&& t.contains(CleanupAction::RemovePidFile)
            &&& !t.contains(CleanupAction::SendQuit)
            &&& stuck ==> t.contains(CleanupAction::ForceKill(p))
            &&& !stuck ==> kills_none(t)
        }),
    decreases 6 - k,
{
    let t = cleanup_trace(
        CleanupState::Waiting(p, k),
        CleanupEvent::Alive(poll_answer(polls, k - 1)),
        pid_file,
        alive,
        polls,
        fuel,
    );
    reveal_with_fuel(cleanup_trace, 4);
    if !poll_answer(polls, k - 1) {
        let rest = seq![CleanupAction::RemovePidFile, CleanupAction::Finish];
        assert(t == seq![CleanupAction::Log(CleanupLog::Graceful(p))] + rest);
        assert(rest.contains(CleanupAction::RemovePidFile)) by {
            assert(rest[0] == CleanupAction::RemovePidFile);
        }
        assert(!rest.contains(CleanupAction::SendQuit));
        assert(kills_none(rest));
        lemma_cons(CleanupAction::Log(CleanupLog::Graceful(p)), rest, CleanupAction::RemovePidFile);
        lemma_cons(CleanupAction::Log(CleanupLog::Graceful(p)), rest, CleanupAction::SendQuit);
    } else if k < 6 {
        let k2 = (k + 1) as u8;
        let rest = cleanup_trace(
            CleanupState::Waiting(p, k2),
            CleanupEvent::Alive(poll_answer(polls, k2 - 1)),
            pid_file,
            alive,
            polls,
            (fuel - 1) as nat,
        );
        lemma_wait_trace(p, k2, pid_file, alive, polls, (fuel - 1) as nat);
        assert(t == seq![CleanupAction::PollAlive(p)] + rest);
        lemma_cons(CleanupAction::PollAlive(p), rest, CleanupAction::RemovePidFile);
        lemma_cons(CleanupAction::PollAlive(p), rest, CleanupAction::SendQuit);
        lemma_cons(CleanupAction::PollAlive(p), rest, CleanupAction::ForceKill(p));
        if !(forall|j: int| k - 1 <= j < 6 ==> #[trigger] poll_answer(polls, j)) {
            let j = choose|j: int| k - 1 <= j < 6 && !#[trigger] poll_answer(polls, j);
            assert(j != k - 1);
        }
    } else {
        let rest = seq![
            CleanupAction::ForceKill(p),
            CleanupAction::RemovePidFile,
            CleanupAction::Finish,
        ];
        assert(t == seq![CleanupAction::Log(CleanupLog::ForceKill(p))] + rest);
        assert(rest[0] == CleanupAction::ForceKill(p));
        assert(rest[1] == CleanupAction::RemovePidFile);
        assert(!rest.contains(CleanupAction::SendQuit));
        lemma_cons(CleanupAction::Log(CleanupLog::ForceKill(p)), rest, CleanupAction::RemovePidFile);
        lemma_cons(CleanupAction::Log(CleanupLog::ForceKill(p)), rest, CleanupAction::SendQuit);
        lemma_cons(CleanupAction::Log(CleanupLog::ForceKill(p)), rest, CleanupAction::ForceKill(p));
    }
}

/// The clean-up of a left-over process always finishes; it removes the PID
/// file exactly when there is one; it asks Nginx to quit exactly when the
/// file names a running process; and it kills that process exactly when six
/// polls all still find it running.
pub proof fn law_cleanup_outcome(pid_file: Option<String>, alive: bool, polls: Seq<bool>)
    ensures
        ({
            let t = cleanup_trace(CleanupState::Idle, CleanupEvent::Begin, pid_file, alive, polls, 20);
            let live = named_pid(pid_file) is Some && alive;
            let stuck = forall|k: int| 0 <= k < 6 ==> #[trigger] poll_answer(polls, k);
            &&& t.len() > 0
            &&& t.last() == CleanupAction::Finish
            &&& t.contains(CleanupAction::RemovePidFile) <==> pid_file is Some
            &&& t.contains(CleanupAction::SendQuit) <==> live
            &&& (live && stuck) ==> t.contains(CleanupAction::ForceKill(named_pid(pid_file)->0))
            &&& !(live && stuck) ==> kills_none(t)
        }),
{
    let t = cleanup_trace(CleanupState::Idle, CleanupEvent::Begin, pid_file, alive, polls, 20);
    reveal_with_fuel(cleanup_trace, 6);
    match pid_file {
        None => {
            let rest = seq![CleanupAction::Finish];
            assert(t == seq![CleanupAction::ReadPidFile] + rest);
            assert(!rest.contains(CleanupAction::RemovePidFile));
            assert(!rest.contains(CleanupAction::SendQuit));
            assert(kills_none(rest));
            lemma_cons(CleanupAction::ReadPidFile, rest, CleanupAction::RemovePidFile);
            lemma_cons(CleanupAction::ReadPidFile, rest, CleanupAction::SendQuit);
        },
        Some(text) => match parse_u32_spec(trim_spec(text@)) {
            None => {
                let rest = seq![CleanupAction::Log(CleanupLog::Unparseable), CleanupAction::RemovePidFile, CleanupAction::Finish];
                assert(t == seq![CleanupAction::ReadPidFile] + rest);
                assert(rest[1] == CleanupAction::RemovePidFile);
                assert(!rest.contains(CleanupAction::SendQuit));
                assert(kills_none(rest));
                lemma_cons(CleanupAction::ReadPidFile, rest, CleanupAction::RemovePidFile);
                lemma_cons(CleanupAction::ReadPidFile, rest, CleanupAction::SendQuit);
            },
            Some(p) => {
                if !alive {
                    let rest = seq![CleanupAction::IsAlive(p), CleanupAction::Log(CleanupLog::Stale(p)), CleanupAction::RemovePidFile, CleanupAction::Finish];
                    assert(t == seq![CleanupAction::ReadPidFile] + rest);
                    assert(rest[2] == CleanupAction::RemovePidFile);
                    assert(!rest.contains(CleanupAction::SendQuit));
                    assert(kills_none(rest));
                    lemma_cons(CleanupAction::ReadPidFile, rest, CleanupAction::RemovePidFile);
                    lemma_cons(CleanupAction::ReadPidFile, rest, CleanupAction::SendQuit);
                } else {
                    let w = cleanup_trace(
                        CleanupState::Waiting(p, 1),
                        CleanupEvent::Alive(poll_answer(polls, 0)),
                        pid_file,
                        alive,
                        polls,
                        15,
                    );
                    lemma_wait_trace(p, 1, pid_file, alive, polls, 15);
                    let r3 = seq![CleanupAction::PollAlive(p)] + w;
                    let r2 = seq![CleanupAction::SendQuit] + r3;
                    let r1 = seq![CleanupAction::Log(CleanupLog::Found(p))] + r2;
                    let r0 = seq![CleanupAction::IsAlive(p)] + r1;
                    assert(t == seq![CleanupAction::ReadPidFile] + r0);
                    let x = CleanupAction::ForceKill(p);
                    lemma_cons(CleanupAction::PollAlive(p), w, CleanupAction::RemovePidFile);
                    lemma_cons(CleanupAction::PollAlive(p), w, CleanupAction::SendQuit);
                    lemma_cons(CleanupAction::PollAlive(p), w, x);
                    lemma_cons(CleanupAction::SendQuit, r3, CleanupAction::RemovePidFile);
                    lemma_cons(CleanupAction::SendQuit, r3, CleanupAction::SendQuit);
                    lemma_cons(CleanupAction::SendQuit, r3, x);
                    lemma_cons(CleanupAction::Log(CleanupLog::Found(p)), r2, CleanupAction::RemovePidFile);
                    lemma_cons(CleanupAction::Log(CleanupLog::Found(p)), r2, CleanupAction::SendQuit);
                    lemma_cons(CleanupAction::Log(CleanupLog::Found(p)), r2, x);
                    lemma_cons(CleanupAction::IsAlive(p), r1, CleanupAction::RemovePidFile);
                    lemma_cons(CleanupAction::IsAlive(p), r1, CleanupAction::SendQuit);
                    lemma_cons(CleanupAction::IsAlive(p), r1, x);
                    lemma_cons(CleanupAction::ReadPidFile, r0, CleanupAction::RemovePidFile);
                    lemma_cons(CleanupAction::ReadPidFile, r0, CleanupAction::SendQuit);
                    lemma_cons(CleanupAction::ReadPidFile, r0, x);
                }
            },
        },
    }
}

} // verus!

verus! {

/// Whether the seconds of an elapsed time (if it has the `ps` form) fit in a
/// `u64`, as `parse_etime` needs.
pub fn etime_fits(etime: &str) -> (r: bool)
    ensures
        r == (etime_seconds(etime@) matches Some(v) ==> v <= u64::MAX),
{
    let n = etime.unicode_len();
    let mut days: u128 = 0;
    let rest: &str;
    match find(etime, "-") {
        Some(k) => {
            proof {
                reveal_strlit("-");
                assert(etime@.subrange(0, k as int) =~= etime@.take(k as int));
            }
            match parse_u64(etime.substring_char(0, k)) {
                Some(d) => {
                    days = d as u128;
                },
                None => return true,
            }
            rest = etime.substring_char(k + 1, n);
            proof {
                assert(rest@ =~= etime@.skip(k + 1));
            }
        },
        None => {
            rest = etime;
        },
    }
    let parts = split(rest, ':');
    proof {
        assert(views(parts@).len() == parts@.len());
    }
    if parts.len() == 2 {
        proof {
            assert(views(parts@)[0] == parts@[0]@);
            assert(views(parts@)[1] == parts@[1]@);
        }
        match (parse_u64(parts[0]), parse_u64(parts[1])) {
            (Some(m), Some(s)) => days * 86400 + (m as u128) * 60 + (s as u128) <= 0xffff_ffff_ffff_ffffu128,
            _ => true,
        }
    } else if parts.len() == 3 {
        proof {
            assert(views(parts@)[0] == parts@[0]@);
            assert(views(parts@)[1] == parts@[1]@);
            assert(views(parts@)[2] == parts@[2]@);
        }
        match (parse_u64(parts[0]), parse_u64(parts[1]), parse_u64(parts[2])) {
            (Some(h), Some(m), Some(s)) => days * 86400 + (h as u128) * 3600 + (m as u128) * 60
                + (s as u128) <= 0xffff_ffff_ffff_ffffu128,
            _ => true,
        }
    } else {
        true
    }
}

} // verus!
