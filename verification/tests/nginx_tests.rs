use meridian::error::AppError;
use meridian::nginx_manager::{
    check_config_present, check_not_running, cleanup_stale_process, config_path, parse_etime,
    pid_path, prefix_path, reload, start_result, status, stop_verdict, stop_wait_result,
    test_config, CleanupAction, CleanupEvent, CleanupLog, CleanupState, NginxRun, StopVerdict,
};

#[test]
fn nginx_paths() {
    assert_eq!(prefix_path("/data"), "/data/nginx");
    assert_eq!(config_path("/data/"), "/data/nginx/nginx.conf");
    assert_eq!(pid_path("/data"), "/data/nginx/nginx.pid");
}

#[test]
fn etime_forms() {
    assert_eq!(parse_etime("05:07"), Some(307));
    assert_eq!(parse_etime("01:02:03"), Some(3723));
    assert_eq!(parse_etime("2-01:02:03"), Some(2 * 86400 + 3723));
    assert_eq!(parse_etime("1-05:07"), Some(86400 + 307));
    assert_eq!(parse_etime("42"), None);
    assert_eq!(parse_etime("a:b"), None);
    assert_eq!(parse_etime("1:2:3:4"), None);
    assert_eq!(parse_etime("x-01:02"), None);
}

#[test]
fn reload_and_test_results() {
    assert!(reload(NginxRun::Finished { success: true, stderr: String::new() }).is_ok());
    let e = reload(NginxRun::Finished { success: false, stderr: "bad".to_string() }).unwrap_err();
    assert_eq!(e, AppError::Nginx("nginx reload failed: bad".to_string()));
    let e = reload(NginxRun::SpawnFailed("no exec".to_string())).unwrap_err();
    assert_eq!(e, AppError::Nginx("Failed to reload nginx: no exec".to_string()));
    let missing = AppError::Nginx("nginx binary not found".to_string());
    assert_eq!(reload(NginxRun::Missing(missing.clone())).unwrap_err(), missing);
    assert_eq!(
        test_config(NginxRun::Finished { success: false, stderr: "emerg".to_string() }).unwrap(),
        (false, "emerg".to_string())
    );
    assert_eq!(
        test_config(NginxRun::SpawnFailed("x".to_string())).unwrap_err(),
        AppError::Nginx("Failed to test nginx config: x".to_string())
    );
}

#[test]
fn status_words() {
    let s = status(Some(42), Some(10), true, None);
    assert_eq!(s.status, "running");
    assert_eq!(s.pid, Some(42));
    assert_eq!(s.uptime_seconds, Some(10));
    assert_eq!(s.error_message, None);
    let s = status(None, Some(10), false, None);
    assert_eq!(s.status, "stopped");
    assert_eq!(s.uptime_seconds, None);
    let s = status(None, None, true, Some(Ok((false, "syntax".to_string()))));
    assert_eq!(s.status, "error");
    assert_eq!(s.error_message.as_deref(), Some("syntax"));
    let s = status(None, None, true, Some(Err(AppError::Nginx("gone".to_string()))));
    assert_eq!(s.error_message.as_deref(), Some("Nginx error: gone"));
    let s = status(None, None, true, Some(Ok((true, String::new()))));
    assert_eq!(s.status, "stopped");
}

fn drive(pid_file: Option<&str>, alive: bool, polls: &[bool]) -> Vec<CleanupAction> {
    let mut state = CleanupState::Idle;
    let mut event = CleanupEvent::Begin;
    let mut out = Vec::new();
    let mut k = 0;
    loop {
        let (s, a) = cleanup_stale_process(state, event).expect("each event answers its action");
        state = s;
        out.push(a);
        event = match a {
            CleanupAction::ReadPidFile => CleanupEvent::PidFile(pid_file.map(|t| t.to_string())),
            CleanupAction::IsAlive(_) => CleanupEvent::Alive(alive),
            CleanupAction::PollAlive(_) => {
                let v = polls.get(k).copied().unwrap_or(false);
                k += 1;
                CleanupEvent::Alive(v)
            }
            CleanupAction::Finish => return out,
            _ => CleanupEvent::Done,
        };
    }
}

#[test]
fn stale_cleanup_paths() {
    assert_eq!(drive(None, false, &[]), vec![CleanupAction::ReadPidFile, CleanupAction::Finish]);
    assert_eq!(
        drive(Some("garbage"), false, &[]),
        vec![
            CleanupAction::ReadPidFile,
            CleanupAction::Log(CleanupLog::Unparseable),
            CleanupAction::RemovePidFile,
            CleanupAction::Finish
        ]
    );
    assert_eq!(
        drive(Some(" 123\n"), false, &[]),
        vec![
            CleanupAction::ReadPidFile,
            CleanupAction::IsAlive(123),
            CleanupAction::Log(CleanupLog::Stale(123)),
            CleanupAction::RemovePidFile,
            CleanupAction::Finish
        ]
    );
    let graceful = drive(Some("7"), true, &[true, false]);
    assert_eq!(graceful.iter().filter(|a| matches!(a, CleanupAction::PollAlive(_))).count(), 2);
    assert!(graceful.contains(&CleanupAction::Log(CleanupLog::Graceful(7))));
    assert!(!graceful.contains(&CleanupAction::ForceKill(7)));
    let killed = drive(Some("7"), true, &[true; 6]);
    assert_eq!(killed.iter().filter(|a| matches!(a, CleanupAction::PollAlive(_))).count(), 6);
    assert!(killed.contains(&CleanupAction::ForceKill(7)));
    assert_eq!(killed[killed.len() - 2], CleanupAction::RemovePidFile);
}

#[test]
fn cleanup_log_texts() {
    assert_eq!(
        CleanupLog::Stale(12).text(),
        "Removed stale nginx PID file on startup (pid 12 not running)"
    );
    assert_eq!(
        CleanupLog::Found(5).text(),
        "Found running nginx process (pid 5) from previous session, attempting graceful stop"
    );
    assert_eq!(CleanupLog::ForceKill(9).text(), "Force killing stale nginx process (pid 9) on startup");
    assert_eq!(CleanupLog::Graceful(9).text(), "Stale nginx process (pid 9) stopped gracefully on startup");
    assert_eq!(CleanupLog::Unparseable.text(), "Removing unparseable nginx PID file on startup");
}

fn finished(success: bool, stderr: &str) -> NginxRun {
    NginxRun::Finished { success, stderr: stderr.to_string() }
}

#[test]
fn start_checks_and_result() {
    assert_eq!(check_config_present(true, "\"/d/nginx.conf\""), Ok(()));
    assert_eq!(
        check_config_present(false, "\"/d/nginx.conf\""),
        Err(AppError::Nginx("nginx.conf not found at \"/d/nginx.conf\". Generate config first.".into()))
    );
    assert_eq!(check_not_running(None), Ok(()));
    assert_eq!(
        check_not_running(Some(4321)),
        Err(AppError::Nginx("nginx is already running with PID 4321".into()))
    );
    assert_eq!(start_result(finished(true, "")), Ok(()));
    assert_eq!(
        start_result(finished(false, "bind failed")),
        Err(AppError::Nginx("nginx start failed: bind failed".into()))
    );
    assert_eq!(
        start_result(NginxRun::SpawnFailed("denied".into())),
        Err(AppError::Nginx("Failed to start nginx: denied".into()))
    );
}

#[test]
fn stop_verdicts() {
    assert!(matches!(stop_verdict(finished(true, ""), false), StopVerdict::AwaitExit));
    assert!(matches!(
        stop_verdict(finished(false, "kill() failed (3: No such process) no such process"), false),
        StopVerdict::NotRunning
    ));
    assert!(matches!(stop_verdict(finished(false, "nginx is not running"), false), StopVerdict::NotRunning));
    assert!(matches!(stop_verdict(finished(false, "open() error"), true), StopVerdict::NotRunning));
    match stop_verdict(finished(false, "open() error"), false) {
        StopVerdict::Failed { error, logged } => {
            assert!(logged);
            assert_eq!(error, AppError::Nginx("nginx stop failed: open() error".into()));
        }
        _ => panic!("a failed quit with a live process is an error"),
    }
    match stop_verdict(NginxRun::SpawnFailed("x".into()), true) {
        StopVerdict::Failed { error, logged } => {
            assert!(!logged);
            assert_eq!(error, AppError::Nginx("Failed to stop nginx: x".into()));
        }
        _ => panic!("a spawn failure is an error"),
    }
    assert_eq!(stop_wait_result(true, 9), Ok(()));
    assert_eq!(
        stop_wait_result(false, 9),
        Err(AppError::Nginx("nginx did not stop within timeout (pid 9)".into()))
    );
}
