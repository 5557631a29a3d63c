use meridian::config_engine::{
    apply_and_reload, config_changes, conflicts_message, group_http_rules, http_config_file_name,
    nginx_path, nginx_path_str, preview_verdict, replace_str, stream_config_file_name,
    stream_rule_indices, ApplyAction, ApplyEvent, ApplyFailure, ApplyOutcome, ApplyState,
};
use meridian::error::AppError;
use meridian::models::{PortConflict, ProxyRule};

fn rule(id: &str, proxy_type: &str, port: u16, domain: Option<&str>) -> ProxyRule {
    ProxyRule {
        id: id.to_string(),
        name: format!("rule-{}", id),
        proxy_type: proxy_type.to_string(),
        enabled: true,
        listen_port: port,
        listen_host: "0.0.0.0".to_string(),
        domain: domain.map(String::from),
        path_prefix: None,
        upstream_host: "127.0.0.1".to_string(),
        upstream_port: 3000,
        upstream_scheme: "http".to_string(),
        tls_mode: "none".to_string(),
        certificate_id: None,
        access_list_id: None,
        websocket: false,
        keep_alive: false,
        custom_headers: None,
        upstream_targets: None,
        sort_order: 0,
        created_at: String::new(),
        updated_at: String::new(),
    }
}

fn conflict(msg: &str) -> PortConflict {
    PortConflict {
        rule_id: "r".to_string(),
        rule_name: "n".to_string(),
        conflict_type: "exact_conflict".to_string(),
        message: msg.to_string(),
    }
}

#[test]
fn backslashes_become_slashes() {
    assert_eq!(nginx_path_str("C:\\data\\nginx\\certs"), "C:/data/nginx/certs");
    assert_eq!(nginx_path_str("/already/fine"), "/already/fine");
    assert_eq!(nginx_path("a\\b"), "a/b");
    let once = nginx_path_str("\\\\x\\y");
    assert_eq!(nginx_path_str(&once), once);
    assert!(!once.contains('\\'));
}

#[test]
fn file_names_of_generated_blocks() {
    assert_eq!(http_config_file_name(80, "example.com"), "80_example_com.conf");
    assert_eq!(http_config_file_name(443, "*.example.com"), "443_wildcard_example_com.conf");
    assert_eq!(http_config_file_name(8080, ""), "8080_default.conf");
    assert_eq!(stream_config_file_name(&rule("1", "stream_udp", 53, None)), "stream_53_stream_udp.conf");
}

#[test]
fn http_rules_grouped_by_virtual_host() {
    let rules = vec![
        rule("1", "http", 80, Some("a.com")),
        rule("2", "stream_tcp", 80, None),
        rule("3", "http", 80, Some("a.com")),
        rule("4", "http", 80, None),
        rule("5", "http", 81, Some("a.com")),
    ];
    let groups = group_http_rules(&rules);
    assert_eq!(groups.len(), 3);
    let find = |port: u16, d: &str| groups.iter().find(|g| g.listen_port == port && g.domain == d).unwrap();
    assert_eq!(find(80, "a.com").members, vec![0, 2]);
    assert_eq!(find(80, "").members, vec![3]);
    assert_eq!(find(81, "a.com").members, vec![4]);
    assert_eq!(stream_rule_indices(&rules), vec![1]);
}

#[test]
fn replace_all_occurrences() {
    assert_eq!(replace_str("/tmp/stage/x /tmp/stage/y", "/tmp/stage", "/data"), "/data/x /data/y");
    assert_eq!(replace_str("aaa", "aa", "b"), "ba");
    assert_eq!(replace_str("abc", "", "-"), "-a-b-c-");
    assert_eq!(replace_str("", "", "-"), "-");
}

#[test]
fn staged_changes_in_path_order() {
    let staged = vec![
        ("nginx.conf".to_string(), "root /stage/html;".to_string()),
        ("conf.d/80_a_com.conf".to_string(), "same".to_string()),
        ("conf.d/81_b_com.conf".to_string(), "new".to_string()),
    ];
    let live = vec![
        ("conf.d/80_a_com.conf".to_string(), "same".to_string()),
        ("conf.d/90_old.conf".to_string(), "gone".to_string()),
        ("nginx.conf".to_string(), "root /live/html;".to_string()),
    ];
    let changes = config_changes(&staged, &live, "/stage", "/live");
    let paths: Vec<&str> = changes.iter().map(|c| c.path.as_str()).collect();
    assert_eq!(paths, vec!["conf.d/81_b_com.conf", "conf.d/90_old.conf"]);
    assert_eq!(changes[0].before, None);
    assert_eq!(changes[0].after.as_deref(), Some("new"));
    assert_eq!(changes[1].before.as_deref(), Some("gone"));
    assert_eq!(changes[1].after, None);
}

#[test]
fn preview_verdicts() {
    let cs = vec![conflict("one"), conflict("two")];
    assert_eq!(conflicts_message(&cs), "one; two");
    assert_eq!(preview_verdict(&cs, None), (false, "one; two".to_string()));
    assert_eq!(preview_verdict(&[], Some(Ok((true, "ok".to_string())))), (true, "ok".to_string()));
    assert_eq!(
        preview_verdict(&[], Some(Err(AppError::Nginx("boom".to_string())))),
        (false, "Nginx error: boom".to_string())
    );
}

fn run(
    backup: Result<(), AppError>,
    generated: Result<Vec<PortConflict>, AppError>,
    tested: Result<(bool, String), AppError>,
    running: bool,
    reloaded: Result<(), AppError>,
) -> (Vec<&'static str>, Result<Vec<PortConflict>, AppError>) {
    let mut state = ApplyState::Idle;
    let mut event = ApplyEvent::Start;
    let mut trace = Vec::new();
    let (mut b, mut g, mut t, mut r) = (Some(backup), Some(generated), Some(tested), Some(reloaded));
    loop {
        let (s, action) = apply_and_reload(state, event).expect("each event answers its action");
        state = s;
        event = match action {
            ApplyAction::MakeBackup => { trace.push("backup"); ApplyEvent::BackupMade(b.take().unwrap()) }
            ApplyAction::Generate => { trace.push("generate"); ApplyEvent::Generated(g.take().unwrap()) }
            ApplyAction::Test => { trace.push("test"); ApplyEvent::Tested(t.take().unwrap()) }
            ApplyAction::ReadStatus => { trace.push("status"); ApplyEvent::StatusRead(running) }
            ApplyAction::Reload => { trace.push("reload"); ApplyEvent::Reloaded(r.take().unwrap()) }
            ApplyAction::Restore => { trace.push("restore"); ApplyEvent::Restored }
            ApplyAction::Cleanup => { trace.push("cleanup"); ApplyEvent::CleanedUp }
            ApplyAction::Finish(o) => return (trace, o.into_result()),
        };
    }
}

#[test]
fn apply_success_with_running_nginx() {
    let (trace, r) = run(Ok(()), Ok(vec![]), Ok((true, String::new())), true, Ok(()));
    assert_eq!(trace, vec!["backup", "generate", "test", "status", "reload", "cleanup"]);
    assert_eq!(r.unwrap().len(), 0);
}

#[test]
fn apply_failed_test_restores() {
    let (trace, r) = run(Ok(()), Ok(vec![]), Ok((false, "bad directive".to_string())), true, Ok(()));
    assert_eq!(trace, vec!["backup", "generate", "test", "restore"]);
    let e = r.unwrap_err();
    assert_eq!(e.message(), "nginx config test failed: bad directive");
    assert_eq!(e.error_code(), "CONFIG_ERROR");
}

#[test]
fn apply_conflicts_restore() {
    let (trace, r) = run(Ok(()), Ok(vec![conflict("a"), conflict("b")]), Ok((true, String::new())), false, Ok(()));
    assert_eq!(trace, vec!["backup", "generate", "restore"]);
    assert_eq!(r.unwrap_err(), AppError::Conflict("a; b".to_string()));
}

#[test]
fn apply_failed_reload_and_backup() {
    let (trace, r) = run(Ok(()), Ok(vec![]), Ok((true, String::new())), true, Err(AppError::Nginx("x".to_string())));
    assert_eq!(trace, vec!["backup", "generate", "test", "status", "reload", "restore"]);
    assert_eq!(r.unwrap_err(), AppError::Nginx("x".to_string()));
    let (trace, r) = run(Err(AppError::Io("disk".to_string())), Ok(vec![]), Ok((true, String::new())), true, Ok(()));
    assert_eq!(trace, vec!["backup"]);
    assert_eq!(r.unwrap_err(), AppError::Io("disk".to_string()));
    let (trace, _) = run(Ok(()), Ok(vec![]), Ok((true, String::new())), false, Ok(()));
    assert_eq!(trace, vec!["backup", "generate", "test", "status", "cleanup"]);
}

#[test]
fn outcome_conversion() {
    let r = ApplyOutcome::Failed(ApplyFailure::TestError(AppError::Nginx("t".to_string()))).into_result();
    assert_eq!(r.unwrap_err(), AppError::Nginx("t".to_string()));
}

#[test]
fn apply_rejects_an_event_out_of_turn() {
    assert!(apply_and_reload(ApplyState::Idle, ApplyEvent::Restored).is_none());
    assert!(apply_and_reload(ApplyState::Done, ApplyEvent::Start).is_none());
}
