use meridian::hosts_manager::{
    check_hostname_free, generate_block, hostname_in_use, hosts_file_path, macos_write_script,
    replace_block, sync_to_system, write_hosts_elevated, HostOs, BLOCK_END, BLOCK_START,
};
use meridian::models::HostEntry;

fn make_entry(ip: &str, hostname: &str, comment: Option<&str>) -> HostEntry {
    HostEntry {
        id: "test-id".to_string(),
        ip: ip.to_string(),
        hostname: hostname.to_string(),
        comment: comment.map(|s| s.to_string()),
        enabled: true,
        created_at: "2026-01-01T00:00:00Z".to_string(),
        updated_at: "2026-01-01T00:00:00Z".to_string(),
    }
}

#[test]
fn test_generate_block_empty() {
    let block = generate_block(&[]);
    assert_eq!(block, format!("{}\n{}", BLOCK_START, BLOCK_END));
}

#[test]
fn test_generate_block_with_entries() {
    let entries = vec![
        make_entry("127.0.0.1", "app.local", Some("frontend")),
        make_entry("192.168.1.100", "api.dev.com", None),
    ];
    let block = generate_block(&entries);
    assert!(block.contains("127.0.0.1\tapp.local\t# frontend"));
    assert!(block.contains("192.168.1.100\tapi.dev.com"));
    assert!(block.starts_with(BLOCK_START));
    assert!(block.ends_with(BLOCK_END));
}

#[test]
fn test_replace_block_no_existing() {
    let hosts = "127.0.0.1 localhost\n::1 localhost\n";
    let block = generate_block(&[make_entry("10.0.0.1", "test.local", None)]);
    let result = replace_block(hosts, &block);
    assert!(result.contains("127.0.0.1 localhost"));
    assert!(result.contains("::1 localhost"));
    assert!(result.contains(BLOCK_START));
    assert!(result.contains("10.0.0.1\ttest.local"));
    assert!(result.contains(BLOCK_END));
}

#[test]
fn test_replace_block_existing() {
    let hosts = format!(
        "127.0.0.1 localhost\n{}\n1.2.3.4\told.entry\n{}\n::1 localhost\n",
        BLOCK_START, BLOCK_END
    );
    let block = generate_block(&[make_entry("10.0.0.1", "new.entry", None)]);
    let result = replace_block(&hosts, &block);
    assert!(result.contains("127.0.0.1 localhost"));
    assert!(result.contains("::1 localhost"));
    assert!(result.contains("10.0.0.1\tnew.entry"));
    assert!(!result.contains("old.entry"));
}

#[test]
fn test_replace_block_preserves_surrounding() {
    let hosts = format!(
        "# custom\n127.0.0.1 localhost\n{}\nold\n{}\n# footer\n",
        BLOCK_START, BLOCK_END
    );
    let block = generate_block(&[]);
    let result = replace_block(&hosts, &block);
    assert!(result.contains("# custom"));
    assert!(result.contains("127.0.0.1 localhost"));
    assert!(result.contains("# footer"));
}

#[test]
fn replace_block_exact_texts() {
    let block = generate_block(&[make_entry("10.0.0.1", "a.local", None)]);
    assert_eq!(
        replace_block("x", &block),
        format!("x\n\n{}\n", block)
    );
    assert_eq!(replace_block("", &block), format!("\n\n{}\n", block));
    let hosts = format!("a\n{}\nold\n{}\nb\n", BLOCK_START, BLOCK_END);
    assert_eq!(replace_block(&hosts, &block), format!("a\n{}\nb\n", block));
}

#[test]
fn sync_twice_is_sync_once() {
    let entries = vec![make_entry("10.0.0.1", "a.local", Some("c")), make_entry("10.0.0.2", "b.local", None)];
    for hosts in ["127.0.0.1 localhost\n", "", "no newline"] {
        let once = sync_to_system(hosts, &entries);
        let twice = sync_to_system(&once, &entries);
        assert_eq!(once, twice);
    }
    let with_block = format!("top\n{}\nold\n{}\nbottom", BLOCK_START, BLOCK_END);
    let once = sync_to_system(&with_block, &entries);
    assert_eq!(sync_to_system(&once, &entries), once);
    assert!(once.ends_with("bottom"));
}

#[test]
fn hosts_paths() {
    assert_eq!(hosts_file_path(false), "/etc/hosts");
    assert_eq!(hosts_file_path(true), "C:\\Windows\\System32\\drivers\\etc\\hosts");
}

#[test]
fn elevated_write_outcomes() {
    assert!(write_hosts_elevated(HostOs::Linux, true, "").is_ok());
    let e = write_hosts_elevated(HostOs::MacOs, false, "execution error: User canceled. (-128)").unwrap_err();
    assert_eq!(e.message(), "Permission denied: user cancelled authentication");
    let e = write_hosts_elevated(HostOs::Linux, false, "Request dismissed").unwrap_err();
    assert_eq!(e.message(), "Permission denied: user cancelled authentication");
    let e = write_hosts_elevated(HostOs::Linux, false, "disk full").unwrap_err();
    assert_eq!(e.message(), "Failed to write hosts file: disk full");
    assert_eq!(e.error_code(), "CONFIG_ERROR");
    let e = write_hosts_elevated(HostOs::Windows, false, "").unwrap_err();
    assert_eq!(
        e.message(),
        "Permission denied: please run Meridian as administrator to manage hosts"
    );
    assert_eq!(
        macos_write_script("/etc/hosts"),
        "do shell script \"cat > '/etc/hosts'\" with administrator privileges"
    );
}

#[test]
fn hostname_taken_checks() {
    let e = make_entry("1.1.1.1", "a.local", None);
    assert!(check_hostname_free(None, None).is_ok());
    assert!(check_hostname_free(Some(&e), Some("test-id")).is_ok());
    let err = check_hostname_free(Some(&e), None).unwrap_err();
    assert_eq!(err.message(), "Hostname 'a.local' already exists (id: test-id)");
    assert_eq!(err.error_code(), "CONFLICT");
    assert!(hostname_in_use(Some(e.clone()), Some("test-id")).is_none());
    assert!(hostname_in_use(Some(e), Some("other")).is_some());
}
