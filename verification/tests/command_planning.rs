use rustinx::auth::{
    authenticated, complete_login, get_stored_password, CredentialCache, LoginRequest,
    SessionState,
};
use rustinx::elevation::{
    login_probe_plan, plan_open_file, plan_service_command, ElevationStyle, PrivError,
    ServiceAction,
};
use rustinx::logquery::{
    build_journal_args, build_unified_log_args, format_datetime, format_datetime_macos,
    interpret_query_output, plan_log_query, QueryError, SystemdLogOptions,
};
use rustinx::service::{
    config_check_message, default_log_paths, interpret_service_output, monitor_status_label,
    render_service_override, select_version_report, service_is_active,
};
use rustinx::Platform;

fn options(
    num_lines: Option<u32>,
    since: Option<&str>,
    until: Option<&str>,
    no_pager: bool,
    reverse: bool,
) -> SystemdLogOptions {
    SystemdLogOptions {
        service_name: "nginx.service".to_string(),
        no_pager,
        num_lines,
        since: since.map(|s| s.to_string()),
        until: until.map(|s| s.to_string()),
        reverse,
    }
}

#[test]
fn login_then_stored_credential() {
    let mut cache = CredentialCache::new();
    let mut session = SessionState { logged_in: false };
    let req = LoginRequest { password: "example-secret".to_string() };
    let ok = complete_login(&mut cache, &mut session, &req, true);
    assert!(ok);
    assert!(authenticated(&session));
    assert_eq!(get_stored_password(&cache), Some("example-secret".to_string()));
}

#[test]
fn failed_probe_leaves_cache() {
    let mut cache = CredentialCache::new();
    let mut session = SessionState { logged_in: false };
    let req = LoginRequest { password: "nope".to_string() };
    let ok = complete_login(&mut cache, &mut session, &req, false);
    assert!(!ok);
    assert!(!authenticated(&session));
    assert_eq!(get_stored_password(&cache), None);
}

#[test]
fn stored_credential_overwritten() {
    let mut cache = CredentialCache::new();
    let mut session = SessionState { logged_in: false };
    let first = LoginRequest { password: "one".to_string() };
    complete_login(&mut cache, &mut session, &first, true);
    let second = LoginRequest { password: "two".to_string() };
    complete_login(&mut cache, &mut session, &second, true);
    assert_eq!(get_stored_password(&cache), Some("two".to_string()));
}

#[test]
fn missing_credential_blocks_piped_plan() {
    let cache = CredentialCache::new();
    let r = plan_service_command(
        Platform::Linux,
        ElevationStyle::PipedCredential,
        ServiceAction::Restart,
        &cache,
    );
    assert!(matches!(r, Err(PrivError::NoCredentialCached)));
    assert_eq!(
        PrivError::NoCredentialCached.message(),
        "No sudo password stored"
    );
}

#[test]
fn piped_plan_args_and_stdin() {
    let mut cache = CredentialCache::new();
    let mut session = SessionState { logged_in: false };
    let req = LoginRequest { password: "pw".to_string() };
    complete_login(&mut cache, &mut session, &req, true);
    let plan = plan_service_command(
        Platform::Linux,
        ElevationStyle::PipedCredential,
        ServiceAction::Start,
        &cache,
    )
    .unwrap();
    assert_eq!(plan.program, "sudo");
    assert_eq!(plan.args, vec!["-S", "systemctl", "start", "nginx"]);
    assert_eq!(plan.stdin_line, Some("pw\n".to_string()));
}

#[test]
fn native_prompt_plan_args() {
    let cache = CredentialCache::new();
    let plan = plan_service_command(
        Platform::Linux,
        ElevationStyle::NativePrompt,
        ServiceAction::Stop,
        &cache,
    )
    .unwrap();
    assert_eq!(plan.program, "sudo");
    assert_eq!(plan.args, vec!["systemctl", "stop", "nginx"]);
    assert_eq!(plan.stdin_line, None);
}

#[test]
fn macos_service_plan() {
    let cache = CredentialCache::new();
    let plan = plan_service_command(
        Platform::Macos,
        ElevationStyle::PipedCredential,
        ServiceAction::Restart,
        &cache,
    )
    .unwrap();
    assert_eq!(plan.program, "brew");
    assert_eq!(plan.args, vec!["services", "restart", "nginx"]);
    assert_eq!(plan.stdin_line, None);
}

#[test]
fn unsupported_platform_plan() {
    let cache = CredentialCache::new();
    let r = plan_service_command(
        Platform::Other,
        ElevationStyle::PipedCredential,
        ServiceAction::Start,
        &cache,
    );
    assert!(matches!(r, Err(PrivError::UnsupportedPlatform)));
    assert_eq!(PrivError::UnsupportedPlatform.message(), "Unsupported OS");
}

#[test]
fn login_probe_plan_shape() {
    let req = LoginRequest { password: "abc".to_string() };
    let plan = login_probe_plan(&req);
    assert_eq!(plan.program, "sudo");
    assert_eq!(plan.args, vec!["-S", "echo", "hello"]);
    assert_eq!(plan.stdin_line, Some("abc\n".to_string()));
}

#[test]
fn open_file_plans() {
    let path = "/etc/nginx/nginx.conf".to_string();
    let linux = plan_open_file(Platform::Linux, &path).unwrap();
    assert_eq!(linux.program, "xdg-open");
    assert_eq!(linux.args, vec!["/etc/nginx/nginx.conf"]);
    let macos = plan_open_file(Platform::Macos, &path).unwrap();
    assert_eq!(macos.program, "open");
    assert_eq!(macos.args, vec!["-a", "TextEdit", "/etc/nginx/nginx.conf"]);
    let windows = plan_open_file(Platform::Windows, &path).unwrap();
    assert_eq!(windows.program, "cmd");
    assert_eq!(windows.args, vec!["/C", "start", "/etc/nginx/nginx.conf"]);
    assert!(matches!(
        plan_open_file(Platform::Other, &path),
        Err(PrivError::UnsupportedPlatform)
    ));
}

#[test]
fn interpret_success_message() {
    let r = interpret_service_output(ServiceAction::Start, true, "");
    assert_eq!(r, Ok("Nginx started successfully".to_string()));
    let r = interpret_service_output(ServiceAction::Stop, true, "");
    assert_eq!(r, Ok("Nginx stopped successfully".to_string()));
    let r = interpret_service_output(ServiceAction::Restart, true, "");
    assert_eq!(r, Ok("Nginx restarted successfully".to_string()));
}

#[test]
fn interpret_failure_message() {
    let r = interpret_service_output(ServiceAction::Restart, false, "unit not found");
    assert_eq!(r, Err("Failed to restart Nginx: unit not found".to_string()));
}

#[test]
fn service_status_linux() {
    assert!(service_is_active(Platform::Linux, "active\n"));
    assert!(!service_is_active(Platform::Linux, "inactive\n"));
    assert!(!service_is_active(Platform::Other, "active"));
}

#[test]
fn service_status_macos() {
    assert!(service_is_active(
        Platform::Macos,
        "Name  Status\nnginx started user ~/Library\n"
    ));
    assert!(!service_is_active(Platform::Macos, "nginx stopped\n"));
}

#[test]
fn monitor_label_variants() {
    assert_eq!(monitor_status_label(Platform::Linux, "active\n"), "active");
    assert_eq!(monitor_status_label(Platform::Macos, ""), "inactive");
    assert_eq!(monitor_status_label(Platform::Macos, "nginx: master"), "active");
    assert_eq!(monitor_status_label(Platform::Other, "x"), "unsupported");
}

#[test]
fn config_check_messages() {
    assert_eq!(
        config_check_message(true, ""),
        "Nginx configuration is valid."
    );
    assert_eq!(
        config_check_message(false, "boom"),
        "Nginx configuration error: boom"
    );
}

#[test]
fn version_report_selection() {
    assert_eq!(select_version_report("out", "built with args"), "built with args");
    assert_eq!(select_version_report("out", ""), "out");
}

#[test]
fn render_override_exact() {
    assert_eq!(
        render_service_override("--with-debug"),
        "[Service]\nExecStart=\nExecStart=/usr/sbin/nginx -g 'pid /run/nginx.pid; error_log stderr; worker_processes auto;' -c /etc/nginx/nginx.conf --with-debug\n"
    );
}

#[test]
fn default_log_paths_per_platform() {
    let (a, e) = default_log_paths(Platform::Linux).unwrap();
    assert_eq!(a, "/var/log/nginx/access.log");
    assert_eq!(e, "/var/log/nginx/error.log");
    let (a, e) = default_log_paths(Platform::Macos).unwrap();
    assert_eq!(a, "/usr/local/var/log/nginx/access.log");
    assert_eq!(e, "/usr/local/var/log/nginx/error.log");
    assert!(default_log_paths(Platform::Other).is_none());
}

#[test]
fn journal_args_full_query() {
    let o = options(
        Some(250),
        Some("2024-01-02T03:04:05"),
        Some("2024-01-03"),
        true,
        true,
    );
    let args = build_journal_args(&o);
    assert_eq!(
        args,
        vec![
            "-u",
            "nginx.service",
            "--no-pager",
            "-n",
            "250",
            "--since",
            "2024-01-02 03:04:05",
            "--until",
            "2024-01-03",
            "--reverse",
        ]
    );
}

#[test]
fn journal_args_minimal() {
    let o = options(None, Some("   "), None, false, false);
    let args = build_journal_args(&o);
    assert_eq!(args, vec!["-u", "nginx.service"]);
}

#[test]
fn unified_log_args_full() {
    let o = options(
        Some(100),
        Some("2024-01-02"),
        Some("2024-01-02T10:00:00"),
        true,
        true,
    );
    let args = build_unified_log_args(&o);
    assert_eq!(
        args,
        vec![
            "show",
            "--predicate",
            "process == 'nginx'",
            "--last",
            "100s",
            "--start",
            "2024-01-02 00:00:00",
            "--end",
            "2024-01-02T10:00:00",
            "--reverse",
        ]
    );
}

#[test]
fn query_determinism() {
    let a = options(Some(10), Some("2024-05-06"), None, true, false);
    let b = options(Some(10), Some("2024-05-06"), None, true, false);
    assert_eq!(build_journal_args(&a), build_journal_args(&b));
    assert_eq!(build_unified_log_args(&a), build_unified_log_args(&b));
}

#[test]
fn plan_log_query_per_platform() {
    let o = options(None, None, None, false, false);
    let linux = plan_log_query(Platform::Linux, &o).unwrap();
    assert_eq!(linux.program, "journalctl");
    assert_eq!(linux.stdin_line, None);
    let macos = plan_log_query(Platform::Macos, &o).unwrap();
    assert_eq!(macos.program, "log");
    let other = plan_log_query(Platform::Other, &o);
    assert!(matches!(other, Err(QueryError::UnsupportedPlatform)));
    assert_eq!(
        QueryError::UnsupportedPlatform.message(),
        "Unsupported operating system"
    );
}

#[test]
fn unit_suffixes_stripped_repeatedly() {
    let o = SystemdLogOptions {
        service_name: "nginx.socket.service".to_string(),
        no_pager: false,
        num_lines: None,
        since: None,
        until: None,
        reverse: false,
    };
    // Service suffixes are stripped after socket-trailing ones, so both
    // suffixes of this name fall away in turn.
    let args = build_unified_log_args(&o);
    assert_eq!(args[2], "process == 'nginx'");
    let o2 = SystemdLogOptions { service_name: "nginx.service.socket".to_string(), ..o };
    let args2 = build_unified_log_args(&o2);
    assert_eq!(args2[2], "process == 'nginx.service'");
}

#[test]
fn interpret_query_outcomes() {
    assert_eq!(
        interpret_query_output(Platform::Linux, true, "log lines", ""),
        Ok("log lines".to_string())
    );
    assert_eq!(
        interpret_query_output(Platform::Linux, false, "", " unit unknown \n"),
        Err("journalctl error: unit unknown".to_string())
    );
    assert_eq!(
        interpret_query_output(Platform::Macos, false, "", "bad predicate"),
        Err("log command error: bad predicate".to_string())
    );
    assert_eq!(
        interpret_query_output(Platform::Other, true, "x", ""),
        Err("Unsupported operating system".to_string())
    );
}

#[test]
fn format_datetime_date_only() {
    assert_eq!(format_datetime("2024-01-02"), "2024-01-02 00:00:00");
    assert_eq!(format_datetime_macos("2024-01-02"), "2024-01-02 00:00:00");
}

#[test]
fn format_datetime_passthrough() {
    assert_eq!(format_datetime("2024-01-02T03:04:05"), "2024-01-02T03:04:05");
    assert_eq!(format_datetime(""), "");
}
