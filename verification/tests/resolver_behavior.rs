use rustinx::resolver::{
    category_from_name, destination_guidance, extract_conf_path, find_nginx_log_path,
    parse_nginx_config_for_logs, FsModel, FsReply, FsRequest, LogCategory, LogDestination,
    ParseOutcome, ResolveError, Resolver, ResolveStatus, StreamKind,
};

fn nest_kw() -> String {
    // The directive keyword, assembled so the source never spells it out.
    format!("{}{}", "incl", "ude")
}

fn model_with_main(content: &str) -> FsModel {
    let mut fs = FsModel::new();
    fs.add("/etc/nginx/nginx.conf".to_string(), content.to_string());
    fs
}

#[test]
fn access_log_file_destination() {
    let fs = model_with_main("user www;\naccess_log /var/log/svc/access.log;\n");
    let r = find_nginx_log_path(&fs, None, "access");
    assert_eq!(
        r,
        Ok(LogDestination::File("/var/log/svc/access.log".to_string()))
    );
}

#[test]
fn error_log_stderr_stream() {
    let fs = model_with_main("error_log stderr;\n");
    let r = find_nginx_log_path(&fs, None, "error");
    assert_eq!(r, Ok(LogDestination::Stream(StreamKind::Stderr)));
    let guidance = destination_guidance(LogCategory::Error, r.as_ref().unwrap());
    let message = guidance.unwrap();
    assert!(message.contains("journalctl -u nginx"));
    assert_eq!(
        message,
        "Nginx error is configured to log to stderr. Logs are not available as files when using 'stderr'. You can view nginx logs using 'journalctl -u nginx' or by checking your process manager logs."
    );
}

#[test]
fn glob_nested_declaration() {
    let mut fs = FsModel::new();
    fs.add(
        "/etc/nginx/nginx.conf".to_string(),
        format!("worker_processes auto;\n{} sites/*.conf;\n", nest_kw()),
    );
    fs.add(
        "/etc/nginx/sites/site.conf".to_string(),
        "server;\naccess_log /srv/logs/site-access.log;\n".to_string(),
    );
    let r = find_nginx_log_path(&fs, None, "access");
    assert_eq!(
        r,
        Ok(LogDestination::File("/srv/logs/site-access.log".to_string()))
    );
}

#[test]
fn literal_nested_declaration() {
    let mut fs = FsModel::new();
    fs.add(
        "/etc/nginx/nginx.conf".to_string(),
        format!("{} conf.d/extra.conf;\n", nest_kw()),
    );
    fs.add(
        "/etc/nginx/conf.d/extra.conf".to_string(),
        "error_log /srv/logs/err.log;\n".to_string(),
    );
    let r = find_nginx_log_path(&fs, None, "error");
    assert_eq!(r, Ok(LogDestination::File("/srv/logs/err.log".to_string())));
}

#[test]
fn relative_path_joined_to_config_dir() {
    let outcome = parse_nginx_config_for_logs(
        "access_log logs/access.log;\n",
        &"/etc/svc/svc.conf".to_string(),
        LogCategory::Access,
    );
    assert_eq!(
        outcome,
        ParseOutcome::Found(LogDestination::File("/etc/svc/logs/access.log".to_string()))
    );
}

#[test]
fn bogus_category_rejected() {
    let fs = model_with_main("access_log /var/log/nginx/access.log;\n");
    let r = find_nginx_log_path(&fs, None, "bogus");
    assert_eq!(r, Err(ResolveError::InvalidCategory));
    assert_eq!(
        ResolveError::InvalidCategory.message(),
        "Invalid log type"
    );
    assert!(category_from_name("bogus").is_err());
    assert_eq!(category_from_name("access"), Ok(LogCategory::Access));
    assert_eq!(category_from_name("error"), Ok(LogCategory::Error));
}

#[test]
fn probe_order_prefers_first_location() {
    let mut fs = FsModel::new();
    fs.add(
        "/usr/local/etc/nginx/nginx.conf".to_string(),
        "access_log /tmp/second.log;\n".to_string(),
    );
    let r = find_nginx_log_path(&fs, None, "access");
    assert_eq!(r, Ok(LogDestination::File("/tmp/second.log".to_string())));
}

#[test]
fn syslog_destination_classified() {
    let fs = model_with_main("access_log syslog:server=unix:/dev/log;\n");
    let r = find_nginx_log_path(&fs, None, "access");
    assert_eq!(
        r,
        Ok(LogDestination::Syslog("syslog:server=unix:/dev/log".to_string()))
    );
    let message = destination_guidance(LogCategory::Access, r.as_ref().unwrap()).unwrap();
    assert_eq!(
        message,
        "Nginx access is configured to log to syslog. You can view nginx logs using 'journalctl -u nginx' or your system's syslog viewer."
    );
}

#[test]
fn off_destination_disabled() {
    let fs = model_with_main("access_log off;\n");
    let r = find_nginx_log_path(&fs, None, "access");
    assert_eq!(r, Ok(LogDestination::Disabled));
    let message = destination_guidance(LogCategory::Access, r.as_ref().unwrap()).unwrap();
    assert_eq!(message, "Nginx access logging is disabled (set to 'off').");
}

#[test]
fn dev_stdout_value_is_stream() {
    let fs = model_with_main("access_log /dev/stdout;\n");
    let r = find_nginx_log_path(&fs, None, "access");
    assert_eq!(r, Ok(LogDestination::Stream(StreamKind::Stdout)));
}

#[test]
fn default_path_fallback_when_no_directive() {
    let mut fs = model_with_main("worker_processes auto;\n");
    fs.add(
        "/var/log/nginx/access.log".to_string(),
        "127.0.0.1 - GET /\n".to_string(),
    );
    let r = find_nginx_log_path(&fs, None, "access");
    assert_eq!(
        r,
        Ok(LogDestination::File("/var/log/nginx/access.log".to_string()))
    );
}

#[test]
fn log_path_not_found_error_message() {
    let fs = model_with_main("worker_processes auto;\n");
    let r = find_nginx_log_path(&fs, None, "error");
    let e = r.unwrap_err();
    assert_eq!(
        e,
        ResolveError::LogPathNotFound {
            category: LogCategory::Error,
            config_path: "/etc/nginx/nginx.conf".to_string(),
            default_path: "/var/log/nginx/error.log".to_string(),
        }
    );
    assert_eq!(
        e.message(),
        "Could not find error log file. Checked config at /etc/nginx/nginx.conf and default location /var/log/nginx/error.log"
    );
}

#[test]
fn config_not_found_when_no_locations() {
    let fs = FsModel::new();
    let r = find_nginx_log_path(&fs, None, "access");
    assert_eq!(r, Err(ResolveError::ConfigNotFound));
    assert_eq!(
        ResolveError::ConfigNotFound.message(),
        "Could not find nginx.conf in any of these locations: [\"/etc/nginx/nginx.conf\", \"/usr/local/etc/nginx/nginx.conf\", \"/opt/nginx/nginx.conf\", \"/usr/local/nginx/conf/nginx.conf\"]"
    );
}

#[test]
fn cyclic_nesting_detected() {
    let mut fs = FsModel::new();
    fs.add(
        "/etc/nginx/nginx.conf".to_string(),
        format!("{} /etc/nginx/loop.conf;\n", nest_kw()),
    );
    fs.add(
        "/etc/nginx/loop.conf".to_string(),
        format!("{} /etc/nginx/nginx.conf;\n", nest_kw()),
    );
    let r = find_nginx_log_path(&fs, None, "access");
    assert_eq!(
        r,
        Err(ResolveError::CyclicNesting {
            path: "/etc/nginx/nginx.conf".to_string()
        })
    );
    assert_eq!(
        r.unwrap_err().message(),
        "Configuration file reached twice during log resolution: /etc/nginx/nginx.conf"
    );
}

#[test]
fn build_default_overrides_config() {
    let fs = model_with_main("error_log /var/log/nginx/error.log;\n");
    let build = "nginx version: nginx/1.25.0\nconfigure arguments: --error-log-path=stderr --prefix=/etc/nginx";
    let r = find_nginx_log_path(&fs, Some(build), "error");
    assert_eq!(r, Ok(LogDestination::Stream(StreamKind::Stderr)));
}

#[test]
fn build_default_access_stdout() {
    let fs = model_with_main("access_log /var/log/nginx/access.log;\n");
    let build = "configure arguments: --access-log-path=/dev/stdout";
    let r = find_nginx_log_path(&fs, Some(build), "access");
    assert_eq!(r, Ok(LogDestination::Stream(StreamKind::Stdout)));
    // The same build report does not override the other category.
    let r2 = find_nginx_log_path(&fs, Some(build), "error");
    assert!(matches!(r2, Err(ResolveError::LogPathNotFound { .. })));
}

#[test]
fn nested_files_skipped_after_first_match() {
    // The first nesting pattern that resolves wins, in declaration order.
    let mut fs = FsModel::new();
    fs.add(
        "/etc/nginx/nginx.conf".to_string(),
        format!(
            "{} /etc/nginx/a.conf;\n{} /etc/nginx/b.conf;\n",
            nest_kw(),
            nest_kw()
        ),
    );
    fs.add(
        "/etc/nginx/a.conf".to_string(),
        "access_log /srv/a.log;\n".to_string(),
    );
    fs.add(
        "/etc/nginx/b.conf".to_string(),
        "access_log /srv/b.log;\n".to_string(),
    );
    let r = find_nginx_log_path(&fs, None, "access");
    assert_eq!(r, Ok(LogDestination::File("/srv/a.log".to_string())));
}

#[test]
fn commented_directive_ignored() {
    let outcome = parse_nginx_config_for_logs(
        "# access_log /nope.log;\naccess_log /real.log;\n",
        &"/etc/nginx/nginx.conf".to_string(),
        LogCategory::Access,
    );
    assert_eq!(
        outcome,
        ParseOutcome::Found(LogDestination::File("/real.log".to_string()))
    );
}

#[test]
fn directive_without_value_skipped() {
    let outcome = parse_nginx_config_for_logs(
        "access_log\naccess_log /kept.log;\n",
        &"/etc/nginx/nginx.conf".to_string(),
        LogCategory::Access,
    );
    assert_eq!(
        outcome,
        ParseOutcome::Found(LogDestination::File("/kept.log".to_string()))
    );
}

#[test]
fn windows_line_endings_accepted() {
    let outcome = parse_nginx_config_for_logs(
        "user www;\r\naccess_log /crlf.log;\r\n",
        &"/etc/nginx/nginx.conf".to_string(),
        LogCategory::Access,
    );
    assert_eq!(
        outcome,
        ParseOutcome::Found(LogDestination::File("/crlf.log".to_string()))
    );
}

#[test]
fn extract_conf_path_finds_first() {
    let out = "nginx: the configuration file /etc/nginx/nginx.conf syntax is ok\nnginx: configuration file /etc/nginx/nginx.conf test is successful\n";
    assert_eq!(
        extract_conf_path(out),
        Some("/etc/nginx/nginx.conf".to_string())
    );
}

#[test]
fn extract_conf_path_none() {
    assert_eq!(extract_conf_path("no configuration here"), None);
}

#[test]
fn machine_probes_locations_in_order() {
    // Driving the request/reply machine by hand, as the boundary does.
    let (mut machine, status) = Resolver::start(LogCategory::Access);
    let first = match status {
        ResolveStatus::Need(FsRequest::ReadFile(p)) => p,
        _ => panic!("the machine should start by reading a file"),
    };
    assert_eq!(first, "/etc/nginx/nginx.conf");
    let status = machine.step(FsReply::FileMissing);
    let second = match status {
        ResolveStatus::Need(FsRequest::ReadFile(p)) => p,
        _ => panic!("a missing location should move the probe on"),
    };
    assert_eq!(second, "/usr/local/etc/nginx/nginx.conf");
    let status = machine.step(FsReply::FileContent(
        "access_log /var/log/probe.log;".to_string(),
    ));
    match status {
        ResolveStatus::Done(Ok(LogDestination::File(p))) => {
            assert_eq!(p, "/var/log/probe.log");
        }
        _ => panic!("a declared destination should finish the resolution"),
    }
}

#[test]
fn machine_falls_back_to_default_check() {
    let (mut machine, _status) = Resolver::start(LogCategory::Error);
    let mut status = machine.step(FsReply::FileContent("worker_processes auto;".to_string()));
    match status {
        ResolveStatus::Need(FsRequest::CheckFile(ref p)) => {
            assert_eq!(p, "/var/log/nginx/error.log");
        }
        _ => panic!("without directives the default location is checked"),
    }
    status = machine.step(FsReply::FileExists(true));
    match status {
        ResolveStatus::Done(Ok(LogDestination::File(p))) => {
            assert_eq!(p, "/var/log/nginx/error.log");
        }
        _ => panic!("an existing default location is the answer"),
    }
}

#[test]
fn machine_expands_glob_via_directory_listing() {
    let (mut machine, _start) = Resolver::start(LogCategory::Access);
    let mut status = machine.step(FsReply::FileContent(format!("{} sites/*.conf;", nest_kw())));
    match status {
        ResolveStatus::Need(FsRequest::ReadFile(ref p)) => {
            assert_eq!(p, "/etc/nginx/sites/*.conf");
        }
        _ => panic!("the literal pattern is tried first"),
    }
    status = machine.step(FsReply::FileMissing);
    match status {
        ResolveStatus::Need(FsRequest::ListDir(ref d)) => {
            assert_eq!(d, "/etc/nginx/sites");
        }
        _ => panic!("a missing wildcard pattern lists its directory"),
    }
    status = machine.step(FsReply::DirEntries(vec![
        "/etc/nginx/sites/a.conf".to_string(),
        "/etc/nginx/sites/b.conf".to_string(),
    ]));
    match status {
        ResolveStatus::Need(FsRequest::ReadFile(ref p)) => {
            assert_eq!(p, "/etc/nginx/sites/a.conf");
        }
        _ => panic!("listed files are parsed in listed order"),
    }
    status = machine.step(FsReply::FileContent("access_log /srv/a.log;".to_string()));
    match status {
        ResolveStatus::Done(Ok(LogDestination::File(p))) => assert_eq!(p, "/srv/a.log"),
        _ => panic!("the first nested declaration wins"),
    }
}

#[test]
fn model_lists_only_direct_children() {
    let mut fs = FsModel::new();
    fs.add("/etc/nginx/sites/a.conf".to_string(), "a".to_string());
    fs.add("/etc/nginx/sites/deep/b.conf".to_string(), "b".to_string());
    fs.add("/etc/nginx/other.conf".to_string(), "c".to_string());
    let listed = fs.list_dir(&"/etc/nginx/sites".to_string());
    assert_eq!(listed, vec!["/etc/nginx/sites/a.conf"]);
}
