//! Interpretation of service-manager output and fixed service texts.
//!
//! The boundary runs the planned commands; the functions here decide what
//! their outcome means: the exact success and failure texts of a lifecycle
//! action, whether a status report says the service is active, which
//! report of a version probe to show, and the fixed per-platform log
//! locations the background watchers start from.

use vstd::prelude::*;
use crate::Platform;
use crate::elevation::ServiceAction;
use crate::text::{chars_eq, chars_to_string, contains_chars, contains_spec, to_chars, trim_chars,
    trim_spec};

verus! {

/// The message reported when a lifecycle action succeeds.
pub open spec fn success_message(a: ServiceAction) -> Seq<char> {
    match a {
        ServiceAction::Start => "Nginx started successfully"@,
        ServiceAction::Stop => "Nginx stopped successfully"@,
        ServiceAction::Restart => "Nginx restarted successfully"@,
    }
}

/// The prefix of the message reported when a lifecycle action fails; the
/// elevation helper's captured error text follows it verbatim.
pub open spec fn failure_prefix(a: ServiceAction) -> Seq<char> {
    match a {
        ServiceAction::Start => "Failed to start Nginx: "@,
        ServiceAction::Stop => "Failed to stop Nginx: "@,
        ServiceAction::Restart => "Failed to restart Nginx: "@,
    }
}

/// Turns the outcome of a lifecycle command into the caller-facing result:
/// a fixed success message, or the captured standard-error text appended
/// to a fixed failure prefix.
pub fn interpret_service_output(action: ServiceAction, success: bool, stderr: &str) -> (r: Result<
    String,
    String,
>)
    ensures
        success ==> (r matches Ok(m) && m@ == success_message(action)),
        !success ==> (r matches Err(m) && m@ == failure_prefix(action) + stderr@),
{
    if success {
        match action {
            ServiceAction::Start => Ok(String::from_str("Nginx started successfully")),
            ServiceAction::Stop => Ok(String::from_str("Nginx stopped successfully")),
            ServiceAction::Restart => Ok(String::from_str("Nginx restarted successfully")),
        }
    } else {
        let prefix = match action {
            ServiceAction::Start => String::from_str("Failed to start Nginx: "),
            ServiceAction::Stop => String::from_str("Failed to stop Nginx: "),
            ServiceAction::Restart => String::from_str("Failed to restart Nginx: "),
        };
        Err(prefix.concat(stderr))
    }
}

/// Whether a status probe's trimmed output says the service is running:
/// the service manager answers exactly `active` on Linux, and the package
/// manager's service table names the service with the word `started` on
/// macOS.
pub open spec fn spec_is_active(platform: Platform, raw: Seq<char>) -> bool {
    match platform {
        Platform::Linux => trim_spec(raw) == "active"@,
        Platform::Macos => contains_spec(trim_spec(raw), "nginx"@) && contains_spec(
            trim_spec(raw),
            "started"@,
        ),
        Platform::Windows => false,
        Platform::Other => false,
    }
}

/// Executable twin of [`spec_is_active`].
pub fn service_is_active(platform: Platform, raw: &str) -> (r: bool)
    ensures
        r == spec_is_active(platform, raw@),
{
    let chars = to_chars(raw);
    let trimmed = trim_chars(&chars);
    match platform {
        Platform::Linux => chars_eq(&trimmed, &to_chars("active")),
        Platform::Macos => {
            let has_name = contains_chars(&trimmed, &to_chars("nginx"));
            let has_state = contains_chars(&trimmed, &to_chars("started"));
            has_name && has_state
        },
        Platform::Windows => false,
        Platform::Other => false,
    }
}

/// The label a background status check publishes: the trimmed probe output
/// on Linux, presence or absence of matching processes on macOS, and a
/// fixed word elsewhere.
pub fn monitor_status_label(platform: Platform, stdout: &str) -> (r: String)
    ensures
        platform == Platform::Linux ==> r@ == trim_spec(stdout@),
        platform == Platform::Macos && stdout@.len() == 0 ==> r@ == "inactive"@,
        platform == Platform::Macos && stdout@.len() > 0 ==> r@ == "active"@,
        (platform == Platform::Windows || platform == Platform::Other) ==> r@ == "unsupported"@,
{
    match platform {
        Platform::Linux => {
            let chars = to_chars(stdout);
            let trimmed = trim_chars(&chars);
            chars_to_string(&trimmed)
        },
        Platform::Macos => {
            if stdout.unicode_len() == 0 {
                String::from_str("inactive")
            } else {
                String::from_str("active")
            }
        },
        Platform::Windows => String::from_str("unsupported"),
        Platform::Other => String::from_str("unsupported"),
    }
}

/// The message a configuration check publishes: a fixed text when the
/// check passed, else the checker's captured error output after a fixed
/// prefix.
pub fn config_check_message(success: bool, stderr: &str) -> (r: String)
    ensures
        success ==> r@ == "Nginx configuration is valid."@,
        !success ==> r@ == "Nginx configuration error: "@ + stderr@,
{
    if success {
        String::from_str("Nginx configuration is valid.")
    } else {
        String::from_str("Nginx configuration error: ").concat(stderr)
    }
}

/// Picks the version report out of a version probe, which writes its
/// build information to standard error: that stream when it is non-empty,
/// the standard output otherwise.
pub fn select_version_report(stdout: &str, stderr: &str) -> (r: String)
    ensures
        stderr@.len() > 0 ==> r@ == stderr@,
        stderr@.len() == 0 ==> r@ == stdout@,
{
    if stderr.unicode_len() > 0 {
        stderr.to_owned()
    } else {
        stdout.to_owned()
    }
}

/// The drop-in override that reruns the service with extra arguments.
pub fn render_service_override(custom_args: &str) -> (r: String)
    ensures
        r@ == "[Service]\nExecStart=\nExecStart=/usr/sbin/nginx -g 'pid /run/nginx.pid; error_log stderr; worker_processes auto;' -c /etc/nginx/nginx.conf "@
            + custom_args@ + "\n"@,
{
    let head = String::from_str(
        "[Service]\nExecStart=\nExecStart=/usr/sbin/nginx -g 'pid /run/nginx.pid; error_log stderr; worker_processes auto;' -c /etc/nginx/nginx.conf ",
    );
    head.concat(custom_args).concat("\n")
}

/// The conventional access- and error-log locations the background
/// watchers follow on each platform, where the platform has any.
pub fn default_log_paths(platform: Platform) -> (r: Option<(String, String)>)
    ensures
        platform == Platform::Macos ==> (r matches Some(p) && p.0@
            == "/usr/local/var/log/nginx/access.log"@ && p.1@
            == "/usr/local/var/log/nginx/error.log"@),
        platform == Platform::Linux ==> (r matches Some(p) && p.0@
            == "/var/log/nginx/access.log"@ && p.1@ == "/var/log/nginx/error.log"@),
        (platform == Platform::Windows || platform == Platform::Other) ==> r is None,
{
    match platform {
        Platform::Macos => Some(
            (
                String::from_str("/usr/local/var/log/nginx/access.log"),
                String::from_str("/usr/local/var/log/nginx/error.log"),
            ),
        ),
        Platform::Linux => Some(
            (
                String::from_str("/var/log/nginx/access.log"),
                String::from_str("/var/log/nginx/error.log"),
            ),
        ),
        Platform::Windows => None,
        Platform::Other => None,
    }
}

} // verus!
