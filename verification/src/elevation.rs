//! Planning of privileged commands.
//!
//! Each platform has its own way to run a service command with elevated
//! rights: piping a cached credential to an elevation helper, letting a
//! native prompt ask for it, or none at all.  Planning is separated from
//! spawning: these functions decide exactly which program to run, with
//! which arguments and which input line, and the unverified boundary only
//! carries the plan out.

use vstd::prelude::*;
use crate::Platform;
use crate::auth::{CredentialCache, LoginRequest, get_stored_password, sudo_key};
use crate::text::push_char;

verus! {

/// How elevated rights are obtained for a command that needs them.
#[derive(Clone, Copy, PartialEq, Eq, Structural, Debug)]
pub enum ElevationStyle {
    /// The elevation helper reads the cached credential from its input.
    PipedCredential,
    /// A native prompt asks the operator directly; no credential is read.
    NativePrompt,
}

/// A lifecycle action on the managed service.
#[derive(Clone, Copy, PartialEq, Eq, Structural, Debug)]
pub enum ServiceAction {
    Start,
    Stop,
    Restart,
}

/// Why a privileged command could not even be planned.
#[derive(Clone, Copy, PartialEq, Eq, Structural, Debug)]
pub enum PrivError {
    /// A credential was needed and none has been cached.
    NoCredentialCached,
    /// The platform has no supported elevation mechanism.
    UnsupportedPlatform,
}

impl PrivError {
    /// The error text the boundary reports, matching what callers expect.
    pub fn message(&self) -> (r: String)
        ensures
            *self == PrivError::NoCredentialCached ==> r@ == "No sudo password stored"@,
            *self == PrivError::UnsupportedPlatform ==> r@ == "Unsupported OS"@,
    {
        match self {
            PrivError::NoCredentialCached => String::from_str("No sudo password stored"),
            PrivError::UnsupportedPlatform => String::from_str("Unsupported OS"),
        }
    }
}

/// A fully determined external command: the program to spawn, its
/// arguments in order, and the single line, if any, to write to its
/// standard input.
pub struct CommandPlan {
    pub program: String,
    pub args: Vec<String>,
    pub stdin_line: Option<String>,
}

/// The verb a lifecycle action uses on the service manager's command line.
pub open spec fn action_verb(a: ServiceAction) -> Seq<char> {
    match a {
        ServiceAction::Start => "start"@,
        ServiceAction::Stop => "stop"@,
        ServiceAction::Restart => "restart"@,
    }
}

/// Executable twin of [`action_verb`].
pub fn action_verb_str(a: ServiceAction) -> (r: String)
    ensures
        r@ == action_verb(a),
{
    match a {
        ServiceAction::Start => String::from_str("start"),
        ServiceAction::Stop => String::from_str("stop"),
        ServiceAction::Restart => String::from_str("restart"),
    }
}

/// Plans a service lifecycle command for the given platform.
///
/// On a platform whose elevation helper reads a credential, the cached
/// credential is fetched; a cache miss fails the action rather than
/// prompting.  Where a native prompt or an unprivileged service manager is
/// used, the cache is not read at all.
pub fn plan_service_command(
    platform: Platform,
    style: ElevationStyle,
    action: ServiceAction,
    cache: &CredentialCache,
) -> (r: Result<CommandPlan, PrivError>)
    requires
        cache.wf(),
    ensures
        (platform == Platform::Windows || platform == Platform::Other) ==> (r matches Err(e) && e
            == PrivError::UnsupportedPlatform),
        platform == Platform::Linux && style == ElevationStyle::PipedCredential
            && !cache@.contains_key(sudo_key()) ==> (r matches Err(e) && e
            == PrivError::NoCredentialCached),
        platform == Platform::Linux && style == ElevationStyle::PipedCredential
            && cache@.contains_key(sudo_key()) ==> (r matches Ok(p) && p.program@ == "sudo"@
            && p.args.deep_view() == seq!["-S"@, "systemctl"@, action_verb(action), "nginx"@] && (
        p.stdin_line matches Some(s) && s@ == cache@[sudo_key()].push('\n'))),
        platform == Platform::Linux && style == ElevationStyle::NativePrompt ==> (r matches Ok(p)
            && p.program@ == "sudo"@ && p.args.deep_view() == seq![
            "systemctl"@,
            action_verb(action),
            "nginx"@,
        ] && p.stdin_line is None),
        platform == Platform::Macos ==> (r matches Ok(p) && p.program@ == "brew"@
            && p.args.deep_view() == seq!["services"@, action_verb(action), "nginx"@]
            && p.stdin_line is None),
{
    match platform {
        Platform::Linux => {
            let mut args: Vec<String> = Vec::new();
            match style {
                ElevationStyle::PipedCredential => {
                    let password = match get_stored_password(cache) {
                        Some(p) => p,
                        None => {
                            return Err(PrivError::NoCredentialCached);
                        },
                    };
                    args.push(String::from_str("-S"));
                    args.push(String::from_str("systemctl"));
                    args.push(action_verb_str(action));
                    args.push(String::from_str("nginx"));
                    assert(args.deep_view() =~~= seq![
                        "-S"@,
                        "systemctl"@,
                        action_verb(action),
                        "nginx"@,
                    ]);
                    let mut line = password;
                    push_char(&mut line, '\n');
                    Ok(
                        CommandPlan {
                            program: String::from_str("sudo"),
                            args,
                            stdin_line: Some(line),
                        },
                    )
                },
                ElevationStyle::NativePrompt => {
                    args.push(String::from_str("systemctl"));
                    args.push(action_verb_str(action));
                    args.push(String::from_str("nginx"));
                    assert(args.deep_view() =~~= seq!["systemctl"@, action_verb(action), "nginx"@]);
                    Ok(
                        CommandPlan {
                            program: String::from_str("sudo"),
                            args,
                            stdin_line: None,
                        },
                    )
                },
            }
        },
        Platform::Macos => {
            let mut args: Vec<String> = Vec::new();
            args.push(String::from_str("services"));
            args.push(action_verb_str(action));
            args.push(String::from_str("nginx"));
            assert(args.deep_view() =~~= seq!["services"@, action_verb(action), "nginx"@]);
            Ok(CommandPlan { program: String::from_str("brew"), args, stdin_line: None })
        },
        Platform::Windows => Err(PrivError::UnsupportedPlatform),
        Platform::Other => Err(PrivError::UnsupportedPlatform),
    }
}

/// The probe that validates a credential before it is cached: a harmless
/// echo through the elevation helper, with the secret piped to its input.
pub fn login_probe_plan(req: &LoginRequest) -> (p: CommandPlan)
    ensures
        p.program@ == "sudo"@,
        p.args.deep_view() == seq!["-S"@, "echo"@, "hello"@],
        p.stdin_line matches Some(s) && s@ == req.password@.push('\n'),
{
    let mut args: Vec<String> = Vec::new();
    args.push(String::from_str("-S"));
    args.push(String::from_str("echo"));
    args.push(String::from_str("hello"));
    assert(args.deep_view() =~~= seq!["-S"@, "echo"@, "hello"@]);
    let mut line = req.password.clone();
    push_char(&mut line, '\n');
    CommandPlan { program: String::from_str("sudo"), args, stdin_line: Some(line) }
}

/// Plans the platform's way of opening a file in an editor.
pub fn plan_open_file(platform: Platform, file_path: &String) -> (r: Result<CommandPlan, PrivError>)
    ensures
        platform == Platform::Windows ==> (r matches Ok(p) && p.program@ == "cmd"@
            && p.args.deep_view() == seq!["/C"@, "start"@, file_path@] && p.stdin_line is None),
        platform == Platform::Macos ==> (r matches Ok(p) && p.program@ == "open"@
            && p.args.deep_view() == seq!["-a"@, "TextEdit"@, file_path@] && p.stdin_line is None),
        platform == Platform::Linux ==> (r matches Ok(p) && p.program@ == "xdg-open"@
            && p.args.deep_view() == seq![file_path@] && p.stdin_line is None),
        platform == Platform::Other ==> (r matches Err(e) && e == PrivError::UnsupportedPlatform),
{
    match platform {
        Platform::Windows => {
            let mut args: Vec<String> = Vec::new();
            args.push(String::from_str("/C"));
            args.push(String::from_str("start"));
            args.push(file_path.clone());
            assert(args.deep_view() =~~= seq!["/C"@, "start"@, file_path@]);
            Ok(CommandPlan { program: String::from_str("cmd"), args, stdin_line: None })
        },
        Platform::Macos => {
            let mut args: Vec<String> = Vec::new();
            args.push(String::from_str("-a"));
            args.push(String::from_str("TextEdit"));
            args.push(file_path.clone());
            assert(args.deep_view() =~~= seq!["-a"@, "TextEdit"@, file_path@]);
            Ok(CommandPlan { program: String::from_str("open"), args, stdin_line: None })
        },
        Platform::Linux => {
            let mut args: Vec<String> = Vec::new();
            args.push(file_path.clone());
            assert(args.deep_view() =~~= seq![file_path@]);
            Ok(CommandPlan { program: String::from_str("xdg-open"), args, stdin_line: None })
        },
        Platform::Other => Err(PrivError::UnsupportedPlatform),
    }
}

} // verus!
