//! Building platform log-query invocations.
//!
//! A uniform query — service name, paging, line count, time bounds,
//! order — becomes an argument list in the grammar of the platform's log
//! facility: the journal reader on Linux, the unified log tool on macOS.
//! The argument list is a pure function of the query, so identical
//! queries always produce identical invocations.

use vstd::prelude::*;
use crate::Platform;
use crate::elevation::CommandPlan;
use crate::text::{chars_to_string, replace_spec, replace_chars, strip_suffix_rep_spec,
    strip_suffix_rep_chars, to_chars, trim_chars, trim_spec, u64_digits_spec, u64_to_chars};

verus! {

/// A log query over a named service unit, as the boundary hands it in.
pub struct SystemdLogOptions {
    pub service_name: String,
    pub no_pager: bool,
    pub num_lines: Option<u32>,
    pub since: Option<String>,
    pub until: Option<String>,
    pub reverse: bool,
}

/// The query as mathematics: service name, no-pager flag, line count,
/// since bound, until bound, reverse flag.
pub type LogQueryView = (Seq<char>, bool, Option<u32>, Option<Seq<char>>, Option<Seq<char>>, bool);

impl View for SystemdLogOptions {
    type V = LogQueryView;

    open spec fn view(&self) -> LogQueryView {
        (
            self.service_name@,
            self.no_pager,
            self.num_lines,
            match self.since {
                Some(ref s) => Some(s@),
                None => None,
            },
            match self.until {
                Some(ref s) => Some(s@),
                None => None,
            },
            self.reverse,
        )
    }
}

/// Why a log query could not be planned.
#[derive(Clone, Copy, PartialEq, Eq, Structural, Debug)]
pub enum QueryError {
    UnsupportedPlatform,
}

impl QueryError {
    /// The error text the boundary reports.
    pub fn message(&self) -> (r: String)
        ensures
            r@ == "Unsupported operating system"@,
    {
        String::from_str("Unsupported operating system")
    }
}

/// A time bound as the platform log tools want it: a date-only value (ten
/// characters) gets midnight appended, anything else passes unchanged.
pub open spec fn datetime_spec(s: Seq<char>) -> Seq<char> {
    if s.len() == 10 {
        s + " 00:00:00"@
    } else {
        s
    }
}

/// Normalizes a date-only timestamp by appending a midnight time of day.
pub fn format_datetime(datetime: &str) -> (r: String)
    ensures
        r@ == datetime_spec(datetime@),
{
    if datetime.unicode_len() == 10 {
        datetime.to_owned().concat(" 00:00:00")
    } else {
        datetime.to_owned()
    }
}

/// The same normalization, under the name the macOS grammar uses.
pub fn format_datetime_macos(datetime: &str) -> (r: String)
    ensures
        r@ == datetime_spec(datetime@),
{
    format_datetime(datetime)
}

/// The journal grammar: `-u <service>`, then `--no-pager`, `-n <count>`,
/// `--since <bound>` and `--until <bound>` with the `T` separator turned
/// into a space, and `--reverse`, each only when asked for.  A time bound
/// that is blank after trimming is dropped.
pub open spec fn journal_args_spec(o: LogQueryView) -> Seq<Seq<char>> {
    let base = seq!["-u"@, o.0];
    let with_pager = if o.1 {
        base.push("--no-pager"@)
    } else {
        base
    };
    let with_lines = match o.2 {
        Some(n) => with_pager + seq!["-n"@, u64_digits_spec(n as int)],
        None => with_pager,
    };
    let with_since = match o.3 {
        Some(s) => if trim_spec(s).len() > 0 {
            with_lines + seq!["--since"@, replace_spec(s, 'T', ' ')]
        } else {
            with_lines
        },
        None => with_lines,
    };
    let with_until = match o.4 {
        Some(s) => if trim_spec(s).len() > 0 {
            with_since + seq!["--until"@, replace_spec(s, 'T', ' ')]
        } else {
            with_since
        },
        None => with_since,
    };
    if o.5 {
        with_until.push("--reverse"@)
    } else {
        with_until
    }
}

/// Builds the journal invocation's arguments for the query.
pub fn build_journal_args(o: &SystemdLogOptions) -> (r: Vec<String>)
    ensures
        r.deep_view() == journal_args_spec(o@),
{
    let mut args: Vec<String> = Vec::new();
    args.push(String::from_str("-u"));
    args.push(o.service_name.clone());
    assert(args.deep_view() =~~= seq!["-u"@, o.service_name@]);
    if o.no_pager {
        args.push(String::from_str("--no-pager"));
    }
    match o.num_lines {
        Some(n) => {
            args.push(String::from_str("-n"));
            let digits = u64_to_chars(n as u64);
            args.push(chars_to_string(&digits));
        },
        None => {},
    }
    match o.since {
        Some(ref s) => {
            let chars = to_chars(s.as_str());
            let trimmed = trim_chars(&chars);
            if trimmed.len() > 0 {
                args.push(String::from_str("--since"));
                let replaced = replace_chars(&chars, 'T', ' ');
                args.push(chars_to_string(&replaced));
            }
        },
        None => {},
    }
    match o.until {
        Some(ref s) => {
            let chars = to_chars(s.as_str());
            let trimmed = trim_chars(&chars);
            if trimmed.len() > 0 {
                args.push(String::from_str("--until"));
                let replaced = replace_chars(&chars, 'T', ' ');
                args.push(chars_to_string(&replaced));
            }
        },
        None => {},
    }
    if o.reverse {
        args.push(String::from_str("--reverse"));
    }
    assert(args.deep_view() =~~= journal_args_spec(o@));
    args
}

/// The unified-log grammar: any `.service` or `.socket` suffixes leave the
/// unit name, the query becomes `show --predicate "process == '<name>'"`,
/// a line count is approximated as a trailing time window in seconds, time
/// bounds are date-normalized `--start` and `--end`, and `--reverse` is
/// kept.  A time bound that is blank after trimming is dropped.
pub open spec fn unified_log_args_spec(o: LogQueryView) -> Seq<Seq<char>> {
    let name = strip_suffix_rep_spec(strip_suffix_rep_spec(o.0, ".service"@), ".socket"@);
    let base = seq!["show"@, "--predicate"@, "process == '"@ + name + "'"@];
    let with_lines = match o.2 {
        Some(n) => base + seq!["--last"@, u64_digits_spec(n as int) + "s"@],
        None => base,
    };
    let with_since = match o.3 {
        Some(s) => if trim_spec(s).len() > 0 {
            with_lines + seq!["--start"@, datetime_spec(s)]
        } else {
            with_lines
        },
        None => with_lines,
    };
    let with_until = match o.4 {
        Some(s) => if trim_spec(s).len() > 0 {
            with_since + seq!["--end"@, datetime_spec(s)]
        } else {
            with_since
        },
        None => with_since,
    };
    if o.5 {
        with_until.push("--reverse"@)
    } else {
        with_until
    }
}

/// Builds the unified-log invocation's arguments for the query.
pub fn build_unified_log_args(o: &SystemdLogOptions) -> (r: Vec<String>)
    ensures
        r.deep_view() == unified_log_args_spec(o@),
{
    let mut args: Vec<String> = Vec::new();
    args.push(String::from_str("show"));
    args.push(String::from_str("--predicate"));
    let name_chars = to_chars(o.service_name.as_str());
    let stripped = strip_suffix_rep_chars(&name_chars, &to_chars(".service"));
    let stripped = strip_suffix_rep_chars(&stripped, &to_chars(".socket"));
    let name = chars_to_string(&stripped);
    let predicate = String::from_str("process == '").concat(name.as_str()).concat("'");
    args.push(predicate);
    assert(args.deep_view() =~~= seq![
        "show"@,
        "--predicate"@,
        "process == '"@ + strip_suffix_rep_spec(
            strip_suffix_rep_spec(o.service_name@, ".service"@),
            ".socket"@,
        ) + "'"@,
    ]);
    match o.num_lines {
        Some(n) => {
            args.push(String::from_str("--last"));
            let digits = u64_to_chars(n as u64);
            let window = chars_to_string(&digits).concat("s");
            args.push(window);
        },
        None => {},
    }
    match o.since {
        Some(ref s) => {
            let chars = to_chars(s.as_str());
            let trimmed = trim_chars(&chars);
            if trimmed.len() > 0 {
                args.push(String::from_str("--start"));
                args.push(format_datetime(s.as_str()));
            }
        },
        None => {},
    }
    match o.until {
        Some(ref s) => {
            let chars = to_chars(s.as_str());
            let trimmed = trim_chars(&chars);
            if trimmed.len() > 0 {
                args.push(String::from_str("--end"));
                args.push(format_datetime(s.as_str()));
            }
        },
        None => {},
    }
    if o.reverse {
        args.push(String::from_str("--reverse"));
    }
    assert(args.deep_view() =~~= unified_log_args_spec(o@));
    args
}

/// Plans the platform's log query: which program to run and with which
/// arguments; nothing is written to its input.
pub fn plan_log_query(platform: Platform, o: &SystemdLogOptions) -> (r: Result<
    CommandPlan,
    QueryError,
>)
    ensures
        platform == Platform::Linux ==> (r matches Ok(p) && p.program@ == "journalctl"@
            && p.args.deep_view() == journal_args_spec(o@) && p.stdin_line is None),
        platform == Platform::Macos ==> (r matches Ok(p) && p.program@ == "log"@
            && p.args.deep_view() == unified_log_args_spec(o@) && p.stdin_line is None),
        (platform == Platform::Windows || platform == Platform::Other) ==> (r matches Err(e) && e
            == QueryError::UnsupportedPlatform),
{
    match platform {
        Platform::Linux => Ok(
            CommandPlan {
                program: String::from_str("journalctl"),
                args: build_journal_args(o),
                stdin_line: None,
            },
        ),
        Platform::Macos => Ok(
            CommandPlan {
                program: String::from_str("log"),
                args: build_unified_log_args(o),
                stdin_line: None,
            },
        ),
        Platform::Windows => Err(QueryError::UnsupportedPlatform),
        Platform::Other => Err(QueryError::UnsupportedPlatform),
    }
}

/// Turns a run log-query's outcome into the caller-facing result: the
/// captured standard output on success, and otherwise the trimmed captured
/// standard-error text after the grammar's own error prefix.  A platform
/// without a grammar reports the same error its planning does.
pub fn interpret_query_output(platform: Platform, success: bool, stdout: &str, stderr: &str) -> (r:
    Result<String, String>)
    ensures
        (platform == Platform::Linux || platform == Platform::Macos) && success ==> (r matches Ok(
            m,
        ) && m@ == stdout@),
        platform == Platform::Linux && !success ==> (r matches Err(m) && m@
            == "journalctl error: "@ + trim_spec(stderr@)),
        platform == Platform::Macos && !success ==> (r matches Err(m) && m@
            == "log command error: "@ + trim_spec(stderr@)),
        (platform == Platform::Windows || platform == Platform::Other) ==> (r matches Err(m) && m@
            == "Unsupported operating system"@),
{
    match platform {
        Platform::Linux => {
            if success {
                Ok(stdout.to_owned())
            } else {
                let chars = to_chars(stderr);
                let trimmed = trim_chars(&chars);
                Err(String::from_str("journalctl error: ").concat(chars_to_string(&trimmed).as_str()))
            }
        },
        Platform::Macos => {
            if success {
                Ok(stdout.to_owned())
            } else {
                let chars = to_chars(stderr);
                let trimmed = trim_chars(&chars);
                Err(
                    String::from_str("log command error: ").concat(
                        chars_to_string(&trimmed).as_str(),
                    ),
                )
            }
        },
        Platform::Windows => Err(String::from_str("Unsupported operating system")),
        Platform::Other => Err(String::from_str("Unsupported operating system")),
    }
}

/// Law: the generated argument lists are functions of the query alone —
/// equal queries yield equal invocations on either grammar, with no hidden
/// source of variation.
pub proof fn lemma_query_builder_deterministic(a: LogQueryView, b: LogQueryView)
    requires
        a == b,
    ensures
        journal_args_spec(a) == journal_args_spec(b),
        unified_log_args_spec(a) == unified_log_args_spec(b),
{
}

} // verus!
