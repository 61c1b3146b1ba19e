//! Resolution of the service's true log destination.
//!
//! Where a log ends up is declared inside a configuration tree: a main
//! file found at one of a few conventional locations, whose directives may
//! point at files, streams, the system log or nowhere, and whose nesting
//! directives pull in further files, possibly through glob patterns.  The
//! functions here parse one file exactly; the [`Resolver`] walks the tree
//! as a request/reply machine, so the filesystem itself stays outside:
//! whoever drives it reads the files it asks for and hands the text back.

use vstd::prelude::*;
use crate::text::{chars_eq, chars_to_string, concat_chars, contains_chars, contains_spec,
    ends_with_chars, ends_with_spec, split_lines_chars, split_lines_spec, split_ws_chars,
    split_ws_spec, starts_with_chars, starts_with_spec, strip_trailing_chars, strip_trailing_spec,
    subvec, to_chars, trim_chars, trim_spec};

verus! {

/// A class of log output, declared by its own configuration directive.
#[derive(Clone, Copy, PartialEq, Eq, Structural, Debug)]
pub enum LogCategory {
    Access,
    Error,
}

/// The stream a non-file destination writes to.
#[derive(Clone, Copy, PartialEq, Eq, Structural, Debug)]
pub enum StreamKind {
    Stderr,
    Stdout,
}

/// Where a log category's output goes.
#[derive(Debug, PartialEq, Eq)]
pub enum LogDestination {
    /// An absolute file path.
    File(String),
    /// A standard stream; there is no file to read.
    Stream(StreamKind),
    /// The system log, with the raw destination value.
    Syslog(String),
    /// Logging is switched off.
    Disabled,
}

/// The destination as mathematics.
pub enum DestinationView {
    FileDest(Seq<char>),
    StreamDest(StreamKind),
    SyslogDest(Seq<char>),
    DisabledDest,
}

impl View for LogDestination {
    type V = DestinationView;

    open spec fn view(&self) -> DestinationView {
        match self {
            LogDestination::File(p) => DestinationView::FileDest(p@),
            LogDestination::Stream(k) => DestinationView::StreamDest(*k),
            LogDestination::Syslog(v) => DestinationView::SyslogDest(v@),
            LogDestination::Disabled => DestinationView::DisabledDest,
        }
    }
}

/// Why a resolution failed.
#[derive(Debug, PartialEq, Eq)]
pub enum ResolveError {
    /// The requested category is not one the service knows.
    InvalidCategory,
    /// No configuration file exists at any conventional location.
    ConfigNotFound,
    /// Nothing declared a destination and the default location is absent.
    LogPathNotFound { category: LogCategory, config_path: String, default_path: String },
    /// A configuration file was reached twice in one resolution.
    CyclicNesting { path: String },
}

/// The name of a category, as requests spell it.
pub open spec fn category_name(c: LogCategory) -> Seq<char> {
    match c {
        LogCategory::Access => "access"@,
        LogCategory::Error => "error"@,
    }
}

/// The category a request names, or the invalid-category error: exactly
/// `access` and `error` are known.
pub fn category_from_name(name: &str) -> (r: Result<LogCategory, ResolveError>)
    ensures
        name@ == "access"@ ==> (r matches Ok(c) && c == LogCategory::Access),
        name@ == "error"@ ==> (r matches Ok(c) && c == LogCategory::Error),
        name@ != "access"@ && name@ != "error"@ ==> (r matches Err(e) && e matches
            ResolveError::InvalidCategory),
{
    proof {
        reveal_strlit("access");
        reveal_strlit("error");
        assert("access"@.len() == 6);
        assert("error"@.len() == 5);
    }
    let chars = to_chars(name);
    if chars_eq(&chars, &to_chars("access")) {
        Ok(LogCategory::Access)
    } else if chars_eq(&chars, &to_chars("error")) {
        Ok(LogCategory::Error)
    } else {
        Err(ResolveError::InvalidCategory)
    }
}

/// The directive that declares the category's destination.
pub open spec fn directive_of(c: LogCategory) -> Seq<char> {
    match c {
        LogCategory::Access => "access_log"@,
        LogCategory::Error => "error_log"@,
    }
}

/// Executable twin of [`directive_of`].
pub fn directive_chars(c: LogCategory) -> (r: Vec<char>)
    ensures
        r@ == directive_of(c),
{
    match c {
        LogCategory::Access => to_chars("access_log"),
        LogCategory::Error => to_chars("error_log"),
    }
}

/// The keyword of the directive that pulls another configuration file in.
pub open spec fn nest_keyword() -> Seq<char> {
    seq!['i', 'n', 'c', 'l', 'u', 'd', 'e']
}

/// Executable twin of [`nest_keyword`].
pub fn nest_keyword_chars() -> (r: Vec<char>)
    ensures
        r@ == nest_keyword(),
{
    let mut v: Vec<char> = Vec::new();
    v.push('i');
    v.push('n');
    v.push('c');
    v.push('l');
    v.push('u');
    v.push('d');
    v.push('e');
    assert(v@ =~= nest_keyword());
    v
}

/// The default destination of a category when nothing declares one.
pub open spec fn default_path_of(c: LogCategory) -> Seq<char> {
    match c {
        LogCategory::Access => "/var/log/nginx/access.log"@,
        LogCategory::Error => "/var/log/nginx/error.log"@,
    }
}

/// Executable twin of [`default_path_of`].
pub fn default_path_str(c: LogCategory) -> (r: String)
    ensures
        r@ == default_path_of(c),
{
    match c {
        LogCategory::Access => String::from_str("/var/log/nginx/access.log"),
        LogCategory::Error => String::from_str("/var/log/nginx/error.log"),
    }
}

/// The path is absolute.
pub open spec fn is_absolute(s: Seq<char>) -> bool {
    s.len() > 0 && s[0] == '/'
}

/// Index of the last slash of `s`, or a negative value if it has none.
pub open spec fn last_slash(s: Seq<char>) -> int
    decreases s.len(),
{
    if s.len() == 0 {
        -1
    } else if s[s.len() - 1] == '/' {
        s.len() - 1
    } else {
        last_slash(s.drop_last())
    }
}

proof fn lemma_last_slash_bounds(s: Seq<char>)
    ensures
        -1 <= last_slash(s) < s.len(),
        last_slash(s) >= 0 ==> s[last_slash(s)] == '/',
        forall|i: int| last_slash(s) < i < s.len() ==> s[i] != '/',
    decreases s.len(),
{
    if s.len() > 0 && s[s.len() - 1] != '/' {
        lemma_last_slash_bounds(s.drop_last());
        assert(forall|i: int|
            last_slash(s) < i < s.len() - 1 ==> s[i] == s.drop_last()[i] && s[i] != '/');
    }
}

/// A path relative to a configuration file, joined to that file's
/// directory: everything before the file's last slash, a slash, and the
/// relative path; a file without a directory part leaves the path as it
/// came.
pub open spec fn join_rel(config_path: Seq<char>, rel: Seq<char>) -> Seq<char> {
    let k = last_slash(config_path);
    if k < 0 {
        rel
    } else if k == 0 {
        "/"@ + rel
    } else {
        config_path.subrange(0, k) + "/"@ + rel
    }
}

/// Executable twin of [`join_rel`].
pub fn join_rel_chars(config_path: &Vec<char>, rel: &Vec<char>) -> (r: Vec<char>)
    ensures
        r@ == join_rel(config_path@, rel@),
{
    let n = config_path.len();
    let mut hi: usize = n;
    assert(config_path@.subrange(0, n as int) =~= config_path@);
    while hi > 0 && config_path[hi - 1] != '/'
        invariant
            hi <= n == config_path@.len(),
            last_slash(config_path@) == last_slash(config_path@.subrange(0, hi as int)),
        decreases hi,
    {
        assert(config_path@.subrange(0, hi as int).drop_last() =~= config_path@.subrange(
            0,
            hi as int - 1,
        ));
        hi = hi - 1;
    }
    if hi == 0 {
        assert(config_path@.subrange(0, 0) =~= Seq::<char>::empty());
        assert(last_slash(config_path@) == -1);
        subvec(rel, 0, rel.len())
    } else if hi == 1 {
        assert(last_slash(config_path@) == 0);
        let mut r: Vec<char> = Vec::new();
        r.push('/');
        assert(r@ =~= "/"@) by {
            reveal_strlit("/");
        }
        let joined = concat_chars(&r, rel);
        joined
    } else {
        assert(last_slash(config_path@) == hi - 1);
        let dir = subvec(config_path, 0, hi - 1);
        let mut sep: Vec<char> = Vec::new();
        sep.push('/');
        assert(sep@ =~= "/"@) by {
            reveal_strlit("/");
        }
        let head = concat_chars(&dir, &sep);
        let joined = concat_chars(&head, rel);
        assert(joined@ =~= config_path@.subrange(0, hi - 1 as int) + "/"@ + rel@);
        joined
    }
}

proof fn lemma_join_rel_absolute(config_path: Seq<char>, rel: Seq<char>)
    requires
        is_absolute(config_path) || is_absolute(rel),
    ensures
        is_absolute(rel) || is_absolute(join_rel(config_path, rel)),
{
    lemma_last_slash_bounds(config_path);
    reveal_strlit("/");
    if !is_absolute(rel) {
        let k = last_slash(config_path);
        if k < 0 {
        } else if k == 0 {
            assert(join_rel(config_path, rel).len() > 0);
            assert(join_rel(config_path, rel)[0] == '/');
        } else {
            assert(join_rel(config_path, rel).len() > 0);
            assert(join_rel(config_path, rel)[0] == config_path[0]);
        }
    }
}

/// The directory part of a path: everything before its last slash, the
/// root for a file directly under it, and nothing for a bare name.
pub open spec fn dir_of(path: Seq<char>) -> Seq<char> {
    let k = last_slash(path);
    if k < 0 {
        Seq::empty()
    } else if k == 0 {
        "/"@
    } else {
        path.subrange(0, k)
    }
}

/// Executable twin of [`dir_of`].
pub fn dir_of_chars(path: &Vec<char>) -> (r: Vec<char>)
    ensures
        r@ == dir_of(path@),
{
    let n = path.len();
    let mut hi: usize = n;
    assert(path@.subrange(0, n as int) =~= path@);
    while hi > 0 && path[hi - 1] != '/'
        invariant
            hi <= n == path@.len(),
            last_slash(path@) == last_slash(path@.subrange(0, hi as int)),
        decreases hi,
    {
        assert(path@.subrange(0, hi as int).drop_last() =~= path@.subrange(0, hi as int - 1));
        hi = hi - 1;
    }
    if hi == 0 {
        assert(path@.subrange(0, 0) =~= Seq::<char>::empty());
        assert(last_slash(path@) == -1);
        Vec::new()
    } else if hi == 1 {
        assert(last_slash(path@) == 0);
        let mut r: Vec<char> = Vec::new();
        r.push('/');
        proof {
            reveal_strlit("/");
        }
        assert(r@ =~= "/"@);
        r
    } else {
        assert(last_slash(path@) == hi - 1);
        subvec(path, 0, hi - 1)
    }
}

/// The destination a directive value names, resolved against the file that
/// declared it: the standard streams and their device paths, the off
/// switch, the system log, and otherwise a file — absolute as written, or
/// joined to the declaring file's directory.
pub open spec fn spec_classify(value: Seq<char>, config_path: Seq<char>) -> DestinationView {
    if value == "stderr"@ || value == "/dev/stderr"@ {
        DestinationView::StreamDest(StreamKind::Stderr)
    } else if value == "stdout"@ || value == "/dev/stdout"@ {
        DestinationView::StreamDest(StreamKind::Stdout)
    } else if value == "off"@ {
        DestinationView::DisabledDest
    } else if value == "syslog"@ || starts_with_spec(value, "syslog:"@) {
        DestinationView::SyslogDest(value)
    } else if starts_with_spec(value, "/"@) {
        DestinationView::FileDest(value)
    } else {
        DestinationView::FileDest(join_rel(config_path, value))
    }
}

/// Executable twin of [`spec_classify`].
pub fn classify_destination(value: &Vec<char>, config_path: &Vec<char>) -> (d: LogDestination)
    ensures
        d@ == spec_classify(value@, config_path@),
{
    if chars_eq(value, &to_chars("stderr")) || chars_eq(value, &to_chars("/dev/stderr")) {
        LogDestination::Stream(StreamKind::Stderr)
    } else if chars_eq(value, &to_chars("stdout")) || chars_eq(value, &to_chars("/dev/stdout")) {
        LogDestination::Stream(StreamKind::Stdout)
    } else if chars_eq(value, &to_chars("off")) {
        LogDestination::Disabled
    } else if chars_eq(value, &to_chars("syslog")) || starts_with_chars(
        value,
        &to_chars("syslog:"),
    ) {
        LogDestination::Syslog(chars_to_string(value))
    } else if starts_with_chars(value, &to_chars("/")) {
        LogDestination::File(chars_to_string(value))
    } else {
        let joined = join_rel_chars(config_path, value);
        LogDestination::File(chars_to_string(&joined))
    }
}

/// The value a line declares for the directive `keyword`: the trimmed
/// line must begin with the keyword and have at least two fields; the
/// value is the second field with trailing semicolons removed.
pub open spec fn line_directive_value(line: Seq<char>, keyword: Seq<char>) -> Option<Seq<char>> {
    let t = trim_spec(line);
    if starts_with_spec(t, keyword) && split_ws_spec(t).len() >= 2 {
        Some(strip_trailing_spec(split_ws_spec(t)[1], ';'))
    } else {
        None
    }
}

/// The value of the first line that declares the directive, scanning top
/// to bottom.
pub open spec fn first_directive_value(lines: Seq<Seq<char>>, keyword: Seq<char>) -> Option<
    Seq<char>,
>
    decreases lines.len(),
{
    if lines.len() == 0 {
        None
    } else {
        match line_directive_value(lines[0], keyword) {
            Some(v) => Some(v),
            None => first_directive_value(lines.drop_first(), keyword),
        }
    }
}

/// Every nesting pattern the lines declare, in declaration order.
pub open spec fn nest_patterns(lines: Seq<Seq<char>>) -> Seq<Seq<char>>
    decreases lines.len(),
{
    if lines.len() == 0 {
        Seq::empty()
    } else {
        let rest = nest_patterns(lines.drop_first());
        match line_directive_value(lines[0], nest_keyword()) {
            Some(v) => seq![v] + rest,
            None => rest,
        }
    }
}

/// What one configuration file says about a category.
#[derive(Debug, PartialEq, Eq)]
pub enum ParseOutcome {
    /// A directive declared this destination.
    Found(LogDestination),
    /// No directive; these nesting patterns may declare it elsewhere.
    NotFound(Vec<String>),
}

/// Evaluates one line for the directive `keyword`, sharing the scan
/// between the destination search and the nesting-pattern search.
fn eval_line(line: &Vec<char>, keyword: &Vec<char>) -> (r: Option<Vec<char>>)
    ensures
        match r {
            Some(v) => line_directive_value(line@, keyword@) == Some(v@),
            None => line_directive_value(line@, keyword@) is None,
        },
{
    let t = trim_chars(line);
    if starts_with_chars(&t, keyword) {
        let parts = split_ws_chars(&t);
        if parts.len() >= 2 {
            assert(parts.deep_view()[1] =~= parts@[1]@);
            let v = strip_trailing_chars(&parts[1], ';');
            return Some(v);
        }
        assert(split_ws_spec(trim_spec(line@)).len() < 2);
        None
    } else {
        None
    }
}

/// Reads one configuration file's text for the category: the first
/// matching directive wins and is classified against the file's own path;
/// a file without one yields its nesting patterns, in declaration order.
pub fn parse_nginx_config_for_logs(content: &str, config_path: &String, category: LogCategory) -> (r:
    ParseOutcome)
    ensures
        match first_directive_value(split_lines_spec(content@), directive_of(category)) {
            Some(v) => (r matches ParseOutcome::Found(d) && d@ == spec_classify(v, config_path@)),
            None => (r matches ParseOutcome::NotFound(pats) && pats.deep_view() == nest_patterns(
                split_lines_spec(content@),
            )),
        },
{
    let chars = to_chars(content);
    let lines = split_lines_chars(&chars);
    let keyword = directive_chars(category);
    let nest_kw = nest_keyword_chars();
    let config_chars = to_chars(config_path.as_str());
    let mut pats: Vec<String> = Vec::new();
    let mut i: usize = 0;
    let n = lines.len();
    let ghost all = lines.deep_view();
    assert(all.skip(0) =~~= all);
    while i < n
        invariant
            i <= n == lines@.len(),
            all == lines.deep_view(),
            all == split_lines_spec(chars@),
            chars@ == content@,
            keyword@ == directive_of(category),
            nest_kw@ == nest_keyword(),
            config_chars@ == config_path@,
            first_directive_value(all, keyword@) == first_directive_value(
                all.skip(i as int),
                keyword@,
            ),
            nest_patterns(all) == pats.deep_view() + nest_patterns(all.skip(i as int)),
        decreases n - i,
    {
        let ghost rest = all.skip(i as int);
        assert(rest[0] =~= lines@[i as int]@);
        assert(rest.drop_first() =~= all.skip(i as int + 1));
        match eval_line(&lines[i], &keyword) {
            Some(v) => {
                let d = classify_destination(&v, &config_chars);
                assert(first_directive_value(all, keyword@) == Some(v@));
                return ParseOutcome::Found(d);
            },
            None => {},
        }
        match eval_line(&lines[i], &nest_kw) {
            Some(p) => {
                let ghost old_pats = pats.deep_view();
                pats.push(chars_to_string(&p));
                assert(pats.deep_view() =~~= old_pats.push(p@));
                assert(nest_patterns(rest) =~~= seq![p@] + nest_patterns(rest.drop_first()));
                assert(nest_patterns(all) =~~= pats.deep_view() + nest_patterns(
                    all.skip(i as int + 1),
                ));
            },
            None => {
                assert(nest_patterns(rest) =~~= nest_patterns(rest.drop_first()));
            },
        }
        i = i + 1;
    }
    assert(all.skip(n as int) =~~= Seq::<Seq<char>>::empty());
    assert(pats.deep_view() =~~= nest_patterns(all));
    ParseOutcome::NotFound(pats)
}

/// The compiled-in default that overrides file configuration, read off the
/// service binary's build report: exactly an error category built to log
/// to the standard error stream, or an access category built to log to the
/// standard output stream.
pub open spec fn spec_build_default(build_info: Seq<char>, c: LogCategory) -> Option<
    DestinationView,
> {
    if c == LogCategory::Error && (contains_spec(build_info, "--error-log-path=stderr"@)
        || contains_spec(build_info, "--error-log-path=/dev/stderr"@)) {
        Some(DestinationView::StreamDest(StreamKind::Stderr))
    } else if c == LogCategory::Access && (contains_spec(build_info, "--access-log-path=stdout"@)
        || contains_spec(build_info, "--access-log-path=/dev/stdout"@)) {
        Some(DestinationView::StreamDest(StreamKind::Stdout))
    } else {
        None
    }
}

/// Executable twin of [`spec_build_default`].
pub fn check_build_defaults(build_info: &str, c: LogCategory) -> (r: Option<LogDestination>)
    ensures
        match r {
            Some(d) => spec_build_default(build_info@, c) == Some(d@),
            None => spec_build_default(build_info@, c) is None,
        },
{
    let chars = to_chars(build_info);
    match c {
        LogCategory::Error => {
            if contains_chars(&chars, &to_chars("--error-log-path=stderr")) || contains_chars(
                &chars,
                &to_chars("--error-log-path=/dev/stderr"),
            ) {
                Some(LogDestination::Stream(StreamKind::Stderr))
            } else {
                None
            }
        },
        LogCategory::Access => {
            if contains_chars(&chars, &to_chars("--access-log-path=stdout")) || contains_chars(
                &chars,
                &to_chars("--access-log-path=/dev/stdout"),
            ) {
                Some(LogDestination::Stream(StreamKind::Stdout))
            } else {
                None
            }
        },
    }
}

/// The conventional locations of the main configuration file, probed in
/// this order.
pub open spec fn config_probe_paths() -> Seq<Seq<char>> {
    seq![
        "/etc/nginx/nginx.conf"@,
        "/usr/local/etc/nginx/nginx.conf"@,
        "/opt/nginx/nginx.conf"@,
        "/usr/local/nginx/conf/nginx.conf"@,
    ]
}

/// Executable twin of [`config_probe_paths`].
pub fn config_probe_path(i: usize) -> (r: String)
    requires
        i < 4,
    ensures
        r@ == config_probe_paths()[i as int],
{
    if i == 0 {
        String::from_str("/etc/nginx/nginx.conf")
    } else if i == 1 {
        String::from_str("/usr/local/etc/nginx/nginx.conf")
    } else if i == 2 {
        String::from_str("/opt/nginx/nginx.conf")
    } else {
        String::from_str("/usr/local/nginx/conf/nginx.conf")
    }
}

proof fn lemma_probe_paths_absolute()
    ensures
        forall|i: int| 0 <= i < 4 ==> is_absolute(#[trigger] config_probe_paths()[i]),
{
    reveal_strlit("/etc/nginx/nginx.conf");
    reveal_strlit("/usr/local/etc/nginx/nginx.conf");
    reveal_strlit("/opt/nginx/nginx.conf");
    reveal_strlit("/usr/local/nginx/conf/nginx.conf");
    assert("/etc/nginx/nginx.conf"@.len() == 21);
    assert("/usr/local/etc/nginx/nginx.conf"@.len() == 31);
    assert("/opt/nginx/nginx.conf"@.len() == 21);
    assert("/usr/local/nginx/conf/nginx.conf"@.len() == 32);
    assert(is_absolute(config_probe_paths()[0]));
    assert(is_absolute(config_probe_paths()[1]));
    assert(is_absolute(config_probe_paths()[2]));
    assert(is_absolute(config_probe_paths()[3]));
}

proof fn lemma_default_paths_absolute()
    ensures
        forall|c: LogCategory| is_absolute(#[trigger] default_path_of(c)),
{
    reveal_strlit("/var/log/nginx/access.log");
    reveal_strlit("/var/log/nginx/error.log");
    assert("/var/log/nginx/access.log"@.len() == 25);
    assert("/var/log/nginx/error.log"@.len() == 24);
    assert(is_absolute(default_path_of(LogCategory::Access)));
    assert(is_absolute(default_path_of(LogCategory::Error)));
}

/// What the resolver asks its driver for.
pub enum FsRequest {
    /// The text of the file at this path, or word that none exists.
    ReadFile(String),
    /// The plain files directly inside this directory.
    ListDir(String),
    /// Whether a file exists at this path.
    CheckFile(String),
}

/// A request as mathematics.
pub enum ReqView {
    Read(Seq<char>),
    List(Seq<char>),
    Check(Seq<char>),
}

impl View for FsRequest {
    type V = ReqView;

    open spec fn view(&self) -> ReqView {
        match self {
            FsRequest::ReadFile(p) => ReqView::Read(p@),
            FsRequest::ListDir(p) => ReqView::List(p@),
            FsRequest::CheckFile(p) => ReqView::Check(p@),
        }
    }
}

/// The driver's answer to the pending request.
pub enum FsReply {
    /// The requested file's text.
    FileContent(String),
    /// No file exists at the requested path.
    FileMissing,
    /// The absolute paths of the plain files in the requested directory.
    DirEntries(Vec<String>),
    /// No directory exists at the requested path.
    DirMissing,
    /// Whether the checked file exists.
    FileExists(bool),
}

/// The reply answers this kind of request.
pub open spec fn reply_matches(q: ReqView, reply: FsReply) -> bool {
    match q {
        ReqView::Read(_) => reply matches FsReply::FileContent(_) || reply matches
            FsReply::FileMissing,
        ReqView::List(_) => reply matches FsReply::DirEntries(_) || reply matches
            FsReply::DirMissing,
        ReqView::Check(_) => reply matches FsReply::FileExists(_),
    }
}

/// A directory listing names files by absolute paths.
pub open spec fn reply_wf(reply: FsReply) -> bool {
    match reply {
        FsReply::DirEntries(es) => forall|j: int|
            0 <= j < es@.len() ==> is_absolute(#[trigger] es@[j]@),
        _ => true,
    }
}

/// One pending piece of the configuration walk.
pub enum Work {
    /// Parse the file at this path when its text arrives.
    ParseFile { path: String },
    /// Try a nesting pattern, first as a literal file path.
    Expand { full: String, pattern: String },
    /// List this directory and parse every file inside it.
    Glob { dir: String },
}

/// The walk reads files depth-first; this work item is sound to keep.
pub open spec fn work_wf(w: Work) -> bool {
    match w {
        Work::ParseFile { path } => is_absolute(path@),
        Work::Expand { full, pattern } => is_absolute(full@),
        Work::Glob { dir } => true,
    }
}

/// The path a work item wants read, where it wants one.
pub open spec fn work_read_target(w: Work) -> Seq<char> {
    match w {
        Work::ParseFile { path } => path@,
        Work::Expand { full, pattern } => full@,
        Work::Glob { dir } => dir@,
    }
}

/// The request a work item stands for.
pub open spec fn work_request(w: Work) -> ReqView {
    match w {
        Work::ParseFile { path } => ReqView::Read(path@),
        Work::Expand { full, pattern } => ReqView::Read(full@),
        Work::Glob { dir } => ReqView::List(dir@),
    }
}

/// Termination weight of one work item, against a model of `n` files: a
/// glob can spawn at most `n` file parses, and a pattern can become one
/// glob, so each outweighs whatever it can spawn.
pub open spec fn work_weight(w: Work, n: int) -> int {
    match w {
        Work::ParseFile { .. } => 2,
        Work::Glob { .. } => 2 * n + 3,
        Work::Expand { .. } => 2 * n + 4,
    }
}

/// Termination weight of a whole stack.
pub open spec fn stack_pot(stack: Seq<Work>, n: int) -> int
    decreases stack.len(),
{
    if stack.len() == 0 {
        0
    } else {
        stack_pot(stack.drop_last(), n) + work_weight(stack.last(), n)
    }
}

proof fn lemma_pop_pot(full: Seq<Work>, popped: Seq<Work>)
    requires
        full.len() > 0,
        popped == full.drop_last(),
    ensures
        forall|nn: int| nn >= 0 ==> stack_pot(popped, nn) < stack_pot(full, nn),
{
    assert forall|nn: int| nn >= 0 implies stack_pot(popped, nn) < stack_pot(full, nn) by {
        assert(stack_pot(full, nn) == stack_pot(full.drop_last(), nn) + work_weight(
            full.last(),
            nn,
        ));
    }
}

proof fn lemma_stack_pot_bounds(stack: Seq<Work>, n: int)
    requires
        n >= 0,
    ensures
        stack_pot(stack, n) >= 2 * stack.len(),
    decreases stack.len(),
{
    if stack.len() > 0 {
        lemma_stack_pot_bounds(stack.drop_last(), n);
    }
}

/// Where a resolution stands.
pub enum Phase {
    /// Probing the conventional locations, currently at this index.
    Probe { idx: usize },
    /// Walking the nesting tree below the main configuration file.
    Walk { main_config: String, stack: Vec<Work>, visited: Vec<String> },
    /// Checking the category's default location as the last resort.
    DefaultProbe { main_config: String },
    /// Done; no request is pending.
    Finished,
}

/// The resolution of one category as a request/reply machine: the driver
/// performs each requested filesystem step and hands the answer back until
/// the machine is done.  One resolution never reads a configuration file
/// twice: a nesting cycle ends in an error instead of an endless walk.
pub struct Resolver {
    pub category: LogCategory,
    pub phase: Phase,
}

/// What the machine answered: the next request, or the result.
pub enum ResolveStatus {
    Need(FsRequest),
    Done(Result<LogDestination, ResolveError>),
}

/// The status is the invalid-category failure.
pub open spec fn done_invalid_category(r: ResolveStatus) -> bool {
    match r {
        ResolveStatus::Done(res) => match res {
            Err(e) => e matches ResolveError::InvalidCategory,
            Ok(_) => false,
        },
        ResolveStatus::Need(_) => false,
    }
}

/// The status is the config-not-found failure.
pub open spec fn done_config_not_found(r: ResolveStatus) -> bool {
    match r {
        ResolveStatus::Done(res) => match res {
            Err(e) => e matches ResolveError::ConfigNotFound,
            Ok(_) => false,
        },
        ResolveStatus::Need(_) => false,
    }
}

impl Resolver {
    /// The machine's state is sound: probing stays within the known
    /// locations, and everything the walk will read is an absolute path.
    pub open spec fn wf(&self) -> bool {
        match self.phase {
            Phase::Probe { idx } => idx < 4,
            Phase::Walk { main_config, stack, visited } => is_absolute(main_config@)
                && stack@.len() > 0 && forall|j: int|
                0 <= j < stack@.len() ==> work_wf(#[trigger] stack@[j]),
            Phase::DefaultProbe { main_config } => is_absolute(main_config@),
            Phase::Finished => true,
        }
    }

    /// The request the machine is waiting on, if any.
    pub open spec fn pending(&self) -> Option<ReqView> {
        match self.phase {
            Phase::Probe { idx } => if idx < 4 {
                Some(ReqView::Read(config_probe_paths()[idx as int]))
            } else {
                None
            },
            Phase::Walk { main_config, stack, visited } => if stack@.len() > 0 {
                Some(work_request(stack@.last()))
            } else {
                None
            },
            Phase::DefaultProbe { main_config } => Some(
                ReqView::Check(default_path_of(self.category)),
            ),
            Phase::Finished => None,
        }
    }

    /// The status is the machine's word on its own state: a request that
    /// is indeed pending, or an answer with nothing pending behind it.
    pub open spec fn status_matches(&self, s: ResolveStatus) -> bool {
        match s {
            ResolveStatus::Need(q) => self.pending() == Some(q@),
            ResolveStatus::Done(_) => self.phase matches Phase::Finished,
        }
    }

    /// Begins a resolution: the machine first wants the text of the first
    /// conventional configuration location.
    pub fn start(category: LogCategory) -> (r: (Resolver, ResolveStatus))
        ensures
            r.0.wf(),
            r.0.category == category,
            r.0.phase matches Phase::Probe { idx } && idx == 0,
            r.0.status_matches(r.1),
            r.1 matches ResolveStatus::Need(_),
    {
        let machine = Resolver { category, phase: Phase::Probe { idx: 0 } };
        let status = ResolveStatus::Need(FsRequest::ReadFile(config_probe_path(0)));
        (machine, status)
    }

    /// Ends the resolution with this result.
    fn finish(&mut self, res: Result<LogDestination, ResolveError>) -> (r: ResolveStatus)
        ensures
            final(self).phase matches Phase::Finished,
            final(self).category == old(self).category,
            r == ResolveStatus::Done(res),
    {
        self.phase = Phase::Finished;
        ResolveStatus::Done(res)
    }

    /// Asks for whatever the top of the walk wants next, or falls back to
    /// the default-location check when the walk has nothing left.
    fn advance(
        &mut self,
        main_config: String,
        stack: Vec<Work>,
        visited: Vec<String>,
    ) -> (r: ResolveStatus)
        requires
            is_absolute(main_config@),
            forall|j: int| 0 <= j < stack@.len() ==> work_wf(#[trigger] stack@[j]),
        ensures
            final(self).wf(),
            final(self).category == old(self).category,
            final(self).status_matches(r),
            r matches ResolveStatus::Need(_),
            !(final(self).phase matches Phase::Probe { .. }),
            final(self).phase matches Phase::Walk { main_config: m2, stack: s2, visited: v2 }
                ==> (m2 == main_config && s2 == stack && v2 == visited),
            stack@.len() == 0 ==> (final(self).phase matches Phase::DefaultProbe {
                main_config: m3 } && m3 == main_config),
            stack@.len() > 0 ==> final(self).phase matches Phase::Walk { .. },
    {
        if stack.len() == 0 {
            let status = ResolveStatus::Need(
                FsRequest::CheckFile(default_path_str(self.category)),
            );
            self.phase = Phase::DefaultProbe { main_config };
            status
        } else {
            let request = match &stack[stack.len() - 1] {
                Work::ParseFile { path } => FsRequest::ReadFile(path.clone()),
                Work::Expand { full, pattern } => FsRequest::ReadFile(full.clone()),
                Work::Glob { dir } => FsRequest::ListDir(dir.clone()),
            };
            assert(request@ == work_request(stack@.last()));
            self.phase = Phase::Walk { main_config, stack, visited };
            ResolveStatus::Need(request)
        }
    }

    /// Takes a just-read configuration file in: its own directive decides
    /// at once, and otherwise its nesting patterns join the walk in
    /// declaration order.
    fn ingest(
        &mut self,
        content: String,
        path: String,
        main_config: String,
        stack: Vec<Work>,
        visited: Vec<String>,
    ) -> (r: ResolveStatus)
        requires
            is_absolute(path@),
            is_absolute(main_config@),
            forall|j: int| 0 <= j < stack@.len() ==> work_wf(#[trigger] stack@[j]),
        ensures
            final(self).wf(),
            final(self).category == old(self).category,
            final(self).status_matches(r),
            match first_directive_value(
                split_lines_spec(content@),
                directive_of(old(self).category),
            ) {
                Some(v) => r matches ResolveStatus::Done(res) && res matches Ok(d) && d@
                    == spec_classify(v, path@),
                None => r matches ResolveStatus::Need(_),
            },
            r matches ResolveStatus::Done(res2) ==> (res2 matches Ok(d2) ==> (d2@ matches
                DestinationView::FileDest(p2) ==> is_absolute(p2))),
            !(final(self).phase matches Phase::Probe { .. }),
            final(self).phase matches Phase::Walk { main_config: m2, stack: s2, visited: v2 }
                ==> (m2 == main_config && v2 == visited),
            first_directive_value(split_lines_spec(content@), directive_of(old(self).category))
                is None ==> ({
                let ns = walk_view(stack@) + expand_stack(
                    path@,
                    nest_patterns(split_lines_spec(content@)),
                );
                &&& (ns.len() == 0 ==> (final(self).phase matches Phase::DefaultProbe {
                    main_config: m3 } && m3 == main_config))
                &&& (ns.len() > 0 ==> (final(self).phase matches Phase::Walk {
                    main_config: m4,
                    stack: s4,
                    visited: v4,
                } && m4 == main_config && walk_view(s4@) == ns && v4 == visited))
            }),
    {
        match parse_nginx_config_for_logs(content.as_str(), &path, self.category) {
            ParseOutcome::Found(d) => {
                proof {
                    let v = first_directive_value(
                        split_lines_spec(content@),
                        directive_of(self.category),
                    )->Some_0;
                    reveal_strlit("/");
                    assert("/"@.len() == 1);
                    assert(starts_with_spec(v, "/"@) <==> is_absolute(v)) by {
                        reveal_strlit("/");
                        assert("/"@.len() == 1);
                        assert("/"@[0] == '/');
                        if v.len() > 0 {
                            assert(v.subrange(0, 1) =~= seq![v[0]]);
                            if v[0] == '/' {
                                assert(v.subrange(0, 1) =~= "/"@);
                            } else {
                                assert(v.subrange(0, 1)[0] != "/"@[0]);
                            }
                        }
                    }
                    match d@ {
                        DestinationView::FileDest(p) => {
                            if !starts_with_spec(v, "/"@) {
                                lemma_join_rel_absolute(path@, v);
                            }
                        },
                        _ => {},
                    }
                }
                self.finish(Ok(d))
            },
            ParseOutcome::NotFound(pats) => {
                let mut stack = stack;
                let ghost orig = stack@;
                let ghost all_pats = pats.deep_view();
                let path_chars = to_chars(path.as_str());
                let mut k: usize = pats.len();
                assert(walk_view(stack@) =~= walk_view(orig) + expand_stack(path@, all_pats).subrange(
                    0,
                    0,
                ));
                while k > 0
                    invariant
                        k <= pats@.len(),
                        is_absolute(path@),
                        path_chars@ == path@,
                        all_pats == pats.deep_view(),
                        all_pats.len() == pats@.len(),
                        forall|j: int| 0 <= j < stack@.len() ==> work_wf(#[trigger] stack@[j]),
                        walk_view(stack@) == walk_view(orig) + expand_stack(
                            path@,
                            all_pats,
                        ).subrange(0, all_pats.len() - k),
                    decreases k,
                {
                    k = k - 1;
                    let pattern = pats[k].clone();
                    assert(pattern@ == all_pats[k as int]);
                    let pattern_chars = to_chars(pattern.as_str());
                    let full = if pattern_chars.len() > 0 && pattern_chars[0] == '/' {
                        pattern.clone()
                    } else {
                        let joined = join_rel_chars(&path_chars, &pattern_chars);
                        proof {
                            lemma_join_rel_absolute(path@, pattern@);
                        }
                        chars_to_string(&joined)
                    };
                    assert(is_absolute(full@));
                    assert(full@ == pattern_target(path@, all_pats[k as int]));
                    let ghost before = stack@;
                    stack.push(Work::Expand { full, pattern });
                    proof {
                        let es = expand_stack(path@, all_pats);
                        assert(walk_view(stack@) =~= walk_view(before).push(
                            item_view(stack@.last()),
                        ));
                        assert(item_view(stack@.last()) == es[all_pats.len() - k - 1]);
                        assert(es.subrange(0, all_pats.len() - k) =~= es.subrange(
                            0,
                            all_pats.len() - k - 1,
                        ).push(es[all_pats.len() - k - 1]));
                        assert(walk_view(stack@) =~= walk_view(orig) + es.subrange(
                            0,
                            all_pats.len() - k,
                        ));
                    }
                }
                assert(expand_stack(path@, all_pats).subrange(0, all_pats.len() as int)
                    =~= expand_stack(path@, all_pats));
                assert(walk_view(stack@) =~= walk_view(orig) + expand_stack(path@, all_pats));
                assert(walk_view(stack@).len() == walk_view(orig).len() + all_pats.len());
                self.advance(main_config, stack, visited)
            },
        }
    }

    /// Feeds the driver's answer in and returns the next request or the
    /// result.  The first conventional location that exists becomes the
    /// main file; its own directive is classified against it at once; a
    /// missing last location is the config-not-found error; a nested file
    /// reached twice ends the walk with the cyclic-nesting error; and a
    /// resolved file destination is always an absolute path.
    pub fn step(&mut self, reply: FsReply) -> (r: ResolveStatus)
        requires
            old(self).wf(),
            old(self).pending() matches Some(q) && reply_matches(q, reply),
            reply_wf(reply),
        ensures
            final(self).wf(),
            final(self).category == old(self).category,
            final(self).status_matches(r),
            old(self).phase matches Phase::Probe { idx } ==> ((reply matches
                FsReply::FileMissing && idx < 3) ==> (final(self).phase matches Phase::Probe {
                idx: j } && j == idx + 1 && r matches ResolveStatus::Need(_))),
            old(self).phase matches Phase::Probe { idx } ==> ((reply matches
                FsReply::FileMissing && idx >= 3) ==> (r matches ResolveStatus::Done(res) && res
                matches Err(e) && e matches ResolveError::ConfigNotFound)),
            old(self).phase matches Phase::Probe { idx } ==> (reply matches FsReply::FileContent(
                c,
            ) ==> (match first_directive_value(
                split_lines_spec(c@),
                directive_of(old(self).category),
            ) {
                Some(v) => r matches ResolveStatus::Done(res) && res matches Ok(d) && d@
                    == spec_classify(v, config_probe_paths()[idx as int]),
                None => r matches ResolveStatus::Need(_),
            })),
            old(self).phase matches Phase::Walk { main_config, stack, visited } ==> (reply
                matches FsReply::FileContent(c) ==> (if visited.deep_view().contains(
                work_read_target(stack@.last()),
            ) {
                r matches ResolveStatus::Done(res) && res matches Err(e) && (e matches
                    ResolveError::CyclicNesting { path } && path@ == work_read_target(
                    stack@.last(),
                ))
            } else {
                match first_directive_value(
                    split_lines_spec(c@),
                    directive_of(old(self).category),
                ) {
                    Some(v) => r matches ResolveStatus::Done(res) && res matches Ok(d) && d@
                        == spec_classify(v, work_read_target(stack@.last())),
                    None => r matches ResolveStatus::Need(_),
                }
            })),
            !(old(self).phase matches Phase::Probe { .. }) ==> !done_config_not_found(r),
            !done_invalid_category(r),
            !(old(self).phase matches Phase::Probe { .. }) ==> !(final(self).phase matches
                Phase::Probe { .. }),
            final(self).phase matches Phase::Probe { .. } ==> reply matches FsReply::FileMissing,
            old(self).phase matches Phase::Probe { idx } ==> (reply matches FsReply::FileContent(
                c,
            ) ==> (final(self).phase matches Phase::Walk { main_config: m2, stack: s2, visited: v2 }
                ==> v2.deep_view() == seq![config_probe_paths()[idx as int]])),
            old(self).phase matches Phase::Walk { main_config, stack, visited } ==> (reply matches
                FsReply::FileContent(c) ==> ((final(self).phase matches Phase::Walk {
                main_config: m2,
                stack: s2,
                visited: v2,
            } ==> v2.deep_view() == visited.deep_view().push(work_read_target(stack@.last()))) && (
            visited.deep_view().contains(work_read_target(stack@.last())) ==> final(self).phase
                matches Phase::Finished))),
            old(self).phase matches Phase::Walk { main_config, stack, visited } ==> ((reply
                matches FsReply::FileMissing || reply matches FsReply::DirMissing) ==> (final(self).phase matches Phase::Walk { main_config: m2, stack: s2, visited: v2 } ==> (v2
                == visited && forall|n: int|
                n >= 0 ==> stack_pot(s2@, n) < stack_pot(stack@, n)))),
            old(self).phase matches Phase::Walk { main_config, stack, visited } ==> (reply matches
                FsReply::DirEntries(es) ==> (final(self).phase matches Phase::Walk {
                main_config: m2,
                stack: s2,
                visited: v2,
            } ==> (v2 == visited && forall|n: int|
                n >= es@.len() ==> stack_pot(s2@, n) < stack_pot(stack@, n)))),
            old(self).phase matches Phase::DefaultProbe { main_config } ==> (reply matches
                FsReply::FileExists(b) ==> (if b {
                r matches ResolveStatus::Done(res) && res matches Ok(d) && d@ matches
                    DestinationView::FileDest(p) && p == default_path_of(old(self).category)
            } else {
                r matches ResolveStatus::Done(res) && res matches Err(e) && e matches
                    ResolveError::LogPathNotFound { category, config_path, default_path }
                    && category == old(self).category && config_path@ == main_config@
                    && default_path@ == default_path_of(old(self).category)
            })),
            r matches ResolveStatus::Done(res) ==> (res matches Ok(d) ==> (d@ matches
                DestinationView::FileDest(p) ==> is_absolute(p))),
            old(self).phase matches Phase::Probe { idx } ==> (reply matches FsReply::FileContent(
                c,
            ) ==> (first_directive_value(split_lines_spec(c@), directive_of(old(self).category))
                is None ==> ({
                let mc = config_probe_paths()[idx as int];
                let ns = expand_stack(mc, nest_patterns(split_lines_spec(c@)));
                &&& (ns.len() == 0 ==> (final(self).phase matches Phase::DefaultProbe {
                    main_config: m3 } && m3@ == mc))
                &&& (ns.len() > 0 ==> (final(self).phase matches Phase::Walk {
                    main_config: m4,
                    stack: s4,
                    visited: v4,
                } && m4@ == mc && walk_view(s4@) == ns && v4.deep_view() == seq![mc]))
            }))),
            old(self).phase matches Phase::Walk { main_config, stack, visited } ==> (reply matches
                FsReply::FileContent(c) ==> ((!visited.deep_view().contains(
                work_read_target(stack@.last()),
            ) && first_directive_value(split_lines_spec(c@), directive_of(old(self).category))
                is None) ==> ({
                let target = work_read_target(stack@.last());
                let ns = walk_view(stack@).drop_last() + expand_stack(
                    target,
                    nest_patterns(split_lines_spec(c@)),
                );
                &&& (ns.len() == 0 ==> (final(self).phase matches Phase::DefaultProbe {
                    main_config: m3 } && m3 == main_config))
                &&& (ns.len() > 0 ==> (final(self).phase matches Phase::Walk {
                    main_config: m4,
                    stack: s4,
                    visited: v4,
                } && m4 == main_config && walk_view(s4@) == ns && v4.deep_view()
                    == visited.deep_view().push(target)))
            }))),
            old(self).phase matches Phase::Walk { main_config, stack, visited } ==> ((reply
                matches FsReply::FileMissing || reply matches FsReply::DirMissing) ==> ({
                let rest = walk_view(stack@).drop_last();
                let ns = (match walk_view(stack@).last() {
                    WalkItem::ExpandItem { full, pattern } => if contains_spec(pattern, "*"@) {
                        rest.push(WalkItem::GlobItem { dir: dir_of(full) })
                    } else {
                        rest
                    },
                    WalkItem::ParseItem { path } => rest,
                    WalkItem::GlobItem { dir } => rest,
                });
                &&& (ns.len() == 0 ==> (final(self).phase matches Phase::DefaultProbe {
                    main_config: m3 } && m3 == main_config))
                &&& (ns.len() > 0 ==> (final(self).phase matches Phase::Walk {
                    main_config: m4,
                    stack: s4,
                    visited: v4,
                } && m4 == main_config && walk_view(s4@) == ns && v4 == visited))
            })),
            old(self).phase matches Phase::Walk { main_config, stack, visited } ==> (reply matches
                FsReply::DirEntries(es) ==> ({
                let ns = walk_view(stack@).drop_last() + parse_stack(es.deep_view());
                &&& (ns.len() == 0 ==> (final(self).phase matches Phase::DefaultProbe {
                    main_config: m3 } && m3 == main_config))
                &&& (ns.len() > 0 ==> (final(self).phase matches Phase::Walk {
                    main_config: m4,
                    stack: s4,
                    visited: v4,
                } && m4 == main_config && walk_view(s4@) == ns && v4 == visited))
            })),
    {
        proof {
            lemma_probe_paths_absolute();
            lemma_default_paths_absolute();
        }
        let mut phase = Phase::Finished;
        core::mem::swap(&mut self.phase, &mut phase);
        match phase {
            Phase::Probe { idx } => {
                match reply {
                    FsReply::FileContent(c) => {
                        let path = config_probe_path(idx);
                        let mut visited: Vec<String> = Vec::new();
                        visited.push(path.clone());
                        let main_config = path.clone();
                        let stack: Vec<Work> = Vec::new();
                        self.ingest(c, path, main_config, stack, visited)
                    },
                    FsReply::FileMissing => {
                        if idx < 3 {
                            let status = ResolveStatus::Need(
                                FsRequest::ReadFile(config_probe_path(idx + 1)),
                            );
                            self.phase = Phase::Probe { idx: idx + 1 };
                            status
                        } else {
                            self.finish(Err(ResolveError::ConfigNotFound))
                        }
                    },
                    _ => {
                        proof {
                            assert(false);
                        }
                        self.finish(Err(ResolveError::ConfigNotFound))
                    },
                }
            },
            Phase::Walk { main_config, stack, visited } => {
                let mut stack = stack;
                let mut visited = visited;
                match reply {
                    FsReply::FileContent(c) => {
                        let work = match stack.pop() {
                            Some(w) => w,
                            None => {
                                proof {
                                    assert(false);
                                }
                                return self.finish(Err(ResolveError::InvalidCategory));
                            },
                        };
                        let target = match work {
                            Work::ParseFile { path } => path,
                            Work::Expand { full, pattern } => full,
                            Work::Glob { dir } => {
                                proof {
                                    assert(false);
                                }
                                dir
                            },
                        };
                        if contains_string(&visited, &target) {
                            self.finish(Err(ResolveError::CyclicNesting { path: target }))
                        } else {
                            visited.push(target.clone());
                            self.ingest(c, target, main_config, stack, visited)
                        }
                    },
                    FsReply::FileMissing => {
                        let ghost full_stack = stack@;
                        let work = match stack.pop() {
                            Some(w) => w,
                            None => {
                                proof {
                                    assert(false);
                                }
                                return self.finish(Err(ResolveError::InvalidCategory));
                            },
                        };
                        assert(walk_view(stack@) =~= walk_view(full_stack).drop_last());
                        assert(walk_view(full_stack).last() == item_view(full_stack.last()));
                        match work {
                            Work::Expand { full, pattern } => {
                                let pattern_chars = to_chars(pattern.as_str());
                                if contains_chars(&pattern_chars, &to_chars("*")) {
                                    let full_chars = to_chars(full.as_str());
                                    let dir_chars = dir_of_chars(&full_chars);
                                    let dir = chars_to_string(&dir_chars);
                                    let ghost popped_view = walk_view(stack@);
                                    stack.push(Work::Glob { dir });
                                    assert(walk_view(stack@) =~= popped_view.push(
                                        WalkItem::GlobItem { dir: dir_of(full@) },
                                    ));
                                    proof {
                                        assert forall|nn: int| nn >= 0 implies stack_pot(
                                            stack@,
                                            nn,
                                        ) < stack_pot(full_stack, nn) by {
                                            assert(stack@.drop_last() =~= full_stack.drop_last());
                                            assert(stack_pot(stack@, nn) == stack_pot(
                                                stack@.drop_last(),
                                                nn,
                                            ) + work_weight(stack@.last(), nn));
                                            assert(stack_pot(full_stack, nn) == stack_pot(
                                                full_stack.drop_last(),
                                                nn,
                                            ) + work_weight(full_stack.last(), nn));
                                        }
                                    }
                                    self.advance(main_config, stack, visited)
                                } else {
                                    proof {
                                        lemma_pop_pot(full_stack, stack@);
                                    }
                                    self.advance(main_config, stack, visited)
                                }
                            },
                            _ => {
                                proof {
                                    lemma_pop_pot(full_stack, stack@);
                                }
                                self.advance(main_config, stack, visited)
                            },
                        }
                    },
                    FsReply::DirEntries(entries) => {
                        let ghost full_stack = stack@;
                        match stack.pop() {
                            Some(_) => {},
                            None => {
                                proof {
                                    assert(false);
                                }
                            },
                        }
                        let ghost base = stack@;
                        let ghost all_entries = entries.deep_view();
                        assert(walk_view(base) =~= walk_view(full_stack).drop_last());
                        assert(walk_view(stack@) =~= walk_view(base) + parse_stack(
                            all_entries,
                        ).subrange(0, 0));
                        let mut k: usize = entries.len();
                        while k > 0
                            invariant
                                k <= entries@.len(),
                                all_entries == entries.deep_view(),
                                all_entries.len() == entries@.len(),
                                forall|j: int|
                                    0 <= j < entries@.len() ==> is_absolute(
                                        #[trigger] entries@[j]@,
                                    ),
                                forall|j: int|
                                    0 <= j < stack@.len() ==> work_wf(#[trigger] stack@[j]),
                                forall|nn: int|
                                    nn >= 0 ==> stack_pot(stack@, nn) == stack_pot(base, nn) + 2
                                        * (entries@.len() - k),
                                walk_view(stack@) == walk_view(base) + parse_stack(
                                    all_entries,
                                ).subrange(0, all_entries.len() - k),
                            decreases k,
                        {
                            k = k - 1;
                            let ghost before = stack@;
                            stack.push(Work::ParseFile { path: entries[k].clone() });
                            proof {
                                assert forall|nn: int| nn >= 0 implies stack_pot(stack@, nn)
                                    == stack_pot(before, nn) + 2 by {
                                    assert(stack@.drop_last() =~= before);
                                    assert(stack_pot(stack@, nn) == stack_pot(
                                        stack@.drop_last(),
                                        nn,
                                    ) + work_weight(stack@.last(), nn));
                                }
                                let ps = parse_stack(all_entries);
                                assert(walk_view(stack@) =~= walk_view(before).push(
                                    item_view(stack@.last()),
                                ));
                                assert(item_view(stack@.last()) == ps[all_entries.len() - k - 1]);
                                assert(ps.subrange(0, all_entries.len() - k) =~= ps.subrange(
                                    0,
                                    all_entries.len() - k - 1,
                                ).push(ps[all_entries.len() - k - 1]));
                                assert(walk_view(stack@) =~= walk_view(base) + ps.subrange(
                                    0,
                                    all_entries.len() - k,
                                ));
                            }
                        }
                        assert(parse_stack(all_entries).subrange(0, all_entries.len() as int)
                            =~= parse_stack(all_entries));
                        assert(walk_view(stack@) =~= walk_view(full_stack).drop_last()
                            + parse_stack(all_entries));
                        proof {
                            assert forall|nn: int| nn >= entries@.len() implies stack_pot(
                                stack@,
                                nn,
                            ) < stack_pot(full_stack, nn) by {
                                assert(stack_pot(full_stack, nn) == stack_pot(base, nn)
                                    + work_weight(full_stack.last(), nn));
                            }
                        }
                        self.advance(main_config, stack, visited)
                    },
                    FsReply::DirMissing => {
                        let ghost full_stack = stack@;
                        match stack.pop() {
                            Some(_) => {},
                            None => {
                                proof {
                                    assert(false);
                                }
                            },
                        }
                        assert(walk_view(stack@) =~= walk_view(full_stack).drop_last());
                        proof {
                            lemma_pop_pot(full_stack, stack@);
                        }
                        self.advance(main_config, stack, visited)
                    },
                    FsReply::FileExists(_) => {
                        proof {
                            assert(false);
                        }
                        self.finish(Err(ResolveError::InvalidCategory))
                    },
                }
            },
            Phase::DefaultProbe { main_config } => {
                match reply {
                    FsReply::FileExists(present) => {
                        if present {
                            let d = LogDestination::File(default_path_str(self.category));
                            self.finish(Ok(d))
                        } else {
                            self.finish(
                                Err(
                                    ResolveError::LogPathNotFound {
                                        category: self.category,
                                        config_path: main_config,
                                        default_path: default_path_str(self.category),
                                    },
                                ),
                            )
                        }
                    },
                    _ => {
                        proof {
                            assert(false);
                        }
                        self.finish(Err(ResolveError::InvalidCategory))
                    },
                }
            },
            Phase::Finished => {
                proof {
                    assert(false);
                }
                self.finish(Err(ResolveError::InvalidCategory))
            },
        }
    }
}

/// A value model of the part of the filesystem a resolution reads: paths
/// and the file text behind them.  Tests and in-memory drivers resolve
/// against it; the boundary answers the machine from the real filesystem
/// instead.
pub struct FsModel {
    files: Vec<(String, String)>,
}

/// The text behind a path: the first entry that names it.
pub open spec fn fs_lookup(files: Seq<(Seq<char>, Seq<char>)>, path: Seq<char>) -> Option<
    Seq<char>,
>
    decreases files.len(),
{
    if files.len() == 0 {
        None
    } else if files[0].0 == path {
        Some(files[0].1)
    } else {
        fs_lookup(files.drop_first(), path)
    }
}

/// `path` names a plain file directly inside `dir`.
pub open spec fn is_child_of(path: Seq<char>, dir: Seq<char>) -> bool {
    path.len() > dir.len() + 1 && starts_with_spec(path, dir + "/"@) && (forall|j: int|
        dir.len() + 1 <= j < path.len() ==> path[j] != '/')
}

/// The paths directly inside `dir`, in the model's order.
pub open spec fn dir_children(files: Seq<(Seq<char>, Seq<char>)>, dir: Seq<char>) -> Seq<Seq<char>>
    decreases files.len(),
{
    if files.len() == 0 {
        Seq::empty()
    } else {
        let rest = dir_children(files.drop_first(), dir);
        if is_child_of(files[0].0, dir) {
            seq![files[0].0] + rest
        } else {
            rest
        }
    }
}

impl View for FsModel {
    type V = Seq<(Seq<char>, Seq<char>)>;

    closed spec fn view(&self) -> Seq<(Seq<char>, Seq<char>)> {
        self.files@.map_values(|p: (String, String)| (p.0@, p.1@))
    }
}

impl FsModel {
    /// Every path in the model is absolute.
    pub open spec fn wf(&self) -> bool {
        forall|i: int| 0 <= i < self@.len() ==> is_absolute((#[trigger] self@[i]).0)
    }

    /// An empty filesystem model.
    pub fn new() -> (r: FsModel)
        ensures
            r.wf(),
            r@ == Seq::<(Seq<char>, Seq<char>)>::empty(),
    {
        let r = FsModel { files: Vec::new() };
        assert(r@ =~= Seq::<(Seq<char>, Seq<char>)>::empty());
        r
    }

    /// Adds a file at an absolute path.
    pub fn add(&mut self, path: String, content: String)
        requires
            old(self).wf(),
            is_absolute(path@),
        ensures
            final(self).wf(),
            final(self)@ == old(self)@.push((path@, content@)),
    {
        let ghost before = self@;
        self.files.push((path, content));
        assert(self@ =~= before.push((self.files@.last().0@, self.files@.last().1@)));
    }

    /// The text of the file at this path, if the model holds one.
    pub fn read(&self, path: &String) -> (r: Option<&String>)
        ensures
            match r {
                Some(c) => fs_lookup(self@, path@) == Some(c@),
                None => fs_lookup(self@, path@) is None,
            },
    {
        let n = self.files.len();
        let mut i: usize = 0;
        assert(self@.skip(0) =~= self@);
        while i < n
            invariant
                i <= n == self.files@.len(),
                self@ == self.files@.map_values(|p: (String, String)| (p.0@, p.1@)),
                fs_lookup(self@, path@) == fs_lookup(self@.skip(i as int), path@),
            decreases n - i,
        {
            assert(self@.skip(i as int).drop_first() =~= self@.skip(i as int + 1));
            assert(self@.skip(i as int)[0] == self@[i as int]);
            if self.files[i].0 == *path {
                return Some(&self.files[i].1);
            }
            i = i + 1;
        }
        None
    }

    /// Whether the model holds a file at this path.
    pub fn contains_path(&self, path: &String) -> (r: bool)
        ensures
            r == (fs_lookup(self@, path@) is Some),
    {
        match self.read(path) {
            Some(_) => true,
            None => false,
        }
    }

    /// The paths of the plain files directly inside `dir`, in the model's
    /// order.
    pub fn list_dir(&self, dir: &String) -> (r: Vec<String>)
        ensures
            r.deep_view() == dir_children(self@, dir@),
            self.wf() ==> forall|j: int| 0 <= j < r@.len() ==> is_absolute(#[trigger] r@[j]@),
    {
        let dir_chars = to_chars(dir.as_str());
        let mut sep: Vec<char> = Vec::new();
        sep.push('/');
        proof {
            reveal_strlit("/");
        }
        assert(sep@ =~= "/"@);
        assert("/"@.len() == 1);
        let prefix = concat_chars(&dir_chars, &sep);
        let n = self.files.len();
        let mut r: Vec<String> = Vec::new();
        let mut i: usize = 0;
        assert(self@.skip(0) =~= self@);
        assert(r.deep_view() =~~= Seq::<Seq<char>>::empty());
        while i < n
            invariant
                i <= n == self.files@.len(),
                self@ == self.files@.map_values(|p: (String, String)| (p.0@, p.1@)),
                prefix@ == dir@ + "/"@,
                prefix@.len() == dir@.len() + 1,
                dir_children(self@, dir@) =~~= r.deep_view() + dir_children(
                    self@.skip(i as int),
                    dir@,
                ),
                forall|j: int| 0 <= j < r@.len() ==> exists|t: int|
                    0 <= t < self@.len() && #[trigger] r@[j]@ == self@[t].0,
            decreases n - i,
        {
            assert(self@.skip(i as int).drop_first() =~= self@.skip(i as int + 1));
            assert(self@.skip(i as int)[0] == self@[i as int]);
            let path_chars = to_chars(self.files[i].0.as_str());
            assert(path_chars@ == self@[i as int].0);
            let mut child = false;
            if path_chars.len() > prefix.len() && starts_with_chars(&path_chars, &prefix) {
                let mut ok = true;
                let mut j: usize = prefix.len();
                while j < path_chars.len()
                    invariant
                        prefix@.len() <= j <= path_chars@.len(),
                        ok == (forall|t: int|
                            prefix@.len() <= t < j ==> path_chars@[t] != '/'),
                    decreases path_chars@.len() - j,
                {
                    if path_chars[j] == '/' {
                        ok = false;
                    }
                    j = j + 1;
                }
                child = ok;
            }
            assert(child == is_child_of(self@[i as int].0, dir@));
            if child {
                let ghost old_r = r.deep_view();
                r.push(self.files[i].0.clone());
                assert(r.deep_view() =~~= old_r.push(self@[i as int].0));
                assert(exists|t: int|
                    0 <= t < self@.len() && r@[r@.len() - 1]@ == self@[t].0) by {
                    assert(r@[r@.len() - 1]@ == self@[i as int].0);
                }
            }
            i = i + 1;
        }
        assert(dir_children(self@.skip(n as int), dir@) =~~= Seq::<Seq<char>>::empty());
        assert(r.deep_view() =~~= dir_children(self@, dir@));
        r
    }
}

/// The model holds a file at this path.
pub open spec fn fs_has(fsv: Seq<(Seq<char>, Seq<char>)>, path: Seq<char>) -> bool {
    fs_lookup(fsv, path) is Some
}

/// Index of the first conventional location present in the model, or a
/// negative value if none is.
pub open spec fn first_probe_index(fsv: Seq<(Seq<char>, Seq<char>)>) -> int {
    if fs_has(fsv, config_probe_paths()[0]) {
        0
    } else if fs_has(fsv, config_probe_paths()[1]) {
        1
    } else if fs_has(fsv, config_probe_paths()[2]) {
        2
    } else if fs_has(fsv, config_probe_paths()[3]) {
        3
    } else {
        -1
    }
}

/// The text of the main configuration file in the model.
pub open spec fn main_config_text(fsv: Seq<(Seq<char>, Seq<char>)>) -> Seq<char> {
    fs_lookup(fsv, config_probe_paths()[first_probe_index(fsv)])->Some_0
}

/// What a finished resolution against the model is allowed to answer: it
/// never invents the invalid-category error, it reports the missing
/// configuration exactly when no conventional location exists, the main
/// file's own directive — when it has one — decides the destination, and a
/// file destination is absolute.
pub open spec fn resolution_result_ok(
    fsv: Seq<(Seq<char>, Seq<char>)>,
    c: LogCategory,
    res: Result<LogDestination, ResolveError>,
) -> bool {
    &&& !(res matches Err(e) && e matches ResolveError::InvalidCategory)
    &&& ((res matches Err(e2) && e2 matches ResolveError::ConfigNotFound) <==> first_probe_index(
        fsv,
    ) < 0)
    &&& (first_probe_index(fsv) >= 0 ==> (match first_directive_value(
        split_lines_spec(main_config_text(fsv)),
        directive_of(c),
    ) {
        Some(v) => res matches Ok(d) && d@ == spec_classify(
            v,
            config_probe_paths()[first_probe_index(fsv)],
        ),
        None => true,
    }))
    &&& (res matches Ok(d2) ==> (d2@ matches DestinationView::FileDest(p) ==> is_absolute(p)))
}

/// The category behind a valid category name.
pub open spec fn spec_category_of(name: Seq<char>) -> LogCategory {
    if name == "access"@ {
        LogCategory::Access
    } else {
        LogCategory::Error
    }
}

/// The main file of the walk was already read and declared no destination.
pub open spec fn walk_started(fsv: Seq<(Seq<char>, Seq<char>)>, c: LogCategory) -> bool {
    &&& first_probe_index(fsv) >= 0
    &&& first_directive_value(split_lines_spec(main_config_text(fsv)), directive_of(c)) is None
}

/// How many unread files a resolution may still take in.
pub open spec fn machine_rem(m: Resolver, n: int) -> int {
    match m.phase {
        Phase::Probe { idx } => n + 1,
        Phase::Walk { main_config, stack, visited } => n - visited.deep_view().len(),
        Phase::DefaultProbe { main_config } => 0,
        Phase::Finished => 0,
    }
}

/// How much pending work a resolution still carries.
pub open spec fn machine_pot(m: Resolver, n: int) -> int {
    match m.phase {
        Phase::Probe { idx } => 4 - idx,
        Phase::Walk { main_config, stack, visited } => stack_pot(stack@, n),
        Phase::DefaultProbe { main_config } => 1,
        Phase::Finished => 0,
    }
}

proof fn lemma_fs_lookup_exists(fsv: Seq<(Seq<char>, Seq<char>)>, path: Seq<char>)
    ensures
        fs_has(fsv, path) <==> exists|i: int| 0 <= i < fsv.len() && (#[trigger] fsv[i]).0 == path,
    decreases fsv.len(),
{
    if fsv.len() > 0 && fsv[0].0 != path {
        lemma_fs_lookup_exists(fsv.drop_first(), path);
        if fs_has(fsv, path) {
            let i = choose|i: int|
                0 <= i < fsv.drop_first().len() && (#[trigger] fsv.drop_first()[i]).0 == path;
            assert(fsv[i + 1].0 == path);
        } else if exists|i: int| 0 <= i < fsv.len() && (#[trigger] fsv[i]).0 == path {
            let i = choose|i: int| 0 <= i < fsv.len() && (#[trigger] fsv[i]).0 == path;
            assert(fsv.drop_first()[i - 1].0 == path);
        }
    }
}

proof fn lemma_visited_bound(visited: Seq<Seq<char>>, fsv: Seq<(Seq<char>, Seq<char>)>)
    requires
        visited.no_duplicates(),
        forall|j: int| 0 <= j < visited.len() ==> fs_has(fsv, #[trigger] visited[j]),
    ensures
        visited.len() <= fsv.len(),
{
    broadcast use vstd::seq_lib::seq_to_set_is_finite;

    let keys = fsv.map_values(|p: (Seq<char>, Seq<char>)| p.0);
    visited.unique_seq_to_set();
    assert forall|v: Seq<char>| visited.to_set().contains(v) implies keys.to_set().contains(
        v,
    ) by {
        let j = choose|j: int| 0 <= j < visited.len() && visited[j] == v;
        lemma_fs_lookup_exists(fsv, v);
        let i = choose|i: int| 0 <= i < fsv.len() && (#[trigger] fsv[i]).0 == v;
        assert(keys[i] == v);
        assert(keys.contains(v));
    }
    keys.lemma_cardinality_of_set();
    vstd::set_lib::lemma_len_subset(visited.to_set(), keys.to_set());
}

proof fn lemma_push_no_duplicates(s: Seq<Seq<char>>, x: Seq<char>)
    requires
        s.no_duplicates(),
        !s.contains(x),
    ensures
        s.push(x).no_duplicates(),
{
    let t = s.push(x);
    assert forall|i: int, j: int| 0 <= i < j < t.len() implies t[i] != t[j] by {
        if j == t.len() - 1 {
            assert(t[i] == s[i]);
            assert(s.contains(s[i]));
        }
    }
}

proof fn lemma_dir_children_len(fsv: Seq<(Seq<char>, Seq<char>)>, dir: Seq<char>)
    ensures
        dir_children(fsv, dir).len() <= fsv.len(),
    decreases fsv.len(),
{
    if fsv.len() > 0 {
        lemma_dir_children_len(fsv.drop_first(), dir);
    }
}

/// One pending piece of the walk, as mathematics.
pub enum WalkItem {
    /// Parse the file at this path.
    ParseItem { path: Seq<char> },
    /// Try a nesting pattern: its resolved target, and the raw pattern.
    ExpandItem { full: Seq<char>, pattern: Seq<char> },
    /// Parse every file of this directory.
    GlobItem { dir: Seq<char> },
}

/// A work item as mathematics.
pub open spec fn item_view(w: Work) -> WalkItem {
    match w {
        Work::ParseFile { path } => WalkItem::ParseItem { path: path@ },
        Work::Expand { full, pattern } => WalkItem::ExpandItem { full: full@, pattern: pattern@ },
        Work::Glob { dir } => WalkItem::GlobItem { dir: dir@ },
    }
}

/// The walk stack as mathematics, top last.
pub open spec fn walk_view(stack: Seq<Work>) -> Seq<WalkItem> {
    stack.map_values(|w: Work| item_view(w))
}

/// Where a nesting pattern points: itself when absolute, else joined to
/// the directory of the file that declared it.
pub open spec fn pattern_target(path: Seq<char>, pattern: Seq<char>) -> Seq<char> {
    if is_absolute(pattern) {
        pattern
    } else {
        join_rel(path, pattern)
    }
}

/// The work a file's nesting patterns add: one expansion per pattern, the
/// first declared on top of the stack.
pub open spec fn expand_stack(path: Seq<char>, pats: Seq<Seq<char>>) -> Seq<WalkItem> {
    Seq::new(
        pats.len(),
        |i: int|
            WalkItem::ExpandItem {
                full: pattern_target(path, pats[pats.len() - 1 - i]),
                pattern: pats[pats.len() - 1 - i],
            },
    )
}

/// The work a directory listing adds: one parse per file, the first listed
/// on top of the stack.
pub open spec fn parse_stack(entries: Seq<Seq<char>>) -> Seq<WalkItem> {
    Seq::new(
        entries.len(),
        |i: int| WalkItem::ParseItem { path: entries[entries.len() - 1 - i] },
    )
}

/// A finished resolution, as mathematics.
pub enum ResolutionView {
    /// The category's destination.
    FoundDest(DestinationView),
    /// The category name is not a known one.
    BadCategory,
    /// No conventional configuration location exists.
    NoConfig,
    /// Nothing declared a destination and the default location is absent.
    NoLogPath { category: LogCategory, config_path: Seq<char>, default_path: Seq<char> },
    /// A configuration file was reached twice.
    Cycle { path: Seq<char> },
}

/// A resolution result as mathematics.
pub open spec fn outcome_view(r: Result<LogDestination, ResolveError>) -> ResolutionView {
    match r {
        Ok(d) => ResolutionView::FoundDest(d@),
        Err(e) => match e {
            ResolveError::InvalidCategory => ResolutionView::BadCategory,
            ResolveError::ConfigNotFound => ResolutionView::NoConfig,
            ResolveError::LogPathNotFound { category, config_path, default_path } =>
                ResolutionView::NoLogPath {
                category,
                config_path: config_path@,
                default_path: default_path@,
            },
            ResolveError::CyclicNesting { path } => ResolutionView::Cycle { path: path@ },
        },
    }
}

/// A visited list the walk can actually reach: each file read once, and
/// only files the model holds.
pub open spec fn visited_wf(fsv: Seq<(Seq<char>, Seq<char>)>, visited: Seq<Seq<char>>) -> bool {
    visited.no_duplicates() && (forall|j: int|
        0 <= j < visited.len() ==> fs_has(fsv, #[trigger] visited[j]))
}

/// Termination weight of one walk item, against a model of `n` files.
pub open spec fn item_weight(w: WalkItem, n: int) -> int {
    match w {
        WalkItem::ParseItem { .. } => 2,
        WalkItem::GlobItem { .. } => 2 * n + 3,
        WalkItem::ExpandItem { .. } => 2 * n + 4,
    }
}

/// Termination weight of a whole walk stack.
pub open spec fn items_pot(stack: Seq<WalkItem>, n: int) -> int
    decreases stack.len(),
{
    if stack.len() == 0 {
        0
    } else {
        items_pot(stack.drop_last(), n) + item_weight(stack.last(), n)
    }
}

proof fn lemma_items_pot_bounds(stack: Seq<WalkItem>, n: int)
    requires
        n >= 0,
    ensures
        items_pot(stack, n) >= 2 * stack.len(),
    decreases stack.len(),
{
    if stack.len() > 0 {
        lemma_items_pot_bounds(stack.drop_last(), n);
    }
}

proof fn lemma_items_pot_concat(a: Seq<WalkItem>, b: Seq<WalkItem>, n: int)
    ensures
        items_pot(a + b, n) == items_pot(a, n) + items_pot(b, n),
    decreases b.len(),
{
    if b.len() == 0 {
        assert(a + b =~= a);
    } else {
        lemma_items_pot_concat(a, b.drop_last(), n);
        assert((a + b).drop_last() =~= a + b.drop_last());
        assert((a + b).last() == b.last());
    }
}

proof fn lemma_parse_stack_pot(entries: Seq<Seq<char>>, n: int)
    ensures
        items_pot(parse_stack(entries), n) == 2 * entries.len(),
    decreases entries.len(),
{
    if entries.len() > 0 {
        let ps = parse_stack(entries);
        let shorter = parse_stack(entries.drop_first());
        assert(ps.drop_last() =~= shorter);
        lemma_parse_stack_pot(entries.drop_first(), n);
    }
}

/// The walk over the model, one item at a time, top of stack first: a
/// readable file's first matching directive decides at once; a file
/// without one adds its nesting patterns, first declared first; a missing
/// pattern with a wildcard lists the directory part of its target and
/// parses every file there in listed order, while a missing plain pattern
/// is skipped; a file reached twice is the cyclic error; and an exhausted
/// walk falls back to the category default exactly when that file exists.
/// The visited guard only keeps the function total; the machine never
/// leaves it.
pub open spec fn spec_walk(
    fsv: Seq<(Seq<char>, Seq<char>)>,
    c: LogCategory,
    mc: Seq<char>,
    stack: Seq<WalkItem>,
    visited: Seq<Seq<char>>,
) -> ResolutionView
    decreases fsv.len() - visited.len(), items_pot(stack, fsv.len() as int),
    via spec_walk_dec
{
    if !visited_wf(fsv, visited) {
        ResolutionView::NoConfig
    } else if stack.len() == 0 {
        if fs_has(fsv, default_path_of(c)) {
            ResolutionView::FoundDest(DestinationView::FileDest(default_path_of(c)))
        } else {
            ResolutionView::NoLogPath {
                category: c,
                config_path: mc,
                default_path: default_path_of(c),
            }
        }
    } else {
        let rest = stack.drop_last();
        match stack.last() {
            WalkItem::ParseItem { path } => match fs_lookup(fsv, path) {
                Some(content) => if visited.contains(path) {
                    ResolutionView::Cycle { path }
                } else {
                    match first_directive_value(split_lines_spec(content), directive_of(c)) {
                        Some(v) => ResolutionView::FoundDest(spec_classify(v, path)),
                        None => spec_walk(
                            fsv,
                            c,
                            mc,
                            rest + expand_stack(path, nest_patterns(split_lines_spec(content))),
                            visited.push(path),
                        ),
                    }
                },
                None => spec_walk(fsv, c, mc, rest, visited),
            },
            WalkItem::ExpandItem { full, pattern } => match fs_lookup(fsv, full) {
                Some(content) => if visited.contains(full) {
                    ResolutionView::Cycle { path: full }
                } else {
                    match first_directive_value(split_lines_spec(content), directive_of(c)) {
                        Some(v) => ResolutionView::FoundDest(spec_classify(v, full)),
                        None => spec_walk(
                            fsv,
                            c,
                            mc,
                            rest + expand_stack(full, nest_patterns(split_lines_spec(content))),
                            visited.push(full),
                        ),
                    }
                },
                None => if contains_spec(pattern, "*"@) {
                    spec_walk(fsv, c, mc, rest.push(WalkItem::GlobItem { dir: dir_of(full) }), visited)
                } else {
                    spec_walk(fsv, c, mc, rest, visited)
                },
            },
            WalkItem::GlobItem { dir } => spec_walk(
                fsv,
                c,
                mc,
                rest + parse_stack(dir_children(fsv, dir)),
                visited,
            ),
        }
    }
}

#[via_fn]
proof fn spec_walk_dec(
    fsv: Seq<(Seq<char>, Seq<char>)>,
    c: LogCategory,
    mc: Seq<char>,
    stack: Seq<WalkItem>,
    visited: Seq<Seq<char>>,
) {
    let n = fsv.len() as int;
    if visited_wf(fsv, visited) && stack.len() > 0 {
        lemma_visited_bound(visited, fsv);
        lemma_items_pot_bounds(stack, n);
        lemma_items_pot_bounds(stack.drop_last(), n);
        let rest = stack.drop_last();
        assert(items_pot(stack, n) == items_pot(rest, n) + item_weight(stack.last(), n));
        match stack.last() {
            WalkItem::ParseItem { path } => {
                if fs_lookup(fsv, path) is Some && !visited.contains(path) {
                    lemma_push_no_duplicates(visited, path);
                    lemma_visited_bound(visited.push(path), fsv);
                }
            },
            WalkItem::ExpandItem { full, pattern } => {
                if fs_lookup(fsv, full) is Some && !visited.contains(full) {
                    lemma_push_no_duplicates(visited, full);
                    lemma_visited_bound(visited.push(full), fsv);
                } else if fs_lookup(fsv, full) is None && contains_spec(pattern, "*"@) {
                    let pushed = rest.push(WalkItem::GlobItem { dir: dir_of(full) });
                    assert(pushed.drop_last() =~= rest);
                    assert(items_pot(pushed, n) == items_pot(rest, n) + 2 * n + 3);
                }
            },
            WalkItem::GlobItem { dir } => {
                lemma_dir_children_len(fsv, dir);
                lemma_items_pot_concat(rest, parse_stack(dir_children(fsv, dir)), n);
                lemma_parse_stack_pot(dir_children(fsv, dir), n);
            },
        }
    }
}

/// The whole resolution against the model: the first conventional location
/// that exists starts the walk; none existing is the missing-configuration
/// answer.
pub open spec fn spec_resolution(fsv: Seq<(Seq<char>, Seq<char>)>, c: LogCategory) -> ResolutionView {
    let k = first_probe_index(fsv);
    if k < 0 {
        ResolutionView::NoConfig
    } else {
        let mc = config_probe_paths()[k];
        spec_walk(fsv, c, mc, seq![WalkItem::ParseItem { path: mc }], Seq::empty())
    }
}

/// Law: a resolution's answer is a function of the model and the category
/// alone — equal models and categories always give equal outcomes, with no
/// hidden source of variation.
pub proof fn lemma_resolution_deterministic(
    a: Seq<(Seq<char>, Seq<char>)>,
    b: Seq<(Seq<char>, Seq<char>)>,
    c: LogCategory,
    d: LogCategory,
)
    requires
        a == b,
        c == d,
    ensures
        spec_resolution(a, c) == spec_resolution(b, d),
{
}

/// Resolves the log destination of a category against a filesystem model:
/// the compiled-in build defaults first, then the configuration tree from
/// the first conventional location that exists, and last the category's
/// default location.  An unknown category name is rejected as such, and
/// with no build default the answer is exactly the walk's
/// ([`spec_resolution`]): the missing configuration is reported iff no
/// conventional location exists, the first matching directive found —
/// main file first, nested files depth-first in declaration order, glob
/// patterns expanded over their directory — decides the destination, the
/// per-category default answers iff it exists, a revisited file is the
/// cyclic error, and a resolved file path is always absolute.
pub fn find_nginx_log_path(fs: &FsModel, build_info: Option<&str>, log_type: &str) -> (r: Result<
    LogDestination,
    ResolveError,
>)
    requires
        fs.wf(),
    ensures
        (log_type@ != "access"@ && log_type@ != "error"@) <==> (r matches Err(e) && e matches
            ResolveError::InvalidCategory),
        (log_type@ == "access"@ || log_type@ == "error"@) ==> ({
            let c = spec_category_of(log_type@);
            let bd = match build_info {
                Some(b) => spec_build_default(b@, c),
                None => None,
            };
            &&& (bd matches Some(dv) ==> (r matches Ok(d) && d@ == dv))
            &&& (bd is None ==> resolution_result_ok(fs@, c, r))
            &&& (bd is None ==> outcome_view(r) == spec_resolution(fs@, c))
        }),
        r matches Ok(d2) ==> (d2@ matches DestinationView::FileDest(p) ==> is_absolute(p)),
{
    let category = match category_from_name(log_type) {
        Ok(c) => c,
        Err(e) => {
            return Err(e);
        },
    };
    match build_info {
        Some(b) => {
            match check_build_defaults(b, category) {
                Some(d) => {
                    return Ok(d);
                },
                None => {},
            }
        },
        None => {},
    }
    let (mut machine, mut status) = Resolver::start(category);
    loop
        invariant
            fs.wf(),
            machine.wf(),
            machine.category == category,
            log_type@ == "access"@ || log_type@ == "error"@,
            category == spec_category_of(log_type@),
            (match build_info {
                Some(b) => spec_build_default(b@, category) is None,
                None => true,
            }),
            machine.status_matches(status),
            (match machine.phase {
                Phase::Probe { idx } => idx < 4 && forall|j: int|
                    0 <= j < idx ==> !fs_has(fs@, #[trigger] config_probe_paths()[j]),
                Phase::Walk { .. } => walk_started(fs@, category),
                Phase::DefaultProbe { .. } => walk_started(fs@, category),
                Phase::Finished => true,
            }),
            (status matches ResolveStatus::Done(res) ==> resolution_result_ok(
                fs@,
                category,
                res,
            )),
            (status matches ResolveStatus::Done(res2) ==> outcome_view(res2) == spec_resolution(
                fs@,
                category,
            )),
            (machine.phase matches Phase::Walk { main_config, stack, visited }
                ==> spec_resolution(fs@, category) == spec_walk(
                fs@,
                category,
                main_config@,
                walk_view(stack@),
                visited.deep_view(),
            )),
            (machine.phase matches Phase::DefaultProbe { main_config } ==> spec_resolution(
                fs@,
                category,
            ) == (if fs_has(fs@, default_path_of(category)) {
                ResolutionView::FoundDest(DestinationView::FileDest(default_path_of(category)))
            } else {
                ResolutionView::NoLogPath {
                    category,
                    config_path: main_config@,
                    default_path: default_path_of(category),
                }
            })),
            (machine.phase matches Phase::Walk { main_config, stack, visited } ==> ({
                let vs = visited.deep_view();
                &&& vs.no_duplicates()
                &&& (forall|j: int| 0 <= j < vs.len() ==> fs_has(fs@, #[trigger] vs[j]))
                &&& vs.len() <= fs@.len()
            })),
        decreases machine_rem(machine, fs@.len() as int), machine_pot(machine, fs@.len() as int),
    {
        let request = match status {
            ResolveStatus::Done(res) => {
                return res;
            },
            ResolveStatus::Need(q) => q,
        };
        let ghost pre = machine;
        let reply = match &request {
            FsRequest::ReadFile(p) => {
                match fs.read(p) {
                    Some(c) => FsReply::FileContent(c.clone()),
                    None => FsReply::FileMissing,
                }
            },
            FsRequest::ListDir(d) => FsReply::DirEntries(fs.list_dir(d)),
            FsRequest::CheckFile(p) => FsReply::FileExists(fs.contains_path(p)),
        };
        let ghost snapshot_reply = reply;
        let ghost n = fs@.len() as int;
        status = machine.step(reply);
        proof {
            match pre.phase {
                Phase::Probe { idx } => {
                    let path = config_probe_paths()[idx as int];
                    match snapshot_reply {
                        FsReply::FileMissing => {
                            assert(!fs_has(fs@, path));
                            if idx >= 3 {
                                assert(first_probe_index(fs@) < 0);
                            }
                        },
                        FsReply::FileContent(c) => {
                            assert(fs_has(fs@, path));
                            assert(first_probe_index(fs@) == idx as int);
                            assert(c@ == main_config_text(fs@));
                            assert(fs@.len() >= 1);
                            match &machine.phase {
                                Phase::Walk { main_config: m2, stack: s2, visited: v2 } => {
                                    let vs = v2.deep_view();
                                    assert(vs == seq![path]);
                                    assert(vs.no_duplicates());
                                    assert(forall|j: int|
                                        0 <= j < vs.len() ==> fs_has(fs@, #[trigger] vs[j]));
                                },
                                _ => {},
                            }
                        },
                        _ => {},
                    }
                },
                Phase::Walk { main_config, stack, visited } => {
                    let target = work_read_target(stack@.last());
                    lemma_stack_pot_bounds(stack@, n);
                    match snapshot_reply {
                        FsReply::FileContent(c) => {
                            assert(request matches FsRequest::ReadFile(p) && p@ == target);
                            assert(fs_has(fs@, target));
                            if !visited.deep_view().contains(target) {
                                let pushed = visited.deep_view().push(target);
                                lemma_push_no_duplicates(visited.deep_view(), target);
                                assert(forall|j: int|
                                    0 <= j < pushed.len() ==> fs_has(fs@, #[trigger] pushed[j]));
                                lemma_visited_bound(pushed, fs@);
                                assert(visited.deep_view().len() < fs@.len());
                            }
                        },
                        FsReply::DirEntries(es) => {
                            assert(request matches FsRequest::ListDir(d) && es.deep_view()
                                == dir_children(fs@, d@));
                            match request {
                                FsRequest::ListDir(d) => {
                                    lemma_dir_children_len(fs@, d@);
                                    assert(es@.len() == es.deep_view().len());
                                    assert(es@.len() <= fs@.len());
                                },
                                _ => {},
                            }
                        },
                        _ => {},
                    }
                },
                _ => {},
            }
            match &machine.phase {
                Phase::Walk { main_config: mc2, stack: s2, visited: v2 } => {
                    lemma_stack_pot_bounds(s2@, n);
                },
                _ => {},
            }
            match pre.phase {
                Phase::Probe { idx } => {
                    match snapshot_reply {
                        FsReply::FileContent(c) => {
                            let mc = config_probe_paths()[idx as int];
                            let st0: Seq<WalkItem> = seq![WalkItem::ParseItem { path: mc }];
                            assert(spec_resolution(fs@, category) == spec_walk(
                                fs@,
                                category,
                                mc,
                                st0,
                                Seq::empty(),
                            ));
                            assert(st0.last() == WalkItem::ParseItem { path: mc });
                            assert(st0.drop_last() =~= Seq::<WalkItem>::empty());
                            assert(visited_wf(fs@, Seq::<Seq<char>>::empty()));
                            assert(fs_lookup(fs@, mc) == Some(c@));
                            assert(!Seq::<Seq<char>>::empty().contains(mc));
                            match first_directive_value(
                                split_lines_spec(c@),
                                directive_of(category),
                            ) {
                                Some(v) => {
                                    assert(spec_walk(fs@, category, mc, st0, Seq::empty())
                                        == ResolutionView::FoundDest(spec_classify(v, mc)));
                                },
                                None => {
                                    let pats = nest_patterns(split_lines_spec(c@));
                                    assert(Seq::<WalkItem>::empty() + expand_stack(mc, pats)
                                        =~= expand_stack(mc, pats));
                                    assert(Seq::<Seq<char>>::empty().push(mc) =~= seq![mc]);
                                    assert(spec_walk(fs@, category, mc, st0, Seq::empty())
                                        == spec_walk(
                                        fs@,
                                        category,
                                        mc,
                                        expand_stack(mc, pats),
                                        seq![mc],
                                    ));
                                    if expand_stack(mc, pats).len() == 0 {
                                        assert(visited_wf(fs@, seq![mc]));
                                        assert(spec_walk(
                                            fs@,
                                            category,
                                            mc,
                                            expand_stack(mc, pats),
                                            seq![mc],
                                        ) == (if fs_has(fs@, default_path_of(category)) {
                                            ResolutionView::FoundDest(
                                                DestinationView::FileDest(
                                                    default_path_of(category),
                                                ),
                                            )
                                        } else {
                                            ResolutionView::NoLogPath {
                                                category,
                                                config_path: mc,
                                                default_path: default_path_of(category),
                                            }
                                        }));
                                    }
                                },
                            }
                        },
                        _ => {},
                    }
                },
                Phase::Walk { main_config, stack, visited } => {
                    let wv = walk_view(stack@);
                    let vs = visited.deep_view();
                    let target = work_read_target(stack@.last());
                    assert(wv.last() == item_view(stack@.last()));
                    assert(visited_wf(fs@, vs));
                    assert(spec_resolution(fs@, category) == spec_walk(
                        fs@,
                        category,
                        main_config@,
                        wv,
                        vs,
                    ));
                    match snapshot_reply {
                        FsReply::FileContent(c) => {
                            assert(fs_lookup(fs@, target) == Some(c@));
                            match wv.last() {
                                WalkItem::ParseItem { path } => {
                                    assert(path == target);
                                },
                                WalkItem::ExpandItem { full, pattern } => {
                                    assert(full == target);
                                },
                                WalkItem::GlobItem { dir } => {
                                    assert(false);
                                },
                            }
                            if vs.contains(target) {
                                assert(spec_walk(fs@, category, main_config@, wv, vs)
                                    == ResolutionView::Cycle { path: target });
                            } else {
                                match first_directive_value(
                                    split_lines_spec(c@),
                                    directive_of(category),
                                ) {
                                    Some(v) => {
                                        assert(spec_walk(fs@, category, main_config@, wv, vs)
                                            == ResolutionView::FoundDest(
                                            spec_classify(v, target),
                                        ));
                                    },
                                    None => {
                                        let pats = nest_patterns(split_lines_spec(c@));
                                        let ns = wv.drop_last() + expand_stack(target, pats);
                                        assert(spec_walk(fs@, category, main_config@, wv, vs)
                                            == spec_walk(
                                            fs@,
                                            category,
                                            main_config@,
                                            ns,
                                            vs.push(target),
                                        ));
                                        if ns.len() == 0 {
                                            lemma_push_no_duplicates(vs, target);
                                            assert(visited_wf(fs@, vs.push(target)));
                                            assert(spec_walk(
                                                fs@,
                                                category,
                                                main_config@,
                                                ns,
                                                vs.push(target),
                                            ) == (if fs_has(fs@, default_path_of(category)) {
                                                ResolutionView::FoundDest(
                                                    DestinationView::FileDest(
                                                        default_path_of(category),
                                                    ),
                                                )
                                            } else {
                                                ResolutionView::NoLogPath {
                                                    category,
                                                    config_path: main_config@,
                                                    default_path: default_path_of(category),
                                                }
                                            }));
                                        }
                                    },
                                }
                            }
                        },
                        FsReply::FileMissing => {
                            assert(fs_lookup(fs@, target) is None);
                            let rest = wv.drop_last();
                            let ns = (match wv.last() {
                                WalkItem::ExpandItem { full, pattern } => if contains_spec(
                                    pattern,
                                    "*"@,
                                ) {
                                    rest.push(WalkItem::GlobItem { dir: dir_of(full) })
                                } else {
                                    rest
                                },
                                WalkItem::ParseItem { path } => rest,
                                WalkItem::GlobItem { dir } => rest,
                            });
                            match wv.last() {
                                WalkItem::GlobItem { dir } => {
                                    assert(false);
                                },
                                _ => {},
                            }
                            assert(spec_walk(fs@, category, main_config@, wv, vs) == spec_walk(
                                fs@,
                                category,
                                main_config@,
                                ns,
                                vs,
                            ));
                            if ns.len() == 0 {
                                assert(spec_walk(fs@, category, main_config@, ns, vs) == (
                                if fs_has(fs@, default_path_of(category)) {
                                    ResolutionView::FoundDest(
                                        DestinationView::FileDest(default_path_of(category)),
                                    )
                                } else {
                                    ResolutionView::NoLogPath {
                                        category,
                                        config_path: main_config@,
                                        default_path: default_path_of(category),
                                    }
                                }));
                            }
                        },
                        FsReply::DirEntries(es) => {
                            match wv.last() {
                                WalkItem::GlobItem { dir } => {
                                    assert(es.deep_view() == dir_children(fs@, dir));
                                    let ns = wv.drop_last() + parse_stack(es.deep_view());
                                    assert(spec_walk(fs@, category, main_config@, wv, vs)
                                        == spec_walk(fs@, category, main_config@, ns, vs));
                                    if ns.len() == 0 {
                                        assert(spec_walk(fs@, category, main_config@, ns, vs)
                                            == (if fs_has(fs@, default_path_of(category)) {
                                            ResolutionView::FoundDest(
                                                DestinationView::FileDest(
                                                    default_path_of(category),
                                                ),
                                            )
                                        } else {
                                            ResolutionView::NoLogPath {
                                                category,
                                                config_path: main_config@,
                                                default_path: default_path_of(category),
                                            }
                                        }));
                                    }
                                },
                                _ => {
                                    assert(false);
                                },
                            }
                        },
                        _ => {},
                    }
                },
                _ => {},
            }
        }
    }
}

/// Executable twin of [`category_name`].
pub fn category_name_str(c: LogCategory) -> (r: String)
    ensures
        r@ == category_name(c),
{
    match c {
        LogCategory::Access => String::from_str("access"),
        LogCategory::Error => String::from_str("error"),
    }
}

/// The guidance shown when a resolved destination is not a readable file:
/// how else to see those logs.  A file destination needs none.
pub fn destination_guidance(category: LogCategory, destination: &LogDestination) -> (r: Option<
    String,
>)
    ensures
        match destination@ {
            DestinationView::FileDest(_) => r is None,
            DestinationView::StreamDest(k) => (r matches Some(m) && m@ == "Nginx "@
                + category_name(category) + (if k == StreamKind::Stderr {
                " is configured to log to stderr. Logs are not available as files when using 'stderr'. You can view nginx logs using 'journalctl -u nginx' or by checking your process manager logs."@
            } else {
                " is configured to log to stdout. Logs are not available as files when using 'stdout'. You can view nginx logs using 'journalctl -u nginx' or by checking your process manager logs."@
            })),
            DestinationView::DisabledDest => (r matches Some(m) && m@ == "Nginx "@
                + category_name(category) + " logging is disabled (set to 'off')."@),
            DestinationView::SyslogDest(_) => (r matches Some(m) && m@ == "Nginx "@
                + category_name(category)
                + " is configured to log to syslog. You can view nginx logs using 'journalctl -u nginx' or your system's syslog viewer."@),
        },
{
    let head = String::from_str("Nginx ").concat(category_name_str(category).as_str());
    match destination {
        LogDestination::File(_) => None,
        LogDestination::Stream(StreamKind::Stderr) => Some(
            head.concat(
                " is configured to log to stderr. Logs are not available as files when using 'stderr'. You can view nginx logs using 'journalctl -u nginx' or by checking your process manager logs.",
            ),
        ),
        LogDestination::Stream(StreamKind::Stdout) => Some(
            head.concat(
                " is configured to log to stdout. Logs are not available as files when using 'stdout'. You can view nginx logs using 'journalctl -u nginx' or by checking your process manager logs.",
            ),
        ),
        LogDestination::Disabled => Some(head.concat(" logging is disabled (set to 'off').")),
        LogDestination::Syslog(_) => Some(
            head.concat(
                " is configured to log to syslog. You can view nginx logs using 'journalctl -u nginx' or your system's syslog viewer.",
            ),
        ),
    }
}

impl ResolveError {
    /// The error text the boundary reports.
    pub fn message(&self) -> (r: String)
        ensures
            match self {
                ResolveError::InvalidCategory => r@ == "Invalid log type"@,
                ResolveError::ConfigNotFound => r@
                    == "Could not find nginx.conf in any of these locations: [\"/etc/nginx/nginx.conf\", \"/usr/local/etc/nginx/nginx.conf\", \"/opt/nginx/nginx.conf\", \"/usr/local/nginx/conf/nginx.conf\"]"@,
                ResolveError::LogPathNotFound { category, config_path, default_path } => r@
                    == "Could not find "@ + category_name(*category) + " log file. Checked config at "@
                    + config_path@ + " and default location "@ + default_path@,
                ResolveError::CyclicNesting { path } => r@
                    == "Configuration file reached twice during log resolution: "@ + path@,
            },
    {
        match self {
            ResolveError::InvalidCategory => String::from_str("Invalid log type"),
            ResolveError::ConfigNotFound => String::from_str(
                "Could not find nginx.conf in any of these locations: [\"/etc/nginx/nginx.conf\", \"/usr/local/etc/nginx/nginx.conf\", \"/opt/nginx/nginx.conf\", \"/usr/local/nginx/conf/nginx.conf\"]",
            ),
            ResolveError::LogPathNotFound { category, config_path, default_path } => String::from_str(
                "Could not find ",
            ).concat(category_name_str(*category).as_str()).concat(
                " log file. Checked config at ",
            ).concat(config_path.as_str()).concat(" and default location ").concat(
                default_path.as_str(),
            ),
            ResolveError::CyclicNesting { path } => String::from_str(
                "Configuration file reached twice during log resolution: ",
            ).concat(path.as_str()),
        }
    }
}

/// The token names a configuration file: an absolute path ending in the
/// configuration suffix.
pub open spec fn is_conf_token(t: Seq<char>) -> bool {
    starts_with_spec(t, "/"@) && ends_with_spec(t, ".conf"@)
}

/// The first token of the text that names a configuration file.
pub open spec fn first_conf_token(tokens: Seq<Seq<char>>) -> Option<Seq<char>>
    decreases tokens.len(),
{
    if tokens.len() == 0 {
        None
    } else if is_conf_token(tokens[0]) {
        Some(tokens[0])
    } else {
        first_conf_token(tokens.drop_first())
    }
}

/// Picks the configuration file path out of the service's self-test
/// report: the first whitespace-separated token that is an absolute path
/// ending in `.conf`.
pub fn extract_conf_path(output: &str) -> (r: Option<String>)
    ensures
        match r {
            Some(p) => first_conf_token(split_ws_spec(output@)) == Some(p@),
            None => first_conf_token(split_ws_spec(output@)) is None,
        },
{
    let chars = to_chars(output);
    let tokens = split_ws_chars(&chars);
    let slash = to_chars("/");
    let suffix = to_chars(".conf");
    let mut i: usize = 0;
    let n = tokens.len();
    let ghost all = tokens.deep_view();
    assert(all.skip(0) =~~= all);
    while i < n
        invariant
            i <= n == tokens@.len(),
            all == tokens.deep_view(),
            all == split_ws_spec(chars@),
            chars@ == output@,
            slash@ == "/"@,
            suffix@ == ".conf"@,
            first_conf_token(all) == first_conf_token(all.skip(i as int)),
        decreases n - i,
    {
        assert(all.skip(i as int)[0] =~= tokens@[i as int]@);
        assert(all.skip(i as int).drop_first() =~= all.skip(i as int + 1));
        if starts_with_chars(&tokens[i], &slash) && ends_with_chars(&tokens[i], &suffix) {
            return Some(chars_to_string(&tokens[i]));
        }
        i = i + 1;
    }
    assert(all.skip(n as int) =~~= Seq::<Seq<char>>::empty());
    None
}

/// Whether the list holds this exact string.
fn contains_string(v: &Vec<String>, s: &String) -> (r: bool)
    ensures
        r == v.deep_view().contains(s@),
{
    let mut i: usize = 0;
    let n = v.len();
    while i < n
        invariant
            i <= n == v@.len(),
            forall|j: int| 0 <= j < i ==> v.deep_view()[j] != s@,
        decreases n - i,
    {
        if v[i] == *s {
            assert(v.deep_view()[i as int] =~= s@);
            assert(v.deep_view().contains(s@));
            return true;
        }
        assert(v.deep_view()[i as int] =~= v@[i as int]@);
        i = i + 1;
    }
    assert(forall|j: int| 0 <= j < v.deep_view().len() ==> v.deep_view()[j] != s@);
    false
}

} // verus!
