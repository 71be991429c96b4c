//! The build server's decisions: which toolchain builds a request, how the
//! sandbox command is made, how a reply is written, how the Pkl toolchain
//! is called, and the steps of starting the server as a daemon.
use vstd::prelude::*;
use crate::text::{
    append_chars, chars_of, count_char, ends_with, join_on, lemma_split_count, lemma_split_join,
    split_chars, split_on, str_equal, string_of,
};
use crate::lang::{regex_compiles, string_views};

verus! {

/// A build request: the language of a code block and its code.
pub struct Code {
    pub lang: String,
    pub code_block: String,
}

/// The toolchain that builds and runs a code block.
#[derive(PartialEq, Eq, Structural, Clone, Copy, Debug)]
pub enum Builder {
    Cpp,
    C,
    Java,
    Python,
    Go,
    JavaScript,
    TypeScript,
    Scheme,
    Pkl,
}

/// The toolchain for a request in language `lang`: C++ for a language that
/// has no toolchain of its own.
pub open spec fn spec_builder_for(lang: Seq<char>) -> Builder {
    if lang == "cpp"@ {
        Builder::Cpp
    } else if lang == "c"@ {
        Builder::C
    } else if lang == "java"@ {
        Builder::Java
    } else if lang == "python"@ {
        Builder::Python
    } else if lang == "go"@ {
        Builder::Go
    } else if lang == "javascript"@ {
        Builder::JavaScript
    } else if lang == "typescript"@ {
        Builder::TypeScript
    } else if lang == "scheme"@ {
        Builder::Scheme
    } else if lang == "pkl"@ {
        Builder::Pkl
    } else {
        Builder::Cpp
    }
}

/// The toolchain for a request in language `lang`.
pub fn builder_for(lang: &str) -> (res: Builder)
    ensures
        res == spec_builder_for(lang@),
{
    if str_equal(lang, "cpp") {
        Builder::Cpp
    } else if str_equal(lang, "c") {
        Builder::C
    } else if str_equal(lang, "java") {
        Builder::Java
    } else if str_equal(lang, "python") {
        Builder::Python
    } else if str_equal(lang, "go") {
        Builder::Go
    } else if str_equal(lang, "javascript") {
        Builder::JavaScript
    } else if str_equal(lang, "typescript") {
        Builder::TypeScript
    } else if str_equal(lang, "scheme") {
        Builder::Scheme
    } else if str_equal(lang, "pkl") {
        Builder::Pkl
    } else {
        Builder::Cpp
    }
}

/// The sandbox command line that wraps every build: nothing where no sandbox
/// command is configured; otherwise the command followed by the
/// colon-separated arguments (one empty argument where none are configured).
pub open spec fn spec_sandbox_args(cmd: Option<Seq<char>>, args: Option<Seq<char>>) -> Seq<Seq<char>> {
    match cmd {
        None => Seq::empty(),
        Some(c) => seq![c] + split_on(
            match args {
                Some(a) => a,
                None => Seq::empty(),
            },
            ':',
        ),
    }
}

/// The sandbox command line keeps every argument: without a command it is
/// empty; with one, it is the command followed by each colon-separated piece
/// of the arguments (missing arguments counting as empty), one more piece
/// than the arguments hold colons, none holding a colon, and the pieces
/// joined with colons give the arguments back.
pub proof fn lemma_sandbox_command_line(cmd: Option<Seq<char>>, args: Option<Seq<char>>)
    ensures
        cmd is None ==> spec_sandbox_args(cmd, args).len() == 0,
        cmd matches Some(c) ==> {
            let r = spec_sandbox_args(cmd, args);
            let a = match args {
                Some(a) => a,
                None => Seq::<char>::empty(),
            };
            &&& r.len() == count_char(a, ':') + 2
            &&& r[0] == c
            &&& join_on(r.drop_first(), ':') == a
            &&& forall|k: int| 1 <= k < r.len() ==> !(#[trigger] r[k]).contains(':')
        },
{
    if let Some(c) = cmd {
        let a = match args {
            Some(a) => a,
            None => Seq::<char>::empty(),
        };
        let r = spec_sandbox_args(cmd, args);
        lemma_split_count(a, ':');
        lemma_split_join(a, ':');
        assert(r.drop_first() =~= split_on(a, ':'));
        assert forall|k: int| 1 <= k < r.len() implies !(#[trigger] r[k]).contains(':') by {
            assert(r[k] == split_on(a, ':')[k - 1]);
        }
    }
}

/// The view of an optional string.
pub open spec fn opt_view(s: Option<String>) -> Option<Seq<char>> {
    match s {
        Some(t) => Some(t@),
        None => None,
    }
}

/// The sandbox command line from the configured sandbox command `cmd` and
/// its colon-separated arguments `args`.
pub fn sandbox_args(cmd: Option<String>, args: Option<String>) -> (res: Vec<String>)
    ensures
        string_views(res@) == spec_sandbox_args(opt_view(cmd), opt_view(args)),
{
    let ghost cv = opt_view(cmd);
    let ghost av = opt_view(args);
    let mut res: Vec<String> = Vec::new();
    match cmd {
        None => {
            assert(string_views(res@) =~= spec_sandbox_args(cv, av));
            res
        },
        Some(c) => {
            res.push(c);
            let text = match args {
                Some(a) => a,
                None => String::new(),
            };
            let chars = chars_of(text.as_str());
            let pieces = split_chars(&chars, ':');
            let ghost target = spec_sandbox_args(cv, av);
            assert(string_views(res@) =~= target.take(1));
            let mut i: usize = 0;
            while i < pieces.len()
                invariant
                    i <= pieces@.len(),
                    pieces@.len() == split_on(chars@, ':').len(),
                    forall|k: int| 0 <= k < pieces@.len() ==> #[trigger] pieces@[k]@ == split_on(chars@, ':')[k],
                    target == seq![cv->0] + split_on(chars@, ':'),
                    string_views(res@) == target.take(i + 1),
                decreases pieces@.len() - i,
            {
                let s = string_of(&pieces[i]);
                let ghost before = string_views(res@);
                res.push(s);
                assert(string_views(res@) =~= before.push(s@));
                assert(target.take(i + 2) =~= target.take(i + 1).push(target[i + 1]));
                i += 1;
            }
            assert(target.take(pieces@.len() as int + 1) =~= target);
            res
        },
    }
}

/// The command and arguments that evaluate the Pkl file `source_path`:
/// `pkl eval <file>`, or, under a sandbox, the sandbox command with its
/// arguments followed by `eval <file>`.
pub open spec fn spec_pkl_command(sandbox: Seq<Seq<char>>, source_path: Seq<char>) -> (Seq<char>, Seq<Seq<char>>) {
    let eval = seq!["eval"@, source_path];
    if sandbox.len() == 0 {
        ("pkl"@, eval)
    } else {
        (sandbox[0], sandbox.drop_first() + eval)
    }
}

/// A character that has a meaning in a regular expression and that
/// `regex::escape` therefore escapes.
pub open spec fn is_regex_meta(c: char) -> bool {
    c == '\\' || c == '.' || c == '+' || c == '*' || c == '?' || c == '(' || c == ')' || c == '|'
        || c == '[' || c == ']' || c == '{' || c == '}' || c == '^' || c == '$' || c == '#' || c
        == '&' || c == '-' || c == '~'
}

/// `text` with a backslash before each character that has a meaning in a
/// regular expression.
pub open spec fn regex_escape_text(text: Seq<char>) -> Seq<char>
    decreases text.len(),
{
    if text.len() == 0 {
        Seq::empty()
    } else if is_regex_meta(text.last()) {
        regex_escape_text(text.drop_last()) + seq!['\\', text.last()]
    } else {
        regex_escape_text(text.drop_last()).push(text.last())
    }
}

/// Escapes `text` for use in a pattern (`regex::escape`). The contract
/// claims the text with a backslash before each meta character.
#[verifier::external_body]
fn regex_escape(text: &str) -> (res: String)
    ensures
        res@ == regex_escape_text(text@),
{
    regex::escape(text)
}

/// What `regex::Regex::replace_all` makes of `haystack`, for the compiled
/// `pattern` and the replacement `rep` (in which `$name` stands for a group).
pub uninterp spec fn regex_replaced(pattern: Seq<char>, haystack: Seq<char>, rep: Seq<char>) -> Seq<
    char,
>;

/// Compiles `pattern` (`regex::Regex::new`) and replaces each of its matches
/// in `haystack` by `rep` (`regex::Regex::replace_all`). The contract claims
/// that `None` comes exactly when the pattern does not compile, and that the
/// text is the named result of the replacement.
#[verifier::external_body]
fn regex_replace_all(pattern: &str, haystack: &str, rep: &str) -> (res: Option<String>)
    ensures
        res is None <==> !regex_compiles(pattern@),
        res matches Some(t) ==> t@ == regex_replaced(pattern@, haystack@, rep@),
{
    match regex::Regex::new(pattern) {
        Ok(re) => Some(re.replace_all(haystack, rep).to_string()),
        Err(_) => None,
    }
}

/// The pattern of a path that ends in the file `name`: characters other than
/// whitespace and quotes, a slash or a backslash, then the name itself.
pub open spec fn path_pattern(name: Seq<char>) -> Seq<char> {
    "[^\\s'\"]*[/\\\\]"@ + regex_escape_text(name)
}

/// `result` with the build directory taken out of every path to the file
/// `name`, so that a compiler's message names the file alone.
pub fn remove_dir_from_error(result: &str, name: &str) -> (res: String)
    ensures
        regex_compiles(path_pattern(name@)) ==> res@ == regex_replaced(
            path_pattern(name@),
            result@,
            name@,
        ),
        !regex_compiles(path_pattern(name@)) ==> res@ == result@,
{
    let mut pattern = chars_of("[^\\s'\"]*[/\\\\]");
    let escaped = regex_escape(name);
    append_chars(&mut pattern, &chars_of(escaped.as_str()));
    let pattern = string_of(&pattern);
    match regex_replace_all(pattern.as_str(), result, name) {
        Some(t) => t,
        None => result.to_owned(),
    }
}

/// The command and arguments that evaluate the Pkl file `source_path` under
/// the sandbox command line `sandbox_args_vec`.
pub fn pkl_command(sandbox_args_vec: &Vec<String>, source_path: &str) -> (res: (String, Vec<String>))
    ensures
        (res.0@, string_views(res.1@)) == spec_pkl_command(string_views(sandbox_args_vec@), source_path@),
{
    let ghost sv = string_views(sandbox_args_vec@);
    let mut args: Vec<String> = Vec::new();
    if sandbox_args_vec.len() == 0 {
        args.push("eval".to_owned());
        args.push(source_path.to_owned());
        assert(string_views(args@) =~= seq!["eval"@, source_path@]);
        return ("pkl".to_owned(), args);
    }
    let mut i: usize = 1;
    while i < sandbox_args_vec.len()
        invariant
            1 <= i <= sandbox_args_vec@.len(),
            sv == string_views(sandbox_args_vec@),
            string_views(args@) == sv.subrange(1, i as int),
        decreases sandbox_args_vec@.len() - i,
    {
        let ghost before = string_views(args@);
        let item = sandbox_args_vec[i].clone();
        args.push(item);
        assert(string_views(args@) =~= before.push(item@));
        assert(item@ == sv[i as int]);
        assert(string_views(args@) =~= sv.subrange(1, i + 1));
        i += 1;
    }
    args.push("eval".to_owned());
    args.push(source_path.to_owned());
    assert(string_views(args@) =~= sv.drop_first() + seq!["eval"@, source_path@]);
    (sandbox_args_vec[0].clone(), args)
}

/// The command line that runs `program` with `args` under the sandbox
/// command line `sandbox`: the program itself where there is no sandbox,
/// otherwise the sandbox command, its arguments, then the program and its
/// arguments.
pub open spec fn spec_sandboxed(sandbox: Seq<Seq<char>>, program: Seq<char>, args: Seq<Seq<char>>) -> (Seq<char>, Seq<Seq<char>>) {
    if sandbox.len() == 0 {
        (program, args)
    } else {
        (sandbox[0], sandbox.drop_first() + seq![program] + args)
    }
}

/// The command line that runs `program` with `args` under the sandbox
/// command line `sandbox`.
pub fn sandboxed_command(sandbox: &Vec<String>, program: &str, args: &Vec<String>) -> (res: (String, Vec<String>))
    ensures
        (res.0@, string_views(res.1@)) == spec_sandboxed(string_views(sandbox@), program@, string_views(args@)),
{
    let ghost sv = string_views(sandbox@);
    let ghost av = string_views(args@);
    if sandbox.len() == 0 {
        let copy = copy_strings(args, 0);
        assert(string_views(copy@) =~= av);
        return (program.to_owned(), copy);
    }
    let mut out = copy_strings(sandbox, 1);
    out.push(program.to_owned());
    let rest = copy_strings(args, 0);
    let mut i: usize = 0;
    let ghost mid = string_views(out@);
    assert(mid =~= sv.drop_first() + seq![program@]);
    assert(av.subrange(0, av.len() as int) =~= av);
    assert(string_views(rest@).len() == rest@.len());
    while i < rest.len()
        invariant
            i <= rest@.len(),
            av == string_views(args@),
            string_views(rest@) == av,
            rest@.len() == av.len(),
            string_views(out@) == mid + av.take(i as int),
        decreases rest@.len() - i,
    {
        let item = rest[i].clone();
        let ghost b = string_views(out@);
        out.push(item);
        assert(string_views(out@) =~= b.push(item@));
        assert(item@ == string_views(rest@)[i as int]);
        assert(av.take(i + 1) =~= av.take(i as int).push(av[i as int]));
        i += 1;
    }
    assert(av.take(rest@.len() as int) =~= av);
    (sandbox[0].clone(), out)
}

/// A copy of the strings of `v` from index `from` on.
fn copy_strings(v: &Vec<String>, from: usize) -> (res: Vec<String>)
    requires
        from <= v@.len(),
    ensures
        string_views(res@) == string_views(v@).subrange(from as int, v@.len() as int),
{
    let ghost sv = string_views(v@);
    let mut res: Vec<String> = Vec::new();
    let mut i: usize = from;
    while i < v.len()
        invariant
            from <= i <= v@.len(),
            sv == string_views(v@),
            string_views(res@) == sv.subrange(from as int, i as int),
        decreases v@.len() - i,
    {
        let item = v[i].clone();
        let ghost b = string_views(res@);
        res.push(item);
        assert(string_views(res@) =~= b.push(item@));
        assert(item@ == sv[i as int]);
        assert(sv.subrange(from as int, i + 1) =~= sv.subrange(from as int, i as int).push(sv[i as int]));
        i += 1;
    }
    res
}

/// The address `host:port` that the server listens on.
pub fn listen_address(hostname: &str, port: &str) -> (res: String)
    ensures
        res@ == hostname@ + ":"@ + port@,
{
    let mut v = chars_of(hostname);
    append_chars(&mut v, &chars_of(":"));
    append_chars(&mut v, &chars_of(port));
    string_of(&v)
}

/// The host and port of the service: the first two arguments after the
/// service name where the service manager hands over at least three, and
/// otherwise the configured `fallback`.
pub fn service_address(arguments: &Vec<String>, fallback: (String, String)) -> (res: (String, String))
    ensures
        arguments@.len() >= 3 ==> res.0@ == arguments@[1]@ && res.1@ == arguments@[2]@,
        arguments@.len() < 3 ==> res == fallback,
{
    if arguments.len() >= 3 {
        (arguments[1].clone(), arguments[2].clone())
    } else {
        fallback
    }
}

/// A lower-case hexadecimal digit.
pub open spec fn hex_digit(d: nat) -> char {
    if d < 10 {
        crate::text::digit_char(d)
    } else if d == 10 {
        'a'
    } else if d == 11 {
        'b'
    } else if d == 12 {
        'c'
    } else if d == 13 {
        'd'
    } else if d == 14 {
        'e'
    } else {
        'f'
    }
}

/// How a JSON string writes the character `c`: quotes, backslashes and
/// control characters escaped, everything else as it is.
pub open spec fn json_escape_char(c: char) -> Seq<char> {
    let u = c as u32;
    if c == '"' {
        seq!['\\', '"']
    } else if c == '\\' {
        seq!['\\', '\\']
    } else if u == 0x08 {
        seq!['\\', 'b']
    } else if u == 0x09 {
        seq!['\\', 't']
    } else if u == 0x0a {
        seq!['\\', 'n']
    } else if u == 0x0c {
        seq!['\\', 'f']
    } else if u == 0x0d {
        seq!['\\', 'r']
    } else if u < 0x20 {
        seq!['\\', 'u', '0', '0', hex_digit((u / 16) as nat), hex_digit((u % 16) as nat)]
    } else {
        seq![c]
    }
}

/// The characters of `s` as the inside of a JSON string writes them.
pub open spec fn json_escape(s: Seq<char>) -> Seq<char>
    decreases s.len(),
{
    if s.len() == 0 {
        Seq::empty()
    } else {
        json_escape(s.drop_last()) + json_escape_char(s.last())
    }
}

/// `s` as a JSON string.
pub open spec fn json_string(s: Seq<char>) -> Seq<char> {
    seq!['"'] + json_escape(s) + seq!['"']
}

/// The compact JSON text of an object with the one string member `key: value`.
pub open spec fn json_single_member(key: Seq<char>, value: Seq<char>) -> Seq<char> {
    seq!['{'] + json_string(key) + seq![':'] + json_string(value) + seq!['}']
}

/// Writes the JSON object with the one string member `key: value`
/// (`serde_json::to_string` of a `serde_json::Value::Object`). The contract
/// claims the compact text that serde_json writes: the key and the value as
/// JSON strings, with `"` and `\` escaped, the control characters with short
/// escapes written so, and the other control characters as `\u00XX`.
#[verifier::external_body]
fn json_object_text(key: &str, value: &str) -> (res: String)
    ensures
        res@ == json_single_member(key@, value@),
{
    let mut map = serde_json::Map::new();
    map.insert(key.to_string(), serde_json::Value::String(value.to_string()));
    match serde_json::to_string(&serde_json::Value::Object(map)) {
        Ok(text) => text,
        Err(_) => String::new(),
    }
}

/// The reply to a build request: a JSON object whose `result` member holds
/// the output of the build.
pub fn build_reply(result: &str) -> (res: String)
    ensures
        res@ == json_single_member("result"@, result@),
{
    json_object_text("result", result)
}

/// Where a file named `name` lies in the directory `dir` (`PathBuf::push` of
/// a relative name on a Unix system).
pub open spec fn path_join(dir: Seq<char>, name: Seq<char>) -> Seq<char> {
    if dir.len() == 0 || dir.last() == '/' {
        dir + name
    } else {
        dir + seq!['/'] + name
    }
}

/// The file in `dir` named `name`.
pub fn join_path(dir: &str, name: &str) -> (res: String)
    ensures
        res@ == path_join(dir@, name@),
{
    let mut v = chars_of(dir);
    if v.len() > 0 && v[v.len() - 1] != '/' {
        v.push('/');
    }
    append_chars(&mut v, &chars_of(name));
    string_of(&v)
}

/// How far starting the server as a daemon has come.
#[derive(Clone, Copy)]
pub enum ServerPhase {
    /// Nothing done yet.
    Idle,
    /// Removing the process-id file of an earlier run.
    RemovingStalePid,
    /// Creating the files that take the daemon's output.
    CreatingLogs,
    /// Detaching from the terminal.
    Daemonizing,
    /// Installing the handler of termination signals.
    WatchingSignals,
    /// Serving build requests.
    Serving,
    /// Removing the process-id file before the end; then exiting with the
    /// code, or returning where there is none.
    CleaningUp { exit_code: Option<i32> },
    /// Ended.
    Finished,
}

/// What happened since the last step.
pub enum ServerEvent {
    /// Start, with the directory for temporary files and the working directory.
    Start { temp_dir: String, work_dir: String },
    /// The action asked for was carried out.
    Done,
    /// Detaching from the terminal ended, successfully or not.
    Daemonized { ok: bool },
    /// The HTTP server returned, successfully or with an error.
    Served { ok: bool },
    /// A termination signal (SIGINT, SIGTERM or SIGQUIT) arrived.
    Signal,
}

/// What to do next.
pub enum ServerAction {
    /// Remove the file, where it exists.
    RemoveFile { path: String },
    /// Create (or empty) the files that take standard output and standard error.
    CreateLogFiles { stdout: String, stderr: String },
    /// Detach from the terminal, writing the process id to `pid_file`,
    /// working in `work_dir`, with the file-creation mask `umask`, and
    /// standard output and error going to the two files.
    Daemonize { pid_file: String, work_dir: String, stdout: String, stderr: String, umask: u32 },
    /// Install the handler of termination signals.
    WatchSignals,
    /// Serve build requests at `address` until the server stops.
    Serve { address: String },
    /// End the process with `code`.
    Exit { code: i32 },
    /// Return to the caller.
    Return,
    /// Nothing: the event does not concern the current phase.
    Nothing,
}

/// Starting the build server as a daemon: the decisions, step by step.
#[derive(Clone)]
pub struct LangServer {
    pub hostname: String,
    pub port: String,
    pub temp_dir: String,
    pub work_dir: String,
    pub phase: ServerPhase,
}

/// The process-id file of the server.
pub open spec fn pid_file(temp_dir: Seq<char>) -> Seq<char> {
    path_join(temp_dir, "mdbook-lang-server.pid"@)
}

/// The file that takes the server's standard output.
pub open spec fn stdout_file(temp_dir: Seq<char>) -> Seq<char> {
    path_join(temp_dir, "mdbook-lang-server.out"@)
}

/// The file that takes the server's standard error.
pub open spec fn stderr_file(temp_dir: Seq<char>) -> Seq<char> {
    path_join(temp_dir, "mdbook-lang-server.err"@)
}

/// The steps of starting the server on `hostname:port`.
pub fn start_lang_server(hostname: &str, port: &str) -> (res: LangServer)
    ensures
        res.hostname@ == hostname@,
        res.port@ == port@,
        res.temp_dir@ == Seq::<char>::empty(),
        res.work_dir@ == Seq::<char>::empty(),
        res.phase is Idle,
{
    LangServer {
        hostname: hostname.to_owned(),
        port: port.to_owned(),
        temp_dir: String::new(),
        work_dir: String::new(),
        phase: ServerPhase::Idle,
    }
}

/// The phase after `event` in `phase`, and whether the event moves the server on.
pub open spec fn next_phase(phase: ServerPhase, event: ServerEvent) -> ServerPhase {
    match (phase, event) {
        (ServerPhase::Idle, ServerEvent::Start { .. }) => ServerPhase::RemovingStalePid,
        (ServerPhase::RemovingStalePid, ServerEvent::Done) => ServerPhase::CreatingLogs,
        (ServerPhase::CreatingLogs, ServerEvent::Done) => ServerPhase::Daemonizing,
        (ServerPhase::Daemonizing, ServerEvent::Daemonized { .. }) => ServerPhase::WatchingSignals,
        (ServerPhase::WatchingSignals, ServerEvent::Done) => ServerPhase::Serving,
        (ServerPhase::Serving, ServerEvent::Served { ok }) => ServerPhase::CleaningUp {
            exit_code: if ok { None } else { Some(-2i32) },
        },
        (ServerPhase::Serving, ServerEvent::Signal) => ServerPhase::CleaningUp {
            exit_code: Some(-1i32),
        },
        (ServerPhase::CleaningUp { .. }, ServerEvent::Done) => ServerPhase::Finished,
        (p, _) => p,
    }
}

/// The action that `event` calls for in `phase`, for a server on
/// `hostname:port` whose files lie in `temp_dir` and that works in `work_dir`.
pub open spec fn action_matches(
    phase: ServerPhase,
    event: ServerEvent,
    hostname: Seq<char>,
    port: Seq<char>,
    temp_dir: Seq<char>,
    work_dir: Seq<char>,
    action: ServerAction,
) -> bool {
    match (phase, event) {
        (ServerPhase::Idle, ServerEvent::Start { temp_dir: t, .. }) => action matches ServerAction::RemoveFile { path } && path@ == pid_file(t@),
        (ServerPhase::RemovingStalePid, ServerEvent::Done) => action matches ServerAction::CreateLogFiles { stdout, stderr } && stdout@ == stdout_file(temp_dir) && stderr@ == stderr_file(temp_dir),
        (ServerPhase::CreatingLogs, ServerEvent::Done) => action matches ServerAction::Daemonize { pid_file: p, work_dir: w, stdout, stderr, umask } && p@ == pid_file(temp_dir) && w@ == work_dir && stdout@ == stdout_file(temp_dir) && stderr@ == stderr_file(temp_dir) && umask == 0o077,
        (ServerPhase::Daemonizing, ServerEvent::Daemonized { .. }) => action is WatchSignals,
        (ServerPhase::WatchingSignals, ServerEvent::Done) => action matches ServerAction::Serve { address } && address@ == hostname + ":"@ + port,
        (ServerPhase::Serving, ServerEvent::Served { .. }) => action matches ServerAction::RemoveFile { path } && path@ == pid_file(temp_dir),
        (ServerPhase::Serving, ServerEvent::Signal) => action matches ServerAction::RemoveFile { path } && path@ == pid_file(temp_dir),
        (ServerPhase::CleaningUp { exit_code }, ServerEvent::Done) => match exit_code {
            Some(code) => action matches ServerAction::Exit { code: c } && c == code,
            None => action is Return,
        },
        _ => action is Nothing,
    }
}

impl LangServer {
    /// Moves on by `event`: the next phase, and what to do.
    pub fn step(&mut self, event: ServerEvent) -> (res: ServerAction)
        ensures
            final(self).phase == next_phase(old(self).phase, event),
            final(self).hostname == old(self).hostname,
            final(self).port == old(self).port,
            (old(self).phase is Idle && event is Start) ==> final(self).temp_dir@ == event->temp_dir@
                && final(self).work_dir@ == event->work_dir@,
            !(old(self).phase is Idle && event is Start) ==> final(self).temp_dir == old(self).temp_dir
                && final(self).work_dir == old(self).work_dir,
            action_matches(
                old(self).phase,
                event,
                old(self).hostname@,
                old(self).port@,
                old(self).temp_dir@,
                old(self).work_dir@,
                res,
            ),
    {
        match (&self.phase, event) {
            (ServerPhase::Idle, ServerEvent::Start { temp_dir, work_dir }) => {
                let path = join_path(temp_dir.as_str(), "mdbook-lang-server.pid");
                self.temp_dir = temp_dir;
                self.work_dir = work_dir;
                self.phase = ServerPhase::RemovingStalePid;
                ServerAction::RemoveFile { path }
            },
            (ServerPhase::RemovingStalePid, ServerEvent::Done) => {
                self.phase = ServerPhase::CreatingLogs;
                ServerAction::CreateLogFiles {
                    stdout: join_path(self.temp_dir.as_str(), "mdbook-lang-server.out"),
                    stderr: join_path(self.temp_dir.as_str(), "mdbook-lang-server.err"),
                }
            },
            (ServerPhase::CreatingLogs, ServerEvent::Done) => {
                self.phase = ServerPhase::Daemonizing;
                ServerAction::Daemonize {
                    pid_file: join_path(self.temp_dir.as_str(), "mdbook-lang-server.pid"),
                    work_dir: self.work_dir.clone(),
                    stdout: join_path(self.temp_dir.as_str(), "mdbook-lang-server.out"),
                    stderr: join_path(self.temp_dir.as_str(), "mdbook-lang-server.err"),
                    umask: 0o077,
                }
            },
            (ServerPhase::Daemonizing, ServerEvent::Daemonized { .. }) => {
                self.phase = ServerPhase::WatchingSignals;
                ServerAction::WatchSignals
            },
            (ServerPhase::WatchingSignals, ServerEvent::Done) => {
                self.phase = ServerPhase::Serving;
                ServerAction::Serve {
                    address: listen_address(self.hostname.as_str(), self.port.as_str()),
                }
            },
            (ServerPhase::Serving, ServerEvent::Served { ok }) => {
                self.phase = ServerPhase::CleaningUp { exit_code: if ok { None } else { Some(-2) } };
                ServerAction::RemoveFile {
                    path: join_path(self.temp_dir.as_str(), "mdbook-lang-server.pid"),
                }
            },
            (ServerPhase::Serving, ServerEvent::Signal) => {
                self.phase = ServerPhase::CleaningUp { exit_code: Some(-1) };
                ServerAction::RemoveFile {
                    path: join_path(self.temp_dir.as_str(), "mdbook-lang-server.pid"),
                }
            },
            (ServerPhase::CleaningUp { exit_code }, ServerEvent::Done) => {
                let code = *exit_code;
                self.phase = ServerPhase::Finished;
                match code {
                    Some(c) => ServerAction::Exit { code: c },
                    None => ServerAction::Return,
                }
            },
            _ => ServerAction::Nothing,
        }
    }
}

proof fn lemma_path_join_ends_with(dir: Seq<char>, name: Seq<char>)
    ensures
        ends_with(path_join(dir, name), name),
{
    let p = path_join(dir, name);
    assert(p.subrange(p.len() - name.len(), p.len() as int) =~= name);
}

/// The daemon's standard output goes to the file that the step before made
/// for standard output, `mdbook-lang-server.out`, and its standard error to
/// the one made for standard error, `mdbook-lang-server.err`: two different
/// files.
pub proof fn lemma_daemon_streams(
    hostname: Seq<char>,
    port: Seq<char>,
    temp_dir: Seq<char>,
    work_dir: Seq<char>,
    logs: ServerAction,
    daemon: ServerAction,
)
    requires
        action_matches(
            ServerPhase::RemovingStalePid,
            ServerEvent::Done,
            hostname,
            port,
            temp_dir,
            work_dir,
            logs,
        ),
        action_matches(
            ServerPhase::CreatingLogs,
            ServerEvent::Done,
            hostname,
            port,
            temp_dir,
            work_dir,
            daemon,
        ),
    ensures
        logs matches ServerAction::CreateLogFiles { stdout: o, stderr: e } && daemon matches ServerAction::Daemonize { stdout, stderr, .. }
            && stdout@ == o@ && stderr@ == e@ && ends_with(stdout@, "mdbook-lang-server.out"@)
            && ends_with(stderr@, "mdbook-lang-server.err"@) && stdout@ != stderr@,
{
    lemma_path_join_ends_with(temp_dir, "mdbook-lang-server.out"@);
    lemma_path_join_ends_with(temp_dir, "mdbook-lang-server.err"@);
    reveal_strlit("mdbook-lang-server.out");
    reveal_strlit("mdbook-lang-server.err");
    let o = stdout_file(temp_dir);
    let e = stderr_file(temp_dir);
    assert(o.last() == o.subrange(o.len() - 22, o.len() as int)[21]);
    assert(e.last() == e.subrange(e.len() - 22, e.len() as int)[21]);
    assert(o.last() != e.last());
}

/// The server ends (exits or returns) only from the clean-up phase, and it
/// enters that phase only by removing its process-id file: whatever ends the
/// serving, a served request error, a clean return or a signal, the
/// process-id file is removed before the end.
pub proof fn lemma_pid_file_removed_before_end(
    phase: ServerPhase,
    event: ServerEvent,
    hostname: Seq<char>,
    port: Seq<char>,
    temp_dir: Seq<char>,
    work_dir: Seq<char>,
    action: ServerAction,
)
    requires
        action_matches(phase, event, hostname, port, temp_dir, work_dir, action),
    ensures
        (action is Exit || action is Return) ==> phase is CleaningUp,
        (next_phase(phase, event) is CleaningUp && !(phase is CleaningUp)) ==> (action matches ServerAction::RemoveFile { path } && path@ == pid_file(temp_dir)),
{
}

}
