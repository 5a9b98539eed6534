//! Out-of-band control channel.
//!
//! Zed extensions cannot register commands or status bar buttons, so the only
//! in-editor trigger available is a code action, which costs a menu. A Zed task
//! can be bound to a single key, but a task is a shell command and cannot reach
//! into the language server.
//!
//! This bridges that gap. While the language server is running it also listens
//! on a loopback port and records how to reach it in a small state file keyed by
//! workspace. `live-reload-lsp toggle <dir>` then finds that file and drives the
//! real server, so a one-key task gets the same behaviour as the code action,
//! including the user's settings and the unsaved-buffer mode.

use vstd::prelude::*;
use vstd::utf8::encode_utf8;

use crate::config::maybe;
use crate::number::{decimal, decimal_of, fixed_hex, hex_of, parse_number, parse_unsigned};
use crate::path::{components, components_of, join_path, join_paths};
use crate::quote::{quote, quoted};
use crate::text::{
    begins_with, chars_of, find_char, find_from, is_white, lemma_find_char, lemma_find_from,
    lemma_texts_push, lower, lower_chars, occurs_at, owned, position_of, position_of_char,
    same_text, same_texts, text_of, texts, trim, trimmed, white,
};

verus! {

/* ---------------------------------------------------------------- commands */

/// A command sent from the CLI to a running language server.
#[derive(Debug, Clone, Copy, PartialEq, Eq, Structural)]
pub enum Command {
    Start,
    Stop,
    /// Stop if running, start if not.
    Toggle,
    /// Stop if running; if not, start and open the site in a browser.
    Go,
    /// Open the served site in a browser, starting the server if needed.
    Open,
    Status,
}

/// What a command is called.
pub open spec fn command_name(command: Command) -> Seq<char> {
    match command {
        Command::Start => "start"@,
        Command::Stop => "stop"@,
        Command::Toggle => "toggle"@,
        Command::Go => "go"@,
        Command::Open => "open"@,
        Command::Status => "status"@,
    }
}

/// The command that a text calls by its name, whatever the case of its letters
/// and whatever white space is around it.
pub open spec fn called_command(text: Seq<char>) -> Option<Command> {
    let word = lower(trim(text));
    if word == "start"@ {
        Some(Command::Start)
    } else if word == "stop"@ {
        Some(Command::Stop)
    } else if word == "toggle"@ {
        Some(Command::Toggle)
    } else if word == "go"@ {
        Some(Command::Go)
    } else if word == "open"@ {
        Some(Command::Open)
    } else if word == "status"@ {
        Some(Command::Status)
    } else {
        None
    }
}

impl Command {
    /// Reads a command.
    pub fn parse(text: &str) -> (r: Option<Self>)
        ensures
            r == called_command(text@),
    {
        let bare = trimmed(chars_of(text).as_slice());
        let small = text_of(lower_chars(bare.as_slice()).as_slice());
        let word = small.as_str();
        if same_text(word, "start") {
            Some(Command::Start)
        } else if same_text(word, "stop") {
            Some(Command::Stop)
        } else if same_text(word, "toggle") {
            Some(Command::Toggle)
        } else if same_text(word, "go") {
            Some(Command::Go)
        } else if same_text(word, "open") {
            Some(Command::Open)
        } else if same_text(word, "status") {
            Some(Command::Status)
        } else {
            None
        }
    }

    /// What the command is called.
    pub fn as_str(&self) -> (r: &'static str)
        ensures
            r@ == command_name(*self),
    {
        match self {
            Command::Start => "start",
            Command::Stop => "stop",
            Command::Toggle => "toggle",
            Command::Go => "go",
            Command::Open => "open",
            Command::Status => "status",
        }
    }
}

/// A command and the workspace whose server it is for.
pub struct Request {
    pub workspace: String,
    pub command: Command,
}

/* -------------------------------------------------------------- state file */

/// The directories of the system that state files may go under.
pub struct Environment {
    /// The runtime directory that the environment names, if it names one.
    pub runtime: Option<String>,
    /// `/run/user/<uid>`, where that exists.
    pub conventional: Option<String>,
    /// The directory for temporary files.
    pub temporary: String,
}

/// The system's directories, in mathematical terms.
pub struct EnvironmentModel {
    pub runtime: Option<Seq<char>>,
    pub conventional: Option<Seq<char>>,
    pub temporary: Seq<char>,
}

impl View for Environment {
    type V = EnvironmentModel;

    open spec fn view(&self) -> EnvironmentModel {
        EnvironmentModel {
            runtime: maybe(self.runtime),
            conventional: maybe(self.conventional),
            temporary: self.temporary@,
        }
    }
}

/// The preferred directory, where there is one besides that for temporary
/// files.
pub open spec fn preferred_dir(environment: EnvironmentModel) -> Option<Seq<char>> {
    match (environment.runtime, environment.conventional) {
        (Some(runtime), _) => Some(join_path(runtime, "live-reload"@)),
        (None, Some(conventional)) => Some(join_path(conventional, "live-reload"@)),
        (None, None) => None,
    }
}

/// Every directory a state file might live in, most preferred first, and none
/// of them twice.
pub open spec fn state_directories(environment: EnvironmentModel) -> Seq<Seq<char>> {
    let temporary = join_path(environment.temporary, "live-reload"@);
    match preferred_dir(environment) {
        Some(dir) => if components(dir) == components(temporary) {
            seq![dir]
        } else {
            seq![dir, temporary]
        },
        None => seq![temporary],
    }
}

/// Every directory a state file might live in, most preferred first.
///
/// The runtime directory is preferred because it is user-private and cleared on
/// logout, which is exactly the lifetime these files want. The temp directory
/// is the fallback for platforms that do not have one.
///
/// Several candidates are listed rather than only the preferred one, because
/// the server and the CLI are separate processes that need not share an
/// environment. An editor launched from a desktop session names a runtime
/// directory; a shell started elsewhere may not. Writing to one place and
/// looking in another fails with a "no server" message that points nowhere near
/// the real cause.
pub fn state_dirs(environment: &Environment) -> (r: Vec<String>)
    ensures
        texts(r@) == state_directories(environment@),
{
    let mut dirs: Vec<String> = Vec::new();
    if let Some(runtime) = &environment.runtime {
        dirs.push(join_paths(runtime.as_str(), "live-reload"));
    } else if let Some(conventional) = &environment.conventional {
        dirs.push(join_paths(conventional.as_str(), "live-reload"));
    }
    let temporary = join_paths(environment.temporary.as_str(), "live-reload");
    let known = dirs.len() > 0 && same_texts(
        &components_of(dirs[0].as_str()),
        &components_of(temporary.as_str()),
    );
    if !known {
        dirs.push(temporary);
    }
    assert(texts(dirs@) =~= state_directories(environment@));
    dirs
}

/// `/run/user/<uid>`, the conventional runtime directory of a user.
pub fn conventional_runtime_dir(uid: u32) -> (r: String)
    ensures
        r@ == "/run/user/"@ + decimal(uid as nat),
{
    let mut out = owned("/run/user/");
    out.append(decimal_of(uid as u64).as_str());
    out
}

/// The FNV-1a hash of some bytes.
pub open spec fn fnv_hash(bytes: Seq<u8>) -> u64
    decreases bytes.len(),
{
    if bytes.len() == 0 {
        0xcbf2_9ce4_8422_2325
    } else {
        (fnv_hash(bytes.drop_last()) ^ (bytes.last() as u64)).wrapping_mul(0x0000_0100_0000_01b3)
    }
}

/// FNV-1a. Hand-rolled because the standard hasher is explicitly not guaranteed
/// to be stable between Rust releases, and the CLI has to derive the same name
/// as the server did, possibly from a differently built binary.
pub fn fnv1a(bytes: &[u8]) -> (r: u64)
    ensures
        r == fnv_hash(bytes@),
{
    let mut hash: u64 = 0xcbf2_9ce4_8422_2325;
    assert(bytes@.take(0) =~= Seq::<u8>::empty());
    for i in 0..bytes.len()
        invariant
            hash == fnv_hash(bytes@.take(i as int)),
    {
        assert(bytes@.take(i + 1).drop_last() =~= bytes@.take(i as int));
        hash = (hash ^ (bytes[i] as u64)).wrapping_mul(0x0000_0100_0000_01b3);
    }
    assert(bytes@.take(bytes@.len() as int) =~= bytes@);
    hash
}

/// The name of a workspace's state file.
pub open spec fn state_name(workspace: Seq<char>) -> Seq<char> {
    fixed_hex(fnv_hash(encode_utf8(workspace)) as nat, 16) + ".json"@
}

/// Filename a workspace's state is stored under.
///
/// The path is hashed rather than escaped so the name is a predictable length
/// and cannot collide with directory separators.
pub fn state_file_name(workspace: &str) -> (r: String)
    ensures
        r@ == state_name(workspace@),
{
    let mut out = hex_of(fnv1a(workspace.as_bytes()) as u128, 16);
    out.append(".json");
    out
}

/// Everywhere that a workspace's state file may be.
pub open spec fn state_files(
    workspace: Seq<char>,
    environment: EnvironmentModel,
) -> Seq<Seq<char>> {
    Seq::new(
        state_directories(environment).len(),
        |i: int| join_path(state_directories(environment)[i], state_name(workspace)),
    )
}

/// Where the server writes this workspace's state file.
pub fn state_path(workspace: &str, environment: &Environment) -> (r: String)
    ensures
        r@ == state_files(workspace@, environment@)[0],
{
    let dirs = state_dirs(environment);
    assert(texts(dirs@).len() > 0);
    join_paths(dirs[0].as_str(), state_file_name(workspace).as_str())
}

/// Everywhere the CLI should look for a workspace's state file.
pub fn state_paths(workspace: &str, environment: &Environment) -> (r: Vec<String>)
    ensures
        texts(r@) == state_files(workspace@, environment@),
{
    let name = state_file_name(workspace);
    let dirs = state_dirs(environment);
    let mut out: Vec<String> = Vec::new();
    let ghost all = state_files(workspace@, environment@);
    for i in 0..dirs.len()
        invariant
            texts(dirs@) == state_directories(environment@),
            name@ == state_name(workspace@),
            all == state_files(workspace@, environment@),
            texts(out@) == all.take(i as int),
    {
        broadcast use lemma_texts_push;

        assert(dirs@[i as int]@ == state_directories(environment@)[i as int]);
        out.push(join_paths(dirs[i].as_str(), name.as_str()));
        assert(all.take(i as int).push(all[i as int]) =~= all.take(i + 1));
    }
    assert(all.take(dirs.len() as int) =~= all);
    out
}

/// How a character stands inside a JSON string.
pub open spec fn json_char(c: char) -> Seq<char> {
    if c == '"' {
        seq!['\\', '"']
    } else if c == '\\' {
        seq!['\\', '\\']
    } else if c == '\n' {
        seq!['\\', 'n']
    } else if c == '\r' {
        seq!['\\', 'r']
    } else if c == '\t' {
        seq!['\\', 't']
    } else if (c as u32) < 0x20 {
        seq!['\\', 'u'] + fixed_hex(c as u32 as nat, 4)
    } else {
        seq![c]
    }
}

/// A text as it stands inside a JSON string.
pub open spec fn json_inside(s: Seq<char>) -> Seq<char>
    decreases s.len(),
{
    if s.len() == 0 {
        Seq::empty()
    } else {
        json_inside(s.drop_last()) + json_char(s.last())
    }
}

/// A text as a JSON string.
pub open spec fn json_text(s: Seq<char>) -> Seq<char> {
    seq!['"'] + json_inside(s) + seq!['"']
}

/// Writes a text as it stands inside a JSON string.
pub fn json_escape(value: &str) -> (r: String)
    ensures
        r@ == json_inside(value@),
{
    let s = chars_of(value);
    let mut out = String::new();
    assert(s@.take(0) =~= Seq::<char>::empty());
    for i in 0..s.len()
        invariant
            out@ == json_inside(s@.take(i as int)),
    {
        let ghost before = out@;
        let c = s[i];
        if c == '"' {
            out.push('\\');
            out.push('"');
        } else if c == '\\' {
            out.push('\\');
            out.push('\\');
        } else if c == '\n' {
            out.push('\\');
            out.push('n');
        } else if c == '\r' {
            out.push('\\');
            out.push('r');
        } else if c == '\t' {
            out.push('\\');
            out.push('t');
        } else if (c as u32) < 0x20 {
            out.push('\\');
            out.push('u');
            out.append(hex_of(c as u32 as u128, 4).as_str());
        } else {
            out.push(c);
        }
        proof {
            assert(s@.take(i + 1).drop_last() =~= s@.take(i as int));
            assert(out@ =~= before + json_char(c));
        }
    }
    assert(s@.take(s@.len() as int) =~= s@);
    out
}

/// Writes a text as a JSON string.
pub fn json_string(value: &str) -> (r: String)
    ensures
        r@ == json_text(value@),
{
    let mut out = String::new();
    out.push('"');
    out.append(json_escape(value).as_str());
    out.push('"');
    assert(out@ =~= json_text(value@));
    out
}

/// What a state file holds.
pub open spec fn state_text(port: u16, token: Seq<char>, workspace: Seq<char>) -> Seq<char> {
    "{\"control_port\":"@ + decimal(port as nat) + ",\"token\":\""@ + token + "\",\"workspace\":"@
        + json_text(workspace) + "}\n"@
}

/// Serialises the state file. Hand-written to keep the format obvious; the
/// port and the token are machine generated and cannot contain characters
/// needing escapes.
pub fn state_json(port: u16, token: &str, workspace: &str) -> (r: String)
    ensures
        r@ == state_text(port, token@, workspace@),
{
    let mut out = owned("{\"control_port\":");
    out.append(decimal_of(port as u64).as_str());
    out.append(",\"token\":\"");
    out.append(token);
    out.append("\",\"workspace\":");
    out.append(json_string(workspace).as_str());
    out.append("}\n");
    out
}

/// The key of a field, as it stands in the state file.
pub open spec fn field_key(key: Seq<char>) -> Seq<char> {
    seq!['"'] + key + seq!['"', ':']
}

/// The first place from `from` on where a value that is not a string ends.
pub open spec fn bare_end(s: Seq<char>, from: int) -> Option<int>
    decreases s.len() - from,
{
    if from >= s.len() {
        None
    } else if s[from] == ',' || s[from] == '}' {
        Some(from)
    } else {
        bare_end(s, from + 1)
    }
}

/// The value that begins at the start of a text: what stands up to the closing
/// quote, or else up to the next `,` or `}`.
pub open spec fn leading_value(rest: Seq<char>) -> Option<Seq<char>> {
    if rest.len() > 0 && rest[0] == '"' {
        match find_char(rest, '"', 1) {
            Some(end) => Some(rest.subrange(1, end)),
            None => None,
        }
    } else {
        match bare_end(rest, 0) {
            Some(end) => Some(trim(rest.take(end))),
            None => None,
        }
    }
}

/// The value of a field in a state file.
pub open spec fn field_value(json: Seq<char>, key: Seq<char>) -> Option<Seq<char>> {
    match find_from(json, field_key(key), 0) {
        Some(at) => leading_value(json.skip(at + field_key(key).len())),
        None => None,
    }
}

fn value_at_start(rest: &[char]) -> (r: Option<String>)
    ensures
        maybe(r) == leading_value(rest@),
{
    if rest.len() > 0 && rest[0] == '"' {
        proof {
            lemma_find_char(rest@, '"', 1);
        }
        match position_of_char(rest, '"', 1) {
            Some(end) => Some(text_of(vstd::slice::slice_subrange(rest, 1, end))),
            None => None,
        }
    } else {
        let mut end: usize = 0;
        while end < rest.len()
            invariant
                end <= rest@.len(),
                bare_end(rest@, 0) == bare_end(rest@, end as int),
                leading_value(rest@) == match bare_end(rest@, 0) {
                    Some(e) => Some(trim(rest@.take(e))),
                    None => None,
                },
            decreases rest@.len() - end,
        {
            if rest[end] == ',' || rest[end] == '}' {
                assert(rest@.subrange(0, end as int) =~= rest@.take(end as int));
                let value = trimmed(vstd::slice::slice_subrange(rest, 0, end));
                return Some(text_of(value.as_slice()));
            }
            end = end + 1;
        }
        None
    }
}

/// Pulls a value out of the state file without a JSON parser.
///
/// The file is written by [`state_json`] above and never by anything else, so
/// its shape is known.
pub fn field(json: &str, key: &str) -> (r: Option<String>)
    ensures
        maybe(r) == field_value(json@, key@),
{
    let text = chars_of(json);
    let mut wanted = String::new();
    wanted.push('"');
    wanted.append(key);
    wanted.push('"');
    wanted.push(':');
    assert(wanted@ =~= field_key(key@));
    let wanted = chars_of(wanted.as_str());
    proof {
        lemma_find_from(json@, field_key(key@), 0);
    }
    match position_of(text.as_slice(), wanted.as_slice()) {
        Some(at) => {
            let total: usize = text.len();
            let start: usize = at + wanted.len();
            assert(text@.subrange(start as int, text@.len() as int) =~= json@.skip(start as int));
            value_at_start(vstd::slice::slice_subrange(text.as_slice(), start, total))
        },
        None => None,
    }
}

/* ------------------------------------------------------------------ secrets */

/// Bytes in hexadecimal, two digits each.
pub open spec fn hex_bytes(bytes: Seq<u8>) -> Seq<char>
    decreases bytes.len(),
{
    if bytes.len() == 0 {
        Seq::empty()
    } else {
        hex_bytes(bytes.drop_last()) + fixed_hex(bytes.last() as nat, 2)
    }
}

/// Writes the shared secret guarding the control port, from random bytes.
///
/// The port is loopback-only, but any local process can reach loopback, so the
/// token is what actually gates it. It lives in a file only the user can read.
pub fn token(bytes: &[u8]) -> (r: String)
    ensures
        r@ == hex_bytes(bytes@),
{
    let mut out = String::new();
    assert(bytes@.take(0) =~= Seq::<u8>::empty());
    for i in 0..bytes.len()
        invariant
            out@ == hex_bytes(bytes@.take(i as int)),
    {
        assert(bytes@.take(i + 1).drop_last() =~= bytes@.take(i as int));
        out.append(hex_of(bytes[i] as u128, 2).as_str());
    }
    assert(bytes@.take(bytes@.len() as int) =~= bytes@);
    out
}

/// Writes the shared secret on a platform without a source of random bytes,
/// from the time in nanoseconds and the number of the process. Weaker, but
/// combined with a loopback-only socket and a private file it is adequate for a
/// dev tool.
pub fn fallback_token(nanos: u128, process: u32) -> (r: String)
    ensures
        r@ == fixed_hex((nanos ^ ((process as u128) << 96u128)) as nat, 32),
{
    hex_of(nanos ^ ((process as u128) << 96u128), 32)
}

/* ----------------------------------------------------------------- server */

/// The first place from `from` on where white space stands.
pub open spec fn find_white(s: Seq<char>, from: int) -> Option<int>
    decreases s.len() - from,
{
    if from >= s.len() {
        None
    } else if is_white(s[from]) {
        Some(from)
    } else {
        find_white(s, from + 1)
    }
}

/// Why a request line is turned down.
pub enum Refusal {
    /// It is not a token and a command.
    Malformed,
    /// The token is not the secret.
    BadToken,
    /// The command is none that there is.
    Unknown(String),
}

/// Why a request line is turned down, in mathematical terms.
pub enum RefusalModel {
    Malformed,
    BadToken,
    Unknown(Seq<char>),
}

impl View for Refusal {
    type V = RefusalModel;

    open spec fn view(&self) -> RefusalModel {
        match self {
            Refusal::Malformed => RefusalModel::Malformed,
            Refusal::BadToken => RefusalModel::BadToken,
            Refusal::Unknown(command) => RefusalModel::Unknown(command@),
        }
    }
}

/// What a request line asks for, of a server with this secret.
pub open spec fn authenticated(line: Seq<char>, secret: Seq<char>) -> Result<Command, RefusalModel> {
    let bare = trim(line);
    match find_white(bare, 0) {
        None => Err(RefusalModel::Malformed),
        Some(at) => {
            let command = bare.skip(at + 1);
            if bare.take(at) != secret {
                Err(RefusalModel::BadToken)
            } else {
                match called_command(command) {
                    Some(command) => Ok(command),
                    None => Err(RefusalModel::Unknown(command)),
                }
            }
        },
    }
}

/// Authenticates one request line and finds the command to run.
pub fn respond(line: &str, secret: &str) -> (r: Result<Command, Refusal>)
    ensures
        match authenticated(line@, secret@) {
            Ok(command) => r == Ok::<Command, Refusal>(command),
            Err(refusal) => r matches Err(why) && why@ == refusal,
        },
{
    let bare = trimmed(chars_of(line).as_slice());
    let mut at: usize = 0;
    while at < bare.len() && !white(bare[at])
        invariant
            at <= bare@.len(),
            find_white(bare@, 0) == find_white(bare@, at as int),
        decreases bare@.len() - at,
    {
        at = at + 1;
    }
    if at == bare.len() {
        return Err(Refusal::Malformed);
    }
    assert(bare@.subrange(0, at as int) =~= bare@.take(at as int));
    assert(bare@.subrange(at + 1, bare@.len() as int) =~= bare@.skip(at + 1));
    let presented = text_of(vstd::slice::slice_subrange(bare.as_slice(), 0, at));
    if !same_text(presented.as_str(), secret) {
        return Err(Refusal::BadToken);
    }
    let command = text_of(vstd::slice::slice_subrange(bare.as_slice(), at + 1, bare.len()));
    match Command::parse(command.as_str()) {
        Some(command) => Ok(command),
        None => Err(Refusal::Unknown(command)),
    }
}

/// What became of a command that was passed on.
pub enum Delivery {
    /// There was nobody to take it any more.
    ShuttingDown,
    /// It was taken, and never answered.
    Unanswered,
    /// This is the answer.
    Answered(String),
}

/// The reply to a request line that was turned down.
pub open spec fn refusal_reply(refusal: RefusalModel) -> Seq<char> {
    match refusal {
        RefusalModel::Malformed => "error: malformed request"@,
        RefusalModel::BadToken => "error: bad token"@,
        RefusalModel::Unknown(command) => "error: unknown command "@ + quoted(command),
    }
}

/// Words the reply to a request line that was turned down.
pub fn refusal_text(refusal: &Refusal) -> (r: String)
    ensures
        r@ == refusal_reply(refusal@),
{
    match refusal {
        Refusal::Malformed => owned("error: malformed request"),
        Refusal::BadToken => owned("error: bad token"),
        Refusal::Unknown(command) => {
            let mut out = owned("error: unknown command ");
            out.append(quote(command.as_str()).as_str());
            out
        },
    }
}

/// Words the reply to a command that was passed on.
pub fn delivery_text(delivery: Delivery) -> (r: String)
    ensures
        r@ == match delivery {
            Delivery::ShuttingDown => "error: server is shutting down"@,
            Delivery::Unanswered => "error: no response"@,
            Delivery::Answered(text) => text@,
        },
{
    match delivery {
        Delivery::ShuttingDown => owned("error: server is shutting down"),
        Delivery::Unanswered => owned("error: no response"),
        Delivery::Answered(text) => text,
    }
}

/// Words a failure to open the control channel: where it happened, if it was
/// at a path, and why.
pub fn listen_failure(path: Option<&str>, reason: &str) -> (r: String)
    ensures
        r@ == match path {
            Some(path) => "control channel: "@ + path@ + ": "@ + reason@,
            None => "control channel: "@ + reason@,
        },
{
    let mut out = owned("control channel: ");
    if let Some(path) = path {
        out.append(path);
        out.append(": ");
    }
    out.append(reason);
    out
}

/* ----------------------------------------------------------------- client */

/// How the sending of a command goes on.
pub enum Sending {
    /// Read the candidate with this index.
    Read(usize),
    /// Connect to this port, and send this secret.
    Connect { candidate: usize, port: u16, secret: String },
    /// Give up.
    Failed(String),
}

/// How the sending goes on, in mathematical terms.
pub enum SendingModel {
    Read(int),
    Connect { candidate: int, port: u16, secret: Seq<char> },
    Failed(Seq<char>),
}

impl View for Sending {
    type V = SendingModel;

    open spec fn view(&self) -> SendingModel {
        match self {
            Sending::Read(index) => SendingModel::Read(*index as int),
            Sending::Connect { candidate, port, secret } => SendingModel::Connect {
                candidate: *candidate as int,
                port: *port,
                secret: secret@,
            },
            Sending::Failed(text) => SendingModel::Failed(text@),
        }
    }
}

/// What became of reading a candidate.
pub enum Candidate {
    /// It holds this.
    Found(String),
    /// There is no such file.
    Missing,
    /// It could not be read, and why.
    Unreadable(String),
}

/// What is reported where no candidate exists.
pub open spec fn no_server_text(workspace: Seq<char>) -> Seq<char> {
    "no Live Reload server for "@ + workspace
        + ".\nThe editor has to be open on that project with a file open in it."@
}

/// How it goes on with the candidate with this index: it is read, unless there
/// are no more.
pub open spec fn candidate_turn(workspace: Seq<char>, count: int, index: int) -> SendingModel {
    if index < count {
        SendingModel::Read(index)
    } else {
        SendingModel::Failed(no_server_text(workspace))
    }
}

/// How it goes on with a state file that was found.
pub open spec fn state_taken(state: Seq<char>, index: int) -> SendingModel {
    let malformed = SendingModel::Failed("state file is malformed"@);
    match field_value(state, "control_port"@) {
        Some(number) => match parse_unsigned(number, u16::MAX as nat) {
            Some(port) => match field_value(state, "token"@) {
                Some(secret) => SendingModel::Connect {
                    candidate: index,
                    port: port as u16,
                    secret,
                },
                None => malformed,
            },
            None => malformed,
        },
        None => malformed,
    }
}

/// How it goes on once a candidate was read: the first that exists counts.
pub open spec fn candidate_taken(
    workspace: Seq<char>,
    candidates: Seq<Seq<char>>,
    index: int,
    candidate: Candidate,
) -> SendingModel {
    match candidate {
        Candidate::Found(state) => state_taken(state@, index),
        Candidate::Missing => candidate_turn(workspace, candidates.len() as int, index + 1),
        Candidate::Unreadable(reason) => SendingModel::Failed(
            candidates[index] + ": "@ + reason@,
        ),
    }
}

fn take_turn(workspace: &str, count: usize, index: usize) -> (r: Sending)
    ensures
        r@ == candidate_turn(workspace@, count as int, index as int),
{
    if index < count {
        return Sending::Read(index);
    }
    let mut out = owned("no Live Reload server for ");
    out.append(workspace);
    out.append(".\nThe editor has to be open on that project with a file open in it.");
    Sending::Failed(out)
}

/// Begins to send a command to the language server owning `workspace`, whose
/// state file is in one of the candidate places.
///
/// Each candidate directory is tried, so an environment mismatch between the
/// editor and this process does not read as "no server".
pub fn send(workspace: &str, candidates: &Vec<String>) -> (r: Sending)
    ensures
        r@ == candidate_turn(workspace@, candidates@.len() as int, 0),
{
    take_turn(workspace, candidates.len(), 0)
}

/// Finds in a state file how to reach the server.
pub fn read_state(state: &str, index: usize) -> (r: Sending)
    ensures
        r@ == state_taken(state@, index as int),
{
    let number = match field(state, "control_port") {
        Some(number) => number,
        None => {
            return Sending::Failed(owned("state file is malformed"));
        },
    };
    let port = match parse_number(chars_of(number.as_str()).as_slice(), u16::MAX as u64) {
        Some(port) => port,
        None => {
            return Sending::Failed(owned("state file is malformed"));
        },
    };
    proof {
        lemma_port_fits(number@);
    }
    match field(state, "token") {
        Some(secret) => Sending::Connect { candidate: index, port: port as u16, secret },
        None => Sending::Failed(owned("state file is malformed")),
    }
}

proof fn lemma_port_fits(number: Seq<char>)
    ensures
        parse_unsigned(number, u16::MAX as nat) matches Some(port) ==> port <= u16::MAX,
{
}

/// Goes on once the candidate with this index was read.
pub fn candidate_read(
    workspace: &str,
    candidates: &Vec<String>,
    index: usize,
    candidate: Candidate,
) -> (r: Sending)
    requires
        index < candidates@.len(),
    ensures
        r@ == candidate_taken(workspace@, texts(candidates@), index as int, candidate),
{
    match candidate {
        Candidate::Found(state) => read_state(state.as_str(), index),
        Candidate::Missing => take_turn(workspace, candidates.len(), index + 1),
        Candidate::Unreadable(reason) => {
            assert(texts(candidates@)[index as int] == candidates@[index as int]@);
            let mut out = owned(candidates[index].as_str());
            out.append(": ");
            out.append(reason.as_str());
            Sending::Failed(out)
        },
    }
}

/// What is reported where nobody listens on the port that a state file names.
/// A leftover file from a server that has since exited is the common case
/// here, and saying so is more useful than the raw connect error.
pub fn connect_failure(workspace: &str, reason: &str) -> (r: String)
    ensures
        r@ == "Live Reload is not running for "@ + workspace@ + " ("@ + reason@ + ")"@,
{
    let mut out = owned("Live Reload is not running for ");
    out.append(workspace);
    out.append(" (");
    out.append(reason);
    out.append(")");
    out
}

/// The line that asks a server to run a command.
pub open spec fn request_text(secret: Seq<char>, command: Command) -> Seq<char> {
    secret + " "@ + command_name(command) + "\n"@
}

/// Writes the line that asks a server to run a command.
pub fn request_line(secret: &str, command: Command) -> (r: String)
    ensures
        r@ == request_text(secret@, command),
{
    let mut out = owned(secret);
    out.append(" ");
    out.append(command.as_str());
    out.append("\n");
    out
}

/// What a reply means to the one who sent the command.
pub open spec fn reply_meaning(line: Seq<char>) -> Result<Seq<char>, Seq<char>> {
    let text = trim(line);
    if occurs_at(text, "error: "@, 0) {
        Err(text.skip("error: "@.len() as int))
    } else {
        Ok(text)
    }
}

/// Tells a reply from a reported error.
pub fn read_reply(line: &str) -> (r: Result<String, String>)
    ensures
        match reply_meaning(line@) {
            Ok(text) => r matches Ok(said) && said@ == text,
            Err(text) => r matches Err(said) && said@ == text,
        },
{
    let text = trimmed(chars_of(line).as_slice());
    let marker = chars_of("error: ");
    if begins_with(text.as_slice(), marker.as_slice()) {
        assert(text@.subrange(marker@.len() as int, text@.len() as int) =~= text@.skip(
            marker@.len() as int,
        ));
        let message = vstd::slice::slice_subrange(text.as_slice(), marker.len(), text.len());
        return Err(text_of(message));
    }
    Ok(text_of(text.as_slice()))
}

} // verus!
