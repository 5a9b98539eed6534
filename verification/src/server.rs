//! Server lifecycle: starting, stopping and addressing one workspace's server.

use vstd::prelude::*;
use vstd::utf8::encode_utf8;

use crate::config::{maybe, refusals, Config, ConfigModel, PORT_SCAN_LIMIT};
use crate::http::named;
use crate::number::{decimal, decimal_of};
use crate::path::{
    components, components_of, join_path, join_paths, names_something, relative_to, strip_base,
};
use crate::text::{
    chars_of, is_white, join, joined, lemma_texts_push, owned, same_text, strip_leading,
    strip_trailing, text_of, texts, white, without_leading, without_trailing,
};
use crate::urls::{encode_segment, percent_encoded};

verus! {

/// Capacity of the reload broadcast. Generous enough that a bulk change does
/// not lag a browser that is merely slow to be scheduled.
pub const RELOAD_CAPACITY: usize = 64;

/* ------------------------------------------------------------------ status */

/// What the editor should show about a workspace's server.
#[derive(Debug, Clone, PartialEq, Eq)]
pub enum Status {
    Stopped,
    Running { host: String, port: u16 },
}

/// What a status says.
pub enum StatusModel {
    Stopped,
    Running { host: Seq<char>, port: u16 },
}

impl View for Status {
    type V = StatusModel;

    open spec fn view(&self) -> StatusModel {
        match self {
            Status::Stopped => StatusModel::Stopped,
            Status::Running { host, port } => StatusModel::Running { host: host@, port: *port },
        }
    }
}

/// Where a running server is reached.
struct Instance {
    host: String,
    port: u16,
}

/// Owns the server for a single workspace folder.
pub struct LiveServer {
    workspace: String,
    instance: Option<Instance>,
}

/// What is known of a workspace's server.
pub struct LiveServerModel {
    pub workspace: Seq<char>,
    pub status: StatusModel,
}

impl View for LiveServer {
    type V = LiveServerModel;

    closed spec fn view(&self) -> LiveServerModel {
        LiveServerModel {
            workspace: self.workspace@,
            status: match self.instance {
                Some(instance) => StatusModel::Running { host: instance.host@, port: instance.port },
                None => StatusModel::Stopped,
            },
        }
    }
}

/* --------------------------------------------------------------- addresses */

/// The document root that the `root` setting means.
pub open spec fn root_under(workspace: Seq<char>, root: Seq<char>) -> Seq<char> {
    let trimmed = strip_trailing(strip_leading(root, '/'), '/');
    if trimmed.len() == 0 {
        workspace
    } else {
        join_path(workspace, trimmed)
    }
}

/// Resolves the document root from the workspace and the `root` setting.
pub fn document_root(workspace: &str, root: &str) -> (r: String)
    ensures
        r@ == root_under(workspace@, root@),
{
    let front = without_leading(chars_of(root).as_slice(), '/');
    let trimmed = without_trailing(front.as_slice(), '/');
    if trimmed.len() == 0 {
        owned(workspace)
    } else {
        join_paths(workspace, text_of(trimmed.as_slice()).as_str())
    }
}

/// An address to browse to, for an address to bind.
pub open spec fn browsable_host(host: Seq<char>) -> Seq<char> {
    if host == "0.0.0.0"@ {
        "127.0.0.1"@
    } else if host == "::"@ || host == "[::]"@ {
        "[::1]"@
    } else {
        host
    }
}

/// A bind address is not always something you can point a browser at.
pub fn displayable_host(host: &str) -> (r: String)
    ensures
        r@ == browsable_host(host@),
{
    if same_text(host, "0.0.0.0") {
        owned("127.0.0.1")
    } else if same_text(host, "::") || same_text(host, "[::]") {
        owned("[::1]")
    } else {
        owned(host)
    }
}

/// Each part of a path, percent-encoded.
pub open spec fn encoded_parts(parts: Seq<Seq<char>>) -> Seq<Seq<char>> {
    Seq::new(parts.len(), |i: int| percent_encoded(encode_utf8(parts[i])))
}

/// A relative path as it stands in a URL.
pub open spec fn url_path(path: Seq<char>) -> Seq<char> {
    join(encoded_parts(named(components(path))), "/"@)
}

/// Percent-encodes a relative path for use in a URL.
pub fn encode_url_path(path: &str) -> (r: String)
    ensures
        r@ == url_path(path@),
{
    let parts = components_of(path);
    let ghost all = components(path@);
    let mut out: Vec<String> = Vec::new();
    assert(all.take(0) =~= Seq::<Seq<char>>::empty());
    assert(texts(out@) =~= encoded_parts(named(all.take(0))));
    for i in 0..parts.len()
        invariant
            texts(parts@) == all,
            texts(out@) == encoded_parts(named(all.take(i as int))),
    {
        broadcast use lemma_texts_push;

        let part = parts[i].as_str();
        proof {
            assert(part@ == all[i as int]);
            assert(all.take(i + 1).drop_last() =~= all.take(i as int));
            assert(all.take(i + 1).last() == part@);
        }
        if names_something(part) {
            let ghost before = named(all.take(i as int));
            out.push(encode_segment(part));
            assert(texts(out@) =~= encoded_parts(before.push(part@)));
        }
    }
    assert(all.take(parts.len() as int) =~= all);
    joined(&out, "/")
}

/// The address of a file, or of the site, on a running server.
pub open spec fn url_text(
    host: Seq<char>,
    port: u16,
    workspace: Seq<char>,
    root: Seq<char>,
    file: Option<Seq<char>>,
) -> Seq<char> {
    let base = root_under(workspace, root);
    let relative = match file {
        Some(file) => match relative_to(file, base) {
            Some(rest) => url_path(rest),
            None => Seq::empty(),
        },
        None => Seq::empty(),
    };
    "http://"@ + browsable_host(host) + ":"@ + decimal(port as nat) + "/"@ + relative
}

/// The address of a file on a server, if that is running.
pub open spec fn url_on(
    server: LiveServerModel,
    file: Option<Seq<char>>,
    config: ConfigModel,
) -> Option<Seq<char>> {
    match server.status {
        StatusModel::Running { host, port } => Some(
            url_text(host, port, server.workspace, config.root, file),
        ),
        StatusModel::Stopped => None,
    }
}

/* --------------------------------------------------------------- lifecycle */

/// What has to be known before a server is up.
pub enum StartCheck {
    /// It is up already, on this port.
    Running(u16),
    /// Whether this directory exists.
    Root(String),
}

/// What a start needs to know, in mathematical terms.
pub enum StartCheckModel {
    Running(u16),
    Root(Seq<char>),
}

impl View for StartCheck {
    type V = StartCheckModel;

    open spec fn view(&self) -> StartCheckModel {
        match self {
            StartCheck::Running(port) => StartCheckModel::Running(*port),
            StartCheck::Root(root) => StartCheckModel::Root(root@),
        }
    }
}

/// How the outside work of a start came out.
pub enum Launch {
    /// The document root is not a directory.
    NoRoot,
    /// No port could be bound, and why.
    Unbound(String),
    /// A port was bound. The watcher is up, or why it is not.
    Bound { port: u16, watching: Result<(), String> },
}

/// What a failed start reports.
pub open spec fn no_root_text(root: Seq<char>) -> Seq<char> {
    "document root "@ + root + " does not exist"@
}

/// The warnings of a start: the patterns that were refused, then the watcher
/// that could not be had.
pub open spec fn start_warnings(config: ConfigModel, watching: Result<(), String>) -> Seq<Seq<char>> {
    match watching {
        Ok(_) => refusals(config.ignore_files),
        Err(reason) => refusals(config.ignore_files).push(
            "file watching unavailable: "@ + reason@,
        ),
    }
}

impl LiveServer {
    /// The server of a workspace, not running.
    pub fn new(workspace: String) -> (r: LiveServer)
        ensures
            r@ == (LiveServerModel { workspace: workspace@, status: StatusModel::Stopped }),
    {
        LiveServer { workspace, instance: None }
    }

    /// Another value that says the same.
    pub fn duplicate(&self) -> (r: LiveServer)
        ensures
            r@ == self@,
    {
        LiveServer {
            workspace: owned(self.workspace.as_str()),
            instance: match &self.instance {
                Some(instance) => Some(
                    Instance { host: owned(instance.host.as_str()), port: instance.port },
                ),
                None => None,
            },
        }
    }

    /// The workspace that the server belongs to.
    pub fn workspace(&self) -> (r: &str)
        ensures
            r@ == self@.workspace,
    {
        self.workspace.as_str()
    }

    /// Whether the server is running, and where.
    pub fn status(&self) -> (r: Status)
        ensures
            r@ == self@.status,
    {
        match &self.instance {
            Some(instance) => Status::Running {
                host: owned(instance.host.as_str()),
                port: instance.port,
            },
            None => Status::Stopped,
        }
    }

    /// What has to be known before the server can be started.
    pub fn start_check(&self, config: &Config) -> (r: StartCheck)
        ensures
            r@ == match self@.status {
                StatusModel::Running { host, port } => StartCheckModel::Running(port),
                StatusModel::Stopped => StartCheckModel::Root(
                    root_under(self@.workspace, config@.root),
                ),
            },
    {
        match &self.instance {
            Some(instance) => StartCheck::Running(instance.port),
            None => StartCheck::Root(
                document_root(self.workspace.as_str(), config.root.as_str()),
            ),
        }
    }

    /// Starts the server, or returns the existing address if already running.
    ///
    /// Warnings about the configuration are returned alongside the port rather
    /// than raised as errors, so a bad ignore glob does not stop a server that
    /// is otherwise fine from coming up. Losing the watcher costs automatic
    /// reloads but the server is still useful, so that is reported too rather
    /// than fatal.
    pub fn start(&mut self, config: &Config, launch: Launch) -> (r: Result<
        (u16, Vec<String>),
        String,
    >)
        ensures
            final(self)@.workspace == old(self)@.workspace,
            match old(self)@.status {
                StatusModel::Running { host, port } => {
                    &&& r matches Ok((at, warnings))
                    &&& at == port
                    &&& warnings@.len() == 0
                    &&& final(self)@.status == old(self)@.status
                },
                StatusModel::Stopped => match launch {
                    Launch::NoRoot => {
                        &&& r matches Err(text)
                        &&& text@ == no_root_text(root_under(old(self)@.workspace, config@.root))
                        &&& final(self)@.status == old(self)@.status
                    },
                    Launch::Unbound(reason) => {
                        &&& r matches Err(text)
                        &&& text@ == reason@
                        &&& final(self)@.status == old(self)@.status
                    },
                    Launch::Bound { port, watching } => {
                        &&& r matches Ok((at, warnings))
                        &&& at == port
                        &&& texts(warnings@) == start_warnings(config@, watching)
                        &&& final(self)@.status == (StatusModel::Running {
                            host: config@.host,
                            port,
                        })
                    },
                },
            },
    {
        broadcast use lemma_texts_push;

        if let Some(instance) = &self.instance {
            return Ok((instance.port, Vec::new()));
        }
        match launch {
            Launch::NoRoot => {
                let root = document_root(self.workspace.as_str(), config.root.as_str());
                let mut text = owned("document root ");
                text.append(root.as_str());
                text.append(" does not exist");
                Err(text)
            },
            Launch::Unbound(reason) => Err(reason),
            Launch::Bound { port, watching } => {
                let (_ignore, mut warnings) = config.ignore_set();
                if let Err(reason) = watching {
                    let mut text = owned("file watching unavailable: ");
                    text.append(reason.as_str());
                    warnings.push(text);
                }
                self.instance = Some(Instance { host: owned(config.host.as_str()), port });
                Ok((port, warnings))
            },
        }
    }

    /// Stops the server. Returns whether one was running.
    pub fn stop(&mut self) -> (r: bool)
        ensures
            r == (old(self)@.status is Running),
            final(self)@ == (LiveServerModel {
                workspace: old(self)@.workspace,
                status: StatusModel::Stopped,
            }),
    {
        let running = self.instance.is_some();
        self.instance = None;
        running
    }

    /// Stops the server and starts it again.
    pub fn restart(&mut self, config: &Config, launch: Launch) -> (r: Result<
        (u16, Vec<String>),
        String,
    >)
        ensures
            final(self)@.workspace == old(self)@.workspace,
            match launch {
                Launch::NoRoot => {
                    &&& r matches Err(text)
                    &&& text@ == no_root_text(root_under(old(self)@.workspace, config@.root))
                    &&& final(self)@.status is Stopped
                },
                Launch::Unbound(reason) => {
                    &&& r matches Err(text)
                    &&& text@ == reason@
                    &&& final(self)@.status is Stopped
                },
                Launch::Bound { port, watching } => {
                    &&& r matches Ok((at, warnings))
                    &&& at == port
                    &&& texts(warnings@) == start_warnings(config@, watching)
                    &&& final(self)@.status == (StatusModel::Running { host: config@.host, port })
                },
            },
    {
        let _ = self.stop();
        self.start(config, launch)
    }

    /// Whether there is anything to broadcast a reload to.
    pub fn notify(&self) -> (r: bool)
        ensures
            r == (self@.status is Running),
    {
        self.instance.is_some()
    }

    /// Builds the browsable URL for a file inside the workspace.
    pub fn url_for(&self, file: Option<&str>, config: &Config) -> (r: Option<String>)
        ensures
            maybe(r) == url_on(
                self@,
                match file {
                    Some(file) => Some(file@),
                    None => None,
                },
                config@,
            ),
    {
        match &self.instance {
            None => None,
            Some(instance) => {
                let root = document_root(self.workspace.as_str(), config.root.as_str());
                let relative = match file {
                    Some(file) => match strip_base(file, root.as_str()) {
                        Some(rest) => encode_url_path(rest.as_str()),
                        None => String::new(),
                    },
                    None => String::new(),
                };
                let mut url = owned("http://");
                url.append(displayable_host(instance.host.as_str()).as_str());
                url.append(":");
                url.append(decimal_of(instance.port as u64).as_str());
                url.append("/");
                url.append(relative.as_str());
                assert(url@ =~= url_on(
                    self@,
                    match file {
                        Some(file) => Some(file@),
                        None => None,
                    },
                    config@,
                )->0);
                Some(url)
            },
        }
    }
}

/* ------------------------------------------------------------------ binding */

/// How far the search for a port has come.
pub enum Binding {
    /// Any free port will do: bind this address.
    Any { address: String },
    /// Try this port, which lies this far above the configured one.
    Try { address: String, port: u16, offset: u16 },
    /// There is no port, and why.
    Failed(String),
}

/// How far the search has come, in mathematical terms.
pub enum BindingModel {
    Any { address: Seq<char> },
    Try { address: Seq<char>, port: u16, offset: u16 },
    Failed(Seq<char>),
}

impl View for Binding {
    type V = BindingModel;

    open spec fn view(&self) -> BindingModel {
        match self {
            Binding::Any { address } => BindingModel::Any { address: address@ },
            Binding::Try { address, port, offset } => BindingModel::Try {
                address: address@,
                port: *port,
                offset: *offset,
            },
            Binding::Failed(text) => BindingModel::Failed(text@),
        }
    }
}

/// A host and a port, as an address.
pub open spec fn address_text(host: Seq<char>, port: nat) -> Seq<char> {
    host + ":"@ + decimal(port)
}

/// What is reported where no port is free.
pub open spec fn no_port_text(config: ConfigModel, last_error: Seq<char>) -> Seq<char> {
    let end: int = if config.port + PORT_SCAN_LIMIT <= u16::MAX {
        config.port + PORT_SCAN_LIMIT
    } else {
        u16::MAX as int
    };
    "no free port in "@ + decimal(config.port as nat) + ".."@ + decimal(end as nat) + " on "@
        + config.host + " ("@ + last_error + ")"@
}

/// What is reported where an address cannot be bound.
pub open spec fn unbound_text(address: Seq<char>, reason: Seq<char>) -> Seq<char> {
    "could not bind "@ + address + ": "@ + reason
}

/// The try at an offset from the configured port: ports are tried one after
/// the other, up to the limit and to the last port there is.
pub open spec fn bind_try(config: ConfigModel, offset: int, last_error: Seq<char>) -> BindingModel {
    if offset < PORT_SCAN_LIMIT && config.port + offset <= u16::MAX {
        let port = (config.port + offset) as u16;
        BindingModel::Try {
            address: address_text(config.host, port as nat),
            port,
            offset: offset as u16,
        }
    } else {
        BindingModel::Failed(no_port_text(config, last_error))
    }
}

/// How the search for a port begins. Port 0 is honoured as any free port.
pub open spec fn first_binding(config: ConfigModel) -> BindingModel {
    if config.port == 0 {
        BindingModel::Any { address: address_text(config.host, 0) }
    } else {
        bind_try(config, 0, Seq::empty())
    }
}

fn address_of(host: &str, port: u16) -> (r: String)
    ensures
        r@ == address_text(host@, port as nat),
{
    let mut out = owned(host);
    out.append(":");
    out.append(decimal_of(port as u64).as_str());
    out
}

fn try_port(config: &Config, offset: u16, last_error: &str) -> (r: Binding)
    requires
        offset <= PORT_SCAN_LIMIT,
    ensures
        r@ == bind_try(config@, offset as int, last_error@),
{
    if offset < PORT_SCAN_LIMIT && config.port <= u16::MAX - offset {
        let port: u16 = config.port + offset;
        return Binding::Try { address: address_of(config.host.as_str(), port), port, offset };
    }
    let end: u16 = if config.port <= u16::MAX - PORT_SCAN_LIMIT {
        config.port + PORT_SCAN_LIMIT
    } else {
        u16::MAX
    };
    let mut text = owned("no free port in ");
    text.append(decimal_of(config.port as u64).as_str());
    text.append("..");
    text.append(decimal_of(end as u64).as_str());
    text.append(" on ");
    text.append(config.host.as_str());
    text.append(" (");
    text.append(last_error);
    text.append(")");
    Binding::Failed(text)
}

/// Begins the search for a port.
///
/// Port 0 is honoured as "any free port" rather than scanned, since that is
/// what the operating system already means by it.
pub fn bind(config: &Config) -> (r: Binding)
    ensures
        r@ == first_binding(config@),
{
    if config.port == 0 {
        Binding::Any { address: address_of(config.host.as_str(), 0) }
    } else {
        try_port(config, 0, "")
    }
}

/// Why an address could not be bound.
pub enum BindError {
    /// Something else is listening there.
    InUse(String),
    /// Anything else.
    Other(String),
}

/// How the search goes on where an address could not be bound. Only an address
/// that is taken is followed by the next one, and only where the host is an
/// address in itself: a host name is left to the resolver, and given up on.
/// `parsed` is the address as it is written once it has been parsed, or nothing
/// where the host is a name. A port that was any free one is reported as it was
/// configured.
pub open spec fn next_binding(
    tried: BindingModel,
    parsed: Option<Seq<char>>,
    error: BindError,
    config: ConfigModel,
) -> BindingModel {
    let reason = match error {
        BindError::InUse(text) => text@,
        BindError::Other(text) => text@,
    };
    match tried {
        BindingModel::Any { address } => BindingModel::Failed(unbound_text(address, reason)),
        BindingModel::Try { address, port, offset } => match parsed {
            Some(literal) => if error is InUse {
                bind_try(config, offset + 1, reason)
            } else {
                BindingModel::Failed(unbound_text(literal, reason))
            },
            None => BindingModel::Failed(unbound_text(address, reason)),
        },
        BindingModel::Failed(text) => BindingModel::Failed(text),
    }
}

fn unbound(address: &str, reason: &str) -> (r: String)
    ensures
        r@ == unbound_text(address@, reason@),
{
    let mut text = owned("could not bind ");
    text.append(address);
    text.append(": ");
    text.append(reason);
    text
}

/// Goes on with the search where an address could not be bound. `parsed` is the
/// address as it is written once it has been parsed, or nothing where the host
/// is a name rather than an address in itself.
pub fn bind_next(
    tried: Binding,
    parsed: Option<String>,
    error: BindError,
    config: &Config,
) -> (r: Binding)
    ensures
        r@ == next_binding(tried@, maybe(parsed), error, config@),
{
    match tried {
        Binding::Any { address } => {
            let reason = match error {
                BindError::InUse(reason) => reason,
                BindError::Other(reason) => reason,
            };
            Binding::Failed(unbound(address.as_str(), reason.as_str()))
        },
        Binding::Try { address, port: _, offset } => match (parsed, error) {
            (Some(_), BindError::InUse(reason)) => {
                let next: u16 = if offset < PORT_SCAN_LIMIT {
                    offset + 1
                } else {
                    PORT_SCAN_LIMIT
                };
                try_port(config, next, reason.as_str())
            },
            (Some(literal), BindError::Other(reason)) => Binding::Failed(
                unbound(literal.as_str(), reason.as_str()),
            ),
            (None, BindError::InUse(reason)) => Binding::Failed(
                unbound(address.as_str(), reason.as_str()),
            ),
            (None, BindError::Other(reason)) => Binding::Failed(
                unbound(address.as_str(), reason.as_str()),
            ),
        },
        Binding::Failed(text) => Binding::Failed(text),
    }
}

/// A port that is tried is never below the configured one, and at most the
/// limit less one above it; and a search that goes on goes up by one port.
pub proof fn law_ports_are_scanned_upward(
    tried: BindingModel,
    parsed: Option<Seq<char>>,
    error: BindError,
    config: ConfigModel,
)
    requires
        tried matches BindingModel::Try { address, port, offset } ==> bind_try(
            config,
            offset as int,
            Seq::empty(),
        ) == tried,
    ensures
        next_binding(tried, parsed, error, config) matches BindingModel::Try {
            address,
            port,
            offset,
        } ==> {
            &&& tried matches BindingModel::Try { address: _, port: before, offset: count }
            &&& port == before + 1
            &&& offset == count + 1
            &&& config.port < port < config.port + PORT_SCAN_LIMIT
            &&& address == address_text(config.host, port as nat)
        },
{
}

/* ----------------------------------------------------------------- browsers */

/// The words of a text, separated by white space; `pending` is the word that
/// is being read.
pub open spec fn words_from(s: Seq<char>, i: int, pending: Seq<char>) -> Seq<Seq<char>>
    decreases s.len() - i,
{
    if i >= s.len() {
        if pending.len() > 0 {
            seq![pending]
        } else {
            Seq::empty()
        }
    } else if is_white(s[i]) {
        if pending.len() > 0 {
            seq![pending] + words_from(s, i + 1, Seq::empty())
        } else {
            words_from(s, i + 1, Seq::empty())
        }
    } else {
        words_from(s, i + 1, pending.push(s[i]))
    }
}

/// The words of a text, separated by white space.
pub open spec fn words(s: Seq<char>) -> Seq<Seq<char>> {
    words_from(s, 0, Seq::empty())
}

fn words_of(s: &str) -> (r: Vec<String>)
    ensures
        texts(r@) == words(s@),
{
    let c = chars_of(s);
    let mut out: Vec<String> = Vec::new();
    let mut pending: Vec<char> = Vec::new();
    assert(texts(out@) + words_from(s@, 0, Seq::empty()) =~= words(s@));
    assert(pending@ =~= Seq::<char>::empty());
    for i in 0..c.len()
        invariant
            c@ == s@,
            texts(out@) + words_from(s@, i as int, pending@) == words(s@),
    {
        broadcast use lemma_texts_push;

        let ghost before = texts(out@);
        if white(c[i]) {
            if pending.len() > 0 {
                let word = text_of(pending.as_slice());
                out.push(word);
                assert(texts(out@) + words_from(s@, i + 1, Seq::empty()) =~= before + words_from(
                    s@,
                    i as int,
                    pending@,
                ));
            }
            pending = Vec::new();
            assert(pending@ =~= Seq::<char>::empty());
        } else {
            pending.push(c[i]);
        }
    }
    let ghost before = texts(out@);
    if pending.len() > 0 {
        broadcast use lemma_texts_push;

        let word = text_of(pending.as_slice());
        out.push(word);
        assert(texts(out@) =~= before + words_from(s@, s@.len() as int, pending@));
    } else {
        assert(texts(out@) =~= before + words_from(s@, s@.len() as int, pending@));
    }
    out
}

/// The operating system, as far as opening a browser goes.
#[derive(Debug, PartialEq, Eq, Structural, Clone, Copy)]
pub enum Platform {
    Mac,
    Windows,
    Other,
}

/// The program and its arguments that open an address: those of the browser
/// setting, or those by which the system opens anything.
pub open spec fn browser_command(
    url: Seq<char>,
    browser: Option<Seq<char>>,
    platform: Platform,
) -> Option<Seq<Seq<char>>> {
    match browser {
        Some(browser) => if words(browser).len() == 0 {
            None
        } else {
            Some(words(browser).push(url))
        },
        None => match platform {
            Platform::Mac => Some(seq!["open"@, url]),
            Platform::Windows => Some(seq!["cmd"@, "/C"@, "start"@, ""@, url]),
            Platform::Other => Some(seq!["xdg-open"@, url]),
        },
    }
}

/// Decides which program opens a URL in the browser, and with which arguments.
///
/// A browser setting may be a command with arguments, so a user can pass
/// browser flags. On Windows the empty argument is the window title, which
/// `start` would otherwise mistake the URL for.
pub fn open_browser(url: &str, browser: Option<&str>, platform: Platform) -> (r: Result<
    Vec<String>,
    String,
>)
    ensures
        match browser_command(
            url@,
            match browser {
                Some(browser) => Some(browser@),
                None => None,
            },
            platform,
        ) {
            Some(command) => r matches Ok(parts) && texts(parts@) == command,
            None => r matches Err(text) && text@ == "browser setting is empty"@,
        },
{
    match browser {
        Some(browser) => {
            let mut parts = words_of(browser);
            if parts.len() == 0 {
                assert(texts(parts@).len() == 0);
                return Err(owned("browser setting is empty"));
            }
            broadcast use lemma_texts_push;

            parts.push(owned(url));
            Ok(parts)
        },
        None => {
            let parts = match platform {
                Platform::Mac => vec![owned("open"), owned(url)],
                Platform::Windows => vec![
                    owned("cmd"),
                    owned("/C"),
                    owned("start"),
                    owned(""),
                    owned(url),
                ],
                Platform::Other => vec![owned("xdg-open"), owned(url)],
            };
            assert(texts(parts@) =~= browser_command(url@, None, platform)->0);
            Ok(parts)
        },
    }
}

/// What is reported where the browser's program could not be run.
pub fn browser_failure(reason: &str) -> (r: String)
    ensures
        r@ == "could not open browser: "@ + reason@,
{
    let mut text = owned("could not open browser: ");
    text.append(reason);
    text
}

/// The search begins at the configured port, so a server that is restarted
/// asks first for the port that it had.
pub proof fn law_the_configured_port_is_tried_first(config: ConfigModel)
    requires
        config.port != 0,
    ensures
        first_binding(config) == (BindingModel::Try {
            address: address_text(config.host, config.port as nat),
            port: config.port,
            offset: 0,
        }),
{
}

} // verus!
