//! The command line.

use vstd::prelude::*;

use crate::config::{standard_config, Config, ConfigModel};
use crate::control::{called_command, Command};
use crate::number::{decimal, decimal_of, parse_number, parse_unsigned};
use crate::server::{browsable_host, displayable_host};
use crate::text::{chars_of, copy_texts, owned, same_text, texts};

verus! {

/// How the program is used.
pub const USAGE: &'static str = "live-reload-lsp - development server with live reload

USAGE:
    live-reload-lsp [--stdio]        Speak LSP on stdio (the default; used by Zed)
    live-reload-lsp serve [DIR]      Serve a directory directly, without an editor
    live-reload-lsp --version
    live-reload-lsp --help

CONTROLLING THE EDITOR'S SERVER:
    live-reload-lsp go [DIR]         Start and open a browser, or stop if running
    live-reload-lsp toggle [DIR]     Start it if stopped, stop it if running
    live-reload-lsp start [DIR]
    live-reload-lsp stop [DIR]
    live-reload-lsp open [DIR]       Open the site, starting the server if needed
    live-reload-lsp status [DIR]

    These drive the server the editor is already running, so they respect your
    editor settings. DIR defaults to the current directory and must be the root
    of a project open in the editor. Bind one to a key with a Zed task; see the
    README.

SERVE OPTIONS:
    --port <PORT>     Preferred port, scanning upward if taken (default 5500)
    --host <HOST>     Interface to bind (default 127.0.0.1, use 0.0.0.0 for LAN)
    --no-browser      Do not open a browser on start
    --spa             Serve index.html for unknown paths
    --cors            Send permissive CORS headers

Configuration under the editor is read from Zed's settings, not from these
flags. See the README for the full list of options.";

/* ----------------------------------------------------------------- dispatch */

/// What the program is asked to do.
pub enum Invocation {
    /// Print how it is used.
    Help,
    /// Print its version.
    Version,
    /// Serve a directory, with these options.
    Serve(Vec<String>),
    /// Send a command to the editor's server for a directory.
    Control { command: Command, directory: String },
    /// Speak LSP.
    Lsp,
}

/// What the program is asked to do, in mathematical terms.
pub enum InvocationModel {
    Help,
    Version,
    Serve(Seq<Seq<char>>),
    Control { command: Command, directory: Seq<char> },
    Lsp,
}

impl View for Invocation {
    type V = InvocationModel;

    open spec fn view(&self) -> InvocationModel {
        match self {
            Invocation::Help => InvocationModel::Help,
            Invocation::Version => InvocationModel::Version,
            Invocation::Serve(options) => InvocationModel::Serve(texts(options@)),
            Invocation::Control { command, directory } => InvocationModel::Control {
                command: *command,
                directory: directory@,
            },
            Invocation::Lsp => InvocationModel::Lsp,
        }
    }
}

/// What arguments ask for. A command is for the directory that follows it, or
/// for the current one.
pub open spec fn invoked(arguments: Seq<Seq<char>>) -> InvocationModel {
    if arguments.len() == 0 {
        InvocationModel::Lsp
    } else {
        let word = arguments[0];
        if word == "--help"@ || word == "-h"@ {
            InvocationModel::Help
        } else if word == "--version"@ || word == "-V"@ {
            InvocationModel::Version
        } else if word == "serve"@ {
            InvocationModel::Serve(arguments.skip(1))
        } else {
            match called_command(word) {
                Some(command) => InvocationModel::Control {
                    command,
                    directory: if arguments.len() > 1 {
                        arguments[1]
                    } else {
                        "."@
                    },
                },
                None => InvocationModel::Lsp,
            }
        }
    }
}

/// Decides what the program is asked to do.
pub fn dispatch(arguments: &Vec<String>) -> (r: Invocation)
    ensures
        r@ == invoked(texts(arguments@)),
{
    if arguments.len() == 0 {
        return Invocation::Lsp;
    }
    let word = arguments[0].as_str();
    assert(texts(arguments@)[0] == word@);
    if same_text(word, "--help") || same_text(word, "-h") {
        Invocation::Help
    } else if same_text(word, "--version") || same_text(word, "-V") {
        Invocation::Version
    } else if same_text(word, "serve") {
        let mut rest = copy_texts(arguments);
        let ghost all = texts(rest@);
        let _ = rest.remove(0);
        assert(texts(rest@) =~= all.skip(1));
        Invocation::Serve(rest)
    } else {
        match Command::parse(word) {
            Some(command) => {
                let directory = if arguments.len() > 1 {
                    assert(texts(arguments@)[1] == arguments@[1]@);
                    owned(arguments[1].as_str())
                } else {
                    owned(".")
                };
                Invocation::Control { command, directory }
            },
            None => Invocation::Lsp,
        }
    }
}

/* -------------------------------------------------------------------- serve */

/// How to serve a directory.
pub struct ServeOptions {
    pub config: Config,
    pub directory: String,
}

/// How to serve a directory, in mathematical terms.
pub struct ServeOptionsModel {
    pub config: ConfigModel,
    pub directory: Seq<char>,
}

impl View for ServeOptions {
    type V = ServeOptionsModel;

    open spec fn view(&self) -> ServeOptionsModel {
        ServeOptionsModel { config: self.config@, directory: self.directory@ }
    }
}

/// How a directory is served where nothing is said: the current one, with a
/// browser opened on it.
pub open spec fn plain_serve() -> ServeOptionsModel {
    ServeOptionsModel {
        config: ConfigModel { open_browser: true, ..standard_config() },
        directory: "."@,
    }
}

/// What the arguments from `i` on make of the options so far.
pub open spec fn options_from(
    arguments: Seq<Seq<char>>,
    i: int,
    options: ServeOptionsModel,
) -> Result<ServeOptionsModel, Seq<char>>
    decreases arguments.len() - i,
{
    let config = options.config;
    if i >= arguments.len() {
        Ok(options)
    } else if arguments[i] == "--port"@ {
        if i + 1 < arguments.len() {
            match parse_unsigned(arguments[i + 1], u16::MAX as nat) {
                Some(port) => options_from(
                    arguments,
                    i + 2,
                    ServeOptionsModel {
                        config: ConfigModel { port: port as u16, ..config },
                        ..options
                    },
                ),
                None => Err("--port needs a number"@),
            }
        } else {
            Err("--port needs a number"@)
        }
    } else if arguments[i] == "--host"@ {
        if i + 1 < arguments.len() {
            options_from(
                arguments,
                i + 2,
                ServeOptionsModel {
                    config: ConfigModel { host: arguments[i + 1], ..config },
                    ..options
                },
            )
        } else {
            Err("--host needs a value"@)
        }
    } else if arguments[i] == "--no-browser"@ {
        options_from(
            arguments,
            i + 1,
            ServeOptionsModel {
                config: ConfigModel { open_browser: false, ..config },
                ..options
            },
        )
    } else if arguments[i] == "--spa"@ {
        options_from(
            arguments,
            i + 1,
            ServeOptionsModel { config: ConfigModel { spa: true, ..config }, ..options },
        )
    } else if arguments[i] == "--cors"@ {
        options_from(
            arguments,
            i + 1,
            ServeOptionsModel { config: ConfigModel { cors: true, ..config }, ..options },
        )
    } else if arguments[i].len() > 0 && arguments[i][0] == '-' {
        Err("unknown option: "@ + arguments[i])
    } else {
        options_from(
            arguments,
            i + 1,
            ServeOptionsModel { directory: arguments[i], ..options },
        )
    }
}

/// How to serve a directory, as arguments say it.
pub open spec fn serve_options(arguments: Seq<Seq<char>>) -> Result<ServeOptionsModel, Seq<char>> {
    options_from(arguments, 0, plain_serve())
}

/// Reads how to serve a directory.
///
/// Standalone there is no editor setting to ask for a browser, so one is opened
/// unless that is declined.
pub fn serve(arguments: &Vec<String>) -> (r: Result<ServeOptions, String>)
    ensures
        match serve_options(texts(arguments@)) {
            Ok(options) => r matches Ok(found) && found@ == options,
            Err(text) => r matches Err(said) && said@ == text,
        },
{
    let mut config = Config::default();
    config.open_browser = true;
    let mut directory = owned(".");
    let ghost all = texts(arguments@);
    let mut i: usize = 0;
    assert(config@ == plain_serve().config);
    while i < arguments.len()
        invariant
            i <= arguments@.len(),
            all == texts(arguments@),
            serve_options(all) == options_from(
                all,
                i as int,
                ServeOptionsModel { config: config@, directory: directory@ },
            ),
        decreases arguments@.len() - i,
    {
        let word = arguments[i].as_str();
        assert(all[i as int] == word@);
        if same_text(word, "--port") {
            if i + 1 >= arguments.len() {
                return Err(owned("--port needs a number"));
            }
            let value = arguments[i + 1].as_str();
            assert(all[i + 1] == value@);
            match parse_number(chars_of(value).as_slice(), u16::MAX as u64) {
                Some(port) => {
                    config.port = port as u16;
                },
                None => {
                    return Err(owned("--port needs a number"));
                },
            }
            i = i + 1;
        } else if same_text(word, "--host") {
            if i + 1 >= arguments.len() {
                return Err(owned("--host needs a value"));
            }
            let value = arguments[i + 1].as_str();
            assert(all[i + 1] == value@);
            config.host = owned(value);
            i = i + 1;
        } else if same_text(word, "--no-browser") {
            config.open_browser = false;
        } else if same_text(word, "--spa") {
            config.spa = true;
        } else if same_text(word, "--cors") {
            config.cors = true;
        } else {
            let w = chars_of(word);
            if w.len() > 0 && w[0] == '-' {
                let mut text = owned("unknown option: ");
                text.append(word);
                return Err(text);
            }
            directory = owned(word);
        }
        i = i + 1;
    }
    Ok(ServeOptions { config, directory })
}

/// The address of the site that is served.
pub open spec fn site_url(host: Seq<char>, port: u16) -> Seq<char> {
    "http://"@ + browsable_host(host) + ":"@ + decimal(port as nat) + "/"@
}

/// Words the address of the site that is served.
pub fn site_address(host: &str, port: u16) -> (r: String)
    ensures
        r@ == site_url(host@, port),
{
    let mut out = owned("http://");
    out.append(displayable_host(host).as_str());
    out.append(":");
    out.append(decimal_of(port as u64).as_str());
    out.append("/");
    out
}

/// Words what is printed once a directory is being served.
pub fn serving_line(directory: &str, url: &str) -> (r: String)
    ensures
        r@ == "Serving "@ + directory@ + " at "@ + url@,
{
    let mut out = owned("Serving ");
    out.append(directory);
    out.append(" at ");
    out.append(url);
    out
}

/// Words what is printed before the program gives up.
pub fn fail(message: &str) -> (r: String)
    ensures
        r@ == "live-reload-lsp: "@ + message@,
{
    let mut out = owned("live-reload-lsp: ");
    out.append(message);
    out
}

} // verus!
