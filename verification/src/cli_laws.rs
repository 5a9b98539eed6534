//! What each word on the command line does, wherever it stands.

use vstd::prelude::*;

use crate::cli::{
    invoked, options_from, plain_serve, serve_options, site_url, InvocationModel, ServeOptionsModel,
};
use crate::config::{standard_config, ConfigModel};
use crate::control::{called_command, command_name, Command};
use crate::control_laws::law_command_names_round_trip;
use crate::number::{decimal, law_decimal_reads_back, parse_unsigned};
use crate::server::url_text;

verus! {

/// What was read stays read: more words go on from where the others led.
pub proof fn law_options_are_read_in_order(
    words: Seq<Seq<char>>,
    more: Seq<Seq<char>>,
    i: int,
    options: ServeOptionsModel,
)
    requires
        0 <= i <= words.len(),
        options_from(words, i, options) is Ok,
    ensures
        options_from(words + more, i, options) == options_from(
            more,
            0,
            options_from(words, i, options)->Ok_0,
        ),
    decreases words.len() - i,
{
    let all = words + more;
    if i == words.len() {
        lemma_skip_words(words, more, 0, options);
    } else {
        assert(all[i] == words[i]);
        if i + 1 < words.len() {
            assert(all[i + 1] == words[i + 1]);
        }
        let config = options.config;
        if words[i] == "--port"@ {
            let port = parse_unsigned(words[i + 1], u16::MAX as nat)->0;
            law_options_are_read_in_order(
                words,
                more,
                i + 2,
                ServeOptionsModel {
                    config: ConfigModel { port: port as u16, ..config },
                    ..options
                },
            );
        } else if words[i] == "--host"@ {
            law_options_are_read_in_order(
                words,
                more,
                i + 2,
                ServeOptionsModel {
                    config: ConfigModel { host: words[i + 1], ..config },
                    ..options
                },
            );
        } else if words[i] == "--no-browser"@ {
            law_options_are_read_in_order(
                words,
                more,
                i + 1,
                ServeOptionsModel {
                    config: ConfigModel { open_browser: false, ..config },
                    ..options
                },
            );
        } else if words[i] == "--spa"@ {
            law_options_are_read_in_order(
                words,
                more,
                i + 1,
                ServeOptionsModel { config: ConfigModel { spa: true, ..config }, ..options },
            );
        } else if words[i] == "--cors"@ {
            law_options_are_read_in_order(
                words,
                more,
                i + 1,
                ServeOptionsModel { config: ConfigModel { cors: true, ..config }, ..options },
            );
        } else {
            law_options_are_read_in_order(
                words,
                more,
                i + 1,
                ServeOptionsModel { directory: words[i], ..options },
            );
        }
    }
}

proof fn lemma_skip_words(
    words: Seq<Seq<char>>,
    more: Seq<Seq<char>>,
    j: int,
    options: ServeOptionsModel,
)
    requires
        0 <= j,
    ensures
        options_from(words + more, words.len() + j, options) == options_from(more, j, options),
    decreases more.len() - j,
{
    let all = words + more;
    let n = words.len() as int;
    if j < more.len() {
        assert(all[n + j] == more[j]);
        if j + 1 < more.len() {
            assert(all[n + j + 1] == more[j + 1]);
        }
        let config = options.config;
        if more[j] == "--port"@ {
            if j + 1 < more.len() {
                if let Some(port) = parse_unsigned(more[j + 1], u16::MAX as nat) {
                    lemma_skip_words(
                        words,
                        more,
                        j + 2,
                        ServeOptionsModel {
                            config: ConfigModel { port: port as u16, ..config },
                            ..options
                        },
                    );
                }
            }
        } else if more[j] == "--host"@ {
            if j + 1 < more.len() {
                lemma_skip_words(
                    words,
                    more,
                    j + 2,
                    ServeOptionsModel {
                        config: ConfigModel { host: more[j + 1], ..config },
                        ..options
                    },
                );
            }
        } else if more[j] == "--no-browser"@ {
            lemma_skip_words(
                words,
                more,
                j + 1,
                ServeOptionsModel {
                    config: ConfigModel { open_browser: false, ..config },
                    ..options
                },
            );
        } else if more[j] == "--spa"@ {
            lemma_skip_words(
                words,
                more,
                j + 1,
                ServeOptionsModel { config: ConfigModel { spa: true, ..config }, ..options },
            );
        } else if more[j] == "--cors"@ {
            lemma_skip_words(
                words,
                more,
                j + 1,
                ServeOptionsModel { config: ConfigModel { cors: true, ..config }, ..options },
            );
        } else if !(more[j].len() > 0 && more[j][0] == '-') {
            lemma_skip_words(
                words,
                more,
                j + 1,
                ServeOptionsModel { directory: more[j], ..options },
            );
        }
    }
}

proof fn lemma_words_differ()
    ensures
        "--port"@.len() == 6,
        "--host"@.len() == 6,
        "--port"@[2] == 'p',
        "--host"@[2] == 'h',
        "--no-browser"@.len() == 12,
        "--spa"@.len() == 5,
        "--cors"@.len() == 6,
        "--cors"@[2] == 'c',
        "--port"@[0] == '-',
        "--host"@[0] == '-',
        "--no-browser"@[0] == '-',
        "--spa"@[0] == '-',
        "--cors"@[0] == '-',
{
    reveal_strlit("--port");
    reveal_strlit("--host");
    reveal_strlit("--no-browser");
    reveal_strlit("--spa");
    reveal_strlit("--cors");
}

/// Wherever an option stands, it sets what it is for and nothing else: behind
/// any words that can be read, a port sets the port, a host the host, the flags
/// their settings, and a word that is no option the directory.
pub proof fn law_each_option_sets_what_it_is_for(
    words: Seq<Seq<char>>,
    options: ServeOptionsModel,
    port: u16,
    host: Seq<char>,
    directory: Seq<char>,
)
    requires
        serve_options(words) == Ok::<ServeOptionsModel, Seq<char>>(options),
        directory.len() == 0 || directory[0] != '-',
    ensures
        serve_options(words + seq!["--port"@, decimal(port as nat)]) == Ok::<
            ServeOptionsModel,
            Seq<char>,
        >(
            ServeOptionsModel {
                config: ConfigModel { port, ..options.config },
                directory: options.directory,
            },
        ),
        serve_options(words + seq!["--host"@, host]) == Ok::<ServeOptionsModel, Seq<char>>(
            ServeOptionsModel {
                config: ConfigModel { host, ..options.config },
                directory: options.directory,
            },
        ),
        serve_options(words + seq!["--no-browser"@]) == Ok::<ServeOptionsModel, Seq<char>>(
            ServeOptionsModel {
                config: ConfigModel { open_browser: false, ..options.config },
                directory: options.directory,
            },
        ),
        serve_options(words + seq!["--spa"@]) == Ok::<ServeOptionsModel, Seq<char>>(
            ServeOptionsModel {
                config: ConfigModel { spa: true, ..options.config },
                directory: options.directory,
            },
        ),
        serve_options(words + seq!["--cors"@]) == Ok::<ServeOptionsModel, Seq<char>>(
            ServeOptionsModel {
                config: ConfigModel { cors: true, ..options.config },
                directory: options.directory,
            },
        ),
        serve_options(words + seq![directory]) == Ok::<ServeOptionsModel, Seq<char>>(
            ServeOptionsModel { config: options.config, directory },
        ),
{
    let start = plain_serve();
    law_options_are_read_in_order(words, seq!["--port"@, decimal(port as nat)], 0, start);
    lemma_port_alone(port, options);
    law_options_are_read_in_order(words, seq!["--host"@, host], 0, start);
    lemma_host_alone(host, options);
    law_options_are_read_in_order(words, seq!["--no-browser"@], 0, start);
    law_options_are_read_in_order(words, seq!["--spa"@], 0, start);
    law_options_are_read_in_order(words, seq!["--cors"@], 0, start);
    lemma_flags_alone(options);
    law_options_are_read_in_order(words, seq![directory], 0, start);
    lemma_directory_alone(directory, options);
}

proof fn lemma_port_alone(port: u16, options: ServeOptionsModel)
    ensures
        options_from(seq!["--port"@, decimal(port as nat)], 0, options) == Ok::<
            ServeOptionsModel,
            Seq<char>,
        >(
            ServeOptionsModel {
                config: ConfigModel { port, ..options.config },
                directory: options.directory,
            },
        ),
{
    law_decimal_reads_back(port as nat, u16::MAX as nat);
    let words = seq!["--port"@, decimal(port as nat)];
    let after = ServeOptionsModel {
        config: ConfigModel { port, ..options.config },
        ..options
    };
    assert(options_from(words, 2, after) == Ok::<ServeOptionsModel, Seq<char>>(after));
}

proof fn lemma_host_alone(host: Seq<char>, options: ServeOptionsModel)
    ensures
        options_from(seq!["--host"@, host], 0, options) == Ok::<ServeOptionsModel, Seq<char>>(
            ServeOptionsModel {
                config: ConfigModel { host, ..options.config },
                directory: options.directory,
            },
        ),
{
    lemma_words_differ();
    let words = seq!["--host"@, host];
    let after = ServeOptionsModel {
        config: ConfigModel { host, ..options.config },
        ..options
    };
    assert(options_from(words, 2, after) == Ok::<ServeOptionsModel, Seq<char>>(after));
}

proof fn lemma_flags_alone(options: ServeOptionsModel)
    ensures
        options_from(seq!["--no-browser"@], 0, options) == Ok::<ServeOptionsModel, Seq<char>>(
            ServeOptionsModel {
                config: ConfigModel { open_browser: false, ..options.config },
                directory: options.directory,
            },
        ),
        options_from(seq!["--spa"@], 0, options) == Ok::<ServeOptionsModel, Seq<char>>(
            ServeOptionsModel {
                config: ConfigModel { spa: true, ..options.config },
                directory: options.directory,
            },
        ),
        options_from(seq!["--cors"@], 0, options) == Ok::<ServeOptionsModel, Seq<char>>(
            ServeOptionsModel {
                config: ConfigModel { cors: true, ..options.config },
                directory: options.directory,
            },
        ),
{
    lemma_words_differ();
    let config = options.config;
    let quiet = ServeOptionsModel {
        config: ConfigModel { open_browser: false, ..config },
        ..options
    };
    let spa = ServeOptionsModel { config: ConfigModel { spa: true, ..config }, ..options };
    let cors = ServeOptionsModel { config: ConfigModel { cors: true, ..config }, ..options };
    assert(options_from(seq!["--no-browser"@], 1, quiet) == Ok::<ServeOptionsModel, Seq<char>>(
        quiet,
    ));
    assert(options_from(seq!["--spa"@], 1, spa) == Ok::<ServeOptionsModel, Seq<char>>(spa));
    assert(options_from(seq!["--cors"@], 1, cors) == Ok::<ServeOptionsModel, Seq<char>>(cors));
}

proof fn lemma_directory_alone(directory: Seq<char>, options: ServeOptionsModel)
    requires
        directory.len() == 0 || directory[0] != '-',
    ensures
        options_from(seq![directory], 0, options) == Ok::<ServeOptionsModel, Seq<char>>(
            ServeOptionsModel { config: options.config, directory },
        ),
{
    lemma_words_differ();
    let after = ServeOptionsModel { directory, ..options };
    assert(options_from(seq![directory], 1, after) == Ok::<ServeOptionsModel, Seq<char>>(after));
}

/// A word that begins like an option and is none is refused, behind any words
/// that can be read.
pub proof fn law_unknown_options_are_refused(
    words: Seq<Seq<char>>,
    word: Seq<char>,
    more: Seq<Seq<char>>,
)
    requires
        serve_options(words) is Ok,
        word.len() > 0,
        word[0] == '-',
        word != "--port"@,
        word != "--host"@,
        word != "--no-browser"@,
        word != "--spa"@,
        word != "--cors"@,
    ensures
        serve_options(words + (seq![word] + more)) == Err::<ServeOptionsModel, Seq<char>>(
            "unknown option: "@ + word,
        ),
{
    let tail = seq![word] + more;
    assert(tail[0] == word);
    law_options_are_read_in_order(words, tail, 0, plain_serve());
}

/// Every command is run by its name, for the directory that follows it or for
/// the current one, whatever else follows.
pub proof fn law_commands_are_run_by_name(
    command: Command,
    directory: Seq<char>,
    more: Seq<Seq<char>>,
)
    ensures
        invoked(seq![command_name(command)]) == (InvocationModel::Control {
            command,
            directory: "."@,
        }),
        invoked(seq![command_name(command), directory] + more) == (InvocationModel::Control {
            command,
            directory,
        }),
        invoked(Seq::<Seq<char>>::empty()) == InvocationModel::Lsp,
        invoked(seq!["serve"@] + more) == InvocationModel::Serve(more),
{
    law_command_names_round_trip(command);
    reveal_strlit("--help");
    reveal_strlit("-h");
    reveal_strlit("--version");
    reveal_strlit("-V");
    reveal_strlit("serve");
    reveal_strlit("start");
    reveal_strlit("stop");
    reveal_strlit("toggle");
    reveal_strlit("go");
    reveal_strlit("open");
    reveal_strlit("status");
    let name = command_name(command);
    assert(name[0] != '-');
    assert("--help"@[0] == '-' && "-h"@[0] == '-' && "--version"@[0] == '-' && "-V"@[0] == '-');
    assert("serve"@[0] == 's' && "serve"@[1] == 'e' && "serve"@.len() == 5);
    assert(name != "serve"@) by {
        assert("start"@[1] == 't');
    }
    let long = seq![name, directory] + more;
    assert(long[0] == name && long[1] == directory);
    let served = seq!["serve"@] + more;
    assert(served[0] == "serve"@);
    assert(served.skip(1) =~= more);
}

/// An option that is given no value is refused, and so is a port that is no
/// number of a port.
pub proof fn law_options_need_their_values(words: Seq<Seq<char>>, value: Seq<char>)
    requires
        serve_options(words) is Ok,
        parse_unsigned(value, 0xffff) is None,
    ensures
        serve_options(words + seq!["--port"@]) == Err::<ServeOptionsModel, Seq<char>>(
            "--port needs a number"@,
        ),
        serve_options(words + seq!["--port"@, value]) == Err::<ServeOptionsModel, Seq<char>>(
            "--port needs a number"@,
        ),
        serve_options(words + seq!["--host"@]) == Err::<ServeOptionsModel, Seq<char>>(
            "--host needs a value"@,
        ),
{
    lemma_words_differ();
    law_options_are_read_in_order(words, seq!["--port"@], 0, plain_serve());
    law_options_are_read_in_order(words, seq!["--port"@, value], 0, plain_serve());
    law_options_are_read_in_order(words, seq!["--host"@], 0, plain_serve());
}

/// Without options the current directory is served as it is in the editor, but
/// that a browser is opened on it.
pub proof fn law_nothing_need_be_said()
    ensures
        serve_options(Seq::<Seq<char>>::empty()) == Ok::<ServeOptionsModel, Seq<char>>(
            ServeOptionsModel {
                config: ConfigModel { open_browser: true, ..standard_config() },
                directory: "."@,
            },
        ),
{
}

/// Help and the version are asked for by their options, a command in letters of
/// any case, and any other word leaves the program to the editor.
pub proof fn law_what_the_first_word_asks_for(word: Seq<char>, more: Seq<Seq<char>>)
    ensures
        word == "--help"@ || word == "-h"@ ==> invoked(seq![word] + more) == InvocationModel::Help,
        word == "--version"@ || word == "-V"@ ==> invoked(seq![word] + more)
            == InvocationModel::Version,
        word != "--help"@ && word != "-h"@ && word != "--version"@ && word != "-V"@ && word
            != "serve"@ ==> match called_command(word) {
            Some(command) => invoked(seq![word] + more) == (InvocationModel::Control {
                command,
                directory: if more.len() > 0 {
                    more[0]
                } else {
                    "."@
                },
            }),
            None => invoked(seq![word] + more) == InvocationModel::Lsp,
        },
{
    reveal_strlit("--help");
    reveal_strlit("-h");
    reveal_strlit("--version");
    reveal_strlit("-V");
    assert("-h"@[1] == 'h' && "-V"@[1] == 'V');
    assert("--help"@.len() == 6 && "--version"@.len() == 9);
    let all = seq![word] + more;
    assert(all[0] == word);
    if more.len() > 0 {
        assert(all[1] == more[0]);
    }
}

/// The address that is printed is the one that the editor would open.
pub proof fn law_both_ways_to_serve_have_one_address(
    host: Seq<char>,
    port: u16,
    workspace: Seq<char>,
    root: Seq<char>,
)
    ensures
        site_url(host, port) == url_text(host, port, workspace, root, None),
{
    assert(site_url(host, port) =~= url_text(host, port, workspace, root, None));
}

} // verus!
