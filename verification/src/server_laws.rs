//! Where a server is found: its root, its address, its port and its browser.

use vstd::prelude::*;

use crate::config::ConfigModel;
use crate::encoding_laws::{law_plain_text_is_written_as_it_is, stands_for_itself};
use crate::handler_laws::all_names;
use crate::mount_laws::{law_joining_adds_all_names, path_of};
use crate::number::decimal;
use crate::path::{components, join_path, relative_to, within};
use crate::path_laws::law_the_rest_has_the_other_components;
use crate::server::{
    browsable_host, browser_command, encoded_parts, first_binding, next_binding, root_under,
    url_path, url_text, words, words_from, BindError, BindingModel, Platform,
};
use crate::site_laws::{lemma_joined_components, lemma_named_all};
use crate::text::{is_white, strip_trailing};
use crate::text_laws::{all_white, law_stripping_the_end, law_stripping_the_front};

verus! {

/* ------------------------------------------------------------------------ root */

/// The document root lies below the workspace by the names of the `root` setting,
/// with any slashes around them; and is the workspace where there are none.
pub proof fn law_the_root_lies_below_the_workspace(
    workspace: Seq<char>,
    parts: Seq<Seq<char>>,
    before: nat,
    after: nat,
)
    requires
        all_names(parts),
    ensures
        ({
            let slashes = |n: nat| Seq::new(n, |i: int| '/');
            let setting = slashes(before) + path_of(parts) + slashes(after);
            &&& parts.len() > 0 ==> components(root_under(workspace, setting)) == components(
                workspace,
            ) + parts
            &&& parts.len() == 0 ==> root_under(workspace, setting) == workspace
        }),
{
    let front = Seq::new(before, |i: int| '/');
    let behind = Seq::new(after, |i: int| '/');
    let middle = path_of(parts);
    let setting = front + middle + behind;
    lemma_joined_components(parts);
    if parts.len() == 0 {
        let none = Seq::<char>::empty();
        let all = Seq::new((before + after) as nat, |i: int| '/');
        assert(middle =~= none);
        assert(setting =~= all + none);
        law_stripping_the_front((before + after) as nat, '/', none);
        assert(strip_trailing(none, '/') == none);
    } else {
        let rest = middle + behind;
        assert(rest[0] == middle[0]);
        assert(setting =~= front + rest);
        law_stripping_the_front(before, '/', rest);
        law_stripping_the_end(middle, after, '/');
        law_joining_adds_all_names(workspace, parts);
    }
}

/// Whatever the `root` setting holds between its slashes is joined onto the
/// workspace.
pub proof fn law_the_root_setting_is_joined_on(
    workspace: Seq<char>,
    middle: Seq<char>,
    before: nat,
    after: nat,
)
    requires
        middle.len() > 0,
        middle[0] != '/',
        middle.last() != '/',
    ensures
        root_under(
            workspace,
            Seq::new(before, |i: int| '/') + middle + Seq::new(after, |i: int| '/'),
        ) == join_path(workspace, middle),
{
    let front = Seq::new(before, |i: int| '/');
    let behind = Seq::new(after, |i: int| '/');
    let rest = middle + behind;
    assert(rest[0] == middle[0]);
    assert(front + middle + behind =~= front + rest);
    law_stripping_the_front(before, '/', rest);
    law_stripping_the_end(middle, after, '/');
}

/* -------------------------------------------------------------------- addresses */

/// A host is browsed to as it is bound to, but for the two that mean every
/// interface: those are browsed to on the machine itself.
pub proof fn law_hosts_are_browsed_to_as_they_are(host: Seq<char>)
    ensures
        host != seq!['0', '.', '0', '.', '0', '.', '0'] && host != seq![':', ':'] && host
            != seq!['[', ':', ':', ']'] ==> browsable_host(host) == host,
        host == seq!['0', '.', '0', '.', '0', '.', '0'] ==> browsable_host(host) == seq![
            '1',
            '2',
            '7',
            '.',
            '0',
            '.',
            '0',
            '.',
            '1',
        ],
        host == seq![':', ':'] || host == seq!['[', ':', ':', ']'] ==> browsable_host(host) == seq![
            '[',
            ':',
            ':',
            '1',
            ']',
        ],
{
    reveal_strlit("0.0.0.0");
    reveal_strlit("::");
    reveal_strlit("[::]");
    reveal_strlit("127.0.0.1");
    reveal_strlit("[::1]");
    assert("0.0.0.0"@ =~= seq!['0', '.', '0', '.', '0', '.', '0']);
    assert("::"@ =~= seq![':', ':']);
    assert("[::]"@ =~= seq!['[', ':', ':', ']']);
    assert("127.0.0.1"@ =~= seq!['1', '2', '7', '.', '0', '.', '0', '.', '1']);
    assert("[::1]"@ =~= seq!['[', ':', ':', '1', ']']);
    assert("::"@[0] == ':' && "[::]"@[0] == '[' && "0.0.0.0"@[0] == '0');
}

/// Whether names hold only what stands for itself in a URL.
pub open spec fn all_plain(parts: Seq<Seq<char>>) -> bool {
    forall|k: int, i: int|
        0 <= k < parts.len() && 0 <= i < parts[k].len() ==> stands_for_itself(
            #[trigger] parts[k][i],
        )
}

/// The address of a file below the root is the server's, with the names that
/// lead to the file behind it.
pub proof fn law_a_file_has_the_address_of_its_names(
    host: Seq<char>,
    port: u16,
    workspace: Seq<char>,
    root: Seq<char>,
    parts: Seq<Seq<char>>,
)
    requires
        all_names(parts),
        all_plain(parts),
        parts.len() > 0,
    ensures
        url_text(
            host,
            port,
            workspace,
            root,
            Some(join_path(root_under(workspace, root), path_of(parts))),
        ) == "http://"@ + browsable_host(host) + ":"@ + decimal(port as nat) + "/"@ + path_of(
            parts,
        ),
{
    lemma_plain_url_path(root_under(workspace, root), parts);
    law_joining_adds_all_names(root_under(workspace, root), parts);
}

/// Below a base, plain names stand in a URL as they are.
pub proof fn lemma_plain_url_path(base: Seq<char>, parts: Seq<Seq<char>>)
    requires
        all_names(parts),
        all_plain(parts),
        parts.len() > 0,
    ensures
        within(join_path(base, path_of(parts)), base),
        url_path(relative_to(join_path(base, path_of(parts)), base)->0) == path_of(parts),
{
    let file = join_path(base, path_of(parts));
    law_joining_adds_all_names(base, parts);
    law_the_rest_has_the_other_components(file, base);
    assert(components(file).skip(components(base).len() as int) =~= parts);
    lemma_named_all(parts);
    assert forall|k: int| 0 <= k < parts.len() implies #[trigger] encoded_parts(parts)[k]
        == parts[k] by {
        let part = parts[k];
        assert forall|i: int| 0 <= i < part.len() implies stands_for_itself(
            #[trigger] part[i],
        ) by {
            assert(stands_for_itself(parts[k][i]));
        }
        law_plain_text_is_written_as_it_is(part);
    }
    assert(encoded_parts(parts) =~= parts);
    reveal_strlit("/");
    assert("/"@ =~= seq!['/']);
}

/// Without a file, or with one outside the root, the address is that of the
/// site.
pub proof fn law_anything_else_has_the_address_of_the_site(
    host: Seq<char>,
    port: u16,
    workspace: Seq<char>,
    root: Seq<char>,
    file: Option<Seq<char>>,
)
    requires
        file matches Some(path) ==> !within(path, root_under(workspace, root)),
    ensures
        url_text(host, port, workspace, root, file) == "http://"@ + browsable_host(host) + ":"@
            + decimal(port as nat) + "/"@,
{
    assert(url_text(host, port, workspace, root, file) =~= "http://"@ + browsable_host(host) + ":"@
        + decimal(port as nat) + "/"@);
}

/* ------------------------------------------------------------------------ ports */

/// A port that is taken is followed by the next one, as long as fewer than fifty
/// have been tried and there is a next one; else the search ends and says which
/// ports it has tried.
pub proof fn law_a_taken_port_is_followed_by_the_next(
    config: ConfigModel,
    address: Seq<char>,
    parsed: Seq<char>,
    offset: u16,
    reason: String,
)
    requires
        config.port + offset <= 0xffff,
        offset < 50,
    ensures
        ({
            let port = (config.port + offset) as u16;
            let tried = BindingModel::Try { address, port, offset };
            let next = next_binding(tried, Some(parsed), BindError::InUse(reason), config);
            let last: nat = if config.port <= 0xffff - 50 {
                (config.port + 50) as nat
            } else {
                0xffff
            };
            &&& offset < 49 && port < 0xffff ==> next == (BindingModel::Try {
                address: config.host + ":"@ + decimal((port + 1) as nat),
                port: (port + 1) as u16,
                offset: (offset + 1) as u16,
            })
            &&& offset == 49 || port == 0xffff ==> next == BindingModel::Failed(
                "no free port in "@ + decimal(config.port as nat) + ".."@ + decimal(last) + " on "@
                    + config.host + " ("@ + reason@ + ")"@,
            )
        }),
{
}

/// Any other failure ends the search and says which address could not be bound
/// and why: the address that was parsed or, where the host is a name or any port
/// would do, the one that was tried.
pub proof fn law_other_failures_end_the_search(
    config: ConfigModel,
    address: Seq<char>,
    parsed: Seq<char>,
    port: u16,
    offset: u16,
    reason: String,
)
    ensures
        ({
            let tried = BindingModel::Try { address, port, offset };
            let any = BindingModel::Any { address };
            let says = |at: Seq<char>|
                BindingModel::Failed("could not bind "@ + at + ": "@ + reason@);
            &&& next_binding(tried, Some(parsed), BindError::Other(reason), config) == says(parsed)
            &&& next_binding(tried, None, BindError::Other(reason), config) == says(address)
            &&& next_binding(tried, None, BindError::InUse(reason), config) == says(address)
            &&& next_binding(any, Some(parsed), BindError::Other(reason), config) == says(address)
            &&& next_binding(any, Some(parsed), BindError::InUse(reason), config) == says(address)
            &&& next_binding(any, None, BindError::Other(reason), config) == says(address)
            &&& next_binding(any, None, BindError::InUse(reason), config) == says(address)
        }),
{
}

/// Port nought is any free port, on the host that is configured.
pub proof fn law_port_nought_is_any_port(config: ConfigModel)
    requires
        config.port == 0,
    ensures
        first_binding(config) == (BindingModel::Any { address: config.host + ":"@ + decimal(0) }),
{
}

/* --------------------------------------------------------------------- browsers */

proof fn lemma_words_skip(s: Seq<char>, i: int, pending: Seq<char>)
    requires
        0 <= i <= s.len(),
    ensures
        words_from(s, i, pending) == words_from(s.skip(i), 0, pending),
    decreases s.len() - i,
{
    let rest = s.skip(i);
    if i < s.len() {
        assert(rest[0] == s[i]);
        let none = Seq::<char>::empty();
        lemma_words_skip(s, i + 1, none);
        lemma_words_skip(s, i + 1, pending.push(s[i]));
        lemma_words_skip(rest, 1, none);
        lemma_words_skip(rest, 1, pending.push(s[i]));
        assert(rest.skip(1) =~= s.skip(i + 1));
    }
}

proof fn lemma_words_past_white(s: Seq<char>, i: int, n: int)
    requires
        0 <= i <= n <= s.len(),
        forall|j: int| i <= j < n ==> is_white(#[trigger] s[j]),
    ensures
        words_from(s, i, Seq::empty()) == words_from(s, n, Seq::empty()),
    decreases n - i,
{
    if i < n {
        assert(is_white(s[i]));
        lemma_words_past_white(s, i + 1, n);
    }
}

proof fn lemma_words_through(s: Seq<char>, i: int, n: int, pending: Seq<char>)
    requires
        0 <= i <= n <= s.len(),
        forall|j: int| i <= j < n ==> !is_white(#[trigger] s[j]),
    ensures
        words_from(s, i, pending) == words_from(s, n, pending + s.subrange(i, n)),
    decreases n - i,
{
    if i < n {
        assert(!is_white(s[i]));
        lemma_words_through(s, i + 1, n, pending.push(s[i]));
        assert(pending.push(s[i]) + s.subrange(i + 1, n) =~= pending + s.subrange(i, n));
    } else {
        assert(pending + s.subrange(i, n) =~= pending);
    }
}

/// A text begins with a word where, after any white space, there are characters
/// that are none up to the next white space or the end; and the words that follow
/// are those of the rest. White space alone holds no word.
pub proof fn law_words_stand_between_white_space(
    before: Seq<char>,
    word: Seq<char>,
    rest: Seq<char>,
)
    requires
        all_white(before),
        forall|i: int| 0 <= i < word.len() ==> !is_white(#[trigger] word[i]),
        rest.len() > 0 ==> is_white(rest[0]),
    ensures
        word.len() > 0 ==> words(before + word + rest) == seq![word] + words(rest),
        words(before) == Seq::<Seq<char>>::empty(),
{
    let none = Seq::<char>::empty();
    lemma_words_past_white(before, 0, before.len() as int);
    assert(words(before) =~= Seq::<Seq<char>>::empty());
    if word.len() > 0 {
        let s = before + word + rest;
        let a = before.len() as int;
        let b = a + word.len();
        assert forall|j: int| 0 <= j < a implies is_white(#[trigger] s[j]) by {
            assert(s[j] == before[j]);
        }
        assert forall|j: int| a <= j < b implies !is_white(#[trigger] s[j]) by {
            assert(s[j] == word[j - a]);
        }
        lemma_words_past_white(s, 0, a);
        lemma_words_through(s, a, b, none);
        assert(none + s.subrange(a, b) =~= word);
        assert(words(s) == words_from(s, b, word));
        if rest.len() > 0 {
            assert(s[b] == rest[0]);
            lemma_words_skip(s, b + 1, none);
            lemma_words_skip(rest, 1, none);
            assert(s.skip(b + 1) =~= rest.skip(1));
            assert(words(rest) == words_from(rest, 1, none));
        } else {
            assert(words(rest) =~= Seq::<Seq<char>>::empty());
            assert(seq![word] + words(rest) =~= seq![word]);
        }
    }
}

/// The browser that is set is run with its own arguments and the address behind
/// them; one that is set to nothing cannot be run. Where none is set, the address
/// is opened as the system opens anything.
pub proof fn law_the_browser_is_run_with_the_address(
    url: Seq<char>,
    browser: Seq<char>,
    platform: Platform,
)
    ensures
        all_white(browser) ==> browser_command(url, Some(browser), platform) is None,
        words(browser).len() > 0 ==> browser_command(url, Some(browser), platform) == Some(
            words(browser).push(url),
        ),
        browser_command(url, None, platform) == Some(
            match platform {
                Platform::Mac => seq!["open"@, url],
                Platform::Windows => seq!["cmd"@, "/C"@, "start"@, ""@, url],
                Platform::Other => seq!["xdg-open"@, url],
            },
        ),
{
    if all_white(browser) {
        law_words_stand_between_white_space(browser, Seq::empty(), Seq::empty());
    }
}

} // verus!
