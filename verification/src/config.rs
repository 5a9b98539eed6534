//! User-facing configuration.
//!
//! Option names deliberately mirror the VS Code Live Server extension where an
//! equivalent exists, converted to snake_case to match Zed's settings style, so
//! that people moving over can transfer what they already know.

use globset::{GlobSet, GlobSetBuilder};
use vstd::prelude::*;

use crate::globs::{add_pattern, build_set, builder_patterns, pattern_refusal, set_compiles};
use crate::ignore::IgnoreSet;
use crate::quote::{quote, quoted};
use crate::text::{copy_texts, lemma_texts_push, owned, same_text, same_texts, texts};

verus! {

/// Default port, chosen to match the VS Code extension.
pub const DEFAULT_PORT: u16 = 5500;

/// Number of consecutive ports to try before giving up when the configured one
/// is already taken.
pub const PORT_SCAN_LIMIT: u16 = 50;

/* ------------------------------------------------------------------- types */

/// A path prefix served from somewhere outside the document root.
#[derive(Debug, Clone)]
pub struct Mount {
    /// URL prefix, for example `/lib`.
    pub route: String,
    /// Directory to serve it from, absolute or relative to the workspace root.
    pub path: String,
}

/// What a mount says: its route and its directory.
pub struct MountModel {
    pub route: Seq<char>,
    pub path: Seq<char>,
}

impl View for Mount {
    type V = MountModel;

    open spec fn view(&self) -> MountModel {
        MountModel { route: self.route@, path: self.path@ }
    }
}

/// What a list of mounts says.
pub open spec fn mounts(list: Seq<Mount>) -> Seq<MountModel> {
    Seq::new(list.len(), |i: int| list[i]@)
}

/// The user's settings.
#[derive(Debug, Clone)]
pub struct Config {
    /// Preferred port. If it is taken the server walks upward from here.
    pub port: u16,
    /// Interface to bind. Set to `0.0.0.0` to reach the server from a phone or
    /// another machine on the same network.
    pub host: String,
    /// Document root, relative to the workspace root.
    pub root: String,
    /// Start serving as soon as the project opens.
    pub auto_start: bool,
    /// Open a browser when the server starts.
    pub open_browser: bool,
    /// Browser command to use. `None` defers to the system default handler.
    pub browser: Option<String>,
    /// Announce starts and stops as a notification.
    pub info_messages: bool,
    /// Show the address in the editor's status bar.
    pub status_bar: bool,
    /// File served for directory requests.
    pub index: String,
    /// Serve `index` for unknown paths instead of a 404, for client-side routers.
    pub spa: bool,
    /// Send permissive CORS headers.
    pub cors: bool,
    /// Render a browsable listing when a directory has no index file.
    pub directory_listing: bool,
    /// Milliseconds to coalesce rapid file changes into one reload. Also gives
    /// tools that write a file in several chunks time to finish.
    pub wait: u64,
    /// Always reload the whole page, even for changes that could be hot swapped.
    pub full_reload: bool,
    /// Glob patterns whose changes never trigger a reload.
    pub ignore_files: Vec<String>,
    /// Extra directories mounted outside the document root.
    pub mount: Vec<Mount>,
    /// BETA. Serve the editor's unsaved buffer instead of the file on disk, so
    /// the page updates as you type.
    pub live_changes: bool,
}

/// What the settings say.
pub struct ConfigModel {
    pub port: u16,
    pub host: Seq<char>,
    pub root: Seq<char>,
    pub auto_start: bool,
    pub open_browser: bool,
    pub browser: Option<Seq<char>>,
    pub info_messages: bool,
    pub status_bar: bool,
    pub index: Seq<char>,
    pub spa: bool,
    pub cors: bool,
    pub directory_listing: bool,
    pub wait: u64,
    pub full_reload: bool,
    pub ignore_files: Seq<Seq<char>>,
    pub mount: Seq<MountModel>,
    pub live_changes: bool,
}

/// What an optional text says.
pub open spec fn maybe(s: Option<String>) -> Option<Seq<char>> {
    match s {
        Some(text) => Some(text@),
        None => None,
    }
}

impl View for Config {
    type V = ConfigModel;

    open spec fn view(&self) -> ConfigModel {
        ConfigModel {
            port: self.port,
            host: self.host@,
            root: self.root@,
            auto_start: self.auto_start,
            open_browser: self.open_browser,
            browser: maybe(self.browser),
            info_messages: self.info_messages,
            status_bar: self.status_bar,
            index: self.index@,
            spa: self.spa,
            cors: self.cors,
            directory_listing: self.directory_listing,
            wait: self.wait,
            full_reload: self.full_reload,
            ignore_files: texts(self.ignore_files@),
            mount: mounts(self.mount@),
            live_changes: self.live_changes,
        }
    }
}

/* ---------------------------------------------------------------- defaults */

/// The patterns ignored where the user names none.
pub open spec fn standard_ignore() -> Seq<Seq<char>> {
    seq![
        "**/.git"@,
        "**/.git/**"@,
        "**/node_modules"@,
        "**/node_modules/**"@,
        "**/target"@,
        "**/target/**"@,
        "**/.DS_Store"@,
        "**/*.log"@,
        "**/*.swp"@,
        "**/*~"@,
        "**/.#*"@,
    ]
}

/// The settings of a user who sets nothing.
pub open spec fn standard_config() -> ConfigModel {
    ConfigModel {
        port: DEFAULT_PORT,
        host: "127.0.0.1"@,
        root: "/"@,
        auto_start: false,
        open_browser: false,
        browser: None,
        info_messages: true,
        status_bar: true,
        index: "index.html"@,
        spa: false,
        cors: false,
        directory_listing: true,
        wait: 100,
        full_reload: false,
        ignore_files: standard_ignore(),
        mount: Seq::empty(),
        live_changes: false,
    }
}

/// The port preferred by default.
pub fn default_port() -> (r: u16)
    ensures
        r == DEFAULT_PORT,
{
    DEFAULT_PORT
}

/// The interface bound by default: this machine only.
pub fn default_host() -> (r: String)
    ensures
        r@ == "127.0.0.1"@,
{
    owned("127.0.0.1")
}

/// The document root by default: the workspace itself.
pub fn default_root() -> (r: String)
    ensures
        r@ == "/"@,
{
    owned("/")
}

/// The file served for a directory by default.
pub fn default_index() -> (r: String)
    ensures
        r@ == "index.html"@,
{
    owned("index.html")
}

/// The default of the options that are on unless turned off.
pub fn default_true() -> (r: bool)
    ensures
        r,
{
    true
}

/// The milliseconds over which changes are coalesced by default.
pub fn default_wait() -> (r: u64)
    ensures
        r == 100,
{
    100
}

/// The patterns ignored by default.
///
/// Directories are listed in both forms so the directory's own creation event
/// is filtered as well as its contents. Ancestor matching in the watcher makes
/// either form sufficient, but being explicit here keeps the defaults readable
/// on their own.
pub fn default_ignore() -> (r: Vec<String>)
    ensures
        texts(r@) == standard_ignore(),
{
    let r = vec![
        owned("**/.git"),
        owned("**/.git/**"),
        owned("**/node_modules"),
        owned("**/node_modules/**"),
        owned("**/target"),
        owned("**/target/**"),
        owned("**/.DS_Store"),
        owned("**/*.log"),
        owned("**/*.swp"),
        owned("**/*~"),
        owned("**/.#*"),
    ];
    assert(texts(r@) =~= standard_ignore());
    r
}

impl Default for Config {
    fn default() -> (r: Self)
        ensures
            r@ == standard_config(),
    {
        let r = Config {
            port: default_port(),
            host: default_host(),
            root: default_root(),
            auto_start: false,
            open_browser: false,
            browser: None,
            info_messages: default_true(),
            status_bar: default_true(),
            index: default_index(),
            spa: false,
            cors: false,
            directory_listing: default_true(),
            wait: default_wait(),
            full_reload: false,
            ignore_files: default_ignore(),
            mount: Vec::new(),
            live_changes: false,
        };
        assert(mounts(r.mount@) =~= Seq::<MountModel>::empty());
        r
    }
}

/* ----------------------------------------------------------------- reading */

/// What the editor sent as configuration.
pub enum Supplied {
    /// Nothing at all.
    Absent,
    /// An explicit null.
    Null,
    /// Settings that could be read.
    Settings(Config),
    /// A blob that could not be read, and why.
    Malformed(String),
}

/// The patterns of a list that are valid, in order.
pub open spec fn valid_patterns(patterns: Seq<Seq<char>>) -> Seq<Seq<char>>
    decreases patterns.len(),
{
    if patterns.len() == 0 {
        Seq::empty()
    } else if pattern_refusal(patterns.last()) is None {
        valid_patterns(patterns.drop_last()).push(patterns.last())
    } else {
        valid_patterns(patterns.drop_last())
    }
}

/// How a refused pattern is reported.
pub open spec fn refusal_text(pattern: Seq<char>, reason: Seq<char>) -> Seq<char> {
    "ignore_files: "@ + quoted(pattern) + ": "@ + reason
}

/// The reports on the patterns of a list that are refused, in order.
pub open spec fn refusals(patterns: Seq<Seq<char>>) -> Seq<Seq<char>>
    decreases patterns.len(),
{
    if patterns.len() == 0 {
        Seq::empty()
    } else {
        match pattern_refusal(patterns.last()) {
            Some(reason) => refusals(patterns.drop_last()).push(
                refusal_text(patterns.last(), reason),
            ),
            None => refusals(patterns.drop_last()),
        }
    }
}

/// The patterns that take effect: the valid ones, or none where those do not
/// compile together.
pub open spec fn effective_patterns(patterns: Seq<Seq<char>>) -> Seq<Seq<char>> {
    if set_compiles(valid_patterns(patterns)) {
        valid_patterns(patterns)
    } else {
        Seq::empty()
    }
}

/// Whether a bind address is reachable from other machines.
pub open spec fn is_public_host(host: Seq<char>) -> bool {
    host == "0.0.0.0"@ || host == "::"@ || host == "[::]"@
}

impl Config {
    /// Settles on the configuration to use, given what the editor sent.
    ///
    /// A malformed blob falls back to defaults rather than failing to start,
    /// because a server that runs with the wrong port is far easier to diagnose
    /// than one that silently never came up. The error is returned so the caller
    /// can surface it in the editor.
    pub fn parse(value: Supplied) -> (r: (Self, Option<String>))
        ensures
            match value {
                Supplied::Absent | Supplied::Null => r.0@ == standard_config() && r.1 is None,
                Supplied::Settings(config) => r.0@ == config@ && r.1 is None,
                Supplied::Malformed(reason) => r.0@ == standard_config() && maybe(r.1) == Some(
                    reason@,
                ),
            },
    {
        match value {
            Supplied::Absent => (Config::default(), None),
            Supplied::Null => (Config::default(), None),
            Supplied::Settings(config) => (config, None),
            Supplied::Malformed(reason) => (Config::default(), Some(reason)),
        }
    }

    /// Compiles [`Self::ignore_files`] into a matcher.
    ///
    /// Invalid globs are skipped individually so that one typo does not disable
    /// filtering altogether and flood the browser with reloads.
    pub fn ignore_set(&self) -> (r: (IgnoreSet, Vec<String>))
        ensures
            r.0@ == effective_patterns(self@.ignore_files),
            texts(r.1@) == refusals(self@.ignore_files),
    {
        broadcast use lemma_texts_push;

        let mut builder = GlobSetBuilder::new();
        let mut kept: Vec<String> = Vec::new();
        let mut errors: Vec<String> = Vec::new();
        let ghost all = self@.ignore_files;
        assert(all.take(0) =~= Seq::<Seq<char>>::empty());
        assert(texts(kept@) =~= Seq::<Seq<char>>::empty());
        assert(texts(errors@) =~= Seq::<Seq<char>>::empty());
        for i in 0..self.ignore_files.len()
            invariant
                all == texts(self.ignore_files@),
                builder_patterns(builder) == valid_patterns(all.take(i as int)),
                texts(kept@) == valid_patterns(all.take(i as int)),
                texts(errors@) == refusals(all.take(i as int)),
        {
            broadcast use lemma_texts_push;

            let pattern = self.ignore_files[i].as_str();
            proof {
                assert(all.take(i + 1).drop_last() =~= all.take(i as int));
                assert(all.take(i + 1).last() == pattern@);
            }
            match add_pattern(&mut builder, pattern) {
                Ok(_) => {
                    kept.push(owned(pattern));
                },
                Err(reason) => {
                    let mut message = owned("ignore_files: ");
                    message.append(quote(pattern).as_str());
                    message.append(": ");
                    message.append(reason.as_str());
                    errors.push(message);
                },
            }
        }
        assert(all.take(self.ignore_files.len() as int) =~= all);
        match build_set(&builder) {
            Some(set) => (IgnoreSet::over(set, &kept), errors),
            None => {
                let none: Vec<String> = Vec::new();
                assert(texts(none@) =~= Seq::<Seq<char>>::empty());
                (IgnoreSet::over(GlobSet::empty(), &none), errors)
            },
        }
    }

    /// Whether the bind address is reachable from other machines.
    pub fn is_public(&self) -> (r: bool)
        ensures
            r == is_public_host(self@.host),
    {
        same_text(self.host.as_str(), "0.0.0.0") || same_text(self.host.as_str(), "::")
            || same_text(self.host.as_str(), "[::]")
    }

    /// Whether two configurations say the same.
    pub fn same_as(&self, other: &Config) -> (r: bool)
        ensures
            r == (self@ == other@),
    {
        let browsers = match (&self.browser, &other.browser) {
            (Some(a), Some(b)) => same_text(a.as_str(), b.as_str()),
            (None, None) => true,
            _ => false,
        };
        self.port == other.port && same_text(self.host.as_str(), other.host.as_str()) && same_text(
            self.root.as_str(),
            other.root.as_str(),
        ) && self.auto_start == other.auto_start && self.open_browser == other.open_browser
            && browsers && self.info_messages == other.info_messages && self.status_bar
            == other.status_bar && same_text(self.index.as_str(), other.index.as_str())
            && self.spa == other.spa && self.cors == other.cors && self.directory_listing
            == other.directory_listing && self.wait == other.wait && self.full_reload
            == other.full_reload && same_texts(&self.ignore_files, &other.ignore_files)
            && same_mounts(&self.mount, &other.mount) && self.live_changes == other.live_changes
    }

    /// Another configuration that says the same.
    pub fn duplicate(&self) -> (r: Config)
        ensures
            r@ == self@,
    {
        Config {
            port: self.port,
            host: owned(self.host.as_str()),
            root: owned(self.root.as_str()),
            auto_start: self.auto_start,
            open_browser: self.open_browser,
            browser: match &self.browser {
                Some(browser) => Some(owned(browser.as_str())),
                None => None,
            },
            info_messages: self.info_messages,
            status_bar: self.status_bar,
            index: owned(self.index.as_str()),
            spa: self.spa,
            cors: self.cors,
            directory_listing: self.directory_listing,
            wait: self.wait,
            full_reload: self.full_reload,
            ignore_files: copy_texts(&self.ignore_files),
            mount: copy_mounts(&self.mount),
            live_changes: self.live_changes,
        }
    }
}

fn same_mounts(a: &Vec<Mount>, b: &Vec<Mount>) -> (r: bool)
    ensures
        r == (mounts(a@) == mounts(b@)),
{
    if a.len() != b.len() {
        assert(mounts(a@).len() != mounts(b@).len());
        return false;
    }
    for i in 0..a.len()
        invariant
            a@.len() == b@.len(),
            forall|j: int| 0 <= j < i ==> a@[j]@ == b@[j]@,
    {
        if !same_text(a[i].route.as_str(), b[i].route.as_str()) || !same_text(
            a[i].path.as_str(),
            b[i].path.as_str(),
        ) {
            assert(mounts(a@)[i as int] != mounts(b@)[i as int]);
            return false;
        }
    }
    assert(mounts(a@) =~= mounts(b@));
    true
}

fn copy_mounts(list: &Vec<Mount>) -> (r: Vec<Mount>)
    ensures
        mounts(r@) == mounts(list@),
{
    let mut out: Vec<Mount> = Vec::new();
    for i in 0..list.len()
        invariant
            out@.len() == i,
            forall|j: int| 0 <= j < i ==> out@[j]@ == list@[j]@,
    {
        out.push(
            Mount { route: owned(list[i].route.as_str()), path: owned(list[i].path.as_str()) },
        );
    }
    assert(mounts(out@) =~= mounts(list@));
    out
}

/* -------------------------------------------------------------------- laws */

/// One bad pattern costs only itself: what is ignored without it is ignored
/// with it, and nothing more.
pub proof fn law_a_bad_pattern_costs_only_itself(
    before: Seq<Seq<char>>,
    bad: Seq<char>,
    after: Seq<Seq<char>>,
)
    requires
        pattern_refusal(bad) is Some,
    ensures
        effective_patterns(before.push(bad) + after) == effective_patterns(before + after),
        refusals(before.push(bad) + after).len() == refusals(before + after).len() + 1,
{
    lemma_bad_pattern(before, bad, after);
}

proof fn lemma_bad_pattern(before: Seq<Seq<char>>, bad: Seq<char>, after: Seq<Seq<char>>)
    requires
        pattern_refusal(bad) is Some,
    ensures
        valid_patterns(before.push(bad) + after) == valid_patterns(before + after),
        refusals(before.push(bad) + after).len() == refusals(before + after).len() + 1,
    decreases after.len(),
{
    let with = before.push(bad) + after;
    let without = before + after;
    if after.len() == 0 {
        assert(with =~= before.push(bad));
        assert(with.drop_last() =~= before);
        assert(without =~= before);
    } else {
        lemma_bad_pattern(before, bad, after.drop_last());
        assert(with.drop_last() =~= before.push(bad) + after.drop_last());
        assert(without.drop_last() =~= before + after.drop_last());
        assert(with.last() == after.last());
        assert(without.last() == after.last());
    }
}

/// Patterns are kept and refused one by one, in order: a valid one is kept as it
/// is, and of any other it is reported which it is and why.
pub proof fn law_patterns_are_judged_one_by_one(
    a: Seq<Seq<char>>,
    pattern: Seq<char>,
    b: Seq<Seq<char>>,
)
    ensures
        valid_patterns(Seq::<Seq<char>>::empty()) == Seq::<Seq<char>>::empty(),
        refusals(Seq::<Seq<char>>::empty()) == Seq::<Seq<char>>::empty(),
        valid_patterns(a + seq![pattern] + b) == valid_patterns(a) + (if pattern_refusal(
            pattern,
        ) is None {
            seq![pattern]
        } else {
            Seq::<Seq<char>>::empty()
        }) + valid_patterns(b),
        refusals(a + seq![pattern] + b) == refusals(a) + (match pattern_refusal(pattern) {
            Some(reason) => seq!["ignore_files: "@ + quoted(pattern) + ": "@ + reason],
            None => Seq::<Seq<char>>::empty(),
        }) + refusals(b),
    decreases b.len(),
{
    let all = a + seq![pattern] + b;
    let kept = if pattern_refusal(pattern) is None {
        seq![pattern]
    } else {
        Seq::<Seq<char>>::empty()
    };
    let told = match pattern_refusal(pattern) {
        Some(reason) => seq!["ignore_files: "@ + quoted(pattern) + ": "@ + reason],
        None => Seq::<Seq<char>>::empty(),
    };
    if b.len() == 0 {
        assert(all.drop_last() =~= a);
        assert(all.last() == pattern);
    } else {
        law_patterns_are_judged_one_by_one(a, pattern, b.drop_last());
        assert(all.drop_last() =~= a + seq![pattern] + b.drop_last());
        assert(all.last() == b.last());
    }
    assert(valid_patterns(all) =~= valid_patterns(a) + kept + valid_patterns(b));
    assert(refusals(all) =~= refusals(a) + told + refusals(b));
}

/// Whatever is valid takes effect, as long as it compiles.
pub proof fn law_valid_patterns_take_effect(patterns: Seq<Seq<char>>, k: int)
    requires
        0 <= k < patterns.len(),
        pattern_refusal(patterns[k]) is None,
        set_compiles(valid_patterns(patterns)),
    ensures
        effective_patterns(patterns).contains(patterns[k]),
{
    let a = patterns.take(k);
    let b = patterns.skip(k + 1);
    law_patterns_are_judged_one_by_one(a, patterns[k], b);
    assert(patterns =~= a + seq![patterns[k]] + b);
    let n = valid_patterns(a).len() as int;
    assert(effective_patterns(patterns)[n] == patterns[k]);
}

/// A host that can be reached from elsewhere is one that means every interface:
/// one that is not browsed to as it stands.
pub proof fn law_public_hosts_mean_every_interface(host: Seq<char>)
    ensures
        is_public_host(host) <==> crate::server::browsable_host(host) != host,
{
    reveal_strlit("0.0.0.0");
    reveal_strlit("::");
    reveal_strlit("[::]");
    reveal_strlit("127.0.0.1");
    reveal_strlit("[::1]");
    assert("0.0.0.0"@[0] == '0' && "127.0.0.1"@[0] == '1');
    assert("::"@.len() == 2 && "[::]"@.len() == 4 && "[::1]"@.len() == 5);
}

/// Where nothing is set the server keeps to itself: it listens on this machine
/// only, waits to be started, opens no browser, sends nothing unsaved and allows
/// no other site to read it.
pub proof fn law_nothing_happens_unasked()
    ensures
        !is_public_host(standard_config().host),
        !standard_config().auto_start,
        !standard_config().open_browser,
        !standard_config().live_changes,
        !standard_config().cors,
        !standard_config().spa,
        !standard_config().full_reload,
        standard_config().mount.len() == 0,
        standard_config().browser is None,
        standard_config().info_messages,
        standard_config().status_bar,
        standard_config().directory_listing,
        standard_config().port == 5500,
        standard_config().wait == 100,
        standard_config().index == "index.html"@,
        standard_config().root == seq!['/'],
{
    reveal_strlit("127.0.0.1");
    reveal_strlit("0.0.0.0");
    reveal_strlit("::");
    reveal_strlit("[::]");
    reveal_strlit("/");
    assert("127.0.0.1"@[0] == '1' && "0.0.0.0"@[0] == '0');
    assert("::"@.len() == 2 && "[::]"@.len() == 4);
    assert("/"@ =~= seq!['/']);
}

} // verus!
