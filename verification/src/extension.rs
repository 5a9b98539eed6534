//! What the Zed extension decides.
//!
//! Zed extensions run as sandboxed WASM and cannot open sockets, watch the
//! filesystem or spawn long-lived processes. Registering a language server is
//! the one supported way to get a native process with the lifetime of the
//! project, so the extension exists only to locate the binary that holds the
//! development server and to hand it the user's config.

use vstd::prelude::*;

use crate::quote::{quote, quoted};
use crate::text::{owned, same_text, texts};

verus! {

/// Name of the language server as declared in `extension.toml`.
pub const SERVER_ID: &'static str = "live-reload-server";

/// Binary published by the release workflow.
pub const BINARY_NAME: &'static str = "live-reload-lsp";

/// Where releases are published.
pub const REPO: &'static str = "jedbillyb/zed-live-reload-server";

/// The operating systems that binaries are published for.
#[derive(Debug, PartialEq, Eq, Structural, Clone, Copy)]
pub enum Os {
    Mac,
    Linux,
    Windows,
}

/// The processors that binaries are published for.
#[derive(Debug, PartialEq, Eq, Structural, Clone, Copy)]
pub enum Architecture {
    Aarch64,
    X86,
    X8664,
}

/* ------------------------------------------------------------------- binary */

/// Where the binary comes from.
pub enum BinarySource {
    /// Use the one at this path.
    Path(String),
    /// Download it.
    Download,
}

/// Where the binary comes from, in mathematical terms.
pub enum BinarySourceModel {
    Path(Seq<char>),
    Download,
}

impl View for BinarySource {
    type V = BinarySourceModel;

    open spec fn view(&self) -> BinarySourceModel {
        match self {
            BinarySource::Path(path) => BinarySourceModel::Path(path@),
            BinarySource::Download => BinarySourceModel::Download,
        }
    }
}

/// Resolves the server binary, preferring anything the user has pointed us at
/// over a downloaded copy so that working on the server itself does not require
/// cutting a release: the configured path, then what is found on the search
/// path, then the copy downloaded before if it is still there.
pub fn binary_path(
    configured: Option<String>,
    on_path: Option<String>,
    cached: Option<String>,
    cached_is_there: bool,
) -> (r: BinarySource)
    ensures
        r@ == match (configured, on_path, cached) {
            (Some(path), _, _) => BinarySourceModel::Path(path@),
            (None, Some(path), _) => BinarySourceModel::Path(path@),
            (None, None, Some(path)) => if cached_is_there {
                BinarySourceModel::Path(path@)
            } else {
                BinarySourceModel::Download
            },
            (None, None, None) => BinarySourceModel::Download,
        },
{
    if let Some(path) = configured {
        return BinarySource::Path(path);
    }
    if let Some(path) = on_path {
        return BinarySource::Path(path);
    }
    match cached {
        Some(path) => if cached_is_there {
            BinarySource::Path(path)
        } else {
            BinarySource::Download
        },
        None => BinarySource::Download,
    }
}

/// The name of a processor in a release.
pub open spec fn architecture_name(architecture: Architecture) -> Seq<char> {
    match architecture {
        Architecture::Aarch64 => "aarch64"@,
        Architecture::X86 => "x86"@,
        Architecture::X8664 => "x86_64"@,
    }
}

/// The name of an operating system in a release.
pub open spec fn os_name(os: Os) -> Seq<char> {
    match os {
        Os::Mac => "apple-darwin"@,
        Os::Linux => "unknown-linux-musl"@,
        Os::Windows => "pc-windows-msvc"@,
    }
}

/// The name of the release asset for a platform.
pub open spec fn asset_text(os: Os, architecture: Architecture) -> Seq<char> {
    BINARY_NAME@ + "-"@ + architecture_name(architecture) + "-"@ + os_name(os) + ".tar.gz"@
}

/// The directory that a version is kept in.
pub open spec fn version_text(version: Seq<char>) -> Seq<char> {
    BINARY_NAME@ + "-"@ + version
}

/// The binary of a version.
pub open spec fn binary_text(version: Seq<char>, os: Os) -> Seq<char> {
    let path = version_text(version) + "/"@ + BINARY_NAME@;
    if os == Os::Windows {
        path + ".exe"@
    } else {
        path
    }
}

/// Names the release asset for a platform. Assets are gzipped tarballs
/// containing a single executable, which keeps the release roughly a quarter of
/// the size of a raw binary.
pub fn asset_name(os: Os, architecture: Architecture) -> (r: String)
    ensures
        r@ == asset_text(os, architecture),
{
    let mut out = owned(BINARY_NAME);
    out.append("-");
    out.append(
        match architecture {
            Architecture::Aarch64 => "aarch64",
            Architecture::X86 => "x86",
            Architecture::X8664 => "x86_64",
        },
    );
    out.append("-");
    out.append(
        match os {
            Os::Mac => "apple-darwin",
            Os::Linux => "unknown-linux-musl",
            Os::Windows => "pc-windows-msvc",
        },
    );
    out.append(".tar.gz");
    out
}

/// What is to be downloaded, and where to.
pub struct Download {
    /// The asset, by its index among those of the release.
    pub asset: usize,
    /// The directory to unpack it in.
    pub directory: String,
    /// The binary inside that directory.
    pub binary: String,
}

/// The first name from `from` on that is this one.
pub open spec fn name_from(names: Seq<Seq<char>>, wanted: Seq<char>, from: int) -> Option<int>
    decreases names.len() - from,
{
    if from >= names.len() {
        None
    } else if names[from] == wanted {
        Some(from)
    } else {
        name_from(names, wanted, from + 1)
    }
}

/// Plans the download of a release, given the names of its assets.
pub fn download_binary(
    version: &str,
    assets: &Vec<String>,
    os: Os,
    architecture: Architecture,
) -> (r: Result<Download, String>)
    ensures
        match name_from(texts(assets@), asset_text(os, architecture), 0) {
            Some(i) => {
                &&& r matches Ok(download)
                &&& download.asset == i
                &&& i < assets@.len()
                &&& download.directory@ == version_text(version@)
                &&& download.binary@ == binary_text(version@, os)
            },
            None => r matches Err(text) && text@ == "no release asset found matching "@ + quoted(
                asset_text(os, architecture),
            ),
        },
{
    let wanted = asset_name(os, architecture);
    for i in 0..assets.len()
        invariant
            wanted@ == asset_text(os, architecture),
            name_from(texts(assets@), wanted@, 0) == name_from(
                texts(assets@),
                wanted@,
                i as int,
            ),
    {
        assert(texts(assets@)[i as int] == assets@[i as int]@);
        if same_text(assets[i].as_str(), wanted.as_str()) {
            let mut directory = owned(BINARY_NAME);
            directory.append("-");
            directory.append(version);
            let mut binary = owned(directory.as_str());
            binary.append("/");
            binary.append(BINARY_NAME);
            if os == Os::Windows {
                binary.append(".exe");
            }
            return Ok(Download { asset: i, directory, binary });
        }
    }
    let mut text = owned("no release asset found matching ");
    text.append(quote(wanted.as_str()).as_str());
    Err(text)
}

/// Words a failure to create the directory of a version.
pub fn directory_failure(directory: &str, reason: &str) -> (r: String)
    ensures
        r@ == "failed to create directory '"@ + directory@ + "': "@ + reason@,
{
    let mut text = owned("failed to create directory '");
    text.append(directory);
    text.append("': ");
    text.append(reason);
    text
}

/// Words a failure to download an asset.
pub fn download_failure(asset: &str, reason: &str) -> (r: String)
    ensures
        r@ == "failed to download "@ + asset@ + ": "@ + reason@,
{
    let mut text = owned("failed to download ");
    text.append(asset);
    text.append(": ");
    text.append(reason);
    text
}

/// Whether an entry of the working directory is left over from another version
/// than the one to keep. An entry whose name is not text is never the one to
/// keep.
pub fn remove_stale_versions(entry: Option<&str>, keep: &str) -> (r: bool)
    ensures
        r == match entry {
            Some(name) => name@ != keep@,
            None => true,
        },
{
    match entry {
        Some(name) => !same_text(name, keep),
        None => true,
    }
}

/* ------------------------------------------------------------ configuration */

/// Picks the user's configuration for this server.
///
/// Zed exposes two slots for a language server, `initialization_options` and
/// `settings`. We accept the config in either one so users do not have to care
/// about the distinction, with `settings` winning when both are present since
/// that is the slot Zed can push updates through without a restart.
pub fn user_config<T>(settings: Option<T>, initialization_options: Option<T>) -> (r: Option<T>)
    ensures
        r == if settings is Some {
            settings
        } else {
            initialization_options
        },
{
    if settings.is_some() {
        settings
    } else {
        initialization_options
    }
}

/// The asset for one platform is never taken for that of another.
pub proof fn law_assets_tell_platforms_apart(
    os: Os,
    architecture: Architecture,
    other_os: Os,
    other_architecture: Architecture,
)
    requires
        os != other_os || architecture != other_architecture,
    ensures
        asset_text(os, architecture) != asset_text(other_os, other_architecture),
{
    reveal_strlit("aarch64");
    reveal_strlit("x86");
    reveal_strlit("x86_64");
    reveal_strlit("apple-darwin");
    reveal_strlit("unknown-linux-musl");
    reveal_strlit("pc-windows-msvc");
    reveal_strlit("-");
    reveal_strlit(".tar.gz");
    let a = asset_text(os, architecture);
    let b = asset_text(other_os, other_architecture);
    let n = BINARY_NAME@.len() as int;
    assert(a[n + 1] == architecture_name(architecture)[0]);
    assert(b[n + 1] == architecture_name(other_architecture)[0]);
    let p = architecture_name(architecture).len() as int;
    let q = architecture_name(other_architecture).len() as int;
    assert(a.len() == n + 1 + p + 1 + os_name(os).len() + 7);
    assert(b.len() == n + 1 + q + 1 + os_name(other_os).len() + 7);
    if architecture == other_architecture {
        assert(a[n + 2 + p] == os_name(os)[0]);
        assert(b[n + 2 + p] == os_name(other_os)[0]);
    } else if a[n + 1] == b[n + 1] {
        // One of them is `x86` and the other `x86_64`.
        if p == 3 {
            assert(a[n + 4] == '-');
            assert(b[n + 4] == architecture_name(other_architecture)[3]);
        } else {
            assert(b[n + 4] == '-');
            assert(a[n + 4] == architecture_name(architecture)[3]);
        }
    }
}

/// An asset is named by the program, the processor and the system, and a version
/// is kept in a directory of its own.
pub proof fn law_how_releases_are_named(os: Os, architecture: Architecture, version: Seq<char>)
    ensures
        asset_text(os, architecture) == "live-reload-lsp-"@ + (match architecture {
            Architecture::Aarch64 => "aarch64"@,
            Architecture::X86 => "x86"@,
            Architecture::X8664 => "x86_64"@,
        }) + "-"@ + (match os {
            Os::Mac => "apple-darwin"@,
            Os::Linux => "unknown-linux-musl"@,
            Os::Windows => "pc-windows-msvc"@,
        }) + ".tar.gz"@,
        version_text(version) == "live-reload-lsp-"@ + version,
        binary_text(version, os) == version_text(version) + "/live-reload-lsp"@ + (if os
            == Os::Windows {
            ".exe"@
        } else {
            Seq::<char>::empty()
        }),
{
    reveal_strlit("live-reload-lsp-");
    reveal_strlit("live-reload-lsp");
    reveal_strlit("/live-reload-lsp");
    reveal_strlit("-");
    reveal_strlit("/");
    let lead = "live-reload-lsp-"@;
    assert(BINARY_NAME@ + "-"@ =~= lead);
    assert("/"@ + BINARY_NAME@ =~= "/live-reload-lsp"@);
    assert(version_text(version) + "/"@ + BINARY_NAME@ =~= version_text(version)
        + "/live-reload-lsp"@);
    assert(binary_text(version, os) =~= version_text(version) + "/live-reload-lsp"@ + (if os
        == Os::Windows {
        ".exe"@
    } else {
        Seq::<char>::empty()
    }));
}

/// The asset that is taken is the first of the name that is sought, and none is
/// taken where no asset has that name.
pub proof fn law_assets_are_found_by_name(names: Seq<Seq<char>>, wanted: Seq<char>, from: int)
    requires
        0 <= from,
    ensures
        match name_from(names, wanted, from) {
            Some(i) => from <= i < names.len() && names[i] == wanted && forall|k: int|
                from <= k < i ==> #[trigger] names[k] != wanted,
            None => forall|k: int| from <= k < names.len() ==> #[trigger] names[k] != wanted,
        },
    decreases names.len() - from,
{
    if from < names.len() && names[from] != wanted {
        law_assets_are_found_by_name(names, wanted, from + 1);
    }
}

} // verus!
