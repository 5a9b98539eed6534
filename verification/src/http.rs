//! Requests and the heads of responses: the static file server's vocabulary.

use vstd::prelude::*;
use vstd::utf8::{decode_utf8, valid_utf8};

use crate::config::{mounts, Config, Mount, MountModel};
use crate::number::{parse_number, parse_unsigned};
use crate::path::{
    components, components_of, is_complete, is_normal, join_path, join_paths, names_something,
    stands_alone,
};
use crate::text::{
    begins_with, chars_of, find_char, lower, occurs_at, owned, position_of_char, same_ignoring_case,
    split, split_at_each, strip_leading, strip_trailing, text_of, texts, trim, trimmed,
    without_leading, without_trailing,
};
use crate::urls::target_path;

verus! {

/// Prefix reserved for the reload machinery. A project with a real directory of
/// this name would shadow it, which is why the name is deliberately unlikely.
pub const RESERVED_PREFIX: &'static str = "/__live_reload/";

/// Where the reload channel is opened.
pub const WS_PATH: &'static str = "/__live_reload/ws";

/// Seconds that an idle keep-alive connection is held open before being dropped.
pub const KEEP_ALIVE_SECONDS: u64 = 30;

/// Ceiling on request head size, to bound what a single connection can allocate.
pub const MAX_HEAD: usize = 32768;

/// Most headers that a request head may have.
pub const MAX_HEADERS: usize = 64;

/// Chunk size used when streaming file bodies.
pub const CHUNK: usize = 65536;

/// Everything that decides how a request is served.
pub struct Context {
    pub config: Config,
    /// Absolute document root, already resolved from the workspace and
    /// `config.root`.
    pub root: String,
    /// Workspace root, used to resolve relative mount paths.
    pub workspace: String,
    /// Whether an absolute path may begin at a drive, as on Windows.
    pub drives: bool,
}

/* ---------------------------------------------------------------- requests */

/// A parsed request head.
pub struct Request {
    pub method: String,
    pub target: String,
    pub headers: Vec<(String, String)>,
}

/// What a request head says.
pub struct RequestModel {
    pub method: Seq<char>,
    pub target: Seq<char>,
    pub headers: Seq<(Seq<char>, Seq<char>)>,
}

/// What a list of headers says.
pub open spec fn header_texts(headers: Seq<(String, String)>) -> Seq<(Seq<char>, Seq<char>)> {
    Seq::new(headers.len(), |i: int| (headers[i].0@, headers[i].1@))
}

impl View for Request {
    type V = RequestModel;

    open spec fn view(&self) -> RequestModel {
        RequestModel {
            method: self.method@,
            target: self.target@,
            headers: header_texts(self.headers@),
        }
    }
}

/// The value of the first header from `from` on that has this name, whatever
/// the case of its letters.
pub open spec fn header_from(
    headers: Seq<(Seq<char>, Seq<char>)>,
    name: Seq<char>,
    from: int,
) -> Option<Seq<char>>
    decreases headers.len() - from,
{
    if from >= headers.len() {
        None
    } else if lower(headers[from].0) == lower(name) {
        Some(headers[from].1)
    } else {
        header_from(headers, name, from + 1)
    }
}

/// The value of a header.
pub open spec fn header_value(request: RequestModel, name: Seq<char>) -> Option<Seq<char>> {
    header_from(request.headers, name, 0)
}

/// Whether a token stands in a comma-separated list, whatever its case.
pub open spec fn lists_token(value: Seq<char>, token: Seq<char>) -> bool {
    exists|k: int|
        0 <= k < split(value, ',').len() && lower(trim(#[trigger] split(value, ',')[k])) == lower(
            token,
        )
}

/// Whether a request asks to become a WebSocket.
pub open spec fn asks_for_websocket(request: RequestModel) -> bool {
    &&& header_value(request, "connection"@) matches Some(value) && lists_token(value, "upgrade"@)
    &&& header_value(request, "upgrade"@) matches Some(value) && lower(value) == lower(
        "websocket"@,
    )
}

/// Whether the connection stays open after this request.
pub open spec fn stays_open(request: RequestModel) -> bool {
    match header_value(request, "connection"@) {
        Some(value) => lower(value) != lower("close"@),
        None => true,
    }
}

fn has_token(value: &str, token: &str) -> (r: bool)
    ensures
        r == lists_token(value@, token@),
{
    let pieces = split_at_each(chars_of(value).as_slice(), ',');
    for i in 0..pieces.len()
        invariant
            texts(pieces@) == split(value@, ','),
            forall|j: int|
                0 <= j < i ==> lower(trim(#[trigger] split(value@, ',')[j])) != lower(token@),
    {
        let piece = text_of(trimmed(chars_of(pieces[i].as_str()).as_slice()).as_slice());
        assert(pieces@[i as int]@ == split(value@, ',')[i as int]);
        if same_ignoring_case(piece.as_str(), token) {
            return true;
        }
    }
    false
}

impl Request {
    /// The value of a header, by its name in any case.
    pub fn header(&self, name: &str) -> (r: Option<&str>)
        ensures
            match r {
                Some(value) => header_value(self@, name@) == Some(value@),
                None => header_value(self@, name@) is None,
            },
    {
        for i in 0..self.headers.len()
            invariant
                header_value(self@, name@) == header_from(self@.headers, name@, i as int),
        {
            if same_ignoring_case(self.headers[i].0.as_str(), name) {
                return Some(self.headers[i].1.as_str());
            }
        }
        None
    }

    /// Whether this is a WebSocket upgrade request.
    ///
    /// `Connection` is a comma-separated list and may carry other tokens such
    /// as `keep-alive`, so it is checked by token rather than by equality.
    pub fn is_websocket_upgrade(&self) -> (r: bool)
        ensures
            r == asks_for_websocket(self@),
    {
        let upgrading = match self.header("connection") {
            Some(value) => has_token(value, "upgrade"),
            None => false,
        };
        let to_websocket = match self.header("upgrade") {
            Some(value) => same_ignoring_case(value, "websocket"),
            None => false,
        };
        upgrading && to_websocket
    }

    /// Whether the connection stays open after this request.
    pub fn keep_alive(&self) -> (r: bool)
        ensures
            r == stays_open(self@),
    {
        match self.header("connection") {
            Some(value) => !same_ignoring_case(value, "close"),
            None => true,
        }
    }
}

/* ------------------------------------------------------------ reading heads */

/// A request head as it stands on the wire.
pub struct RawHead {
    pub method: Option<String>,
    pub target: Option<String>,
    pub headers: Vec<(String, Vec<u8>)>,
}

/// What the bytes of a request head amount to so far.
pub enum Head {
    Complete(RawHead),
    Partial,
    Malformed,
}

/// What a raw head says.
pub struct RawHeadModel {
    pub method: Option<Seq<char>>,
    pub target: Option<Seq<char>>,
    pub headers: Seq<(Seq<char>, Seq<u8>)>,
}

/// What a parse of a head says.
pub enum HeadModel {
    Complete(RawHeadModel),
    Partial,
    Malformed,
}

impl View for RawHead {
    type V = RawHeadModel;

    open spec fn view(&self) -> RawHeadModel {
        RawHeadModel {
            method: crate::config::maybe(self.method),
            target: crate::config::maybe(self.target),
            headers: Seq::new(
                self.headers@.len(),
                |i: int| (self.headers@[i].0@, self.headers@[i].1@),
            ),
        }
    }
}

impl View for Head {
    type V = HeadModel;

    open spec fn view(&self) -> HeadModel {
        match self {
            Head::Complete(raw) => HeadModel::Complete(raw@),
            Head::Partial => HeadModel::Partial,
            Head::Malformed => HeadModel::Malformed,
        }
    }
}

/// What the bytes of a request head parse to, with room for this many headers.
pub uninterp spec fn parsed_head(bytes: Seq<u8>, limit: nat) -> HeadModel;

/// `httparse::Request::parse` on a request with room for `limit` headers: the
/// method, the target and the headers where the head is complete, else whether
/// more bytes are needed or the head is malformed.
#[verifier::external_body]
fn parse_head(bytes: &[u8], limit: usize) -> (r: Head)
    ensures
        r@ == parsed_head(bytes@, limit as nat),
{
    let mut headers = vec![httparse::EMPTY_HEADER; limit];
    let mut parsed = httparse::Request::new(&mut headers);
    match parsed.parse(bytes) {
        Ok(httparse::Status::Complete(_)) => Head::Complete(RawHead {
            method: parsed.method.map(|text| text.to_string()),
            target: parsed.path.map(|text| text.to_string()),
            headers: parsed.headers.iter().map(|h| (h.name.to_string(), h.value.to_vec())).collect(),
        }),
        Ok(httparse::Status::Partial) => Head::Partial,
        Err(_) => Head::Malformed,
    }
}

/// Bytes as text, with what is not valid UTF-8 in them replaced.
pub uninterp spec fn lossy_text(bytes: Seq<u8>) -> Seq<char>;

/// `String::from_utf8_lossy` of std: valid UTF-8 is taken as the text that it
/// encodes, and anything else in it is replaced by replacement characters.
#[verifier::external_body]
pub(crate) fn lossy(bytes: &[u8]) -> (r: String)
    ensures
        r@ == lossy_text(bytes@),
        valid_utf8(bytes@) ==> r@ == decode_utf8(bytes@),
{
    String::from_utf8_lossy(bytes).into_owned()
}

/// The request that a raw head amounts to.
pub open spec fn interpreted(raw: RawHeadModel) -> Option<RequestModel> {
    match (raw.method, raw.target) {
        (Some(method), Some(target)) => Some(
            RequestModel {
                method,
                target,
                headers: Seq::new(
                    raw.headers.len(),
                    |i: int| (raw.headers[i].0, lossy_text(raw.headers[i].1)),
                ),
            },
        ),
        _ => None,
    }
}

/// What an optional request says.
pub open spec fn maybe_request(request: Option<Request>) -> Option<RequestModel> {
    match request {
        Some(request) => Some(request@),
        None => None,
    }
}

/// Turns a raw head into a request, its header values into text.
pub fn request_from(raw: RawHead) -> (r: Option<Request>)
    ensures
        maybe_request(r) == interpreted(raw@),
{
    let ghost model = raw@;
    let RawHead { method, target, headers: raw_headers } = raw;
    let method = match method {
        Some(method) => method,
        None => {
            return None;
        },
    };
    let target = match target {
        Some(target) => target,
        None => {
            return None;
        },
    };
    let mut headers: Vec<(String, String)> = Vec::new();
    for i in 0..raw_headers.len()
        invariant
            headers@.len() == i,
            forall|j: int|
                #![trigger headers@[j]]
                0 <= j < i ==> headers@[j].0@ == raw_headers@[j].0@ && headers@[j].1@ == lossy_text(
                    raw_headers@[j].1@,
                ),
    {
        headers.push((owned(raw_headers[i].0.as_str()), lossy(raw_headers[i].1.as_slice())));
    }
    let request = Request { method, target, headers };
    assert(request@.headers =~= interpreted(model)->0.headers);
    Some(request)
}

/// How the reading of a request head goes on.
pub enum Reading {
    /// The head is read, or the connection is over.
    Finished(Option<Request>),
    /// More bytes are needed behind these.
    More(Vec<u8>),
}

/// What a reading says.
pub enum ReadingModel {
    Finished(Option<RequestModel>),
    More(Seq<u8>),
}

impl View for Reading {
    type V = ReadingModel;

    open spec fn view(&self) -> ReadingModel {
        match self {
            Reading::Finished(request) => ReadingModel::Finished(maybe_request(*request)),
            Reading::More(buffer) => ReadingModel::More(buffer@),
        }
    }
}

/// How the reading goes on, given what the bytes so far parse to.
pub open spec fn judged_head(head: HeadModel, buffer: Seq<u8>) -> ReadingModel {
    match head {
        HeadModel::Complete(raw) => ReadingModel::Finished(interpreted(raw)),
        HeadModel::Partial => ReadingModel::More(buffer),
        HeadModel::Malformed => ReadingModel::Finished(None),
    }
}

/// How the reading goes on after one more chunk: an empty chunk is the end of
/// the stream, and a head that grows too large is given up.
pub open spec fn read_on(buffer: Seq<u8>, chunk: Seq<u8>) -> ReadingModel {
    if chunk.len() == 0 || (buffer + chunk).len() > MAX_HEAD {
        ReadingModel::Finished(None)
    } else {
        judged_head(parsed_head(buffer + chunk, MAX_HEADERS as nat), buffer + chunk)
    }
}

/// Decides how the reading goes on, given what the bytes so far parse to.
pub fn judge_head(head: Head, buffer: Vec<u8>) -> (r: Reading)
    ensures
        r@ == judged_head(head@, buffer@),
{
    match head {
        Head::Complete(raw) => Reading::Finished(request_from(raw)),
        Head::Partial => Reading::More(buffer),
        Head::Malformed => Reading::Finished(None),
    }
}

/// Takes one more chunk of a request head.
pub fn read_request(buffer: Vec<u8>, chunk: &[u8]) -> (r: Reading)
    ensures
        r@ == read_on(buffer@, chunk@),
{
    if chunk.len() == 0 || buffer.len() > MAX_HEAD || chunk.len() > MAX_HEAD - buffer.len() {
        return Reading::Finished(None);
    }
    let ghost before = buffer@;
    let mut buffer = buffer;
    for i in 0..chunk.len()
        invariant
            buffer@ == before + chunk@.take(i as int),
    {
        buffer.push(chunk[i]);
        assert(buffer@ =~= before + chunk@.take(i + 1));
    }
    assert(buffer@ =~= before + chunk@);
    let head = parse_head(buffer.as_slice(), MAX_HEADERS);
    judge_head(head, buffer)
}

/* ----------------------------------------------------------- path resolution */

/// Extracts and decodes the path from a request target.
///
/// Returns `None` for a target that escapes the document root. Normalisation
/// happens on the decoded form so that an encoded `..` is caught too, which is
/// the classic way past a naive check.
pub fn request_path(target: &str) -> (r: Option<String>)
    ensures
        match r {
            Some(path) => target_path(target@) == Some(path@),
            None => target_path(target@) is None,
        },
{
    crate::urls::path_of_target(target)
}

/// A mount's route without the slashes at its end.
pub open spec fn bare_route(mount: MountModel) -> Seq<char> {
    strip_trailing(mount.route, '/')
}

/// Whether a mount covers a path: its route is the path or leads up to a `/`
/// in it.
pub open spec fn covers(mount: MountModel, path: Seq<char>) -> bool {
    let route = bare_route(mount);
    &&& route.len() > 0
    &&& occurs_at(path, route, 0)
    &&& path.len() == route.len() || path[route.len() as int] == '/'
}

/// The most specific of the first `upto` mounts that cover a path; the
/// earliest, where several have the same route.
pub open spec fn best_mount(list: Seq<MountModel>, path: Seq<char>, upto: int) -> Option<int>
    decreases upto,
{
    if upto <= 0 {
        None
    } else {
        let before = best_mount(list, path, upto - 1);
        if covers(list[upto - 1], path) && (before is None || bare_route(list[upto - 1]).len()
            > bare_route(list[before->0]).len()) {
            Some(upto - 1)
        } else {
            before
        }
    }
}

/// The mount chosen for a path covers it, and none that covers it is longer.
pub proof fn law_the_longest_mount_wins(list: Seq<MountModel>, path: Seq<char>, upto: int)
    requires
        0 <= upto <= list.len(),
    ensures
        match best_mount(list, path, upto) {
            Some(best) => {
                &&& 0 <= best < upto
                &&& covers(list[best], path)
                &&& forall|k: int|
                    0 <= k < upto && covers(#[trigger] list[k], path) ==> bare_route(list[k]).len()
                        <= bare_route(list[best]).len()
                &&& forall|k: int|
                    0 <= k < best && covers(#[trigger] list[k], path) ==> bare_route(list[k]).len()
                        < bare_route(list[best]).len()
            },
            None => forall|k: int| 0 <= k < upto ==> !covers(#[trigger] list[k], path),
        },
    decreases upto,
{
    if upto > 0 {
        law_the_longest_mount_wins(list, path, upto - 1);
    }
}

/// Finds the most specific mount matching `path`, with the remainder after it.
pub fn longest_mount<'m>(list: &'m Vec<Mount>, path: &str) -> (r: Option<(&'m Mount, String)>)
    ensures
        match best_mount(mounts(list@), path@, list@.len() as int) {
            Some(best) => {
                &&& r matches Some((mount, rest))
                &&& mount@ == mounts(list@)[best]
                &&& rest@ == path@.skip(bare_route(mounts(list@)[best]).len() as int)
            },
            None => r is None,
        },
{
    let p = chars_of(path);
    let mut best: Option<usize> = None;
    let mut length: usize = 0;
    for i in 0..list.len()
        invariant
            p@ == path@,
            match best {
                Some(b) => b < i && best_mount(mounts(list@), path@, i as int) == Some(b as int)
                    && length == bare_route(mounts(list@)[b as int]).len(),
                None => best_mount(mounts(list@), path@, i as int) is None,
            },
    {
        let route = without_trailing(chars_of(list[i].route.as_str()).as_slice(), '/');
        assert(mounts(list@)[i as int] == list@[i as int]@);
        assert(route@ == bare_route(mounts(list@)[i as int]));
        let matches = route.len() > 0 && begins_with(p.as_slice(), route.as_slice()) && (p.len()
            == route.len() || p[route.len()] == '/');
        if matches && (best.is_none() || route.len() > length) {
            best = Some(i);
            length = route.len();
        }
    }
    proof {
        law_the_longest_mount_wins(mounts(list@), path@, list@.len() as int);
    }
    match best {
        Some(b) => {
            assert(p@.subrange(length as int, p@.len() as int) =~= path@.skip(length as int));
            let rest = text_of(vstd::slice::slice_subrange(p.as_slice(), length, p.len()));
            Some((&list[b], rest))
        },
        None => None,
    }
}

/// The parts of a list that name something.
pub open spec fn named(parts: Seq<Seq<char>>) -> Seq<Seq<char>>
    decreases parts.len(),
{
    if parts.len() == 0 {
        Seq::empty()
    } else if is_normal(parts.last()) {
        named(parts.drop_last()).push(parts.last())
    } else {
        named(parts.drop_last())
    }
}

/// A base with parts placed under it, one after the other.
pub open spec fn placed(base: Seq<char>, parts: Seq<Seq<char>>) -> Seq<char>
    decreases parts.len(),
{
    if parts.len() == 0 {
        base
    } else {
        join_path(placed(base, parts.drop_last()), parts.last())
    }
}

/// A relative path placed under a base, by its ordinary components only.
pub open spec fn placed_under(base: Seq<char>, relative: Seq<char>) -> Seq<char> {
    placed(base, named(components(strip_leading(relative, '/'))))
}

/// Joins a relative path onto a base, keeping only ordinary components.
///
/// [`request_path`] has already removed traversal, but joining is where a
/// mistake becomes a filesystem read, so the invariant is enforced again here
/// rather than assumed.
pub fn join_checked(base: &str, relative: &str) -> (r: String)
    ensures
        r@ == placed_under(base@, relative@),
{
    let bare = text_of(without_leading(chars_of(relative).as_slice(), '/').as_slice());
    let parts = components_of(bare.as_str());
    let ghost all = components(bare@);
    let mut out = owned(base);
    assert(all.take(0) =~= Seq::<Seq<char>>::empty());
    for i in 0..parts.len()
        invariant
            texts(parts@) == all,
            out@ == placed(base@, named(all.take(i as int))),
    {
        let part = parts[i].as_str();
        proof {
            assert(part@ == all[i as int]);
            assert(all.take(i + 1).drop_last() =~= all.take(i as int));
            assert(all.take(i + 1).last() == part@);
        }
        if names_something(part) {
            let ghost before = named(all.take(i as int));
            assert(before.push(part@).drop_last() =~= before);
            out = join_paths(out.as_str(), part);
        }
    }
    assert(all.take(parts.len() as int) =~= all);
    out
}

/// The directory that a mount serves from.
pub open spec fn mount_base(
    workspace: Seq<char>,
    mount: MountModel,
    drives: bool,
) -> Seq<char> {
    if stands_alone(mount.path, drives) {
        mount.path
    } else {
        join_path(workspace, mount.path)
    }
}

/// The file that a URL path stands for.
pub open spec fn resolved(
    path: Seq<char>,
    list: Seq<MountModel>,
    root: Seq<char>,
    workspace: Seq<char>,
    drives: bool,
) -> Seq<char> {
    match best_mount(list, path, list.len() as int) {
        Some(best) => placed_under(
            mount_base(workspace, list[best], drives),
            path.skip(bare_route(list[best]).len() as int),
        ),
        None => placed_under(root, strip_leading(path, '/')),
    }
}

/// The file that a URL path stands for in a context.
pub open spec fn file_for(path: Seq<char>, context: Context) -> Seq<char> {
    resolved(path, context.config@.mount, context.root@, context.workspace@, context.drives)
}

/// Maps a URL path onto a filesystem path, honouring mounts.
pub fn resolve(path: &str, context: &Context) -> (r: Option<String>)
    ensures
        r is Some,
        r->0@ == file_for(path@, *context),
{
    if let Some((mount, remainder)) = longest_mount(&context.config.mount, path) {
        let base = if is_complete(mount.path.as_str(), context.drives) {
            owned(mount.path.as_str())
        } else {
            join_paths(context.workspace.as_str(), mount.path.as_str())
        };
        return Some(join_checked(base.as_str(), remainder.as_str()));
    }
    let relative = text_of(without_leading(chars_of(path).as_slice(), '/').as_slice());
    Some(join_checked(context.root.as_str(), relative.as_str()))
}

/* ------------------------------------------------------------------- ranges */

/// The byte range that the text behind `bytes=` asks for, given the length of
/// the file.
pub open spec fn single_range(spec: Seq<char>, total: u64) -> Option<(u64, u64)> {
    match find_char(spec, '-', 0) {
        None => None,
        Some(dash) => {
            let start = trim(spec.take(dash));
            let end = trim(spec.skip(dash + 1));
            let max = u64::MAX as nat;
            let wanted: Option<(int, int)> = if start.len() == 0 {
                match parse_unsigned(end, max) {
                    Some(length) => if length == 0 {
                        None
                    } else if length >= total {
                        Some((0, total - 1))
                    } else {
                        Some((total - length, total - 1))
                    },
                    None => None,
                }
            } else if end.len() == 0 {
                match parse_unsigned(start, max) {
                    Some(from) => Some((from as int, total - 1)),
                    None => None,
                }
            } else {
                match (parse_unsigned(start, max), parse_unsigned(end, max)) {
                    (Some(from), Some(to)) => Some(
                        (
                            from as int,
                            if to < total {
                                to as int
                            } else {
                                total - 1
                            },
                        ),
                    ),
                    _ => None,
                }
            };
            match wanted {
                Some((from, to)) => if from <= to && from < total {
                    Some((from as u64, to as u64))
                } else {
                    None
                },
                None => None,
            }
        },
    }
}

/// What a `Range` header asks for behind its unit, if that is bytes.
pub open spec fn range_spec(value: Seq<char>) -> Option<Seq<char>> {
    if occurs_at(value, "bytes="@, 0) {
        Some(trim(value.skip("bytes="@.len() as int)))
    } else {
        None
    }
}

/// Whether a `Range` header asks for several ranges at once.
pub open spec fn is_multi_range(value: Seq<char>) -> bool {
    range_spec(value) matches Some(spec) && spec.contains(',')
}

/// The inclusive byte range that a `Range` header asks for.
pub open spec fn asked_range(value: Seq<char>, total: u64) -> Option<(u64, u64)> {
    match range_spec(value) {
        Some(spec) => if spec.contains(',') || total == 0 {
            None
        } else {
            single_range(spec, total)
        },
        None => None,
    }
}

fn range_text(value: &str) -> (r: Option<Vec<char>>)
    ensures
        match r {
            Some(spec) => range_spec(value@) == Some(spec@),
            None => range_spec(value@) is None,
        },
{
    let v = chars_of(value);
    let unit = chars_of("bytes=");
    if !begins_with(v.as_slice(), unit.as_slice()) {
        return None;
    }
    assert(v@.subrange(unit@.len() as int, v@.len() as int) =~= value@.skip(unit@.len() as int));
    Some(trimmed(vstd::slice::slice_subrange(v.as_slice(), unit.len(), v.len())))
}

fn holds_comma(s: &[char]) -> (r: bool)
    ensures
        r == s@.contains(','),
{
    proof {
        crate::text::lemma_find_char(s@, ',', 0);
    }
    match position_of_char(s, ',', 0) {
        Some(i) => {
            assert(s@[i as int] == ',');
            true
        },
        None => false,
    }
}

/// Whether a `Range` header asks for several ranges at once.
pub fn asks_for_several(value: &str) -> (r: bool)
    ensures
        r == is_multi_range(value@),
{
    match range_text(value) {
        Some(spec) => holds_comma(spec.as_slice()),
        None => false,
    }
}

/// Parses a single-range `Range` header, returning an inclusive byte range.
///
/// Multi-range requests are declined by returning `None`, which makes the
/// caller serve the whole body. That is a legal response and browsers handle
/// it, whereas a wrong multipart body would not be.
pub fn parse_range(value: &str, total: u64) -> (r: Option<(u64, u64)>)
    ensures
        r == asked_range(value@, total),
        r matches Some((start, end)) ==> start <= end < total,
{
    let spec = match range_text(value) {
        Some(spec) => spec,
        None => {
            return None;
        },
    };
    if holds_comma(spec.as_slice()) || total == 0 {
        return None;
    }
    proof {
        crate::text::lemma_find_char(spec@, '-', 0);
    }
    let dash = match position_of_char(spec.as_slice(), '-', 0) {
        Some(dash) => dash,
        None => {
            return None;
        },
    };
    let total_chars: usize = spec.len();
    assert(dash < total_chars);
    assert(spec@.subrange(0, dash as int) =~= spec@.take(dash as int));
    assert(spec@.subrange(dash + 1, spec@.len() as int) =~= spec@.skip(dash + 1));
    let start = trimmed(vstd::slice::slice_subrange(spec.as_slice(), 0, dash));
    let end = trimmed(vstd::slice::slice_subrange(spec.as_slice(), dash + 1, total_chars));
    let from: u64;
    let to: u64;
    if start.len() == 0 {
        // `-N`: the final N bytes.
        match parse_number(end.as_slice(), u64::MAX) {
            Some(length) => {
                if length == 0 {
                    return None;
                }
                from = if length >= total {
                    0
                } else {
                    total - length
                };
                to = total - 1;
            },
            None => {
                return None;
            },
        }
    } else if end.len() == 0 {
        // `N-`: from N to the end.
        match parse_number(start.as_slice(), u64::MAX) {
            Some(n) => {
                from = n;
                to = total - 1;
            },
            None => {
                return None;
            },
        }
    } else {
        match (parse_number(start.as_slice(), u64::MAX), parse_number(end.as_slice(), u64::MAX)) {
            (Some(a), Some(b)) => {
                from = a;
                to = if b < total {
                    b
                } else {
                    total - 1
                };
            },
            _ => {
                return None;
            },
        }
    }
    if from > to || from >= total {
        return None;
    }
    Some((from, to))
}

} // verus!
