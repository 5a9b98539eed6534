//! How a request is answered, one question to the disk at a time.
//!
//! Each function takes what is known so far and gives the next [`Step`]: an
//! answer, or a [`Stage`] that names what has to be found out before the
//! request can be answered. Whoever drives the connection finds it out and
//! calls the function that belongs to the stage.

use vstd::prelude::*;
use vstd::utf8::encode_utf8;

use crate::http::{
    asked_range, asks_for_several, file_for, header_texts, header_value, is_multi_range, lossy,
    lossy_text, parse_range, request_path, resolve, Context, Request, RequestModel, CHUNK,
    RESERVED_PREFIX,
};
use crate::inject::{inject, injected, CLIENT_PATH};
use crate::listing::{directory_listing, entries, listing, Entry, EntryModel};
use crate::number::{decimal, decimal_of};
use crate::overlay::Overlay;
use crate::path::{components, join_path, join_paths};
use crate::response::{
    bytes_of, content_type, content_type_for, guessed_mime, head_text, holds_html, is_html,
    mime_for, respond, whole_response, write_head, Response, ResponseModel,
};
use crate::text::{begins_with, chars_of, occurs_at, owned, same_text};
use crate::urls::target_path;

verus! {

/* ------------------------------------------------------------------- stages */

/// What follows where a file turns out not to be readable.
pub enum After {
    /// It was the index of this directory.
    Index { path: String, target: String },
    /// It was what the path stands for.
    Target,
    /// It was the page served for unknown paths.
    Fallback,
}

/// What has to be found out before a request can be answered.
pub enum Stage {
    /// Whether anything is at `target`, and whether that is a directory.
    Target { path: String, target: String },
    /// Whether anything is at `index`.
    Index { path: String, target: String, index: String },
    /// Whether anything is at `index`, the page served for unknown paths.
    Fallback { index: String },
    /// What the file holds.
    Read { file: String, after: After },
    /// Whether the file can be opened, and how long it is.
    Open { file: String, after: After },
    /// What the directory holds.
    List { path: String, target: String },
}

/// The next step towards an answer.
pub enum Step {
    /// Write this response.
    Answer(Response),
    /// Write this head, then `length` bytes of the file from `start` on.
    Stream { head: String, file: String, start: u64, length: u64 },
    /// Find out more.
    Ask(Stage),
}

/// What follows an unreadable file, in mathematical terms.
pub enum AfterModel {
    Index { path: Seq<char>, target: Seq<char> },
    Target,
    Fallback,
}

/// What has to be found out, in mathematical terms.
pub enum StageModel {
    Target { path: Seq<char>, target: Seq<char> },
    Index { path: Seq<char>, target: Seq<char>, index: Seq<char> },
    Fallback { index: Seq<char> },
    Read { file: Seq<char>, after: AfterModel },
    Open { file: Seq<char>, after: AfterModel },
    List { path: Seq<char>, target: Seq<char> },
}

/// A step in mathematical terms.
pub enum StepModel {
    Answer(ResponseModel),
    Stream { head: Seq<char>, file: Seq<char>, start: u64, length: u64 },
    Ask(StageModel),
}

impl View for After {
    type V = AfterModel;

    open spec fn view(&self) -> AfterModel {
        match self {
            After::Index { path, target } => AfterModel::Index { path: path@, target: target@ },
            After::Target => AfterModel::Target,
            After::Fallback => AfterModel::Fallback,
        }
    }
}

impl View for Stage {
    type V = StageModel;

    open spec fn view(&self) -> StageModel {
        match self {
            Stage::Target { path, target } => StageModel::Target { path: path@, target: target@ },
            Stage::Index { path, target, index } => StageModel::Index {
                path: path@,
                target: target@,
                index: index@,
            },
            Stage::Fallback { index } => StageModel::Fallback { index: index@ },
            Stage::Read { file, after } => StageModel::Read { file: file@, after: after@ },
            Stage::Open { file, after } => StageModel::Open { file: file@, after: after@ },
            Stage::List { path, target } => StageModel::List { path: path@, target: target@ },
        }
    }
}

impl View for Step {
    type V = StepModel;

    open spec fn view(&self) -> StepModel {
        match self {
            Step::Answer(response) => StepModel::Answer(response@),
            Step::Stream { head, file, start, length } => StepModel::Stream {
                head: head@,
                file: file@,
                start: *start,
                length: *length,
            },
            Step::Ask(stage) => StepModel::Ask(stage@),
        }
    }
}

/* ----------------------------------------------------------------- routing */

/// Whether only the head of the answer is wanted.
pub open spec fn head_only(request: RequestModel) -> bool {
    request.method == "HEAD"@
}

/// The content type of plain messages.
pub const PLAIN: &'static str = "text/plain; charset=utf-8";

/// The page that says that there is nothing here.
pub const MISSING: &'static str = "<!doctype html><meta charset=utf-8><title>404</title><h1>404 Not Found</h1>";

/// No further headers.
pub open spec fn no_headers() -> Seq<(Seq<char>, Seq<char>)> {
    Seq::empty()
}

/// An answer that only states what is the matter.
pub open spec fn message(
    status: u16,
    reason: Seq<char>,
    head_only: bool,
    context: Context,
) -> StepModel {
    StepModel::Answer(
        whole_response(
            status,
            reason,
            PLAIN@,
            encode_utf8(reason),
            head_only,
            context.config@.cors,
            no_headers(),
        ),
    )
}

/// How a request is taken up. `client` is the text of the browser's client.
pub open spec fn routed(request: RequestModel, context: Context, client: Seq<char>) -> StepModel {
    if request.method != "GET"@ && request.method != "HEAD"@ {
        StepModel::Answer(
            whole_response(
                405,
                "Method Not Allowed"@,
                PLAIN@,
                encode_utf8("Method Not Allowed"@),
                true,
                context.config@.cors,
                seq![("Allow"@, "GET, HEAD"@)],
            ),
        )
    } else {
        match target_path(request.target) {
            None => message(400, "Bad Request"@, head_only(request), context),
            Some(path) => if path == CLIENT_PATH@ {
                StepModel::Answer(
                    whole_response(
                        200,
                        "OK"@,
                        "text/javascript; charset=utf-8"@,
                        encode_utf8(client),
                        head_only(request),
                        context.config@.cors,
                        no_headers(),
                    ),
                )
            } else if occurs_at(path, RESERVED_PREFIX@, 0) {
                message(404, "Not Found"@, head_only(request), context)
            } else {
                StepModel::Ask(StageModel::Target { path, target: file_for(path, context) })
            },
        }
    }
}

fn answer_message(status: u16, reason: &str, head_only: bool, context: &Context) -> (r: Step)
    ensures
        r@ == message(status, reason@, head_only, *context),
{
    let extra: Vec<(String, String)> = Vec::new();
    assert(header_texts(extra@) =~= no_headers());
    Step::Answer(
        respond(
            status,
            reason,
            PLAIN,
            bytes_of(reason),
            head_only,
            context.config.cors,
            &extra,
        ),
    )
}

/// Takes up a request.
pub fn handle_request(request: &Request, context: &Context, client: &str) -> (r: Step)
    ensures
        r@ == routed(request@, *context, client@),
{
    let only_head = same_text(request.method.as_str(), "HEAD");
    if !same_text(request.method.as_str(), "GET") && !only_head {
        let extra = vec![(owned("Allow"), owned("GET, HEAD"))];
        assert(header_texts(extra@) =~= seq![("Allow"@, "GET, HEAD"@)]);
        return Step::Answer(
            respond(
                405,
                "Method Not Allowed",
                PLAIN,
                bytes_of("Method Not Allowed"),
                true,
                context.config.cors,
                &extra,
            ),
        );
    }
    let path = match request_path(request.target.as_str()) {
        Some(path) => path,
        None => {
            return answer_message(400, "Bad Request", only_head, context);
        },
    };
    if same_text(path.as_str(), CLIENT_PATH) {
        let extra: Vec<(String, String)> = Vec::new();
        assert(header_texts(extra@) =~= no_headers());
        return Step::Answer(
            respond(
                200,
                "OK",
                "text/javascript; charset=utf-8",
                bytes_of(client),
                only_head,
                context.config.cors,
                &extra,
            ),
        );
    }
    if begins_with(chars_of(path.as_str()).as_slice(), chars_of(RESERVED_PREFIX).as_slice()) {
        return answer_message(404, "Not Found", only_head, context);
    }
    match resolve(path.as_str(), context) {
        Some(target) => Step::Ask(Stage::Target { path, target }),
        None => answer_message(403, "Forbidden", only_head, context),
    }
}

/* --------------------------------------------------------------- not found */

/// The answer where there is nothing to serve.
pub open spec fn missing(request: RequestModel, context: Context) -> StepModel {
    StepModel::Answer(
        whole_response(
            404,
            "Not Found"@,
            "text/html; charset=utf-8"@,
            encode_utf8(MISSING@),
            head_only(request),
            context.config@.cors,
            no_headers(),
        ),
    )
}

/// How it goes on where nothing was found: with the fallback page, if unknown
/// paths have one.
pub open spec fn unfound(request: RequestModel, context: Context) -> StepModel {
    if context.config@.spa {
        StepModel::Ask(
            StageModel::Fallback { index: join_path(context.root@, context.config@.index) },
        )
    } else {
        missing(request, context)
    }
}

/// How it goes on where a file turned out not to be readable.
pub open spec fn given_up(
    after: AfterModel,
    request: RequestModel,
    context: Context,
) -> StepModel {
    match after {
        AfterModel::Index { path, target } => if context.config@.directory_listing {
            StepModel::Ask(StageModel::List { path, target })
        } else {
            unfound(request, context)
        },
        AfterModel::Target => unfound(request, context),
        AfterModel::Fallback => missing(request, context),
    }
}

fn answer_missing(request: &Request, context: &Context) -> (r: Step)
    ensures
        r@ == missing(request@, *context),
{
    let extra: Vec<(String, String)> = Vec::new();
    assert(header_texts(extra@) =~= no_headers());
    Step::Answer(
        respond(
            404,
            "Not Found",
            "text/html; charset=utf-8",
            bytes_of(MISSING),
            same_text(request.method.as_str(), "HEAD"),
            context.config.cors,
            &extra,
        ),
    )
}

/// Serves the SPA fallback if enabled, otherwise a 404.
pub fn not_found(request: &Request, context: &Context) -> (r: Step)
    ensures
        r@ == unfound(request@, *context),
{
    if context.config.spa {
        let index = join_paths(context.root.as_str(), context.config.index.as_str());
        Step::Ask(Stage::Fallback { index })
    } else {
        answer_missing(request, context)
    }
}

fn give_up(after: After, request: &Request, context: &Context) -> (r: Step)
    ensures
        r@ == given_up(after@, request@, *context),
{
    match after {
        After::Index { path, target } => if context.config.directory_listing {
            Step::Ask(Stage::List { path, target })
        } else {
            not_found(request, context)
        },
        After::Target => not_found(request, context),
        After::Fallback => answer_missing(request, context),
    }
}

/* ------------------------------------------------------------ sending a file */

/// A page, or the text of another file, that is at hand.
pub open spec fn text_answer(
    file: Seq<char>,
    body: Seq<char>,
    request: RequestModel,
    context: Context,
) -> StepModel {
    StepModel::Answer(
        whole_response(
            200,
            "OK"@,
            content_type(guessed_mime(file)),
            encode_utf8(body),
            head_only(request),
            context.config@.cors,
            no_headers(),
        ),
    )
}

/// How a file is sent: from the editor's buffer, where buffers are served and
/// there is one; a page whole, because the client goes into it; and anything
/// else from disk, in the range that was asked for.
pub open spec fn sent(
    file: Seq<char>,
    after: AfterModel,
    request: RequestModel,
    context: Context,
    buffers: Map<Seq<Seq<char>>, Seq<char>>,
) -> StepModel {
    let html = is_html(guessed_mime(file));
    if context.config@.live_changes && buffers.contains_key(components(file)) {
        let text = buffers[components(file)];
        text_answer(
            file,
            if html {
                injected(text)
            } else {
                text
            },
            request,
            context,
        )
    } else if html {
        StepModel::Ask(StageModel::Read { file, after })
    } else {
        StepModel::Ask(StageModel::Open { file, after })
    }
}

fn answer_text(file: &str, body: &str, request: &Request, context: &Context) -> (r: Step)
    ensures
        r@ == text_answer(file@, body@, request@, *context),
{
    let extra: Vec<(String, String)> = Vec::new();
    assert(header_texts(extra@) =~= no_headers());
    Step::Answer(
        respond(
            200,
            "OK",
            content_type_for(&mime_for(file)).as_str(),
            bytes_of(body),
            same_text(request.method.as_str(), "HEAD"),
            context.config.cors,
            &extra,
        ),
    )
}

/// Starts sending a file.
///
/// The overlay only holds text the editor gave us. This is what makes
/// `live_changes` work. HTML is rewritten, so it is read whole rather than
/// streamed. Range requests do not apply to a body we generate.
pub fn send_file(
    file: String,
    after: After,
    request: &Request,
    context: &Context,
    overlay: &Overlay,
) -> (r: Step)
    requires
        overlay.valid(),
    ensures
        r@ == sent(file@, after@, request@, *context, overlay@),
{
    let html = holds_html(&mime_for(file.as_str()));
    if context.config.live_changes {
        if let Some(text) = overlay.get(file.as_str()) {
            let body = if html {
                inject(text.as_str())
            } else {
                text
            };
            return answer_text(file.as_str(), body.as_str(), request, context);
        }
    }
    if html {
        Step::Ask(Stage::Read { file, after })
    } else {
        Step::Ask(Stage::Open { file, after })
    }
}

/// How it goes on once a page was read.
pub open spec fn page_sent(
    file: Seq<char>,
    after: AfterModel,
    contents: Option<Seq<u8>>,
    request: RequestModel,
    context: Context,
) -> StepModel {
    match contents {
        Some(bytes) => text_answer(file, injected(lossy_text(bytes)), request, context),
        None => given_up(after, request, context),
    }
}

/// What optional bytes say.
pub open spec fn maybe_bytes(bytes: Option<Vec<u8>>) -> Option<Seq<u8>> {
    match bytes {
        Some(bytes) => Some(bytes@),
        None => None,
    }
}

/// Goes on at [`Stage::Read`], with the contents of the file if it could be
/// read.
pub fn page_read(
    file: String,
    after: After,
    contents: Option<Vec<u8>>,
    request: &Request,
    context: &Context,
) -> (r: Step)
    ensures
        r@ == page_sent(file@, after@, maybe_bytes(contents), request@, *context),
{
    match contents {
        Some(bytes) => {
            let text = lossy(bytes.as_slice());
            answer_text(file.as_str(), inject(text.as_str()).as_str(), request, context)
        },
        None => give_up(after, request, context),
    }
}

/// The part of a file that is sent, and how it is announced.
pub enum Part {
    /// All of it.
    Whole,
    /// The bytes from `start` to `end`, both of them included.
    Bytes { start: u64, end: u64 },
    /// None of it: there is no such range.
    Unsatisfiable,
}

/// The part of a file that a request asks for. Several ranges at once are
/// answered with the whole file.
pub open spec fn asked_part(request: RequestModel, total: u64) -> Part {
    match header_value(request, "range"@) {
        None => Part::Whole,
        Some(value) => match asked_range(value, total) {
            Some((start, end)) => Part::Bytes { start, end },
            None => if is_multi_range(value) {
                Part::Whole
            } else {
                Part::Unsatisfiable
            },
        },
    }
}

/// Finds the part of a file that a request asks for.
pub fn part_for(request: &Request, total: u64) -> (r: Part)
    ensures
        r == asked_part(request@, total),
        r matches Part::Bytes { start, end } ==> start <= end < total,
{
    match request.header("range") {
        None => Part::Whole,
        Some(value) => match parse_range(value, total) {
            Some((start, end)) => Part::Bytes { start, end },
            None => if asks_for_several(value) {
                Part::Whole
            } else {
                Part::Unsatisfiable
            },
        },
    }
}

/// How a range is announced.
pub open spec fn range_text(start: u64, end: u64, total: u64) -> Seq<char> {
    "bytes "@ + decimal(start as nat) + "-"@ + decimal(end as nat) + "/"@ + decimal(total as nat)
}

/// How it goes on once a file was opened and its length is known.
pub open spec fn part_sent(
    file: Seq<char>,
    total: u64,
    request: RequestModel,
    context: Context,
) -> StepModel {
    let kind = content_type(guessed_mime(file));
    let cors = context.config@.cors;
    let only_head = head_only(request);
    let seekable = ("Accept-Ranges"@, "bytes"@);
    match asked_part(request, total) {
        Part::Whole => StepModel::Stream {
            head: head_text(200, "OK"@, kind, total, cors, seq![seekable]),
            file,
            start: 0,
            length: if only_head {
                0
            } else {
                total
            },
        },
        Part::Bytes { start, end } => {
            let length = (end - start + 1) as u64;
            StepModel::Stream {
                head: head_text(
                    206,
                    "Partial Content"@,
                    kind,
                    length,
                    cors,
                    seq![seekable, ("Content-Range"@, range_text(start, end, total))],
                ),
                file,
                start,
                length: if only_head {
                    0
                } else {
                    length
                },
            }
        },
        Part::Unsatisfiable => StepModel::Answer(
            whole_response(
                416,
                "Range Not Satisfiable"@,
                PLAIN@,
                Seq::empty(),
                only_head,
                cors,
                seq![("Content-Range"@, "bytes */"@ + decimal(total as nat))],
            ),
        ),
    }
}

/// How it goes on at [`Stage::Open`].
pub open spec fn opened_sent(
    file: Seq<char>,
    after: AfterModel,
    total: Option<u64>,
    request: RequestModel,
    context: Context,
) -> StepModel {
    match total {
        Some(total) => part_sent(file, total, request, context),
        None => given_up(after, request, context),
    }
}

/// Goes on at [`Stage::Open`], with the length of the file if it could be
/// opened.
///
/// Range support exists mainly for `<video>` and `<audio>`: without it
/// browsers refuse to seek, and some will not play the file at all.
pub fn file_opened(
    file: String,
    after: After,
    total: Option<u64>,
    request: &Request,
    context: &Context,
) -> (r: Step)
    ensures
        r@ == opened_sent(file@, after@, total, request@, *context),
{
    let total = match total {
        Some(total) => total,
        None => {
            return give_up(after, request, context);
        },
    };
    let only_head = same_text(request.method.as_str(), "HEAD");
    let cors = context.config.cors;
    let kind = content_type_for(&mime_for(file.as_str()));
    match part_for(request, total) {
        Part::Whole => {
            let extra = vec![(owned("Accept-Ranges"), owned("bytes"))];
            assert(header_texts(extra@) =~= seq![("Accept-Ranges"@, "bytes"@)]);
            let head = write_head(200, "OK", kind.as_str(), total, cors, &extra);
            Step::Stream {
                head,
                file,
                start: 0,
                length: if only_head {
                    0
                } else {
                    total
                },
            }
        },
        Part::Bytes { start, end } => {
            let length: u64 = end - start + 1;
            let mut range = owned("bytes ");
            range.append(decimal_of(start).as_str());
            range.append("-");
            range.append(decimal_of(end).as_str());
            range.append("/");
            range.append(decimal_of(total).as_str());
            let ghost announced = range@;
            let extra = vec![
                (owned("Accept-Ranges"), owned("bytes")),
                (owned("Content-Range"), range),
            ];
            assert(header_texts(extra@) =~= seq![
                ("Accept-Ranges"@, "bytes"@),
                ("Content-Range"@, announced),
            ]);
            let head = write_head(206, "Partial Content", kind.as_str(), length, cors, &extra);
            Step::Stream {
                head,
                file,
                start,
                length: if only_head {
                    0
                } else {
                    length
                },
            }
        },
        Part::Unsatisfiable => {
            let mut range = owned("bytes */");
            range.append(decimal_of(total).as_str());
            let ghost announced = range@;
            let extra = vec![(owned("Content-Range"), range)];
            assert(header_texts(extra@) =~= seq![("Content-Range"@, announced)]);
            let nothing: Vec<u8> = Vec::new();
            assert(nothing@ =~= Seq::<u8>::empty());
            Step::Answer(
                respond(416, "Range Not Satisfiable", PLAIN, nothing, only_head, cors, &extra),
            )
        },
    }
}

/// How many bytes to read next while `remaining` are still to be sent.
pub fn chunk_for(remaining: u64) -> (r: usize)
    ensures
        r == if remaining < CHUNK {
            remaining as int
        } else {
            CHUNK as int
        },
{
    if remaining < CHUNK as u64 {
        remaining as usize
    } else {
        CHUNK
    }
}

/* ------------------------------------------------------------------ targets */

/// How it goes on once it is known what a path stands for: nothing, a
/// directory or a file.
pub open spec fn looked_up(
    path: Seq<char>,
    target: Seq<char>,
    directory: Option<bool>,
    request: RequestModel,
    context: Context,
    buffers: Map<Seq<Seq<char>>, Seq<char>>,
) -> StepModel {
    match directory {
        None => unfound(request, context),
        Some(true) => if path.len() == 0 || path.last() != '/' {
            StepModel::Answer(
                whole_response(
                    301,
                    "Moved Permanently"@,
                    PLAIN@,
                    Seq::empty(),
                    head_only(request),
                    context.config@.cors,
                    seq![("Location"@, path + "/"@)],
                ),
            )
        } else {
            StepModel::Ask(
                StageModel::Index {
                    path,
                    target,
                    index: join_path(target, context.config@.index),
                },
            )
        },
        Some(false) => sent(target, AfterModel::Target, request, context, buffers),
    }
}

/// Goes on at [`Stage::Target`]: with nothing where there is nothing, else
/// with whether there is a directory.
///
/// Without the trailing slash the browser resolves relative links in the index
/// against the parent directory, which quietly breaks the page. A redirect is
/// the only correct fix.
pub fn target_found(
    path: String,
    target: String,
    directory: Option<bool>,
    request: &Request,
    context: &Context,
    overlay: &Overlay,
) -> (r: Step)
    requires
        overlay.valid(),
    ensures
        r@ == looked_up(path@, target@, directory, request@, *context, overlay@),
{
    match directory {
        None => not_found(request, context),
        Some(true) => {
            let p = chars_of(path.as_str());
            if p.len() == 0 || p[p.len() - 1] != '/' {
                let mut location = path;
                location.append("/");
                let ghost moved = location@;
                let extra = vec![(owned("Location"), location)];
                assert(header_texts(extra@) =~= seq![("Location"@, moved)]);
                let nothing: Vec<u8> = Vec::new();
                assert(nothing@ =~= Seq::<u8>::empty());
                return Step::Answer(
                    respond(
                        301,
                        "Moved Permanently",
                        PLAIN,
                        nothing,
                        same_text(request.method.as_str(), "HEAD"),
                        context.config.cors,
                        &extra,
                    ),
                );
            }
            let index = join_paths(target.as_str(), context.config.index.as_str());
            Step::Ask(Stage::Index { path, target, index })
        },
        Some(false) => send_file(target, After::Target, request, context, overlay),
    }
}

/// How it goes on at [`Stage::Index`].
pub open spec fn index_looked_up(
    path: Seq<char>,
    target: Seq<char>,
    index: Seq<char>,
    exists_there: bool,
    request: RequestModel,
    context: Context,
    buffers: Map<Seq<Seq<char>>, Seq<char>>,
) -> StepModel {
    let after = AfterModel::Index { path, target };
    if exists_there {
        sent(index, after, request, context, buffers)
    } else {
        given_up(after, request, context)
    }
}

/// Goes on at [`Stage::Index`], with whether there is anything.
pub fn index_found(
    path: String,
    target: String,
    index: String,
    exists_there: bool,
    request: &Request,
    context: &Context,
    overlay: &Overlay,
) -> (r: Step)
    requires
        overlay.valid(),
    ensures
        r@ == index_looked_up(path@, target@, index@, exists_there, request@, *context, overlay@),
{
    let after = After::Index { path, target };
    if exists_there {
        send_file(index, after, request, context, overlay)
    } else {
        give_up(after, request, context)
    }
}

/// How it goes on at [`Stage::Fallback`].
pub open spec fn fallback_looked_up(
    index: Seq<char>,
    exists_there: bool,
    request: RequestModel,
    context: Context,
    buffers: Map<Seq<Seq<char>>, Seq<char>>,
) -> StepModel {
    if exists_there {
        sent(index, AfterModel::Fallback, request, context, buffers)
    } else {
        missing(request, context)
    }
}

/// Goes on at [`Stage::Fallback`], with whether there is anything.
pub fn fallback_found(
    index: String,
    exists_there: bool,
    request: &Request,
    context: &Context,
    overlay: &Overlay,
) -> (r: Step)
    requires
        overlay.valid(),
    ensures
        r@ == fallback_looked_up(index@, exists_there, request@, *context, overlay@),
{
    if exists_there {
        send_file(index, After::Fallback, request, context, overlay)
    } else {
        answer_missing(request, context)
    }
}

/// The answer at [`Stage::List`].
pub open spec fn listed_answer(
    path: Seq<char>,
    list: Seq<EntryModel>,
    request: RequestModel,
    context: Context,
) -> StepModel {
    StepModel::Answer(
        whole_response(
            200,
            "OK"@,
            "text/html; charset=utf-8"@,
            encode_utf8(listing(list, path)),
            head_only(request),
            context.config@.cors,
            no_headers(),
        ),
    )
}

/// Goes on at [`Stage::List`], with the entries of the directory.
pub fn directory_read(path: &str, list: &Vec<Entry>, request: &Request, context: &Context) -> (r:
    Step)
    ensures
        r@ == listed_answer(path@, entries(list@), request@, *context),
{
    let extra: Vec<(String, String)> = Vec::new();
    assert(header_texts(extra@) =~= no_headers());
    let page = directory_listing(list, path);
    Step::Answer(
        respond(
            200,
            "OK",
            "text/html; charset=utf-8",
            bytes_of(page.as_str()),
            same_text(request.method.as_str(), "HEAD"),
            context.config.cors,
            &extra,
        ),
    )
}

} // verus!
