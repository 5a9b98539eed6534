//! What a request is answered, told by what goes over the wire.

use vstd::prelude::*;
use vstd::utf8::encode_utf8;

use crate::handler::{
    fallback_looked_up, given_up, index_looked_up, listed_answer, looked_up, opened_sent, page_sent,
    routed, sent, AfterModel, StageModel, StepModel, MISSING,
};
use crate::http::{file_for, header_value, lossy_text, Context, RequestModel};
use crate::http_laws::{head_lines, law_a_head_is_made_of_lines};
use crate::inject::injected;
use crate::listing::{listing, EntryModel};
use crate::number::decimal;
use crate::path::{components, join_path};
use crate::range_laws::{law_open_ranges_ask_for_the_rest, range_header};
use crate::response::{content_type, guessed_mime, is_html, whole_response};
use crate::text::{join, occurs_at};
use crate::urls::target_path;

verus! {

/// Whether a step is to send a head with these lines and, unless only the head is
/// wanted, this body behind it.
pub open spec fn answers(
    step: StepModel,
    status: u16,
    reason: Seq<char>,
    kind: Seq<char>,
    body: Seq<u8>,
    wanted: bool,
    context: Context,
    extra: Seq<(Seq<char>, Seq<char>)>,
) -> bool {
    &&& step matches StepModel::Answer(response)
    &&& response.head == join(
        head_lines(status, reason, kind, body.len() as u64, context.config@.cors, extra),
        "\r\n"@,
    ) + "\r\n\r\n"@
    &&& wanted ==> response.body == body
    &&& !wanted ==> response.body.len() == 0
}

/// Whether a request is one that is served.
pub open spec fn is_served(request: RequestModel) -> bool {
    request.method == "GET"@ || request.method == "HEAD"@
}

/// Whether a request wants a body.
pub open spec fn wants_body(request: RequestModel) -> bool {
    request.method == "GET"@
}

proof fn lemma_methods()
    ensures
        "GET"@ != "HEAD"@,
{
    reveal_strlit("GET");
    reveal_strlit("HEAD");
    assert("GET"@.len() != "HEAD"@.len());
}

proof fn lemma_answers(
    status: u16,
    reason: Seq<char>,
    kind: Seq<char>,
    body: Seq<u8>,
    head_only: bool,
    context: Context,
    extra: Seq<(Seq<char>, Seq<char>)>,
)
    ensures
        answers(
            StepModel::Answer(
                whole_response(
                    status,
                    reason,
                    kind,
                    body,
                    head_only,
                    context.config@.cors,
                    extra,
                ),
            ),
            status,
            reason,
            kind,
            body,
            !head_only,
            context,
            extra,
        ),
{
    law_a_head_is_made_of_lines(
        status,
        reason,
        kind,
        body.len() as u64,
        context.config@.cors,
        extra,
    );
}

/// The page that is sent where there is nothing.
pub open spec fn answers_missing(
    step: StepModel,
    request: RequestModel,
    context: Context,
) -> bool {
    answers(
        step,
        404,
        "Not Found"@,
        "text/html; charset=utf-8"@,
        encode_utf8(MISSING@),
        wants_body(request),
        context,
        Seq::empty(),
    )
}

/* -------------------------------------------------------------------- routing */

/// Nothing but `GET` and `HEAD` is served: anything else is told so.
pub proof fn law_other_methods_are_refused(
    request: RequestModel,
    context: Context,
    client: Seq<char>,
)
    requires
        !is_served(request),
    ensures
        answers(
            routed(request, context, client),
            405,
            "Method Not Allowed"@,
            "text/plain; charset=utf-8"@,
            encode_utf8("Method Not Allowed"@),
            false,
            context,
            seq![("Allow"@, "GET, HEAD"@)],
        ),
{
    lemma_answers(
        405,
        "Method Not Allowed"@,
        "text/plain; charset=utf-8"@,
        encode_utf8("Method Not Allowed"@),
        true,
        context,
        seq![("Allow"@, "GET, HEAD"@)],
    );
}

/// A target that asks for no path is turned down; the client's own path gives the
/// client; the rest of what is reserved is not there; and any other path is looked
/// for where it leads.
pub proof fn law_paths_are_looked_up_where_they_lead(
    request: RequestModel,
    context: Context,
    client: Seq<char>,
)
    requires
        is_served(request),
    ensures
        ({
            let step = routed(request, context, client);
            let body = wants_body(request);
            let plain = "text/plain; charset=utf-8"@;
            match target_path(request.target) {
                None => answers(
                    step,
                    400,
                    "Bad Request"@,
                    plain,
                    encode_utf8("Bad Request"@),
                    body,
                    context,
                    Seq::empty(),
                ),
                Some(path) => if path == "/__live_reload/client.js"@ {
                    answers(
                        step,
                        200,
                        "OK"@,
                        "text/javascript; charset=utf-8"@,
                        encode_utf8(client),
                        body,
                        context,
                        Seq::empty(),
                    )
                } else if occurs_at(path, "/__live_reload/"@, 0) {
                    answers(
                        step,
                        404,
                        "Not Found"@,
                        plain,
                        encode_utf8("Not Found"@),
                        body,
                        context,
                        Seq::empty(),
                    )
                } else {
                    step == StepModel::Ask(
                        StageModel::Target { path, target: file_for(path, context) },
                    )
                },
            }
        }),
{
    lemma_methods();
    let none = Seq::<(Seq<char>, Seq<char>)>::empty();
    let only_head = !wants_body(request);
    let plain = "text/plain; charset=utf-8"@;
    lemma_answers(
        400,
        "Bad Request"@,
        plain,
        encode_utf8("Bad Request"@),
        only_head,
        context,
        none,
    );
    lemma_answers(404, "Not Found"@, plain, encode_utf8("Not Found"@), only_head, context, none);
    lemma_answers(
        200,
        "OK"@,
        "text/javascript; charset=utf-8"@,
        encode_utf8(client),
        only_head,
        context,
        none,
    );
}

/* -------------------------------------------------------------------- looking */

/// Where nothing is found the page for unknown paths is looked for, in an
/// application of one page; else it is said that nothing is there.
pub proof fn law_unknown_paths_have_a_fallback(
    path: Seq<char>,
    target: Seq<char>,
    request: RequestModel,
    context: Context,
    buffers: Map<Seq<Seq<char>>, Seq<char>>,
)
    requires
        is_served(request),
    ensures
        ({
            let step = looked_up(path, target, None, request, context, buffers);
            &&& context.config@.spa ==> step == StepModel::Ask(
                StageModel::Fallback { index: join_path(context.root@, context.config@.index) },
            )
            &&& !context.config@.spa ==> answers_missing(step, request, context)
        }),
        given_up(AfterModel::Target, request, context) == looked_up(
            path,
            target,
            None,
            request,
            context,
            buffers,
        ),
        answers_missing(given_up(AfterModel::Fallback, request, context), request, context),
        forall|index: Seq<char>| #[trigger]
            answers_missing(
                fallback_looked_up(index, false, request, context, buffers),
                request,
                context,
            ),
{
    lemma_methods();
    lemma_answers(
        404,
        "Not Found"@,
        "text/html; charset=utf-8"@,
        encode_utf8(MISSING@),
        !wants_body(request),
        context,
        Seq::empty(),
    );
}

/// A directory is asked for with a slash at the end, and the browser is sent
/// there where it asks without one. Its index is looked for; where that cannot be
/// had the directory is listed, if that is wanted, else nothing is there.
pub proof fn law_directories_have_an_index(
    path: Seq<char>,
    target: Seq<char>,
    request: RequestModel,
    context: Context,
    buffers: Map<Seq<Seq<char>>, Seq<char>>,
)
    requires
        is_served(request),
        path.len() > 0,
    ensures
        ({
            let step = looked_up(path, target, Some(true), request, context, buffers);
            let index = join_path(target, context.config@.index);
            let without = index_looked_up(path, target, index, false, request, context, buffers);
            &&& path.last() != '/' ==> answers(
                step,
                301,
                "Moved Permanently"@,
                "text/plain; charset=utf-8"@,
                Seq::empty(),
                wants_body(request),
                context,
                seq![("Location"@, path.push('/'))],
            )
            &&& path.last() == '/' ==> step == StepModel::Ask(
                StageModel::Index { path, target, index },
            )
            &&& context.config@.directory_listing ==> without == StepModel::Ask(
                StageModel::List { path, target },
            )
            &&& !context.config@.directory_listing ==> without == looked_up(
                path,
                target,
                None,
                request,
                context,
                buffers,
            )
            &&& given_up(AfterModel::Index { path, target }, request, context) == without
        }),
{
    lemma_methods();
    reveal_strlit("/");
    assert(path + "/"@ =~= path.push('/'));
    lemma_answers(
        301,
        "Moved Permanently"@,
        "text/plain; charset=utf-8"@,
        Seq::empty(),
        !wants_body(request),
        context,
        seq![("Location"@, path.push('/'))],
    );
}

/// What is found is sent, be it the file itself, the index of a directory or the
/// page for unknown paths; and each is given up on in its own way.
pub proof fn law_what_is_found_is_sent(
    path: Seq<char>,
    target: Seq<char>,
    index: Seq<char>,
    request: RequestModel,
    context: Context,
    buffers: Map<Seq<Seq<char>>, Seq<char>>,
)
    ensures
        looked_up(path, target, Some(false), request, context, buffers) == sent(
            target,
            AfterModel::Target,
            request,
            context,
            buffers,
        ),
        index_looked_up(path, target, index, true, request, context, buffers) == sent(
            index,
            AfterModel::Index { path, target },
            request,
            context,
            buffers,
        ),
        fallback_looked_up(index, true, request, context, buffers) == sent(
            index,
            AfterModel::Fallback,
            request,
            context,
            buffers,
        ),
{
}

/* -------------------------------------------------------------------- sending */

/// Unsaved text is sent where that is wanted and there is some; else the file is
/// read, if it is a page, or opened.
pub proof fn law_unsaved_text_is_sent_where_wanted(
    file: Seq<char>,
    after: AfterModel,
    request: RequestModel,
    context: Context,
    buffers: Map<Seq<Seq<char>>, Seq<char>>,
)
    requires
        is_served(request),
    ensures
        ({
            let step = sent(file, after, request, context, buffers);
            let page = is_html(guessed_mime(file));
            let key = components(file);
            &&& context.config@.live_changes && buffers.contains_key(key) ==> answers(
                step,
                200,
                "OK"@,
                content_type(guessed_mime(file)),
                encode_utf8(
                    if page {
                        injected(buffers[key])
                    } else {
                        buffers[key]
                    },
                ),
                wants_body(request),
                context,
                Seq::empty(),
            )
            &&& !context.config@.live_changes || !buffers.contains_key(key) ==> step
                == StepModel::Ask(
                if page {
                    StageModel::Read { file, after }
                } else {
                    StageModel::Open { file, after }
                },
            )
        }),
{
    lemma_methods();
    let key = components(file);
    let text = if is_html(guessed_mime(file)) {
        injected(buffers[key])
    } else {
        buffers[key]
    };
    lemma_answers(
        200,
        "OK"@,
        content_type(guessed_mime(file)),
        encode_utf8(text),
        !wants_body(request),
        context,
        Seq::empty(),
    );
}

/// A page that was read is sent with the script in it, and one that could not be
/// read is given up on.
pub proof fn law_pages_are_sent_with_the_script(
    file: Seq<char>,
    after: AfterModel,
    bytes: Seq<u8>,
    request: RequestModel,
    context: Context,
)
    requires
        is_served(request),
    ensures
        answers(
            page_sent(file, after, Some(bytes), request, context),
            200,
            "OK"@,
            content_type(guessed_mime(file)),
            encode_utf8(injected(lossy_text(bytes))),
            wants_body(request),
            context,
            Seq::empty(),
        ),
        page_sent(file, after, None, request, context) == given_up(after, request, context),
        opened_sent(file, after, None, request, context) == given_up(after, request, context),
{
    lemma_methods();
    lemma_answers(
        200,
        "OK"@,
        content_type(guessed_mime(file)),
        encode_utf8(injected(lossy_text(bytes))),
        !wants_body(request),
        context,
        Seq::empty(),
    );
}

/// A listing is sent as a page.
pub proof fn law_listings_are_sent_as_pages(
    path: Seq<char>,
    list: Seq<EntryModel>,
    request: RequestModel,
    context: Context,
)
    requires
        is_served(request),
    ensures
        answers(
            listed_answer(path, list, request, context),
            200,
            "OK"@,
            "text/html; charset=utf-8"@,
            encode_utf8(listing(list, path)),
            wants_body(request),
            context,
            Seq::empty(),
        ),
{
    lemma_methods();
    lemma_answers(
        200,
        "OK"@,
        "text/html; charset=utf-8"@,
        encode_utf8(listing(list, path)),
        !wants_body(request),
        context,
        Seq::empty(),
    );
}

/// A range that begins behind the file is turned down, and it is said how long
/// the file is.
pub proof fn law_ranges_behind_the_file_are_turned_down(
    file: Seq<char>,
    after: AfterModel,
    from: u64,
    total: u64,
    request: RequestModel,
    context: Context,
)
    requires
        is_served(request),
        from >= total,
        header_value(request, "range"@) == Some(range_header(Some(from), None)),
    ensures
        answers(
            opened_sent(file, after, Some(total), request, context),
            416,
            "Range Not Satisfiable"@,
            "text/plain; charset=utf-8"@,
            Seq::empty(),
            wants_body(request),
            context,
            seq![("Content-Range"@, "bytes */"@ + decimal(total as nat))],
        ),
{
    lemma_methods();
    law_open_ranges_ask_for_the_rest(from, total);
    crate::range_laws::lemma_single_ranges_are_single(Some(from), None);
    lemma_answers(
        416,
        "Range Not Satisfiable"@,
        "text/plain; charset=utf-8"@,
        Seq::empty(),
        !wants_body(request),
        context,
        seq![("Content-Range"@, "bytes */"@ + decimal(total as nat))],
    );
}

/// Whatever length a file has once it was opened, what is sent goes by that; and
/// several ranges at once are answered with the whole file.
pub proof fn law_several_ranges_get_the_whole_file(
    file: Seq<char>,
    after: AfterModel,
    first: Seq<char>,
    rest: Seq<char>,
    total: u64,
    request: RequestModel,
    context: Context,
)
    requires
        wants_body(request),
        first.len() > 0,
        !crate::text::is_white(first[0]),
        rest.len() > 0,
        !crate::text::is_white(rest.last()),
        header_value(request, "range"@) == Some("bytes="@ + first + ","@ + rest),
    ensures
        opened_sent(file, after, Some(total), request, context) matches StepModel::Stream {
            head,
            file: from,
            start,
            length,
        } && from == file && start == 0 && length == total,
{
    lemma_methods();
    reveal_strlit("bytes=");
    reveal_strlit(",");
    let value = "bytes="@ + first + ","@ + rest;
    let none = Seq::<char>::empty();
    let spec = first + ","@ + rest;
    assert(value.skip(6) =~= spec);
    assert(value.subrange(0, 6) =~= "bytes="@);
    assert(spec.last() == rest.last());
    crate::text_laws::law_trimming_takes_the_white_space_around(none, spec, none);
    assert(none + spec + none =~= spec);
    assert(spec[first.len() as int] == ',');
    assert(crate::http::range_spec(value) == Some(spec));
}

} // verus!
