//! What holds of every answer, whatever the disk holds.

use vstd::prelude::*;

use crate::handler::{
    fallback_looked_up, index_looked_up, listed_answer, looked_up, missing, opened_sent, page_sent,
    part_sent, routed, sent, text_answer, AfterModel, StageModel, StepModel,
};
use crate::http::{
    asked_range, best_mount, file_for, header_value, law_the_longest_mount_wins, mount_base, named,
    placed, placed_under, Context, RequestModel, RESERVED_PREFIX,
};
use crate::inject::injected;

use crate::listing::EntryModel;
use crate::path::{components, lemma_spans, root_of, spans_from, within};
use crate::path_laws::{is_name, law_join_adds_a_component};
use crate::response::{guessed_mime, is_html};
use crate::text::{occurs_at, strip_leading};

verus! {

/* ---------------------------------------------------------------- termination */

/// What the disk says when asked.
pub enum FactModel {
    /// Whether there is anything, and whether that is a directory.
    Kind(Option<bool>),
    /// What a file holds, if it can be read.
    Contents(Option<Seq<u8>>),
    /// How long a file is, if it can be opened.
    Length(Option<u64>),
    /// What a directory holds.
    Entries(Seq<EntryModel>),
}

/// Whether a fact is what a stage asks for.
pub open spec fn is_asked_for(stage: StageModel, fact: FactModel) -> bool {
    match stage {
        StageModel::Target { .. } => fact is Kind,
        StageModel::Index { .. } => fact is Kind,
        StageModel::Fallback { .. } => fact is Kind,
        StageModel::Read { .. } => fact is Contents,
        StageModel::Open { .. } => fact is Length,
        StageModel::List { .. } => fact is Entries,
    }
}

/// The step that follows a stage once the disk has answered.
pub open spec fn follow_up(
    stage: StageModel,
    fact: FactModel,
    request: RequestModel,
    context: Context,
    buffers: Map<Seq<Seq<char>>, Seq<char>>,
) -> StepModel {
    match (stage, fact) {
        (StageModel::Target { path, target }, FactModel::Kind(kind)) => looked_up(
            path,
            target,
            kind,
            request,
            context,
            buffers,
        ),
        (StageModel::Index { path, target, index }, FactModel::Kind(kind)) => index_looked_up(
            path,
            target,
            index,
            kind is Some,
            request,
            context,
            buffers,
        ),
        (StageModel::Fallback { index }, FactModel::Kind(kind)) => fallback_looked_up(
            index,
            kind is Some,
            request,
            context,
            buffers,
        ),
        (StageModel::Read { file, after }, FactModel::Contents(contents)) => page_sent(
            file,
            after,
            contents,
            request,
            context,
        ),
        (StageModel::Open { file, after }, FactModel::Length(total)) => opened_sent(
            file,
            after,
            total,
            request,
            context,
        ),
        (StageModel::List { path, target }, FactModel::Entries(list)) => listed_answer(
            path,
            list,
            request,
            context,
        ),
        _ => missing(request, context),
    }
}

/// How many questions can follow at most, this one included.
pub open spec fn questions_left(stage: StageModel) -> nat {
    match stage {
        StageModel::Target { .. } => 5,
        StageModel::Index { .. } => 4,
        StageModel::Read { after, .. } => if after is Fallback {
            1
        } else {
            3
        },
        StageModel::Open { after, .. } => if after is Fallback {
            1
        } else {
            3
        },
        StageModel::Fallback { .. } => 2,
        StageModel::List { .. } => 1,
    }
}

/// Every answer of the disk brings a request closer to its own: whatever is
/// found, at most five questions are asked before it is answered.
pub proof fn law_every_request_is_answered(
    stage: StageModel,
    fact: FactModel,
    request: RequestModel,
    context: Context,
    buffers: Map<Seq<Seq<char>>, Seq<char>>,
)
    requires
        is_asked_for(stage, fact),
    ensures
        follow_up(stage, fact, request, context, buffers) matches StepModel::Ask(next)
            ==> questions_left(next) < questions_left(stage),
        questions_left(stage) <= 5,
{
}

/// A request starts with a question about what its path stands for, if it
/// starts with a question at all.
pub proof fn law_requests_start_at_their_target(
    request: RequestModel,
    context: Context,
    client: Seq<char>,
)
    ensures
        routed(request, context, client) matches StepModel::Ask(stage) ==> {
            &&& stage matches StageModel::Target { path, target }
            &&& crate::urls::target_path(request.target) == Some(path)
            &&& target == file_for(path, context)
        },
{
}

/* ---------------------------------------------------------------- containment */

/// Whether every part of a list is a name.
pub open spec fn all_names(parts: Seq<Seq<char>>) -> bool {
    forall|k: int| 0 <= k < parts.len() ==> is_name(#[trigger] parts[k])
}

/// The named parts of a path are names.
pub proof fn lemma_named_components(p: Seq<char>)
    ensures
        all_names(named(components(p))),
{
    lemma_spans(p, 0);
    let parts = components(p);
    let lead = root_of(p).len();
    assert forall|k: int| 0 <= k < parts.len() implies parts[k] == seq!['/'] || (
    #[trigger] parts[k].len() > 0 && forall|i: int|
        0 <= i < parts[k].len() ==> parts[k][i] != '/') by {
        if k >= lead {
            let span = spans_from(p, 0)[k - lead];
            assert(parts[k] == p.subrange(span.0, span.1));
        }
    }
    lemma_named(parts);
}

proof fn lemma_named(parts: Seq<Seq<char>>)
    requires
        forall|k: int|
            0 <= k < parts.len() ==> parts[k] == seq!['/'] || (#[trigger] parts[k].len() > 0
                && forall|i: int| 0 <= i < parts[k].len() ==> parts[k][i] != '/'),
    ensures
        all_names(named(parts)),
    decreases parts.len(),
{
    if parts.len() > 0 {
        let front = parts.drop_last();
        assert forall|k: int| 0 <= k < front.len() implies front[k] == seq!['/'] || (
        #[trigger] front[k].len() > 0 && forall|i: int|
            0 <= i < front[k].len() ==> front[k][i] != '/') by {
            assert(front[k] == parts[k]);
        }
        lemma_named(front);
        let last = parts[parts.len() - 1];
        assert(last == seq!['/'] || last.len() > 0);
        let now = named(parts);
        assert forall|k: int| 0 <= k < now.len() implies is_name(#[trigger] now[k]) by {
            if k < named(front).len() {
                assert(now[k] == named(front)[k]);
            }
        }
    }
}

/// Names placed under a base come behind the components of the base.
pub proof fn lemma_placed(base: Seq<char>, parts: Seq<Seq<char>>)
    requires
        all_names(parts),
    ensures
        components(placed(base, parts)) == components(base) + parts,
    decreases parts.len(),
{
    if parts.len() == 0 {
        assert(components(base) + parts =~= components(base));
    } else {
        let front = parts.drop_last();
        assert forall|k: int| 0 <= k < front.len() implies is_name(#[trigger] front[k]) by {
            assert(front[k] == parts[k]);
        }
        lemma_placed(base, front);
        assert(is_name(parts[parts.len() - 1]));
        law_join_adds_a_component(placed(base, front), parts.last());
        assert((components(base) + front).push(parts.last()) =~= components(base) + parts);
    }
}

/// Whatever is placed under a base stays under it.
pub proof fn law_placing_stays_under_the_base(base: Seq<char>, relative: Seq<char>)
    ensures
        within(placed_under(base, relative), base),
        components(placed_under(base, relative)) == components(base) + named(
            components(strip_leading(relative, '/')),
        ),
{
    let bare = strip_leading(relative, '/');
    lemma_named_components(bare);
    lemma_placed(base, named(components(bare)));
    let all = components(placed_under(base, relative));
    assert(all.subrange(0, components(base).len() as int) =~= components(base));
}

/// Whatever path a request asks for, the file that it leads to lies under the
/// document root or under the directory of a mount.
pub proof fn law_files_stay_under_the_root_or_a_mount(path: Seq<char>, context: Context)
    ensures
        ({
            let list = context.config@.mount;
            match best_mount(list, path, list.len() as int) {
                Some(best) => 0 <= best < list.len() && within(
                    file_for(path, context),
                    mount_base(context.workspace@, list[best], context.drives),
                ),
                None => within(file_for(path, context), context.root@),
            }
        }),
{
    let list = context.config@.mount;
    law_the_longest_mount_wins(list, path, list.len() as int);
    match best_mount(list, path, list.len() as int) {
        Some(best) => {
            law_placing_stays_under_the_base(
                mount_base(context.workspace@, list[best], context.drives),
                path.skip(crate::http::bare_route(list[best]).len() as int),
            );
        },
        None => {
            law_placing_stays_under_the_base(context.root@, strip_leading(path, '/'));
        },
    }
}

/* -------------------------------------------------------------------- content */

/// Whatever part of a file is streamed lies inside the file.
pub proof fn law_streams_stay_inside_the_file(
    file: Seq<char>,
    total: u64,
    request: RequestModel,
    context: Context,
)
    ensures
        part_sent(file, total, request, context) matches StepModel::Stream { start, length, .. }
            ==> start + length <= total,
{
    if let Some(value) = header_value(request, "range"@) {
        lemma_range_inside(value, total);
    }
}

proof fn lemma_range_inside(value: Seq<char>, total: u64)
    ensures
        asked_range(value, total) matches Some((start, end)) ==> start <= end < total,
{
}

/// The editor's buffer is served in place of the file on disk, whatever the
/// disk holds, as long as buffers are served at all.
pub proof fn law_buffers_are_served_in_place_of_files(
    file: Seq<char>,
    after: AfterModel,
    request: RequestModel,
    context: Context,
    buffers: Map<Seq<Seq<char>>, Seq<char>>,
    text: Seq<char>,
)
    requires
        context.config@.live_changes,
    ensures
        sent(file, after, request, context, buffers.insert(components(file), text)) == text_answer(
            file,
            if is_html(guessed_mime(file)) {
                injected(text)
            } else {
                text
            },
            request,
            context,
        ),
{
}

/// A file that was saved or closed is served from disk again.
pub proof fn law_saved_files_come_from_disk(
    file: Seq<char>,
    after: AfterModel,
    request: RequestModel,
    context: Context,
    buffers: Map<Seq<Seq<char>>, Seq<char>>,
)
    ensures
        sent(file, after, request, context, buffers.remove(components(file))) == StepModel::Ask(
            if is_html(guessed_mime(file)) {
                StageModel::Read { file, after }
            } else {
                StageModel::Open { file, after }
            },
        ),
{
}

/// Nothing under the reserved prefix is ever looked for on disk.
pub proof fn law_reserved_paths_never_reach_the_disk(
    request: RequestModel,
    context: Context,
    client: Seq<char>,
)
    requires
        crate::urls::target_path(request.target) matches Some(path) && occurs_at(
            path,
            RESERVED_PREFIX@,
            0,
        ),
    ensures
        routed(request, context, client) is Answer,
{
}

/* ----------------------------------------------------------------------- HEAD */

/// Whether a step towards the answer of `HEAD` mirrors one towards that of
/// `GET`: the same question, or the same head with nothing behind it.
pub open spec fn mirrors(head: StepModel, get: StepModel) -> bool {
    match (head, get) {
        (StepModel::Answer(h), StepModel::Answer(g)) => h.head == g.head && h.body.len() == 0,
        (
            StepModel::Stream { head: a, file: f, start: s, length: n },
            StepModel::Stream { head: b, file: g, start: t, length: _ },
        ) => a == b && f == g && s == t && n == 0,
        (StepModel::Ask(h), StepModel::Ask(g)) => h == g,
        _ => false,
    }
}

/// Whether two requests are the same but for their methods, `HEAD` and `GET`.
pub open spec fn same_but_head(head: RequestModel, get: RequestModel) -> bool {
    &&& head.method == "HEAD"@
    &&& get.method == "GET"@
    &&& head.target == get.target
    &&& head.headers == get.headers
}

/// `HEAD` is answered as `GET` is, from the first step to the last: the same is
/// asked of the disk, the same head is written, and nothing follows it.
pub proof fn law_head_requests_mirror_get_requests(
    head: RequestModel,
    get: RequestModel,
    context: Context,
    client: Seq<char>,
    stage: StageModel,
    fact: FactModel,
    buffers: Map<Seq<Seq<char>>, Seq<char>>,
)
    requires
        same_but_head(head, get),
    ensures
        mirrors(routed(head, context, client), routed(get, context, client)),
        mirrors(
            follow_up(stage, fact, head, context, buffers),
            follow_up(stage, fact, get, context, buffers),
        ),
{
    reveal_strlit("HEAD");
    reveal_strlit("GET");
    assert("HEAD"@.len() != "GET"@.len());
    assert(header_value(head, "range"@) == header_value(get, "range"@));
}

} // verus!
