//! What the headers of a request and the head of a response say.

use vstd::prelude::*;

use crate::http::{
    asks_for_websocket, header_from, header_value, interpreted, lists_token, lossy_text,
    parsed_head, read_on, stays_open, HeadModel, RawHeadModel, ReadingModel, RequestModel,
};
use crate::number::decimal;
use crate::response::{content_type, head_text, header_line, header_lines, is_html, MimeModel};
use crate::text::{join, lower, split, trim};
use crate::text_laws::{
    law_case_is_all_that_is_ignored, law_joined_texts_split_again, same_but_case,
};

verus! {

/* -------------------------------------------------------------------- requests */

/// Whether two texts are the same but for the case of letters.
pub open spec fn reads_alike(a: Seq<char>, b: Seq<char>) -> bool {
    a.len() == b.len() && forall|i: int| 0 <= i < a.len() ==> same_but_case(#[trigger] a[i], b[i])
}

/// The value of a header is that of the first one with its name, in letters of
/// any case, however many others there are; and there is none where no header
/// has that name.
pub proof fn law_the_first_header_of_a_name_counts(
    request: RequestModel,
    name: Seq<char>,
    k: int,
)
    requires
        0 <= k <= request.headers.len(),
        forall|j: int|
            0 <= j < k ==> !reads_alike((#[trigger] request.headers[j]).0, name),
    ensures
        k < request.headers.len() && reads_alike(request.headers[k].0, name) ==> header_value(
            request,
            name,
        ) == Some(request.headers[k].1),
        k == request.headers.len() ==> header_value(request, name) is None,
{
    lemma_header_from(request.headers, name, 0, k);
    if k < request.headers.len() {
        law_case_is_all_that_is_ignored(request.headers[k].0, name);
    }
}

proof fn lemma_header_from(
    headers: Seq<(Seq<char>, Seq<char>)>,
    name: Seq<char>,
    from: int,
    k: int,
)
    requires
        0 <= from <= k <= headers.len(),
        forall|j: int| 0 <= j < k ==> !reads_alike((#[trigger] headers[j]).0, name),
    ensures
        header_from(headers, name, from) == header_from(headers, name, k),
    decreases k - from,
{
    if from < k {
        assert(!reads_alike(headers[from].0, name));
        law_case_is_all_that_is_ignored(headers[from].0, name);
        lemma_header_from(headers, name, from + 1, k);
    }
}

/// A list with commas between its entries holds a token where one of the entries
/// is the token, in letters of any case and with white space around it or not.
pub proof fn law_a_token_is_one_of_the_entries(entries: Seq<Seq<char>>, token: Seq<char>)
    requires
        entries.len() > 0,
        forall|k: int| 0 <= k < entries.len() ==> !(#[trigger] entries[k]).contains(','),
    ensures
        lists_token(join(entries, seq![',']), token) == exists|k: int|
            0 <= k < entries.len() && reads_alike(trim(#[trigger] entries[k]), token),
{
    law_joined_texts_split_again(entries, ',');
    let value = join(entries, seq![',']);
    assert(split(value, ',') == entries);
    if lists_token(value, token) {
        let k = choose|k: int|
            0 <= k < split(value, ',').len() && lower(trim(#[trigger] split(value, ',')[k]))
                == lower(token);
        law_case_is_all_that_is_ignored(trim(entries[k]), token);
        assert(reads_alike(trim(entries[k]), token));
    }
    if exists|k: int| 0 <= k < entries.len() && reads_alike(trim(#[trigger] entries[k]), token) {
        let k = choose|k: int|
            0 <= k < entries.len() && reads_alike(trim(#[trigger] entries[k]), token);
        law_case_is_all_that_is_ignored(trim(entries[k]), token);
        assert(lower(trim(split(value, ',')[k])) == lower(token));
    }
}

/// A request asks for a WebSocket where its `Connection` lists `upgrade` among
/// its entries and its `Upgrade` is `websocket`; and a connection is kept unless
/// its `Connection` is `close`.
pub proof fn law_what_a_connection_asks_for(request: RequestModel, entries: Seq<Seq<char>>)
    requires
        entries.len() > 0,
        forall|k: int| 0 <= k < entries.len() ==> !(#[trigger] entries[k]).contains(','),
        header_value(request, "connection"@) == Some(join(entries, seq![','])),
    ensures
        asks_for_websocket(request) == ((exists|k: int|
            0 <= k < entries.len() && reads_alike(trim(#[trigger] entries[k]), "upgrade"@)) && (
        header_value(request, "upgrade"@) matches Some(value) && reads_alike(
            value,
            "websocket"@,
        ))),
        stays_open(request) == !reads_alike(join(entries, seq![',']), "close"@),
{
    law_a_token_is_one_of_the_entries(entries, "upgrade"@);
    law_case_is_all_that_is_ignored(join(entries, seq![',']), "close"@);
    if let Some(value) = header_value(request, "upgrade"@) {
        law_case_is_all_that_is_ignored(value, "websocket"@);
    }
}

/// A request that says nothing of its connection keeps it, and asks for no
/// WebSocket.
pub proof fn law_silence_keeps_a_connection(request: RequestModel)
    requires
        header_value(request, "connection"@) is None,
    ensures
        stays_open(request),
        !asks_for_websocket(request),
{
}

/// A head with a method and a target is a request for that, with every header by
/// its name and in its order; without one of the two it is none.
pub proof fn law_heads_are_taken_as_they_are(raw: RawHeadModel)
    ensures
        raw.method is Some && raw.target is Some <==> interpreted(raw) is Some,
        interpreted(raw) matches Some(request) ==> {
            &&& Some(request.method) == raw.method
            &&& Some(request.target) == raw.target
            &&& request.headers.len() == raw.headers.len()
            &&& forall|i: int|
                0 <= i < raw.headers.len() ==> (#[trigger] request.headers[i]).0
                    == raw.headers[i].0 && request.headers[i].1 == lossy_text(raw.headers[i].1)
        },
{
}

/// A head is read from as many chunks as it comes in: what two of them give is
/// what they give as one. A connection that ends, a head that is malformed and one
/// that grows beyond thirty-two kilobytes give nothing.
pub proof fn law_heads_are_read_from_any_chunks(
    buffer: Seq<u8>,
    first: Seq<u8>,
    second: Seq<u8>,
)
    ensures
        read_on(buffer, Seq::<u8>::empty()) == ReadingModel::Finished(None),
        first.len() > 0 && buffer.len() + first.len() <= 32768 ==> {
            let all = buffer + first;
            match parsed_head(all, 64) {
                HeadModel::Complete(raw) => read_on(buffer, first) == ReadingModel::Finished(
                    interpreted(raw),
                ),
                HeadModel::Partial => read_on(buffer, first) == ReadingModel::More(all) && (
                second.len() > 0 ==> read_on(all, second) == read_on(buffer, first + second)),
                HeadModel::Malformed => read_on(buffer, first) == ReadingModel::Finished(None),
            }
        },
        buffer.len() + first.len() > 32768 ==> read_on(buffer, first) == ReadingModel::Finished(
            None,
        ),
{
    assert(buffer + first + second =~= buffer + (first + second));
}

/* ----------------------------------------------------------------------- heads */

/// A header line without its end.
pub open spec fn header_entry(header: (Seq<char>, Seq<char>)) -> Seq<char> {
    header.0 + ": "@ + header.1
}

/// The lines of a head.
pub open spec fn head_lines(
    status: u16,
    reason: Seq<char>,
    kind: Seq<char>,
    length: u64,
    cors: bool,
    extra: Seq<(Seq<char>, Seq<char>)>,
) -> Seq<Seq<char>> {
    let first = seq![
        "HTTP/1.1 "@ + decimal(status as nat) + " "@ + reason,
        header_entry(("Content-Type"@, kind)),
        header_entry(("Content-Length"@, decimal(length as nat))),
        header_entry(("Cache-Control"@, "no-store, no-cache, must-revalidate"@)),
    ];
    let allowed = if cors {
        first.push(header_entry(("Access-Control-Allow-Origin"@, "*"@)))
    } else {
        first
    };
    allowed + Seq::new(extra.len(), |i: int| header_entry(extra[i]))
}

proof fn lemma_extra_lines(lines: Seq<Seq<char>>, extra: Seq<(Seq<char>, Seq<char>)>)
    requires
        lines.len() > 0,
    ensures
        join(lines + Seq::new(extra.len(), |i: int| header_entry(extra[i])), "\r\n"@) + "\r\n"@
            == join(lines, "\r\n"@) + "\r\n"@ + header_lines(extra),
    decreases extra.len(),
{
    let end = "\r\n"@;
    let entries = Seq::new(extra.len(), |i: int| header_entry(extra[i]));
    if extra.len() == 0 {
        assert(lines + entries =~= lines);
        assert(join(lines, end) + end + header_lines(extra) =~= join(lines, end) + end);
    } else {
        let front = extra.drop_last();
        let before = Seq::new(front.len(), |i: int| header_entry(front[i]));
        lemma_extra_lines(lines, front);
        assert((lines + entries).drop_last() =~= lines + before);
        assert((lines + entries).last() == header_entry(extra.last()));
        let last = extra.last();
        assert(join(lines + entries, end) + end =~= (join(lines + before, end) + end)
            + header_line(last.0, last.1));
        assert(join(lines, end) + end + header_lines(extra) =~= (join(lines, end) + end
            + header_lines(front)) + header_line(last.0, last.1));
    }
}

/// The head of a response is its status, its content type, its length, that it
/// is not to be kept, who may read it where that is set, and the further headers
/// in order, each on a line of its own, with an empty line at the end.
pub proof fn law_a_head_is_made_of_lines(
    status: u16,
    reason: Seq<char>,
    kind: Seq<char>,
    length: u64,
    cors: bool,
    extra: Seq<(Seq<char>, Seq<char>)>,
)
    ensures
        head_text(status, reason, kind, length, cors, extra) == join(
            head_lines(status, reason, kind, length, cors, extra),
            "\r\n"@,
        ) + "\r\n\r\n"@,
{
    reveal_strlit("\r\n");
    reveal_strlit("\r\n\r\n");
    reveal_strlit(": ");
    reveal_strlit("Content-Type");
    reveal_strlit("\r\nContent-Type: ");
    reveal_strlit("Content-Length");
    reveal_strlit("\r\nContent-Length: ");
    reveal_strlit("Cache-Control");
    reveal_strlit("no-store, no-cache, must-revalidate");
    reveal_strlit("\r\nCache-Control: no-store, no-cache, must-revalidate\r\n");
    reveal_strlit("Access-Control-Allow-Origin");
    reveal_strlit("*");
    reveal_strlit("Access-Control-Allow-Origin: *\r\n");
    let end = "\r\n"@;
    let a = "HTTP/1.1 "@ + decimal(status as nat) + " "@ + reason;
    let b = header_entry(("Content-Type"@, kind));
    let c = header_entry(("Content-Length"@, decimal(length as nat)));
    let d = header_entry(("Cache-Control"@, "no-store, no-cache, must-revalidate"@));
    let four = seq![a, b, c, d];
    let three = seq![a, b, c];
    let two = seq![a, b];
    assert(four.drop_last() =~= three);
    assert(three.drop_last() =~= two);
    assert(two.drop_last() =~= seq![a]);
    assert(join(seq![a], end) == a);
    assert(join(two, end) == a + end + b);
    assert(join(three, end) == a + end + b + end + c);
    assert(join(four, end) == a + end + b + end + c + end + d);
    let first = "HTTP/1.1 "@ + decimal(status as nat) + " "@ + reason + "\r\nContent-Type: "@ + kind
        + "\r\nContent-Length: "@ + decimal(length as nat)
        + "\r\nCache-Control: no-store, no-cache, must-revalidate\r\n"@;
    assert(first =~= join(four, end) + end);
    let e = header_entry(("Access-Control-Allow-Origin"@, "*"@));
    let five = four.push(e);
    assert(five.drop_last() =~= four);
    assert(join(five, end) + end =~= first + "Access-Control-Allow-Origin: *\r\n"@);
    let lines = if cors {
        five
    } else {
        four
    };
    lemma_extra_lines(lines, extra);
    let all = head_lines(status, reason, kind, length, cors, extra);
    assert("\r\n\r\n"@ =~= end + end);
    assert(join(all, end) + "\r\n\r\n"@ =~= (join(all, end) + end) + end);
}

/// Text, scripts, JSON and drawings always say how they are encoded: either the
/// type does, or that is added. What is no text is sent as it is.
pub proof fn law_text_names_its_encoding(mime: MimeModel)
    ensures
        ({
            let text = mime.kind == seq!['t', 'e', 'x', 't'] || mime.kind == "application"@ && (
            mime.subtype == "javascript"@ || mime.subtype == "json"@) || mime.kind == "image"@
                && mime.subtype == "svg+xml"@;
            content_type(mime) == if text && mime.charset is None {
                mime.text + "; charset=utf-8"@
            } else {
                mime.text
            }
        }),
        is_html(mime) == (mime.kind == "text"@ && mime.subtype == "html"@),
{
    reveal_strlit("text");
    assert("text"@ =~= seq!['t', 'e', 'x', 't']);
}

} // verus!
