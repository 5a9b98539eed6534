//! The heads and bodies of responses.

use vstd::prelude::*;
use vstd::utf8::encode_utf8;

use crate::config::maybe;
use crate::number::{decimal, decimal_of};
use crate::text::{owned, same_text};

verus! {

/* ------------------------------------------------------------- media types */

/// A media type, taken apart.
pub struct Mime {
    /// The part before the slash.
    pub kind: String,
    /// The part behind the slash, up to a `+` if there is one.
    pub subtype: String,
    /// The character set, where the type names one.
    pub charset: Option<String>,
    /// The type as it is written.
    pub text: String,
}

/// What a media type says.
pub struct MimeModel {
    pub kind: Seq<char>,
    pub subtype: Seq<char>,
    pub charset: Option<Seq<char>>,
    pub text: Seq<char>,
}

impl View for Mime {
    type V = MimeModel;

    open spec fn view(&self) -> MimeModel {
        MimeModel {
            kind: self.kind@,
            subtype: self.subtype@,
            charset: maybe(self.charset),
            text: self.text@,
        }
    }
}

/// The media type guessed for a file from its path.
pub uninterp spec fn guessed_mime(path: Seq<char>) -> MimeModel;

/// `mime_guess::from_path`, then `first_or_octet_stream`: the first media type
/// known for the extension of the path, taken apart by the accessors of `Mime`.
#[verifier::external_body]
fn guess_mime(path: &str) -> (r: Mime)
    ensures
        r@ == guessed_mime(path@),
{
    let mime = mime_guess::from_path(path).first_or_octet_stream();
    Mime {
        kind: mime.type_().to_string(),
        subtype: mime.subtype().to_string(),
        charset: mime.get_param("charset").map(|name| name.to_string()),
        text: mime.to_string(),
    }
}

/// Guesses the media type of a file from its path.
pub fn mime_for(path: &str) -> (r: Mime)
    ensures
        r@ == guessed_mime(path@),
{
    guess_mime(path)
}

/// Whether a media type is that of a page, which the client goes into.
pub open spec fn is_html(mime: MimeModel) -> bool {
    mime.kind == "text"@ && mime.subtype == "html"@
}

/// Whether a media type is that of text.
pub open spec fn is_textual(mime: MimeModel) -> bool {
    ||| mime.kind == "text"@
    ||| mime.kind == "application"@ && (mime.subtype == "javascript"@ || mime.subtype == "json"@)
    ||| mime.kind == "image"@ && mime.subtype == "svg+xml"@
}

/// The content type sent for a media type: with a character set, for text that
/// names none.
pub open spec fn content_type(mime: MimeModel) -> Seq<char> {
    if is_textual(mime) && mime.charset is None {
        mime.text + "; charset=utf-8"@
    } else {
        mime.text
    }
}

/// Whether a media type is that of a page.
pub fn holds_html(mime: &Mime) -> (r: bool)
    ensures
        r == is_html(mime@),
{
    same_text(mime.kind.as_str(), "text") && same_text(mime.subtype.as_str(), "html")
}

/// The content type to send for a media type.
///
/// Browsers guess the encoding of a text response without a charset, and guess
/// wrong on non-ASCII content often enough to be worth being explicit.
pub fn content_type_for(mime: &Mime) -> (r: String)
    ensures
        r@ == content_type(mime@),
{
    let kind = mime.kind.as_str();
    let subtype = mime.subtype.as_str();
    let textual = same_text(kind, "text") || (same_text(kind, "application") && (same_text(
        subtype,
        "javascript",
    ) || same_text(subtype, "json"))) || (same_text(kind, "image") && same_text(
        subtype,
        "svg+xml",
    ));
    let mut out = owned(mime.text.as_str());
    if textual && mime.charset.is_none() {
        out.append("; charset=utf-8");
    }
    out
}

/* -------------------------------------------------------------------- heads */

/// One header line.
pub open spec fn header_line(name: Seq<char>, value: Seq<char>) -> Seq<char> {
    name + ": "@ + value + "\r\n"@
}

/// Header lines, one after the other.
pub open spec fn header_lines(headers: Seq<(Seq<char>, Seq<char>)>) -> Seq<char>
    decreases headers.len(),
{
    if headers.len() == 0 {
        Seq::empty()
    } else {
        header_lines(headers.drop_last()) + header_line(headers.last().0, headers.last().1)
    }
}

/// The head of a response.
pub open spec fn head_text(
    status: u16,
    reason: Seq<char>,
    content_type: Seq<char>,
    length: u64,
    cors: bool,
    extra: Seq<(Seq<char>, Seq<char>)>,
) -> Seq<char> {
    let first = "HTTP/1.1 "@ + decimal(status as nat) + " "@ + reason + "\r\nContent-Type: "@
        + content_type + "\r\nContent-Length: "@ + decimal(length as nat)
        + "\r\nCache-Control: no-store, no-cache, must-revalidate\r\n"@;
    let allowed = if cors {
        first + "Access-Control-Allow-Origin: *\r\n"@
    } else {
        first
    };
    allowed + header_lines(extra) + "\r\n"@
}

/// Writes the head of a response.
pub fn write_head(
    status: u16,
    reason: &str,
    content_type: &str,
    length: u64,
    cors: bool,
    extra: &Vec<(String, String)>,
) -> (r: String)
    ensures
        r@ == head_text(
            status,
            reason@,
            content_type@,
            length,
            cors,
            crate::http::header_texts(extra@),
        ),
{
    let mut head = owned("HTTP/1.1 ");
    head.append(decimal_of(status as u64).as_str());
    head.append(" ");
    head.append(reason);
    head.append("\r\nContent-Type: ");
    head.append(content_type);
    head.append("\r\nContent-Length: ");
    head.append(decimal_of(length).as_str());
    head.append("\r\nCache-Control: no-store, no-cache, must-revalidate\r\n");
    if cors {
        head.append("Access-Control-Allow-Origin: *\r\n");
    }
    let ghost before = head@;
    let ghost all = crate::http::header_texts(extra@);
    assert(all.take(0) =~= Seq::<(Seq<char>, Seq<char>)>::empty());
    assert(before + header_lines(all.take(0)) =~= before);
    for i in 0..extra.len()
        invariant
            all == crate::http::header_texts(extra@),
            head@ == before + header_lines(all.take(i as int)),
    {
        let ghost upto = head@;
        head.append(extra[i].0.as_str());
        head.append(": ");
        head.append(extra[i].1.as_str());
        head.append("\r\n");
        proof {
            let now = all.take(i + 1);
            assert(now.drop_last() =~= all.take(i as int));
            assert(now.last() == (extra@[i as int].0@, extra@[i as int].1@));
            assert(head@ =~= upto + header_line(now.last().0, now.last().1));
            assert(head@ =~= before + header_lines(now));
        }
    }
    assert(all.take(extra.len() as int) =~= all);
    head.append("\r\n");
    head
}

/* ---------------------------------------------------------------- responses */

/// A response: what is written to the connection, first the head and then the
/// body.
pub struct Response {
    pub head: String,
    pub body: Vec<u8>,
}

/// What a response says.
pub struct ResponseModel {
    pub head: Seq<char>,
    pub body: Seq<u8>,
}

impl View for Response {
    type V = ResponseModel;

    open spec fn view(&self) -> ResponseModel {
        ResponseModel { head: self.head@, body: self.body@ }
    }
}

/// A response with a body that is at hand. Where only the head was asked for
/// it still gives the length that the body would have.
pub open spec fn whole_response(
    status: u16,
    reason: Seq<char>,
    content_type: Seq<char>,
    body: Seq<u8>,
    head_only: bool,
    cors: bool,
    extra: Seq<(Seq<char>, Seq<char>)>,
) -> ResponseModel {
    ResponseModel {
        head: head_text(status, reason, content_type, body.len() as u64, cors, extra),
        body: if head_only {
            Seq::empty()
        } else {
            body
        },
    }
}

/// Builds a response with a body that is at hand.
pub fn respond(
    status: u16,
    reason: &str,
    content_type: &str,
    body: Vec<u8>,
    head_only: bool,
    cors: bool,
    extra: &Vec<(String, String)>,
) -> (r: Response)
    ensures
        r@ == whole_response(
            status,
            reason@,
            content_type@,
            body@,
            head_only,
            cors,
            crate::http::header_texts(extra@),
        ),
{
    let head = write_head(status, reason, content_type, body.len() as u64, cors, extra);
    if head_only {
        Response { head, body: Vec::new() }
    } else {
        Response { head, body }
    }
}

/// The bytes of a text.
pub fn bytes_of(text: &str) -> (r: Vec<u8>)
    ensures
        r@ == encode_utf8(text@),
{
    vstd::slice::slice_to_vec(text.as_bytes())
}

/// A response to `HEAD` has the head of the response to `GET`, and no body.
pub proof fn law_head_mirrors_get(
    status: u16,
    reason: Seq<char>,
    content_type: Seq<char>,
    body: Seq<u8>,
    cors: bool,
    extra: Seq<(Seq<char>, Seq<char>)>,
)
    ensures
        whole_response(status, reason, content_type, body, true, cors, extra).head
            == whole_response(status, reason, content_type, body, false, cors, extra).head,
        whole_response(status, reason, content_type, body, true, cors, extra).body.len() == 0,
        whole_response(status, reason, content_type, body, false, cors, extra).body == body,
{
}

} // verus!
