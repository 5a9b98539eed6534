//! Injection of the reload client into HTML responses.

use vstd::prelude::*;

use crate::text::{
    chars_of, last_position_of, lemma_rfind_before, lower, lower_chars, occurs_at, owned, rfind,
    text_of,
};

verus! {

/// Path the client script is served from.
pub const CLIENT_PATH: &'static str = "/__live_reload/client.js";

/// The tag that loads the client.
pub open spec fn script_tag() -> Seq<char> {
    "<script src=\""@ + CLIENT_PATH@ + "\" defer></script>"@
}

/// Where a tag stands for the last time, whatever the case of its letters.
pub open spec fn last_tag(html: Seq<char>, tag: Seq<char>) -> Option<int> {
    rfind(lower(html), tag)
}

/// A document with the client's tag on a line of its own before position `at`.
pub open spec fn with_script_at(html: Seq<char>, at: int) -> Seq<char> {
    html.take(at) + script_tag() + "\n"@ + html.skip(at)
}

/// A document with the client's tag in it.
pub open spec fn injected(html: Seq<char>) -> Seq<char> {
    match last_tag(html, "</body>"@) {
        Some(at) => with_script_at(html, at),
        None => match last_tag(html, "</html>"@) {
            Some(at) => with_script_at(html, at),
            None => html + "\n"@ + script_tag() + "\n"@,
        },
    }
}

fn script() -> (r: String)
    ensures
        r@ == script_tag(),
{
    let mut out = owned("<script src=\"");
    out.append(CLIENT_PATH);
    out.append("\" defer></script>");
    out
}

fn insert_script(html: &Vec<char>, at: usize) -> (r: String)
    requires
        at <= html@.len(),
    ensures
        r@ == with_script_at(html@, at as int),
{
    assert(html@.take(at as int) =~= html@.subrange(0, at as int));
    assert(html@.skip(at as int) =~= html@.subrange(at as int, html@.len() as int));
    let mut out = text_of(vstd::slice::slice_subrange(html.as_slice(), 0, at));
    out.append(script().as_str());
    out.append("\n");
    out.append(text_of(vstd::slice::slice_subrange(html.as_slice(), at, html.len())).as_str());
    out
}

/// Inserts the client `<script>` into an HTML document.
///
/// Placement is last closing `</body>`, then last closing `</html>`, then the
/// end of the document. Searching from the end matters because those strings
/// legitimately appear earlier inside `<pre>` blocks, escaped examples and
/// inline scripts, and injecting into one of those would corrupt the page.
///
/// Documents without either tag still get the script appended: browsers parse
/// them fine, and a page that silently does not reload is a worse failure than
/// a script tag outside a body.
pub fn inject(html: &str) -> (r: String)
    ensures
        r@ == injected(html@),
{
    let document = chars_of(html);
    proof {
        lemma_rfind_before(lower(html@), "</body>"@, (html@.len() + 1) as int);
        lemma_rfind_before(lower(html@), "</html>"@, (html@.len() + 1) as int);
    }
    if let Some(at) = find_last_tag(html, "</body>") {
        return insert_script(&document, at);
    }
    if let Some(at) = find_last_tag(html, "</html>") {
        return insert_script(&document, at);
    }
    let mut out = owned(html);
    out.append("\n");
    out.append(script().as_str());
    out.append("\n");
    out
}

/// Finds the last case-insensitive occurrence of `tag`, counted in characters.
///
/// The document is put in ASCII small letters for the comparison, so `tag` is
/// to be given in small letters.
pub fn find_last_tag(html: &str, tag: &str) -> (r: Option<usize>)
    ensures
        match r {
            Some(at) => last_tag(html@, tag@) == Some(at as int),
            None => last_tag(html@, tag@) is None,
        },
{
    let small = lower_chars(chars_of(html).as_slice());
    last_position_of(small.as_slice(), chars_of(tag).as_slice())
}

/// Injection only inserts: before some place the document stays as it is, and
/// behind that place too.
pub proof fn law_injection_only_inserts(html: Seq<char>)
    ensures
        exists|at: int, inserted: Seq<char>|
            0 <= at <= html.len() && (inserted == script_tag() + "\n"@ || inserted == "\n"@
                + script_tag() + "\n"@) && injected(html) == #[trigger] (html.take(at) + inserted)
                + html.skip(at),
{
    lemma_rfind_before(lower(html), "</body>"@, (html.len() + 1) as int);
    lemma_rfind_before(lower(html), "</html>"@, (html.len() + 1) as int);
    let line = script_tag() + "\n"@;
    match (last_tag(html, "</body>"@), last_tag(html, "</html>"@)) {
        (Some(at), _) => {
            assert(injected(html) =~= (html.take(at) + line) + html.skip(at));
        },
        (None, Some(at)) => {
            assert(injected(html) =~= (html.take(at) + line) + html.skip(at));
        },
        (None, None) => {
            let at = html.len() as int;
            let lines = "\n"@ + script_tag() + "\n"@;
            assert(injected(html) =~= (html.take(at) + lines) + html.skip(at));
        },
    }
}

/// Where a document closes its body, the script stands right before the last
/// place where it does so, and no closing tag stands behind that place.
pub proof fn law_script_precedes_the_final_body_tag(html: Seq<char>)
    requires
        last_tag(html, "</body>"@) is Some,
    ensures
        ({
            let at = last_tag(html, "</body>"@)->0;
            &&& injected(html) == with_script_at(html, at)
            &&& occurs_at(lower(html), "</body>"@, at)
            &&& forall|later: int| at < later ==> !occurs_at(lower(html), "</body>"@, later)
        }),
{
    lemma_rfind_before(lower(html), "</body>"@, (html.len() + 1) as int);
}

} // verus!
