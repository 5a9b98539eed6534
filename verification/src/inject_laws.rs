//! Where the client's script goes in a page.

use vstd::prelude::*;

use crate::inject::{injected, last_tag, script_tag, with_script_at};
use crate::text::{lemma_rfind_before, lower, occurs_at};
use crate::text_laws::{is_small, law_small_letters_compare_by_letter, reads_as};

verus! {

/// Whether a tag, given in small letters, stands at a place of a document, in
/// letters of any case.
pub open spec fn tag_at(html: Seq<char>, tag: Seq<char>, at: int) -> bool {
    &&& 0 <= at
    &&& at + tag.len() <= html.len()
    &&& reads_as(html.subrange(at, at + tag.len()), tag)
}

/// Whether a place is the last one of a document where a tag stands.
pub open spec fn is_last_tag(html: Seq<char>, tag: Seq<char>, at: int) -> bool {
    tag_at(html, tag, at) && forall|later: int| at < later ==> !#[trigger] tag_at(html, tag, later)
}

/// Whether a document holds a tag anywhere.
pub open spec fn holds_tag(html: Seq<char>, tag: Seq<char>) -> bool {
    exists|at: int| #[trigger] tag_at(html, tag, at)
}

proof fn lemma_tag_at(html: Seq<char>, tag: Seq<char>, at: int)
    requires
        is_small(tag),
    ensures
        occurs_at(lower(html), tag, at) == tag_at(html, tag, at),
{
    if 0 <= at && at + tag.len() <= html.len() {
        let part = html.subrange(at, at + tag.len());
        assert(lower(html).subrange(at, at + tag.len()) =~= lower(part));
        law_small_letters_compare_by_letter(part, tag);
    }
}

proof fn lemma_last_tag(html: Seq<char>, tag: Seq<char>)
    requires
        is_small(tag),
    ensures
        match last_tag(html, tag) {
            Some(at) => is_last_tag(html, tag, at),
            None => !holds_tag(html, tag),
        },
{
    lemma_rfind_before(lower(html), tag, (html.len() + 1) as int);
    match last_tag(html, tag) {
        Some(at) => {
            lemma_tag_at(html, tag, at);
            assert forall|later: int| at < later implies !#[trigger] tag_at(html, tag, later) by {
                lemma_tag_at(html, tag, later);
            }
        },
        None => {
            assert forall|at: int| !#[trigger] tag_at(html, tag, at) by {
                lemma_tag_at(html, tag, at);
            }
        },
    }
}

/// The tag that loads the client, with the line feed that follows it.
pub open spec fn script_line() -> Seq<char> {
    "<script src=\"/__live_reload/client.js\" defer></script>\n"@
}

proof fn lemma_script_line()
    ensures
        script_tag() + "\n"@ == script_line(),
{
    reveal_strlit("<script src=\"");
    reveal_strlit("/__live_reload/client.js");
    reveal_strlit("\" defer></script>");
    reveal_strlit("\n");
    reveal_strlit("<script src=\"/__live_reload/client.js\" defer></script>\n");
    assert(script_tag() + "\n"@ =~= script_line());
}

/// Wherever a document closes its body the script stands right before the last
/// place where it does; else right before the last place where it closes the
/// document; else on a line behind the whole document.
pub proof fn law_the_script_goes_before_the_last_closing_tag(html: Seq<char>)
    ensures
        forall|at: int| #[trigger]
            is_last_tag(html, "</body>"@, at) ==> injected(html) == html.take(at) + script_line()
                + html.skip(at),
        !holds_tag(html, "</body>"@) ==> forall|at: int| #[trigger]
            is_last_tag(html, "</html>"@, at) ==> injected(html) == html.take(at) + script_line()
                + html.skip(at),
        !holds_tag(html, "</body>"@) && !holds_tag(html, "</html>"@) ==> injected(html) == html
            + "\n"@ + script_line(),
        holds_tag(html, "</body>"@) ==> exists|at: int| #[trigger]
            is_last_tag(html, "</body>"@, at),
        holds_tag(html, "</html>"@) ==> exists|at: int| #[trigger]
            is_last_tag(html, "</html>"@, at),
{
    reveal_strlit("</body>");
    reveal_strlit("</html>");
    let body = "</body>"@;
    let whole = "</html>"@;
    lemma_last_tag(html, body);
    lemma_last_tag(html, whole);
    lemma_script_line();
    assert forall|at: int| #[trigger] is_last_tag(html, body, at) implies injected(html)
        == html.take(at) + script_line() + html.skip(at) by {
        lemma_last_is_unique(html, body, at);
        assert(with_script_at(html, at) =~= html.take(at) + script_line() + html.skip(at));
    }
    if !holds_tag(html, body) {
        if let Some(found) = last_tag(html, body) {
            assert(tag_at(html, body, found));
        }
        assert forall|at: int| #[trigger] is_last_tag(html, whole, at) implies injected(html)
            == html.take(at) + script_line() + html.skip(at) by {
            lemma_last_is_unique(html, whole, at);
            assert(with_script_at(html, at) =~= html.take(at) + script_line() + html.skip(at));
        }
        if !holds_tag(html, whole) {
            if let Some(found) = last_tag(html, whole) {
                assert(tag_at(html, whole, found));
            }
            assert(injected(html) =~= html + "\n"@ + script_line());
        }
    }
}

proof fn lemma_last_is_unique(html: Seq<char>, tag: Seq<char>, at: int)
    requires
        is_small(tag),
        is_last_tag(html, tag, at),
    ensures
        last_tag(html, tag) == Some(at),
{
    lemma_last_tag(html, tag);
    match last_tag(html, tag) {
        Some(found) => {
            if found < at {
                assert(!tag_at(html, tag, at));
            } else if at < found {
                assert(!tag_at(html, tag, found));
            }
        },
        None => {
            assert(tag_at(html, tag, at));
        },
    }
}

} // verus!
