//! Deciding what a changed file should do to the open page.

use vstd::prelude::*;

use crate::control::{json_escape, json_inside};
use crate::control_laws::{
    law_json_strings_end_at_their_own_quote, law_json_strings_tell_texts_apart, string_end,
};
use crate::path::{extension, extension_of};
use crate::text::{chars_of, lower, lower_chars, owned, same_text, text_of};

verus! {

/// Instruction sent to connected browsers.
#[derive(Debug, Clone, PartialEq, Eq)]
pub enum Reload {
    /// Reload the whole document.
    Full,
    /// Swap the stylesheet at this URL path in place.
    Css(String),
    /// Re-fetch the image at this URL path in place.
    Image(String),
}

/// What an instruction says.
pub enum ReloadModel {
    Full,
    Css(Seq<char>),
    Image(Seq<char>),
}

impl View for Reload {
    type V = ReloadModel;

    open spec fn view(&self) -> ReloadModel {
        match self {
            Reload::Full => ReloadModel::Full,
            Reload::Css(path) => ReloadModel::Css(path@),
            Reload::Image(path) => ReloadModel::Image(path@),
        }
    }
}

/// The text by which an instruction reaches the browser.
pub open spec fn message(reload: ReloadModel) -> Seq<char> {
    match reload {
        ReloadModel::Full => "{\"type\":\"reload\"}"@,
        ReloadModel::Css(path) => "{\"type\":\"css\",\"path\":\""@ + json_inside(path) + "\"}"@,
        ReloadModel::Image(path) => "{\"type\":\"image\",\"path\":\""@ + json_inside(path)
            + "\"}"@,
    }
}

impl Reload {
    /// Serialises the instruction for the browser client.
    ///
    /// Hand-rolled because the shapes are fixed and tiny, and the only value
    /// needing care is the path, which goes in as JSON writes it, so that no
    /// quote or backslash in it can break the message.
    pub fn to_message(&self) -> (r: String)
        ensures
            r@ == message(self@),
    {
        match self {
            Reload::Full => owned("{\"type\":\"reload\"}"),
            Reload::Css(path) => {
                let mut out = owned("{\"type\":\"css\",\"path\":\"");
                out.append(json_escape(path.as_str()).as_str());
                out.append("\"}");
                out
            },
            Reload::Image(path) => {
                let mut out = owned("{\"type\":\"image\",\"path\":\"");
                out.append(json_escape(path.as_str()).as_str());
                out.append("\"}");
                out
            },
        }
    }

    /// Whether two instructions say the same.
    pub fn same_as(&self, other: &Reload) -> (r: bool)
        ensures
            r == (self@ == other@),
    {
        match (self, other) {
            (Reload::Full, Reload::Full) => true,
            (Reload::Css(a), Reload::Css(b)) => same_text(a.as_str(), b.as_str()),
            (Reload::Image(a), Reload::Image(b)) => same_text(a.as_str(), b.as_str()),
            _ => false,
        }
    }
}

/// Whether an extension in small letters belongs to an image.
pub open spec fn is_image_extension(extension: Seq<char>) -> bool {
    ||| extension == "png"@
    ||| extension == "jpg"@
    ||| extension == "jpeg"@
    ||| extension == "gif"@
    ||| extension == "webp"@
    ||| extension == "avif"@
    ||| extension == "bmp"@
    ||| extension == "ico"@
    ||| extension == "svg"@
}

/// The cheapest update that can pick up a change.
pub open spec fn classified(url_path: Seq<char>, full_reload: bool) -> ReloadModel {
    if full_reload {
        ReloadModel::Full
    } else {
        match extension(url_path) {
            Some(e) => if lower(e) == "css"@ {
                ReloadModel::Css(url_path)
            } else if is_image_extension(lower(e)) {
                ReloadModel::Image(url_path)
            } else {
                ReloadModel::Full
            },
            None => ReloadModel::Full,
        }
    }
}

/// Chooses the cheapest update that can pick up a change to `url_path`.
///
/// Hot swapping a stylesheet or an image keeps scroll position, form state and
/// any JavaScript state on the page, which is the whole reason to bother. When
/// `full_reload` is set the user has asked us not to be clever.
///
/// An SVG can be a stylesheet-adjacent asset or a document in its own right,
/// but treating it as an image is right for the common case of it being
/// referenced from an `<img>`, and the client falls back to a full reload when
/// it cannot find a matching element.
pub fn classify(url_path: &str, full_reload: bool) -> (r: Reload)
    ensures
        r@ == classified(url_path@, full_reload),
{
    if full_reload {
        return Reload::Full;
    }
    match extension_of(url_path) {
        Some(e) => {
            let small = text_of(lower_chars(chars_of(e.as_str()).as_slice()).as_slice());
            let e = small.as_str();
            if same_text(e, "css") {
                Reload::Css(owned(url_path))
            } else if same_text(e, "png") || same_text(e, "jpg") || same_text(e, "jpeg")
                || same_text(e, "gif") || same_text(e, "webp") || same_text(e, "avif")
                || same_text(e, "bmp") || same_text(e, "ico") || same_text(e, "svg") {
                Reload::Image(owned(url_path))
            } else {
                Reload::Full
            }
        },
        None => Reload::Full,
    }
}

/// Two instructions that differ reach the browser as different messages.
pub proof fn law_messages_tell_instructions_apart(a: ReloadModel, b: ReloadModel)
    requires
        a != b,
    ensures
        message(a) != message(b),
{
    reveal_strlit("{\"type\":\"reload\"}");
    reveal_strlit("{\"type\":\"css\",\"path\":\"");
    reveal_strlit("{\"type\":\"image\",\"path\":\"");
    reveal_strlit("\"}");
    let css = "{\"type\":\"css\",\"path\":\""@;
    let image = "{\"type\":\"image\",\"path\":\""@;
    let end = "\"}"@;
    assert("{\"type\":\"reload\"}"@[9] == 'r');
    assert(css[9] == 'c' && image[9] == 'i');
    match (a, b) {
        (ReloadModel::Css(p), ReloadModel::Css(q)) => {
            if message(a) == message(b) {
                let n = css.len() as int;
                let x = json_inside(p);
                let y = json_inside(q);
                assert(message(a).len() == n + x.len() + end.len());
                assert(message(b).len() == n + y.len() + end.len());
                assert(message(a).subrange(n, n + x.len()) =~= x);
                assert(message(b).subrange(n, n + x.len()) =~= y);
                law_json_strings_tell_texts_apart(p, q);
            }
        },
        (ReloadModel::Image(p), ReloadModel::Image(q)) => {
            if message(a) == message(b) {
                let n = image.len() as int;
                let x = json_inside(p);
                let y = json_inside(q);
                assert(message(a).len() == n + x.len() + end.len());
                assert(message(b).len() == n + y.len() + end.len());
                assert(message(a).subrange(n, n + x.len()) =~= x);
                assert(message(b).subrange(n, n + x.len()) =~= y);
                law_json_strings_tell_texts_apart(p, q);
            }
        },
        _ => {
            assert(message(a)[9] != message(b)[9]);
        },
    }
}

/// The path in a message ends where the message closes it, whatever the path
/// holds: the browser reads the path, and nothing of it as more of the message.
pub proof fn law_paths_never_break_a_message(path: Seq<char>)
    ensures
        ({
            let css = "{\"type\":\"css\",\"path\":\""@.len() as int;
            let image = "{\"type\":\"image\",\"path\":\""@.len() as int;
            &&& string_end(message(ReloadModel::Css(path)), css) == Some(
                message(ReloadModel::Css(path)).len() - 2,
            )
            &&& string_end(message(ReloadModel::Image(path)), image) == Some(
                message(ReloadModel::Image(path)).len() - 2,
            )
        }),
{
    reveal_strlit("\"}");
    let css = "{\"type\":\"css\",\"path\":\""@;
    let image = "{\"type\":\"image\",\"path\":\""@;
    let rest = seq!['}'];
    law_json_strings_end_at_their_own_quote(css, path, rest);
    law_json_strings_end_at_their_own_quote(image, path, rest);
    assert(message(ReloadModel::Css(path)) =~= css + json_inside(path) + seq!['"'] + rest);
    assert(message(ReloadModel::Image(path)) =~= image + json_inside(path) + seq!['"'] + rest);
}

} // verus!
