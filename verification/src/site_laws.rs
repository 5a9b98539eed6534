//! What holds between the addresses given out and the files served at them.

use vstd::prelude::*;
use vstd::utf8::{encode_utf8, is_ascii_chars};

use crate::handler_laws::{all_names, law_placing_stays_under_the_base};
use crate::http::{best_mount, file_for, named, placed_under, Context};
use crate::lsp::url_tail;
use crate::number::{decimal, is_digit, lemma_decimal};
use crate::path::{
    components, is_absolute, is_normal, join_path, lemma_spans, relative_to, root_of, spans_from,
    within,
};
use crate::path_laws::{
    is_name, law_join_adds_a_component, law_the_rest_has_the_other_components,
    lemma_later_components, lemma_name_is_normal,
};
use crate::server::{browsable_host, encoded_parts, root_under, url_path, url_text};
use crate::text::{
    join, lemma_encode_concat, lemma_find_char_is, lemma_find_is, occurs_at, strip_leading,
};
use crate::urls::{
    ascii_bytes, assembled, decoded, lemma_decode_encoded, lemma_encoded_ascii, encoded_byte,
    hex_value, is_unreserved, percent_decoded, percent_encoded, query_start, target_path,
    without_query,
};
use crate::urls_laws::{all_ordinary, is_ordinary, lemma_assembled_is_normal};
use crate::watch::served_at;

verus! {

/* ------------------------------------------------------------- decoding in pieces */

/// Whether no escape reaches from these bytes into what follows them.
spec fn is_closed(x: Seq<u8>) -> bool {
    forall|y: Seq<u8>| #[trigger] percent_decoded(x + y) == percent_decoded(x) + percent_decoded(y)
}

proof fn lemma_closed_concat(a: Seq<u8>, b: Seq<u8>)
    requires
        is_closed(a),
        is_closed(b),
    ensures
        is_closed(a + b),
        percent_decoded(a + b) == percent_decoded(a) + percent_decoded(b),
{
    assert forall|y: Seq<u8>| #[trigger]
        percent_decoded((a + b) + y) == percent_decoded(a + b) + percent_decoded(y) by {
        assert((a + b) + y =~= a + (b + y));
        assert(percent_decoded(a + (b + y)) == percent_decoded(a) + percent_decoded(b + y));
        assert(percent_decoded(b + y) == percent_decoded(b) + percent_decoded(y));
        assert(percent_decoded(a + b) == percent_decoded(a) + percent_decoded(b));
        assert(percent_decoded(a) + (percent_decoded(b) + percent_decoded(y)) =~= (percent_decoded(
            a,
        ) + percent_decoded(b)) + percent_decoded(y));
    }
}

proof fn lemma_closed_encoded(b: Seq<u8>)
    ensures
        is_closed(ascii_bytes(percent_encoded(b))),
    decreases b.len(),
{
    let x = ascii_bytes(percent_encoded(b));
    lemma_decode_encoded(b);
    if b.len() == 0 {
        assert(x =~= Seq::<u8>::empty());
        assert forall|y: Seq<u8>| #[trigger]
            percent_decoded(x + y) == percent_decoded(x) + percent_decoded(y) by {
            assert(x + y =~= y);
            assert(percent_decoded(x) + percent_decoded(y) =~= percent_decoded(y));
        }
    } else {
        lemma_closed_encoded(b.skip(1));
        lemma_decode_encoded(b.skip(1));
        let first = encoded_byte(b[0]);
        let rest = ascii_bytes(percent_encoded(b.skip(1)));
        let n = first.len() as int;
        assert(forall|i: int| 0 <= i < rest.len() ==> x[n + i] == rest[i]);
        assert(x.skip(n) =~= rest);
        assert forall|y: Seq<u8>| #[trigger]
            percent_decoded(x + y) == percent_decoded(x) + percent_decoded(y) by {
            let all = x + y;
            assert(all.skip(n) =~= rest + y);
            assert(percent_decoded(rest + y) == percent_decoded(rest) + percent_decoded(y));
            assert(seq![b[0]] + b.skip(1) =~= b);
            if is_unreserved(b[0]) {
                assert(all[0] == b[0]);
            } else {
                assert(all[0] == 37);
                assert(x[1] == crate::number::hex_capital((b[0] / 16) as nat) as u8);
                assert(x[2] == crate::number::hex_capital((b[0] % 16) as nat) as u8);
                assert(all[1] == x[1] && all[2] == x[2]);
                assert(hex_value(all[1]) == Some((b[0] / 16) as nat));
                assert(hex_value(all[2]) == Some((b[0] % 16) as nat));
            }
            assert(percent_decoded(all) =~= seq![b[0]] + (percent_decoded(rest) + percent_decoded(
                y,
            )));
            assert(seq![b[0]] + (b.skip(1) + percent_decoded(y)) =~= b + percent_decoded(y));
        }
    }
}

proof fn lemma_closed_slash()
    ensures
        is_closed(seq![47u8]),
        percent_decoded(seq![47u8]) == seq![47u8],
        encode_utf8(seq!['/']) == seq![47u8],
{
    let x = seq![47u8];
    assert(x.skip(1) =~= Seq::<u8>::empty());
    assert(percent_decoded(Seq::<u8>::empty()) =~= Seq::<u8>::empty());
    assert(percent_decoded(x) =~= x);
    assert forall|y: Seq<u8>| #[trigger]
        percent_decoded(x + y) == percent_decoded(x) + percent_decoded(y) by {
        assert((x + y).skip(1) =~= y);
        assert(percent_decoded(x + y) =~= x + percent_decoded(y));
    }
    let c = seq!['/'];
    assert(is_ascii_chars(c));
    vstd::utf8::is_ascii_chars_encode_utf8(c);
    assert(encode_utf8(c) =~= x);
}

proof fn lemma_encoded_is_ascii(part: Seq<char>)
    ensures
        encode_utf8(percent_encoded(encode_utf8(part))) == ascii_bytes(
            percent_encoded(encode_utf8(part)),
        ),
{
    let written = percent_encoded(encode_utf8(part));
    lemma_encoded_ascii(encode_utf8(part));
    vstd::utf8::is_ascii_chars_encode_utf8(written);
    assert(encode_utf8(written) =~= ascii_bytes(written));
}

/// Joined parts, encoded one by one, decode to the joined parts.
proof fn lemma_join_decodes(parts: Seq<Seq<char>>)
    ensures
        ({
            let sep = seq!['/'];
            let written = sep + join(encoded_parts(parts), sep);
            &&& is_closed(encode_utf8(written))
            &&& percent_decoded(encode_utf8(written)) == encode_utf8(sep + join(parts, sep))
        }),
    decreases parts.len(),
{
    let sep = seq!['/'];
    let encoded = encoded_parts(parts);
    lemma_closed_slash();
    if parts.len() == 0 {
        assert(sep + join(encoded, sep) =~= sep);
        assert(sep + join(parts, sep) =~= sep);
    } else {
        let part = parts.last();
        let last = percent_encoded(encode_utf8(part));
        assert(encoded.last() == last);
        lemma_encoded_is_ascii(part);
        lemma_closed_encoded(encode_utf8(part));
        lemma_decode_encoded(encode_utf8(part));
        let front = parts.drop_last();
        assert(encoded.drop_last() =~= encoded_parts(front));
        // The text before the last part, with the slash that ends it.
        let lead = if parts.len() == 1 {
            sep
        } else {
            sep + join(encoded_parts(front), sep) + sep
        };
        let plain = if parts.len() == 1 {
            sep
        } else {
            sep + join(front, sep) + sep
        };
        if parts.len() > 1 {
            lemma_join_decodes(front);
            let before = sep + join(encoded_parts(front), sep);
            lemma_encode_concat(before, sep);
            lemma_closed_concat(encode_utf8(before), encode_utf8(sep));
            lemma_encode_concat(sep + join(front, sep), sep);
        }
        assert(is_closed(encode_utf8(lead)));
        assert(percent_decoded(encode_utf8(lead)) == encode_utf8(plain));
        assert(sep + join(encoded, sep) =~= lead + last);
        assert(sep + join(parts, sep) =~= plain + part);
        lemma_encode_concat(lead, last);
        lemma_encode_concat(plain, part);
        lemma_closed_concat(encode_utf8(lead), encode_utf8(last));
    }
}

proof fn lemma_no_query(parts: Seq<Seq<char>>)
    ensures
        ({
            let written = seq!['/'] + join(encoded_parts(parts), seq!['/']);
            forall|i: int|
                0 <= i < written.len() ==> #[trigger] written[i] != '?' && written[i] != '#'
        }),
    decreases parts.len(),
{
    let sep = seq!['/'];
    let encoded = encoded_parts(parts);
    let written = sep + join(encoded, sep);
    if parts.len() > 0 {
        let bytes = encode_utf8(parts.last());
        let last = percent_encoded(bytes);
        lemma_encoded_ascii(bytes);
        let front = parts.drop_last();
        lemma_no_query(front);
        assert(encoded.drop_last() =~= encoded_parts(front));
        let before = sep + join(encoded_parts(front), sep);
        assert(encoded.last() == last);
        let lead = if parts.len() == 1 {
            sep
        } else {
            before + sep
        };
        assert(written =~= lead + last);
        assert forall|i: int| 0 <= i < written.len() implies #[trigger] written[i] != '?'
            && written[i] != '#' by {
            if i < lead.len() {
                assert(written[i] == lead[i]);
                if parts.len() > 1 && i < before.len() {
                    assert(lead[i] == before[i]);
                }
            } else {
                let c = last[i - lead.len()];
                assert(written[i] == c);
                assert(percent_encoded(bytes)[i - lead.len()] == c);
                assert(is_unreserved(c as u8) || c == '%');
            }
        }
    }
}

proof fn lemma_query_start_end(s: Seq<char>, from: int)
    requires
        0 <= from <= s.len(),
        forall|i: int| from <= i < s.len() ==> #[trigger] s[i] != '?' && s[i] != '#',
    ensures
        query_start(s, from) == s.len(),
    decreases s.len() - from,
{
    if from < s.len() {
        assert(s[from] != '?' && s[from] != '#');
        lemma_query_start_end(s, from + 1);
    }
}

/// A target made of encoded parts asks for the path made of the parts.
proof fn lemma_target_of_parts(parts: Seq<Seq<char>>)
    requires
        all_ordinary(parts),
    ensures
        target_path(seq!['/'] + join(encoded_parts(parts), seq!['/'])) == Some(
            seq!['/'] + join(parts, seq!['/']),
        ),
{
    let sep = seq!['/'];
    let written = sep + join(encoded_parts(parts), sep);
    let path = sep + join(parts, sep);
    lemma_no_query(parts);
    lemma_query_start_end(written, 0);
    assert(without_query(written) =~= written);
    lemma_join_decodes(parts);
    vstd::utf8::encode_utf8_valid_utf8(path);
    vstd::utf8::encode_utf8_decode_utf8(path);
    assert(decoded(written) == Some(path));
    lemma_assembled_is_normal(parts, false);
    assert(assembled(parts, false) == path);
}

/* ------------------------------------------------------------------ joined names */

/// Names with `/` between them are the components of the path they make.
pub proof fn lemma_joined_components(parts: Seq<Seq<char>>)
    requires
        all_names(parts),
    ensures
        components(join(parts, seq!['/'])) == parts,
        parts.len() > 0 ==> join(parts, seq!['/']).len() > 0 && join(parts, seq!['/'])[0] != '/'
            && join(parts, seq!['/']).last() != '/',
    decreases parts.len(),
{
    let sep = seq!['/'];
    let none = Seq::<char>::empty();
    assert(components(none) =~= Seq::<Seq<char>>::empty());
    if parts.len() == 0 {
        assert(join(parts, sep) =~= none);
        assert(parts =~= Seq::<Seq<char>>::empty());
    } else {
        let last = parts[parts.len() - 1];
        assert(is_name(last));
        assert(last[0] != '/' && last[last.len() - 1] != '/');
        let front = parts.drop_last();
        assert forall|k: int| 0 <= k < front.len() implies is_name(#[trigger] front[k]) by {
            assert(front[k] == parts[k]);
        }
        lemma_joined_components(front);
        let before = join(front, sep);
        law_join_adds_a_component(before, last);
        assert(!is_absolute(last));
        if parts.len() == 1 {
            assert(front =~= Seq::<Seq<char>>::empty());
            assert(before =~= none);
            assert(join_path(none, last) =~= last);
            assert(join(parts, sep) =~= join_path(before, last));
        } else {
            assert(join(parts, sep) =~= join_path(before, last));
        }
        assert(front.push(last) =~= parts);
    }
}

/// Names are all kept.
pub proof fn lemma_named_all(parts: Seq<Seq<char>>)
    requires
        all_names(parts),
    ensures
        named(parts) == parts,
    decreases parts.len(),
{
    if parts.len() > 0 {
        let front = parts.drop_last();
        assert forall|k: int| 0 <= k < front.len() implies is_name(#[trigger] front[k]) by {
            assert(front[k] == parts[k]);
        }
        lemma_named_all(front);
        lemma_name_is_normal(parts[parts.len() - 1]);
        assert(front.push(parts.last()) =~= parts);
    } else {
        assert(named(parts) =~= parts);
    }
}

/* --------------------------------------------------------------------------- laws */

/// Whether a file below a root has a name that a browser can ask for: every
/// component below the root is a name free of NUL and backslash.
pub open spec fn is_askable(file: Seq<char>, root: Seq<char>) -> bool {
    &&& within(file, root)
    &&& all_ordinary(components(file).skip(components(root).len() as int))
}

/// The address of a file asks for the path that the file is served at: the one
/// that a hot swap names when the file changes.
pub proof fn law_addresses_ask_for_the_served_path(file: Seq<char>, root: Seq<char>)
    requires
        is_askable(file, root),
    ensures
        target_path("/"@ + url_path(relative_to(file, root)->0)) == served_at(file, root),
{
    reveal_strlit("/");
    assert("/"@ =~= seq!['/']);
    law_the_rest_has_the_other_components(file, root);
    let rest = relative_to(file, root)->0;
    let parts = components(rest);
    assert forall|k: int| 0 <= k < parts.len() implies is_name(#[trigger] parts[k]) by {
        lemma_ordinary_is_name(parts[k]);
    }
    lemma_named_all(parts);
    lemma_target_of_parts(parts);
}

proof fn lemma_ordinary_is_name(part: Seq<char>)
    requires
        is_ordinary(part),
    ensures
        is_name(part),
{
    if part == seq!['/'] {
        assert(part[0] == '/');
    }
    assert forall|i: int| 0 <= i < part.len() implies part[i] != '/' by {
        if part[i] == '/' {
            assert(part.contains('/'));
        }
    }
}

/// Whether nothing below a root leads upward. Below a root that has no
/// components of its own, whatever names nothing is ruled out too.
pub open spec fn stays_below(file: Seq<char>, root: Seq<char>) -> bool {
    let n = components(root).len();
    &&& within(file, root)
    &&& forall|k: int|
        n <= k < components(file).len() ==> #[trigger] components(file)[k] != seq!['.', '.']
    &&& n == 0 ==> forall|k: int|
        0 <= k < components(file).len() ==> is_normal(#[trigger] components(file)[k])
}

proof fn lemma_names_below(file: Seq<char>, root: Seq<char>)
    requires
        stays_below(file, root),
    ensures
        all_names(components(relative_to(file, root)->0)),
{
    law_the_rest_has_the_other_components(file, root);
    let n = components(root).len() as int;
    let parts = components(relative_to(file, root)->0);
    assert forall|k: int| 0 <= k < parts.len() implies is_name(#[trigger] parts[k]) by {
        assert(parts[k] == components(file)[n + k]);
        if n + k > 0 {
            lemma_later_components(file, n + k);
        } else {
            assert(is_normal(components(file)[0]));
            lemma_first_name(file);
        }
    }
}

proof fn lemma_first_name(p: Seq<char>)
    requires
        components(p).len() > 0,
        is_normal(components(p)[0]),
    ensures
        is_name(components(p)[0]),
{
    lemma_spans(p, 0);
    let part = components(p)[0];
    assert(root_of(p).len() == 0);
    let span = spans_from(p, 0)[0];
    assert(part == p.subrange(span.0, span.1));
    assert(forall|i: int| 0 <= i < part.len() ==> part[i] == p[span.0 + i]);
}

/// The URL path that is announced for a changed file leads back to the file,
/// whatever its names hold.
pub proof fn law_announced_paths_lead_back_to_their_files(file: Seq<char>, root: Seq<char>)
    requires
        stays_below(file, root),
    ensures
        served_at(file, root) is Some,
        components(placed_under(root, served_at(file, root)->0)) == components(file),
{
    reveal_strlit("/");
    let sep = seq!['/'];
    assert("/"@ =~= sep);
    law_the_rest_has_the_other_components(file, root);
    lemma_names_below(file, root);
    let parts = components(relative_to(file, root)->0);
    lemma_named_all(parts);
    lemma_joined_components(parts);
    let inner = join(parts, sep);
    let path = sep + inner;
    assert(served_at(file, root)->0 == path);
    lemma_strip_once(inner);
    if parts.len() == 0 {
        assert(inner =~= Seq::<char>::empty());
    }
    assert(strip_leading(inner, '/') == inner);
    law_placing_stays_under_the_base(root, path);
    let n = components(root).len() as int;
    assert(components(file).subrange(0, n) =~= components(root));
    assert(components(root) + components(file).skip(n) =~= components(file));
}

proof fn lemma_strip_once(inner: Seq<char>)
    ensures
        strip_leading(seq!['/'] + inner, '/') == strip_leading(inner, '/'),
{
    let path = seq!['/'] + inner;
    assert(path.skip(1) =~= inner);
}

proof fn lemma_strip_twice(s: Seq<char>)
    ensures
        strip_leading(strip_leading(s, '/'), '/') == strip_leading(s, '/'),
    decreases s.len(),
{
    if s.len() > 0 && s[0] == '/' {
        lemma_strip_twice(s.skip(1));
    }
}

/// Asking for the path that a file is served at leads back to the file, unless
/// a mount has been put over it.
pub proof fn law_served_paths_lead_back_to_their_files(file: Seq<char>, context: Context)
    requires
        stays_below(file, context.root@),
        best_mount(
            context.config@.mount,
            served_at(file, context.root@)->0,
            context.config@.mount.len() as int,
        ) is None,
    ensures
        components(file_for(served_at(file, context.root@)->0, context)) == components(file),
{
    law_announced_paths_lead_back_to_their_files(file, context.root@);
    lemma_strip_twice(served_at(file, context.root@)->0);
}

/// An unsaved change names the path that a browser asks for: of a file's
/// address, what follows the host and the port.
pub proof fn law_live_changes_name_the_requested_path(
    host: Seq<char>,
    port: u16,
    workspace: Seq<char>,
    root: Seq<char>,
    file: Seq<char>,
)
    requires
        !browsable_host(host).contains('/'),
        within(file, root_under(workspace, root)),
    ensures
        url_tail(url_text(host, port, workspace, root, Some(file))) == "/"@ + url_path(
            relative_to(file, root_under(workspace, root))->0,
        ),
{
    lemma_url_tail(host, port, url_path(relative_to(file, root_under(workspace, root))->0));
}

/// Of an address on a server, what follows the host and the port is its path.
pub proof fn lemma_url_tail(host: Seq<char>, port: u16, relative: Seq<char>)
    requires
        !browsable_host(host).contains('/'),
    ensures
        url_tail(
            "http://"@ + browsable_host(host) + ":"@ + decimal(port as nat) + "/"@ + relative,
        ) == "/"@ + relative,
{
    reveal_strlit("http://");
    reveal_strlit("://");
    reveal_strlit(":");
    reveal_strlit("/");
    let shown = browsable_host(host);
    let number = decimal(port as nat);
    let url = "http://"@ + shown + ":"@ + number + "/"@ + relative;
    lemma_decimal(port as nat);
    let mark = "://"@;
    assert(url.subrange(4, 7) =~= mark);
    assert forall|j: int| 0 <= j < 4 implies !occurs_at(url, mark, j) by {
        if occurs_at(url, mark, j) {
            assert(url.subrange(j, j + 3)[0] == url[j]);
            assert(url[j] == "http://"@[j]);
        }
    }
    lemma_find_is(url, mark, 4);
    let rest = url.skip(7);
    let slash = shown.len() + 1 + number.len();
    assert(rest =~= shown + ":"@ + number + "/"@ + relative);
    assert forall|j: int| 0 <= j < slash implies rest[j] != '/' by {
        if j < shown.len() {
            assert(rest[j] == shown[j]);
            assert(shown.contains(shown[j]));
        } else if j > shown.len() {
            assert(rest[j] == number[j - shown.len() - 1]);
            assert(is_digit(number[j - shown.len() - 1]));
        }
    }
    assert(rest[slash as int] == '/');
    lemma_find_char_is(rest, '/', 0, slash as int);
    assert(rest.skip(slash as int) =~= "/"@ + relative);
}

} // verus!
