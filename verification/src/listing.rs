//! Browsable listings of directories that have no index file.

use vstd::prelude::*;
use vstd::utf8::encode_utf8;

use crate::number::{decimal, decimal_of};
use crate::text::{chars_of, owned, same_text};
use crate::urls::{encode_segment, percent_encoded};

verus! {

/* -------------------------------------------------------------------- sizes */

/// `a / b` rounded to the nearest integer, a tie to the even one.
pub open spec fn rounded(a: nat, b: nat) -> nat {
    if 2 * (a % b) < b || (2 * (a % b) == b && (a / b) % 2 == 0) {
        a / b
    } else {
        a / b + 1
    }
}

/// The distance between neighbouring double precision numbers around `n`.
pub open spec fn spacing(n: nat) -> nat
    decreases n,
{
    if n < 0x20_0000_0000_0000 {
        1
    } else {
        2 * spacing(n / 2)
    }
}

/// The double precision number nearest to `n`.
pub open spec fn nearest_double(n: nat) -> nat {
    rounded(n, spacing(n)) * spacing(n)
}

/// How many bytes there are to the unit with this index, each 1024 of the one
/// before.
pub open spec fn unit_size(unit: nat) -> nat
    decreases unit,
{
    if unit == 0 {
        1
    } else {
        1024 * unit_size((unit - 1) as nat)
    }
}

/// The largest unit, of those up to terabytes, that a size reaches.
pub open spec fn unit_for(size: nat, unit: nat) -> nat
    decreases 4 - unit,
{
    if unit >= 4 || size < 1024 * unit_size(unit) {
        unit
    } else {
        unit_for(size, unit + 1)
    }
}

/// What a unit is called.
pub open spec fn unit_name(unit: nat) -> Seq<char> {
    if unit == 0 {
        "B"@
    } else if unit == 1 {
        "KB"@
    } else if unit == 2 {
        "MB"@
    } else if unit == 3 {
        "GB"@
    } else {
        "TB"@
    }
}

/// A size for people: bytes as they are, anything larger in the largest unit
/// that it reaches, with one decimal.
pub open spec fn size_text(bytes: nat) -> Seq<char> {
    let size = nearest_double(bytes);
    let unit = unit_for(size, 0);
    if unit == 0 {
        decimal(bytes) + " B"@
    } else {
        let tenths = rounded(10 * size, unit_size(unit));
        decimal(tenths / 10) + "."@ + decimal(tenths % 10) + " "@ + unit_name(unit)
    }
}

fn round_div(a: u128, b: u128) -> (r: u128)
    requires
        0 < b < 0x1000_0000_0000_0000_0000,
        a < 0x1000_0000_0000_0000_0000_0000,
    ensures
        r == rounded(a as nat, b as nat),
        r <= a + 1,
{
    let q = a / b;
    let rest = a % b;
    assert(q <= a) by (nonlinear_arith)
        requires
            q == a / b,
            b > 0,
    ;
    if 2 * rest < b || (2 * rest == b && q % 2 == 0) {
        q
    } else {
        q + 1
    }
}

proof fn lemma_spacing(n: nat)
    ensures
        spacing(n) >= 1,
    decreases n,
{
    if n >= 0x20_0000_0000_0000 {
        lemma_spacing(n / 2);
    }
}

fn spacing_of(n: u64) -> (r: u64)
    ensures
        r == spacing(n as nat),
        1 <= r <= 2048,
{
    proof {
        lemma_spacing_small(n as nat);
    }
    let mut left: u64 = n;
    let mut step: u64 = 1;
    while left >= 0x20_0000_0000_0000
        invariant
            spacing(n as nat) == step * spacing(left as nat),
            spacing(n as nat) <= 2048,
            1 <= step,
        decreases left,
    {
        proof {
            lemma_spacing((left / 2) as nat);
            let inner = spacing((left / 2) as nat);
            assert(spacing(left as nat) == 2 * inner);
            assert(step * (2 * inner) == (2 * step) * inner) by (nonlinear_arith);
            assert(2 * step <= (2 * step) * inner) by (nonlinear_arith)
                requires
                    inner >= 1,
                    step >= 1,
            ;
        }
        step = 2 * step;
        left = left / 2;
    }
    assert(step * 1 == step) by (nonlinear_arith);
    step
}

proof fn lemma_spacing_small(n: nat)
    requires
        n < 0x1_0000_0000_0000_0000,
    ensures
        1 <= spacing(n) <= 2048,
{
    reveal_with_fuel(spacing, 13);
}

proof fn lemma_nearest_bound(n: nat)
    requires
        n < 0x1_0000_0000_0000_0000,
    ensures
        nearest_double(n) <= n + 2048,
{
    lemma_spacing_small(n);
    let s = spacing(n);
    let q = n / s;
    assert(q * s <= n) by (nonlinear_arith)
        requires
            q == n / s,
            s >= 1,
    ;
    assert((q + 1) * s == q * s + s) by (nonlinear_arith);
}

proof fn lemma_units()
    ensures
        unit_size(0) == 1,
        unit_size(1) == 1024,
        unit_size(2) == 1048576,
        unit_size(3) == 1073741824,
        unit_size(4) == 1099511627776,
{
    reveal_with_fuel(unit_size, 5);
}

/// Formats a size for people.
pub fn human_size(bytes: u64) -> (r: String)
    ensures
        r@ == size_text(bytes as nat),
{
    let step = spacing_of(bytes);
    let nearest = round_div(bytes as u128, step as u128);
    proof {
        lemma_nearest_bound(bytes as nat);
        lemma_units();
        assert(nearest * step == nearest_double(bytes as nat));
    }
    let size: u128 = nearest * step as u128;
    let mut unit: usize = 0;
    let mut scale: u128 = 1;
    while unit < 4 && size >= 1024 * scale
        invariant
            unit <= 4,
            scale == unit_size(unit as nat),
            scale <= 1099511627776,
            unit < 4 ==> scale <= 1073741824,
            unit_for(size as nat, 0) == unit_for(size as nat, unit as nat),
        decreases 4 - unit,
    {
        proof {
            lemma_units();
        }
        scale = 1024 * scale;
        unit = unit + 1;
    }
    if unit == 0 {
        let mut out = decimal_of(bytes);
        out.append(" B");
        return out;
    }
    let tenths = round_div(10 * size, scale);
    proof {
        lemma_tenths_fit(size as nat, unit as nat, bytes as nat);
    }
    let tenths = tenths as u64;
    let mut out = decimal_of(tenths / 10);
    out.append(".");
    out.append(decimal_of(tenths % 10).as_str());
    out.append(" ");
    out.append(
        if unit == 1 {
            "KB"
        } else if unit == 2 {
            "MB"
        } else if unit == 3 {
            "GB"
        } else {
            "TB"
        },
    );
    out
}

proof fn lemma_tenths_fit(size: nat, unit: nat, bytes: nat)
    requires
        bytes < 0x1_0000_0000_0000_0000,
        size == nearest_double(bytes),
        1 <= unit <= 4,
    ensures
        rounded(10 * size, unit_size(unit)) < 0x1_0000_0000_0000_0000,
{
    lemma_units();
    lemma_nearest_bound(bytes);
    let u = unit_size(unit);
    let a = 10 * size;
    assert(u >= 1024);
    assert(a / u <= a / 1024) by (nonlinear_arith)
        requires
            u >= 1024,
            a >= 0,
    ;
}

/* ------------------------------------------------------------------- markup */

/// How a character stands in markup.
pub open spec fn entity(c: char) -> Seq<char> {
    if c == '&' {
        "&amp;"@
    } else if c == '<' {
        "&lt;"@
    } else if c == '>' {
        "&gt;"@
    } else if c == '"' {
        "&quot;"@
    } else {
        seq![c]
    }
}

/// A text as it stands in markup.
pub open spec fn escaped(s: Seq<char>) -> Seq<char>
    decreases s.len(),
{
    if s.len() == 0 {
        Seq::empty()
    } else {
        escaped(s.drop_last()) + entity(s.last())
    }
}

/// Escapes a text for use in markup.
pub fn escape_html(text: &str) -> (r: String)
    ensures
        r@ == escaped(text@),
{
    let s = chars_of(text);
    let mut out = String::new();
    assert(s@.take(0) =~= Seq::<char>::empty());
    for i in 0..s.len()
        invariant
            out@ == escaped(s@.take(i as int)),
    {
        let ghost before = out@;
        let c = s[i];
        if c == '&' {
            out.append("&amp;");
        } else if c == '<' {
            out.append("&lt;");
        } else if c == '>' {
            out.append("&gt;");
        } else if c == '"' {
            out.append("&quot;");
        } else {
            out.push(c);
        }
        proof {
            assert(s@.take(i + 1).drop_last() =~= s@.take(i as int));
            assert(out@ =~= before + entity(c));
        }
    }
    assert(s@.take(s@.len() as int) =~= s@);
    out
}

/// Escaped text holds nothing that could open a tag or close an attribute.
pub proof fn law_escaped_text_is_inert(s: Seq<char>)
    ensures
        !escaped(s).contains('<'),
        !escaped(s).contains('>'),
        !escaped(s).contains('"'),
    decreases s.len(),
{
    if s.len() > 0 {
        law_escaped_text_is_inert(s.drop_last());
        let front = escaped(s.drop_last());
        let last = entity(s.last());
        reveal_strlit("&amp;");
        reveal_strlit("&lt;");
        reveal_strlit("&gt;");
        reveal_strlit("&quot;");
        assert forall|i: int| 0 <= i < escaped(s).len() implies escaped(s)[i] != '<' && escaped(
            s,
        )[i] != '>' && escaped(s)[i] != '"' by {
            if i < front.len() {
                assert(front.contains(front[i]));
                assert(escaped(s)[i] == front[i]);
            } else {
                assert(escaped(s)[i] == last[i - front.len()]);
            }
        }
    }
}

/// Percent-encodes a single path segment for use in an `href`.
pub fn encode_path_segment(segment: &str) -> (r: String)
    ensures
        r@ == percent_encoded(encode_utf8(segment@)),
{
    encode_segment(segment)
}

/* -------------------------------------------------------------------- order */

/// A text in small letters, by the rules of Unicode.
pub uninterp spec fn lowercase(s: Seq<char>) -> Seq<char>;

/// `str::to_lowercase` of std: the text in small letters, by the rules of
/// Unicode.
#[verifier::external_body]
fn to_small_letters(s: &str) -> (r: String)
    ensures
        r@ == lowercase(s@),
{
    s.to_lowercase()
}

/// One entry of a directory.
pub struct Entry {
    pub name: String,
    /// The length of a file; nothing for a directory.
    pub size: Option<u64>,
}

/// What an entry says.
pub struct EntryModel {
    pub name: Seq<char>,
    pub size: Option<u64>,
}

impl View for Entry {
    type V = EntryModel;

    open spec fn view(&self) -> EntryModel {
        EntryModel { name: self.name@, size: self.size }
    }
}

/// What a list of entries says.
pub open spec fn entries(list: Seq<Entry>) -> Seq<EntryModel> {
    Seq::new(list.len(), |i: int| list[i]@)
}

/// Whether bytes come before others in dictionary order.
pub open spec fn bytes_before(a: Seq<u8>, b: Seq<u8>) -> bool
    decreases a.len(),
{
    if b.len() == 0 {
        false
    } else if a.len() == 0 {
        true
    } else if a[0] != b[0] {
        a[0] < b[0]
    } else {
        bytes_before(a.skip(1), b.skip(1))
    }
}

/// Whether an entry comes before another: by name, whatever its case.
pub open spec fn entry_before(a: EntryModel, b: EntryModel) -> bool {
    bytes_before(encode_utf8(lowercase(a.name)), encode_utf8(lowercase(b.name)))
}

/// A list in order with one more entry, behind those that it does not come
/// before.
pub open spec fn filed(list: Seq<EntryModel>, entry: EntryModel) -> Seq<EntryModel>
    decreases list.len(),
{
    if list.len() > 0 && entry_before(entry, list.last()) {
        filed(list.drop_last(), entry).push(list.last())
    } else {
        list.push(entry)
    }
}

/// A list in order; entries that neither comes before the other keep their
/// order.
pub open spec fn sorted(list: Seq<EntryModel>) -> Seq<EntryModel>
    decreases list.len(),
{
    if list.len() == 0 {
        Seq::empty()
    } else {
        filed(sorted(list.drop_last()), list.last())
    }
}

/// The directories of a list, or its files, in the order of the list.
pub open spec fn only(list: Seq<EntryModel>, directories: bool) -> Seq<EntryModel>
    decreases list.len(),
{
    if list.len() == 0 {
        Seq::empty()
    } else if (list.last().size is None) == directories {
        only(list.drop_last(), directories).push(list.last())
    } else {
        only(list.drop_last(), directories)
    }
}

/// Whether bytes come before others in dictionary order.
pub fn comes_before(a: &[u8], b: &[u8]) -> (r: bool)
    ensures
        r == bytes_before(a@, b@),
{
    let mut i: usize = 0;
    assert(a@.skip(0) =~= a@);
    assert(b@.skip(0) =~= b@);
    while i < a.len() && i < b.len() && a[i] == b[i]
        invariant
            i <= a@.len(),
            i <= b@.len(),
            bytes_before(a@, b@) == bytes_before(a@.skip(i as int), b@.skip(i as int)),
        decreases a@.len() - i,
    {
        assert(a@.skip(i as int).skip(1) =~= a@.skip(i + 1));
        assert(b@.skip(i as int).skip(1) =~= b@.skip(i + 1));
        i = i + 1;
    }
    if i == b.len() {
        false
    } else if i == a.len() {
        true
    } else {
        a[i] < b[i]
    }
}

fn is_before(a: &Entry, b: &Entry) -> (r: bool)
    ensures
        r == entry_before(a@, b@),
{
    let left = to_small_letters(a.name.as_str());
    let right = to_small_letters(b.name.as_str());
    comes_before(left.as_str().as_bytes(), right.as_str().as_bytes())
}

proof fn lemma_filed_at(list: Seq<EntryModel>, entry: EntryModel, at: int)
    requires
        0 <= at <= list.len(),
        forall|k: int| at <= k < list.len() ==> entry_before(entry, #[trigger] list[k]),
        at > 0 ==> !entry_before(entry, list[at - 1]),
    ensures
        filed(list, entry) == list.insert(at, entry),
    decreases list.len(),
{
    if at == list.len() {
        assert(list.insert(at, entry) =~= list.push(entry));
    } else {
        let front = list.drop_last();
        assert(entry_before(entry, list[list.len() - 1]));
        assert forall|k: int| at <= k < front.len() implies entry_before(entry, #[trigger] front[k]) by {
            assert(front[k] == list[k]);
        }
        lemma_filed_at(front, entry, at);
        assert(front.insert(at, entry).push(list.last()) =~= list.insert(at, entry));
    }
}

/// Puts entries in order, directories or files alone.
pub fn sort_entries(list: &Vec<Entry>, directories: bool) -> (r: Vec<Entry>)
    ensures
        entries(r@) == sorted(only(entries(list@), directories)),
{
    let mut out: Vec<Entry> = Vec::new();
    let ghost all = entries(list@);
    assert(all.take(0) =~= Seq::<EntryModel>::empty());
    assert(entries(out@) =~= Seq::<EntryModel>::empty());
    for i in 0..list.len()
        invariant
            all == entries(list@),
            entries(out@) == sorted(only(all.take(i as int), directories)),
    {
        proof {
            assert(all.take(i + 1).drop_last() =~= all.take(i as int));
            assert(all.take(i + 1).last() == list@[i as int]@);
        }
        if list[i].size.is_none() == directories {
            let entry = Entry { name: owned(list[i].name.as_str()), size: list[i].size };
            let mut at: usize = out.len();
            while at > 0 && is_before(&entry, &out[at - 1])
                invariant
                    at <= out@.len(),
                    forall|k: int|
                        at <= k < out@.len() ==> entry_before(entry@, #[trigger] entries(out@)[k]),
                decreases at,
            {
                at = at - 1;
            }
            let ghost before = entries(out@);
            let ghost kept = only(all.take(i as int), directories);
            proof {
                lemma_filed_at(before, entry@, at as int);
                assert(kept.push(entry@).drop_last() =~= kept);
            }
            let ghost item = entry@;
            out.insert(at, entry);
            assert(entries(out@) =~= before.insert(at as int, item));
        }
    }
    assert(all.take(list.len() as int) =~= all);
    out
}

/* --------------------------------------------------------------------- page */

/// The way back up.
pub const PARENT_ROW: &'static str = "<li class=\"dir\"><a href=\"..\">../</a></li>";

/// What opens a listing, up to its title.
pub const PAGE_OPENING: &'static str = "<!doctype html><html><head><meta charset=\"utf-8\"><meta name=\"viewport\" content=\"width=device-width,initial-scale=1\"><title>";

/// What stands between the title and the heading.
pub const PAGE_STYLE: &'static str = "</title><style>:root{color-scheme:light dark}body{font:14px/1.6 ui-sans-serif,system-ui,-apple-system,Segoe UI,sans-serif;margin:0;padding:2rem;max-width:52rem}h1{font-size:1rem;font-weight:600;margin:0 0 1rem;font-family:ui-monospace,monospace}ul{list-style:none;margin:0;padding:0;border-top:1px solid rgba(128,128,128,.25)}li{display:flex;justify-content:space-between;gap:1rem;padding:.35rem .25rem;border-bottom:1px solid rgba(128,128,128,.15)}a{text-decoration:none;color:inherit;overflow-wrap:anywhere}a:hover{text-decoration:underline}.dir a{font-weight:600}span{opacity:.55;white-space:nowrap;font-variant-numeric:tabular-nums}</style></head><body><h1>";

/// The row of an entry.
pub open spec fn row(entry: EntryModel) -> Seq<char> {
    let href = percent_encoded(encode_utf8(entry.name));
    let label = escaped(entry.name);
    match entry.size {
        None => "<li class=\"dir\"><a href=\""@ + href + "/\">"@ + label + "/</a></li>"@,
        Some(size) => "<li><a href=\""@ + href + "\">"@ + label + "</a><span>"@ + size_text(
            size as nat,
        ) + "</span></li>"@,
    }
}

/// The rows of entries, one after the other.
pub open spec fn rows(list: Seq<EntryModel>) -> Seq<char>
    decreases list.len(),
{
    if list.len() == 0 {
        Seq::empty()
    } else {
        rows(list.drop_last()) + row(list.last())
    }
}

/// The listing of a directory: the way up unless this is the root, then the
/// directories and then the files, each in order.
pub open spec fn listing(list: Seq<EntryModel>, url_path: Seq<char>) -> Seq<char> {
    let up = if url_path != "/"@ {
        PARENT_ROW@
    } else {
        Seq::empty()
    };
    let all = up + rows(sorted(only(list, true))) + rows(sorted(only(list, false)));
    PAGE_OPENING@ + escaped(url_path) + PAGE_STYLE@ + escaped(url_path) + "</h1><ul>"@ + all
        + "</ul></body></html>"@
}

fn push_rows(out: &mut String, list: &Vec<Entry>)
    ensures
        final(out)@ == old(out)@ + rows(entries(list@)),
{
    let ghost before = out@;
    let ghost all = entries(list@);
    assert(all.take(0) =~= Seq::<EntryModel>::empty());
    assert(before + rows(all.take(0)) =~= before);
    for i in 0..list.len()
        invariant
            all == entries(list@),
            out@ == before + rows(all.take(i as int)),
    {
        let ghost upto = out@;
        let href = encode_path_segment(list[i].name.as_str());
        let label = escape_html(list[i].name.as_str());
        match list[i].size {
            None => {
                out.append("<li class=\"dir\"><a href=\"");
                out.append(href.as_str());
                out.append("/\">");
                out.append(label.as_str());
                out.append("/</a></li>");
            },
            Some(size) => {
                out.append("<li><a href=\"");
                out.append(href.as_str());
                out.append("\">");
                out.append(label.as_str());
                out.append("</a><span>");
                out.append(human_size(size).as_str());
                out.append("</span></li>");
            },
        }
        proof {
            let now = all.take(i + 1);
            assert(now.drop_last() =~= all.take(i as int));
            assert(now.last() == list@[i as int]@);
            assert(out@ =~= upto + row(now.last()));
            assert(out@ =~= before + rows(now));
        }
    }
    assert(all.take(list.len() as int) =~= all);
}

/// Renders the listing of a directory from the entries that were read.
pub fn directory_listing(list: &Vec<Entry>, url_path: &str) -> (r: String)
    ensures
        r@ == listing(entries(list@), url_path@),
{
    let directories = sort_entries(list, true);
    let files = sort_entries(list, false);
    let mut all = String::new();
    if !same_text(url_path, "/") {
        all.append(PARENT_ROW);
    }
    assert(all@ =~= if url_path@ != "/"@ {
        PARENT_ROW@
    } else {
        Seq::empty()
    });
    push_rows(&mut all, &directories);
    push_rows(&mut all, &files);
    let title = escape_html(url_path);
    let mut out = owned(PAGE_OPENING);
    out.append(title.as_str());
    out.append(PAGE_STYLE);
    out.append(title.as_str());
    out.append("</h1><ul>");
    out.append(all.as_str());
    out.append("</ul></body></html>");
    out
}

/// A size below a kilobyte is given to the byte.
pub proof fn law_small_sizes_are_exact(bytes: nat)
    requires
        bytes < 1024,
    ensures
        size_text(bytes) == decimal(bytes) + " B"@,
{
    assert(spacing(bytes) == 1);
    assert(bytes % 1 == 0);
    assert(rounded(bytes, 1) == bytes);
    assert(nearest_double(bytes) == bytes) by (nonlinear_arith)
        requires
            nearest_double(bytes) == rounded(bytes, 1) * spacing(bytes),
            rounded(bytes, 1) == bytes,
            spacing(bytes) == 1,
    ;
    lemma_units();
}

} // verus!
