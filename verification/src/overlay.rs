//! Unsaved editor buffers, kept in memory so they can be served in place of
//! the file on disk. This backs the `live_changes` beta option.

use vstd::prelude::*;
use vstd::utf8::encode_utf8;

use crate::path::{components, components_of};
use crate::text::{
    chars_of, find_char, lemma_encode_concat, lemma_encode_len, lemma_find_char, owned,
    position_of_char, same_texts, text_of, texts,
};

verus! {

/* --------------------------------------------------------------- positions */

/// A place in a document, as an editor counts: a line, and a column in UTF-16
/// code units.
#[derive(Clone, Copy, Debug, PartialEq, Eq)]
pub struct Position {
    pub line: u32,
    pub character: u32,
}

/// A stretch of a document, without its end.
#[derive(Clone, Copy, Debug, PartialEq, Eq)]
pub struct Range {
    pub start: Position,
    pub end: Position,
}

/// Where a line begins, if the document has that many lines.
pub open spec fn line_start(text: Seq<char>, line: nat) -> Option<int>
    decreases line,
{
    if line == 0 {
        Some(0)
    } else {
        match line_start(text, (line - 1) as nat) {
            Some(start) => match find_char(text, '\n', start) {
                Some(end) => Some(end + 1),
                None => None,
            },
            None => None,
        }
    }
}

/// Where the line that goes on at `from` ends.
pub open spec fn line_end(text: Seq<char>, from: int) -> int {
    match find_char(text, '\n', from) {
        Some(end) => end,
        None => text.len() as int,
    }
}

/// How many UTF-16 code units a character takes.
pub open spec fn utf16_width(c: char) -> int {
    if c as u32 >= 0x10000 {
        2
    } else {
        1
    }
}

/// The first place from `from` on, but not past `end`, with at least `units`
/// code units before it.
pub open spec fn column(text: Seq<char>, from: int, end: int, units: int) -> int
    decreases end - from,
{
    if from >= end || units <= 0 {
        from
    } else {
        column(text, from + 1, end, units - utf16_width(text[from]))
    }
}

/// The place in a document that a position means, counted in characters.
///
/// Positions past the end of a line mean the line end, and positions past the
/// end of the document mean its end.
pub open spec fn offset(text: Seq<char>, position: Position) -> int {
    match line_start(text, position.line as nat) {
        Some(start) => column(text, start, line_end(text, start), position.character as int),
        None => text.len() as int,
    }
}

/// A document after one edit: without a range the whole of it is replaced. A
/// range that ends before it begins changes nothing.
pub open spec fn edited(document: Seq<char>, range: Option<Range>, text: Seq<char>) -> Seq<char> {
    match range {
        None => text,
        Some(r) => {
            let start = offset(document, r.start);
            let end = offset(document, r.end);
            if start <= end {
                document.take(start) + text + document.skip(end)
            } else {
                document
            }
        },
    }
}

proof fn lemma_line_start(text: Seq<char>, line: nat)
    ensures
        line_start(text, line) matches Some(start) ==> 0 <= start <= text.len(),
    decreases line,
{
    if line > 0 {
        lemma_line_start(text, (line - 1) as nat);
        if let Some(start) = line_start(text, (line - 1) as nat) {
            lemma_find_char(text, '\n', start);
        }
    }
}

proof fn lemma_column(text: Seq<char>, from: int, end: int, units: int)
    requires
        0 <= from <= end,
    ensures
        from <= column(text, from, end, units) <= end,
    decreases end - from,
{
    if from < end && units > 0 {
        lemma_column(text, from + 1, end, units - utf16_width(text[from]));
    }
}

/// A position always means a place inside the document.
pub proof fn law_positions_stay_inside(text: Seq<char>, position: Position)
    ensures
        0 <= offset(text, position) <= text.len(),
{
    lemma_line_start(text, position.line as nat);
    if let Some(start) = line_start(text, position.line as nat) {
        lemma_find_char(text, '\n', start);
        lemma_column(text, start, line_end(text, start), position.character as int);
    }
}

proof fn lemma_no_line_after(text: Seq<char>, line: nat, later: nat)
    requires
        line <= later,
        line_start(text, line) is None,
    ensures
        line_start(text, later) is None,
    decreases later,
{
    if line < later {
        lemma_no_line_after(text, line, (later - 1) as nat);
    }
}

/// Finds the place that a position means, counted in characters.
pub fn char_offset(text: &[char], position: Position) -> (r: usize)
    ensures
        r == offset(text@, position),
        r <= text@.len(),
{
    proof {
        law_positions_stay_inside(text@, position);
    }
    let total: usize = text.len();
    let mut start: usize = 0;
    let mut line: u32 = 0;
    while line < position.line
        invariant
            line <= position.line,
            total == text@.len(),
            start <= text@.len(),
            line_start(text@, line as nat) == Some(start as int),
        decreases position.line - line,
    {
        proof {
            lemma_find_char(text@, '\n', start as int);
        }
        match position_of_char(text, '\n', start) {
            Some(end) => {
                start = end + 1;
            },
            None => {
                proof {
                    lemma_no_line_after(text@, (line + 1) as nat, position.line as nat);
                }
                return total;
            },
        }
        line = line + 1;
    }
    proof {
        lemma_find_char(text@, '\n', start as int);
    }
    let end: usize = match position_of_char(text, '\n', start) {
        Some(end) => end,
        None => total,
    };
    let mut at: usize = start;
    let mut units: u64 = 0;
    while at < end && units < position.character as u64
        invariant
            start <= at <= end <= text@.len(),
            units <= position.character as int + 1,
            column(text@, start as int, end as int, position.character as int) == column(
                text@,
                at as int,
                end as int,
                position.character - units,
            ),
        decreases end - at,
    {
        units = units + if text[at] as u32 >= 0x10000 {
            2
        } else {
            1
        };
        at = at + 1;
    }
    at
}

/// The place that a position means, counted in bytes of UTF-8.
pub open spec fn offset_in_bytes(text: Seq<char>, position: Position) -> int {
    encode_utf8(text.take(offset(text, position))).len() as int
}

/// Converts a [`Position`] to a byte offset.
///
/// Editors count lines in `\n` terminated rows and columns in UTF-16 code
/// units, not bytes and not characters. Conflating those silently corrupts any
/// buffer containing non-ASCII text, so the conversion is done explicitly here.
///
/// Positions past the end of a line clamp to the line end, and positions past
/// the end of the document clamp to its length, matching how editors treat a
/// stale position rather than panicking.
pub fn byte_offset(text: &str, position: Position) -> (r: usize)
    ensures
        r == offset_in_bytes(text@, position),
        r <= encode_utf8(text@).len(),
{
    let chars = chars_of(text);
    let upto = char_offset(chars.as_slice(), position);
    let total: usize = text.as_bytes().len();
    let mut bytes: usize = 0;
    assert(text@.take(0) =~= Seq::<char>::empty());
    assert(encode_utf8(text@.take(0)) =~= Seq::<u8>::empty());
    for i in 0..upto
        invariant
            chars@ == text@,
            upto <= text@.len(),
            total == encode_utf8(text@).len(),
            bytes == encode_utf8(text@.take(i as int)).len(),
    {
        let width = utf8_width(chars[i]);
        proof {
            lemma_next_width(text@, i as int);
            lemma_take_fits(text@, i + 1);
        }
        bytes = bytes + width;
    }
    proof {
        lemma_take_fits(text@, upto as int);
    }
    bytes
}

fn utf8_width(c: char) -> (r: usize)
    ensures
        r == vstd::utf8::encode_scalar(c as u32).len(),
{
    let n = c as u32;
    if n <= 0x7f {
        1
    } else if n <= 0x7ff {
        2
    } else if n <= 0xffff {
        3
    } else {
        4
    }
}

proof fn lemma_next_width(text: Seq<char>, i: int)
    requires
        0 <= i < text.len(),
    ensures
        encode_utf8(text.take(i + 1)).len() == encode_utf8(text.take(i)).len()
            + vstd::utf8::encode_scalar(text[i] as u32).len(),
{
    let one = seq![text[i]];
    assert(text.take(i + 1) =~= text.take(i) + one);
    lemma_encode_concat(text.take(i), one);
    assert(one.drop_first() =~= Seq::<char>::empty());
    assert(encode_utf8(one.drop_first()) =~= Seq::<u8>::empty());
    assert(encode_utf8(one) =~= vstd::utf8::encode_scalar(text[i] as u32));
}

proof fn lemma_take_fits(text: Seq<char>, i: int)
    requires
        0 <= i <= text.len(),
    ensures
        encode_utf8(text.take(i)).len() <= encode_utf8(text).len(),
{
    assert(text =~= text.take(i) + text.skip(i));
    lemma_encode_concat(text.take(i), text.skip(i));
}

/* ----------------------------------------------------------------- buffers */

/// One buffer.
struct Document {
    path: String,
    text: String,
}

/// Buffer contents the editor has told us about but which are not on disk yet.
///
/// Two spellings of a path with the same components name the same buffer.
pub struct Overlay {
    documents: Vec<Document>,
}

impl View for Overlay {
    type V = Map<Seq<Seq<char>>, Seq<char>>;

    /// The text held for each path, by the path's components.
    closed spec fn view(&self) -> Map<Seq<Seq<char>>, Seq<char>> {
        held(self.documents@)
    }
}

spec fn key(document: Document) -> Seq<Seq<char>> {
    components(document.path@)
}

spec fn distinct(documents: Seq<Document>) -> bool {
    forall|i: int, j: int|
        0 <= i < j < documents.len() ==> key(#[trigger] documents[i]) != key(#[trigger] documents[j])
}

spec fn held(documents: Seq<Document>) -> Map<Seq<Seq<char>>, Seq<char>>
    decreases documents.len(),
{
    if documents.len() == 0 {
        Map::empty()
    } else {
        held(documents.drop_last()).insert(key(documents.last()), documents.last().text@)
    }
}

proof fn lemma_held(documents: Seq<Document>)
    requires
        distinct(documents),
    ensures
        forall|i: int|
            #![trigger documents[i]]
            0 <= i < documents.len() ==> held(documents).contains_key(key(documents[i])) && held(
                documents,
            )[key(documents[i])] == documents[i].text@,
        forall|k: Seq<Seq<char>>| #[trigger]
            held(documents).contains_key(k) ==> exists|i: int|
                0 <= i < documents.len() && key(#[trigger] documents[i]) == k,
    decreases documents.len(),
{
    if documents.len() > 0 {
        let front = documents.drop_last();
        assert(distinct(front)) by {
            assert forall|i: int, j: int| 0 <= i < j < front.len() implies key(#[trigger] front[i])
                != key(#[trigger] front[j]) by {
                assert(front[i] == documents[i] && front[j] == documents[j]);
            }
        }
        lemma_held(front);
        let last = documents.len() - 1;
        assert forall|i: int|
            #![trigger documents[i]]
            0 <= i < documents.len() implies held(documents).contains_key(key(documents[i])) && held(
            documents,
        )[key(documents[i])] == documents[i].text@ by {
            if i < last {
                assert(front[i] == documents[i]);
                assert(key(documents[i]) != key(documents[last]));
            }
        }
        assert forall|k: Seq<Seq<char>>| #[trigger] held(documents).contains_key(k) implies exists|
            i: int,
        |
            0 <= i < documents.len() && key(#[trigger] documents[i]) == k by {
            if k == key(documents.last()) {
                assert(key(documents[last]) == k);
            } else {
                assert(held(front).contains_key(k));
                let i = choose|i: int| 0 <= i < front.len() && key(#[trigger] front[i]) == k;
                assert(front[i] == documents[i]);
            }
        }
    }
}

/// Two lists of documents that hold the same texts under the same keys, one
/// way and the other, make the same map.
proof fn lemma_same_held(documents: Seq<Document>, map: Map<Seq<Seq<char>>, Seq<char>>)
    requires
        distinct(documents),
        forall|i: int|
            #![trigger documents[i]]
            0 <= i < documents.len() ==> map.contains_key(key(documents[i]))
                && map[key(documents[i])] == documents[i].text@,
        forall|k: Seq<Seq<char>>| #[trigger]
            map.contains_key(k) ==> exists|i: int|
                0 <= i < documents.len() && key(#[trigger] documents[i]) == k,
    ensures
        held(documents) == map,
{
    lemma_held(documents);
    assert forall|k: Seq<Seq<char>>| held(documents).contains_key(k) == map.contains_key(k) by {
        if held(documents).contains_key(k) {
            let i = choose|i: int| 0 <= i < documents.len() && key(#[trigger] documents[i]) == k;
            assert(map.contains_key(key(documents[i])));
        }
        if map.contains_key(k) {
            let i = choose|i: int| 0 <= i < documents.len() && key(#[trigger] documents[i]) == k;
            assert(held(documents).contains_key(key(documents[i])));
        }
    }
    assert forall|k: Seq<Seq<char>>| held(documents).contains_key(k) implies held(documents)[k]
        == map[k] by {
        let i = choose|i: int| 0 <= i < documents.len() && key(#[trigger] documents[i]) == k;
        assert(documents[i].text@ == map[key(documents[i])]);
    }
    assert(held(documents) =~= map);
}

impl Overlay {
    /// Whether no path has two buffers.
    pub closed spec fn valid(&self) -> bool {
        distinct(self.documents@)
    }

    /// An overlay that holds no buffers.
    pub fn new() -> (r: Overlay)
        ensures
            r.valid(),
            r@ == Map::<Seq<Seq<char>>, Seq<char>>::empty(),
    {
        Overlay { documents: Vec::new() }
    }

    fn find(&self, path: &str) -> (r: Option<usize>)
        requires
            self.valid(),
        ensures
            match r {
                Some(i) => i < self.documents@.len() && key(self.documents@[i as int])
                    == components(path@) && self@.contains_key(components(path@))
                    && self@[components(path@)] == self.documents@[i as int].text@,
                None => !self@.contains_key(components(path@)) && forall|i: int|
                    0 <= i < self.documents@.len() ==> key(#[trigger] self.documents@[i])
                        != components(path@),
            },
    {
        let wanted = components_of(path);
        proof {
            lemma_held(self.documents@);
        }
        for i in 0..self.documents.len()
            invariant
                texts(wanted@) == components(path@),
                forall|j: int|
                    0 <= j < i ==> key(#[trigger] self.documents@[j]) != components(path@),
                self.valid(),
        {
            if same_texts(&components_of(self.documents[i].path.as_str()), &wanted) {
                proof {
                    lemma_held(self.documents@);
                    assert(key(self.documents@[i as int]) == components(path@));
                }
                return Some(i);
            }
        }
        None
    }

    /// Replaces the whole buffer for a path.
    pub fn set(&mut self, path: String, text: String)
        requires
            old(self).valid(),
        ensures
            final(self).valid(),
            final(self)@ == old(self)@.insert(components(path@), text@),
    {
        let ghost before = self.documents@;
        let ghost k = components(path@);
        let ghost wanted = self@.insert(k, text@);
        proof {
            lemma_held(before);
        }
        match self.find(path.as_str()) {
            Some(i) => {
                self.documents.set(i, Document { path, text });
                proof {
                    let after = self.documents@;
                    assert forall|a: int, b: int| 0 <= a < b < after.len() implies key(
                        #[trigger] after[a],
                    ) != key(#[trigger] after[b]) by {
                        assert(key(after[a]) == key(before[a]));
                        assert(key(after[b]) == key(before[b]));
                    }
                    assert forall|a: int|
                        #![trigger after[a]]
                        0 <= a < after.len() implies wanted.contains_key(key(after[a]))
                        && wanted[key(after[a])] == after[a].text@ by {
                        assert(key(after[a]) == key(before[a]));
                        if a != i {
                            assert(key(before[a]) != key(before[i as int]));
                        }
                    }
                    assert forall|q: Seq<Seq<char>>| #[trigger] wanted.contains_key(q) implies exists|
                        a: int,
                    |
                        0 <= a < after.len() && key(#[trigger] after[a]) == q by {
                        if q == k {
                            assert(key(after[i as int]) == q);
                        } else {
                            assert(held(before).contains_key(q));
                            let a = choose|a: int|
                                0 <= a < before.len() && key(#[trigger] before[a]) == q;
                            assert(key(after[a]) == q);
                        }
                    }
                    lemma_same_held(after, wanted);
                }
            },
            None => {
                self.documents.push(Document { path, text });
                proof {
                    let after = self.documents@;
                    assert forall|a: int, b: int| 0 <= a < b < after.len() implies key(
                        #[trigger] after[a],
                    ) != key(#[trigger] after[b]) by {
                        assert(after[a] == before[a]);
                        if b < before.len() {
                            assert(after[b] == before[b]);
                        }
                    }
                    assert(after.drop_last() =~= before);
                }
            },
        }
    }

    /// Forgets a buffer, so later requests fall back to disk.
    pub fn clear(&mut self, path: &str)
        requires
            old(self).valid(),
        ensures
            final(self).valid(),
            final(self)@ == old(self)@.remove(components(path@)),
    {
        let ghost before = self.documents@;
        let ghost k = components(path@);
        let ghost wanted = self@.remove(k);
        proof {
            lemma_held(before);
        }
        match self.find(path) {
            Some(i) => {
                let _ = self.documents.remove(i);
                proof {
                    let after = self.documents@;
                    assert forall|a: int, b: int| 0 <= a < b < after.len() implies key(
                        #[trigger] after[a],
                    ) != key(#[trigger] after[b]) by {
                        let c = if a < i {
                            a
                        } else {
                            a + 1
                        };
                        let d = if b < i {
                            b
                        } else {
                            b + 1
                        };
                        assert(after[a] == before[c]);
                        assert(after[b] == before[d]);
                    }
                    assert forall|a: int|
                        #![trigger after[a]]
                        0 <= a < after.len() implies wanted.contains_key(key(after[a]))
                        && wanted[key(after[a])] == after[a].text@ by {
                        let c = if a < i {
                            a
                        } else {
                            a + 1
                        };
                        assert(after[a] == before[c]);
                        assert(key(before[c]) != key(before[i as int]));
                    }
                    assert forall|q: Seq<Seq<char>>| #[trigger] wanted.contains_key(q) implies exists|
                        a: int,
                    |
                        0 <= a < after.len() && key(#[trigger] after[a]) == q by {
                        assert(held(before).contains_key(q));
                        let c = choose|c: int|
                            0 <= c < before.len() && key(#[trigger] before[c]) == q;
                        let a = if c < i {
                            c
                        } else {
                            c - 1
                        };
                        assert(after[a] == before[c]);
                    }
                    lemma_same_held(after, wanted);
                }
            },
            None => {
                assert(wanted =~= self@);
            },
        }
    }

    /// Drops every buffer.
    pub fn clear_all(&mut self)
        ensures
            final(self).valid(),
            final(self)@ == Map::<Seq<Seq<char>>, Seq<char>>::empty(),
    {
        self.documents = Vec::new();
    }

    /// Returns the buffer for a path, if we are holding one.
    pub fn get(&self, path: &str) -> (r: Option<String>)
        requires
            self.valid(),
        ensures
            match r {
                Some(text) => self@.contains_key(components(path@)) && self@[components(path@)]
                    == text@,
                None => !self@.contains_key(components(path@)),
            },
    {
        match self.find(path) {
            Some(i) => Some(owned(self.documents[i].text.as_str())),
            None => None,
        }
    }

    /// Applies an incremental edit. A `None` range means a full replace.
    ///
    /// Unknown paths are inserted rather than ignored, so an edit that arrives
    /// before we recorded the open document still leaves us with usable content.
    pub fn apply(&mut self, path: &str, range: Option<Range>, text: &str)
        requires
            old(self).valid(),
        ensures
            final(self).valid(),
            final(self)@ == applied(old(self)@, components(path@), range, text@),
    {
        let document = match self.get(path) {
            Some(document) => document,
            None => String::new(),
        };
        let after = edit(document.as_str(), range, text);
        self.set(owned(path), after);
    }
}

impl Default for Overlay {
    fn default() -> (r: Self)
        ensures
            r.valid(),
            r@ == Map::<Seq<Seq<char>>, Seq<char>>::empty(),
    {
        Overlay::new()
    }
}

/// The buffers after one edit. A path without a buffer has an empty one.
pub open spec fn applied(
    buffers: Map<Seq<Seq<char>>, Seq<char>>,
    path: Seq<Seq<char>>,
    range: Option<Range>,
    text: Seq<char>,
) -> Map<Seq<Seq<char>>, Seq<char>> {
    let document = if buffers.contains_key(path) {
        buffers[path]
    } else {
        Seq::empty()
    };
    buffers.insert(path, edited(document, range, text))
}

/// Applies one edit to a document.
pub fn edit(document: &str, range: Option<Range>, text: &str) -> (r: String)
    ensures
        r@ == edited(document@, range, text@),
{
    match range {
        None => owned(text),
        Some(range) => {
            let chars = chars_of(document);
            let start = char_offset(chars.as_slice(), range.start);
            let end = char_offset(chars.as_slice(), range.end);
            // Guard against a range the client and our copy disagree about.
            if start > end {
                return owned(document);
            }
            let mut out = text_of(vstd::slice::slice_subrange(chars.as_slice(), 0, start));
            out.append(text);
            let tail = text_of(vstd::slice::slice_subrange(chars.as_slice(), end, chars.len()));
            out.append(tail.as_str());
            proof {
                assert(chars@.subrange(0, start as int) =~= document@.take(start as int));
                assert(chars@.subrange(end as int, chars@.len() as int) =~= document@.skip(
                    end as int,
                ));
            }
            out
        },
    }
}

/* -------------------------------------------------------------------- laws */

/// An edit leaves what stands before its range and behind it as it was.
pub proof fn law_edits_keep_the_rest(document: Seq<char>, range: Range, text: Seq<char>)
    requires
        offset(document, range.start) <= offset(document, range.end),
    ensures
        ({
            let start = offset(document, range.start);
            let end = offset(document, range.end);
            let after = edited(document, Some(range), text);
            &&& after.len() == document.len() - (end - start) + text.len()
            &&& after.take(start) == document.take(start)
            &&& after.subrange(start, start + text.len()) == text
            &&& after.skip(start + text.len()) == document.skip(end)
        }),
{
    law_positions_stay_inside(document, range.start);
    law_positions_stay_inside(document, range.end);
    let start = offset(document, range.start);
    let end = offset(document, range.end);
    let after = edited(document, Some(range), text);
    assert(after.take(start) =~= document.take(start));
    assert(after.subrange(start, start + text.len()) =~= text);
    assert(after.skip(start + text.len()) =~= document.skip(end));
}

/// What is replaced can be put back: replacing a stretch by its own text
/// changes nothing.
pub proof fn law_replacing_with_the_same_text_changes_nothing(document: Seq<char>, range: Range)
    requires
        offset(document, range.start) <= offset(document, range.end),
    ensures
        edited(
            document,
            Some(range),
            document.subrange(offset(document, range.start), offset(document, range.end)),
        ) == document,
{
    law_positions_stay_inside(document, range.start);
    law_positions_stay_inside(document, range.end);
    let start = offset(document, range.start);
    let end = offset(document, range.end);
    assert(document.take(start) + document.subrange(start, end) + document.skip(end) =~= document);
}

/// An edit of one path leaves the buffers of all other paths alone.
pub proof fn law_edits_touch_one_buffer(
    buffers: Map<Seq<Seq<char>>, Seq<char>>,
    path: Seq<Seq<char>>,
    range: Option<Range>,
    text: Seq<char>,
    other: Seq<Seq<char>>,
)
    requires
        other != path,
    ensures
        applied(buffers, path, range, text).contains_key(other) == buffers.contains_key(other),
        applied(buffers, path, range, text)[other] == buffers[other],
{
}

/// An edit of a path without a buffer leaves one there, with the text of the
/// edit in it.
pub proof fn law_an_early_edit_is_kept(
    buffers: Map<Seq<Seq<char>>, Seq<char>>,
    path: Seq<Seq<char>>,
    range: Option<Range>,
    text: Seq<char>,
)
    requires
        !buffers.contains_key(path),
    ensures
        applied(buffers, path, range, text).contains_key(path),
        applied(buffers, path, range, text)[path] == text,
{
    let none = Seq::<char>::empty();
    if let Some(r) = range {
        law_positions_stay_inside(none, r.start);
        law_positions_stay_inside(none, r.end);
        assert(none.take(0) + text + none.skip(0) =~= text);
    }
}

/// Byte offsets grow with the places they stand for.
pub proof fn law_byte_offsets_keep_order(text: Seq<char>, a: Position, b: Position)
    ensures
        offset(text, a) <= offset(text, b) <==> offset_in_bytes(text, a) <= offset_in_bytes(
            text,
            b,
        ),
{
    law_positions_stay_inside(text, a);
    law_positions_stay_inside(text, b);
    lemma_bytes_grow(text, offset(text, a), offset(text, b));
    lemma_bytes_grow(text, offset(text, b), offset(text, a));
}

/// A byte offset counts the bytes of the text before the place it stands for: cut
/// there, the bytes of the text are those of its two parts.
pub proof fn law_byte_offsets_cut_the_text(text: Seq<char>, position: Position)
    ensures
        ({
            let at = offset(text, position);
            let bytes = offset_in_bytes(text, position);
            &&& 0 <= bytes <= encode_utf8(text).len()
            &&& encode_utf8(text).take(bytes) == encode_utf8(text.take(at))
            &&& encode_utf8(text).skip(bytes) == encode_utf8(text.skip(at))
        }),
{
    law_positions_stay_inside(text, position);
    let at = offset(text, position);
    let before = text.take(at);
    let after = text.skip(at);
    assert(text =~= before + after);
    lemma_encode_concat(before, after);
    assert(encode_utf8(text) =~= encode_utf8(before) + encode_utf8(after));
    let bytes = offset_in_bytes(text, position);
    assert(encode_utf8(text).take(bytes) =~= encode_utf8(before));
    assert(encode_utf8(text).skip(bytes) =~= encode_utf8(after));
}

proof fn lemma_bytes_grow(text: Seq<char>, i: int, j: int)
    requires
        0 <= i <= text.len(),
        0 <= j <= text.len(),
    ensures
        i <= j ==> encode_utf8(text.take(i)).len() <= encode_utf8(text.take(j)).len(),
        i < j ==> encode_utf8(text.take(i)).len() < encode_utf8(text.take(j)).len(),
{
    if i <= j {
        let middle = text.subrange(i, j);
        assert(text.take(j) =~= text.take(i) + middle);
        lemma_encode_concat(text.take(i), middle);
        lemma_encode_len(middle);
    }
}

} // verus!
