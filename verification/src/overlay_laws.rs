//! What a position of the editor means, told by lines and UTF-16 code units.

use vstd::prelude::*;

use crate::overlay::{
    applied, column, edited, line_end, line_start, offset, utf16_width, Position, Range,
};
use crate::text::{find_char, lemma_find_char};

verus! {

/* --------------------------------------------------------------------- UTF-16 */

/// The UTF-16 code units of a character: itself, or two surrogates where it
/// does not fit into one.
pub open spec fn utf16_of(c: char) -> Seq<u16> {
    if (c as u32) < 0x10000 {
        seq![c as u16]
    } else {
        seq![
            (0xd800 + (c as u32 - 0x10000) / 0x400) as u16,
            (0xdc00 + (c as u32 - 0x10000) % 0x400) as u16,
        ]
    }
}

/// The UTF-16 code units of a text.
pub open spec fn utf16_text(s: Seq<char>) -> Seq<u16>
    decreases s.len(),
{
    if s.len() == 0 {
        Seq::empty()
    } else {
        utf16_text(s.drop_last()) + utf16_of(s.last())
    }
}

proof fn lemma_utf16_front(c: char, s: Seq<char>)
    ensures
        utf16_text(seq![c] + s).len() == utf16_of(c).len() + utf16_text(s).len(),
    decreases s.len(),
{
    let all = seq![c] + s;
    if s.len() == 0 {
        reveal_with_fuel(utf16_text, 2);
        assert(all.drop_last() =~= Seq::<char>::empty());
        assert(all.last() == c);
    } else {
        lemma_utf16_front(c, s.drop_last());
        assert(all.drop_last() =~= seq![c] + s.drop_last());
        assert(all.last() == s.last());
    }
}

proof fn lemma_column_units(text: Seq<char>, from: int, end: int, units: int)
    requires
        0 <= from <= end <= text.len(),
    ensures
        ({
            let place = column(text, from, end, units);
            &&& from <= place <= end
            &&& place == end || utf16_text(text.subrange(from, place)).len() >= units
            &&& forall|j: int|
                from <= j < place ==> (#[trigger] utf16_text(text.subrange(from, j))).len() < units
        }),
    decreases end - from,
{
    let place = column(text, from, end, units);
    assert(text.subrange(from, from) =~= Seq::<char>::empty());
    if from < end && units > 0 {
        let c = text[from];
        assert(utf16_of(c).len() == utf16_width(c));
        lemma_column_units(text, from + 1, end, units - utf16_width(c));
        assert(seq![c] + text.subrange(from + 1, place) =~= text.subrange(from, place));
        lemma_utf16_front(c, text.subrange(from + 1, place));
        assert forall|j: int| from <= j < place implies (#[trigger] utf16_text(
            text.subrange(from, j),
        )).len() < units by {
            if j > from {
                assert(seq![c] + text.subrange(from + 1, j) =~= text.subrange(from, j));
                lemma_utf16_front(c, text.subrange(from + 1, j));
                assert(utf16_text(text.subrange(from + 1, j)).len() < units - utf16_width(c));
            }
        }
    }
}

/* ---------------------------------------------------------------------- lines */

/// How many line feeds a text holds.
pub open spec fn line_feeds(s: Seq<char>) -> nat {
    s.to_multiset().count('\n')
}

proof fn lemma_line_feeds_concat(a: Seq<char>, b: Seq<char>)
    ensures
        line_feeds(a + b) == line_feeds(a) + line_feeds(b),
{
    vstd::seq_lib::lemma_multiset_commutative(a, b);
}

proof fn lemma_no_line_feeds(s: Seq<char>)
    requires
        forall|i: int| 0 <= i < s.len() ==> s[i] != '\n',
    ensures
        line_feeds(s) == 0,
{
    broadcast use vstd::seq_lib::group_to_multiset_ensures;

    if s.to_multiset().count('\n') > 0 {
        assert(s.contains('\n'));
    }
}

proof fn lemma_one_line_feed()
    ensures
        line_feeds(seq!['\n']) == 1,
{
    broadcast use vstd::seq_lib::group_to_multiset_ensures;

    let none = Seq::<char>::empty();
    assert(none.push('\n') =~= seq!['\n']);
    lemma_no_line_feeds(none);
    assert(none.push('\n').to_multiset() =~= none.to_multiset().insert('\n'));
}

proof fn lemma_line_start_counts(text: Seq<char>, line: nat)
    ensures
        match line_start(text, line) {
            Some(start) => {
                &&& 0 <= start <= text.len()
                &&& line_feeds(text.take(start)) == line
                &&& start == 0 || text[start - 1] == '\n'
            },
            None => line_feeds(text) < line,
        },
    decreases line,
{
    if line == 0 {
        lemma_no_line_feeds(text.take(0));
    } else {
        lemma_line_start_counts(text, (line - 1) as nat);
        if let Some(start) = line_start(text, (line - 1) as nat) {
            lemma_find_char(text, '\n', start);
            match find_char(text, '\n', start) {
                Some(end) => {
                    let middle = text.subrange(start, end);
                    lemma_no_line_feeds(middle);
                    lemma_one_line_feed();
                    lemma_line_feeds_concat(text.take(start), middle);
                    lemma_line_feeds_concat(text.take(start) + middle, seq!['\n']);
                    assert(text.take(start) + middle + seq!['\n'] =~= text.take(end + 1));
                },
                None => {
                    lemma_no_line_feeds(text.skip(start));
                    lemma_line_feeds_concat(text.take(start), text.skip(start));
                    assert(text.take(start) + text.skip(start) =~= text);
                },
            }
        }
    }
}

/* ----------------------------------------------------------------------- laws */

/// Whether a place lies in a line that begins at `start`: no line feed stands
/// between them.
pub open spec fn in_line(text: Seq<char>, start: int, place: int) -> bool {
    &&& 0 <= start <= place <= text.len()
    &&& start == 0 || text[start - 1] == '\n'
    &&& forall|i: int| start <= i < place ==> #[trigger] text[i] != '\n'
}

/// The place that a position means has as many line feeds before it as the
/// position counts lines, and it is the first place of its line whose text
/// before it takes as many UTF-16 code units as the position counts columns, or
/// the end of the line where that is shorter. A position past the last line
/// means the end of the document.
pub proof fn law_a_position_counts_lines_and_code_units(text: Seq<char>, position: Position)
    ensures
        line_feeds(text) < position.line ==> offset(text, position) == text.len(),
        line_feeds(text) >= position.line ==> exists|start: int|
            #![trigger text.take(start)]
            {
                let place = offset(text, position);
                &&& in_line(text, start, place)
                &&& line_feeds(text.take(start)) == position.line
                &&& place == text.len() || text[place] == '\n' || utf16_text(
                    text.subrange(start, place),
                ).len() >= position.character
                &&& forall|j: int|
                    start <= j < place ==> (#[trigger] utf16_text(text.subrange(start, j))).len()
                        < position.character
            },
{
    lemma_line_start_counts(text, position.line as nat);
    match line_start(text, position.line as nat) {
        Some(start) => {
            lemma_find_char(text, '\n', start);
            let end = line_end(text, start);
            lemma_column_units(text, start, end, position.character as int);
            let rest = text.skip(start);
            lemma_line_feeds_concat(text.take(start), rest);
            assert(text.take(start) + rest =~= text);
            assert(line_feeds(text) >= position.line);
            assert(line_feeds(text.take(start)) == position.line);
        },
        None => {},
    }
}

proof fn lemma_plain_units(s: Seq<char>)
    requires
        forall|i: int| 0 <= i < s.len() ==> (#[trigger] s[i] as u32) < 0x10000,
    ensures
        utf16_text(s).len() == s.len(),
    decreases s.len(),
{
    if s.len() > 0 {
        let front = s.drop_last();
        assert forall|i: int| 0 <= i < front.len() implies (#[trigger] front[i] as u32)
            < 0x10000 by {
            assert(front[i] == s[i]);
        }
        lemma_plain_units(front);
        assert((s[s.len() - 1] as u32) < 0x10000);
    }
}

/// In a line whose characters take one code unit each, a column is a count of
/// characters: with `before` ahead of the line and `line` as its text, the
/// place lies as many characters into the line, or at its end.
pub proof fn law_columns_are_characters_in_plain_lines(
    before: Seq<char>,
    line: Seq<char>,
    after: Seq<char>,
    position: Position,
)
    requires
        before.len() == 0 || before.last() == '\n',
        line_feeds(before) == position.line,
        forall|i: int|
            0 <= i < line.len() ==> #[trigger] line[i] != '\n' && (line[i] as u32) < 0x10000,
        after.len() == 0 || after[0] == '\n',
    ensures
        offset(before + line + after, position) == before.len() + (if position.character
            < line.len() {
            position.character as int
        } else {
            line.len() as int
        }),
{
    let text = before + line + after;
    let n = before.len() as int;
    let end = n + line.len();
    assert(text.take(n) =~= before);
    lemma_line_start_is(text, n, position.line as nat, before);
    assert(line_start(text, position.line as nat) == Some(n));
    assert forall|j: int| n <= j < end implies text[j] != '\n' by {
        assert(text[j] == line[j - n]);
    }
    lemma_find_char(text, '\n', n);
    if after.len() > 0 {
        assert(text[end] == after[0]);
    }
    assert(line_end(text, n) == end);
    let units = position.character as int;
    lemma_column_units(text, n, end, units);
    let place = column(text, n, end, units);
    assert forall|j: int| n <= j <= end implies (#[trigger] utf16_text(text.subrange(n, j))).len()
        == j - n by {
        let part = text.subrange(n, j);
        assert forall|i: int| 0 <= i < part.len() implies (#[trigger] part[i] as u32)
            < 0x10000 by {
            assert(part[i] == line[i]);
        }
        lemma_plain_units(part);
    }
    if place > n {
        assert(utf16_text(text.subrange(n, place - 1)).len() < units);
    }
    assert(utf16_text(text.subrange(n, place)).len() == place - n);
}

proof fn lemma_line_start_is(text: Seq<char>, n: int, line: nat, before: Seq<char>)
    requires
        0 <= n <= text.len(),
        text.take(n) == before,
        before.len() == 0 || before.last() == '\n',
        line_feeds(before) == line,
    ensures
        line_start(text, line) == Some(n),
{
    lemma_line_start_counts(text, line);
    lemma_line_feeds_concat(text.take(n), text.skip(n));
    assert(text.take(n) + text.skip(n) =~= text);
    let start = line_start(text, line)->0;
    if start < n {
        let gap = text.subrange(start, n);
        lemma_line_feeds_concat(text.take(start), gap);
        assert(text.take(start) + gap =~= text.take(n));
        lemma_line_feeds_concat(gap.drop_last(), seq!['\n']);
        assert(gap.drop_last() + seq!['\n'] =~= gap);
        lemma_one_line_feed();
    } else if start > n {
        let gap = text.subrange(n, start);
        lemma_line_feeds_concat(text.take(n), gap);
        assert(text.take(n) + gap =~= text.take(start));
        lemma_line_feeds_concat(gap.drop_last(), seq!['\n']);
        assert(gap.drop_last() + seq!['\n'] =~= gap);
        lemma_one_line_feed();
    }
}

/// Replacing a stretch of a plain line replaces those characters, and keeps
/// everything around them.
pub proof fn law_plain_edits_replace_their_characters(
    before: Seq<char>,
    left: Seq<char>,
    old_text: Seq<char>,
    right: Seq<char>,
    after: Seq<char>,
    range: Range,
    new_text: Seq<char>,
)
    requires
        before.len() == 0 || before.last() == '\n',
        line_feeds(before) == range.start.line,
        range.end.line == range.start.line,
        forall|i: int|
            0 <= i < (left + old_text + right).len() ==> #[trigger] (left + old_text + right)[i]
                != '\n' && ((left + old_text + right)[i] as u32) < 0x10000,
        after.len() == 0 || after[0] == '\n',
        range.start.character == left.len(),
        range.end.character == left.len() + old_text.len(),
    ensures
        edited(before + left + old_text + right + after, Some(range), new_text) == before + left
            + new_text + right + after,
{
    let line = left + old_text + right;
    let text = before + left + old_text + right + after;
    assert(text =~= before + line + after);
    law_columns_are_characters_in_plain_lines(before, line, after, range.start);
    law_columns_are_characters_in_plain_lines(before, line, after, range.end);
    let start = before.len() + left.len();
    let end = start + old_text.len();
    assert(offset(text, range.start) == start);
    assert(offset(text, range.end) == end);
    assert(text.take(start as int) + new_text + text.skip(end as int) =~= before + left + new_text
        + right + after);
}

/// An edit without a range replaces the whole document; one whose range ends
/// before it begins changes nothing; and text that was never opened is edited as
/// if it were empty.
pub proof fn law_edits_without_a_range_replace_all(
    document: Seq<char>,
    range: Range,
    text: Seq<char>,
    buffers: Map<Seq<Seq<char>>, Seq<char>>,
    path: Seq<Seq<char>>,
)
    ensures
        edited(document, None, text) == text,
        offset(document, range.start) > offset(document, range.end) ==> edited(
            document,
            Some(range),
            text,
        ) == document,
        applied(buffers, path, None, text) == buffers.insert(path, text),
        buffers.contains_key(path) ==> applied(buffers, path, Some(range), text)[path] == edited(
            buffers[path],
            Some(range),
            text,
        ),
        !buffers.contains_key(path) ==> applied(buffers, path, Some(range), text)[path] == edited(
            Seq::<char>::empty(),
            Some(range),
            text,
        ),
{
}

} // verus!
