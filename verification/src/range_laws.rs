//! What a `Range` header asks for, told by the numbers in it.

use vstd::prelude::*;

use crate::handler::{part_sent, StepModel};
use crate::http::{
    asked_range, header_value, is_multi_range, range_spec, single_range, Context, RequestModel,
};
use crate::number::{decimal, is_digit, law_decimal_reads_back, lemma_decimal, parse_unsigned};
use crate::response::{content_type, guessed_mime, head_text};
use crate::text::{
    find_char, is_white, lemma_find_char, lemma_find_char_is, trim, trim_end, trim_start,
};
use crate::text_laws::{all_white, law_trimming_takes_the_white_space_around};

verus! {

/* -------------------------------------------------------------------- lemmas */

/// A number as it stands in a header, or nothing.
pub open spec fn number_text(n: Option<u64>) -> Seq<char> {
    match n {
        Some(n) => decimal(n as nat),
        None => Seq::empty(),
    }
}

/// The header that asks for the bytes between two numbers.
pub open spec fn range_header(from: Option<u64>, to: Option<u64>) -> Seq<char> {
    "bytes="@ + number_text(from) + "-"@ + number_text(to)
}

proof fn lemma_number_text(n: Option<u64>)
    ensures
        forall|i: int| 0 <= i < number_text(n).len() ==> is_digit(#[trigger] number_text(n)[i]),
        n is Some ==> number_text(n).len() > 0,
        trim(number_text(n)) == number_text(n),
{
    if let Some(n) = n {
        lemma_decimal(n as nat);
    }
    let s = number_text(n);
    assert forall|i: int| 0 <= i < s.len() implies is_digit(#[trigger] s[i]) by {}
    if s.len() > 0 {
        assert(is_digit(s[0]) && is_digit(s[s.len() - 1]));
    }
    let none = Seq::<char>::empty();
    law_trimming_takes_the_white_space_around(none, s, none);
    assert(none + s + none =~= s);
}

/// A header with white space around what stands before and behind its dash.
pub open spec fn spaced_header(
    start: Seq<char>,
    end: Seq<char>,
    spaces: (Seq<char>, Seq<char>, Seq<char>, Seq<char>),
) -> Seq<char> {
    "bytes="@ + spaces.0 + start + spaces.1 + "-"@ + spaces.2 + end + spaces.3
}

/// Whether texts are what stands before and behind the dash of one range, without
/// the white space around them. Where there is no text, there is one place for
/// white space, not two.
pub open spec fn are_ends(
    start: Seq<char>,
    end: Seq<char>,
    spaces: (Seq<char>, Seq<char>, Seq<char>, Seq<char>),
) -> bool {
    &&& all_white(spaces.0) && all_white(spaces.1) && all_white(spaces.2) && all_white(spaces.3)
    &&& start.len() == 0 ==> spaces.1.len() == 0
    &&& end.len() == 0 ==> spaces.2.len() == 0
    &&& start.len() > 0 ==> !is_white(start[0]) && !is_white(start.last())
    &&& end.len() > 0 ==> !is_white(end[0]) && !is_white(end.last())
    &&& forall|i: int| 0 <= i < start.len() ==> #[trigger] start[i] != '-' && start[i] != ','
    &&& forall|i: int| 0 <= i < end.len() ==> #[trigger] end[i] != ','
}

proof fn lemma_spaced_header(
    start: Seq<char>,
    end: Seq<char>,
    spaces: (Seq<char>, Seq<char>, Seq<char>, Seq<char>),
)
    requires
        are_ends(start, end, spaces),
    ensures
        ({
            let x = start + spaces.1;
            let y = spaces.2 + end;
            let spec = x + "-"@ + y;
            &&& range_spec(spaced_header(start, end, spaces)) == Some(spec)
            &&& !spec.contains(',')
            &&& find_char(spec, '-', 0) == Some(x.len() as int)
            &&& trim(spec.take(x.len() as int)) == start
            &&& trim(spec.skip((x.len() + 1) as int)) == end
        }),
{
    reveal_strlit("bytes=");
    reveal_strlit("-");
    let x = start + spaces.1;
    let y = spaces.2 + end;
    let spec = x + "-"@ + y;
    let value = spaced_header(start, end, spaces);
    let none = Seq::<char>::empty();
    let unit = "bytes="@;
    assert(unit.len() == 6);
    assert(value.subrange(0, 6) =~= unit);
    assert(value.skip(6) =~= spaces.0 + spec + spaces.3);
    assert(!is_white(spec[0])) by {
        if start.len() > 0 {
            assert(spec[0] == start[0]);
        }
    }
    assert(!is_white(spec.last())) by {
        if end.len() > 0 {
            assert(spec.last() == end.last());
        }
    }
    law_trimming_takes_the_white_space_around(spaces.0, spec, spaces.3);
    law_trimming_takes_the_white_space_around(none, start, spaces.1);
    law_trimming_takes_the_white_space_around(spaces.2, end, none);
    assert(none + start + spaces.1 =~= x);
    assert(spaces.2 + end + none =~= y);
    assert forall|i: int| 0 <= i < x.len() implies #[trigger] x[i] != ',' && x[i] != '-' by {
        if i < start.len() {
            assert(x[i] == start[i]);
        } else {
            assert(is_white(spaces.1[i - start.len()]));
        }
    }
    assert forall|i: int| 0 <= i < y.len() implies #[trigger] y[i] != ',' by {
        if i < spaces.2.len() {
            assert(is_white(spaces.2[i]));
        } else {
            assert(y[i] == end[i - spaces.2.len()]);
        }
    }
    assert forall|i: int| 0 <= i < spec.len() implies spec[i] != ',' by {
        if i < x.len() {
            assert(x[i] != ',');
        } else if i > x.len() {
            assert(y[i - x.len() - 1] != ',');
        }
    }
    assert forall|j: int| 0 <= j < x.len() implies spec[j] != '-' by {
        assert(x[j] != '-');
    }
    assert(spec[x.len() as int] == '-');
    lemma_find_char_is(spec, '-', 0, x.len() as int);
    assert(spec.take(x.len() as int) =~= x);
    assert(spec.skip((x.len() + 1) as int) =~= y);
}

/// What stands before and behind the dash tells the range: two numbers ask for
/// the bytes between them, one before the dash for the rest of the file, and one
/// behind it for so many at the end. Anything that is no number asks for nothing,
/// and white space does not count.
pub proof fn law_ranges_are_told_by_their_ends(
    start: Seq<char>,
    end: Seq<char>,
    spaces: (Seq<char>, Seq<char>, Seq<char>, Seq<char>),
    total: u64,
)
    requires
        are_ends(start, end, spaces),
        total > 0,
    ensures
        ({
            let asked = asked_range(spaced_header(start, end, spaces), total);
            let bounds = asked->0;
            let last = (total - 1) as u64;
            let from = parse_unsigned(start, 0xffff_ffff_ffff_ffff);
            let to = parse_unsigned(end, 0xffff_ffff_ffff_ffff);
            &&& asked matches Some((a, b)) ==> a <= b < total
            &&& start.len() == 0 ==> match to {
                Some(n) => if n == 0 {
                    asked is None
                } else {
                    asked is Some && bounds.1 == last && (if n < total {
                        bounds.0 == total - n
                    } else {
                        bounds.0 == 0
                    })
                },
                None => asked is None,
            }
            &&& start.len() > 0 && end.len() == 0 ==> match from {
                Some(n) => if n < total {
                    asked is Some && bounds.0 == n && bounds.1 == last
                } else {
                    asked is None
                },
                None => asked is None,
            }
            &&& start.len() > 0 && end.len() > 0 ==> match (from, to) {
                (Some(n), Some(m)) => if n <= m && n < total {
                    asked is Some && bounds.0 == n && (if m < total {
                        bounds.1 == m
                    } else {
                        bounds.1 == last
                    })
                } else {
                    asked is None
                },
                _ => asked is None,
            }
        }),
{
    lemma_spaced_header(start, end, spaces);
}

proof fn lemma_range_header(from: Option<u64>, to: Option<u64>, total: u64)
    ensures
        ({
            let spec = number_text(from) + "-"@ + number_text(to);
            &&& range_spec(range_header(from, to)) == Some(spec)
            &&& !spec.contains(',')
            &&& total > 0 ==> asked_range(range_header(from, to), total) == single_range(
                spec,
                total,
            )
            &&& find_char(spec, '-', 0) == Some(number_text(from).len() as int)
            &&& trim(spec.take(number_text(from).len() as int)) == number_text(from)
            &&& trim(spec.skip((number_text(from).len() + 1) as int)) == number_text(to)
        }),
{
    let none = Seq::<char>::empty();
    let spaces = (none, none, none, none);
    let start = number_text(from);
    let end = number_text(to);
    lemma_number_text(from);
    lemma_number_text(to);
    if start.len() > 0 {
        assert(is_digit(start[0]) && is_digit(start[start.len() - 1]));
    }
    if end.len() > 0 {
        assert(is_digit(end[0]) && is_digit(end[end.len() - 1]));
    }
    assert forall|i: int| 0 <= i < start.len() implies #[trigger] start[i] != '-' && start[i]
        != ',' by {
        assert(is_digit(start[i]));
    }
    assert forall|i: int| 0 <= i < end.len() implies #[trigger] end[i] != ',' by {
        assert(is_digit(end[i]));
    }
    lemma_spaced_header(start, end, spaces);
    assert(spaced_header(start, end, spaces) =~= range_header(from, to));
    assert(start + none =~= start);
    assert(none + end =~= end);
}

/// A header with two numbers asks for one range.
pub proof fn lemma_single_ranges_are_single(from: Option<u64>, to: Option<u64>)
    ensures
        !is_multi_range(range_header(from, to)),
{
    lemma_range_header(from, to, 1);
}

/* ---------------------------------------------------------------------- laws */

/// `bytes=a-b` asks for the bytes from `a` to `b`, as far as the file goes. It
/// asks for nothing where the file ends before `a`, or where `b` comes first.
pub proof fn law_closed_ranges_ask_for_their_bytes(a: u64, b: u64, total: u64)
    ensures
        a <= b && b < total ==> asked_range(range_header(Some(a), Some(b)), total) == Some((a, b)),
        a < total && total <= b ==> asked_range(range_header(Some(a), Some(b)), total) == Some(
            (a, (total - 1) as u64),
        ),
        a >= total || a > b ==> asked_range(range_header(Some(a), Some(b)), total) is None,
{
    if total > 0 {
        lemma_range_header(Some(a), Some(b), total);
        lemma_number_text(Some(a));
        lemma_number_text(Some(b));
        law_decimal_reads_back(a as nat, u64::MAX as nat);
        law_decimal_reads_back(b as nat, u64::MAX as nat);
    }
}

/// `bytes=a-` asks for everything from `a` on, or for nothing where the file
/// ends before that.
pub proof fn law_open_ranges_ask_for_the_rest(a: u64, total: u64)
    ensures
        a < total ==> asked_range(range_header(Some(a), None), total) == Some(
            (a, (total - 1) as u64),
        ),
        a >= total ==> asked_range(range_header(Some(a), None), total) is None,
{
    if total > 0 {
        lemma_range_header(Some(a), None, total);
        lemma_number_text(Some(a));
        lemma_number_text(None);
        law_decimal_reads_back(a as nat, u64::MAX as nat);
    }
}

/// `bytes=-n` asks for the last `n` bytes, or for the whole file where it has
/// fewer; and for nothing where `n` is zero or the file is empty.
pub proof fn law_suffix_ranges_ask_for_the_end(n: u64, total: u64)
    ensures
        0 < n <= total ==> asked_range(range_header(None, Some(n)), total) == Some(
            ((total - n) as u64, (total - 1) as u64),
        ),
        0 < total < n ==> asked_range(range_header(None, Some(n)), total) == Some(
            (0u64, (total - 1) as u64),
        ),
        n == 0 || total == 0 ==> asked_range(range_header(None, Some(n)), total) is None,
{
    if total > 0 {
        lemma_range_header(None, Some(n), total);
        lemma_number_text(None);
        lemma_number_text(Some(n));
        law_decimal_reads_back(n as nat, u64::MAX as nat);
    }
}

/// Only ranges of bytes are known: a header that does not begin with that unit,
/// or that holds no dash behind it, asks for nothing.
pub proof fn law_only_ranges_of_bytes_are_known(value: Seq<char>, total: u64)
    ensures
        value.len() < 6 || value.take(6) != "bytes="@ ==> asked_range(value, total) is None,
        !value.contains('-') ==> asked_range(value, total) is None,
{
    reveal_strlit("bytes=");
    if value.len() >= 6 {
        assert(value.subrange(0, 6) =~= value.take(6));
    }
    if let Some(spec) = range_spec(value) {
        if find_char(spec, '-', 0) is Some {
            lemma_find_char(spec, '-', 0);
            let at = find_char(spec, '-', 0)->0;
            let rest = value.skip(6);
            lemma_trim_is_part(rest, '-');
            assert(spec.contains(spec[at]));
            assert(rest.contains('-'));
            let k = choose|k: int| 0 <= k < rest.len() && rest[k] == '-';
            assert(value[k + 6] == '-');
        }
    }
}

proof fn lemma_trim_is_part(s: Seq<char>, c: char)
    ensures
        trim(s).contains(c) ==> s.contains(c),
{
    lemma_trim_start_is_part(s, c);
    lemma_trim_end_is_part(trim_start(s), c);
}

proof fn lemma_trim_start_is_part(s: Seq<char>, c: char)
    ensures
        trim_start(s).contains(c) ==> s.contains(c),
    decreases s.len(),
{
    if s.len() > 0 && is_white(s[0]) {
        let rest = s.skip(1);
        lemma_trim_start_is_part(rest, c);
        if rest.contains(c) {
            let k = choose|k: int| 0 <= k < rest.len() && rest[k] == c;
            assert(s[k + 1] == c);
        }
    }
}

proof fn lemma_trim_end_is_part(s: Seq<char>, c: char)
    ensures
        trim_end(s).contains(c) ==> s.contains(c),
    decreases s.len(),
{
    if s.len() > 0 && is_white(s.last()) {
        let front = s.drop_last();
        lemma_trim_end_is_part(front, c);
        if front.contains(c) {
            let k = choose|k: int| 0 <= k < front.len() && front[k] == c;
            assert(s[k] == c);
        }
    }
}

/// Whatever a header asks for lies inside the file.
pub proof fn law_asked_ranges_lie_inside_the_file(value: Seq<char>, total: u64)
    ensures
        asked_range(value, total) matches Some((start, end)) ==> start <= end < total,
{
}

/// A request for the bytes from `a` to `b` of a file is answered with those
/// bytes, with their number as the length, and with their place in the file.
pub proof fn law_ranges_are_answered_with_their_bytes(
    file: Seq<char>,
    a: u64,
    b: u64,
    total: u64,
    request: RequestModel,
    context: Context,
)
    requires
        a <= b < total,
        request.method == "GET"@,
        header_value(request, "range"@) == Some(range_header(Some(a), Some(b))),
    ensures
        part_sent(file, total, request, context) == (StepModel::Stream {
            head: head_text(
                206,
                "Partial Content"@,
                content_type(guessed_mime(file)),
                (b - a + 1) as u64,
                context.config@.cors,
                seq![
                    ("Accept-Ranges"@, "bytes"@),
                    (
                        "Content-Range"@,
                        "bytes "@ + decimal(a as nat) + "-"@ + decimal(b as nat) + "/"@ + decimal(
                            total as nat,
                        ),
                    ),
                ],
            ),
            file,
            start: a,
            length: (b - a + 1) as u64,
        }),
{
    law_closed_ranges_ask_for_their_bytes(a, b, total);
    reveal_strlit("GET");
    reveal_strlit("HEAD");
    assert("GET"@.len() != "HEAD"@.len());
}

/// A request without a range is answered with the whole file.
pub proof fn law_whole_files_are_sent_whole(
    file: Seq<char>,
    total: u64,
    request: RequestModel,
    context: Context,
)
    requires
        request.method == "GET"@,
        header_value(request, "range"@) is None,
    ensures
        part_sent(file, total, request, context) == (StepModel::Stream {
            head: head_text(
                200,
                "OK"@,
                content_type(guessed_mime(file)),
                total,
                context.config@.cors,
                seq![("Accept-Ranges"@, "bytes"@)],
            ),
            file,
            start: 0,
            length: total,
        }),
{
    reveal_strlit("GET");
    reveal_strlit("HEAD");
    assert("GET"@.len() != "HEAD"@.len());
}

} // verus!
