//! Where an inline comment is anchored: the lines of a file, how far a line
//! reaches in UTF-16 code units, and what an applied suggestion replaces.

use crate::json::{json_integer, json_object, json_set, json_size, json_text, json_view, JsonView};
use crate::text::chars_of;
use vstd::prelude::*;

verus! {

/// The index of the first line feed, or the length where there is none.
pub open spec fn line_feed_index(text: Seq<char>) -> int
    decreases text.len(),
{
    if text.len() == 0 || text[0] == '\n' {
        0
    } else {
        1 + line_feed_index(text.drop_first())
    }
}

/// The line without one carriage return at its end, if it ends in one.
pub open spec fn without_trailing_cr(line: Seq<char>) -> Seq<char> {
    if line.len() > 0 && line.last() == '\r' {
        line.drop_last()
    } else {
        line
    }
}

/// The line with index `n` (counted from zero) of a text whose lines end in
/// a line feed, or in a carriage return and a line feed. The ending of the last
/// line is optional, and belongs to no line.
pub open spec fn nth_line(text: Seq<char>, n: nat) -> Option<Seq<char>>
    decreases n,
{
    let end = line_feed_index(text);
    if text.len() == 0 {
        None
    } else if n == 0 {
        Some(
            if end < text.len() {
                without_trailing_cr(text.take(end))
            } else {
                text
            },
        )
    } else if end < text.len() {
        nth_line(text.skip(end + 1), (n - 1) as nat)
    } else {
        None
    }
}

/// The text of line `line` (counted from one) that an anchor spans: the line
/// without a carriage return left at its end.
pub open spec fn anchored_text(text: Seq<char>, line: int) -> Option<Seq<char>> {
    if line < 1 {
        None
    } else {
        match nth_line(text, (line - 1) as nat) {
            Some(content) => Some(without_trailing_cr(content)),
            None => None,
        }
    }
}

/// How many UTF-16 code units the character takes.
pub open spec fn utf16_width(c: char) -> nat {
    if c as u32 <= 0xffff {
        1
    } else {
        2
    }
}

/// How many UTF-16 code units the characters take.
pub open spec fn utf16_len(text: Seq<char>) -> nat
    decreases text.len(),
{
    if text.len() == 0 {
        0
    } else {
        utf16_len(text.drop_last()) + utf16_width(text.last())
    }
}

/// The offset, counted from one in UTF-16 code units, just past the last
/// character of line `line`.
pub open spec fn end_offset_of_line(text: Seq<char>, line: int) -> Option<nat> {
    match anchored_text(text, line) {
        Some(content) => Some(utf16_len(content) + 1),
        None => None,
    }
}

proof fn lemma_line_feed_index(text: Seq<char>)
    ensures
        0 <= line_feed_index(text) <= text.len(),
        forall|j: int| 0 <= j < line_feed_index(text) ==> #[trigger] text[j] != '\n',
        line_feed_index(text) < text.len() ==> text[line_feed_index(text)] == '\n',
    decreases text.len(),
{
    if text.len() > 0 && text[0] != '\n' {
        let rest = text.drop_first();
        lemma_line_feed_index(rest);
        assert forall|j: int| 0 <= j < line_feed_index(text) implies #[trigger] text[j]
            != '\n' by {
            if j > 0 {
                assert(text[j] == rest[j - 1]);
            }
        }
    }
}

/// The first line feed is the one with none before it.
proof fn lemma_line_feed_index_is(text: Seq<char>, at: int)
    requires
        0 <= at <= text.len(),
        forall|j: int| 0 <= j < at ==> #[trigger] text[j] != '\n',
        at < text.len() ==> text[at] == '\n',
    ensures
        line_feed_index(text) == at,
{
    lemma_line_feed_index(text);
    let first = line_feed_index(text);
    if first < at {
        assert(text[first] != '\n');
    } else if at < first {
        assert(text[at] != '\n');
    }
}

/// The index of the first line feed at or after `from`, or the length.
fn find_line_feed(chars: &Vec<char>, from: usize) -> (at: usize)
    requires
        from <= chars@.len(),
    ensures
        from <= at <= chars@.len(),
        at - from == line_feed_index(chars@.skip(from as int)),
{
    let mut at: usize = from;
    while at < chars.len() && chars[at] != '\n'
        invariant
            from <= at <= chars@.len(),
            forall|j: int| from <= j < at ==> #[trigger] chars@[j] != '\n',
        decreases chars@.len() - at,
    {
        at = at + 1;
    }
    proof {
        let rest = chars@.skip(from as int);
        assert forall|j: int| 0 <= j < at - from implies #[trigger] rest[j] != '\n' by {
            assert(rest[j] == chars@[from + j]);
        }
        lemma_line_feed_index_is(rest, at - from);
    }
    at
}

/// The UTF-16 code units of the characters from `from` up to `to`.
fn count_utf16(chars: &Vec<char>, from: usize, to: usize) -> (units: u128)
    requires
        from <= to <= chars@.len(),
    ensures
        units == utf16_len(chars@.subrange(from as int, to as int)),
        units <= 2 * (to - from),
{
    let mut units: u128 = 0;
    let mut i: usize = from;
    while i < to
        invariant
            from <= i <= to <= chars@.len(),
            units == utf16_len(chars@.subrange(from as int, i as int)),
            units <= 2 * (i - from),
        decreases to - i,
    {
        proof {
            assert(chars@.subrange(from as int, i + 1).drop_last() =~= chars@.subrange(
                from as int,
                i as int,
            ));
        }
        if chars[i] as u32 <= 0xffff {
            units = units + 1;
        } else {
            units = units + 2;
        }
        i = i + 1;
    }
    units
}

/// An offset as a machine word, where it fits.
pub open spec fn as_machine_offset(offset: Option<nat>) -> Option<usize> {
    match offset {
        Some(n) if n <= usize::MAX => Some(n as usize),
        _ => None,
    }
}

/// The right-side end offset that makes an inline thread cover the whole of
/// line `line`: the UTF-16 length of the line's text plus one. There is none
/// where the file could not be read (`contents` is `None`) or has no such line.
pub fn line_end_offset(contents: Option<&str>, line: i32) -> (offset: Option<usize>)
    ensures
        match contents {
            Some(text) => offset == as_machine_offset(end_offset_of_line(text@, line as int)),
            None => offset is None,
        },
{
    if line < 1 {
        return None;
    }
    let text = match contents {
        Some(text) => text,
        None => return None,
    };
    let chars = chars_of(text);
    let mut start: usize = 0;
    let mut number: i32 = 1;
    proof {
        assert(chars@.skip(0) =~= chars@);
    }
    while number < line
        invariant
            1 <= number <= line,
            start <= chars@.len(),
            nth_line(chars@, (line - 1) as nat) == nth_line(
                chars@.skip(start as int),
                (line - number) as nat,
            ),
            chars@ == text@,
            contents == Some(text),
        decreases line - number,
    {
        let end = find_line_feed(&chars, start);
        if end >= chars.len() {
            return None;
        }
        proof {
            let rest = chars@.skip(start as int);
            assert(rest.skip(end - start + 1) =~= chars@.skip(end + 1));
        }
        start = end + 1;
        number = number + 1;
    }
    if start >= chars.len() {
        return None;
    }
    let feed = find_line_feed(&chars, start);
    let ghost rest = chars@.skip(start as int);
    let mut end: usize = feed;
    if feed < chars.len() && end > start && chars[end - 1] == '\r' {
        end = end - 1;
    }
    proof {
        assert(rest.take(feed - start) =~= chars@.subrange(start as int, feed as int));
        assert(nth_line(rest, 0) == Some(chars@.subrange(start as int, end as int))) by {
            if feed < chars@.len() {
                assert(without_trailing_cr(rest.take(feed - start)) =~= chars@.subrange(
                    start as int,
                    end as int,
                ));
            } else {
                assert(rest =~= chars@.subrange(start as int, end as int));
            }
        }
    }
    let ghost content = chars@.subrange(start as int, end as int);
    if end > start && chars[end - 1] == '\r' {
        end = end - 1;
    }
    proof {
        assert(without_trailing_cr(content) =~= chars@.subrange(start as int, end as int));
    }
    let units = count_utf16(&chars, start, end);
    if units < usize::MAX as u128 {
        Some(units as usize + 1)
    } else {
        None
    }
}

/// The JSON object of a position in a file.
pub open spec fn position_view(line: int, offset: int) -> JsonView {
    JsonView::Object(
        map!["line"@ => JsonView::Integer(line), "offset"@ => JsonView::Integer(offset)],
    )
}

/// The JSON object of a right-side range: from the start of `start_line` to
/// `end_offset` on `end_line` of the file, whose path is given from the root.
pub open spec fn thread_context_view(
    file_path: Seq<char>,
    start_line: int,
    end_line: int,
    end_offset: int,
) -> JsonView {
    JsonView::Object(
        map![
            "filePath"@ => JsonView::Text(seq!['/'] + file_path),
            "rightFileStart"@ => position_view(start_line, 1),
            "rightFileEnd"@ => position_view(end_line, end_offset),
        ],
    )
}

fn position(line: i32, offset: usize) -> (value: serde_json::Value)
    ensures
        json_view(value) == position_view(line as int, offset as int),
{
    let mut value = json_object();
    json_set(&mut value, "line", json_integer(line as i64));
    json_set(&mut value, "offset", json_size(offset));
    proof {
        assert(json_view(value)->Object_0 =~= position_view(
            line as int,
            offset as int,
        )->Object_0);
    }
    value
}

/// The `threadContext` of an inline comment. The right-side range spans from the
/// start of `start_line` to `end_offset` on `end_line`; for a single line the
/// two lines are the same.
pub fn inline_thread_context(
    file_path: &str,
    start_line: i32,
    end_line: i32,
    end_offset: usize,
) -> (context: serde_json::Value)
    ensures
        json_view(context) == thread_context_view(
            file_path@,
            start_line as int,
            end_line as int,
            end_offset as int,
        ),
{
    let mut rooted = String::new();
    rooted.push('/');
    rooted.append(file_path);
    let mut context = json_object();
    json_set(&mut context, "filePath", json_text(rooted.as_str()));
    json_set(&mut context, "rightFileStart", position(start_line, 1));
    json_set(&mut context, "rightFileEnd", position(end_line, end_offset));
    proof {
        assert(rooted@ =~= seq!['/'] + file_path@);
        assert(json_view(context)->Object_0 =~= thread_context_view(
            file_path@,
            start_line as int,
            end_line as int,
            end_offset as int,
        )->Object_0);
    }
    context
}

/// The index of the first character of the line with index `n` (counted from
/// zero), or the length where the text has fewer lines.
pub open spec fn line_start(text: Seq<char>, n: nat) -> int
    decreases n,
{
    let end = line_feed_index(text);
    if n == 0 {
        0
    } else if end < text.len() {
        end + 1 + line_start(text.skip(end + 1), (n - 1) as nat)
    } else {
        text.len() as int
    }
}

/// How many characters the first `units` UTF-16 code units of the text cover.
pub open spec fn utf16_index(text: Seq<char>, units: int) -> int
    decreases text.len(),
{
    if units <= 0 || text.len() == 0 {
        0
    } else {
        1 + utf16_index(text.drop_first(), units - utf16_width(text[0]))
    }
}

/// The index of the character at `offset` of line `line`, both counted from one,
/// the offset in UTF-16 code units.
pub open spec fn position_index(text: Seq<char>, line: int, offset: int) -> int {
    let start = line_start(text, (line - 1) as nat);
    start + utf16_index(text.skip(start), offset - 1)
}

/// The text after a suggestion is applied: the half-open range between the two
/// positions gives way to the suggestion.
pub open spec fn apply_suggestion(
    text: Seq<char>,
    start_line: int,
    end_line: int,
    end_offset: int,
    suggestion: Seq<char>,
) -> Seq<char> {
    text.take(position_index(text, start_line, 1)) + suggestion + text.skip(
        position_index(text, end_line, end_offset),
    )
}

/// What may stand between the anchored text of a line and the next line.
pub open spec fn is_line_ending(ending: Seq<char>) -> bool {
    ||| ending == Seq::<char>::empty()
    ||| ending == seq!['\n']
    ||| ending == seq!['\r']
    ||| ending == seq!['\r', '\n']
    ||| ending == seq!['\r', '\r', '\n']
}

/// The text up to and with its first line feed, or all of it.
pub open spec fn through_line_feed(text: Seq<char>) -> Seq<char> {
    let end = line_feed_index(text);
    if end < text.len() {
        text.take(end + 1)
    } else {
        text
    }
}

proof fn lemma_utf16_len_first(text: Seq<char>)
    requires
        text.len() > 0,
    ensures
        utf16_len(text) == utf16_width(text[0]) + utf16_len(text.drop_first()),
    decreases text.len(),
{
    if text.len() > 1 {
        lemma_utf16_len_first(text.drop_last());
        assert(text.drop_last().drop_first() =~= text.drop_first().drop_last());
    } else {
        assert(text.drop_last() =~= text.drop_first());
    }
}

proof fn lemma_utf16_index_of_prefix(text: Seq<char>, prefix: Seq<char>)
    requires
        prefix.len() <= text.len(),
        text.take(prefix.len() as int) == prefix,
    ensures
        utf16_index(text, utf16_len(prefix) as int) == prefix.len(),
    decreases prefix.len(),
{
    if prefix.len() > 0 {
        lemma_utf16_len_first(prefix);
        assert(prefix[0] == text[0]);
        assert(text.drop_first().take(prefix.len() - 1) =~= prefix.drop_first());
        lemma_utf16_index_of_prefix(text.drop_first(), prefix.drop_first());
    }
}

proof fn lemma_line_start(text: Seq<char>, n: nat)
    ensures
        0 <= line_start(text, n) <= text.len(),
        nth_line(text, n) is Some ==> {
            let start = line_start(text, n);
            &&& start < text.len()
            &&& start == 0 || text[start - 1] == '\n'
            &&& nth_line(text, n) == nth_line(text.skip(start), 0)
        },
    decreases n,
{
    lemma_line_feed_index(text);
    let end = line_feed_index(text);
    if n == 0 {
        assert(text.skip(0) =~= text);
    } else if end < text.len() {
        let rest = text.skip(end + 1);
        lemma_line_start(rest, (n - 1) as nat);
        let inner = line_start(rest, (n - 1) as nat);
        assert(rest.skip(inner) =~= text.skip(end + 1 + inner));
        if nth_line(text, n) is Some && inner > 0 {
            assert(rest[inner - 1] == text[end + inner]);
        }
    }
}

proof fn lemma_line_starts_in_order(text: Seq<char>, m: nat, n: nat)
    requires
        m <= n,
    ensures
        line_start(text, m) <= line_start(text, n),
    decreases m,
{
    lemma_line_start(text, m);
    lemma_line_start(text, n);
    lemma_line_feed_index(text);
    let end = line_feed_index(text);
    if m > 0 && end < text.len() {
        lemma_line_starts_in_order(text.skip(end + 1), (m - 1) as nat, (n - 1) as nat);
    }
}

/// The first line of a text, without what ends it, is followed by a line ending.
proof fn lemma_first_line_ending(text: Seq<char>)
    requires
        text.len() > 0,
    ensures
        ({
            let content = anchored_text(text, 1)->Some_0;
            &&& anchored_text(text, 1) is Some
            &&& content.len() <= text.len()
            &&& text.take(content.len() as int) == content
            &&& is_line_ending(through_line_feed(text.skip(content.len() as int)))
        }),
{
    lemma_line_feed_index(text);
    let end = line_feed_index(text);
    let line = nth_line(text, 0)->Some_0;
    let content = anchored_text(text, 1)->Some_0;
    let rest = text.skip(content.len() as int);
    assert(text.take(content.len() as int) =~= content);
    assert forall|j: int| 0 <= j < end - content.len() implies #[trigger] rest[j] != '\n' by {
        assert(rest[j] == text[content.len() + j]);
    }
    lemma_line_feed_index_is(rest, end - content.len());
    let ending = through_line_feed(rest);
    if end < text.len() {
        if line.len() == end {
            if content.len() == line.len() {
                assert(ending =~= seq!['\n']);
            } else {
                assert(ending =~= seq!['\r', '\n']);
            }
        } else if content.len() == line.len() {
            assert(ending =~= seq!['\r', '\n']);
        } else {
            assert(ending =~= seq!['\r', '\r', '\n']);
        }
    } else if content.len() == line.len() {
        assert(ending =~= Seq::<char>::empty());
    } else {
        assert(ending =~= seq!['\r']);
    }
}

/// Applying a suggestion on a thread whose end offset was measured on the last
/// line replaces whole lines: what goes is the text from the start of the first
/// line to the last character of the last line, and the ending of the last line
/// stays, so that no line is left over and the next line is not joined on.
pub proof fn law_suggestion_replaces_whole_lines(
    text: Seq<char>,
    start_line: int,
    end_line: int,
    suggestion: Seq<char>,
)
    requires
        1 <= start_line <= end_line,
        end_offset_of_line(text, end_line) is Some,
    ensures
        ({
            let from = line_start(text, (start_line - 1) as nat);
            let last = line_start(text, (end_line - 1) as nat);
            let content = anchored_text(text, end_line)->Some_0;
            let to = last + content.len();
            &&& apply_suggestion(
                text,
                start_line,
                end_line,
                end_offset_of_line(text, end_line)->Some_0 as int,
                suggestion,
            ) == text.take(from) + suggestion + text.skip(to)
            &&& 0 <= from <= last <= to <= text.len()
            &&& from == 0 || text[from - 1] == '\n'
            &&& last == 0 || text[last - 1] == '\n'
            &&& text.subrange(last, to) == content
            &&& is_line_ending(through_line_feed(text.skip(to)))
        }),
{
    let first = (start_line - 1) as nat;
    let n = (end_line - 1) as nat;
    let from = line_start(text, first);
    let last = line_start(text, n);
    let content = anchored_text(text, end_line)->Some_0;
    let rest = text.skip(last);
    lemma_line_start(text, first);
    lemma_line_start(text, n);
    lemma_line_starts_in_order(text, first, n);
    lemma_first_line_ending(rest);
    lemma_utf16_index_of_prefix(rest, content);
    lemma_start_is_after_line_feed(text, first, n);
    assert(rest.skip(content.len() as int) =~= text.skip(last + content.len()));
    assert(text.subrange(last, last + content.len()) =~= rest.take(content.len() as int));
}

/// An earlier line of a line that exists starts after a line feed.
proof fn lemma_start_is_after_line_feed(text: Seq<char>, m: nat, n: nat)
    requires
        m <= n,
        nth_line(text, n) is Some,
    ensures
        line_start(text, m) == 0 || text[line_start(text, m) - 1] == '\n',
    decreases m,
{
    lemma_line_feed_index(text);
    let end = line_feed_index(text);
    if m > 0 && end < text.len() {
        let rest = text.skip(end + 1);
        lemma_line_start(rest, (m - 1) as nat);
        lemma_start_is_after_line_feed(rest, (m - 1) as nat, (n - 1) as nat);
    }
}

/// What stands before the start of a line that exists reads the same whatever follows it,
/// and is followed by that line.
proof fn lemma_lines_before(text: Seq<char>, m: nat, n: nat, tail: Seq<char>)
    requires
        m <= n,
        nth_line(text, n) is Some,
    ensures
        ({
            let start = line_start(text, m);
            let whole = text.take(start) + tail;
            &&& forall|k: nat| k < m ==> #[trigger] nth_line(whole, k) == nth_line(text, k)
            &&& forall|j: nat| #[trigger] nth_line(whole, m + j) == nth_line(tail, j)
        }),
    decreases m,
{
    lemma_line_start(text, m);
    lemma_line_feed_index(text);
    let start = line_start(text, m);
    let whole = text.take(start) + tail;
    if m == 0 {
        assert(whole =~= tail);
    } else {
        let end = line_feed_index(text);
        let rest = text.skip(end + 1);
        let inner = line_start(rest, (m - 1) as nat);
        let inner_whole = rest.take(inner) + tail;
        lemma_line_start(rest, (m - 1) as nat);
        lemma_lines_before(rest, (m - 1) as nat, (n - 1) as nat, tail);
        assert forall|j: int| 0 <= j < end implies #[trigger] whole[j] != '\n' by {
            assert(whole[j] == text[j]);
        }
        assert(whole[end] == text[end]);
        lemma_line_feed_index_is(whole, end);
        assert(whole.skip(end + 1) =~= inner_whole);
        assert(whole.take(end) =~= text.take(end));
        assert forall|k: nat| k < m implies #[trigger] nth_line(whole, k) == nth_line(
            text,
            k,
        ) by {
            if k > 0 {
                let below = (k - 1) as nat;
                assert(nth_line(inner_whole, below) == nth_line(rest, below));
            }
        }
        assert forall|j: nat| #[trigger] nth_line(whole, m + j) == nth_line(tail, j) by {
            let below = (m - 1) as nat;
            assert(nth_line(inner_whole, below + j) == nth_line(tail, j));
            assert((m + j - 1) as nat == below + j);
        }
    }
}

/// The lines after line `n` are those of the text behind its line feed.
proof fn lemma_lines_after(text: Seq<char>, n: nat, j: nat)
    requires
        nth_line(text, n) is Some,
    ensures
        nth_line(text, n + 1 + j) == nth_line(text.skip(line_start(text, n)), 1 + j),
    decreases n,
{
    lemma_line_feed_index(text);
    let end = line_feed_index(text);
    if n == 0 {
        assert(text.skip(0) =~= text);
    } else {
        let rest = text.skip(end + 1);
        let inner = line_start(rest, (n - 1) as nat);
        lemma_line_start(rest, (n - 1) as nat);
        lemma_lines_after(rest, (n - 1) as nat, j);
        assert(rest.skip(inner) =~= text.skip(end + 1 + inner));
        assert((n + 1 + j - 1) as nat == (n - 1) as nat + 1 + j);
    }
}

/// How many line feeds the text holds.
pub open spec fn line_feed_count(text: Seq<char>) -> nat
    decreases text.len(),
{
    let end = line_feed_index(text);
    if 0 <= end < text.len() {
        1 + line_feed_count(text.skip(end + 1))
    } else {
        0
    }
}

/// The text behind its last line feed, or all of it.
pub open spec fn after_last_line_feed(text: Seq<char>) -> Seq<char>
    decreases text.len(),
{
    let end = line_feed_index(text);
    if 0 <= end < text.len() {
        after_last_line_feed(text.skip(end + 1))
    } else {
        text
    }
}

proof fn lemma_after_last_line_feed(text: Seq<char>)
    ensures
        ({
            let last = after_last_line_feed(text);
            &&& forall|i: int| 0 <= i < last.len() ==> #[trigger] last[i] != '\n'
            &&& text.len() > 0 && text.last() != '\n' ==> last.len() > 0 && last.last()
                == text.last()
        }),
    decreases text.len(),
{
    lemma_line_feed_index(text);
    let end = line_feed_index(text);
    if end < text.len() {
        let rest = text.skip(end + 1);
        lemma_after_last_line_feed(rest);
        assert(after_last_line_feed(text) == after_last_line_feed(rest));
        assert(text[end] == '\n');
        if text.last() != '\n' {
            assert(text.last() == text[text.len() - 1]);
            assert(end + 1 < text.len());
            assert(rest.last() == text.last());
        }
    } else {
        assert(after_last_line_feed(text) == text);
    }
}

/// Behind text without line feeds, the first line feed is that of what follows.
proof fn lemma_line_feed_behind(line: Seq<char>, rest: Seq<char>)
    requires
        forall|i: int| 0 <= i < line.len() ==> #[trigger] line[i] != '\n',
    ensures
        line_feed_index(line + rest) == line.len() + line_feed_index(rest),
{
    lemma_line_feed_index(rest);
    let whole = line + rest;
    let gap = line_feed_index(rest);
    assert forall|j: int| 0 <= j < line.len() + gap implies #[trigger] whole[j] != '\n' by {
        if j < line.len() {
            assert(whole[j] == line[j]);
        } else {
            assert(whole[j] == rest[j - line.len()]);
        }
    }
    if gap < rest.len() {
        assert(whole[line.len() + gap] == rest[gap]);
    }
    lemma_line_feed_index_is(whole, line.len() + gap);
}

/// The lines of text that is followed by more: those that a line feed ends are its own,
/// and the others are those of what stands behind its last line feed.
proof fn lemma_lines_of_joined(text: Seq<char>, rest: Seq<char>)
    ensures
        ({
            let whole = text + rest;
            let feeds = line_feed_count(text);
            let last = after_last_line_feed(text);
            &&& forall|i: nat| i < feeds ==> #[trigger] nth_line(whole, i) == nth_line(text, i)
            &&& forall|j: nat| #[trigger] nth_line(whole, feeds + j) == nth_line(last + rest, j)
        }),
    decreases text.len(),
{
    lemma_line_feed_index(text);
    let end = line_feed_index(text);
    if end < text.len() {
        let whole = text + rest;
        let feeds = line_feed_count(text);
        let last = after_last_line_feed(text);
        let inner = text.skip(end + 1);
        lemma_lines_of_joined(inner, rest);
        assert forall|j: int| 0 <= j < end implies #[trigger] whole[j] != '\n' by {
            assert(whole[j] == text[j]);
        }
        assert(whole[end] == text[end]);
        lemma_line_feed_index_is(whole, end);
        assert(whole.take(end) =~= text.take(end));
        assert(whole.skip(end + 1) =~= inner + rest);
        assert forall|i: nat| i < feeds implies #[trigger] nth_line(whole, i) == nth_line(
            text,
            i,
        ) by {
            if i > 0 {
                let below = (i - 1) as nat;
                assert(nth_line(inner + rest, below) == nth_line(inner, below));
            }
        }
        assert forall|j: nat| #[trigger] nth_line(whole, feeds + j) == nth_line(
            last + rest,
            j,
        ) by {
            let below = line_feed_count(inner);
            assert(nth_line(inner + rest, below + j) == nth_line(last + rest, j));
            assert((feeds + j - 1) as nat == below + j);
        }
    }
}

/// A line without a line feed is followed by the lines behind the next line feed.
proof fn lemma_lines_behind(line: Seq<char>, rest: Seq<char>, j: nat)
    requires
        forall|i: int| 0 <= i < line.len() ==> #[trigger] line[i] != '\n',
    ensures
        nth_line(line + rest, 1 + j) == if line_feed_index(rest) < rest.len() {
            nth_line(rest.skip(line_feed_index(rest) + 1), j)
        } else {
            None
        },
{
    lemma_line_feed_index(rest);
    lemma_line_feed_behind(line, rest);
    let gap = line_feed_index(rest);
    if gap < rest.len() {
        assert((line + rest).skip(line.len() + gap + 1) =~= rest.skip(gap + 1));
    }
}

/// The first line reads the same whether the text goes on behind its line feed or not.
proof fn lemma_first_line_needs_no_more(line: Seq<char>, rest: Seq<char>)
    requires
        forall|i: int| 0 <= i < line.len() ==> #[trigger] line[i] != '\n',
    ensures
        nth_line(line + rest, 0) == nth_line(line + through_line_feed(rest), 0),
{
    lemma_line_feed_index(rest);
    let gap = line_feed_index(rest);
    let ending = through_line_feed(rest);
    if gap < rest.len() {
        assert forall|j: int| 0 <= j < gap implies #[trigger] ending[j] != '\n' by {
            assert(ending[j] == rest[j]);
        }
        lemma_line_feed_index_is(ending, gap);
        lemma_line_feed_behind(line, rest);
        lemma_line_feed_behind(line, ending);
        let end = line.len() + gap;
        assert((line + rest).take(end) =~= (line + ending).take(end));
    }
}

/// A suggestion that is applied on a thread whose end offset was measured takes the place
/// of the lines that it was made for. The lines before them read as before. In their place
/// stand the suggestion's own lines, one for each line feed and one more, and the last of
/// these has the ending of the last line that went. The lines after them read as before,
/// and none is doubled or joined to another.
pub proof fn law_suggestion_lines_stand_in_place(
    text: Seq<char>,
    start_line: int,
    end_line: int,
    suggestion: Seq<char>,
)
    requires
        1 <= start_line <= end_line,
        end_offset_of_line(text, end_line) is Some,
    ensures
        ({
            let edited = apply_suggestion(
                text,
                start_line,
                end_line,
                end_offset_of_line(text, end_line)->Some_0 as int,
                suggestion,
            );
            let to = line_start(text, (end_line - 1) as nat) + anchored_text(
                text,
                end_line,
            )->Some_0.len();
            let ending = through_line_feed(text.skip(to));
            let count = line_feed_count(suggestion) + 1;
            let last_line = start_line + count - 1;
            &&& forall|line: int|
                1 <= line < start_line ==> #[trigger] anchored_text(edited, line)
                    == anchored_text(text, line)
            &&& forall|i: int|
                1 <= i < count ==> anchored_text(edited, start_line + i - 1)
                    == #[trigger] anchored_text(suggestion, i)
            &&& anchored_text(edited, last_line) == anchored_text(
                after_last_line_feed(suggestion) + ending,
                1,
            )
            &&& suggestion.len() > 0 && suggestion.last() != '\n' && suggestion.last() != '\r'
                ==> anchored_text(edited, last_line) == anchored_text(suggestion, count as int)
                && anchored_text(suggestion, count as int) == Some(
                after_last_line_feed(suggestion),
            )
            &&& forall|line: int|
                last_line < line ==> #[trigger] anchored_text(edited, line) == anchored_text(
                    text,
                    line - start_line - count + 1 + end_line,
                )
        }),
{
    law_suggestion_replaces_whole_lines(text, start_line, end_line, suggestion);
    let m = (start_line - 1) as nat;
    let n = (end_line - 1) as nat;
    let from = line_start(text, m);
    let content = anchored_text(text, end_line)->Some_0;
    let old_tail = text.skip(line_start(text, n));
    let rest = text.skip(line_start(text, n) + content.len());
    let tail = suggestion + rest;
    let edited = text.take(from) + tail;
    let feeds = line_feed_count(suggestion);
    let last = after_last_line_feed(suggestion);
    assert(edited =~= text.take(from) + suggestion + rest);
    lemma_lines_before(text, m, n, tail);
    lemma_lines_of_joined(suggestion, rest);
    lemma_after_last_line_feed(suggestion);

    // The lines before it.
    assert forall|line: int| 1 <= line < start_line implies #[trigger] anchored_text(edited, line)
        == anchored_text(text, line) by {
        let k = (line - 1) as nat;
        assert(nth_line(edited, k) == nth_line(text, k));
    }

    // Its own lines.
    assert forall|i: int| 1 <= i < feeds + 1 implies anchored_text(edited, start_line + i - 1)
        == #[trigger] anchored_text(suggestion, i) by {
        let k = (i - 1) as nat;
        assert(nth_line(tail, k) == nth_line(suggestion, k));
        assert(nth_line(edited, m + k) == nth_line(tail, k));
        assert((start_line + i - 2) as nat == m + k);
    }
    assert(nth_line(tail, feeds + 0) == nth_line(last + rest, 0));
    assert(nth_line(edited, m + feeds) == nth_line(tail, feeds));
    assert((start_line + feeds - 1) as nat == m + feeds);
    lemma_first_line_needs_no_more(last, rest);
    if suggestion.len() > 0 && suggestion.last() != '\n' && suggestion.last() != '\r' {
        let nothing = Seq::<char>::empty();
        lemma_line_before_ending(last, rest);
        lemma_lines_of_joined(suggestion, nothing);
        assert(suggestion + nothing =~= suggestion);
        assert(last + nothing =~= last);
        assert(nth_line(suggestion, feeds + 0) == nth_line(last, 0));
        lemma_line_feed_index_is(last, last.len() as int);
        assert(without_trailing_cr(last) == last);
    }

    // The lines after it.
    lemma_line_start(text, n);
    lemma_line_feed_index(old_tail);
    assert(old_tail =~= content + rest);
    assert forall|i: int| 0 <= i < content.len() implies #[trigger] content[i] != '\n' by {
        assert(content[i] == old_tail[i]);
    }
    assert forall|line: int| start_line + feeds < line implies #[trigger] anchored_text(
        edited,
        line,
    ) == anchored_text(text, line - start_line - feeds + end_line) by {
        let j = (line - start_line - feeds - 1) as nat;
        lemma_lines_after(text, n, j);
        lemma_lines_behind(last, rest, j);
        lemma_lines_behind(content, rest, j);
        assert(nth_line(tail, feeds + (1 + j)) == nth_line(last + rest, 1 + j));
        assert(nth_line(edited, m + (feeds + (1 + j))) == nth_line(tail, feeds + (1 + j)));
        assert((line - 1) as nat == m + (feeds + (1 + j)));
        assert((line - start_line - feeds + end_line - 1) as nat == n + 1 + j);
    }
}

/// A line that does not end in a carriage return is read whole before a line ending.
proof fn lemma_line_before_ending(line_text: Seq<char>, rest: Seq<char>)
    requires
        line_text.len() > 0,
        line_text.last() != '\r',
        forall|i: int| 0 <= i < line_text.len() ==> #[trigger] line_text[i] != '\n',
        is_line_ending(through_line_feed(rest)),
    ensures
        anchored_text(line_text + rest, 1) == Some(line_text),
{
    let tail = line_text + rest;
    lemma_line_feed_index(rest);
    let gap = line_feed_index(rest);
    let ending = through_line_feed(rest);
    lemma_line_feed_behind(line_text, rest);
    assert(forall|j: int| 0 <= j < ending.len() ==> #[trigger] ending[j] == rest[j]);
    assert(forall|j: int|
        0 <= j < ending.len() ==> #[trigger] ending[j] == tail[line_text.len() + j]);
    assert(tail[line_text.len() - 1] == line_text.last());
    let line = nth_line(tail, 0)->Some_0;
    if gap < rest.len() {
        assert(ending[gap] == '\n');
        assert(ending.len() == gap + 1);
        let raw = tail.take(line_text.len() + gap);
        if gap == 0 {
            assert(raw =~= line_text);
        } else if gap == 1 {
            assert(ending[0] == '\r');
            assert(raw =~= line_text.push('\r'));
            assert(line =~= line_text);
        } else {
            assert(gap == 2 && ending[0] == '\r' && ending[1] == '\r');
            assert(raw =~= line_text.push('\r').push('\r'));
            assert(line =~= line_text.push('\r'));
        }
        assert(without_trailing_cr(line) =~= line_text);
    } else {
        assert(ending == rest);
        assert(rest.len() == gap);
        if rest.len() == 0 {
            assert(tail =~= line_text);
        } else {
            assert(forall|j: int| 0 <= j < rest.len() ==> #[trigger] rest[j] != '\n');
            if rest.len() > 1 {
                assert(rest[rest.len() - 1] == '\n');
            }
            assert(tail =~= line_text.push('\r'));
        }
        assert(without_trailing_cr(line) =~= line_text);
    }
}

/// With the end offset that stands in where a line could not be measured, a
/// suggestion on a single line is inserted before the line, which stays.
pub proof fn law_unmeasured_suggestion_is_inserted(
    text: Seq<char>,
    line: int,
    suggestion: Seq<char>,
)
    requires
        1 <= line,
    ensures
        ({
            let start = line_start(text, (line - 1) as nat);
            apply_suggestion(text, line, line, 1, suggestion) == text.take(start) + suggestion
                + text.skip(start)
        }),
{
}

/// Whoever reads a thread context finds the path, both lines and both offsets under
/// their own names.
pub proof fn law_thread_context_reads_back(
    file_path: Seq<char>,
    start_line: int,
    end_line: int,
    end_offset: int,
)
    ensures
        ({
            let context = thread_context_view(file_path, start_line, end_line, end_offset);
            let start = context->Object_0["rightFileStart"@]->Object_0;
            let end = context->Object_0["rightFileEnd"@]->Object_0;
            &&& context->Object_0["filePath"@] == JsonView::Text(seq!['/'] + file_path)
            &&& start["line"@] == JsonView::Integer(start_line)
            &&& start["offset"@] == JsonView::Integer(1)
            &&& end["line"@] == JsonView::Integer(end_line)
            &&& end["offset"@] == JsonView::Integer(end_offset)
        }),
{
    reveal_strlit("filePath");
    reveal_strlit("rightFileStart");
    reveal_strlit("rightFileEnd");
    reveal_strlit("line");
    reveal_strlit("offset");
    assert("filePath"@.len() == 8 && "rightFileStart"@.len() == 14 && "rightFileEnd"@.len() == 12);
    assert("line"@.len() == 4 && "offset"@.len() == 6);
}

/// How many line feeds there are among the characters of a text.
pub open spec fn feeds_in(text: Seq<char>) -> nat {
    text.filter(|c: char| c == '\n').len()
}

/// The text is empty or goes up to a line feed, so that a line starts behind it.
pub open spec fn ends_with_line(text: Seq<char>) -> bool {
    text.len() == 0 || text.last() == '\n'
}

proof fn lemma_feeds_join(a: Seq<char>, b: Seq<char>)
    ensures
        feeds_in(a + b) == feeds_in(a) + feeds_in(b),
{
    Seq::filter_distributes_over_add(a, b, |c: char| c == '\n');
}

proof fn lemma_no_feeds(text: Seq<char>)
    requires
        forall|i: int| 0 <= i < text.len() ==> #[trigger] text[i] != '\n',
    ensures
        feeds_in(text) == 0,
    decreases text.len(),
{
    reveal(Seq::filter);
    if text.len() > 0 {
        lemma_no_feeds(text.drop_last());
    }
}

/// The first line feed is one of those that are counted.
proof fn lemma_feeds_behind_first(text: Seq<char>)
    ensures
        ({
            let end = line_feed_index(text);
            &&& end < text.len() ==> feeds_in(text) == 1 + feeds_in(text.skip(end + 1))
            &&& end == text.len() ==> feeds_in(text) == 0
        }),
{
    lemma_line_feed_index(text);
    let end = line_feed_index(text);
    lemma_no_feeds(text.take(end));
    if end < text.len() {
        let feed: Seq<char> = seq!['\n'];
        let rest = text.skip(end + 1);
        assert(text =~= text.take(end) + (feed + rest));
        lemma_feeds_join(text.take(end), feed + rest);
        lemma_feeds_join(feed, rest);
        assert(feeds_in(feed) == 1) by {
            reveal(Seq::filter);
            assert(feed.drop_last() =~= Seq::<char>::empty());
            assert(feeds_in(Seq::<char>::empty()) == 0);
        }
    } else {
        assert(text.take(end) =~= text);
    }
}

/// The text has a line with index `n` exactly where it has more line feeds than that, or
/// as many and characters behind the last.
proof fn lemma_lines_are_counted(text: Seq<char>, n: nat)
    ensures
        nth_line(text, n) is Some <==> n < feeds_in(text) || (n == feeds_in(text) && text.len() > 0
            && text.last() != '\n'),
    decreases n,
{
    lemma_line_feed_index(text);
    lemma_feeds_behind_first(text);
    let end = line_feed_index(text);
    if end < text.len() {
        let rest = text.skip(end + 1);
        if rest.len() > 0 {
            assert(rest.last() == text.last());
        } else {
            assert(text.last() == text[end]);
            lemma_no_feeds(rest);
        }
        if n > 0 {
            lemma_lines_are_counted(rest, (n - 1) as nat);
        }
    } else if text.len() > 0 {
        assert(text[text.len() - 1] != '\n');
    }
}

/// A text with so many line feeds has an end offset on each of the lines that they end,
/// on one more where characters follow the last line feed, and on no other.
pub proof fn law_every_line_can_be_measured(text: Seq<char>, line: int)
    ensures
        end_offset_of_line(text, line) is Some <==> 1 <= line <= feeds_in(text) || (line
            == feeds_in(text) + 1 && text.len() > 0 && text.last() != '\n'),
{
    if line >= 1 {
        lemma_lines_are_counted(text, (line - 1) as nat);
    }
}

proof fn lemma_utf16_bound(text: Seq<char>)
    ensures
        utf16_len(text) <= 2 * text.len(),
    decreases text.len(),
{
    if text.len() > 0 {
        lemma_utf16_bound(text.drop_last());
    }
}

/// A file that was read is measured on each line that it has, and on no other. (A string
/// takes at most half of the addresses there are, so that the bound on its length leaves
/// none out.)
pub proof fn law_lines_of_a_file_are_measured(text: &str, line: i32, offset: Option<usize>)
    requires
        call_ensures(line_end_offset, (Some(text), line), offset),
        2 * text@.len() < usize::MAX,
    ensures
        offset is Some <==> 1 <= line <= feeds_in(text@) || (line == feeds_in(text@) + 1
            && text@.len() > 0 && text@.last() != '\n'),
{
    law_every_line_can_be_measured(text@, line as int);
    if end_offset_of_line(text@, line as int) is Some {
        lemma_anchored_text_bound(text@, line as int);
        lemma_utf16_bound(anchored_text(text@, line as int)->Some_0);
    }
}

proof fn lemma_anchored_text_bound(text: Seq<char>, line: int)
    requires
        anchored_text(text, line) is Some,
    ensures
        anchored_text(text, line)->Some_0.len() <= text.len(),
{
    let n = (line - 1) as nat;
    lemma_line_start(text, n);
    lemma_first_line_ending(text.skip(line_start(text, n)));
}

/// Nothing is measured in a file that could not be read.
pub proof fn law_unread_files_are_not_measured(line: i32, offset: Option<usize>)
    requires
        call_ensures(line_end_offset, (None::<&str>, line), offset),
    ensures
        offset is None,
{
}

/// The content is the text of a line that `ending` closes: it goes up to a line feed with
/// at most two carriage returns before it, or up to the end of the file with at most one.
pub open spec fn closes_line(content: Seq<char>, ending: Seq<char>, after: Seq<char>) -> bool {
    &&& forall|i: int| 0 <= i < content.len() ==> #[trigger] content[i] != '\n'
    &&& {
        ||| ending == seq!['\n'] && !(content.len() > 0 && content.last() == '\r')
        ||| ending == seq!['\r', '\n'] && !(content.len() > 0 && content.last() == '\r')
        ||| ending == seq!['\r', '\r', '\n']
        ||| ending == Seq::<char>::empty() && after.len() == 0 && content.len() > 0
            && content.last() != '\r'
        ||| ending == seq!['\r'] && after.len() == 0
    }
}

/// The first line of a text is what its ending closes.
proof fn lemma_closed_line(content: Seq<char>, ending: Seq<char>, after: Seq<char>)
    requires
        closes_line(content, ending, after),
    ensures
        anchored_text(content + ending + after, 1) == Some(content),
{
    let tail = content + ending + after;
    if ending.len() > 0 && ending.last() == '\n' {
        let end = content.len() + ending.len() - 1;
        assert forall|j: int| 0 <= j < end implies #[trigger] tail[j] != '\n' by {
            if j < content.len() {
                assert(tail[j] == content[j]);
            } else {
                assert(tail[j] == ending[j - content.len()]);
            }
        }
        assert(tail[end] == ending[ending.len() - 1]);
        lemma_line_feed_index_is(tail, end);
        let raw = tail.take(end);
        if ending.len() == 1 {
            assert(raw =~= content);
        } else if ending.len() == 2 {
            assert(raw =~= content.push('\r'));
            assert(without_trailing_cr(raw) =~= content);
        } else {
            assert(raw =~= content.push('\r').push('\r'));
            assert(without_trailing_cr(raw) =~= content.push('\r'));
            assert(without_trailing_cr(content.push('\r')) =~= content);
        }
    } else {
        assert(tail =~= content + ending);
        assert forall|j: int| 0 <= j < tail.len() implies #[trigger] tail[j] != '\n' by {
            if j < content.len() {
                assert(tail[j] == content[j]);
            } else {
                assert(tail[j] == ending[j - content.len()]);
            }
        }
        lemma_line_feed_index_is(tail, tail.len() as int);
        if ending.len() == 0 {
            assert(tail =~= content);
        } else {
            assert(tail =~= content.push('\r'));
            assert(without_trailing_cr(tail) =~= content);
        }
    }
}

/// Behind whole lines the lines go on as if they stood alone.
proof fn lemma_lines_behind_whole_lines(before: Seq<char>, rest: Seq<char>)
    requires
        ends_with_line(before),
    ensures
        nth_line(before + rest, feeds_in(before)) == nth_line(rest, 0),
        line_start(before + rest, feeds_in(before)) == before.len(),
    decreases before.len(),
{
    lemma_line_feed_index(before);
    lemma_feeds_behind_first(before);
    if before.len() == 0 {
        assert(before + rest =~= rest);
        lemma_no_feeds(before);
    } else {
        let whole = before + rest;
        let end = line_feed_index(before);
        if end == before.len() {
            assert(before[before.len() - 1] != '\n');
        }
        let inner = before.skip(end + 1);
        if inner.len() > 0 {
            assert(inner.last() == before.last());
        }
        lemma_lines_behind_whole_lines(inner, rest);
        assert forall|j: int| 0 <= j < end implies #[trigger] whole[j] != '\n' by {
            assert(whole[j] == before[j]);
        }
        assert(whole[end] == before[end]);
        lemma_line_feed_index_is(whole, end);
        assert(whole.skip(end + 1) =~= inner + rest);
    }
}

proof fn lemma_utf16_width(c: char)
    ensures
        c > '\u{ffff}' ==> utf16_width(c) == 2,
        c <= '\u{ffff}' ==> utf16_width(c) == 1,
{
}

proof fn lemma_utf16_len_counts(text: Seq<char>)
    ensures
        utf16_len(text) == text.len() + text.filter(|c: char| c > '\u{ffff}').len(),
    decreases text.len(),
{
    reveal(Seq::filter);
    if text.len() > 0 {
        lemma_utf16_len_counts(text.drop_last());
        lemma_utf16_width(text.last());
    }
}

/// The end offset of a line is one more than its UTF-16 length, which counts every
/// character of its text once and those beyond U+FFFF once more. The line is found by the
/// line feeds before it, and its ending is not counted.
pub proof fn law_end_offset_measures_the_line(
    before: Seq<char>,
    content: Seq<char>,
    ending: Seq<char>,
    after: Seq<char>,
)
    requires
        ends_with_line(before),
        closes_line(content, ending, after),
    ensures
        end_offset_of_line(before + (content + ending + after), feeds_in(before) as int + 1)
            == Some(content.len() + content.filter(|c: char| c > '\u{ffff}').len() + 1),
{
    let rest = content + ending + after;
    lemma_lines_behind_whole_lines(before, rest);
    lemma_closed_line(content, ending, after);
    lemma_utf16_len_counts(content);
}

/// What is measured on a line of a file is one more than the UTF-16 length of its text.
pub proof fn law_measured_offset_is_past_the_line(
    before: Seq<char>,
    content: Seq<char>,
    ending: Seq<char>,
    after: Seq<char>,
    text: &str,
    line: i32,
    offset: Option<usize>,
)
    requires
        text@ == before + (content + ending + after),
        2 * text@.len() < usize::MAX,
        ends_with_line(before),
        closes_line(content, ending, after),
        line == feeds_in(before) + 1,
        call_ensures(line_end_offset, (Some(text), line), offset),
    ensures
        offset is Some,
        offset->Some_0 == content.len() + content.filter(|c: char| c > '\u{ffff}').len() + 1,
{
    law_end_offset_measures_the_line(before, content, ending, after);
    lemma_utf16_len_counts(content);
    lemma_utf16_bound(content);
}

/// A suggestion for the lines from `start_line` to `end_line` that is applied on the
/// measured range takes their place and touches nothing else: what stands before the first
/// of them stays, and so do the ending of the last and everything behind it.
pub proof fn law_applied_suggestion_touches_its_lines_alone(
    before: Seq<char>,
    upper: Seq<char>,
    content: Seq<char>,
    ending: Seq<char>,
    after: Seq<char>,
    suggestion: Seq<char>,
)
    requires
        ends_with_line(before),
        ends_with_line(upper),
        before.is_prefix_of(upper),
        closes_line(content, ending, after),
    ensures
        ({
            let text = upper + (content + ending + after);
            let start_line = feeds_in(before) + 1;
            let end_line = feeds_in(upper) + 1;
            let end_offset = content.len() + content.filter(|c: char| c > '\u{ffff}').len() + 1;
            apply_suggestion(
                text,
                start_line as int,
                end_line as int,
                end_offset as int,
                suggestion,
            ) == before + suggestion + (ending + after)
        }),
{
    let rest = content + ending + after;
    let text = upper + rest;
    let middle = upper.skip(before.len() as int);
    assert(upper =~= before + middle);
    assert(text =~= before + (middle + rest));
    lemma_lines_behind_whole_lines(upper, rest);
    lemma_lines_behind_whole_lines(before, middle + rest);
    lemma_utf16_len_counts(content);
    let from = before.len() as int;
    let last = upper.len() as int;
    assert(text.skip(last) =~= rest);
    assert(rest.take(content.len() as int) =~= content);
    lemma_utf16_index_of_prefix(rest, content);
    assert(text.take(from) =~= before);
    assert(text.skip(last + content.len()) =~= ending + after);
    assert(utf16_index(text.skip(from), 0) == 0);
}

/// Whoever reads the context of an inline comment finds the path from the root, both lines
/// and both offsets, and nothing else.
pub proof fn law_inline_context_reads_back(
    file_path: &str,
    start_line: i32,
    end_line: i32,
    end_offset: usize,
    context: serde_json::Value,
)
    requires
        call_ensures(inline_thread_context, (file_path, start_line, end_line, end_offset), context),
    ensures
        places_range(
            json_view(context),
            file_path@,
            start_line as int,
            end_line as int,
            end_offset as int,
        ),
{
    lemma_context_places_range(
        file_path@,
        start_line as int,
        end_line as int,
        end_offset as int,
    );
}

/// The JSON value is an object with a path and two positions, whose lines and offsets are
/// these; the range starts at the first character of its first line.
pub open spec fn places_range(
    context: JsonView,
    file_path: Seq<char>,
    start_line: int,
    end_line: int,
    end_offset: int,
) -> bool {
    &&& context matches JsonView::Object(members)
    &&& members.dom() == set!["filePath"@, "rightFileStart"@, "rightFileEnd"@]
    &&& members["filePath"@] == JsonView::Text("/"@ + file_path)
    &&& members["rightFileStart"@] matches JsonView::Object(start)
    &&& start.dom() == set!["line"@, "offset"@]
    &&& start["line"@] == JsonView::Integer(start_line)
    &&& start["offset"@] == JsonView::Integer(1)
    &&& members["rightFileEnd"@] matches JsonView::Object(end)
    &&& end.dom() == set!["line"@, "offset"@]
    &&& end["line"@] == JsonView::Integer(end_line)
    &&& end["offset"@] == JsonView::Integer(end_offset)
}

/// The context of a range places it.
pub proof fn lemma_context_places_range(
    file_path: Seq<char>,
    start_line: int,
    end_line: int,
    end_offset: int,
)
    ensures
        places_range(
            thread_context_view(file_path, start_line, end_line, end_offset),
            file_path,
            start_line,
            end_line,
            end_offset,
        ),
{
    law_thread_context_reads_back(file_path, start_line, end_line, end_offset);
    reveal_strlit("/");
    assert("/"@ =~= seq!['/']);
    let context = thread_context_view(file_path, start_line, end_line, end_offset)->Object_0;
    assert(context.dom() =~= set!["filePath"@, "rightFileStart"@, "rightFileEnd"@]);
    let start = position_view(start_line, 1)->Object_0;
    let end = position_view(end_line, end_offset)->Object_0;
    assert(start.dom() =~= set!["line"@, "offset"@]);
    assert(end.dom() =~= set!["line"@, "offset"@]);
}

} // verus!
