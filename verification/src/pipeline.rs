//! Pipeline commands: the text by which whatever a pipeline prints can steer it,
//! and how it is kept out of what an agent hands over.

use crate::text::{
    chars_of, is_control, lemma_without_controls_has_none, strip_controls, without_controls,
};
use vstd::prelude::*;

verus! {

/// The characters that open a pipeline command: `##vso[`.
pub open spec fn command_opening() -> Seq<char> {
    seq!['#', '#', 'v', 's', 'o', '[']
}

/// Whether a pipeline command opens at index `at`.
pub open spec fn command_opens_at(text: Seq<char>, at: int) -> bool {
    0 <= at && at + 6 <= text.len() && text.subrange(at, at + 6) == command_opening()
}

/// Whether a pipeline command opens anywhere in the text.
pub open spec fn has_command(text: Seq<char>) -> bool {
    exists|at: int| command_opens_at(text, at)
}

/// The text with each opening of a pipeline command put between backticks, which
/// keeps it from being read as one.
pub open spec fn neutralized(text: Seq<char>) -> Seq<char>
    decreases text.len(),
{
    if text.len() == 0 {
        Seq::empty()
    } else if command_opens_at(text, 0) {
        seq!['`'] + command_opening() + seq!['`'] + neutralized(text.skip(6))
    } else {
        seq![text[0]] + neutralized(text.drop_first())
    }
}

fn opens_at(chars: &Vec<char>, at: usize) -> (opens: bool)
    requires
        at <= chars@.len(),
    ensures
        opens == command_opens_at(chars@, at as int),
{
    if chars.len() - at < 6 {
        return false;
    }
    let opens = chars[at] == '#' && chars[at + 1] == '#' && chars[at + 2] == 'v' && chars[at + 3]
        == 's' && chars[at + 4] == 'o' && chars[at + 5] == '[';
    proof {
        let window = chars@.subrange(at as int, at + 6);
        assert(forall|j: int| 0 <= j < 6 ==> window[j] == chars@[at + j]);
        if opens {
            assert(window =~= command_opening());
        } else {
            let opening = command_opening();
            assert(window[0] != opening[0] || window[1] != opening[1] || window[2] != opening[2]
                || window[3] != opening[3] || window[4] != opening[4] || window[5]
                != opening[5]);
        }
    }
    opens
}

/// Whether a pipeline command opens anywhere in the text.
pub fn contains_pipeline_command(text: &str) -> (found: bool)
    ensures
        found == has_command(text@),
{
    let chars = chars_of(text);
    for at in 0..chars.len()
        invariant
            chars@ == text@,
            forall|j: int| 0 <= j < at ==> !command_opens_at(text@, j),
    {
        if opens_at(&chars, at) {
            return true;
        }
    }
    false
}

/// Puts each opening of a pipeline command between backticks.
pub fn neutralize_pipeline_commands(text: &str) -> (safe: String)
    ensures
        safe@ == neutralized(text@),
{
    let chars = chars_of(text);
    let mut safe = String::new();
    let mut at: usize = 0;
    proof {
        assert(chars@.skip(0) =~= chars@);
    }
    while at < chars.len()
        invariant
            at <= chars@.len(),
            chars@ == text@,
            neutralized(text@) == safe@ + neutralized(chars@.skip(at as int)),
        decreases chars@.len() - at,
    {
        let ghost before = safe@;
        let ghost rest = chars@.skip(at as int);
        proof {
            if at + 6 <= chars@.len() {
                assert(rest.subrange(0, 6) =~= chars@.subrange(at as int, at + 6));
            }
        }
        if opens_at(&chars, at) {
            safe.append("`##vso[`");
            at = at + 6;
            proof {
                reveal_strlit("`##vso[`");
                assert("`##vso[`"@ =~= seq!['`'] + command_opening() + seq!['`']);
                assert(rest.skip(6) =~= chars@.skip(at as int));
                assert(before + neutralized(rest) =~= safe@ + neutralized(rest.skip(6)));
            }
        } else {
            safe.push(chars[at]);
            at = at + 1;
            proof {
                assert(rest.drop_first() =~= chars@.skip(at as int));
                assert(before + neutralized(rest) =~= safe@ + neutralized(rest.drop_first()));
            }
        }
    }
    proof {
        assert(safe@ + neutralized(chars@.skip(at as int)) =~= safe@);
    }
    safe
}

/// The control characters that lay out text: tab, line feed and carriage return.
pub open spec fn is_layout(c: char) -> bool {
    c == '\t' || c == '\n' || c == '\r'
}

/// The text with every control character taken out that does not lay it out.
pub open spec fn without_hidden_controls(text: Seq<char>) -> Seq<char> {
    text.filter(|c: char| !is_control(c) || is_layout(c))
}

/// Markdown text as it is posted: no control characters but those that lay it out,
/// and no pipeline command that is not between backticks.
pub open spec fn sanitized_text(text: Seq<char>) -> Seq<char> {
    neutralized(without_hidden_controls(text))
}

/// A structural value as it is used: no control characters, and no pipeline command
/// that is not between backticks.
pub open spec fn sanitized_config(text: Seq<char>) -> Seq<char> {
    neutralized(without_controls(text))
}

/// Sanitizes markdown text that an agent wrote.
pub fn sanitize(text: &str) -> (safe: String)
    ensures
        safe@ == sanitized_text(text@),
{
    let mut visible = String::new();
    for c in it: text.chars()
        invariant
            it.seq() == text@,
            visible@ == without_hidden_controls(text@.take(it.index())),
    {
        proof {
            reveal(Seq::filter);
            assert(text@.take(it.index() + 1).drop_last() =~= text@.take(it.index()));
        }
        let control = c <= '\u{1f}' || ('\u{7f}' <= c && c <= '\u{9f}');
        if !control || c == '\t' || c == '\n' || c == '\r' {
            visible.push(c);
        }
    }
    assert(text@.take(text@.len() as int) =~= text@);
    neutralize_pipeline_commands(visible.as_str())
}

/// Sanitizes a structural value that an agent wrote.
pub fn sanitize_config(text: &str) -> (safe: String)
    ensures
        safe@ == sanitized_config(text@),
{
    let visible = strip_controls(text);
    neutralize_pipeline_commands(visible.as_str())
}

/// Up to its first backtick, neutralized text is the text itself.
proof fn lemma_neutralized_before_backtick(text: Seq<char>, n: int)
    requires
        0 <= n <= neutralized(text).len(),
        forall|j: int| 0 <= j < n ==> #[trigger] neutralized(text)[j] != '`',
    ensures
        n <= text.len(),
        neutralized(text).take(n) == text.take(n),
    decreases n,
{
    let safe = neutralized(text);
    if n > 0 {
        assert(safe[0] != '`');
        assert(!command_opens_at(text, 0));
        let rest = text.drop_first();
        assert forall|j: int| 0 <= j < n - 1 implies #[trigger] neutralized(rest)[j] != '`' by {
            assert(safe[j + 1] == neutralized(rest)[j]);
        }
        lemma_neutralized_before_backtick(rest, n - 1);
        assert forall|j: int| 0 <= j < n implies #[trigger] safe.take(n)[j] == text.take(n)[j] by {
            if j > 0 {
                assert(neutralized(rest).take(n - 1)[j - 1] == rest.take(n - 1)[j - 1]);
            }
        }
        assert(safe.take(n) =~= text.take(n));
    }
}

/// No pipeline command is left to be read: wherever one opens in neutralized text,
/// its opening stands between backticks.
pub proof fn law_commands_are_quoted(text: Seq<char>, at: int)
    requires
        command_opens_at(neutralized(text), at),
    ensures
        0 < at,
        at + 6 < neutralized(text).len(),
        neutralized(text)[at - 1] == '`',
        neutralized(text)[at + 6] == '`',
    decreases text.len(),
{
    let safe = neutralized(text);
    let window = safe.subrange(at, at + 6);
    assert(forall|j: int| 0 <= j < 6 ==> #[trigger] window[j] == safe[at + j]);
    assert(window[0] == '#' && window[1] == '#' && window[2] == 'v' && window[3] == 's'
        && window[4] == 'o' && window[5] == '[');
    assert(safe[at] == '#' && safe[at + 1] == '#' && safe[at + 5] == '[');
    if text.len() == 0 {
    } else if command_opens_at(text, 0) {
        let quoted = seq!['`'] + command_opening() + seq!['`'];
        let tail = neutralized(text.skip(6));
        assert(safe =~= quoted + tail);
        if at >= 8 {
            assert(tail.subrange(at - 8, at - 2) =~= window);
            assert(command_opens_at(tail, at - 8));
            law_commands_are_quoted(text.skip(6), at - 8);
            assert(safe[at - 1] == tail[at - 9]);
            assert(safe[at + 6] == tail[at - 2]);
        } else if at != 1 {
            assert(safe[0] == '`' && safe[2] == '#' && safe[3] == 'v' && safe[4] == 's' && safe[5]
                == 'o' && safe[6] == '[' && safe[7] == '`');
            assert(safe[at + 1] == '#' && safe[at + 2] == 'v');
        }
    } else {
        let tail = neutralized(text.drop_first());
        assert(safe =~= seq![text[0]] + tail);
        if at >= 1 {
            assert(tail.subrange(at - 1, at + 5) =~= window);
            assert(command_opens_at(tail, at - 1));
            law_commands_are_quoted(text.drop_first(), at - 1);
            assert(safe[at - 1] == tail[at - 2]);
            assert(safe[at + 6] == tail[at + 5]);
        } else {
            assert forall|j: int| 0 <= j < 6 implies #[trigger] safe[j] != '`' by {
                assert(window[j] == safe[j]);
            }
            lemma_neutralized_before_backtick(text, 6);
            assert(text.subrange(0, 6) =~= text.take(6));
            assert(safe.subrange(0, 6) =~= safe.take(6));
            assert(command_opens_at(text, 0));
        }
    }
}

/// Text in which no pipeline command opens is left as it is.
pub proof fn law_text_without_commands_is_kept(text: Seq<char>)
    requires
        !has_command(text),
    ensures
        neutralized(text) == text,
    decreases text.len(),
{
    if text.len() > 0 {
        let rest = text.drop_first();
        assert forall|at: int| !command_opens_at(rest, at) by {
            if command_opens_at(rest, at) {
                assert(rest.subrange(at, at + 6) =~= text.subrange(at + 1, at + 7));
                assert(command_opens_at(text, at + 1));
            }
        }
        law_text_without_commands_is_kept(rest);
        assert(!command_opens_at(text, 0));
        assert(seq![text[0]] + rest =~= text);
    }
}

/// Neutralizing brings in no control characters.
proof fn lemma_neutralized_controls(text: Seq<char>)
    requires
        forall|i: int| 0 <= i < text.len() ==> !is_control(#[trigger] text[i]),
    ensures
        forall|i: int|
            0 <= i < neutralized(text).len() ==> !is_control(#[trigger] neutralized(text)[i]),
    decreases text.len(),
{
    let safe = neutralized(text);
    if text.len() > 0 {
        if command_opens_at(text, 0) {
            let quoted = seq!['`'] + command_opening() + seq!['`'];
            lemma_neutralized_controls(text.skip(6));
            assert forall|i: int| 0 <= i < safe.len() implies !is_control(#[trigger] safe[i]) by {
                if i < 8 {
                    assert(safe[i] == quoted[i]);
                } else {
                    assert(safe[i] == neutralized(text.skip(6))[i - 8]);
                }
            }
        } else {
            lemma_neutralized_controls(text.drop_first());
            assert forall|i: int| 0 <= i < safe.len() implies !is_control(#[trigger] safe[i]) by {
                if i > 0 {
                    assert(safe[i] == neutralized(text.drop_first())[i - 1]);
                } else {
                    assert(safe[0] == text[0]);
                }
            }
        }
    }
}

/// A sanitized structural value holds no control character.
pub proof fn law_structural_values_hold_no_controls(text: Seq<char>, i: int)
    requires
        0 <= i < sanitized_config(text).len(),
    ensures
        !is_control(sanitized_config(text)[i]),
{
    lemma_without_controls_has_none(text);
    lemma_neutralized_controls(without_controls(text));
}

/// Markdown without hidden control characters and without pipeline commands is
/// posted character for character, so that a suggestion in it stays literal.
pub proof fn law_clean_text_is_posted_literally(text: Seq<char>)
    requires
        !has_command(text),
        forall|i: int|
            0 <= i < text.len() ==> !is_control(#[trigger] text[i]) || is_layout(text[i]),
    ensures
        sanitized_text(text) == text,
{
    lemma_nothing_hidden(text);
    law_text_without_commands_is_kept(text);
}

proof fn lemma_nothing_hidden(text: Seq<char>)
    requires
        forall|i: int|
            0 <= i < text.len() ==> !is_control(#[trigger] text[i]) || is_layout(text[i]),
    ensures
        without_hidden_controls(text) == text,
    decreases text.len(),
{
    reveal(Seq::filter);
    if text.len() > 0 {
        lemma_nothing_hidden(text.drop_last());
        assert(!is_control(text[text.len() - 1]) || is_layout(text[text.len() - 1]));
        assert(text =~= text.drop_last().push(text.last()));
    }
}

/// At index `at` of the text stand the six characters that open a pipeline command.
pub open spec fn opening_stands_at(text: Seq<char>, at: int) -> bool {
    &&& 0 <= at && at + 6 <= text.len()
    &&& text[at] == '#' && text[at + 1] == '#' && text[at + 2] == 'v'
    &&& text[at + 3] == 's' && text[at + 4] == 'o' && text[at + 5] == '['
}

/// A command opens where its six characters stand.
proof fn lemma_opening(text: Seq<char>, at: int)
    ensures
        command_opens_at(text, at) <==> opening_stands_at(text, at),
{
    if 0 <= at && at + 6 <= text.len() {
        let window = text.subrange(at, at + 6);
        let opening = command_opening();
        assert(forall|j: int| 0 <= j < 6 ==> #[trigger] window[j] == text[at + j]);
        assert(window[0] == text[at] && window[1] == text[at + 1] && window[2] == text[at + 2]
            && window[3] == text[at + 3] && window[4] == text[at + 4] && window[5] == text[at + 5]);
        assert(opening[0] == '#' && opening[1] == '#' && opening[2] == 'v' && opening[3] == 's'
            && opening[4] == 'o' && opening[5] == '[');
        if opening_stands_at(text, at) {
            assert(window =~= opening);
        }
    }
}

/// A text has a command exactly where the six characters stand somewhere.
pub proof fn lemma_has_command(text: Seq<char>)
    ensures
        has_command(text) <==> exists|at: int| #[trigger] opening_stands_at(text, at),
{
    if has_command(text) {
        let at = choose|at: int| command_opens_at(text, at);
        lemma_opening(text, at);
        assert(opening_stands_at(text, at));
    }
    if exists|at: int| #[trigger] opening_stands_at(text, at) {
        let at = choose|at: int| #[trigger] opening_stands_at(text, at);
        lemma_opening(text, at);
    }
}

/// A pipeline command is found exactly where its six characters stand one after the other
/// somewhere in the text.
pub proof fn law_commands_are_found_wherever_they_open(text: &str, found: bool)
    requires
        call_ensures(contains_pipeline_command, (text,), found),
    ensures
        found <==> exists|at: int| #[trigger] opening_stands_at(text@, at),
{
    lemma_has_command(text@);
}

/// Text in which the six characters nowhere stand together is not touched.
pub proof fn law_text_that_opens_no_command_is_untouched(text: &str, safe: String)
    requires
        call_ensures(neutralize_pipeline_commands, (text,), safe),
        forall|at: int| !#[trigger] opening_stands_at(text@, at),
    ensures
        safe@ == text@,
{
    lemma_has_command(text@);
    law_text_without_commands_is_kept(text@);
}

/// The first opening of a command is put between backticks, what stands before it is not
/// touched, and what stands behind it is treated as a text of its own.
pub proof fn law_first_command_is_quoted(
    before: Seq<char>,
    after: &str,
    whole: &str,
    safe_after: String,
    safe: String,
)
    requires
        whole@ == before + "##vso["@ + after@,
        forall|at: int| at < before.len() ==> !#[trigger] opening_stands_at(whole@, at),
        call_ensures(neutralize_pipeline_commands, (after,), safe_after),
        call_ensures(neutralize_pipeline_commands, (whole,), safe),
    ensures
        safe@ == before + "`##vso[`"@ + safe_after@,
{
    reveal_strlit("##vso[");
    reveal_strlit("`##vso[`");
    assert("##vso["@ =~= command_opening());
    assert("`##vso[`"@ =~= seq!['`'] + command_opening() + seq!['`']);
    assert forall|at: int| at < before.len() implies !#[trigger] command_opens_at(whole@, at) by {
        lemma_opening(whole@, at);
    }
    lemma_first_command(before, after@);
    assert(safe@ =~= before + "`##vso[`"@ + safe_after@);
}

proof fn lemma_first_command(before: Seq<char>, after: Seq<char>)
    requires
        forall|at: int|
            at < before.len() ==> !#[trigger] command_opens_at(
                before + command_opening() + after,
                at,
            ),
    ensures
        neutralized(before + command_opening() + after) == before + (seq!['`'] + command_opening()
            + seq!['`'] + neutralized(after)),
    decreases before.len(),
{
    let whole = before + command_opening() + after;
    if before.len() == 0 {
        assert(whole.subrange(0, 6) =~= command_opening());
        assert(whole.skip(6) =~= after);
        assert(command_opens_at(whole, 0));
        assert(neutralized(whole) =~= before + (seq!['`'] + command_opening() + seq!['`']
            + neutralized(after)));
    } else {
        let rest = before.drop_first();
        let tail = rest + command_opening() + after;
        assert(whole.drop_first() =~= tail);
        assert forall|at: int| at < rest.len() implies !#[trigger] command_opens_at(tail, at) by {
            if command_opens_at(tail, at) {
                assert(whole.subrange(at + 1, at + 7) =~= tail.subrange(at, at + 6));
                assert(command_opens_at(whole, at + 1));
            }
        }
        lemma_first_command(rest, after);
        assert(!command_opens_at(whole, 0));
        assert(neutralized(whole) =~= before + (seq!['`'] + command_opening() + seq!['`']
            + neutralized(after)));
    }
}

/// The character cannot be seen and does not lay text out: its code is below 32 or from
/// 127 to 159, and it is no tab, line feed or carriage return.
pub open spec fn is_hidden(c: char) -> bool {
    (c <= '\u{1f}' || ('\u{7f}' <= c && c <= '\u{9f}')) && c != '\u{9}' && c != '\u{a}' && c
        != '\u{d}'
}

/// A hidden character makes no difference to sanitized markdown, wherever it stands: not
/// even in the middle of a command, which it does not shield.
pub proof fn law_hidden_characters_make_no_difference(
    before: Seq<char>,
    c: char,
    after: Seq<char>,
    with: &str,
    without: &str,
    safe_with: String,
    safe_without: String,
)
    requires
        is_hidden(c),
        with@ == before + seq![c] + after,
        without@ == before + after,
        call_ensures(sanitize, (with,), safe_with),
        call_ensures(sanitize, (without,), safe_without),
    ensures
        safe_with@ == safe_without@,
{
    let kept = |c: char| !is_control(c) || is_layout(c);
    let front = before + seq![c];
    Seq::filter_distributes_over_add(front, after, kept);
    Seq::filter_distributes_over_add(before, after, kept);
    reveal(Seq::filter);
    assert(front.drop_last() =~= before);
    assert(without_hidden_controls(with@) =~= without_hidden_controls(without@));
}

/// Of markdown without hidden characters, sanitizing quotes the commands and changes
/// nothing else.
pub proof fn law_sanitizing_visible_text_quotes_commands(text: &str, safe: String, quoted: String)
    requires
        forall|i: int| 0 <= i < text@.len() ==> !is_hidden(#[trigger] text@[i]),
        call_ensures(sanitize, (text,), safe),
        call_ensures(neutralize_pipeline_commands, (text,), quoted),
    ensures
        safe@ == quoted@,
{
    assert forall|i: int| 0 <= i < text@.len() implies !is_control(#[trigger] text@[i])
        || is_layout(text@[i]) by {
        assert(!is_hidden(text@[i]));
    }
    lemma_nothing_hidden(text@);
}

/// Sanitizing a structural value strips its control characters, all of them, and then
/// quotes the commands.
pub proof fn law_structural_values_are_stripped_and_quoted(
    text: &str,
    stripped: &str,
    stripped_text: String,
    safe: String,
    quoted: String,
)
    requires
        call_ensures(strip_controls, (text,), stripped_text),
        stripped@ == stripped_text@,
        call_ensures(neutralize_pipeline_commands, (stripped,), quoted),
        call_ensures(sanitize_config, (text,), safe),
    ensures
        safe@ == quoted@,
{
}

} // verus!
