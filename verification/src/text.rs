//! Strings as sequences of characters: comparison, decimal numbers, joining,
//! and the control characters.

use vstd::prelude::*;

verus! {

/// `String::push`: appends one character to the end of the string.
pub assume_specification[ String::push ](string: &mut String, ch: char)
    ensures
        final(string)@ == old(string)@.push(ch),
;

/// The characters of a string, in order.
pub fn chars_of(text: &str) -> (chars: Vec<char>)
    ensures
        chars@ == text@,
{
    let mut chars: Vec<char> = Vec::new();
    for c in it: text.chars()
        invariant
            it.seq() == text@,
            chars@ == text@.take(it.index()),
    {
        chars.push(c);
    }
    chars
}

/// The characters of each string of a list.
pub open spec fn texts_of(strings: Seq<String>) -> Seq<Seq<char>> {
    strings.map_values(|string: String| string@)
}

/// Whether two strings hold the same characters.
pub fn str_eq(a: &str, b: &str) -> (equal: bool)
    ensures
        equal == (a@ == b@),
{
    let left = chars_of(a);
    let right = chars_of(b);
    if left.len() != right.len() {
        return false;
    }
    for i in 0..left.len()
        invariant
            left@ == a@,
            right@ == b@,
            left@.len() == right@.len(),
            forall|j: int| 0 <= j < i ==> left@[j] == right@[j],
    {
        if left[i] != right[i] {
            return false;
        }
    }
    assert(left@ =~= right@);
    true
}

/// The character with ASCII letters mapped to lower case.
pub open spec fn ascii_lower(c: char) -> char {
    if 'A' <= c && c <= 'Z' {
        ((c as u32 + 32) as u32) as char
    } else {
        c
    }
}

/// Equality of strings up to the case of ASCII letters.
pub open spec fn same_ignoring_ascii_case(a: Seq<char>, b: Seq<char>) -> bool {
    &&& a.len() == b.len()
    &&& forall|i: int| #![trigger a[i]] #![trigger b[i]]
        0 <= i < a.len() ==> ascii_lower(a[i]) == ascii_lower(b[i])
}

fn to_ascii_lower(c: char) -> (lower: char)
    ensures
        lower == ascii_lower(c),
{
    if 'A' <= c && c <= 'Z' {
        let code: u8 = c as u8;
        (code + 32) as char
    } else {
        c
    }
}

/// Whether two strings are equal up to the case of ASCII letters.
pub fn eq_ignore_ascii_case(a: &str, b: &str) -> (equal: bool)
    ensures
        equal == same_ignoring_ascii_case(a@, b@),
{
    let left = chars_of(a);
    let right = chars_of(b);
    if left.len() != right.len() {
        return false;
    }
    for i in 0..left.len()
        invariant
            left@ == a@,
            right@ == b@,
            left@.len() == right@.len(),
            forall|j: int| 0 <= j < i ==> ascii_lower(left@[j]) == ascii_lower(right@[j]),
    {
        if to_ascii_lower(left[i]) != to_ascii_lower(right[i]) {
            assert(ascii_lower(a@[i as int]) != ascii_lower(b@[i as int]));
            return false;
        }
    }
    true
}

/// The decimal digit of a number below ten.
pub open spec fn digit(n: nat) -> char {
    ((n + 48) as u32) as char
}

/// The decimal digits of a natural number, most significant first.
pub open spec fn digits(n: nat) -> Seq<char>
    decreases n,
{
    if n < 10 {
        seq![digit(n)]
    } else {
        digits(n / 10).push(digit(n % 10))
    }
}

/// An integer in decimal notation, with a leading minus sign when negative.
pub open spec fn decimal(n: int) -> Seq<char> {
    if n < 0 {
        seq!['-'] + digits((-n) as nat)
    } else {
        digits(n as nat)
    }
}

fn push_digits(out: &mut String, n: u64)
    ensures
        final(out)@ == old(out)@ + digits(n as nat),
    decreases n,
{
    let rest: u64 = n % 10;
    if n >= 10 {
        push_digits(out, n / 10);
    }
    let code: u8 = rest as u8 + 48;
    out.push(code as char);
    assert(out@ =~= old(out)@ + digits(n as nat));
}

/// Appends an integer in decimal notation.
pub fn push_decimal(out: &mut String, n: i64)
    ensures
        final(out)@ == old(out)@ + decimal(n as int),
{
    if n < 0 {
        out.push('-');
        let magnitude: u64 = (-(n + 1)) as u64 + 1;
        push_digits(out, magnitude);
        assert(out@ =~= old(out)@ + decimal(n as int));
    } else {
        push_digits(out, n as u64);
    }
}

proof fn lemma_digits(n: nat)
    ensures
        digits(n).len() > 0,
        n >= 10 ==> digits(n).len() > 1,
        forall|i: int|
            0 <= i < digits(n).len() ==> '0' <= #[trigger] digits(n)[i] && digits(n)[i] <= '9',
    decreases n,
{
    if n >= 10 {
        lemma_digits(n / 10);
    }
}

proof fn lemma_digits_are_injective(m: nat, n: nat)
    requires
        digits(m) == digits(n),
    ensures
        m == n,
    decreases m,
{
    lemma_digits(m);
    lemma_digits(n);
    if m >= 10 && n >= 10 {
        assert(digits(m).drop_last() =~= digits(m / 10));
        assert(digits(n).drop_last() =~= digits(n / 10));
        assert(digits(m).last() == digit(m % 10));
        assert(digits(n).last() == digit(n % 10));
        lemma_digits_are_injective(m / 10, n / 10);
    } else {
        assert(digits(m)[0] == digit(m));
        assert(digits(n)[0] == digit(n));
    }
}

/// Decimal notation is made of digits and the minus sign.
pub proof fn lemma_decimal_characters(n: int)
    ensures
        decimal(n).len() > 0,
        forall|i: int|
            0 <= i < decimal(n).len() ==> #[trigger] decimal(n)[i] == '-' || ('0' <= decimal(n)[i]
                && decimal(n)[i] <= '9'),
{
    if n < 0 {
        lemma_digits((-n) as nat);
    } else {
        lemma_digits(n as nat);
    }
}

/// Different integers have different decimal notations.
pub proof fn lemma_decimal_is_injective(m: int, n: int)
    requires
        decimal(m) == decimal(n),
    ensures
        m == n,
{
    lemma_digits(if m < 0 { (-m) as nat } else { m as nat });
    lemma_digits(if n < 0 { (-n) as nat } else { n as nat });
    if m < 0 && n < 0 {
        assert(decimal(m).drop_first() =~= digits((-m) as nat));
        assert(decimal(n).drop_first() =~= digits((-n) as nat));
        lemma_digits_are_injective((-m) as nat, (-n) as nat);
    } else if m >= 0 && n >= 0 {
        lemma_digits_are_injective(m as nat, n as nat);
    } else {
        assert(decimal(m)[0] == '-' || decimal(n)[0] == '-');
    }
}

/// The strings joined, with `separator` between neighbours.
pub open spec fn joined(parts: Seq<Seq<char>>, separator: Seq<char>) -> Seq<char>
    decreases parts.len(),
{
    if parts.len() == 0 {
        Seq::empty()
    } else if parts.len() == 1 {
        parts[0]
    } else {
        joined(parts.drop_last(), separator) + separator + parts.last()
    }
}

/// The control characters: the code points of the Unicode category Cc.
pub open spec fn is_control(c: char) -> bool {
    c <= '\u{1f}' || ('\u{7f}' <= c && c <= '\u{9f}')
}

/// The text with every control character taken out.
pub open spec fn without_controls(text: Seq<char>) -> Seq<char> {
    text.filter(|c: char| !is_control(c))
}

/// The text with every control character taken out.
pub fn strip_controls(text: &str) -> (stripped: String)
    ensures
        stripped@ == without_controls(text@),
{
    let mut stripped = String::new();
    for c in it: text.chars()
        invariant
            it.seq() == text@,
            stripped@ == without_controls(text@.take(it.index())),
    {
        proof {
            reveal(Seq::filter);
            assert(text@.take(it.index() + 1).drop_last() =~= text@.take(it.index()));
        }
        if !(c <= '\u{1f}' || ('\u{7f}' <= c && c <= '\u{9f}')) {
            stripped.push(c);
        }
    }
    assert(text@.take(text@.len() as int) =~= text@);
    stripped
}

/// What is left has no control character in it.
pub proof fn lemma_without_controls_has_none(text: Seq<char>)
    ensures
        forall|i: int|
            0 <= i < without_controls(text).len() ==> !is_control(
                #[trigger] without_controls(text)[i],
            ),
{
    broadcast use vstd::seq_lib::group_filter_ensures;

}

/// Text without control characters is left as it is.
pub proof fn lemma_without_controls_keeps_clean_text(text: Seq<char>)
    requires
        forall|i: int| 0 <= i < text.len() ==> !is_control(#[trigger] text[i]),
    ensures
        without_controls(text) == text,
    decreases text.len(),
{
    reveal(Seq::filter);
    if text.len() > 0 {
        lemma_without_controls_keeps_clean_text(text.drop_last());
        assert(!is_control(text[text.len() - 1]));
        assert(text =~= text.drop_last().push(text.last()));
    }
}

/// Two strings are equal exactly where they are as long as each other and agree at every
/// position.
pub proof fn law_equal_strings_agree_everywhere(a: &str, b: &str, equal: bool)
    requires
        call_ensures(str_eq, (a, b), equal),
    ensures
        equal <==> a@.len() == b@.len() && forall|i: int|
            0 <= i < a@.len() ==> #[trigger] a@[i] == b@[i],
{
    if a@.len() == b@.len() && forall|i: int| 0 <= i < a@.len() ==> #[trigger] a@[i] == b@[i] {
        assert(a@ =~= b@);
    }
}

/// Two characters are equal, or the two cases of one ASCII letter, whose codes lie
/// thirty-two apart.
pub open spec fn is_same_letter(a: char, b: char) -> bool {
    ||| a == b
    ||| 'A' <= a && a <= 'Z' && b as u32 - a as u32 == 32
    ||| 'A' <= b && b <= 'Z' && a as u32 - b as u32 == 32
}

/// The texts are as long as each other, with the same letters at every position.
pub open spec fn is_same_word(a: Seq<char>, b: Seq<char>) -> bool {
    a.len() == b.len() && forall|i: int| 0 <= i < a.len() ==> is_same_letter(#[trigger] a[i], b[i])
}

/// A comparison that ignores case accepts two strings exactly where they have the same
/// letters at every position.
pub proof fn law_case_is_all_that_is_ignored(a: &str, b: &str, equal: bool)
    requires
        call_ensures(eq_ignore_ascii_case, (a, b), equal),
    ensures
        equal <==> is_same_word(a@, b@),
{
    lemma_same_word(a@, b@);
}

/// Equality up to case is having the same letters.
pub proof fn lemma_same_word(a: Seq<char>, b: Seq<char>)
    ensures
        same_ignoring_ascii_case(a, b) <==> is_same_word(a, b),
{
    if same_ignoring_ascii_case(a, b) {
        assert forall|i: int| 0 <= i < a.len() implies is_same_letter(#[trigger] a[i], b[i]) by {
            assert(ascii_lower(a[i]) == ascii_lower(b[i]));
        }
    }
    if is_same_word(a, b) {
        assert forall|i: int| 0 <= i < a.len() implies ascii_lower(#[trigger] a[i]) == ascii_lower(
            b[i],
        ) by {
            assert(is_same_letter(a[i], b[i]));
        }
        assert forall|i: int| 0 <= i < a.len() implies ascii_lower(a[i]) == ascii_lower(
            #[trigger] b[i],
        ) by {
            assert(is_same_letter(a[i], b[i]));
        }
    }
}

/// The number that a row of decimal digits writes.
pub open spec fn number_written(row: Seq<char>) -> int
    decreases row.len(),
{
    if row.len() == 0 {
        0
    } else {
        10 * number_written(row.drop_last()) + (row.last() as u32 - '0' as u32)
    }
}

/// The row is made of decimal digits, without needless zeros at the front, and writes the
/// number.
pub open spec fn writes_natural(row: Seq<char>, n: int) -> bool {
    &&& row.len() > 0
    &&& row.len() > 1 ==> row[0] != '0'
    &&& forall|i: int| 0 <= i < row.len() ==> '0' <= #[trigger] row[i] && row[i] <= '9'
    &&& number_written(row) == n
}

/// The text writes the integer: as its digits, or where it is negative as a minus sign and
/// the digits of its magnitude.
pub open spec fn writes_integer(text: Seq<char>, n: int) -> bool {
    if n < 0 {
        text.len() > 0 && text[0] == '-' && writes_natural(text.skip(1), -n)
    } else {
        writes_natural(text, n)
    }
}

proof fn lemma_digits_read_back(n: nat)
    ensures
        number_written(digits(n)) == n,
        digits(n).len() > 1 ==> digits(n)[0] != '0',
    decreases n,
{
    lemma_digits(n);
    if n < 10 {
        assert(digits(n).drop_last() =~= Seq::<char>::empty());
        assert(number_written(Seq::<char>::empty()) == 0);
    } else {
        lemma_digits(n / 10);
        lemma_digits_read_back(n / 10);
        assert(digits(n).drop_last() =~= digits(n / 10));
        assert(digits(n)[0] == digits(n / 10)[0]);
        if n / 10 < 10 {
            assert(digits(n / 10)[0] == digit(n / 10));
        }
    }
}

/// Whoever reads decimal notation gets the integer back.
pub proof fn law_decimal_reads_back(n: int)
    ensures
        writes_integer(decimal(n), n),
{
    let magnitude: nat = if n < 0 {
        (-n) as nat
    } else {
        n as nat
    };
    lemma_digits(magnitude);
    lemma_digits_read_back(magnitude);
    if n < 0 {
        assert(decimal(n).skip(1) =~= digits(magnitude));
    }
}

/// An integer is put behind what was there before, and can be read back from it.
pub proof fn law_integers_are_appended()
    ensures
        forall|out: &mut String, n: i64| #[trigger]
            call_ensures(push_decimal, (out, n), ()) ==> {
                let added = final(out)@.skip(out@.len() as int);
                final(out)@ == out@ + added && writes_integer(added, n as int)
            },
{
    assert forall|out: &mut String, n: i64| #[trigger]
        call_ensures(push_decimal, (out, n), ()) implies {
        let added = final(out)@.skip(out@.len() as int);
        final(out)@ == out@ + added && writes_integer(added, n as int)
    } by {
        law_decimal_reads_back(n as int);
        assert(final(out)@.skip(out@.len() as int) =~= decimal(n as int));
    }
}

/// Stripping looks at each character for itself: whatever stands before and after it is
/// stripped as it would be alone, and the character between is lost exactly where its
/// code is below 32 or from 127 to 159.
pub proof fn law_controls_are_stripped_one_by_one(
    before: &str,
    c: char,
    after: &str,
    whole: &str,
    stripped_before: String,
    stripped_after: String,
    stripped: String,
)
    requires
        whole@ == before@ + seq![c] + after@,
        call_ensures(strip_controls, (before,), stripped_before),
        call_ensures(strip_controls, (after,), stripped_after),
        call_ensures(strip_controls, (whole,), stripped),
    ensures
        stripped@ == stripped_before@ + (if (c as u32) < 32 || 127 <= c as u32 <= 159 {
            Seq::empty()
        } else {
            seq![c]
        }) + stripped_after@,
{
    lemma_without_controls_of_parts(before@, c, after@);
}

/// The control characters of a text are taken out one by one.
pub proof fn lemma_without_controls_of_parts(before: Seq<char>, c: char, after: Seq<char>)
    ensures
        without_controls(before + seq![c] + after) == without_controls(before) + (if is_control(c) {
            Seq::empty()
        } else {
            seq![c]
        }) + without_controls(after),
{
    let kept = |c: char| !is_control(c);
    let front = before + seq![c];
    Seq::filter_distributes_over_add(front, after, kept);
    assert(front =~= before.push(c));
    reveal(Seq::filter);
    assert(front.drop_last() =~= before);
    assert(without_controls(front) =~= without_controls(before) + (if is_control(c) {
        Seq::empty()
    } else {
        seq![c]
    }));
}

/// Stripping leaves no control character, and brings nothing in.
pub proof fn law_stripped_text_holds_no_controls(text: &str, stripped: String)
    requires
        call_ensures(strip_controls, (text,), stripped),
    ensures
        stripped@.len() <= text@.len(),
        forall|i: int|
            0 <= i < stripped@.len() ==> '\u{20}' <= #[trigger] stripped@[i] && !('\u{7f}'
                <= stripped@[i] && stripped@[i] <= '\u{9f}'),
{
    broadcast use vstd::seq_lib::group_filter_ensures;

    lemma_without_controls_has_none(text@);
    assert forall|i: int| 0 <= i < stripped@.len() implies '\u{20}' <= #[trigger] stripped@[i]
        && !('\u{7f}' <= stripped@[i] && stripped@[i] <= '\u{9f}') by {
        assert(!is_control(without_controls(text@)[i]));
    }
}

} // verus!
