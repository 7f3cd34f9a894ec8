//! The statuses of a comment thread.

use crate::text::{
    ascii_lower, eq_ignore_ascii_case, is_same_word, joined, lemma_same_word,
    same_ignoring_ascii_case, str_eq, texts_of,
};
use vstd::prelude::*;

verus! {

/// All valid thread statuses, in their canonical spelling.
pub const VALID_STATUSES: [&'static str; 5] = [
    "active",
    "fixed",
    "wont-fix",
    "closed",
    "by-design",
];

/// The number that stands for a thread status in the API, for its canonical
/// spelling and for the older one in camel case.
pub open spec fn status_number(status: Seq<char>) -> Option<i32> {
    if status == "active"@ || status == "Active"@ {
        Some(1)
    } else if status == "fixed"@ || status == "Fixed"@ {
        Some(2)
    } else if status == "wont-fix"@ || status == "WontFix"@ {
        Some(3)
    } else if status == "closed"@ || status == "Closed"@ {
        Some(4)
    } else if status == "by-design"@ || status == "ByDesign"@ {
        Some(5)
    } else {
        None
    }
}

/// Maps a thread status to the integer that the API takes for it.
pub fn status_to_int(status: &str) -> (number: Option<i32>)
    ensures
        number == status_number(status@),
{
    if str_eq(status, "active") || str_eq(status, "Active") {
        Some(1)
    } else if str_eq(status, "fixed") || str_eq(status, "Fixed") {
        Some(2)
    } else if str_eq(status, "wont-fix") || str_eq(status, "WontFix") {
        Some(3)
    } else if str_eq(status, "closed") || str_eq(status, "Closed") {
        Some(4)
    } else if str_eq(status, "by-design") || str_eq(status, "ByDesign") {
        Some(5)
    } else {
        None
    }
}

/// The valid statuses as character sequences.
pub open spec fn valid_status_texts() -> Seq<Seq<char>> {
    VALID_STATUSES@.map_values(|status: &'static str| status@)
}

/// The valid statuses in one line, as messages list them.
pub fn valid_statuses_text() -> (text: String)
    ensures
        text@ == joined(valid_status_texts(), ", "@),
{
    let statuses = VALID_STATUSES;
    let mut text = String::new();
    let ghost texts = valid_status_texts();
    for i in 0..5
        invariant
            statuses@ == VALID_STATUSES@,
            texts == valid_status_texts(),
            text@ == joined(texts.take(i as int), ", "@),
    {
        proof {
            assert(texts.take(i + 1).drop_last() =~= texts.take(i as int));
        }
        if i > 0 {
            text.append(", ");
        }
        text.append(statuses[i]);
        proof {
            assert(text@ =~= joined(texts.take(i + 1), ", "@));
        }
    }
    assert(texts.take(5) =~= texts);
    text
}

/// Whether a list of allowed statuses lets `status` through: an empty list lets
/// every status through, and otherwise one entry must be `status` up to the case
/// of ASCII letters.
pub open spec fn status_allowed(allowed: Seq<Seq<char>>, status: Seq<char>) -> bool {
    ||| allowed.len() == 0
    ||| exists|i: int|
        0 <= i < allowed.len() && same_ignoring_ascii_case(#[trigger] allowed[i], status)
}

/// Whether a list of allowed statuses lets `status` through.
pub fn is_status_allowed(allowed: &Vec<String>, status: &str) -> (permitted: bool)
    ensures
        permitted == status_allowed(texts_of(allowed@), status@),
{
    if allowed.len() == 0 {
        return true;
    }
    for i in 0..allowed.len()
        invariant
            allowed@.len() > 0,
            forall|j: int|
                0 <= j < i ==> !same_ignoring_ascii_case(
                    #[trigger] texts_of(allowed@)[j],
                    status@,
                ),
    {
        if eq_ignore_ascii_case(allowed[i].as_str(), status) {
            proof {
                assert(same_ignoring_ascii_case(texts_of(allowed@)[i as int], status@));
            }
            return true;
        }
    }
    false
}

/// A status that is known stands for a number from one to five, and is one of the
/// two spellings of the canonical status with that number.
pub proof fn law_known_statuses_have_two_spellings(status: Seq<char>)
    requires
        status_number(status) is Some,
    ensures
        ({
            let n = status_number(status)->Some_0;
            &&& 1 <= n <= 5
            &&& status == valid_status_texts()[n - 1] || status == camel_case_status(n as int)
        }),
{
}

/// The list of valid statuses is complete and in order: its entries stand for the
/// numbers from one to five, and so do the camel case spellings.
pub proof fn law_spellings_agree(n: int)
    requires
        1 <= n <= 5,
    ensures
        valid_status_texts().len() == 5,
        status_number(valid_status_texts()[n - 1]) == Some(n as i32),
        status_number(camel_case_status(n)) == Some(n as i32),
{
    lemma_spellings_differ();
}

/// The camel case spelling of the status with number `n`.
pub open spec fn camel_case_status(n: int) -> Seq<char> {
    if n == 1 {
        "Active"@
    } else if n == 2 {
        "Fixed"@
    } else if n == 3 {
        "WontFix"@
    } else if n == 4 {
        "Closed"@
    } else {
        "ByDesign"@
    }
}

/// A list of allowed statuses does not tell spellings apart that differ in the
/// case of ASCII letters alone.
pub proof fn law_allowed_statuses_ignore_case(
    allowed: Seq<Seq<char>>,
    status: Seq<char>,
    other: Seq<char>,
)
    requires
        same_ignoring_ascii_case(status, other),
    ensures
        status_allowed(allowed, status) == status_allowed(allowed, other),
{
    assert forall|entry: Seq<char>|
        same_ignoring_ascii_case(entry, status) == same_ignoring_ascii_case(entry, other) by {
        if same_ignoring_ascii_case(entry, status) {
            assert forall|i: int| 0 <= i < entry.len() implies ascii_lower(#[trigger] entry[i])
                == ascii_lower(other[i]) by {
                assert(ascii_lower(status[i]) == ascii_lower(other[i]));
            }
            assert forall|i: int| 0 <= i < entry.len() implies ascii_lower(entry[i])
                == ascii_lower(#[trigger] other[i]) by {
                assert(ascii_lower(status[i]) == ascii_lower(entry[i]));
            }
        }
        if same_ignoring_ascii_case(entry, other) {
            assert forall|i: int| 0 <= i < entry.len() implies ascii_lower(#[trigger] entry[i])
                == ascii_lower(status[i]) by {
                assert(ascii_lower(status[i]) == ascii_lower(other[i]));
            }
        }
    }
}

proof fn lemma_spellings_differ()
    ensures
        status_number("active"@) == Some(1i32),
        status_number("Active"@) == Some(1i32),
        status_number("fixed"@) == Some(2i32),
        status_number("Fixed"@) == Some(2i32),
        status_number("wont-fix"@) == Some(3i32),
        status_number("WontFix"@) == Some(3i32),
        status_number("closed"@) == Some(4i32),
        status_number("Closed"@) == Some(4i32),
        status_number("by-design"@) == Some(5i32),
        status_number("ByDesign"@) == Some(5i32),
{
    reveal_strlit("active");
    reveal_strlit("Active");
    reveal_strlit("fixed");
    reveal_strlit("Fixed");
    reveal_strlit("wont-fix");
    reveal_strlit("WontFix");
    reveal_strlit("closed");
    reveal_strlit("Closed");
    reveal_strlit("by-design");
    reveal_strlit("ByDesign");
    assert("by-design"@.len() == 9);
    // Words of the same length differ in the character at which they part.
    assert("fixed"@[0] != "Fixed"@[0]);
    assert("active"@[0] != "closed"@[0]);
    assert("active"@[0] != "Closed"@[0]);
    assert("Active"@[0] != "closed"@[0]);
    assert("Active"@[0] != "Closed"@[0]);
    assert("wont-fix"@[0] != "ByDesign"@[0]);
}

/// The text is one of the two spellings of the status with this number.
pub open spec fn spells_status(text: Seq<char>, number: int) -> bool {
    ||| number == 1 && (text == "active"@ || text == "Active"@)
    ||| number == 2 && (text == "fixed"@ || text == "Fixed"@)
    ||| number == 3 && (text == "wont-fix"@ || text == "WontFix"@)
    ||| number == 4 && (text == "closed"@ || text == "Closed"@)
    ||| number == 5 && (text == "by-design"@ || text == "ByDesign"@)
}

/// A status has a number exactly where it is one of the ten spellings, and then the one
/// that it spells.
pub proof fn law_statuses_have_the_numbers_they_spell(status: &str, number: Option<i32>, n: int)
    requires
        call_ensures(status_to_int, (status,), number),
    ensures
        (number is Some && number->Some_0 == n) <==> spells_status(status@, n),
        number is None <==> forall|k: int| !#[trigger] spells_status(status@, k),
{
    lemma_status_number(status@, n);
}

/// The number of a status is the one that it spells.
pub proof fn lemma_status_number(status: Seq<char>, n: int)
    ensures
        (status_number(status) is Some && status_number(status)->Some_0 == n) <==> spells_status(
            status,
            n,
        ),
        status_number(status) is None <==> forall|k: int| !#[trigger] spells_status(status, k),
{
    lemma_spellings_differ();
    if status_number(status) is Some {
        assert(spells_status(status, status_number(status)->Some_0 as int));
    }
}

/// A list of allowed statuses that is not empty lets a status through exactly where one
/// of its entries has the same letters.
pub proof fn law_listed_statuses_alone_are_allowed(
    allowed: Vec<String>,
    status: &str,
    permitted: bool,
)
    requires
        call_ensures(is_status_allowed, (&allowed, status), permitted),
    ensures
        permitted <==> allowed@.len() == 0 || exists|i: int|
            0 <= i < allowed@.len() && is_same_word((#[trigger] allowed@[i])@, status@),
{
    lemma_listed_status(allowed@, status@);
}

/// A list of allowed statuses has an entry with the same letters, or is empty.
pub proof fn lemma_listed_status(allowed: Seq<String>, status: Seq<char>)
    ensures
        status_allowed(texts_of(allowed), status) <==> allowed.len() == 0 || exists|i: int|
            0 <= i < allowed.len() && is_same_word((#[trigger] allowed[i])@, status),
{
    let texts = texts_of(allowed);
    if exists|i: int|
        0 <= i < texts.len() && same_ignoring_ascii_case(#[trigger] texts[i], status) {
        let i = choose|i: int|
            0 <= i < texts.len() && same_ignoring_ascii_case(#[trigger] texts[i], status);
        lemma_same_word(allowed[i]@, status);
    }
    if exists|i: int| 0 <= i < allowed.len() && is_same_word((#[trigger] allowed[i])@, status) {
        let i = choose|i: int|
            0 <= i < allowed.len() && is_same_word((#[trigger] allowed[i])@, status);
        lemma_same_word(allowed[i]@, status);
        assert(same_ignoring_ascii_case(texts[i], status));
    }
}

/// Messages list the canonical spellings in the order of their numbers.
pub proof fn law_valid_statuses_in_words(text: String)
    requires
        call_ensures(valid_statuses_text, (), text),
    ensures
        text@ == "active, fixed, wont-fix, closed, by-design"@,
{
    lemma_valid_statuses_text();
}

/// The canonical spellings, joined.
pub proof fn lemma_valid_statuses_text()
    ensures
        joined(valid_status_texts(), ", "@) == "active, fixed, wont-fix, closed, by-design"@,
{
    reveal_strlit(", ");
    reveal_strlit("active");
    reveal_strlit("fixed");
    reveal_strlit("wont-fix");
    reveal_strlit("closed");
    reveal_strlit("by-design");
    reveal_strlit("active, fixed, wont-fix, closed, by-design");
    let texts = valid_status_texts();
    assert(texts.len() == 5);
    assert(texts.take(5) =~= texts);
    assert(texts.take(5).drop_last() =~= texts.take(4));
    assert(texts.take(4).drop_last() =~= texts.take(3));
    assert(texts.take(3).drop_last() =~= texts.take(2));
    assert(texts.take(2).drop_last() =~= texts.take(1));
    assert(joined(texts.take(1), ", "@) == "active"@);
    assert(joined(texts.take(2), ", "@) == "active"@ + ", "@ + "fixed"@);
    assert(joined(texts.take(3), ", "@) == joined(texts.take(2), ", "@) + ", "@ + "wont-fix"@);
    assert(joined(texts.take(4), ", "@) == joined(texts.take(3), ", "@) + ", "@ + "closed"@);
    assert(joined(texts, ", "@) == joined(texts.take(4), ", "@) + ", "@ + "by-design"@);
    assert(joined(texts, ", "@) =~= "active, fixed, wont-fix, closed, by-design"@);
}

} // verus!
