//! The address to which a comment thread is posted.

use crate::text::{
    chars_of, decimal, lemma_decimal_characters, lemma_decimal_is_injective, push_decimal,
};
use vstd::prelude::*;
use vstd::utf8::{
    encode_scalar, encode_utf8, encode_utf8_decode_utf8, is_ascii_chars_encode_utf8,
};

verus! {

/// The upper-case hexadecimal digit of a number below sixteen.
pub open spec fn hex_digit(n: int) -> char {
    if n < 10 {
        ((n + 48) as u32) as char
    } else {
        ((n + 55) as u32) as char
    }
}

/// A byte as a percent sign and two hexadecimal digits.
pub open spec fn percent_encoded_byte(byte: u8) -> Seq<char> {
    seq!['%', hex_digit(byte as int / 16), hex_digit(byte as int % 16)]
}

/// `percent_encoding::percent_encode_byte`: the byte as a percent sign and two
/// upper-case hexadecimal digits, whatever the byte is.
pub assume_specification[ percent_encoding::percent_encode_byte ](byte: u8) -> (encoded:
    &'static str)
    ensures
        encoded@ == percent_encoded_byte(byte),
;

/// Whether a byte may stand for itself in a segment of a URL's path: it is ASCII,
/// no control, and none of space, `"`, `#`, `%`, `/`, `<`, `>`, `?`, the backtick,
/// `{` and `}`.
pub open spec fn is_segment_byte(byte: u8) -> bool {
    let c = byte as char;
    &&& 0x20 < byte < 0x7f
    &&& c != '"' && c != '#' && c != '%' && c != '/' && c != '<' && c != '>' && c != '?'
    &&& c != '`' && c != '{' && c != '}'
}

/// A byte as it stands in a segment.
pub open spec fn segment_piece(byte: u8) -> Seq<char> {
    if is_segment_byte(byte) {
        seq![byte as char]
    } else {
        percent_encoded_byte(byte)
    }
}

/// Bytes as they stand in a segment.
pub open spec fn encoded_bytes(bytes: Seq<u8>) -> Seq<char>
    decreases bytes.len(),
{
    if bytes.len() == 0 {
        Seq::empty()
    } else {
        segment_piece(bytes[0]) + encoded_bytes(bytes.drop_first())
    }
}

/// Text as one segment of a URL's path: its UTF-8 encoding, percent-encoded.
pub open spec fn encoded_segment(text: Seq<char>) -> Seq<char> {
    encoded_bytes(encode_utf8(text))
}

/// Appends text as one segment of a URL's path.
pub fn push_segment(out: &mut String, segment: &str)
    ensures
        final(out)@ == old(out)@ + encoded_segment(segment@),
{
    let bytes = segment.as_bytes();
    let mut i: usize = 0;
    proof {
        assert(bytes@.skip(0) =~= bytes@);
    }
    while i < bytes.len()
        invariant
            i <= bytes@.len(),
            bytes@ == encode_utf8(segment@),
            old(out)@ + encoded_segment(segment@) == out@ + encoded_bytes(bytes@.skip(i as int)),
        decreases bytes@.len() - i,
    {
        let byte: u8 = bytes[i];
        let ghost before = out@;
        let ghost rest = bytes@.skip(i as int);
        let c: char = byte as char;
        if 0x20 < byte && byte < 0x7f && c != '"' && c != '#' && c != '%' && c != '/' && c != '<'
            && c != '>' && c != '?' && c != '`' && c != '{' && c != '}' {
            out.push(c);
        } else {
            out.append(percent_encoding::percent_encode_byte(byte));
        }
        i = i + 1;
        proof {
            assert(rest.drop_first() =~= bytes@.skip(i as int));
            assert(out@ =~= before + segment_piece(byte));
            assert(before + encoded_bytes(rest) =~= out@ + encoded_bytes(rest.drop_first()));
        }
    }
    proof {
        assert(out@ + encoded_bytes(bytes@.skip(i as int)) =~= out@);
    }
}

/// Text without the slashes at its end.
pub open spec fn without_trailing_slashes(text: Seq<char>) -> Seq<char>
    decreases text.len(),
{
    if text.len() > 0 && text.last() == '/' {
        without_trailing_slashes(text.drop_last())
    } else {
        text
    }
}

fn push_without_trailing_slashes(out: &mut String, text: &str)
    ensures
        final(out)@ == old(out)@ + without_trailing_slashes(text@),
{
    let chars = chars_of(text);
    let mut end: usize = chars.len();
    proof {
        assert(chars@.take(end as int) =~= chars@);
    }
    while end > 0 && chars[end - 1] == '/'
        invariant
            end <= chars@.len(),
            without_trailing_slashes(chars@) == without_trailing_slashes(chars@.take(end as int)),
        decreases end,
    {
        proof {
            assert(chars@.take(end as int).drop_last() =~= chars@.take(end - 1));
        }
        end = end - 1;
    }
    let ghost kept = chars@.take(end as int);
    for i in 0..end
        invariant
            end <= chars@.len(),
            kept == chars@.take(end as int),
            out@ == old(out)@ + kept.take(i as int),
    {
        out.push(chars[i]);
        proof {
            assert(out@ =~= old(out)@ + kept.take(i + 1));
        }
    }
    proof {
        assert(kept.take(end as int) =~= kept);
    }
}

/// The address of the comment threads of a pull request.
pub open spec fn threads_url_text(
    org_url: Seq<char>,
    project: Seq<char>,
    repository: Seq<char>,
    pull_request_id: int,
) -> Seq<char> {
    without_trailing_slashes(org_url) + "/"@ + encoded_segment(project)
        + "/_apis/git/repositories/"@ + encoded_segment(repository) + "/pullRequests/"@ + decimal(
        pull_request_id,
    ) + "/threads?api-version=7.1"@
}

/// The address to which a new thread on a pull request is posted.
pub fn threads_url(
    org_url: &str,
    project: &str,
    repository: &str,
    pull_request_id: i32,
) -> (url: String)
    ensures
        url@ == threads_url_text(org_url@, project@, repository@, pull_request_id as int),
{
    let mut url = String::new();
    push_without_trailing_slashes(&mut url, org_url);
    url.append("/");
    push_segment(&mut url, project);
    url.append("/_apis/git/repositories/");
    push_segment(&mut url, repository);
    url.append("/pullRequests/");
    push_decimal(&mut url, pull_request_id as i64);
    url.append("/threads?api-version=7.1");
    proof {
        assert(url@ =~= threads_url_text(
            org_url@,
            project@,
            repository@,
            pull_request_id as int,
        ));
    }
    url
}

/// Slashes at the end of the organization's URL make no difference.
pub proof fn law_trailing_slash_makes_no_difference(
    org_url: Seq<char>,
    project: Seq<char>,
    repository: Seq<char>,
    pull_request_id: int,
)
    ensures
        threads_url_text(org_url.push('/'), project, repository, pull_request_id)
            == threads_url_text(org_url, project, repository, pull_request_id),
{
    assert(org_url.push('/').drop_last() =~= org_url);
}

/// A character is one of those that part a URL: a slash, a question mark or a
/// number sign.
pub open spec fn is_url_delimiter(c: char) -> bool {
    c == '/' || c == '?' || c == '#'
}

proof fn lemma_encoded_bytes_have_no_delimiter(bytes: Seq<u8>)
    ensures
        forall|i: int|
            0 <= i < encoded_bytes(bytes).len() ==> !is_url_delimiter(
                #[trigger] encoded_bytes(bytes)[i],
            ),
    decreases bytes.len(),
{
    if bytes.len() > 0 {
        let piece = segment_piece(bytes[0]);
        let rest = encoded_bytes(bytes.drop_first());
        lemma_encoded_bytes_have_no_delimiter(bytes.drop_first());
        assert forall|i: int| 0 <= i < encoded_bytes(bytes).len() implies !is_url_delimiter(
            #[trigger] encoded_bytes(bytes)[i],
        ) by {
            if i < piece.len() {
                assert(encoded_bytes(bytes)[i] == piece[i]);
            } else {
                assert(encoded_bytes(bytes)[i] == rest[i - piece.len()]);
            }
        }
    }
}

/// No name can leave its segment: an encoded segment holds no character that parts
/// a URL.
pub proof fn law_segment_holds_no_delimiter(text: Seq<char>, i: int)
    requires
        0 <= i < encoded_segment(text).len(),
    ensures
        !is_url_delimiter(encoded_segment(text)[i]),
{
    lemma_encoded_bytes_have_no_delimiter(encode_utf8(text));
}

proof fn lemma_encoded_bytes_are_injective(a: Seq<u8>, b: Seq<u8>)
    requires
        encoded_bytes(a) == encoded_bytes(b),
    ensures
        a == b,
    decreases a.len(),
{
    let left = encoded_bytes(a);
    if a.len() == 0 || b.len() == 0 {
        assert(a.len() > 0 ==> left[0] == segment_piece(a[0])[0]);
        assert(b.len() > 0 ==> encoded_bytes(b)[0] == segment_piece(b[0])[0]);
        assert(a =~= b);
    } else {
        let p = segment_piece(a[0]);
        let q = segment_piece(b[0]);
        assert(left[0] == p[0]);
        assert(left[0] == q[0]);
        if !is_segment_byte(a[0]) {
            assert(left[1] == p[1] && left[2] == p[2]);
        }
        if !is_segment_byte(b[0]) {
            assert(left[1] == q[1] && left[2] == q[2]);
        }
        assert(a[0] == b[0]);
        assert(encoded_bytes(a.drop_first()) =~= left.skip(p.len() as int));
        assert(encoded_bytes(b.drop_first()) =~= left.skip(q.len() as int));
        lemma_encoded_bytes_are_injective(a.drop_first(), b.drop_first());
        assert(a =~= seq![a[0]] + a.drop_first());
        assert(b =~= seq![b[0]] + b.drop_first());
    }
}

/// Different names have different segments.
pub proof fn law_segments_tell_names_apart(a: Seq<char>, b: Seq<char>)
    requires
        encoded_segment(a) == encoded_segment(b),
    ensures
        a == b,
{
    lemma_encoded_bytes_are_injective(encode_utf8(a), encode_utf8(b));
    encode_utf8_decode_utf8(a);
    encode_utf8_decode_utf8(b);
}

/// Texts that part at their first slash part into the same pieces.
proof fn lemma_parts_at_slash(a: Seq<char>, s: Seq<char>, b: Seq<char>, t: Seq<char>)
    requires
        a + s == b + t,
        s.len() > 0 && s[0] == '/',
        t.len() > 0 && t[0] == '/',
        forall|i: int| 0 <= i < a.len() ==> #[trigger] a[i] != '/',
        forall|i: int| 0 <= i < b.len() ==> #[trigger] b[i] != '/',
    ensures
        a == b,
        s == t,
{
    let whole = a + s;
    if a.len() < b.len() {
        assert(whole[a.len() as int] == s[0]);
        assert(whole[a.len() as int] == b[a.len() as int]);
    } else if b.len() < a.len() {
        assert(whole[b.len() as int] == a[b.len() as int]);
        assert(whole[b.len() as int] == t[0]);
    }
    assert(a =~= whole.take(a.len() as int));
    assert(b =~= whole.take(a.len() as int));
    assert(s =~= whole.skip(a.len() as int));
    assert(t =~= whole.skip(a.len() as int));
}

/// Under one organization, an address belongs to one pull request of one repository
/// of one project.
pub proof fn law_url_addresses_one_pull_request(
    org_url: Seq<char>,
    project: Seq<char>,
    repository: Seq<char>,
    pull_request_id: int,
    other_project: Seq<char>,
    other_repository: Seq<char>,
    other_pull_request_id: int,
)
    requires
        threads_url_text(org_url, project, repository, pull_request_id) == threads_url_text(
            org_url,
            other_project,
            other_repository,
            other_pull_request_id,
        ),
    ensures
        project == other_project,
        repository == other_repository,
        pull_request_id == other_pull_request_id,
{
    reveal_strlit("/");
    reveal_strlit("/_apis/git/repositories/");
    reveal_strlit("/pullRequests/");
    reveal_strlit("/threads?api-version=7.1");
    let url = threads_url_text(org_url, project, repository, pull_request_id);
    let base = without_trailing_slashes(org_url) + "/"@;
    let id = decimal(pull_request_id);
    let other_id = decimal(other_pull_request_id);
    let id_tail = id + "/threads?api-version=7.1"@;
    let other_id_tail = other_id + "/threads?api-version=7.1"@;
    let repository_tail = "/pullRequests/"@ + id_tail;
    let other_repository_tail = "/pullRequests/"@ + other_id_tail;
    let project_tail = "/_apis/git/repositories/"@ + (encoded_segment(repository)
        + repository_tail);
    let other_project_tail = "/_apis/git/repositories/"@ + (encoded_segment(other_repository)
        + other_repository_tail);
    lemma_encoded_bytes_have_no_delimiter(encode_utf8(project));
    lemma_encoded_bytes_have_no_delimiter(encode_utf8(other_project));
    lemma_encoded_bytes_have_no_delimiter(encode_utf8(repository));
    lemma_encoded_bytes_have_no_delimiter(encode_utf8(other_repository));
    lemma_decimal_characters(pull_request_id);
    lemma_decimal_characters(other_pull_request_id);

    assert(url =~= base + (encoded_segment(project) + project_tail));
    assert(url =~= base + (encoded_segment(other_project) + other_project_tail));
    assert(encoded_segment(project) + project_tail =~= url.skip(base.len() as int));
    assert(encoded_segment(other_project) + other_project_tail =~= url.skip(base.len() as int));
    assert(project_tail[0] == '/' && other_project_tail[0] == '/');
    lemma_parts_at_slash(
        encoded_segment(project),
        project_tail,
        encoded_segment(other_project),
        other_project_tail,
    );
    law_segments_tell_names_apart(project, other_project);

    let n = "/_apis/git/repositories/"@.len() as int;
    assert(encoded_segment(repository) + repository_tail =~= project_tail.skip(n));
    assert(encoded_segment(other_repository) + other_repository_tail =~= other_project_tail.skip(
        n,
    ));
    assert(repository_tail[0] == '/' && other_repository_tail[0] == '/');
    lemma_parts_at_slash(
        encoded_segment(repository),
        repository_tail,
        encoded_segment(other_repository),
        other_repository_tail,
    );
    law_segments_tell_names_apart(repository, other_repository);

    let m = "/pullRequests/"@.len() as int;
    assert(id_tail =~= repository_tail.skip(m));
    assert(other_id_tail =~= other_repository_tail.skip(m));
    assert("/threads?api-version=7.1"@[0] == '/');
    lemma_parts_at_slash(
        id,
        "/threads?api-version=7.1"@,
        other_id,
        "/threads?api-version=7.1"@,
    );
    lemma_decimal_is_injective(pull_request_id, other_pull_request_id);
}

/// The character may stand for itself in a segment of a URL's path: a letter or a digit
/// of ASCII, or one of ``!$&'()*+,-.:;=@[\]^_|~``.
pub open spec fn stands_for_itself(c: char) -> bool {
    ||| '0' <= c && c <= '9'
    ||| 'A' <= c && c <= 'Z'
    ||| 'a' <= c && c <= 'z'
    ||| c == '!' || c == '$' || c == '&' || c == '\'' || c == '(' || c == ')' || c == '*'
    ||| c == '+' || c == ',' || c == '-' || c == '.' || c == ':' || c == ';' || c == '='
    ||| c == '@' || c == '[' || c == '\\' || c == ']' || c == '^' || c == '_' || c == '|'
    ||| c == '~'
}

/// What a hexadecimal digit in upper case is worth.
pub open spec fn hex_value(c: char) -> int {
    if '0' <= c && c <= '9' {
        c as u32 - '0' as u32
    } else if 'A' <= c && c <= 'F' {
        c as u32 - 'A' as u32 + 10
    } else {
        -1
    }
}

/// At index `at` of the text stand a percent sign and the two hexadecimal digits of the
/// byte.
pub open spec fn is_escaped_at(text: Seq<char>, at: int, byte: u8) -> bool {
    let high = hex_value(text[at + 1]);
    let low = hex_value(text[at + 2]);
    &&& text[at] == '%'
    &&& 0 <= high < 16 && 0 <= low < 16
    &&& 16 * high + low == byte
}

/// The text writes each of the bytes as a percent sign and two hexadecimal digits.
pub open spec fn escapes_each(text: Seq<char>, bytes: Seq<u8>) -> bool {
    &&& text.len() == 3 * bytes.len()
    &&& forall|k: int| 0 <= k < bytes.len() ==> is_escaped_at(text, 3 * k, #[trigger] bytes[k])
}

proof fn lemma_encode_utf8_joins(a: Seq<char>, b: Seq<char>)
    ensures
        encode_utf8(a + b) == encode_utf8(a) + encode_utf8(b),
    decreases a.len(),
{
    if a.len() == 0 {
        assert(a + b =~= b);
        assert(encode_utf8(a) + encode_utf8(b) =~= encode_utf8(b));
    } else {
        lemma_encode_utf8_joins(a.drop_first(), b);
        assert((a + b).drop_first() =~= a.drop_first() + b);
        assert(encode_utf8(a + b) =~= encode_utf8(a) + encode_utf8(b));
    }
}

proof fn lemma_encoded_bytes_join(a: Seq<u8>, b: Seq<u8>)
    ensures
        encoded_bytes(a + b) == encoded_bytes(a) + encoded_bytes(b),
    decreases a.len(),
{
    if a.len() == 0 {
        assert(a + b =~= b);
        assert(encoded_bytes(a) + encoded_bytes(b) =~= encoded_bytes(b));
    } else {
        lemma_encoded_bytes_join(a.drop_first(), b);
        assert((a + b).drop_first() =~= a.drop_first() + b);
        assert(encoded_bytes(a + b) =~= encoded_bytes(a) + encoded_bytes(b));
    }
}

/// A name is encoded piece by piece: how a part of it is written depends on nothing that
/// stands beside it.
pub proof fn law_segments_are_encoded_piece_by_piece(a: Seq<char>, b: Seq<char>)
    ensures
        encoded_segment(a + b) == encoded_segment(a) + encoded_segment(b),
{
    lemma_encode_utf8_joins(a, b);
    lemma_encoded_bytes_join(encode_utf8(a), encode_utf8(b));
}

proof fn lemma_hex_digit(n: int)
    requires
        0 <= n < 16,
    ensures
        hex_value(hex_digit(n)) == n,
{
}

/// Bytes that may not stand for themselves are all escaped.
proof fn lemma_escaped_bytes(bytes: Seq<u8>)
    requires
        forall|k: int| 0 <= k < bytes.len() ==> !is_segment_byte(#[trigger] bytes[k]),
    ensures
        escapes_each(encoded_bytes(bytes), bytes),
    decreases bytes.len(),
{
    if bytes.len() > 0 {
        let rest = bytes.drop_first();
        let text = encoded_bytes(bytes);
        let tail = encoded_bytes(rest);
        let piece = segment_piece(bytes[0]);
        assert forall|k: int| 0 <= k < rest.len() implies !is_segment_byte(
            #[trigger] rest[k],
        ) by {
            assert(rest[k] == bytes[k + 1]);
        }
        lemma_escaped_bytes(rest);
        assert(!is_segment_byte(bytes[0]));
        assert(piece.len() == 3);
        assert(text =~= piece + tail);
        assert forall|k: int| 0 <= k < bytes.len() implies is_escaped_at(
            text,
            3 * k,
            #[trigger] bytes[k],
        ) by {
            if k == 0 {
                lemma_hex_digit(bytes[0] as int / 16);
                lemma_hex_digit(bytes[0] as int % 16);
                assert(text[0] == piece[0] && text[1] == piece[1] && text[2] == piece[2]);
            } else {
                assert(rest[k - 1] == bytes[k]);
                assert(is_escaped_at(tail, 3 * (k - 1), rest[k - 1]));
                assert(text[3 * k] == tail[3 * (k - 1)]);
                assert(text[3 * k + 1] == tail[3 * (k - 1) + 1]);
                assert(text[3 * k + 2] == tail[3 * (k - 1) + 2]);
            }
        }
    }
}

/// The bytes of a character beyond ASCII lie beyond ASCII.
proof fn lemma_bytes_beyond_ascii(c: char)
    requires
        c as u32 >= 0x80,
    ensures
        forall|k: int|
            0 <= k < encode_scalar(c as u32).len() ==> #[trigger] encode_scalar(c as u32)[k]
                >= 0x80,
{
    assert(forall|x: u8| 0xC0 | x >= 0x80) by (bit_vector);
    assert(forall|x: u8| 0xE0 | x >= 0x80) by (bit_vector);
    assert(forall|x: u8| 0xF0 | x >= 0x80) by (bit_vector);
    assert(forall|x: u8| 0x80 | x >= 0x80) by (bit_vector);
}

/// In a segment a character that may stand for itself does, and every other character is
/// written as the bytes of its UTF-8 encoding, each as a percent sign and two hexadecimal
/// digits.
pub proof fn law_each_character_has_its_place_in_a_segment(c: char)
    ensures
        stands_for_itself(c) ==> encoded_segment(seq![c]) == seq![c],
        !stands_for_itself(c) ==> escapes_each(encoded_segment(seq![c]), encode_utf8(seq![c])),
{
    let text = seq![c];
    let bytes = encode_utf8(text);
    assert(text.drop_first() =~= Seq::<char>::empty());
    assert(encode_utf8(Seq::<char>::empty()) =~= Seq::<u8>::empty());
    assert(bytes =~= encode_scalar(c as u32));
    if c <= '\u{7f}' {
        is_ascii_chars_encode_utf8(text);
        assert(text[0] as u8 == bytes[0]);
        assert(bytes.len() == 1);
        assert(bytes[0] as char == c);
        assert(stands_for_itself(c) == is_segment_byte(bytes[0]));
        if stands_for_itself(c) {
            assert(bytes.drop_first() =~= Seq::<u8>::empty());
            assert(encoded_bytes(Seq::<u8>::empty()) =~= Seq::<char>::empty());
            assert(encoded_bytes(bytes) =~= seq![c]);
        } else {
            lemma_escaped_bytes(bytes);
        }
    } else {
        lemma_bytes_beyond_ascii(c);
        assert forall|k: int| 0 <= k < bytes.len() implies !is_segment_byte(
            #[trigger] bytes[k],
        ) by {
            assert(encode_scalar(c as u32)[k] >= 0x80);
        }
        lemma_escaped_bytes(bytes);
    }
}

/// A name of characters that may all stand for themselves is its own segment.
pub proof fn law_plain_names_stand_for_themselves(name: Seq<char>)
    requires
        forall|i: int| 0 <= i < name.len() ==> stands_for_itself(#[trigger] name[i]),
    ensures
        encoded_segment(name) == name,
    decreases name.len(),
{
    if name.len() > 0 {
        let front = name.drop_last();
        law_plain_names_stand_for_themselves(front);
        law_each_character_has_its_place_in_a_segment(name.last());
        law_segments_are_encoded_piece_by_piece(front, seq![name.last()]);
        assert(front + seq![name.last()] =~= name);
    } else {
        assert(encoded_segment(name) =~= name);
    }
}

proof fn lemma_slashes_go(base: Seq<char>, slashes: Seq<char>)
    requires
        base.len() == 0 || base.last() != '/',
        forall|i: int| 0 <= i < slashes.len() ==> #[trigger] slashes[i] == '/',
    ensures
        without_trailing_slashes(base + slashes) == base,
    decreases slashes.len(),
{
    let whole = base + slashes;
    if slashes.len() == 0 {
        assert(whole =~= base);
    } else {
        lemma_slashes_go(base, slashes.drop_last());
        assert(slashes[slashes.len() - 1] == '/');
        assert(whole.last() == '/');
        assert(whole.drop_last() =~= base + slashes.drop_last());
    }
}

/// The address starts with the organization's URL, up to the slashes at its end, and goes
/// on with the project, the repository and the pull request, each in its place.
pub proof fn law_address_names_every_part(
    base: Seq<char>,
    slashes: Seq<char>,
    org_url: &str,
    project: &str,
    repository: &str,
    pull_request_id: i32,
    url: String,
)
    requires
        org_url@ == base + slashes,
        base.len() == 0 || base.last() != '/',
        forall|i: int| 0 <= i < slashes.len() ==> #[trigger] slashes[i] == '/',
        call_ensures(threads_url, (org_url, project, repository, pull_request_id), url),
    ensures
        url@ == base + "/"@ + encoded_segment(project@) + "/_apis/git/repositories/"@
            + encoded_segment(repository@) + "/pullRequests/"@ + decimal(pull_request_id as int)
            + "/threads?api-version=7.1"@,
{
    lemma_slashes_go(base, slashes);
}

/// A project and a repository whose names are plain stand in the address letter by letter.
pub proof fn law_plain_names_are_seen_in_the_address(
    org_url: &str,
    project: &str,
    repository: &str,
    pull_request_id: i32,
    url: String,
)
    requires
        org_url@.len() > 0 && org_url@.last() != '/',
        forall|i: int| 0 <= i < project@.len() ==> stands_for_itself(#[trigger] project@[i]),
        forall|i: int| 0 <= i < repository@.len() ==> stands_for_itself(#[trigger] repository@[i]),
        call_ensures(threads_url, (org_url, project, repository, pull_request_id), url),
    ensures
        url@ == org_url@ + "/"@ + project@ + "/_apis/git/repositories/"@ + repository@
            + "/pullRequests/"@ + decimal(pull_request_id as int) + "/threads?api-version=7.1"@,
{
    law_plain_names_stand_for_themselves(project@);
    law_plain_names_stand_for_themselves(repository@);
}

/// A segment is put behind what was there before.
pub proof fn law_segments_are_appended()
    ensures
        forall|out: &mut String, segment: &str| #[trigger]
            call_ensures(push_segment, (out, segment), ()) ==> final(out)@ == out@
                + encoded_segment(segment@),
{
}

} // verus!
