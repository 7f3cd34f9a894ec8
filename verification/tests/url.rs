use add_pr_comment::url::{push_segment, threads_url};
use percent_encoding::{utf8_percent_encode, AsciiSet, CONTROLS};

const PATH_SEGMENT: &AsciiSet = &CONTROLS
    .add(b' ')
    .add(b'"')
    .add(b'#')
    .add(b'%')
    .add(b'/')
    .add(b'<')
    .add(b'>')
    .add(b'?')
    .add(b'`')
    .add(b'{')
    .add(b'}');

fn segment(text: &str) -> String {
    let mut out = String::new();
    push_segment(&mut out, text);
    out
}

#[test]
fn url_of_threads() {
    assert_eq!(
        threads_url("https://dev.azure.com/org", "My Project", "repo", 42),
        "https://dev.azure.com/org/My%20Project/_apis/git/repositories/repo/pullRequests/42/threads?api-version=7.1"
    );
}

#[test]
fn trailing_slashes_make_no_difference() {
    let plain = threads_url("https://dev.azure.com/org", "p", "r", 7);
    assert_eq!(threads_url("https://dev.azure.com/org/", "p", "r", 7), plain);
    assert_eq!(threads_url("https://dev.azure.com/org///", "p", "r", 7), plain);
    assert_eq!(
        threads_url("///", "p", "r", i32::MIN),
        "/p/_apis/git/repositories/r/pullRequests/-2147483648/threads?api-version=7.1"
    );
}

#[test]
fn segments_agree_with_the_encoding_crate() {
    for code in 0..0x250u32 {
        if let Some(c) = char::from_u32(code) {
            let text = format!("x{}y", c);
            assert_eq!(segment(&text), utf8_percent_encode(&text, PATH_SEGMENT).to_string());
        }
    }
    let text = "\u{20ac}/\u{1f600}?";
    assert_eq!(segment(text), utf8_percent_encode(text, PATH_SEGMENT).to_string());
}

#[test]
fn names_stay_in_their_segment() {
    assert_eq!(segment("a/b?c#d%2F"), "a%2Fb%3Fc%23d%252F");
    assert_eq!(segment("caf\u{e9}"), "caf%C3%A9");
    assert_eq!(segment("A-Z_a.z~0!$&'()*+,;=:@[]\\^|"), "A-Z_a.z~0!$&'()*+,;=:@[]\\^|");
    assert_eq!(segment(""), "");
}

#[test]
fn different_pull_requests_have_different_urls() {
    let url = threads_url("o", "a/b", "c", 1);
    assert_ne!(url, threads_url("o", "a%2Fb", "c", 1));
    assert_ne!(url, threads_url("o", "a", "b/c", 1));
    assert_ne!(url, threads_url("o", "a/b", "c", 11));
}
