use rdns::blockparse::{parse_line, parse_source_text};
use rdns::fingerprint::fingerprint;

fn fp(name: &[u8]) -> u64 {
    fingerprint(&name.to_vec())
}

#[test]
fn hosts_file_line() {
    let line = b"0.0.0.0 ads.example.com".to_vec();
    assert_eq!(parse_line(&line), vec![fp(b"ads.example.com")]);
}

#[test]
fn hosts_file_line_with_comment() {
    let line = b"127.0.0.1 tracker.example.org # banner farm".to_vec();
    assert_eq!(parse_line(&line), vec![fp(b"tracker.example.org")]);
}

#[test]
fn tab_delimited_line() {
    let line = b"0.0.0.0\tads.example.net".to_vec();
    assert_eq!(parse_line(&line), vec![fp(b"ads.example.net")]);
}

#[test]
fn bare_domain_line() {
    let line = b"ads.example.com".to_vec();
    assert_eq!(parse_line(&line), vec![fp(b"ads.example.com")]);
}

#[test]
fn bare_domain_with_surrounding_whitespace() {
    let line = b"  ads.example.com \r".to_vec();
    assert_eq!(parse_line(&line), vec![fp(b"ads.example.com")]);
}

#[test]
fn several_domains_after_the_address_column() {
    let line = b"0.0.0.0 one.example.com two.example.com".to_vec();
    assert_eq!(
        parse_line(&line),
        vec![fp(b"one.example.com"), fp(b"two.example.com")]
    );
}

#[test]
fn comment_and_blank_lines_yield_nothing() {
    assert_eq!(parse_line(&b"# a comment".to_vec()), Vec::<u64>::new());
    assert_eq!(parse_line(&b"".to_vec()), Vec::<u64>::new());
    assert_eq!(parse_line(&b"   ".to_vec()), Vec::<u64>::new());
}

#[test]
fn garbage_tokens_are_skipped_not_fatal() {
    let line = b"0.0.0.0 good.example.com bad..name http://x".to_vec();
    assert_eq!(parse_line(&line), vec![fp(b"good.example.com")]);
}

#[test]
fn whole_body_is_parsed_line_by_line() {
    let text = b"# list\n0.0.0.0 one.example.com\n\ntwo.example.com # inline\n".to_vec();
    assert_eq!(
        parse_source_text(&text),
        vec![fp(b"one.example.com"), fp(b"two.example.com")]
    );
}

#[test]
fn crlf_bodies_are_tolerated() {
    let text = b"0.0.0.0 one.example.com\r\ntwo.example.com\r\n".to_vec();
    assert_eq!(
        parse_source_text(&text),
        vec![fp(b"one.example.com"), fp(b"two.example.com")]
    );
}
