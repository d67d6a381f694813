use lms_discovery::client::{parse_hostname, parse_reply, DiscoveryError, DiscoveryResult};
use lms_discovery::codec::{decode, DecodeError, DiscoveryRequest};
use lms_discovery::tag::Tag;
use lms_discovery::text::{is_text, read_text};

fn name_and_json() -> DiscoveryRequest {
    DiscoveryRequest::new(vec![Tag::name(), Tag::json()]).unwrap()
}

fn found(hostname: &str, port: u16) -> Result<DiscoveryResult, DiscoveryError> {
    Ok(DiscoveryResult { hostname: hostname.to_string(), port })
}

#[test]
fn reply_with_name_and_port_is_a_server() {
    let payload = b"NAME\x0cLyrion MinimJSON\x049000";
    assert_eq!(parse_reply(&name_and_json(), payload), found("Lyrion Minim", 9000));
}

#[test]
fn reply_in_the_other_order_is_the_same_server() {
    let payload = b"JSON\x049000UUID\x03abcNAME\x0cLyrion Minim";
    assert_eq!(
        parse_reply(&DiscoveryRequest::standard(), payload),
        found("Lyrion Minim", 9000)
    );
}

#[test]
fn reply_with_more_tags_than_asked_for_is_a_server() {
    let payload = b"IPAD\x04\xc0\xa8\x01\x02NAME\x03lmsVERS\x058.5.2JSON\x049001";
    assert_eq!(parse_reply(&name_and_json(), payload), found("lms", 9001));
}

#[test]
fn hostname_is_read_as_utf8() {
    let payload = "NAME\u{9}B\u{fc}ro \u{266b}JSON\u{4}9000".as_bytes();
    assert_eq!(
        parse_reply(&name_and_json(), payload),
        found("B\u{fc}ro \u{266b}", 9000)
    );
}

#[test]
fn hostname_may_be_empty() {
    assert_eq!(parse_reply(&name_and_json(), b"NAME\x00JSON\x0280"), found("", 80));
}

#[test]
fn missing_json_is_a_missing_field() {
    assert_eq!(
        parse_reply(&DiscoveryRequest::standard(), b"NAME\x03lmsUUID\x03abc"),
        Err(DiscoveryError::MissingField)
    );
}

#[test]
fn missing_name_is_a_missing_field() {
    assert_eq!(
        parse_reply(&DiscoveryRequest::standard(), b"JSON\x049000"),
        Err(DiscoveryError::MissingField)
    );
}

#[test]
fn empty_reply_is_a_missing_field() {
    assert_eq!(parse_reply(&DiscoveryRequest::standard(), b""), Err(DiscoveryError::MissingField));
}

#[test]
fn port_out_of_range_is_a_missing_field() {
    assert_eq!(
        parse_reply(&name_and_json(), b"NAME\x03lmsJSON\x0570000"),
        Err(DiscoveryError::MissingField)
    );
    assert_eq!(
        parse_reply(&name_and_json(), b"NAME\x03lmsJSON\x0565536"),
        Err(DiscoveryError::MissingField)
    );
    assert_eq!(parse_reply(&name_and_json(), b"NAME\x03lmsJSON\x0565535"), found("lms", 65535));
}

#[test]
fn port_that_is_no_number_is_a_missing_field() {
    assert_eq!(
        parse_reply(&name_and_json(), b"NAME\x03lmsJSON\x00"),
        Err(DiscoveryError::MissingField)
    );
    assert_eq!(
        parse_reply(&name_and_json(), b"NAME\x03lmsJSON\x04http"),
        Err(DiscoveryError::MissingField)
    );
}

#[test]
fn tag_that_was_not_asked_for_is_not_used() {
    let only_name = DiscoveryRequest::new(vec![Tag::name()]).unwrap();
    assert_eq!(
        parse_reply(&only_name, b"NAME\x03lmsJSON\x049000"),
        Err(DiscoveryError::MissingField)
    );
}

#[test]
fn truncated_reply_is_malformed() {
    assert_eq!(
        parse_reply(&name_and_json(), b"NAME\x0cLyrion MinimJSON\x04900"),
        Err(DiscoveryError::MalformedReply(DecodeError::TruncatedEntry))
    );
    assert_eq!(
        parse_reply(&name_and_json(), b"NAME\x0cLyrion MinimJSON"),
        Err(DiscoveryError::MalformedReply(DecodeError::TruncatedEntry))
    );
}

#[test]
fn reply_with_bad_text_is_malformed() {
    assert_eq!(
        parse_reply(&name_and_json(), b"NAME\x02\xc3\x28JSON\x049000"),
        Err(DiscoveryError::MalformedReply(DecodeError::InvalidEncoding))
    );
}

#[test]
fn last_port_wins() {
    assert_eq!(
        parse_reply(&name_and_json(), b"JSON\x0570000NAME\x03lmsJSON\x049000"),
        found("lms", 9000)
    );
    assert_eq!(
        parse_reply(&name_and_json(), b"JSON\x049000NAME\x03lmsJSON\x0570000"),
        Err(DiscoveryError::MissingField)
    );
}

#[test]
fn from_reply_picks_name_and_port() {
    let reply = decode(&DiscoveryRequest::standard(), b"VERS\x018JSON\x0280NAME\x01x").unwrap();
    assert_eq!(DiscoveryResult::from_reply(&reply), found("x", 80));
    assert_eq!(parse_hostname(&reply), Some("x".to_string()));
    let reply = decode(&DiscoveryRequest::standard(), b"VERS\x018JSON\x0280").unwrap();
    assert_eq!(DiscoveryResult::from_reply(&reply), Err(DiscoveryError::MissingField));
    assert_eq!(parse_hostname(&reply), None);
}

#[test]
fn text_is_utf8() {
    assert!(is_text(b""));
    assert!(is_text(b"plain"));
    assert!(is_text("\u{20ac}\u{1f3b5}".as_bytes()));
    assert!(!is_text(b"\x80"));
    assert!(!is_text(b"\xe2\x82"));
    assert!(!is_text(b"\xf5\x80\x80\x80"));
    assert!(!is_text(b"\xf4\x90\x80\x80"));
}

#[test]
fn read_text_gives_the_characters() {
    assert_eq!(read_text(b"caf\xc3\xa9"), Some("caf\u{e9}".to_string()));
    assert_eq!(read_text(b"\xe2\x82\xac"), Some("\u{20ac}".to_string()));
    assert_eq!(read_text(b"\xf0\x9f\x8e\xb5").map(|s| s.chars().count()), Some(1));
    assert_eq!(read_text(b""), Some(String::new()));
    assert_eq!(read_text(b"caf\xc3"), None);
    assert_eq!(read_text(b"\xed\xb0\x80"), None);
}
