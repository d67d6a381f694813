use lms_discovery::attempt::{Action, Attempt, Event, Phase};
use lms_discovery::client::{DiscoveryError, DiscoveryResult};
use lms_discovery::codec::{DecodeError, DiscoveryRequest};
use lms_discovery::tag::Tag;
use lms_discovery::wire::{DISCOVERY_PORT, HEADER_LEN, REQUEST_MARKER};

fn name_and_json() -> DiscoveryRequest {
    DiscoveryRequest::new(vec![Tag::name(), Tag::json()]).unwrap()
}

fn sent(timeout_ms: u64) -> Attempt {
    let mut attempt = Attempt::new(name_and_json(), timeout_ms);
    let _ = attempt.step(Event::Begin);
    attempt
}

#[test]
fn protocol_constants() {
    assert_eq!(DISCOVERY_PORT, 3483);
    assert_eq!(REQUEST_MARKER, b'e');
    assert_eq!(HEADER_LEN, 5);
}

#[test]
fn attempt_finds_a_server() {
    let mut attempt = Attempt::new(name_and_json(), 5000);
    assert_eq!(attempt.phase(), Phase::Idle);
    assert_eq!(attempt.step(Event::Begin), Action::Broadcast(b"eNAME\0JSON\0".to_vec()));
    assert_eq!(attempt.phase(), Phase::Sent);
    let action = attempt.step(Event::Datagram(b"NAME\x0cLyrion MinimJSON\x049000".to_vec()));
    assert_eq!(
        action,
        Action::Finish(Ok(DiscoveryResult { hostname: "Lyrion Minim".to_string(), port: 9000 }))
    );
    assert_eq!(attempt.phase(), Phase::Succeeded);
}

#[test]
fn attempt_with_the_standard_request_sends_all_four_tags() {
    let mut attempt = Attempt::new(DiscoveryRequest::standard(), 5000);
    assert_eq!(
        attempt.step(Event::Begin),
        Action::Broadcast(b"eNAME\0JSON\0UUID\0VERS\0".to_vec())
    );
}

#[test]
fn attempt_times_out_when_the_time_is_up() {
    let mut attempt = sent(500);
    assert_eq!(attempt.step(Event::Waited(500)), Action::Finish(Err(DiscoveryError::Timeout)));
    assert_eq!(attempt.phase(), Phase::TimedOut);
}

#[test]
fn attempt_does_not_time_out_early() {
    let mut attempt = sent(500);
    assert_eq!(attempt.step(Event::Waited(0)), Action::Wait(500));
    assert_eq!(attempt.step(Event::Waited(120)), Action::Wait(380));
    assert_eq!(attempt.step(Event::Waited(499)), Action::Wait(1));
    assert_eq!(attempt.phase(), Phase::Sent);
    assert_eq!(attempt.step(Event::Waited(501)), Action::Finish(Err(DiscoveryError::Timeout)));
    assert_eq!(attempt.phase(), Phase::TimedOut);
}

#[test]
fn attempt_with_no_time_allowed_times_out_at_once() {
    let mut attempt = sent(0);
    assert_eq!(attempt.step(Event::Waited(0)), Action::Finish(Err(DiscoveryError::Timeout)));
}

#[test]
fn attempt_waits_as_long_as_the_clock_can_count() {
    let mut attempt = sent(u64::MAX);
    assert_eq!(attempt.step(Event::Waited(u64::MAX - 1)), Action::Wait(1));
    assert_eq!(
        attempt.step(Event::Waited(u64::MAX)),
        Action::Finish(Err(DiscoveryError::Timeout))
    );
}

#[test]
fn attempt_still_reads_a_reply_after_waiting() {
    let mut attempt = sent(500);
    assert_eq!(attempt.step(Event::Waited(300)), Action::Wait(200));
    let action = attempt.step(Event::Datagram(b"JSON\x0280NAME\x01a".to_vec()));
    assert_eq!(action, Action::Finish(Ok(DiscoveryResult { hostname: "a".to_string(), port: 80 })));
}

#[test]
fn attempt_fails_on_a_reply_it_cannot_use() {
    let mut attempt = sent(500);
    let action = attempt.step(Event::Datagram(b"NAME\x03lms".to_vec()));
    assert_eq!(action, Action::Finish(Err(DiscoveryError::MissingField)));
    assert_eq!(attempt.phase(), Phase::Failed(DiscoveryError::MissingField));

    let mut attempt = sent(500);
    let action = attempt.step(Event::Datagram(b"NAME\x09lms".to_vec()));
    let reason = DiscoveryError::MalformedReply(DecodeError::TruncatedEntry);
    assert_eq!(action, Action::Finish(Err(reason)));
    assert_eq!(attempt.phase(), Phase::Failed(reason));

    let mut attempt = sent(500);
    let action = attempt.step(Event::Datagram(b"NAME\x01\xfeJSON\x0280".to_vec()));
    let reason = DiscoveryError::MalformedReply(DecodeError::InvalidEncoding);
    assert_eq!(action, Action::Finish(Err(reason)));
    assert_eq!(attempt.phase(), Phase::Failed(reason));
}

#[test]
fn attempt_fails_when_the_socket_fails() {
    let mut attempt = Attempt::new(name_and_json(), 500);
    assert_eq!(
        attempt.step(Event::SocketFailed),
        Action::Finish(Err(DiscoveryError::SocketError))
    );
    assert_eq!(attempt.phase(), Phase::Failed(DiscoveryError::SocketError));

    let mut attempt = sent(500);
    assert_eq!(
        attempt.step(Event::SocketFailed),
        Action::Finish(Err(DiscoveryError::SocketError))
    );
    assert_eq!(attempt.phase(), Phase::Failed(DiscoveryError::SocketError));
}

#[test]
fn attempt_ignores_what_cannot_happen_before_sending() {
    let mut attempt = Attempt::new(name_and_json(), 500);
    assert_eq!(attempt.step(Event::Waited(900)), Action::Ignore);
    assert_eq!(
        attempt.step(Event::Datagram(b"NAME\x01aJSON\x0280".to_vec())),
        Action::Ignore
    );
    assert_eq!(attempt.phase(), Phase::Idle);
    assert_eq!(attempt.step(Event::Begin), Action::Broadcast(b"eNAME\0JSON\0".to_vec()));
}

#[test]
fn attempt_sends_only_once() {
    let mut attempt = sent(500);
    assert_eq!(attempt.step(Event::Begin), Action::Ignore);
    assert_eq!(attempt.phase(), Phase::Sent);
}

#[test]
fn attempt_that_has_ended_ignores_everything() {
    let reply = b"NAME\x01aJSON\x0280".to_vec();
    let mut done = sent(500);
    let _ = done.step(Event::Datagram(reply.clone()));
    let mut failed = sent(500);
    let _ = failed.step(Event::SocketFailed);
    let mut timed_out = sent(500);
    let _ = timed_out.step(Event::Waited(500));
    for attempt in [&mut done, &mut failed, &mut timed_out] {
        let before = attempt.phase();
        assert_ne!(before, Phase::Idle);
        assert_ne!(before, Phase::Sent);
        assert_eq!(attempt.step(Event::Begin), Action::Ignore);
        assert_eq!(attempt.step(Event::SocketFailed), Action::Ignore);
        assert_eq!(attempt.step(Event::Datagram(reply.clone())), Action::Ignore);
        assert_eq!(attempt.step(Event::Waited(10_000)), Action::Ignore);
        assert_eq!(attempt.phase(), before);
    }
}
