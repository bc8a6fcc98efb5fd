use new_p2p_crawler::dialogue::{
    acknowledgements, own_version, CollectStep, Collection, Handshake, HandshakeEnd, HandshakeSend, HandshakeStep,
};
use new_p2p_crawler::io_error::{IoError, IoErrorKind};
use new_p2p_crawler::protocol::{build_version, parse_version, AddrParseError};
use new_p2p_crawler::store::{CollectionOutcome, FailKind};
use new_p2p_crawler::transport::Envelope;

fn message(command: &str, payload: Vec<u8>) -> Envelope {
    Envelope {
        command: command.to_string(),
        payload,
    }
}

#[test]
fn handshake_runs_to_completion() {
    let mut h = Handshake::new();
    assert!(h.peer().is_none());
    assert!(matches!(h.on_message(&message("ping", vec![1; 3])), HandshakeStep::Wait));
    match h.on_message(&message("ping", vec![1, 2, 3, 4, 5, 6, 7, 8])) {
        HandshakeStep::Pong(p) => assert_eq!(p, vec![1, 2, 3, 4, 5, 6, 7, 8]),
        _ => panic!("a ping is answered before the version"),
    }
    assert!(h.peer().is_none());
    assert!(matches!(h.on_message(&message("verack", vec![])), HandshakeStep::Wait));
    assert!(matches!(h.on_deadline(), HandshakeEnd::Timeout));
    let step = h.on_message(&message("version", build_version(1, 2)));
    assert!(matches!(step, HandshakeStep::Acknowledge { negotiate: true }));
    assert_eq!(h.peer().unwrap().version, 70016);
    match h.on_message(&message("ping", vec![5; 8])) {
        HandshakeStep::Pong(p) => assert_eq!(p, vec![5; 8]),
        _ => panic!("a ping is answered"),
    }
    assert!(matches!(
        h.on_message(&message("wtxidrelay", vec![])),
        HandshakeStep::Wait
    ));
    match h.on_deadline() {
        HandshakeEnd::Failed { kind, .. } => assert_eq!(kind, FailKind::PeerVerackTimeout),
        HandshakeEnd::Timeout => panic!("the peer was not silent"),
    }
    assert!(matches!(h.on_message(&message("verack", vec![])), HandshakeStep::Complete));
}

#[test]
fn handshake_failures() {
    let mut h = Handshake::new();
    match h.on_message(&message("version", vec![1, 2])) {
        HandshakeStep::Fail { kind, detail } => {
            assert_eq!(kind, FailKind::MalformedVersion);
            assert_eq!(detail, "peer version payload could not be parsed");
        }
        _ => panic!("the payload is cut short"),
    }
    let mut old = build_version(1, 2);
    old[..4].copy_from_slice(&70015i32.to_le_bytes());
    let step = h.on_message(&message("version", old));
    assert!(matches!(step, HandshakeStep::Acknowledge { negotiate: false }));
    match h.on_message(&message("ping", vec![5; 7])) {
        HandshakeStep::Fail { kind, .. } => assert_eq!(kind, FailKind::ProtocolDesync),
        _ => panic!("a nonce has eight bytes"),
    }
    let sends = [
        (HandshakeSend::Version, FailKind::VersionSendFailed),
        (HandshakeSend::SendAddrV2, FailKind::NegotiationSendFailed),
        (HandshakeSend::Verack, FailKind::VerackSendFailed),
        (HandshakeSend::Pong, FailKind::ConnectionClosed),
    ];
    for (what, want) in sends {
        let e = IoError::new(IoErrorKind::BrokenPipe, "gone");
        match h.on_send_error(what, e) {
            HandshakeEnd::Failed { kind, detail } => {
                assert_eq!(kind, want);
                assert_eq!(detail, "gone");
            }
            HandshakeEnd::Timeout => panic!("sending failed"),
        }
    }
    match h.on_error(IoError::new(IoErrorKind::InvalidData, "x")) {
        HandshakeEnd::Failed { kind, .. } => assert_eq!(kind, FailKind::ProtocolDesync),
        HandshakeEnd::Timeout => panic!("receiving failed"),
    }
}

#[test]
fn acknowledgements_come_in_order() {
    let commands = |negotiate| -> Vec<&'static str> {
        acknowledgements(negotiate)
            .into_iter()
            .map(|what| what.command())
            .collect()
    };
    assert_eq!(commands(true), vec!["sendaddrv2", "verack"]);
    assert_eq!(commands(false), vec!["verack"]);
    assert_eq!(HandshakeSend::Version.command(), "version");
    assert_eq!(HandshakeSend::Pong.command(), "pong");
}

#[test]
fn unsent_request_for_addresses() {
    assert_eq!(Collection::new().on_send_error(), CollectionOutcome::SendFailed);
}

#[test]
fn nonces_are_drawn_anew() {
    let nonces: Vec<Option<u64>> = (0..4)
        .map(|_| parse_version(&own_version(7)).unwrap().nonce)
        .collect();
    assert!(nonces.iter().any(|n| *n != nonces[0]));
    assert_eq!(parse_version(&own_version(7)).unwrap().timestamp, 7);
}

#[test]
fn collection_outcomes_before_and_after_an_answer() {
    let mut c = Collection::new();
    assert_eq!(c.on_deadline(), CollectionOutcome::HardTimeout);
    assert_eq!(c.on_quiet(false), CollectionOutcome::NoResponseTimeout);
    assert_eq!(c.on_quiet(true), CollectionOutcome::IncompleteEnvelopeTimeout);
    let late = IoError::new(IoErrorKind::TimedOut, "");
    let gone = IoError::new(IoErrorKind::UnexpectedEof, "");
    assert_eq!(c.on_error(&late), CollectionOutcome::IncompleteEnvelopeTimeout);
    assert_eq!(c.on_error(&gone), CollectionOutcome::RemoteDisconnect);
    assert_eq!(c.on_pong_error(), CollectionOutcome::RemoteDisconnect);
    assert_eq!(c.on_malformed(true), CollectionOutcome::MalformedResponse);
    assert_eq!(c.on_malformed(false), CollectionOutcome::LogFailed);
    assert_eq!(c.on_recorded(5, false), Some(CollectionOutcome::LogFailed));
    assert_eq!(c.on_recorded(1, true), None);
    assert_eq!(c.on_deadline(), CollectionOutcome::PartialHardTimeout);
    assert_eq!(c.on_quiet(false), CollectionOutcome::CompleteQuiet);
    assert_eq!(
        c.on_quiet(true),
        CollectionOutcome::PartialIncompleteEnvelopeTimeout
    );
    assert_eq!(
        c.on_error(&late),
        CollectionOutcome::PartialIncompleteEnvelopeTimeout
    );
    assert_eq!(c.on_error(&gone), CollectionOutcome::PartialRemoteDisconnect);
    assert_eq!(c.on_malformed(true), CollectionOutcome::PartialMalformedResponse);
    assert_eq!(c.on_recorded(2, true), Some(CollectionOutcome::CompleteQuiet));
}

#[test]
fn collection_reads_both_kinds_of_addresses() {
    let c = Collection::new();
    match c.on_message(&message("addr", vec![0]), 70016) {
        CollectStep::Addresses(m) => assert_eq!(m.addrs.len(), 0),
        _ => panic!("an empty message is valid"),
    }
    let mut v2 = vec![1, 0, 0, 0, 0, 0, 1, 4, 1, 2, 3, 4];
    v2.extend_from_slice(&[0x20, 0x8d]);
    match c.on_message(&message("addrv2", v2.clone()), 70016) {
        CollectStep::Addresses(m) => assert_eq!(m.addrs[0].host, "1.2.3.4"),
        _ => panic!("the message is valid"),
    }
    match c.on_message(&message("addr", v2), 70016) {
        CollectStep::Malformed(e) => assert_eq!(e, AddrParseError::NonCanonicalOrTruncated),
        _ => panic!("not a legacy message"),
    }
    assert!(matches!(
        c.on_message(&message("ping", vec![0; 8]), 70016),
        CollectStep::Pong(_)
    ));
    assert!(matches!(c.on_message(&message("ping", vec![]), 60000), CollectStep::Wait));
    assert!(matches!(
        c.on_message(&message("ping", vec![]), 70016),
        CollectStep::End(CollectionOutcome::RemoteDisconnect)
    ));
    assert!(matches!(c.on_message(&message("inv", vec![]), 70016), CollectStep::Wait));
}
