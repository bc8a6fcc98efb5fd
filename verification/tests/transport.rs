use new_p2p_crawler::address::Transport;
use new_p2p_crawler::io_error::{IoError, IoErrorKind};
use new_p2p_crawler::protocol::frame;
use new_p2p_crawler::transport::{
    answer_ping, check_sam_reply, check_socks5_greeting, envelope_limit_secs, new_session_id,
    parse_command, read_envelope, receive_step, sam_hello_command, sam_line_step,
    sam_session_command, sam_session_lost, sam_stream_command, session_id, socks5_greeting,
    socks5_named_tail, socks5_reply_head, socks5_request, ReadEvent, ReceiveBuffer, ReceiveStep,
    SamRequest, Socks5Tail,
};

#[test]
fn frames_read_back() {
    let bytes = frame("addrv2", &[1, 2, 3]).unwrap();
    let (env, used) = read_envelope(&bytes).unwrap().unwrap();
    assert_eq!(env.command, "addrv2");
    assert_eq!(env.payload, vec![1, 2, 3]);
    assert_eq!(used, bytes.len());
}

#[test]
fn chunks_do_not_matter() {
    let mut stream = frame("version", &[9; 40]).unwrap();
    stream.extend_from_slice(&frame("verack", &[]).unwrap());
    stream.extend_from_slice(&frame("ping", &[1; 8]).unwrap());
    for size in [1, 7, 24, 25, 1000] {
        let mut buffer = ReceiveBuffer::new();
        let mut seen = Vec::new();
        for chunk in stream.chunks(size) {
            buffer.append(chunk, 0);
            while let Some(env) = buffer.next_envelope(0).unwrap() {
                seen.push((env.command, env.payload.len()));
            }
        }
        assert_eq!(
            seen,
            vec![
                ("version".to_string(), 40),
                ("verack".to_string(), 0),
                ("ping".to_string(), 8)
            ]
        );
        assert!(!buffer.has_partial_envelope());
    }
}

#[test]
fn broken_envelopes_are_refused() {
    let good = frame("ping", &[0; 8]).unwrap();
    let message = |bytes: &[u8]| read_envelope(bytes).unwrap_err();
    let mut magic = good.clone();
    magic[0] = 0;
    assert_eq!(
        message(&magic).message,
        "network magic mismatch (stream desynchronized)"
    );
    assert_eq!(message(&magic).kind, IoErrorKind::InvalidData);
    let mut command = good.clone();
    command[9] = b'x';
    assert_eq!(
        message(&command).message,
        "command field is not NUL-padded printable ASCII"
    );
    let mut size = good.clone();
    size[16..20].copy_from_slice(&4_000_001u32.to_le_bytes());
    assert_eq!(
        message(&size).message,
        "payload length 4000001 exceeds 4 MiB"
    );
    let mut sum = good.clone();
    sum[31] = 1;
    assert_eq!(message(&sum).message, "payload checksum mismatch");
    assert!(read_envelope(&good[..31]).unwrap().is_none());
    assert!(read_envelope(&good[..23]).unwrap().is_none());
}

#[test]
fn command_fields_are_padded_printable_ascii() {
    assert_eq!(parse_command(b"ping\0\0\0\0\0\0\0\0").unwrap(), "ping");
    assert_eq!(parse_command(b"twelve-chars").unwrap(), "twelve-chars");
    assert_eq!(parse_command(&[0; 12]).unwrap(), "");
    assert!(parse_command(b"pi\0g\0\0\0\0\0\0\0\0").is_none());
    assert!(parse_command(b"pi\xffg\0\0\0\0\0\0\0\0").is_none());
}

#[test]
fn waiting_for_bytes_keeps_what_has_arrived() {
    let bytes = frame("pong", &[4; 8]).unwrap();
    let mut buffer = ReceiveBuffer::new();
    let step = receive_step(&mut buffer, ReadEvent::TimedOut, 500, 30);
    assert!(matches!(step, ReceiveStep::Quiet));
    let step = receive_step(&mut buffer, ReadEvent::Chunk(bytes[..10].to_vec()), 100, 30);
    assert!(matches!(step, ReceiveStep::Wait));
    let step = receive_step(&mut buffer, ReadEvent::TimedOut, 129, 30);
    assert!(matches!(step, ReceiveStep::Quiet));
    assert!(buffer.has_partial_envelope());
    // One more byte does not restart the clock.
    let step = receive_step(&mut buffer, ReadEvent::Chunk(bytes[10..11].to_vec()), 129, 30);
    assert!(matches!(step, ReceiveStep::Wait));
    match receive_step(&mut buffer, ReadEvent::TimedOut, 130, 30) {
        ReceiveStep::Fail(e) => assert_eq!(e.kind, IoErrorKind::TimedOut),
        _ => panic!("an overdue envelope has to fail"),
    }
    match receive_step(&mut buffer, ReadEvent::Chunk(bytes[11..12].to_vec()), 131, 30) {
        ReceiveStep::Fail(e) => assert_eq!(e.message, "incomplete envelope timed out"),
        _ => panic!("an overdue envelope has to fail"),
    }
    match receive_step(&mut buffer, ReadEvent::Chunk(bytes[12..].to_vec()), 132, 30) {
        ReceiveStep::Message(env) => assert_eq!(env.payload, vec![4; 8]),
        _ => panic!("the envelope is complete"),
    }
    assert!(!buffer.is_overdue(1000, 30));
    match receive_step(&mut buffer, ReadEvent::Closed, 132, 30) {
        ReceiveStep::Fail(e) => {
            assert_eq!(e.kind, IoErrorKind::UnexpectedEof);
            assert_eq!(e.message, "early eof");
        }
        _ => panic!("a closed stream has to fail"),
    }
    let failed = IoError::new(IoErrorKind::BrokenPipe, "gone");
    match receive_step(&mut buffer, ReadEvent::Failed(failed), 132, 30) {
        ReceiveStep::Fail(e) => assert_eq!(e.message, "gone"),
        _ => panic!("a failed stream has to fail"),
    }
    match receive_step(&mut buffer, ReadEvent::Chunk(vec![0; 24]), 132, 30) {
        ReceiveStep::Fail(e) => assert_eq!(e.kind, IoErrorKind::InvalidData),
        _ => panic!("zeros are no envelope"),
    }
}

#[test]
fn envelope_limits_grow_with_the_transport() {
    assert_eq!(envelope_limit_secs(Transport::Ip), 30);
    assert_eq!(envelope_limit_secs(Transport::Tor), 60);
    assert_eq!(envelope_limit_secs(Transport::I2p), 90);
}

#[test]
fn pings_are_answered_by_protocol_version() {
    let nonce = [1u8, 2, 3, 4, 5, 6, 7, 8];
    assert_eq!(answer_ping(&nonce, 60001).unwrap(), Some(nonce.to_vec()));
    assert_eq!(answer_ping(&[], 60000).unwrap(), None);
    assert!(answer_ping(&nonce[..7], 70016).is_err());
    assert!(answer_ping(&[], 70016).is_err());
    let e = answer_ping(&nonce, 60000).unwrap_err();
    assert_eq!(e.kind, IoErrorKind::InvalidData);
}

#[test]
fn socks5_dialogue() {
    assert_eq!(socks5_greeting(), [5, 1, 0]);
    assert!(check_socks5_greeting([5, 0]).is_ok());
    assert_eq!(
        check_socks5_greeting([5, 255]).unwrap_err().message,
        "socks5 method selection failed: [05, ff]"
    );
    let req = socks5_request("ab.onion", 8333).unwrap();
    let mut want = vec![5, 1, 0, 3, 8];
    want.extend_from_slice(b"ab.onion");
    want.extend_from_slice(&[0x20, 0x8d]);
    assert_eq!(req, want);
    assert!(socks5_request(&"x".repeat(255), 1).is_ok());
    assert_eq!(
        socks5_request(&"x".repeat(256), 1).unwrap_err().message,
        "socks5 host too long"
    );
    assert_eq!(socks5_reply_head([5, 0, 0, 1]).unwrap(), Socks5Tail::Fixed(6));
    assert_eq!(socks5_reply_head([5, 0, 0, 4]).unwrap(), Socks5Tail::Fixed(18));
    assert_eq!(socks5_reply_head([5, 0, 0, 3]).unwrap(), Socks5Tail::Named);
    assert_eq!(socks5_named_tail(255), 257);
    assert_eq!(
        socks5_reply_head([5, 5, 0, 1]).unwrap_err().message,
        "socks5 connect failed: REP=0x05"
    );
    assert_eq!(
        socks5_reply_head([5, 0, 0, 9]).unwrap_err().message,
        "socks5 reply unknown ATYP 9"
    );
}

#[test]
fn sam_commands_and_replies() {
    assert_eq!(sam_hello_command(), "HELLO VERSION MIN=3.0 MAX=3.1\n");
    assert_eq!(session_id(42), "crawler42");
    assert_eq!(
        sam_session_command("crawler42"),
        "SESSION CREATE STYLE=STREAM ID=crawler42 DESTINATION=TRANSIENT SIGNATURE_TYPE=7\n"
    );
    assert_eq!(
        sam_stream_command("crawler42", "x.b32.i2p"),
        "STREAM CONNECT ID=crawler42 DESTINATION=x.b32.i2p SILENT=false\n"
    );
    assert!(check_sam_reply(SamRequest::Hello, "HELLO REPLY RESULT=OK VERSION=3.1").is_ok());
    assert!(check_sam_reply(SamRequest::Session, "HELLO REPLY RESULT=OK").is_err());
    let e = check_sam_reply(SamRequest::Stream, " STREAM STATUS RESULT=INVALID_ID \r").unwrap_err();
    assert_eq!(
        e.message,
        "SAM stream connect failed: STREAM STATUS RESULT=INVALID_ID"
    );
    assert!(check_sam_reply(SamRequest::Stream, "STREAM STATUS RESULT=TIMEOUT").is_err());
    assert!(sam_session_lost("crawler42", "crawler42", false));
    assert!(!sam_session_lost("crawler42", "crawler42", true));
    assert!(!sam_session_lost("crawler43", "crawler42", false));
    assert_eq!(
        check_sam_reply(SamRequest::Session, "x").unwrap_err().message,
        "SAM session create failed: x"
    );
    assert_eq!(
        check_sam_reply(SamRequest::Hello, "x").unwrap_err().message,
        "SAM HELLO failed: x"
    );
}

#[test]
fn session_ids_are_drawn_anew() {
    let ids: Vec<String> = (0..8).map(|_| new_session_id()).collect();
    assert!(ids.iter().all(|id| id.starts_with("crawler")));
    assert!(ids.iter().any(|id| *id != ids[0]));
}

#[test]
fn sam_lines_end_with_a_newline() {
    let mut line = Vec::new();
    for b in b"OK" {
        assert!(sam_line_step(&mut line, Some(*b)).unwrap().is_none());
    }
    assert_eq!(sam_line_step(&mut line, Some(b'\n')).unwrap().unwrap(), "OK");
    let mut broken = vec![b'a', 0xff];
    assert_eq!(
        sam_line_step(&mut broken, Some(b'\n')).unwrap().unwrap(),
        "a\u{fffd}"
    );
    let e = sam_line_step(&mut line, None).unwrap_err();
    assert_eq!(e.kind, IoErrorKind::UnexpectedEof);
    let mut long = vec![b'x'; 4095];
    assert!(sam_line_step(&mut long, Some(b'x')).unwrap().is_none());
    let e = sam_line_step(&mut long, Some(b'x')).unwrap_err();
    assert_eq!(e.message, "SAM line too long");
}
