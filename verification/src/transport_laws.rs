//! Laws of the envelope stream: what is framed is read back, however it is cut into chunks.
use vstd::prelude::*;
use vstd::utf8::encode_utf8;
use crate::address::Transport;
use crate::encoding::sha256_digest;
use crate::protocol::{
    checksum_of, command_field, frame_bytes, is_command, MAGIC, MAX_PROTOCOL_MESSAGE_LENGTH,
};
use crate::transport::{
    command_of, envelope_limit, envelope_of, fault_text, hex_pair, name_len, sam_failure_head,
    sam_reply_head, socks5_request_bytes, BufferView, EnvelopeFault, EnvelopeView, SamRequest,
};
use crate::text::{decimal, digit_value};
use crate::wire::{
    law_le_bytes_of_value, law_le_round_trip, le_at, le_bytes, lemma_powers_of_256,
};

verus! {

proof fn lemma_name_len(field: Seq<u8>, n: int)
    requires
        0 <= n <= field.len(),
        forall|i: int| 0 <= i < n ==> #[trigger] field[i] != 0,
        n < field.len() ==> field[n] == 0,
    ensures
        name_len(field) == n,
    decreases n,
{
    if n > 0 {
        assert(field[0] != 0);
        let rest = field.skip(1);
        assert forall|i: int| 0 <= i < n - 1 implies #[trigger] rest[i] != 0 by {
            assert(rest[i] == field[i + 1]);
        }
        lemma_name_len(rest, n - 1);
    }
}

proof fn lemma_command_field_reads_back(command: Seq<char>)
    requires
        is_command(command),
    ensures
        command_of(command_field(command)) == Some(command),
{
    let field = command_field(command);
    assert forall|i: int| 0 <= i < command.len() implies 0x20 <= #[trigger] field[i] <= 0x7e
        && field[i] as char == command[i] by {
        assert(' ' <= command[i] <= '~');
    }
    lemma_name_len(field, command.len() as int);
    assert(Seq::new(command.len(), |i: int| field[i] as char) =~= command);
}

/// A framed message reads back as the command and payload it was framed from, and leaves
/// exactly the bytes that followed it.
pub proof fn law_frame_reads_back(command: Seq<char>, payload: Seq<u8>, rest: Seq<u8>)
    requires
        is_command(command),
        payload.len() <= MAX_PROTOCOL_MESSAGE_LENGTH,
    ensures
        envelope_of(frame_bytes(command, payload) + rest) == Ok::<
            Option<(EnvelopeView, Seq<u8>)>,
            EnvelopeFault,
        >(Some((EnvelopeView { command, payload }, rest))),
{
    let buf = frame_bytes(command, payload) + rest;
    lemma_powers_of_256();
    law_le_round_trip(payload.len(), 4);
    lemma_command_field_reads_back(command);
    assert(buf.take(4) =~= MAGIC@);
    assert(buf.subrange(4, 16) =~= command_field(command));
    assert(buf.subrange(16, 20) =~= le_bytes(payload.len(), 4));
    assert(buf.subrange(20, 24) =~= checksum_of(payload));
    assert(buf.subrange(24, 24 + payload.len() as int) =~= payload);
    assert(buf.skip(24 + payload.len() as int) =~= rest);
}

/// More bytes change nothing about an envelope that is already complete, nor about a fault.
pub proof fn law_more_bytes_keep_envelope(buf: Seq<u8>, more: Seq<u8>)
    ensures
        match envelope_of(buf) {
            Ok(Some((env, rest))) => envelope_of(buf + more) == Ok::<
                Option<(EnvelopeView, Seq<u8>)>,
                EnvelopeFault,
            >(Some((env, rest + more))),
            Ok(None) => true,
            Err(fault) => envelope_of(buf + more) == Err::<
                Option<(EnvelopeView, Seq<u8>)>,
                EnvelopeFault,
            >(fault),
        },
{
    let all = buf + more;
    if buf.len() >= 24 {
        let length = le_at(buf, 16, 4) as int;
        assert(all.take(4) =~= buf.take(4));
        assert(all.subrange(4, 16) =~= buf.subrange(4, 16));
        assert(all.subrange(16, 20) =~= buf.subrange(16, 20));
        assert(all.subrange(20, 24) =~= buf.subrange(20, 24));
        if buf.len() >= 24 + length {
            assert(all.subrange(24, 24 + length) =~= buf.subrange(24, 24 + length));
            assert(all.skip(24 + length) =~= buf.skip(24 + length) + more);
        }
    }
}

/// Every envelope that can be handed out of `buf`, in order, and the bytes that stay.
pub open spec fn drained(buf: Seq<u8>) -> (Seq<EnvelopeView>, Seq<u8>)
    decreases buf.len(),
{
    match envelope_of(buf) {
        Ok(Some((env, rest))) => {
            let (later, left) = drained(rest);
            (seq![env] + later, left)
        },
        _ => (Seq::empty(), buf),
    }
}

/// Handing out envelopes after each chunk gives the same envelopes and leaves the same bytes
/// as handing them out after all of them.
pub proof fn law_chunks_do_not_matter(buf: Seq<u8>, more: Seq<u8>)
    ensures
        drained(buf + more).0 == drained(buf).0 + drained(drained(buf).1 + more).0,
        drained(buf + more).1 == drained(drained(buf).1 + more).1,
    decreases buf.len(),
{
    law_more_bytes_keep_envelope(buf, more);
    match envelope_of(buf) {
        Ok(Some((env, rest))) => {
            law_chunks_do_not_matter(rest, more);
            assert(drained(buf + more).0 =~= drained(buf).0 + drained(drained(buf).1 + more).0);
        },
        _ => {
            assert(drained(buf).0 + drained(buf + more).0 =~= drained(buf + more).0);
        },
    }
}

/// The bytes of messages sent one after the other.
pub open spec fn sent(messages: Seq<EnvelopeView>) -> Seq<u8>
    decreases messages.len(),
{
    if messages.len() == 0 {
        Seq::empty()
    } else {
        frame_bytes(messages[0].command, messages[0].payload) + sent(messages.skip(1))
    }
}

/// Messages sent one after the other are all handed out, in the order they were sent.
pub proof fn law_messages_arrive_in_order(messages: Seq<EnvelopeView>)
    requires
        forall|i: int|
            0 <= i < messages.len() ==> is_command((#[trigger] messages[i]).command)
                && messages[i].payload.len() <= MAX_PROTOCOL_MESSAGE_LENGTH,
    ensures
        drained(sent(messages)) == (messages, Seq::<u8>::empty()),
    decreases messages.len(),
{
    if messages.len() > 0 {
        let rest = messages.skip(1);
        assert forall|i: int| 0 <= i < rest.len() implies is_command((#[trigger] rest[i]).command)
            && rest[i].payload.len() <= MAX_PROTOCOL_MESSAGE_LENGTH by {
            assert(rest[i] == messages[i + 1]);
        }
        law_messages_arrive_in_order(rest);
        let first = messages[0];
        law_frame_reads_back(first.command, first.payload, sent(rest));
        assert(seq![first] + rest =~= messages);
    } else {
        assert(messages =~= Seq::<EnvelopeView>::empty());
    }
}

/// However an envelope trickles in, its clock runs from its first byte: a further chunk that
/// leaves it incomplete neither restarts the clock nor, once time is up, saves it.
pub proof fn law_trickling_does_not_extend_the_limit(
    b: BufferView,
    chunk: Seq<u8>,
    now: u64,
    limit: u64,
)
    requires
        b.since is Some,
    ensures
        b.with_chunk(chunk, now).since == b.since,
        b.overdue(now, limit) ==> b.with_chunk(chunk, now).overdue(now, limit),
        forall|later: u64|
            b.overdue(now, limit) && later >= now ==> #[trigger] b.overdue(later, limit),
{
}

/// A message goes out as the four magic bytes, the command in twelve bytes filled up with
/// zeros, the length of the payload, its checksum, and the payload.
pub proof fn law_frame_layout(command: Seq<char>, payload: Seq<u8>)
    requires
        is_command(command),
        payload.len() <= 4_000_000,
    ensures
        ({
            let f = frame_bytes(command, payload);
            let twice = sha256_digest(sha256_digest(payload));
            &&& f.len() == 24 + payload.len()
            &&& f.take(4) == seq![0xf9u8, 0xbe, 0xb4, 0xd9]
            &&& forall|i: int| 0 <= i < command.len() ==> #[trigger] f[4 + i] == command[i] as u8
            &&& forall|i: int| command.len() <= i < 12 ==> #[trigger] f[4 + i] == 0
            &&& le_at(f, 16, 4) == payload.len()
            &&& f[20] == twice[0] && f[21] == twice[1] && f[22] == twice[2] && f[23] == twice[3]
            &&& f.skip(24) == payload
        }),
{
    let f = frame_bytes(command, payload);
    lemma_powers_of_256();
    law_le_round_trip(payload.len(), 4);
    assert(f.take(4) =~= seq![0xf9u8, 0xbe, 0xb4, 0xd9]);
    assert(f.subrange(16, 20) =~= le_bytes(payload.len(), 4));
    assert(f.skip(24) =~= payload);
    let field = command_field(command);
    assert forall|i: int| 0 <= i < 12 implies #[trigger] f[4 + i] == field[i] by {
    }
}

/// Whether a command field is printable ASCII followed only by zeros.
pub open spec fn is_padded_text(field: Seq<u8>) -> bool {
    &&& forall|i: int|
        0 <= i < field.len() ==> #[trigger] field[i] == 0 || 0x20 <= field[i] <= 0x7e
    &&& forall|i: int, j: int|
        0 <= i < j < field.len() && #[trigger] field[i] == 0 ==> #[trigger] field[j] == 0
}

proof fn lemma_name_ends_at_zero(field: Seq<u8>)
    ensures
        name_len(field) <= field.len(),
        forall|i: int| 0 <= i < name_len(field) ==> #[trigger] field[i] != 0,
        name_len(field) < field.len() ==> field[name_len(field) as int] == 0,
    decreases field.len(),
{
    if field.len() > 0 && field[0] != 0 {
        let tail = field.skip(1);
        lemma_name_ends_at_zero(tail);
        assert forall|i: int| 0 <= i < name_len(field) implies #[trigger] field[i] != 0 by {
            if i > 0 {
                assert(tail[i - 1] == field[i]);
            }
        }
        if name_len(field) < field.len() {
            assert(tail[name_len(tail) as int] == field[name_len(field) as int]);
        }
    }
}

proof fn lemma_padded_text(field: Seq<u8>)
    ensures
        command_of(field) is Some <==> is_padded_text(field),
        command_of(field) matches Some(c) ==> c.len() <= field.len() && (forall|i: int|
            0 <= i < c.len() ==> #[trigger] c[i] == field[i] as char) && (forall|i: int|
            c.len() <= i < field.len() ==> #[trigger] field[i] == 0),
{
    lemma_name_ends_at_zero(field);
    let n = name_len(field) as int;
    if is_padded_text(field) {
        assert forall|i: int| n <= i < field.len() implies #[trigger] field[i] == 0 by {
            assert(field[n] == 0);
        }
    }
    if command_of(field) is Some {
        assert forall|i: int, j: int|
            0 <= i < j < field.len() && #[trigger] field[i] == 0 implies #[trigger] field[j]
            == 0 by {
            assert(i >= n);
        }
    }
}

/// What is made of received bytes. Without a whole header nothing is; other magic bytes, a
/// command that is not padded text, a payload of more than four million bytes and one that
/// does not fit its checksum are refused, in that order and each for its own reason; a payload
/// that is still under way is waited for; and any other is handed out with its command.
pub proof fn law_envelopes_are_judged_by_their_header(buf: Seq<u8>)
    ensures
        ({
            let length = le_at(buf, 16, 4);
            let field = buf.subrange(4, 16);
            let payload = buf.subrange(24, 24 + length as int);
            let twice = sha256_digest(sha256_digest(payload));
            let got = envelope_of(buf);
            if buf.len() < 24 {
                got matches Ok(None)
            } else if buf.take(4) != seq![0xf9u8, 0xbe, 0xb4, 0xd9] {
                got matches Err(EnvelopeFault::Magic)
            } else if !is_padded_text(field) {
                got matches Err(EnvelopeFault::Command)
            } else if length > 4_000_000 {
                got matches Err(EnvelopeFault::Oversize(n)) && n == length
            } else if buf.len() < 24 + length {
                got matches Ok(None)
            } else if buf.subrange(20, 24) != seq![twice[0], twice[1], twice[2], twice[3]] {
                got matches Err(EnvelopeFault::Checksum)
            } else {
                got matches Ok(Some((env, rest))) && env.payload == payload && rest == buf.skip(
                    24 + length as int,
                ) && env.command.len() <= 12 && (forall|i: int|
                    0 <= i < env.command.len() ==> #[trigger] env.command[i] == field[i] as char)
                    && (forall|i: int| env.command.len() <= i < 12 ==> #[trigger] field[i] == 0)
            }
        }),
{
    if buf.len() >= 24 {
        lemma_padded_text(buf.subrange(4, 16));
        assert(MAGIC@ =~= seq![0xf9u8, 0xbe, 0xb4, 0xd9]);
        law_le_bytes_of_value(buf.subrange(16, 20));
        lemma_powers_of_256();
    }
}

/// The clock of an envelope starts with its first byte, keeps running while more arrive, and
/// starts anew for what is left behind a message that was handed out; time is up once it has
/// run for the limit.
pub proof fn law_clock_runs_from_the_first_byte(
    b: BufferView,
    chunk: Seq<u8>,
    rest: Seq<u8>,
    now: u64,
    limit: u64,
)
    ensures
        b.with_chunk(chunk, now).bytes == b.bytes + chunk,
        b.since is Some ==> b.with_chunk(chunk, now).since == b.since,
        b.since is None && chunk.len() > 0 ==> b.with_chunk(chunk, now).since == Some(now),
        b.since is None && chunk.len() == 0 ==> b.with_chunk(chunk, now).since is None,
        BufferView::leftover(rest, now).bytes == rest,
        rest.len() > 0 ==> BufferView::leftover(rest, now).since == Some(now),
        rest.len() == 0 ==> BufferView::leftover(rest, now).since is None,
        b.since is None ==> !b.overdue(now, limit),
        b.since matches Some(start) ==> (b.overdue(now, limit) <==> start <= now && start + limit
            <= now),
{
}

/// A request to the proxy names the host and leaves its resolution to the proxy; the port
/// follows, most significant byte first.
pub proof fn law_socks5_request_names_the_host(host: Seq<char>, port: u16)
    requires
        encode_utf8(host).len() <= 255,
    ensures
        ({
            let r = socks5_request_bytes(host, port);
            let n = encode_utf8(host).len() as int;
            &&& r.len() == 7 + n
            &&& r.take(4) == seq![5u8, 1, 0, 3]
            &&& r[4] == n
            &&& r.subrange(5, 5 + n) == encode_utf8(host)
            &&& r[5 + n] * 256 + r[6 + n] == port
        }),
{
    let r = socks5_request_bytes(host, port);
    let n = encode_utf8(host).len() as int;
    assert(r.take(4) =~= seq![5u8, 1, 0, 3]);
    assert(r.subrange(5, 5 + n) =~= encode_utf8(host));
}

/// A command can be sent where it has one to twelve characters, all printable ASCII.
pub proof fn law_commands_are_short_printable_text(command: Seq<char>)
    ensures
        is_command(command) <==> 1 <= command.len() <= 12 && forall|i: int|
            0 <= i < command.len() ==> 0x20 <= (#[trigger] command[i]) as int <= 0x7e,
{
    if is_command(command) {
        assert forall|i: int| 0 <= i < command.len() implies 0x20 <= (#[trigger] command[i]) as int
            <= 0x7e by {
            assert(' ' <= command[i] <= '~');
        }
    } else if 1 <= command.len() <= 12 && forall|i: int|
        0 <= i < command.len() ==> 0x20 <= (#[trigger] command[i]) as int <= 0x7e {
        assert forall|i: int| 0 <= i < command.len() implies ' ' <= #[trigger] command[i]
            <= '~' by {
            assert(0x20 <= command[i] as int <= 0x7e);
        }
    }
}

/// An envelope may take half a minute over IP, a minute over Tor and a minute and a half over
/// I2P; a refusal of it, and of what a side service was asked for, says what went wrong.
pub proof fn law_limits_and_refusals(n: u32)
    ensures
        envelope_limit(Transport::Ip) == 30,
        envelope_limit(Transport::Tor) == 60,
        envelope_limit(Transport::I2p) == 90,
        fault_text(EnvelopeFault::Magic) == "network magic mismatch (stream desynchronized)"@,
        fault_text(EnvelopeFault::Command) == "command field is not NUL-padded printable ASCII"@,
        fault_text(EnvelopeFault::Oversize(n)) == "payload length "@ + decimal(n as nat)
            + " exceeds 4 MiB"@,
        fault_text(EnvelopeFault::Checksum) == "payload checksum mismatch"@,
        sam_reply_head(SamRequest::Hello) == "HELLO REPLY"@,
        sam_reply_head(SamRequest::Session) == "SESSION STATUS"@,
        sam_reply_head(SamRequest::Stream) == "STREAM STATUS"@,
        sam_failure_head(SamRequest::Hello) == "SAM HELLO failed: "@,
        sam_failure_head(SamRequest::Session) == "SAM session create failed: "@,
        sam_failure_head(SamRequest::Stream) == "SAM stream connect failed: "@,
{
}

/// A byte is shown as two hexadecimal digits, the one that weighs more first.
pub proof fn law_bytes_are_shown_in_two_digits(b: u8)
    ensures
        hex_pair(b).len() == 2,
        digit_value(hex_pair(b)[0]) == Some(b as int / 16),
        digit_value(hex_pair(b)[1]) == Some(b as int % 16),
{
}

} // verus!
