//! Framed envelopes over a byte stream, and the SOCKS5 and SAM dialogues that open one.
use vstd::prelude::*;
use vstd::utf8::{decode_utf8, encode_utf8, valid_utf8};
use crate::address::Transport;
use crate::io_error::{is_io_error, IoError, IoErrorKind};
use crate::protocol::{checksum, checksum_of, MAGIC, MAX_PROTOCOL_MESSAGE_LENGTH};
use crate::text::{
    chars_of, contains, decimal, digit_char, occurs, push_chars, push_decimal, str_eq, trim, trim_chars,
};
use crate::wire::{be16_bytes, le_at, Cursor};

verus! {

// ---------------------------------------------------------------------------
// Envelopes
// ---------------------------------------------------------------------------

/// A received message envelope.
#[derive(Debug, Clone)]
pub struct Envelope {
    pub command: String,
    pub payload: Vec<u8>,
}

/// What an [`Envelope`] holds.
pub struct EnvelopeView {
    pub command: Seq<char>,
    pub payload: Seq<u8>,
}

impl View for Envelope {
    type V = EnvelopeView;

    open spec fn view(&self) -> EnvelopeView {
        EnvelopeView { command: self.command@, payload: self.payload@ }
    }
}

/// Why received bytes cannot be an envelope.
pub enum EnvelopeFault {
    Magic,
    Command,
    Oversize(u32),
    Checksum,
}

/// The message of a fault.
pub open spec fn fault_text(fault: EnvelopeFault) -> Seq<char> {
    match fault {
        EnvelopeFault::Magic => "network magic mismatch (stream desynchronized)"@,
        EnvelopeFault::Command => "command field is not NUL-padded printable ASCII"@,
        EnvelopeFault::Oversize(n) => "payload length "@ + decimal(n as nat)
            + " exceeds 4 MiB"@,
        EnvelopeFault::Checksum => "payload checksum mismatch"@,
    }
}

/// How many bytes of a field stand before its first NUL.
pub open spec fn name_len(field: Seq<u8>) -> nat
    decreases field.len(),
{
    if field.len() == 0 || field[0] == 0 {
        0
    } else {
        1 + name_len(field.skip(1))
    }
}

/// The command in a command field: printable ASCII followed only by NUL padding.
pub open spec fn command_of(field: Seq<u8>) -> Option<Seq<char>> {
    let n = name_len(field) as int;
    if (forall|i: int| 0 <= i < n ==> 0x20 <= #[trigger] field[i] <= 0x7e) && (forall|i: int|
        n <= i < field.len() ==> #[trigger] field[i] == 0) {
        Some(Seq::new(n as nat, |i: int| field[i] as char))
    } else {
        None
    }
}

/// The envelope at the front of the bytes received so far and what follows it, `None` where
/// it is not complete yet, or the fault that makes it unusable.
pub open spec fn envelope_of(buf: Seq<u8>) -> Result<
    Option<(EnvelopeView, Seq<u8>)>,
    EnvelopeFault,
> {
    let length = le_at(buf, 16, 4);
    if buf.len() < 24 {
        Ok(None)
    } else if buf.take(4) != MAGIC@ {
        Err(EnvelopeFault::Magic)
    } else {
        match command_of(buf.subrange(4, 16)) {
            None => Err(EnvelopeFault::Command),
            Some(command) => if length > MAX_PROTOCOL_MESSAGE_LENGTH {
                Err(EnvelopeFault::Oversize(length as u32))
            } else if buf.len() < 24 + length {
                Ok(None)
            } else {
                let payload = buf.subrange(24, 24 + length as int);
                if checksum_of(payload) != buf.subrange(20, 24) {
                    Err(EnvelopeFault::Checksum)
                } else {
                    Ok(Some((EnvelopeView { command, payload }, buf.skip(24 + length as int))))
                }
            },
        }
    }
}

fn name_length(field: &[u8]) -> (n: usize)
    ensures
        n == name_len(field@),
        n <= field@.len(),
{
    let mut n: usize = 0;
    proof {
        assert(field@.skip(0) =~= field@);
    }
    while n < field.len() && field[n] != 0
        invariant
            n <= field@.len(),
            n + name_len(field@.skip(n as int)) == name_len(field@),
        decreases field@.len() - n,
    {
        proof {
            assert(field@.skip(n as int).skip(1) =~= field@.skip(n + 1));
        }
        n = n + 1;
    }
    n
}

/// Reads a NUL-padded command field.
pub fn parse_command(field: &[u8]) -> (r: Option<String>)
    ensures
        r is Some <==> command_of(field@) is Some,
        r matches Some(s) ==> command_of(field@) == Some(s@),
{
    let n = name_length(field);
    let mut out: String = String::new();
    let mut i: usize = 0;
    let ghost name = Seq::new(n as nat, |k: int| field@[k] as char);
    while i < n
        invariant
            i <= n <= field@.len(),
            n == name_len(field@),
            name == Seq::new(n as nat, |k: int| field@[k] as char),
            out@ == name.take(i as int),
            forall|k: int| 0 <= k < i ==> 0x20 <= #[trigger] field@[k] <= 0x7e,
        decreases n - i,
    {
        let b = field[i];
        if b < 0x20 || b > 0x7e {
            assert(!(0x20 <= field@[i as int] <= 0x7e));
            return None;
        }
        out.push(b as char);
        i = i + 1;
        proof {
            assert(out@ =~= name.take(i as int));
        }
    }
    while i < field.len()
        invariant
            n <= i <= field@.len(),
            n == name_len(field@),
            forall|k: int| n <= k < i ==> #[trigger] field@[k] == 0,
        decreases field@.len() - i,
    {
        if field[i] != 0 {
            assert(field@[i as int] != 0);
            return None;
        }
        i = i + 1;
    }
    proof {
        assert(name.take(n as int) =~= name);
    }
    Some(out)
}

fn fault_error(fault: EnvelopeFault) -> (r: IoError)
    ensures
        is_io_error(r, IoErrorKind::InvalidData, fault_text(fault)),
{
    let mut out: String = String::new();
    match fault {
        EnvelopeFault::Magic => {
            out.push_str("network magic mismatch (stream desynchronized)");
        },
        EnvelopeFault::Command => {
            out.push_str("command field is not NUL-padded printable ASCII");
        },
        EnvelopeFault::Oversize(n) => {
            out.push_str("payload length ");
            push_decimal(&mut out, n as u64);
            out.push_str(" exceeds 4 MiB");
        },
        EnvelopeFault::Checksum => {
            out.push_str("payload checksum mismatch");
        },
    }
    proof {
        assert(out@ =~= fault_text(fault));
    }
    IoError { kind: IoErrorKind::InvalidData, raw_os_error: None, message: out }
}

fn bytes_eq(a: &[u8], b: &[u8]) -> (r: bool)
    ensures
        r == (a@ == b@),
{
    if a.len() != b.len() {
        return false;
    }
    let mut i: usize = 0;
    while i < a.len()
        invariant
            i <= a@.len() == b@.len(),
            forall|k: int| 0 <= k < i ==> a@[k] == b@[k],
        decreases a@.len() - i,
    {
        if a[i] != b[i] {
            return false;
        }
        i = i + 1;
    }
    proof {
        assert(a@ =~= b@);
    }
    true
}

/// Reads the envelope at the front of `buf`; with it comes the number of bytes it takes.
pub fn read_envelope(buf: &[u8]) -> (r: Result<Option<(Envelope, usize)>, IoError>)
    ensures
        match envelope_of(buf@) {
            Ok(Some((env, rest))) => r matches Ok(Some((e, used))) && e@ == env && used
                <= buf@.len() && buf@.skip(used as int) == rest && used >= 24,
            Ok(None) => r matches Ok(None),
            Err(fault) => r matches Err(e) && is_io_error(
                e,
                IoErrorKind::InvalidData,
                fault_text(fault),
            ),
        },
{
    let n = buf.len();
    if n < 24 {
        return Ok(None);
    }
    let magic = &buf[0..4];
    proof {
        assert(magic@ =~= buf@.take(4));
    }
    if !bytes_eq(magic, &MAGIC) {
        return Err(fault_error(EnvelopeFault::Magic));
    }
    let command = match parse_command(&buf[4..16]) {
        Some(c) => c,
        None => {
            return Err(fault_error(EnvelopeFault::Command));
        },
    };
    let mut c = Cursor::new(&buf[16..20]);
    let length = match c.u32_le() {
        Some(v) => v,
        None => {
            return Ok(None);
        },
    };
    proof {
        assert(buf@.subrange(16, 20).subrange(0, 4) =~= buf@.subrange(16, 20));
    }
    if length > MAX_PROTOCOL_MESSAGE_LENGTH {
        return Err(fault_error(EnvelopeFault::Oversize(length)));
    }
    let total: usize = 24 + length as usize;
    if n < total {
        return Ok(None);
    }
    let body = &buf[24..total];
    let sum = checksum(body);
    if !bytes_eq(&sum, &buf[20..24]) {
        return Err(fault_error(EnvelopeFault::Checksum));
    }
    let mut payload: Vec<u8> = Vec::new();
    payload.extend_from_slice(body);
    proof {
        assert(payload@ =~= body@);
    }
    Ok(Some((Envelope { command, payload }, total)))
}

/// What a [`ReceiveBuffer`] holds: the bytes, and since when the envelope at the front has
/// been under way.
pub struct BufferView {
    pub bytes: Seq<u8>,
    pub since: Option<u64>,
}

impl BufferView {
    /// The buffer after a chunk has arrived. Further bytes of an envelope that is under way
    /// do not restart its clock.
    pub open spec fn with_chunk(self, chunk: Seq<u8>, now: u64) -> BufferView {
        BufferView {
            bytes: self.bytes + chunk,
            since: if self.since is None && chunk.len() > 0 {
                Some(now)
            } else {
                self.since
            },
        }
    }

    /// The buffer after an envelope has been handed out.
    pub open spec fn leftover(rest: Seq<u8>, now: u64) -> BufferView {
        BufferView {
            bytes: rest,
            since: if rest.len() > 0 {
                Some(now)
            } else {
                None
            },
        }
    }

    /// Whether the envelope under way has taken as long as it may.
    pub open spec fn overdue(self, now: u64, limit: u64) -> bool {
        self.since matches Some(start) && now >= start && now - start >= limit
    }
}

/// The bytes of a connection that have been received and not yet been handed out. Times are
/// in any one unit.
pub struct ReceiveBuffer {
    bytes: Vec<u8>,
    since: Option<u64>,
}

impl View for ReceiveBuffer {
    type V = BufferView;

    closed spec fn view(&self) -> BufferView {
        BufferView { bytes: self.bytes@, since: self.since }
    }
}

impl ReceiveBuffer {
    pub fn new() -> (r: Self)
        ensures
            r@ == (BufferView { bytes: Seq::empty(), since: None }),
    {
        let r = ReceiveBuffer { bytes: Vec::new(), since: None };
        proof {
            assert(r@.bytes =~= Seq::<u8>::empty());
        }
        r
    }

    /// Keeps a chunk that was read from the stream.
    pub fn append(&mut self, chunk: &[u8], now: u64)
        ensures
            final(self)@ == old(self)@.with_chunk(chunk@, now),
    {
        if self.since.is_none() && chunk.len() > 0 {
            self.since = Some(now);
        }
        self.bytes.extend_from_slice(chunk);
        proof {
            assert(self@.bytes =~= old(self)@.bytes + chunk@);
        }
    }

    /// Whether part of an envelope has been received.
    pub fn has_partial_envelope(&self) -> (r: bool)
        ensures
            r == (self@.bytes.len() > 0),
    {
        self.bytes.len() > 0
    }

    /// Whether the envelope under way has taken as long as it may.
    pub fn is_overdue(&self, now: u64, limit: u64) -> (r: bool)
        ensures
            r == self@.overdue(now, limit),
    {
        match self.since {
            Some(start) => now >= start && now - start >= limit,
            None => false,
        }
    }

    /// Hands out the next whole envelope. Bytes of an envelope that is not complete, or that
    /// is refused, stay where they are.
    pub fn next_envelope(&mut self, now: u64) -> (r: Result<Option<Envelope>, IoError>)
        ensures
            match envelope_of(old(self)@.bytes) {
                Ok(Some((env, rest))) => r matches Ok(Some(e)) && e@ == env && final(self)@
                    == BufferView::leftover(rest, now),
                Ok(None) => r matches Ok(None) && final(self)@ == old(self)@,
                Err(fault) => r matches Err(e) && is_io_error(
                    e,
                    IoErrorKind::InvalidData,
                    fault_text(fault),
                ) && final(self)@ == old(self)@,
            },
    {
        match read_envelope(&self.bytes) {
            Ok(Some((env, used))) => {
                let mut rest: Vec<u8> = Vec::new();
                let n = self.bytes.len();
                rest.extend_from_slice(&self.bytes[used..n]);
                proof {
                    assert(rest@ =~= old(self)@.bytes.skip(used as int));
                }
                if rest.len() > 0 {
                    self.since = Some(now);
                } else {
                    self.since = None;
                }
                self.bytes = rest;
                Ok(Some(env))
            },
            Ok(None) => Ok(None),
            Err(e) => Err(e),
        }
    }
}

/// How long an envelope may take from its first byte to its last, in seconds.
pub open spec fn envelope_limit(transport: Transport) -> u64 {
    match transport {
        Transport::Ip => 30,
        Transport::Tor => 60,
        Transport::I2p => 90,
    }
}

/// How long an envelope may take from its first byte to its last, in seconds.
pub fn envelope_limit_secs(transport: Transport) -> (r: u64)
    ensures
        r == envelope_limit(transport),
{
    match transport {
        Transport::Ip => 30,
        Transport::Tor => 60,
        Transport::I2p => 90,
    }
}

/// What came of waiting for bytes.
pub enum ReadEvent {
    /// Bytes arrived.
    Chunk(Vec<u8>),
    /// The peer closed the stream.
    Closed,
    /// Nothing arrived within the wait.
    TimedOut,
    /// The stream failed.
    Failed(IoError),
}

/// What a receive call does next.
pub enum ReceiveStep {
    /// Hand out an envelope.
    Message(Envelope),
    /// Wait for more bytes.
    Wait,
    /// Report that no envelope arrived within the wait.
    Quiet,
    /// Report a transport failure.
    Fail(IoError),
}

/// Looks for an envelope among the bytes that are already there.
pub fn receive_buffered(buffer: &mut ReceiveBuffer, now: u64) -> (r: ReceiveStep)
    ensures
        match envelope_of(old(buffer)@.bytes) {
            Ok(Some((env, rest))) => r matches ReceiveStep::Message(e) && e@ == env
                && final(buffer)@ == BufferView::leftover(rest, now),
            Ok(None) => r is Wait && final(buffer)@ == old(buffer)@,
            Err(fault) => r matches ReceiveStep::Fail(e) && is_io_error(
                e,
                IoErrorKind::InvalidData,
                fault_text(fault),
            ) && final(buffer)@ == old(buffer)@,
        },
{
    match buffer.next_envelope(now) {
        Ok(Some(env)) => ReceiveStep::Message(env),
        Ok(None) => ReceiveStep::Wait,
        Err(e) => ReceiveStep::Fail(e),
    }
}

/// The failure of an envelope that has taken too long.
pub open spec fn is_overdue_error(r: ReceiveStep) -> bool {
    r matches ReceiveStep::Fail(e) && is_io_error(
        e,
        IoErrorKind::TimedOut,
        "incomplete envelope timed out"@,
    )
}

fn overdue_error() -> (r: ReceiveStep)
    ensures
        is_overdue_error(r),
{
    ReceiveStep::Fail(IoError::new(IoErrorKind::TimedOut, "incomplete envelope timed out"))
}

/// Decides what follows a wait for bytes at time `now`. An envelope may be under way for
/// `limit`; a wait that times out keeps every byte.
pub fn receive_step(buffer: &mut ReceiveBuffer, event: ReadEvent, now: u64, limit: u64) -> (r:
    ReceiveStep)
    ensures
        match event {
            ReadEvent::Chunk(chunk) => {
                let filled = old(buffer)@.with_chunk(chunk@, now);
                match envelope_of(filled.bytes) {
                    Ok(Some((env, rest))) => r matches ReceiveStep::Message(e) && e@ == env
                        && final(buffer)@ == BufferView::leftover(rest, now),
                    Ok(None) => final(buffer)@ == filled && if filled.overdue(now, limit) {
                        is_overdue_error(r)
                    } else {
                        r is Wait
                    },
                    Err(fault) => final(buffer)@ == filled && (r matches ReceiveStep::Fail(e)
                        && is_io_error(e, IoErrorKind::InvalidData, fault_text(fault))),
                }
            },
            ReadEvent::Closed => final(buffer)@ == old(buffer)@ && (r matches ReceiveStep::Fail(e)
                && is_io_error(e, IoErrorKind::UnexpectedEof, "early eof"@)),
            ReadEvent::TimedOut => final(buffer)@ == old(buffer)@ && if old(buffer)@.overdue(
                now,
                limit,
            ) {
                is_overdue_error(r)
            } else {
                r is Quiet
            },
            ReadEvent::Failed(error) => final(buffer)@ == old(buffer)@ && (
            r matches ReceiveStep::Fail(e) && e == error),
        },
{
    match event {
        ReadEvent::Chunk(chunk) => {
            buffer.append(&chunk, now);
            match receive_buffered(buffer, now) {
                ReceiveStep::Wait => if buffer.is_overdue(now, limit) {
                    overdue_error()
                } else {
                    ReceiveStep::Wait
                },
                step => step,
            }
        },
        ReadEvent::Closed => ReceiveStep::Fail(
            IoError::new(IoErrorKind::UnexpectedEof, "early eof"),
        ),
        ReadEvent::TimedOut => if buffer.is_overdue(now, limit) {
            overdue_error()
        } else {
            ReceiveStep::Quiet
        },
        ReadEvent::Failed(error) => ReceiveStep::Fail(error),
    }
}

/// The `pong` payload that answers a `ping` from a peer of the given version. Above version
/// 60000 a ping carries an eight-byte nonce, which is echoed; up to it a ping is empty and
/// gets no answer. Any other payload is an error.
pub fn answer_ping(payload: &[u8], version: i32) -> (r: Result<Option<Vec<u8>>, IoError>)
    ensures
        match r {
            Ok(Some(pong)) => version > 60000 && payload@.len() == 8 && pong@ == payload@,
            Ok(None) => version <= 60000 && payload@.len() == 0,
            Err(e) => (if version > 60000 {
                payload@.len() != 8
            } else {
                payload@.len() != 0
            }) && is_io_error(
                e,
                IoErrorKind::InvalidData,
                "ping payload does not fit the negotiated protocol"@,
            ),
        },
{
    if version > 60000 && payload.len() == 8 {
        let mut pong: Vec<u8> = Vec::new();
        pong.extend_from_slice(payload);
        proof {
            assert(pong@ =~= payload@);
        }
        Ok(Some(pong))
    } else if version <= 60000 && payload.len() == 0 {
        Ok(None)
    } else {
        Err(
            IoError::new(
                IoErrorKind::InvalidData,
                "ping payload does not fit the negotiated protocol",
            ),
        )
    }
}

// ---------------------------------------------------------------------------
// SOCKS5
// ---------------------------------------------------------------------------

/// Two lowercase hexadecimal digits.
pub open spec fn hex_pair(b: u8) -> Seq<char> {
    seq![digit_char(b as int / 16), digit_char(b as int % 16)]
}

fn push_hex_pair(out: &mut String, b: u8)
    ensures
        final(out)@ == old(out)@ + hex_pair(b),
{
    let hi: u8 = b / 16;
    let lo: u8 = b % 16;
    out.push(if hi < 10 { (48 + hi) as char } else { (87 + hi) as char });
    out.push(if lo < 10 { (48 + lo) as char } else { (87 + lo) as char });
    proof {
        assert(out@ =~= old(out)@ + hex_pair(b));
    }
}

fn other_error(message: String) -> (r: IoError)
    ensures
        is_io_error(r, IoErrorKind::Other, message@),
{
    IoError { kind: IoErrorKind::Other, raw_os_error: None, message }
}

/// The greeting: version 5, one method, no authentication.
pub fn socks5_greeting() -> (r: [u8; 3])
    ensures
        r@ == seq![5u8, 1u8, 0u8],
{
    let r: [u8; 3] = [0x05, 0x01, 0x00];
    proof {
        assert(r@ =~= seq![5u8, 1u8, 0u8]);
    }
    r
}

/// Checks the proxy's choice of method.
pub fn check_socks5_greeting(reply: [u8; 2]) -> (r: Result<(), IoError>)
    ensures
        r is Ok <==> reply@[0] == 5 && reply@[1] == 0,
        r matches Err(e) ==> is_io_error(
            e,
            IoErrorKind::Other,
            "socks5 method selection failed: ["@ + hex_pair(reply@[0]) + ", "@ + hex_pair(reply@[1])
                + "]"@,
        ),
{
    if reply[0] == 0x05 && reply[1] == 0x00 {
        return Ok(());
    }
    let mut out: String = String::new();
    out.push_str("socks5 method selection failed: [");
    push_hex_pair(&mut out, reply[0]);
    out.push_str(", ");
    push_hex_pair(&mut out, reply[1]);
    out.push_str("]");
    proof {
        assert(out@ =~= "socks5 method selection failed: ["@ + hex_pair(reply@[0]) + ", "@
            + hex_pair(reply@[1]) + "]"@);
    }
    Err(other_error(out))
}

/// A CONNECT request that leaves the name to the proxy: version, command, reserved byte,
/// domain name address type, name with its length, port.
pub open spec fn socks5_request_bytes(host: Seq<char>, port: u16) -> Seq<u8> {
    seq![5u8, 1u8, 0u8, 3u8, encode_utf8(host).len() as u8] + encode_utf8(host) + be16_bytes(port)
}

/// Builds the CONNECT request for `host:port`.
pub fn socks5_request(host: &str, port: u16) -> (r: Result<Vec<u8>, IoError>)
    ensures
        match r {
            Ok(req) => encode_utf8(host@).len() <= 255 && req@ == socks5_request_bytes(host@, port),
            Err(e) => encode_utf8(host@).len() > 255 && is_io_error(
                e,
                IoErrorKind::Other,
                "socks5 host too long"@,
            ),
        },
{
    let host_bytes = host.as_bytes();
    if host_bytes.len() > 255 {
        return Err(IoError::new(IoErrorKind::Other, "socks5 host too long"));
    }
    let mut req: Vec<u8> = Vec::new();
    req.push(0x05);
    req.push(0x01);
    req.push(0x00);
    req.push(0x03);
    req.push(host_bytes.len() as u8);
    req.extend_from_slice(host_bytes);
    req.push((port / 256) as u8);
    req.push((port % 256) as u8);
    proof {
        assert(req@ =~= socks5_request_bytes(host@, port));
    }
    Ok(req)
}

/// What follows the four-byte head of a CONNECT reply.
#[derive(Debug, Clone, Copy, PartialEq, Eq, Structural)]
pub enum Socks5Tail {
    /// This many bytes of address and port.
    Fixed(usize),
    /// A length byte, then the name and port.
    Named,
}

/// Reads the head of a CONNECT reply: version, reply code, reserved byte, address type.
pub fn socks5_reply_head(head: [u8; 4]) -> (r: Result<Socks5Tail, IoError>)
    ensures
        match r {
            Ok(tail) => head@[1] == 0 && match tail {
                Socks5Tail::Fixed(n) => (head@[3] == 1 && n == 6) || (head@[3] == 4 && n == 18),
                Socks5Tail::Named => head@[3] == 3,
            },
            Err(e) => if head@[1] != 0 {
                is_io_error(
                    e,
                    IoErrorKind::Other,
                    "socks5 connect failed: REP=0x"@ + hex_pair(head@[1]),
                )
            } else {
                head@[3] != 1 && head@[3] != 3 && head@[3] != 4 && is_io_error(
                    e,
                    IoErrorKind::Other,
                    "socks5 reply unknown ATYP "@ + decimal(head@[3] as nat),
                )
            },
        },
{
    let mut out: String = String::new();
    if head[1] != 0x00 {
        out.push_str("socks5 connect failed: REP=0x");
        push_hex_pair(&mut out, head[1]);
        proof {
            assert(out@ =~= "socks5 connect failed: REP=0x"@ + hex_pair(head@[1]));
        }
        return Err(other_error(out));
    }
    if head[3] == 0x01 {
        Ok(Socks5Tail::Fixed(6))
    } else if head[3] == 0x04 {
        Ok(Socks5Tail::Fixed(18))
    } else if head[3] == 0x03 {
        Ok(Socks5Tail::Named)
    } else {
        out.push_str("socks5 reply unknown ATYP ");
        push_decimal(&mut out, head[3] as u64);
        proof {
            assert(out@ =~= "socks5 reply unknown ATYP "@ + decimal(head@[3] as nat));
        }
        Err(other_error(out))
    }
}

/// How many bytes follow the length byte of a named bound address: the name and the port.
pub fn socks5_named_tail(length: u8) -> (r: usize)
    ensures
        r == length + 2,
{
    length as usize + 2
}

// ---------------------------------------------------------------------------
// I2P SAM
// ---------------------------------------------------------------------------

/// `rand::random::<u32>()`: any number.
#[verifier::external_body]
fn random_u32() -> u32 {
    rand::random::<u32>()
}

/// The session identifier made of a number.
pub fn session_id(n: u32) -> (r: String)
    ensures
        r@ == "crawler"@ + decimal(n as nat),
{
    let mut out: String = "crawler".to_owned();
    push_decimal(&mut out, n as u64);
    out
}

/// A session identifier made of a random number.
pub fn new_session_id() -> (r: String)
    ensures
        exists|n: u32| r@ == "crawler"@ + #[trigger] decimal(n as nat),
{
    let n = random_u32();
    session_id(n)
}

/// The command that opens a SAM dialogue.
pub fn sam_hello_command() -> (r: &'static str)
    ensures
        r@ == "HELLO VERSION MIN=3.0 MAX=3.1\n"@,
{
    "HELLO VERSION MIN=3.0 MAX=3.1\n"
}

/// The command that creates a transient stream session.
pub fn sam_session_command(id: &str) -> (r: String)
    ensures
        r@ == "SESSION CREATE STYLE=STREAM ID="@ + id@
            + " DESTINATION=TRANSIENT SIGNATURE_TYPE=7\n"@,
{
    let mut out: String = "SESSION CREATE STYLE=STREAM ID=".to_owned();
    out.push_str(id);
    out.push_str(" DESTINATION=TRANSIENT SIGNATURE_TYPE=7\n");
    out
}

/// The command that opens a stream to a destination.
pub fn sam_stream_command(id: &str, host: &str) -> (r: String)
    ensures
        r@ == "STREAM CONNECT ID="@ + id@ + " DESTINATION="@ + host@ + " SILENT=false\n"@,
{
    let mut out: String = "STREAM CONNECT ID=".to_owned();
    out.push_str(id);
    out.push_str(" DESTINATION=");
    out.push_str(host);
    out.push_str(" SILENT=false\n");
    out
}

/// The three SAM requests that get a status line.
#[derive(Debug, Clone, Copy, PartialEq, Eq, Structural)]
pub enum SamRequest {
    Hello,
    Session,
    Stream,
}

/// What a reply to the request is headed by.
pub open spec fn sam_reply_head(request: SamRequest) -> Seq<char> {
    match request {
        SamRequest::Hello => "HELLO REPLY"@,
        SamRequest::Session => "SESSION STATUS"@,
        SamRequest::Stream => "STREAM STATUS"@,
    }
}

/// The message of a request that was not granted, before the reply itself.
pub open spec fn sam_failure_head(request: SamRequest) -> Seq<char> {
    match request {
        SamRequest::Hello => "SAM HELLO failed: "@,
        SamRequest::Session => "SAM session create failed: "@,
        SamRequest::Stream => "SAM stream connect failed: "@,
    }
}

/// Checks the status line that answers a request.
pub fn check_sam_reply(request: SamRequest, reply: &str) -> (r: Result<(), IoError>)
    ensures
        r is Ok <==> occurs(reply@, sam_reply_head(request)) && occurs(reply@, "RESULT=OK"@),
        r matches Err(e) ==> is_io_error(
            e,
            IoErrorKind::Other,
            sam_failure_head(request) + trim(reply@),
        ),
{
    let head = match request {
        SamRequest::Hello => "HELLO REPLY",
        SamRequest::Session => "SESSION STATUS",
        SamRequest::Stream => "STREAM STATUS",
    };
    if contains(reply, head) && contains(reply, "RESULT=OK") {
        return Ok(());
    }
    let mut out: String = match request {
        SamRequest::Hello => "SAM HELLO failed: ".to_owned(),
        SamRequest::Session => "SAM session create failed: ".to_owned(),
        SamRequest::Stream => "SAM stream connect failed: ".to_owned(),
    };
    let chars = chars_of(reply);
    push_chars(&mut out, &trim_chars(&chars));
    Err(other_error(out))
}

/// Whether the cached session is given up after a stream request over the session `used`: a
/// failed stream invalidates the session it was requested over, and no other.
pub fn sam_session_lost(cached: &str, used: &str, stream_ok: bool) -> (r: bool)
    ensures
        r == (!stream_ok && cached@ == used@),
{
    !stream_ok && str_eq(cached, used)
}

/// The text of bytes, with replacement characters for what is not UTF-8.
pub uninterp spec fn utf8_lossy(bytes: Seq<u8>) -> Seq<char>;

/// `String::from_utf8_lossy`: the text of the bytes, which is their decoding where they are
/// valid UTF-8.
#[verifier::external_body]
fn lossy_text(bytes: &[u8]) -> (r: String)
    ensures
        r@ == utf8_lossy(bytes@),
        valid_utf8(bytes@) ==> r@ == decode_utf8(bytes@),
{
    String::from_utf8_lossy(bytes).into_owned()
}

/// Takes the next byte of a status line (`None` at the end of the stream) and gives the
/// line once it is complete. A line may hold up to 4096 bytes.
pub fn sam_line_step(line: &mut Vec<u8>, read: Option<u8>) -> (r: Result<Option<String>, IoError>)
    ensures
        match read {
            None => final(line)@ == old(line)@ && (r matches Err(e) && is_io_error(
                e,
                IoErrorKind::UnexpectedEof,
                "SAM connection closed before newline"@,
            )),
            Some(b) => if b == 10 {
                final(line)@ == old(line)@ && (r matches Ok(Some(s)) && s@ == utf8_lossy(
                    old(line)@,
                ))
            } else {
                final(line)@ == old(line)@.push(b) && if old(line)@.len() + 1 > 4096 {
                    r matches Err(e) && is_io_error(e, IoErrorKind::Other, "SAM line too long"@)
                } else {
                    r matches Ok(None)
                }
            },
        },
{
    match read {
        None => Err(
            IoError::new(IoErrorKind::UnexpectedEof, "SAM connection closed before newline"),
        ),
        Some(b) => {
            if b == 10 {
                return Ok(Some(lossy_text(line)));
            }
            line.push(b);
            if line.len() > 4096 {
                return Err(IoError::new(IoErrorKind::Other, "SAM line too long"));
            }
            Ok(None)
        },
    }
}

} // verus!
