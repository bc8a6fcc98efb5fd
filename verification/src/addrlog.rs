//! The records of the address observation log.
use vstd::prelude::*;
use crate::address::network_label;
use crate::csv_text::{
    bool_string, bool_text, csv_joined, push_csv_fields, string_views,
};
use crate::encoding::{sha256, sha256_digest};
use crate::protocol::{
    addr_error_text, hex, hex_text, AddrParseError, AddrView, AdvertisedAddr, ParsedAddrMessage,
};
use crate::store::{outcome_label, CollectionOutcome, HandshakeData};
use crate::text::{decimal, decimal_string, signed_decimal, signed_string};

verus! {

/// Metadata about the responding node for one addr-response block.
pub struct Responder<'a> {
    pub host: &'a str,
    pub port: u16,
    pub network: &'a str,
    pub received_at: i64,
    pub message_type: &'a str,
    pub handshake: &'a HandshakeData,
}

/// The first record of a block: who answered, with what, and what is known of it.
pub open spec fn responder_fields(
    event_id: u64,
    r: Responder,
    declared_count: u64,
    decoded: nat,
    unknown_entries: u64,
) -> Seq<Seq<char>> {
    let hd = r.handshake@;
    seq![
        decimal(event_id as nat),
        r.host@,
        decimal(r.port as nat),
        r.network@,
        signed_decimal(r.received_at as int),
        r.message_type@,
        "complete"@,
        decimal(declared_count as nat),
        decimal(decoded),
        decimal(unknown_entries as nat),
        signed_decimal(hd.version as int),
        decimal(hd.services as nat),
        hd.user_agent,
        signed_decimal(hd.latest_block as int),
        bool_text(hd.relay),
    ]
}

/// The record of one address of a block.
pub open spec fn address_fields(event_id: u64, a: AddrView) -> Seq<Seq<char>> {
    seq![
        decimal(event_id as nat),
        a.host,
        decimal(a.port as nat),
        network_label(a.network),
        signed_decimal(a.timestamp as int),
        decimal(a.services as nat),
        decimal(a.wire_network_id as nat),
    ]
}

/// The records of the first `n` addresses.
pub open spec fn address_lines(event_id: u64, addrs: Seq<AddrView>, n: nat) -> Seq<char>
    decreases n,
{
    if n == 0 {
        Seq::empty()
    } else {
        address_lines(event_id, addrs, (n - 1) as nat) + csv_joined(
            address_fields(event_id, addrs[n - 1]),
        ).push('\n')
    }
}

/// The block of one valid response.
pub open spec fn block_text(event_id: u64, r: Responder, parsed: ParsedAddrMessage) -> Seq<char> {
    "===NEW NODE===,"@ + csv_joined(
        responder_fields(
            event_id,
            r,
            parsed.declared_count,
            parsed@.addrs.len(),
            parsed.unknown_entries,
        ),
    ).push('\n') + address_lines(event_id, parsed@.addrs, parsed@.addrs.len())
}

/// The record of how a collection ended.
pub open spec fn outcome_text(event_id: u64, host: Seq<char>, port: u16, outcome: CollectionOutcome)
    -> Seq<char> {
    "===REQUEST OUTCOME===,"@ + csv_joined(
        seq![decimal(event_id as nat), host, decimal(port as nat), outcome_label(outcome)],
    ).push('\n')
}

/// The record of a refused response: the reason and the SHA-256 digest of its payload.
pub open spec fn malformed_text(
    event_id: u64,
    host: Seq<char>,
    port: u16,
    message_type: Seq<char>,
    error: AddrParseError,
    payload: Seq<u8>,
) -> Seq<char> {
    "===MALFORMED RESPONSE===,"@ + csv_joined(
        seq![
            decimal(event_id as nat),
            host,
            decimal(port as nat),
            message_type,
            "malformed"@,
            addr_error_text(error),
            hex_text(sha256_digest(payload)),
        ],
    ).push('\n')
}

/// The writer of the log's records, which numbers them from one. Its view is the next
/// number.
pub struct AddrLog {
    next_event_id: u64,
}

impl View for AddrLog {
    type V = u64;

    closed spec fn view(&self) -> u64 {
        self.next_event_id
    }
}

impl AddrLog {
    /// A log without records.
    pub fn create() -> (r: Self)
        ensures
            r@ == 1,
    {
        AddrLog { next_event_id: 1 }
    }

    /// The number of the next record.
    pub fn next_event_id(&self) -> (r: u64)
        ensures
            r == self@,
    {
        self.next_event_id
    }

    /// The block of a valid response, with its number.
    pub fn write_block(&mut self, r: &Responder<'_>, parsed: &ParsedAddrMessage) -> (out: (
        u64,
        String,
    ))
        requires
            old(self)@ < u64::MAX,
        ensures
            out.0 == old(self)@,
            final(self)@ == old(self)@ + 1,
            out.1@ == block_text(out.0, *r, *parsed),
    {
        let event_id = self.next_event_id;
        self.next_event_id = event_id + 1;
        let hd = r.handshake;
        let mut buf: String = "===NEW NODE===,".to_owned();
        let mut fields: Vec<String> = Vec::new();
        fields.push(decimal_string(event_id));
        fields.push(r.host.to_owned());
        fields.push(decimal_string(r.port as u64));
        fields.push(r.network.to_owned());
        fields.push(signed_string(r.received_at));
        fields.push(r.message_type.to_owned());
        fields.push("complete".to_owned());
        fields.push(decimal_string(parsed.declared_count));
        fields.push(decimal_string(parsed.addrs.len() as u64));
        fields.push(decimal_string(parsed.unknown_entries));
        fields.push(signed_string(hd.version as i64));
        fields.push(decimal_string(hd.services));
        fields.push(hd.user_agent.clone());
        fields.push(signed_string(hd.latest_block as i64));
        fields.push(bool_string(hd.relay));
        proof {
            assert(string_views(fields@) =~= responder_fields(
                event_id,
                *r,
                parsed.declared_count,
                parsed@.addrs.len(),
                parsed.unknown_entries,
            ));
        }
        push_csv_fields(&mut buf, &fields);
        buf.push('\n');
        let ghost head = buf@;
        let mut i: usize = 0;
        proof {
            assert(buf@ =~= head + address_lines(event_id, parsed@.addrs, 0));
        }
        while i < parsed.addrs.len()
            invariant
                i <= parsed.addrs@.len(),
                buf@ == head + address_lines(event_id, parsed@.addrs, i as nat),
            decreases parsed.addrs@.len() - i,
        {
            let a = &parsed.addrs[i];
            let ghost before = buf@;
            proof {
                assert(parsed@.addrs[i as int] == a@);
            }
            push_address(&mut buf, event_id, a);
            i = i + 1;
            proof {
                assert(buf@ =~= head + address_lines(event_id, parsed@.addrs, i as nat));
            }
        }
        proof {
            assert(buf@ =~= block_text(event_id, *r, *parsed));
        }
        (event_id, buf)
    }

    /// The record of how a collection ended, with its number.
    pub fn write_outcome(&mut self, host: &str, port: u16, outcome: CollectionOutcome) -> (out: (
        u64,
        String,
    ))
        requires
            old(self)@ < u64::MAX,
        ensures
            out.0 == old(self)@,
            final(self)@ == old(self)@ + 1,
            out.1@ == outcome_text(out.0, host@, port, outcome),
    {
        let event_id = self.next_event_id;
        self.next_event_id = event_id + 1;
        let mut buf: String = "===REQUEST OUTCOME===,".to_owned();
        let mut fields: Vec<String> = Vec::new();
        fields.push(decimal_string(event_id));
        fields.push(host.to_owned());
        fields.push(decimal_string(port as u64));
        fields.push(outcome.as_str().to_owned());
        proof {
            assert(string_views(fields@) =~= seq![
                decimal(event_id as nat),
                host@,
                decimal(port as nat),
                outcome_label(outcome),
            ]);
        }
        push_csv_fields(&mut buf, &fields);
        buf.push('\n');
        proof {
            assert(buf@ =~= outcome_text(event_id, host@, port, outcome));
        }
        (event_id, buf)
    }

    /// The record of a refused response, with its number.
    pub fn write_malformed(
        &mut self,
        host: &str,
        port: u16,
        message_type: &str,
        error: &AddrParseError,
        payload: &[u8],
    ) -> (out: (u64, String))
        requires
            old(self)@ < u64::MAX,
        ensures
            out.0 == old(self)@,
            final(self)@ == old(self)@ + 1,
            out.1@ == malformed_text(out.0, host@, port, message_type@, *error, payload@),
    {
        let event_id = self.next_event_id;
        self.next_event_id = event_id + 1;
        let mut buf: String = "===MALFORMED RESPONSE===,".to_owned();
        let mut fields: Vec<String> = Vec::new();
        fields.push(decimal_string(event_id));
        fields.push(host.to_owned());
        fields.push(decimal_string(port as u64));
        fields.push(message_type.to_owned());
        fields.push("malformed".to_owned());
        fields.push(error.message());
        fields.push(hex(&sha256(payload)));
        proof {
            assert(string_views(fields@) =~= seq![
                decimal(event_id as nat),
                host@,
                decimal(port as nat),
                message_type@,
                "malformed"@,
                addr_error_text(*error),
                hex_text(sha256_digest(payload@)),
            ]);
        }
        push_csv_fields(&mut buf, &fields);
        buf.push('\n');
        proof {
            assert(buf@ =~= malformed_text(
                event_id,
                host@,
                port,
                message_type@,
                *error,
                payload@,
            ));
        }
        (event_id, buf)
    }
}

/// Appends the record of one address.
fn push_address(buf: &mut String, event_id: u64, a: &AdvertisedAddr)
    ensures
        final(buf)@ == old(buf)@ + csv_joined(address_fields(event_id, a@)).push('\n'),
{
    let mut fields: Vec<String> = Vec::new();
    fields.push(decimal_string(event_id));
    fields.push(a.host.clone());
    fields.push(decimal_string(a.port as u64));
    fields.push(a.network.as_str().to_owned());
    fields.push(signed_string(a.timestamp));
    fields.push(decimal_string(a.services));
    fields.push(decimal_string(a.wire_network_id as u64));
    proof {
        assert(string_views(fields@) =~= address_fields(event_id, a@));
    }
    push_csv_fields(buf, &fields);
    buf.push('\n');
    proof {
        assert(buf@ =~= old(buf)@ + csv_joined(address_fields(event_id, a@)).push('\n'));
    }
}

} // verus!
