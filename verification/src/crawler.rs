//! The crawl: which address is worked on next, what becomes of it, and what a peer's
//! messages mean for the frontier.
use vstd::prelude::*;
use rand::seq::SliceRandom;
use crate::address::{addr_text, classify, network_of, network_transport, NetworkType, Transport};
use crate::io_error::{IoError, IoErrorKind};
use crate::protocol::{addr_views, AddrView, AdvertisedAddr, ParsedAddrMessage, VersionData};
use crate::settings::{Settings, Timeouts};
use crate::store::{
    counter_minus, counter_plus, distinct_rows, find_row, handshake_view, lemma_find_row,
    lemma_find_row_at, lemma_state_count_bound, lemma_state_count_push, lemma_state_count_update,
    state_count, AddrKey, AttemptData, AttemptView, CollectionOutcome, EntryView, FailKind,
    FrontierOutcome, HandshakeData, HandshakeView, KeyView, NodeEntry, NodeState, NodeStats,
    NodeStore, Row, StoreView,
};
use crate::text::{decimal, push_decimal};
use crate::wire::signed64;

verus! {

// ---------------------------------------------------------------------------
// Errors
// ---------------------------------------------------------------------------

/// The failure reason of a connect error: by its kind first, then by the code for an
/// unreachable network or host, then by the transport.
pub open spec fn connect_failure(e: IoError, network: NetworkType) -> FailKind {
    match e.kind {
        IoErrorKind::TimedOut => FailKind::ConnectTimeout,
        IoErrorKind::ConnectionRefused => FailKind::ConnectRefused,
        IoErrorKind::ConnectionReset | IoErrorKind::ConnectionAborted => FailKind::ConnectReset,
        _ => if e.raw_os_error == Some(101i32) || e.raw_os_error == Some(113i32) {
            FailKind::ConnectUnreachable
        } else {
            match network {
                NetworkType::OnionV2 | NetworkType::OnionV3 => FailKind::ProxyError,
                NetworkType::I2p => FailKind::SamError,
                _ => FailKind::ConnectOther,
            }
        },
    }
}

/// Classifies a connect-phase error.
pub fn classify_connect_error(e: &IoError, network: NetworkType) -> (r: FailKind)
    ensures
        r == connect_failure(*e, network),
{
    match e.kind {
        IoErrorKind::TimedOut => FailKind::ConnectTimeout,
        IoErrorKind::ConnectionRefused => FailKind::ConnectRefused,
        IoErrorKind::ConnectionReset | IoErrorKind::ConnectionAborted => FailKind::ConnectReset,
        _ => {
            if let Some(code) = e.raw_os_error {
                if code == 101 || code == 113 {
                    return FailKind::ConnectUnreachable;
                }
            }
            match network {
                NetworkType::OnionV2 | NetworkType::OnionV3 => FailKind::ProxyError,
                NetworkType::I2p => FailKind::SamError,
                _ => FailKind::ConnectOther,
            }
        },
    }
}

/// The failure reason of an error during the handshake.
pub open spec fn handshake_failure(e: IoError) -> FailKind {
    match e.kind {
        IoErrorKind::InvalidData => FailKind::ProtocolDesync,
        IoErrorKind::UnexpectedEof
        | IoErrorKind::ConnectionReset
        | IoErrorKind::ConnectionAborted
        | IoErrorKind::BrokenPipe => FailKind::ConnectionClosed,
        _ => FailKind::HandshakeOther,
    }
}

/// Classifies a handshake-phase error.
pub fn classify_handshake_error(e: &IoError) -> (r: FailKind)
    ensures
        r == handshake_failure(*e),
{
    match e.kind {
        IoErrorKind::InvalidData => FailKind::ProtocolDesync,
        IoErrorKind::UnexpectedEof
        | IoErrorKind::ConnectionReset
        | IoErrorKind::ConnectionAborted
        | IoErrorKind::BrokenPipe => FailKind::ConnectionClosed,
        _ => FailKind::HandshakeOther,
    }
}

/// How a network is reached.
#[derive(Debug, Clone, Copy, PartialEq, Eq, Structural)]
pub enum Route {
    Tcp,
    Socks5,
    Sam,
}

/// The route to a network; an unknown one has none.
pub fn route(network: NetworkType) -> (r: Result<Route, IoError>)
    ensures
        match r {
            Ok(Route::Tcp) => network == NetworkType::Ipv4 || network == NetworkType::Ipv6
                || network == NetworkType::Cjdns,
            Ok(Route::Socks5) => network == NetworkType::OnionV2 || network == NetworkType::OnionV3,
            Ok(Route::Sam) => network == NetworkType::I2p,
            Err(e) => network == NetworkType::Unknown && crate::io_error::is_io_error(
                e,
                IoErrorKind::Other,
                "unknown network type has no transport"@,
            ),
        },
{
    match network {
        NetworkType::Ipv4 | NetworkType::Ipv6 | NetworkType::Cjdns => Ok(Route::Tcp),
        NetworkType::OnionV2 | NetworkType::OnionV3 => Ok(Route::Socks5),
        NetworkType::I2p => Ok(Route::Sam),
        NetworkType::Unknown => Err(
            IoError::new(IoErrorKind::Other, "unknown network type has no transport"),
        ),
    }
}

// ---------------------------------------------------------------------------
// Clocks
// ---------------------------------------------------------------------------

/// `std::time::SystemTime::elapsed` since the epoch: the seconds, or `None` where the clock
/// stands before it.
#[verifier::external_body]
fn elapsed_since_epoch() -> Option<u64> {
    std::time::UNIX_EPOCH.elapsed().ok().map(|d| d.as_secs())
}

/// Epoch seconds from the time since the epoch; zero before it.
pub open spec fn epoch_value(elapsed: Option<u64>) -> i64 {
    match elapsed {
        Some(secs) => signed64(secs as nat),
        None => 0,
    }
}

/// Epoch seconds from the time since the epoch; zero before it.
pub fn epoch_seconds(elapsed: Option<u64>) -> (r: i64)
    ensures
        r == epoch_value(elapsed),
{
    match elapsed {
        Some(u) => {
            let v = u as i64;
            assert(u < 0x8000_0000_0000_0000 ==> v == u) by (bit_vector)
                requires
                    v == u as i64,
            ;
            assert(u >= 0x8000_0000_0000_0000 ==> v == u - 0x1_0000_0000_0000_0000)
                by (bit_vector)
                requires
                    v == u as i64,
            ;
            v
        },
        None => 0,
    }
}

/// Current UNIX epoch seconds.
pub fn now_epoch() -> (r: i64)
    ensures
        exists|elapsed: Option<u64>| r == #[trigger] epoch_value(elapsed),
{
    epoch_seconds(elapsed_since_epoch())
}

/// How long to wait for the next message: never past the deadline, and no longer than one
/// receive may take. `None` once the deadline has passed. All four are in one unit.
pub fn next_wait(now: u64, deadline: u64, per_receive: u64) -> (r: Option<u64>)
    ensures
        r == if now >= deadline {
            None::<u64>
        } else if deadline - now < per_receive {
            Some((deadline - now) as u64)
        } else {
            Some(per_receive)
        },
{
    if now >= deadline {
        None
    } else if deadline - now < per_receive {
        Some(deadline - now)
    } else {
        Some(per_receive)
    }
}

/// A length of time in its two or three leading units.
pub open spec fn eta_text(total: u64) -> Seq<char> {
    let days = total as nat / 86_400;
    let hours = (total as nat % 86_400) / 3_600;
    let minutes = (total as nat % 3_600) / 60;
    let seconds = total as nat % 60;
    if days > 0 {
        decimal(days) + "d "@ + decimal(hours) + "h "@ + decimal(minutes) + "m"@
    } else if hours > 0 {
        decimal(hours) + "h "@ + decimal(minutes) + "m "@ + decimal(seconds) + "s"@
    } else if minutes > 0 {
        decimal(minutes) + "m "@ + decimal(seconds) + "s"@
    } else {
        decimal(seconds) + "s"@
    }
}

/// A number of seconds for human readers.
pub fn format_eta(total: u64) -> (r: String)
    ensures
        r@ == eta_text(total),
{
    let days = total / 86_400;
    let hours = (total % 86_400) / 3_600;
    let minutes = (total % 3_600) / 60;
    let seconds = total % 60;
    let mut out: String = String::new();
    if days > 0 {
        push_decimal(&mut out, days);
        out.push_str("d ");
        push_decimal(&mut out, hours);
        out.push_str("h ");
        push_decimal(&mut out, minutes);
        out.push_str("m");
    } else if hours > 0 {
        push_decimal(&mut out, hours);
        out.push_str("h ");
        push_decimal(&mut out, minutes);
        out.push_str("m ");
        push_decimal(&mut out, seconds);
        out.push_str("s");
    } else if minutes > 0 {
        push_decimal(&mut out, minutes);
        out.push_str("m ");
        push_decimal(&mut out, seconds);
        out.push_str("s");
    } else {
        push_decimal(&mut out, seconds);
        out.push_str("s");
    }
    proof {
        assert(out@ =~= eta_text(total));
    }
    out
}

/// A one-address message is normally the peer's self-announcement, not the substantive
/// getaddr reply: any block of at least two addresses completes the response.
pub fn is_getaddr_reply_complete(address_count: usize) -> (r: bool)
    ensures
        r == (address_count > 1),
{
    address_count > 1
}

// ---------------------------------------------------------------------------
// Entries in the course of a crawl
// ---------------------------------------------------------------------------

/// Whether an address still has work to come.
pub open spec fn is_active(state: NodeState) -> bool {
    state == NodeState::Queued || state == NodeState::Processing
}

/// How many addresses still have work to come.
pub open spec fn active_count(rows: Seq<Row>) -> nat {
    state_count(rows, NodeState::Queued) + state_count(rows, NodeState::Processing)
}

/// The most attempts that any address gets.
pub open spec fn attempt_cap(settings: Settings) -> int {
    if settings.node_settings.handshake_attempts == 0 {
        1
    } else {
        settings.node_settings.handshake_attempts as int
    }
}

/// What holds of every entry between two steps of a crawl: its attempts are numbered from
/// one and counted, none is owed beyond the cap, its breakdown adds up, and its state agrees
/// with what has been seen of it.
pub open spec fn entry_sound(e: EntryView, cap: int) -> bool {
    &&& e.attempts.len() == e.stats.handshake_attempts
    &&& forall|k: int| 0 <= k < e.attempts.len() ==> (#[trigger] e.attempts[k]).attempt == k + 1
    &&& e.stats.handshake_attempts <= cap
    &&& e.state == NodeState::Queued ==> e.stats.handshake_attempts < cap
    &&& e.state == NodeState::StaleDiscarded ==> e.stats.handshake_attempts == 0
    &&& e.stats.balanced()
    &&& e.state == NodeState::Reachable ==> e.handshake is Some && e.failure is None
    &&& e.state == NodeState::Unreachable ==> e.stats.time_connect_ms is None && e.failure is Some
    &&& e.state == NodeState::HandshakeFailed ==> e.failure is Some
}

/// The record of an attempt that has just begun.
pub open spec fn begun_attempt(number: u32) -> AttemptView {
    AttemptView {
        attempt: number,
        connect_duration_ms: None,
        version_send_timestamp: None,
        outcome: "started"@,
        failure: None,
    }
}

/// An entry that a worker has taken up.
pub open spec fn begun(e: EntryView) -> EntryView {
    let number = (e.stats.handshake_attempts + 1) as u32;
    EntryView {
        state: NodeState::Processing,
        stats: NodeStats { handshake_attempts: number, ..e.stats },
        attempts: e.attempts.push(begun_attempt(number)),
        ..e
    }
}

/// `new` where there is one.
pub open spec fn or_keep<T>(new: Option<T>, kept: Option<T>) -> Option<T> {
    if new is Some {
        new
    } else {
        kept
    }
}

/// An entry whose latest attempt has got further; what is not given stays.
pub open spec fn noted(
    e: EntryView,
    outcome: Seq<char>,
    failure: Option<FailKind>,
    connect_duration_ms: Option<u64>,
    version_send_timestamp: Option<i64>,
) -> EntryView {
    if e.attempts.len() == 0 {
        e
    } else {
        let a = e.attempts.last();
        let b = AttemptView {
            attempt: a.attempt,
            connect_duration_ms: or_keep(connect_duration_ms, a.connect_duration_ms),
            version_send_timestamp: or_keep(version_send_timestamp, a.version_send_timestamp),
            outcome,
            failure: or_keep(failure, a.failure),
        };
        EntryView { attempts: e.attempts.update(e.attempts.len() - 1, b), ..e }
    }
}

/// An entry in its terminal state.
pub open spec fn ended(e: EntryView, terminal: NodeState, reason: Option<FailKind>) -> EntryView {
    EntryView { state: terminal, failure: reason, ..e }
}

fn note_attempt(
    e: &mut NodeEntry,
    outcome: &str,
    failure: Option<FailKind>,
    connect_duration_ms: Option<u64>,
    version_send_timestamp: Option<i64>,
)
    ensures
        final(e)@ == noted(
            old(e)@,
            outcome@,
            failure,
            connect_duration_ms,
            version_send_timestamp,
        ),
{
    let n = e.attempts.len();
    if n == 0 {
        return ;
    }
    let ghost before = e@;
    let a = &mut e.attempts[n - 1];
    a.outcome = outcome.to_owned();
    if failure.is_some() {
        a.failure = failure;
    }
    if connect_duration_ms.is_some() {
        a.connect_duration_ms = connect_duration_ms;
    }
    if version_send_timestamp.is_some() {
        a.version_send_timestamp = version_send_timestamp;
    }
    proof {
        let want = noted(
            before,
            outcome@,
            failure,
            connect_duration_ms,
            version_send_timestamp,
        );
        assert(e@.attempts =~= want.attempts);
    }
}

// ---------------------------------------------------------------------------
// The crawl as a value
// ---------------------------------------------------------------------------

/// What a [`Crawler`] holds.
pub struct CrawlView {
    pub store: StoreView,
    pub settings: Settings,
    pub num_processed: usize,
    pub shutdown: bool,
    pub node_limit_reached: bool,
    pub worker_failed: bool,
    pub output_failed: bool,
}

/// One attempt on an address that a worker has taken up.
#[derive(Debug, Clone, Copy)]
pub struct Attempt {
    pub network: NetworkType,
    pub timeouts: Timeouts,
    pub number: u32,
}

/// How many addresses stand where.
#[derive(Debug, Clone, Copy)]
pub struct Status {
    pub reachable: usize,
    pub handshake_failed: usize,
    pub unreachable: usize,
    pub queued: usize,
    pub processing: usize,
    /// Those that were worked on to the end.
    pub completed: usize,
    /// Those with work to come.
    pub remaining: usize,
}

proof fn lemma_three_states_bound(rows: Seq<Row>)
    ensures
        state_count(rows, NodeState::Reachable) + state_count(rows, NodeState::HandshakeFailed)
            + state_count(rows, NodeState::Unreachable) <= rows.len(),
    decreases rows.len(),
{
    if rows.len() > 0 {
        lemma_three_states_bound(rows.drop_last());
    }
}

/// What a worker does with an address from its queue.
pub enum WorkerStep {
    /// Work on it.
    Process(Attempt),
    /// The node limit is reached: it is discarded, and all queues close.
    Discard,
}

/// What becomes of an address after a failed attempt.
#[derive(Debug, Clone, Copy, PartialEq, Eq, Structural)]
pub enum Verdict {
    /// It is queued again. Should the queue be closed by now, it ends in the given state
    /// instead.
    Retry { on_closed: NodeState, reason: FailKind },
    /// It has reached its terminal state; `close` says that it was the last work of the
    /// crawl, so that all queues close.
    Ended { close: bool },
}

impl CrawlView {
    /// A crawl over the given store that has not done anything yet.
    pub open spec fn at_start(store: StoreView, settings: Settings) -> CrawlView {
        CrawlView {
            store,
            settings,
            num_processed: 0,
            shutdown: false,
            node_limit_reached: false,
            worker_failed: false,
            output_failed: false,
        }
    }

    /// Whether every address has one row and the counter of outstanding work is the number
    /// of addresses that are queued or being processed.
    pub open spec fn counted(self) -> bool {
        distinct_rows(self.store.rows) && self.store.outstanding == active_count(self.store.rows)
    }

    /// Whether ending an address in the given way agrees with what has been seen of it.
    pub open spec fn fits(self, key: KeyView, terminal: NodeState, reason: Option<FailKind>)
        -> bool {
        !is_active(terminal) && (self.entry_of(key) matches Some(e) ==> is_active(e.state)
            ==> entry_sound(ended(e, terminal, reason), attempt_cap(self.settings)))
    }

    /// Whether every entry is sound.
    pub open spec fn entries_sound(self) -> bool {
        forall|i: int|
            0 <= i < self.store.rows.len() ==> entry_sound(
                (#[trigger] self.store.rows[i]).1,
                attempt_cap(self.settings),
            )
    }

    /// Whether the books are in order where `uncounted` queued addresses have not been
    /// counted yet.
    pub open spec fn sound_but(self, uncounted: nat) -> bool {
        &&& distinct_rows(self.store.rows)
        &&& self.store.rows.len() <= self.store.max_entries
        &&& self.store.outstanding + uncounted == active_count(self.store.rows)
        &&& self.entries_sound()
        &&& self.settings.max_nodes matches Some(max) ==> self.num_processed <= max
    }

    /// What holds between two steps of a crawl: the counter of outstanding work is the
    /// number of addresses that are queued or being processed, every entry is sound, and
    /// both budgets are kept.
    pub open spec fn sound(self) -> bool {
        self.sound_but(0)
    }

    /// The entry of an address.
    pub open spec fn entry_of(self, key: KeyView) -> Option<EntryView> {
        match find_row(self.store.rows, key) {
            Some(i) => Some(self.store.rows[i].1),
            None => None,
        }
    }

    /// The crawl with an address's entry replaced; nothing changes for an unknown address.
    pub open spec fn with_entry(self, key: KeyView, e: EntryView) -> CrawlView {
        match find_row(self.store.rows, key) {
            Some(i) => CrawlView { store: self.store.with_row(i, e), ..self },
            None => self,
        }
    }

    /// The crawl with another count of outstanding work.
    pub open spec fn with_outstanding(self, n: usize) -> CrawlView {
        CrawlView { store: StoreView { outstanding: n, ..self.store }, ..self }
    }

    /// The network of an address: as stored, or as its host says.
    pub open spec fn network(self, key: KeyView) -> NetworkType {
        match self.entry_of(key) {
            Some(e) => e.network,
            None => network_of(key.0),
        }
    }

    /// Ending an address: whoever still has work to come gets the terminal state and is no
    /// longer counted; all queues close when it was the last. Any other is left alone.
    pub open spec fn after_finish(
        self,
        key: KeyView,
        terminal: NodeState,
        reason: Option<FailKind>,
    ) -> (bool, CrawlView) {
        match self.entry_of(key) {
            Some(e) if is_active(e.state) => (
                self.store.outstanding == 1,
                self.with_entry(key, ended(e, terminal, reason)).with_outstanding(
                    counter_minus(self.store.outstanding),
                ),
            ),
            _ => (false, self),
        }
    }

    /// Whether one more address may be worked on.
    pub open spec fn has_node_slot(self) -> bool {
        match self.settings.max_nodes {
            None => true,
            Some(max) => self.num_processed < max,
        }
    }

    /// Taking a node slot, or noting that there is none left.
    pub open spec fn after_slot(self) -> CrawlView {
        if self.has_node_slot() {
            CrawlView { num_processed: counter_plus(self.num_processed), ..self }
        } else {
            CrawlView { node_limit_reached: true, ..self }
        }
    }

    /// Taking up an address from a queue.
    pub open spec fn after_take(self, key: KeyView) -> CrawlView {
        if !self.has_node_slot() {
            self.after_slot().after_finish(key, NodeState::BudgetDiscarded, None).1
        } else {
            match self.entry_of(key) {
                Some(e) => self.after_slot().with_entry(key, begun(e)),
                None => self.after_slot(),
            }
        }
    }

    /// Noting how far the latest attempt on an address has got.
    pub open spec fn after_note(
        self,
        key: KeyView,
        outcome: Seq<char>,
        failure: Option<FailKind>,
        connect_duration_ms: Option<u64>,
        version_send_timestamp: Option<i64>,
    ) -> CrawlView {
        match self.entry_of(key) {
            Some(e) => self.with_entry(
                key,
                noted(e, outcome, failure, connect_duration_ms, version_send_timestamp),
            ),
            None => self,
        }
    }

    /// A failed attempt: the address is queued again where it may be, and ends otherwise.
    pub open spec fn after_failure(
        self,
        key: KeyView,
        should_retry: bool,
        terminal: NodeState,
        reason: FailKind,
    ) -> (Verdict, CrawlView) {
        if should_retry {
            (
                Verdict::Retry { on_closed: terminal, reason },
                match self.entry_of(key) {
                    Some(e) => self.with_entry(key, EntryView { state: NodeState::Queued, ..e }),
                    None => self,
                },
            )
        } else {
            let (close, next) = self.after_finish(key, terminal, Some(reason));
            (Verdict::Ended { close }, next)
        }
    }

    /// Whether a worker has the address in hand, on the given attempt.
    pub open spec fn in_hand(self, key: KeyView, number: u32) -> bool {
        self.entry_of(key) matches Some(e) ==> e.state == NodeState::Processing
            && e.stats.handshake_attempts == number
    }
}

/// The crawler: the store, the settings, and the counters and flags of the run.
pub struct Crawler {
    store: NodeStore,
    settings: Settings,
    num_processed: usize,
    shutdown: bool,
    node_limit_reached: bool,
    worker_failed: bool,
    output_failed: bool,
}

impl View for Crawler {
    type V = CrawlView;

    closed spec fn view(&self) -> CrawlView {
        CrawlView {
            store: self.store@,
            settings: self.settings,
            num_processed: self.num_processed,
            shutdown: self.shutdown,
            node_limit_reached: self.node_limit_reached,
            worker_failed: self.worker_failed,
            output_failed: self.output_failed,
        }
    }
}

/// Replacing an entry by a sound one keeps the books in order, as long as its share of the
/// outstanding work is accounted for.
proof fn lemma_replace(c: CrawlView, key: KeyView, e: EntryView, uncounted: nat)
    requires
        c.sound_but(uncounted),
        c.entry_of(key) is Some,
        entry_sound(e, attempt_cap(c.settings)),
    ensures
        c.with_entry(key, e).entries_sound(),
        distinct_rows(c.with_entry(key, e).store.rows),
        active_count(c.with_entry(key, e).store.rows) == active_count(c.store.rows) - (if is_active(
            c.entry_of(key)->Some_0.state,
        ) {
            1int
        } else {
            0int
        }) + (if is_active(e.state) {
            1int
        } else {
            0int
        }),
        is_active(c.entry_of(key)->Some_0.state) ==> active_count(c.store.rows) >= 1,
        c.with_entry(key, e).entry_of(key) == Some(e),
        c.with_entry(key, e).store.rows.len() == c.store.rows.len(),
        is_active(c.entry_of(key)->Some_0.state) == is_active(e.state) ==> c.with_entry(
            key,
            e,
        ).sound_but(uncounted),
{
    lemma_find_row(c.store.rows, key);
    let i = find_row(c.store.rows, key)->Some_0;
    let rows = c.store.rows;
    let row = (rows[i].0, e);
    let next = rows.update(i, row);
    lemma_state_count_update(rows, i, row, NodeState::Queued);
    lemma_state_count_update(rows, i, row, NodeState::Processing);
    assert(c.with_entry(key, e).store.rows == next);
    assert forall|a: int, b: int| 0 <= a < b < next.len() implies (#[trigger] next[a]).0 != (
    #[trigger] next[b]).0 by {
        assert(next[a].0 == rows[a].0);
        assert(next[b].0 == rows[b].0);
    }
    assert forall|j: int| 0 <= j < next.len() implies entry_sound(
        (#[trigger] next[j]).1,
        attempt_cap(c.settings),
    ) by {
        if j != i {
            assert(next[j] == rows[j]);
        }
    }
    lemma_find_row_at(next, i);
}

/// Adding a sound entry keeps the books in order, as long as its share of the outstanding
/// work is accounted for.
proof fn lemma_add(c: CrawlView, key: KeyView, e: EntryView, uncounted: nat)
    requires
        c.sound_but(uncounted),
        c.entry_of(key) is None,
        c.store.rows.len() < c.store.max_entries,
        entry_sound(e, attempt_cap(c.settings)),
    ensures
        ({
            let next = CrawlView { store: c.store.with_new_row(key, e), ..c };
            &&& next.entries_sound()
            &&& distinct_rows(next.store.rows)
            &&& next.store.rows.len() <= next.store.max_entries
            &&& active_count(next.store.rows) == active_count(c.store.rows) + (if is_active(
                e.state,
            ) {
                1int
            } else {
                0int
            })
            &&& next.entry_of(key) == Some(e)
        }),
{
    let rows = c.store.rows;
    lemma_find_row(rows, key);
    let next = rows.push((key, e));
    lemma_state_count_push(rows, (key, e), NodeState::Queued);
    lemma_state_count_push(rows, (key, e), NodeState::Processing);
    assert forall|a: int, b: int| 0 <= a < b < next.len() implies (#[trigger] next[a]).0 != (
    #[trigger] next[b]).0 by {
        assert(next[a] == rows[a]);
        if b < rows.len() {
            assert(next[b] == rows[b]);
        }
    }
    assert forall|j: int| 0 <= j < next.len() implies entry_sound(
        (#[trigger] next[j]).1,
        attempt_cap(c.settings),
    ) by {
        if j < rows.len() {
            assert(next[j] == rows[j]);
        }
    }
    lemma_find_row_at(next, rows.len() as int);
}

/// A known entry is sound.
proof fn lemma_known_sound(c: CrawlView, key: KeyView, uncounted: nat)
    requires
        c.sound_but(uncounted),
    ensures
        c.entry_of(key) matches Some(e) ==> entry_sound(e, attempt_cap(c.settings)),
{
    lemma_find_row(c.store.rows, key);
}

/// Noting progress changes nothing that soundness speaks of.
proof fn lemma_noted_sound(
    e: EntryView,
    cap: int,
    outcome: Seq<char>,
    failure: Option<FailKind>,
    ms: Option<u64>,
    ts: Option<i64>,
)
    requires
        entry_sound(e, cap),
    ensures
        entry_sound(noted(e, outcome, failure, ms, ts), cap),
{
    let n = noted(e, outcome, failure, ms, ts);
    assert forall|k: int| 0 <= k < n.attempts.len() implies (#[trigger] n.attempts[k]).attempt == k
        + 1 by {
        assert(e.attempts[k].attempt == k + 1);
    }
}

proof fn lemma_begun_sound(e: EntryView, cap: int)
    requires
        entry_sound(e, cap),
        e.stats.handshake_attempts < cap,
        cap <= u32::MAX,
    ensures
        entry_sound(begun(e), cap),
{
    let n = begun(e);
    assert forall|k: int| 0 <= k < n.attempts.len() implies (#[trigger] n.attempts[k]).attempt == k
        + 1 by {
        if k < e.attempts.len() {
            assert(n.attempts[k] == e.attempts[k]);
        }
    }
}

impl Crawler {
    /// Whether the store is well-formed.
    pub closed spec fn store_wf(&self) -> bool {
        self.store.wf()
    }

    /// Whether the store is well-formed and the books are in order where `uncounted` queued
    /// addresses have not been counted yet.
    pub open spec fn wf_but(&self, uncounted: nat) -> bool {
        self.store_wf() && self@.sound_but(uncounted)
    }

    /// Whether the store is well-formed and the books are in order.
    pub open spec fn wf(&self) -> bool {
        self.wf_but(0)
    }

    /// A well-formed store has one row per address, and no more rows than its budget.
    pub proof fn law_one_row_per_address(&self)
        requires
            self.store_wf(),
        ensures
            distinct_rows(self@.store.rows),
            self@.store.rows.len() <= self@.store.max_entries,
    {
        self.store.lemma_wf();
    }

    /// A crawl that starts from a store whose books are in order.
    pub fn new(store: NodeStore, settings: Settings) -> (r: Self)
        requires
            store.wf(),
            CrawlView::at_start(store@, settings).sound(),
        ensures
            r.wf(),
            r@ == CrawlView::at_start(store@, settings),
    {
        Crawler {
            store,
            settings,
            num_processed: 0,
            shutdown: false,
            node_limit_reached: false,
            worker_failed: false,
            output_failed: false,
        }
    }

    /// The store.
    pub fn store(&self) -> (r: &NodeStore)
        ensures
            r@ == self@.store,
            self.store_wf() ==> r.wf(),
    {
        &self.store
    }

    /// The settings.
    pub fn settings(&self) -> (r: &Settings)
        ensures
            *r == self@.settings,
    {
        &self.settings
    }

    /// How many node slots have been taken.
    pub fn num_processed(&self) -> (r: usize)
        ensures
            r == self@.num_processed,
    {
        self.num_processed
    }

    /// Notes that the address log could not be written.
    pub fn mark_output_failed(&mut self)
        ensures
            final(self)@ == (CrawlView { output_failed: true, ..old(self)@ }),
            old(self).wf() ==> final(self).wf(),
    {
        self.output_failed = true;
    }

    /// Notes that a worker has failed, which ends the crawl.
    pub fn mark_worker_failed(&mut self)
        ensures
            final(self)@ == (CrawlView { worker_failed: true, shutdown: true, ..old(self)@ }),
            old(self).wf() ==> final(self).wf(),
    {
        self.worker_failed = true;
        self.shutdown = true;
    }

    /// Asks all workers to stop after the address in hand.
    pub fn request_shutdown(&mut self)
        ensures
            final(self)@ == (CrawlView { shutdown: true, ..old(self)@ }),
            old(self).wf() ==> final(self).wf(),
    {
        self.shutdown = true;
    }

    /// Whether workers are to stop.
    pub fn shutdown_requested(&self) -> (r: bool)
        ensures
            r == self@.shutdown,
    {
        self.shutdown
    }

    /// Whether the crawl ended before its frontier was exhausted.
    pub fn terminated_early(&self) -> (r: bool)
        ensures
            r == (self@.shutdown || self@.node_limit_reached),
    {
        self.shutdown || self.node_limit_reached
    }

    /// How the crawl ended once all workers have returned: a failed worker is reported first,
    /// then an address log that could not be written.
    pub fn result(&self) -> (r: Result<(), &'static str>)
        ensures
            match r {
                Ok(()) => !self@.worker_failed && !self@.output_failed,
                Err(why) => why@ == if self@.worker_failed {
                    "one or more worker tasks failed"@
                } else {
                    "address observation log failed"@
                } && (self@.worker_failed || self@.output_failed),
            },
    {
        if self.worker_failed {
            Err("one or more worker tasks failed")
        } else if self.output_failed {
            Err("address observation log failed")
        } else {
            Ok(())
        }
    }

    /// Where the crawl stands.
    pub fn status(&self) -> (r: Status)
        requires
            self.wf(),
        ensures
            r.reachable == state_count(self@.store.rows, NodeState::Reachable),
            r.handshake_failed == state_count(self@.store.rows, NodeState::HandshakeFailed),
            r.unreachable == state_count(self@.store.rows, NodeState::Unreachable),
            r.queued == state_count(self@.store.rows, NodeState::Queued),
            r.processing == state_count(self@.store.rows, NodeState::Processing),
            r.completed == r.reachable + r.handshake_failed + r.unreachable,
            r.remaining == self@.store.outstanding,
    {
        let reachable = self.store.count_state(NodeState::Reachable);
        let handshake_failed = self.store.count_state(NodeState::HandshakeFailed);
        let unreachable = self.store.count_state(NodeState::Unreachable);
        proof {
            lemma_three_states_bound(self@.store.rows);
            assert(self@.store.rows.len() <= usize::MAX);
        }
        Status {
            reachable,
            handshake_failed,
            unreachable,
            queued: self.store.count_state(NodeState::Queued),
            processing: self.store.count_state(NodeState::Processing),
            completed: reachable + handshake_failed + unreachable,
            remaining: self.store.outstanding(),
        }
    }

    /// The network of an address: as stored, or as its host says.
    pub fn network_of(&self, key: &AddrKey) -> (r: NetworkType)
        requires
            self.wf(),
        ensures
            r == self@.network(key@),
    {
        match self.store.network_of(key) {
            Some(n) => n,
            None => classify(&key.host),
        }
    }

    /// Takes a node slot, unless the node limit is reached.
    pub fn reserve_node_slot(&mut self) -> (r: bool)
        ensures
            r == old(self)@.has_node_slot(),
            final(self)@ == old(self)@.after_slot(),
            old(self).wf() ==> final(self).wf(),
    {
        let reserved = match self.settings.max_nodes {
            None => true,
            Some(max) => self.num_processed < max,
        };
        if reserved {
            if self.num_processed == usize::MAX {
                self.num_processed = 0;
            } else {
                self.num_processed = self.num_processed + 1;
            }
        } else {
            self.node_limit_reached = true;
        }
        reserved
    }

    /// Moves an address to a terminal state, recording the failure reason (if any). Returns
    /// whether all queues close because it was the last outstanding work of the crawl. The
    /// books stay in order where the ending agrees with what has been seen of the address.
    pub fn finish(&mut self, key: &AddrKey, terminal: NodeState, reason: Option<FailKind>) -> (r:
        bool)
        requires
            old(self).store_wf(),
        ensures
            final(self).store_wf(),
            (r, final(self)@) == old(self)@.after_finish(key@, terminal, reason),
            old(self).wf() && old(self)@.fits(key@, terminal, reason) ==> final(self).wf(),
    {
        let mut was_active = false;
        let ghost c = self@;
        match self.store.entry_mut(key) {
            Some(e) => {
                was_active = e.state == NodeState::Queued || e.state == NodeState::Processing;
                if was_active {
                    e.state = terminal;
                    e.failure = reason;
                }
            },
            None => {},
        }
        proof {
            if was_active {
                if c.sound() && c.fits(key@, terminal, reason) {
                    lemma_replace(c, key@, ended(c.entry_of(key@)->Some_0, terminal, reason), 0);
                }
            } else if let Some(i) = find_row(c.store.rows, key@) {
                lemma_find_row(c.store.rows, key@);
                assert(c.store.rows.update(i, c.store.rows[i]) =~= c.store.rows);
            }
        }
        if was_active {
            let before = self.store.decr_outstanding();
            return before == 1;
        }
        false
    }

    /// Notes how far the latest attempt on an address has got.
    fn update_attempt(
        &mut self,
        key: &AddrKey,
        outcome: &str,
        failure: Option<FailKind>,
        connect_duration_ms: Option<u64>,
        version_send_timestamp: Option<i64>,
    )
        requires
            old(self).wf(),
        ensures
            final(self).wf(),
            final(self)@ == old(self)@.after_note(
                key@,
                outcome@,
                failure,
                connect_duration_ms,
                version_send_timestamp,
            ),
            final(self)@.entry_of(key@) == match old(self)@.entry_of(key@) {
                Some(e) => Some(
                    noted(e, outcome@, failure, connect_duration_ms, version_send_timestamp),
                ),
                None => None,
            },
    {
        let ghost c = self@;
        match self.store.entry_mut(key) {
            Some(e) => {
                note_attempt(
                    e,
                    outcome,
                    failure,
                    connect_duration_ms,
                    version_send_timestamp,
                );
            },
            None => {},
        }
        proof {
            if let Some(e) = c.entry_of(key@) {
                let n = noted(
                    e,
                    outcome@,
                    failure,
                    connect_duration_ms,
                    version_send_timestamp,
                );
                lemma_known_sound(c, key@, 0);
                lemma_noted_sound(
                    e,
                    attempt_cap(c.settings),
                    outcome@,
                    failure,
                    connect_duration_ms,
                    version_send_timestamp,
                );
                lemma_replace(c, key@, n, 0);
            }
        }
    }

    /// Takes up an address that a worker has received from its queue: it counts against the
    /// node limit and begins an attempt, or is discarded.
    pub fn take(&mut self, key: &AddrKey) -> (r: WorkerStep)
        requires
            old(self).wf(),
            old(self)@.entry_of(key@) matches Some(e) ==> e.state == NodeState::Queued,
        ensures
            final(self).wf(),
            final(self)@ == old(self)@.after_take(key@),
            match r {
                WorkerStep::Process(a) => {
                    &&& old(self)@.has_node_slot()
                    &&& a.network == old(self)@.network(key@)
                    &&& a.timeouts == old(self)@.settings.network_timeouts(a.network)
                    &&& final(self)@.in_hand(key@, a.number)
                    &&& old(self)@.entry_of(key@) is None ==> a.number == 1
                },
                WorkerStep::Discard => !old(self)@.has_node_slot(),
            },
    {
        let network = self.network_of(key);
        let timeouts = self.settings.timeouts_for(network);
        if !self.reserve_node_slot() {
            proof {
                lemma_known_sound(self@, key@, 0);
            }
            let _closed = self.finish(key, NodeState::BudgetDiscarded, None);
            return WorkerStep::Discard;
        }
        let ghost c = self@;
        proof {
            lemma_known_sound(c, key@, 0);
            if let Some(e) = c.entry_of(key@) {
                lemma_begun_sound(e, attempt_cap(c.settings));
                lemma_replace(c, key@, begun(e), 0);
            }
        }
        let mut number: u32 = 1;
        match self.store.entry_mut(key) {
            Some(e) => {
                number = start_attempt(e);
            },
            None => {},
        }
        WorkerStep::Process(Attempt { network, timeouts, number })
    }

    /// A connection could not be made. An address that connected on an earlier attempt has
    /// proven that it is there, so it does not end as unreachable.
    pub fn connect_failed(&mut self, key: &AddrKey, attempt: &Attempt, error: &IoError) -> (r:
        Verdict)
        requires
            old(self).wf(),
            old(self)@.in_hand(key@, attempt.number),
        ensures
            final(self).wf(),
            (r, final(self)@) == old(self)@.after_connect_failure(
                key@,
                attempt.number,
                connect_failure(*error, attempt.network),
            ),
    {
        let kind = classify_connect_error(error, attempt.network);
        self.update_attempt(key, "connect_failed", Some(kind), None, None);
        let ever_connected = match self.store.entry(key) {
            Some(e) => e.stats.time_connect_ms.is_some(),
            None => false,
        };
        let terminal = if ever_connected {
            NodeState::HandshakeFailed
        } else {
            NodeState::Unreachable
        };
        let should_retry = attempt.number < self.settings.node_settings.handshake_attempts;
        self.retry_or_finish(key, should_retry, terminal, kind)
    }

    /// A connection has been made.
    pub fn connected(&mut self, key: &AddrKey, connect_ms: u64)
        requires
            old(self).wf(),
            old(self)@.entry_of(key@) matches Some(e) ==> e.state == NodeState::Processing,
        ensures
            final(self).wf(),
            final(self)@ == old(self)@.after_connect(key@, connect_ms),
    {
        let ghost c = self@;
        match self.store.entry_mut(key) {
            Some(e) => {
                e.stats.time_connect_ms = Some(connect_ms);
            },
            None => {},
        }
        proof {
            if let Some(e) = c.entry_of(key@) {
                lemma_known_sound(c, key@, 0);
                lemma_replace(c, key@, with_connect_time(e, connect_ms), 0);
            }
        }
        self.update_attempt(key, "connected", None, Some(connect_ms), None);
    }

    /// The crawler's `version` message has been written.
    pub fn version_sent(&mut self, key: &AddrKey, sent_ts: i64)
        requires
            old(self).wf(),
        ensures
            final(self).wf(),
            final(self)@ == old(self)@.after_version_sent(key@, sent_ts),
    {
        let ghost c = self@;
        match self.store.entry_mut(key) {
            Some(e) => {
                if e.stats.first_version_send_ts.is_none() {
                    e.stats.first_version_send_ts = Some(sent_ts);
                }
            },
            None => {},
        }
        proof {
            if let Some(e) = c.entry_of(key@) {
                lemma_known_sound(c, key@, 0);
                lemma_replace(c, key@, with_version_time(e, sent_ts), 0);
            }
        }
        self.update_attempt(key, "version_sent", None, None, Some(sent_ts));
    }

    /// The peer stayed silent for the whole handshake deadline, which is retried only where
    /// the settings say so.
    pub fn handshake_timed_out(&mut self, key: &AddrKey, attempt: &Attempt) -> (r: Verdict)
        requires
            old(self).wf(),
            old(self)@.in_hand(key@, attempt.number),
        ensures
            final(self).wf(),
            (r, final(self)@) == old(self)@.after_handshake_timeout(key@, attempt.number),
    {
        let should_retry = self.settings.retry_on_timeout && attempt.number
            < self.settings.node_settings.handshake_attempts;
        self.update_attempt(key, "handshake_timeout", Some(FailKind::HandshakeTimeout), None, None);
        self.retry_or_finish(
            key,
            should_retry,
            NodeState::HandshakeFailed,
            FailKind::HandshakeTimeout,
        )
    }

    /// The handshake failed for a transport or protocol reason.
    pub fn handshake_failed(&mut self, key: &AddrKey, attempt: &Attempt, kind: FailKind) -> (r:
        Verdict)
        requires
            old(self).wf(),
            old(self)@.in_hand(key@, attempt.number),
        ensures
            final(self).wf(),
            (r, final(self)@) == old(self)@.after_handshake_failure(key@, attempt.number, kind),
    {
        let should_retry = attempt.number < self.settings.node_settings.handshake_attempts;
        self.update_attempt(key, "handshake_failed", Some(kind), None, None);
        self.retry_or_finish(key, should_retry, NodeState::HandshakeFailed, kind)
    }

    /// Queues an address again where it may be tried again, and ends it otherwise.
    fn retry_or_finish(
        &mut self,
        key: &AddrKey,
        should_retry: bool,
        terminal: NodeState,
        reason: FailKind,
    ) -> (r: Verdict)
        requires
            old(self).wf(),
            terminal == NodeState::HandshakeFailed || terminal == NodeState::Unreachable,
            old(self)@.entry_of(key@) matches Some(e) ==> e.state == NodeState::Processing && (
            should_retry ==> e.stats.handshake_attempts < attempt_cap(old(self)@.settings)) && (
            terminal == NodeState::Unreachable ==> e.stats.time_connect_ms is None),
        ensures
            final(self).wf(),
            (r, final(self)@) == old(self)@.after_failure(key@, should_retry, terminal, reason),
    {
        proof {
            lemma_known_sound(self@, key@, 0);
        }
        if should_retry {
            self.requeue(key);
            Verdict::Retry { on_closed: terminal, reason }
        } else {
            let close = self.finish(key, terminal, Some(reason));
            Verdict::Ended { close }
        }
    }

    /// Moves an address from being processed back to being queued, which leaves the count of
    /// outstanding work as it is.
    fn requeue(&mut self, key: &AddrKey)
        requires
            old(self).wf(),
            old(self)@.entry_of(key@) matches Some(e) ==> e.state == NodeState::Processing
                && e.stats.handshake_attempts < attempt_cap(old(self)@.settings),
        ensures
            final(self).wf(),
            final(self)@ == match old(self)@.entry_of(key@) {
                Some(e) => old(self)@.with_entry(key@, EntryView { state: NodeState::Queued, ..e }),
                None => old(self)@,
            },
    {
        let ghost c = self@;
        match self.store.entry_mut(key) {
            Some(e) => {
                e.state = NodeState::Queued;
            },
            None => {},
        }
        proof {
            if let Some(e) = c.entry_of(key@) {
                lemma_known_sound(c, key@, 0);
                lemma_replace(c, key@, EntryView { state: NodeState::Queued, ..e }, 0);
            }
        }
    }

    /// The queue was closed before a retry could be sent: the address ends as the failure
    /// that led to the retry says. Returns whether all queues close.
    pub fn retry_rejected(&mut self, key: &AddrKey, on_closed: NodeState, reason: FailKind) -> (r:
        bool)
        requires
            old(self).wf(),
            on_closed == NodeState::HandshakeFailed || on_closed == NodeState::Unreachable,
            on_closed == NodeState::Unreachable ==> (old(self)@.entry_of(key@) matches Some(e)
                ==> e.stats.time_connect_ms is None),
        ensures
            final(self).wf(),
            (r, final(self)@) == old(self)@.after_finish(key@, on_closed, Some(reason)),
    {
        proof {
            lemma_known_sound(self@, key@, 0);
        }
        self.finish(key, on_closed, Some(reason))
    }

    /// The task that worked on an address failed, which ends the crawl. Returns whether it
    /// was the last outstanding work.
    pub fn worker_task_failed(&mut self, key: &AddrKey) -> (r: bool)
        requires
            old(self).wf(),
        ensures
            final(self).wf(),
            (r, final(self)@) == (CrawlView {
                worker_failed: true,
                shutdown: true,
                ..old(self)@
            }).after_finish(key@, NodeState::HandshakeFailed, Some(FailKind::WorkerFailed)),
    {
        self.mark_worker_failed();
        proof {
            lemma_known_sound(self@, key@, 0);
        }
        self.finish(key, NodeState::HandshakeFailed, Some(FailKind::WorkerFailed))
    }

    /// The handshake is complete: keeps the peer's metadata and returns it.
    pub fn handshake_completed(
        &mut self,
        key: &AddrKey,
        v: &VersionData,
        sent_ts: i64,
        duration_ms: u64,
        socket_local: String,
        socket_peer: String,
    ) -> (r: HandshakeData)
        requires
            old(self).wf(),
        ensures
            final(self).wf(),
            r@ == handshake_view(
                v@,
                sent_ts,
                duration_ms,
                addr_text(key@.0, key@.1),
                addr_text(key@.0, key@.1),
                socket_local@,
                socket_peer@,
            ),
            final(self)@ == old(self)@.after_handshake(key@, r@),
    {
        let hd = HandshakeData::from_version(
            v,
            sent_ts,
            duration_ms,
            key.render(),
            key.render(),
            socket_local,
            socket_peer,
        );
        let ghost c = self@;
        let copy = hd.clone();
        match self.store.entry_mut(key) {
            Some(e) => {
                e.handshake = Some(copy);
            },
            None => {},
        }
        proof {
            if let Some(e) = c.entry_of(key@) {
                lemma_known_sound(c, key@, 0);
                lemma_replace(c, key@, EntryView { handshake: Some(hd@), ..e }, 0);
            }
        }
        hd
    }

    /// Keeps how the collection of a peer's addresses ended.
    pub fn collection_ended(&mut self, key: &AddrKey, outcome: CollectionOutcome)
        requires
            old(self).wf(),
        ensures
            final(self).wf(),
            final(self)@ == old(self)@.after_collection(key@, outcome),
    {
        let ghost c = self@;
        match self.store.entry_mut(key) {
            Some(e) => {
                e.stats.collection_outcome = outcome;
            },
            None => {},
        }
        proof {
            if let Some(e) = c.entry_of(key@) {
                lemma_known_sound(c, key@, 0);
                lemma_replace(
                    c,
                    key@,
                    EntryView {
                        stats: NodeStats { collection_outcome: outcome, ..e.stats },
                        ..e
                    },
                    0,
                );
            }
        }
    }

    /// All work on a reachable address is done. Returns whether all queues close.
    pub fn completed(&mut self, key: &AddrKey, sent_ts: i64) -> (r: bool)
        requires
            old(self).wf(),
            old(self)@.entry_of(key@) matches Some(e) ==> e.handshake is Some,
        ensures
            final(self).wf(),
            (r, final(self)@) == old(self)@.after_completion(key@, sent_ts),
    {
        proof {
            lemma_find_row(self@.store.rows, key@);
            if let Some(e) = self@.entry_of(key@) {
                lemma_known_sound(self@, key@, 0);
                let n = noted(e, "handshake_complete"@, None, None, Some(sent_ts));
                lemma_noted_sound(
                    e,
                    attempt_cap(self@.settings),
                    "handshake_complete"@,
                    None,
                    None,
                    Some(sent_ts),
                );
                lemma_replace(self@, key@, n, 0);
            }
        }
        self.update_attempt(key, "handshake_complete", None, None, Some(sent_ts));
        proof {
            lemma_known_sound(self@, key@, 0);
        }
        self.finish(key, NodeState::Reachable, None)
    }
}

fn start_attempt(e: &mut NodeEntry) -> (r: u32)
    requires
        old(e).stats.handshake_attempts < u32::MAX,
    ensures
        final(e)@ == begun(old(e)@),
        r == old(e).stats.handshake_attempts + 1,
{
    let ghost before = e@;
    e.state = NodeState::Processing;
    let number: u32 = e.stats.handshake_attempts + 1;
    e.stats.handshake_attempts = number;
    e.attempts.push(
        AttemptData {
            attempt: number,
            connect_duration_ms: None,
            version_send_timestamp: None,
            outcome: "started".to_owned(),
            failure: None,
        },
    );
    proof {
        assert(e@.attempts =~= begun(before).attempts);
    }
    number
}

/// An entry whose connect time is known.
pub open spec fn with_connect_time(e: EntryView, connect_ms: u64) -> EntryView {
    EntryView { stats: NodeStats { time_connect_ms: Some(connect_ms), ..e.stats }, ..e }
}

/// An entry to which a `version` message has been sent; the first time counts.
pub open spec fn with_version_time(e: EntryView, sent_ts: i64) -> EntryView {
    EntryView {
        stats: NodeStats {
            first_version_send_ts: or_keep(e.stats.first_version_send_ts, Some(sent_ts)),
            ..e.stats
        },
        ..e
    }
}

impl CrawlView {
    /// A connection could not be made.
    pub open spec fn after_connect_failure(self, key: KeyView, number: u32, kind: FailKind) -> (
        Verdict,
        CrawlView,
    ) {
        let terminal = match self.entry_of(key) {
            Some(e) if e.stats.time_connect_ms is Some => NodeState::HandshakeFailed,
            _ => NodeState::Unreachable,
        };
        self.after_note(key, "connect_failed"@, Some(kind), None, None).after_failure(
            key,
            number < self.settings.node_settings.handshake_attempts,
            terminal,
            kind,
        )
    }

    /// A connection has been made.
    pub open spec fn after_connect(self, key: KeyView, connect_ms: u64) -> CrawlView {
        match self.entry_of(key) {
            Some(e) => self.with_entry(key, with_connect_time(e, connect_ms)).after_note(
                key,
                "connected"@,
                None,
                Some(connect_ms),
                None,
            ),
            None => self,
        }
    }

    /// The crawler's `version` message has been written.
    pub open spec fn after_version_sent(self, key: KeyView, sent_ts: i64) -> CrawlView {
        match self.entry_of(key) {
            Some(e) => self.with_entry(key, with_version_time(e, sent_ts)).after_note(
                key,
                "version_sent"@,
                None,
                None,
                Some(sent_ts),
            ),
            None => self,
        }
    }

    /// The peer stayed silent for the whole handshake deadline.
    pub open spec fn after_handshake_timeout(self, key: KeyView, number: u32) -> (
        Verdict,
        CrawlView,
    ) {
        self.after_note(
            key,
            "handshake_timeout"@,
            Some(FailKind::HandshakeTimeout),
            None,
            None,
        ).after_failure(
            key,
            self.settings.retry_on_timeout && number
                < self.settings.node_settings.handshake_attempts,
            NodeState::HandshakeFailed,
            FailKind::HandshakeTimeout,
        )
    }

    /// The handshake failed for a transport or protocol reason.
    pub open spec fn after_handshake_failure(self, key: KeyView, number: u32, kind: FailKind) -> (
        Verdict,
        CrawlView,
    ) {
        self.after_note(key, "handshake_failed"@, Some(kind), None, None).after_failure(
            key,
            number < self.settings.node_settings.handshake_attempts,
            NodeState::HandshakeFailed,
            kind,
        )
    }
}

// ---------------------------------------------------------------------------
// The frontier
// ---------------------------------------------------------------------------

/// The statistics after the first `n` of some addresses have been counted.
pub open spec fn with_all_advertised(stats: NodeStats, addrs: Seq<AddrView>, n: nat) -> NodeStats
    decreases n,
{
    if n == 0 {
        stats
    } else {
        with_all_advertised(stats, addrs, (n - 1) as nat).with_advertised(addrs[n - 1].network)
    }
}

/// The statistics with addresses of unknown networks counted.
pub open spec fn with_unknown_advertised(stats: NodeStats, n: u64) -> NodeStats {
    NodeStats {
        advertised_total: (stats.advertised_total + n) as u64,
        advertised_unknown: (stats.advertised_unknown + n) as u64,
        ..stats
    }
}

/// The statistics of a peer after one of its messages has been counted: every address of it,
/// whether known or new, enabled or not.
pub open spec fn with_message(stats: NodeStats, addrs: Seq<AddrView>, unknown: u64) -> NodeStats {
    with_unknown_advertised(with_all_advertised(stats, addrs, addrs.len()), unknown)
}

/// The positions of the addresses whose network is enabled, in order, among the first `n`.
pub open spec fn enabled_positions(settings: Settings, addrs: Seq<AddrView>, n: nat) -> Seq<usize>
    decreases n,
{
    if n == 0 {
        Seq::empty()
    } else {
        let before = enabled_positions(settings, addrs, (n - 1) as nat);
        if settings.enables(addrs[n - 1].network) {
            before.push((n - 1) as usize)
        } else {
            before
        }
    }
}

/// An address that was put into the queue of a transport.
pub type Sent = (KeyView, Transport);

impl CrawlView {
    /// Counting an address that is about to become visible in its queue.
    pub open spec fn after_enqueue(self) -> CrawlView {
        self.with_outstanding(counter_plus(self.store.outstanding))
    }

    /// Seeding an address: a new one is queued and counted.
    pub open spec fn after_seed(self, key: KeyView, now: i64) -> (bool, CrawlView) {
        let (outcome, store) = self.store.after_seed(key, now);
        let next = CrawlView { store, ..self };
        if outcome.newly_queued {
            (true, next.after_enqueue())
        } else {
            (false, next)
        }
    }

    /// Observing one advertised address: whoever is queued for it is counted.
    pub open spec fn after_advert(self, a: AddrView, now: i64) -> (Option<Sent>, CrawlView) {
        let key = (a.host, a.port);
        let (outcome, store) = self.store.after_frontier(
            key,
            a.timestamp,
            a.network,
            self.settings.freshness_threshold,
            now,
        );
        let next = CrawlView { store, ..self };
        if outcome == FrontierOutcome::Enqueue {
            (Some((key, network_transport(next.network(key)))), next.after_enqueue())
        } else {
            (None, next)
        }
    }

    /// Observing advertised addresses in the given order of positions.
    pub open spec fn after_feed(self, addrs: Seq<AddrView>, order: Seq<usize>, now: i64) -> (
        Seq<Sent>,
        CrawlView,
    )
        decreases order.len(),
    {
        if order.len() == 0 {
            (Seq::empty(), self)
        } else {
            let (sent, c) = self.after_feed(addrs, order.drop_last(), now);
            let (one, next) = c.after_advert(addrs[order.last() as int], now);
            match one {
                Some(s) => (sent.push(s), next),
                None => (sent, next),
            }
        }
    }
}

/// What was put into queues, as values.
pub open spec fn sent_views(sent: Seq<(AddrKey, Transport)>) -> Seq<Sent> {
    Seq::new(sent.len(), |i: int| (sent[i].0@, sent[i].1))
}

/// `rand::seq::SliceRandom::shuffle`: some order of the same items.
#[verifier::external_body]
fn shuffle(order: &mut Vec<usize>)
    ensures
        final(order)@.to_multiset() == old(order)@.to_multiset(),
{
    order.shuffle(&mut rand::thread_rng());
}

proof fn lemma_active_bound(c: CrawlView, uncounted: nat)
    requires
        c.sound_but(uncounted),
    ensures
        c.store.outstanding + uncounted <= c.store.rows.len() <= usize::MAX,
{
    lemma_state_count_bound(c.store.rows, NodeState::Queued, NodeState::Processing);
}

proof fn lemma_advert_sound(c: CrawlView, a: AddrView, now: i64)
    requires
        c.sound(),
    ensures
        ({
            let (outcome, store) = c.store.after_frontier(
                (a.host, a.port),
                a.timestamp,
                a.network,
                c.settings.freshness_threshold,
                now,
            );
            (CrawlView { store, ..c }).sound_but(
                if outcome == FrontierOutcome::Enqueue {
                    1
                } else {
                    0
                },
            )
        }),
{
    let key = (a.host, a.port);
    let (outcome, store) = c.store.after_frontier(
        key,
        a.timestamp,
        a.network,
        c.settings.freshness_threshold,
        now,
    );
    lemma_known_sound(c, key, 0);
    match find_row(c.store.rows, key) {
        Some(i) => {
            lemma_find_row(c.store.rows, key);
            let e = c.store.rows[i].1;
            let e2 = store.rows[i].1;
            lemma_replace(c, key, e2, 0);
            assert(CrawlView { store, ..c } == c.with_entry(key, e2));
        },
        None => {
            if c.store.rows.len() < c.store.max_entries {
                lemma_add(c, key, store.rows.last().1, 0);
                assert(store == c.store.with_new_row(key, store.rows.last().1));
            }
        },
    }
}

proof fn lemma_seed_sound(c: CrawlView, key: KeyView, now: i64)
    requires
        c.sound(),
    ensures
        ({
            let (outcome, store) = c.store.after_seed(key, now);
            (CrawlView { store, ..c }).sound_but(
                if outcome.newly_queued {
                    1
                } else {
                    0
                },
            )
        }),
{
    let (outcome, store) = c.store.after_seed(key, now);
    lemma_known_sound(c, key, 0);
    match find_row(c.store.rows, key) {
        Some(i) => {
            lemma_find_row(c.store.rows, key);
            let e2 = store.rows[i].1;
            lemma_replace(c, key, e2, 0);
            assert(CrawlView { store, ..c } == c.with_entry(key, e2));
        },
        None => {
            if c.store.rows.len() < c.store.max_entries {
                lemma_add(c, key, store.rows.last().1, 0);
                assert(store == c.store.with_new_row(key, store.rows.last().1));
            }
        },
    }
}

/// Counts every address of a message.
fn record_message(stats: &mut NodeStats, parsed: &ParsedAddrMessage)
    requires
        old(stats).balanced(),
        old(stats).advertised_total + parsed.addrs@.len() + parsed.unknown_entries <= u64::MAX,
    ensures
        *final(stats) == with_message(*old(stats), parsed@.addrs, parsed.unknown_entries),
        final(stats).balanced(),
{
    let mut i: usize = 0;
    while i < parsed.addrs.len()
        invariant
            i <= parsed.addrs@.len(),
            stats.balanced(),
            stats.advertised_total == old(stats).advertised_total + i,
            old(stats).advertised_total + parsed.addrs@.len() + parsed.unknown_entries <= u64::MAX,
            *stats == with_all_advertised(*old(stats), parsed@.addrs, i as nat),
        decreases parsed.addrs@.len() - i,
    {
        let net = parsed.addrs[i].network;
        assert(parsed@.addrs[i as int] == parsed.addrs@[i as int]@);
        stats.record_advertised(net);
        i = i + 1;
    }
    stats.advertised_total = stats.advertised_total + parsed.unknown_entries;
    stats.advertised_unknown = stats.advertised_unknown + parsed.unknown_entries;
}

proof fn lemma_message_keeps(stats: NodeStats, addrs: Seq<AddrView>, n: nat)
    ensures
        ({
            let s = with_all_advertised(stats, addrs, n);
            &&& s.handshake_attempts == stats.handshake_attempts
            &&& s.time_connect_ms == stats.time_connect_ms
        }),
    decreases n,
{
    if n > 0 {
        lemma_message_keeps(stats, addrs, (n - 1) as nat);
    }
}

impl Crawler {
    /// Whether an address is waiting in a queue.
    pub fn is_queued(&self, key: &AddrKey) -> (r: bool)
        requires
            self.wf(),
        ensures
            r == (self@.entry_of(key@) matches Some(e) && e.state == NodeState::Queued),
    {
        match self.store.entry(key) {
            Some(e) => e.state == NodeState::Queued,
            None => false,
        }
    }

    /// Counts a key that is already `Queued` in the store before it becomes visible in a
    /// queue, and says which queue it goes into.
    fn enqueue(&mut self, key: &AddrKey) -> (r: Transport)
        requires
            old(self).wf_but(1),
        ensures
            final(self).wf(),
            final(self)@ == old(self)@.after_enqueue(),
            r == network_transport(old(self)@.network(key@)),
    {
        proof {
            lemma_active_bound(self@, 1);
        }
        let network = match self.store.network_of(key) {
            Some(n) => n,
            None => classify(&key.host),
        };
        self.store.incr_outstanding();
        network.transport()
    }

    /// Observes a seed. Where it is new, it is queued and counted, and the transport whose
    /// queue it goes into is returned.
    pub fn enqueue_seed(&mut self, key: &AddrKey, now: i64) -> (r: Option<Transport>)
        requires
            old(self).wf(),
        ensures
            final(self).wf(),
            (r is Some, final(self)@) == old(self)@.after_seed(key@, now),
            r matches Some(t) ==> t == network_transport(network_of(key@.0)),
    {
        let ghost c = self@;
        proof {
            lemma_seed_sound(c, key@, now);
            lemma_find_row(c.store.rows, key@);
        }
        let outcome = self.store.observe_seed(key.clone(), now);
        if outcome.newly_queued {
            proof {
                lemma_find_row_at(self@.store.rows, self@.store.rows.len() - 1);
            }
            Some(self.enqueue(key))
        } else {
            None
        }
    }

    /// The queue would not take an address: it is discarded and no longer counted.
    pub fn enqueue_rejected(&mut self, key: &AddrKey)
        requires
            old(self).wf(),
            old(self)@.entry_of(key@) matches Some(e) && e.state == NodeState::Queued,
        ensures
            final(self).wf(),
            final(self)@ == old(self)@.with_entry(
                key@,
                EntryView {
                    state: NodeState::BudgetDiscarded,
                    ..old(self)@.entry_of(key@)->Some_0
                },
            ).with_outstanding(counter_minus(old(self)@.store.outstanding)),
    {
        let ghost c = self@;
        match self.store.entry_mut(key) {
            Some(e) => {
                e.state = NodeState::BudgetDiscarded;
            },
            None => {},
        }
        proof {
            lemma_known_sound(c, key@, 0);
            let e = c.entry_of(key@)->Some_0;
            lemma_replace(c, key@, EntryView { state: NodeState::BudgetDiscarded, ..e }, 0);
        }
        let _before = self.store.decr_outstanding();
    }

    /// Whether the counters of a peer can take a message of `n` more addresses.
    pub fn can_count(&self, key: &AddrKey, n: u64) -> (r: bool)
        requires
            self.wf(),
        ensures
            r == (self@.entry_of(key@) matches Some(e) ==> e.stats.advertised_total + n <= u64::MAX
                && e.stats.valid_addr_messages < u64::MAX && e.stats.malformed_addr_messages
                < u64::MAX),
    {
        match self.store.entry(key) {
            Some(e) => e.stats.advertised_total <= u64::MAX - n && e.stats.valid_addr_messages
                < u64::MAX && e.stats.malformed_addr_messages < u64::MAX,
            None => true,
        }
    }

    /// Counts every address that a peer's message advertises.
    pub fn record_advertised(&mut self, key: &AddrKey, parsed: &ParsedAddrMessage)
        requires
            old(self).wf(),
            old(self)@.entry_of(key@) matches Some(e) ==> e.stats.advertised_total
                + parsed.addrs@.len() + parsed.unknown_entries <= u64::MAX,
        ensures
            final(self).wf(),
            final(self)@ == match old(self)@.entry_of(key@) {
                Some(e) => old(self)@.with_entry(
                    key@,
                    EntryView {
                        stats: with_message(e.stats, parsed@.addrs, parsed.unknown_entries),
                        ..e
                    },
                ),
                None => old(self)@,
            },
    {
        let ghost c = self@;
        proof {
            lemma_known_sound(c, key@, 0);
        }
        match self.store.entry_mut(key) {
            Some(e) => {
                record_message(&mut e.stats, parsed);
            },
            None => {},
        }
        proof {
            if let Some(e) = c.entry_of(key@) {
                let s = with_message(e.stats, parsed@.addrs, parsed.unknown_entries);
                lemma_message_keeps(e.stats, parsed@.addrs, parsed@.addrs.len());
                lemma_message_balanced(e.stats, parsed@.addrs, parsed.unknown_entries);
                lemma_replace(c, key@, EntryView { stats: s, ..e }, 0);
            }
        }
    }

    /// Counts a message that was accepted.
    pub fn count_valid_message(&mut self, key: &AddrKey)
        requires
            old(self).wf(),
            old(self)@.entry_of(key@) matches Some(e) ==> e.stats.valid_addr_messages < u64::MAX,
        ensures
            final(self).wf(),
            final(self)@ == match old(self)@.entry_of(key@) {
                Some(e) => old(self)@.with_entry(
                    key@,
                    EntryView {
                        stats: NodeStats {
                            valid_addr_messages: (e.stats.valid_addr_messages + 1) as u64,
                            ..e.stats
                        },
                        ..e
                    },
                ),
                None => old(self)@,
            },
    {
        let ghost c = self@;
        match self.store.entry_mut(key) {
            Some(e) => {
                e.stats.valid_addr_messages = e.stats.valid_addr_messages + 1;
            },
            None => {},
        }
        proof {
            if let Some(e) = c.entry_of(key@) {
                lemma_known_sound(c, key@, 0);
                let s = NodeStats {
                    valid_addr_messages: (e.stats.valid_addr_messages + 1) as u64,
                    ..e.stats
                };
                lemma_replace(c, key@, EntryView { stats: s, ..e }, 0);
            }
        }
    }

    /// Counts a message that was refused.
    pub fn count_malformed_message(&mut self, key: &AddrKey)
        requires
            old(self).wf(),
            old(self)@.entry_of(key@) matches Some(e) ==> e.stats.malformed_addr_messages
                < u64::MAX,
        ensures
            final(self).wf(),
            final(self)@ == match old(self)@.entry_of(key@) {
                Some(e) => old(self)@.with_entry(
                    key@,
                    EntryView {
                        stats: NodeStats {
                            malformed_addr_messages: (e.stats.malformed_addr_messages + 1) as u64,
                            ..e.stats
                        },
                        ..e
                    },
                ),
                None => old(self)@,
            },
    {
        let ghost c = self@;
        match self.store.entry_mut(key) {
            Some(e) => {
                e.stats.malformed_addr_messages = e.stats.malformed_addr_messages + 1;
            },
            None => {},
        }
        proof {
            if let Some(e) = c.entry_of(key@) {
                lemma_known_sound(c, key@, 0);
                let s = NodeStats {
                    malformed_addr_messages: (e.stats.malformed_addr_messages + 1) as u64,
                    ..e.stats
                };
                lemma_replace(c, key@, EntryView { stats: s, ..e }, 0);
            }
        }
    }

    /// Feeds the addresses of enabled networks into the frontier, in a random order so that
    /// no peer's neighbours are visited in one burst. Returns what goes into which queue.
    pub fn feed_frontier(&mut self, addrs: &Vec<AdvertisedAddr>, now: i64) -> (r: Vec<
        (AddrKey, Transport),
    >)
        requires
            old(self).wf(),
            old(self)@.settings.freshness_threshold > 0 ==> now
                - old(self)@.settings.freshness_threshold >= i64::MIN,
        ensures
            final(self).wf(),
            exists|order: Seq<usize>|
                order.to_multiset() == enabled_positions(
                    old(self)@.settings,
                    addr_views(addrs@),
                    addrs@.len(),
                ).to_multiset() && (sent_views(r@), final(self)@) == #[trigger] old(
                    self,
                )@.after_feed(addr_views(addrs@), order, now),
    {
        let mut order: Vec<usize> = Vec::new();
        let ghost views = addr_views(addrs@);
        let mut i: usize = 0;
        while i < addrs.len()
            invariant
                i <= addrs@.len(),
                views == addr_views(addrs@),
                self@ == old(self)@,
                self.wf(),
                order@ == enabled_positions(self@.settings, views, i as nat),
                forall|k: int| 0 <= k < order@.len() ==> #[trigger] order@[k] < addrs@.len(),
            decreases addrs@.len() - i,
        {
            assert(views[i as int] == addrs@[i as int]@);
            if self.settings.is_enabled(addrs[i].network) {
                order.push(i);
            }
            i = i + 1;
        }
        let ghost enabled = order@;
        shuffle(&mut order);
        proof {
            lemma_same_items(enabled, order@, addrs@.len());
        }
        self.feed_in_order(addrs, &order, now)
    }

    /// Feeds addresses into the frontier in the given order of positions. Returns what goes
    /// into which queue.
    pub fn feed_in_order(&mut self, addrs: &Vec<AdvertisedAddr>, order: &Vec<usize>, now: i64) -> (r:
        Vec<(AddrKey, Transport)>)
        requires
            old(self).wf(),
            old(self)@.settings.freshness_threshold > 0 ==> now
                - old(self)@.settings.freshness_threshold >= i64::MIN,
            forall|k: int| 0 <= k < order@.len() ==> #[trigger] order@[k] < addrs@.len(),
        ensures
            final(self).wf(),
            (sent_views(r@), final(self)@) == old(self)@.after_feed(
                addr_views(addrs@),
                order@,
                now,
            ),
    {
        let mut sent: Vec<(AddrKey, Transport)> = Vec::new();
        let ghost views = addr_views(addrs@);
        let ghost start = self@;
        let mut k: usize = 0;
        proof {
            assert(order@.take(0) =~= Seq::<usize>::empty());
            assert(sent_views(sent@) =~= Seq::<Sent>::empty());
        }
        while k < order.len()
            invariant
                k <= order@.len(),
                self.wf(),
                views == addr_views(addrs@),
                self@.settings == start.settings,
                start.settings.freshness_threshold > 0 ==> now - start.settings.freshness_threshold
                    >= i64::MIN,
                forall|k: int| 0 <= k < order@.len() ==> #[trigger] order@[k] < addrs@.len(),
                (sent_views(sent@), self@) == start.after_feed(views, order@.take(k as int), now),
            decreases order@.len() - k,
        {
            let ghost before = sent_views(sent@);
            let at = order[k];
            proof {
                let next = order@.take(k + 1);
                assert(next.drop_last() =~= order@.take(k as int));
                assert(next.last() == at);
                assert(views[at as int] == addrs@[at as int]@);
            }
            match self.observe_advert(&addrs[at], now) {
                Some((key, transport)) => {
                    let ghost s = (key@, transport);
                    sent.push((key, transport));
                    proof {
                        assert(sent_views(sent@) =~= before.push(s));
                    }
                },
                None => {},
            }
            k = k + 1;
        }
        proof {
            assert(order@.take(k as int) =~= order@);
        }
        sent
    }

    /// Observes one advertised address. Where it is queued for that, it is counted and
    /// returned with the transport whose queue it goes into.
    fn observe_advert(&mut self, a: &AdvertisedAddr, now: i64) -> (r: Option<(AddrKey, Transport)>)
        requires
            old(self).wf(),
            old(self)@.settings.freshness_threshold > 0 ==> now
                - old(self)@.settings.freshness_threshold >= i64::MIN,
        ensures
            final(self).wf(),
            match r {
                Some((key, t)) => old(self)@.after_advert(a@, now) == (
                    Some((key@, t)),
                    final(self)@,
                ),
                None => old(self)@.after_advert(a@, now) == (None::<Sent>, final(self)@),
            },
            final(self)@.settings == old(self)@.settings,
    {
        let ghost c = self@;
        proof {
            lemma_advert_sound(c, a@, now);
        }
        let key = AddrKey::new(&a.host, a.port);
        let threshold = self.settings.freshness_threshold;
        let outcome = self.store.frontier_upsert(
            key.clone(),
            a.timestamp,
            a.network,
            threshold,
            now,
        );
        if outcome == FrontierOutcome::Enqueue {
            let transport = self.enqueue(&key);
            Some((key, transport))
        } else {
            None
        }
    }
}

proof fn lemma_message_balanced(stats: NodeStats, addrs: Seq<AddrView>, unknown: u64)
    requires
        stats.balanced(),
        stats.advertised_total + addrs.len() + unknown <= u64::MAX,
    ensures
        with_message(stats, addrs, unknown).balanced(),
{
    lemma_advertised_balanced(stats, addrs, addrs.len());
}

pub proof fn lemma_advertised_balanced(stats: NodeStats, addrs: Seq<AddrView>, n: nat)
    requires
        stats.balanced(),
        stats.advertised_total + n <= u64::MAX,
    ensures
        with_all_advertised(stats, addrs, n).balanced(),
        with_all_advertised(stats, addrs, n).advertised_total == stats.advertised_total + n,
    decreases n,
{
    if n > 0 {
        lemma_advertised_balanced(stats, addrs, (n - 1) as nat);
    }
}

/// Items of a sequence below a bound stay below it in any order.
proof fn lemma_same_items(a: Seq<usize>, b: Seq<usize>, bound: nat)
    requires
        a.to_multiset() == b.to_multiset(),
        forall|k: int| 0 <= k < a.len() ==> #[trigger] a[k] < bound,
    ensures
        forall|k: int| 0 <= k < b.len() ==> #[trigger] b[k] < bound,
{
    a.to_multiset_ensures();
    b.to_multiset_ensures();
    assert forall|k: int| 0 <= k < b.len() implies #[trigger] b[k] < bound by {
        assert(b.contains(b[k]));
        assert(b.to_multiset().count(b[k]) > 0);
        assert(a.contains(b[k]));
    }
}

// ---------------------------------------------------------------------------
// Working on one address
// ---------------------------------------------------------------------------

/// What has come of the last action on an address in hand.
pub enum ProcessEvent {
    /// A connection could not be made.
    ConnectFailed(IoError),
    /// A connection was made in this many milliseconds.
    Connected(u64),
    /// The peer stayed silent for the whole handshake deadline.
    HandshakeTimedOut,
    /// The handshake failed for a transport or protocol reason.
    HandshakeFailed(FailKind),
    /// The handshake is complete.
    HandshakeCompleted {
        version: VersionData,
        sent_ts: i64,
        duration_ms: u64,
        socket_local: String,
        socket_peer: String,
    },
    /// The collection of the peer's addresses has ended.
    CollectionEnded { outcome: CollectionOutcome, sent_ts: i64 },
}

/// What to do next with an address in hand.
pub enum ProcessAction {
    /// Perform the handshake.
    Handshake,
    /// Ask the peer for addresses.
    Collect(HandshakeData),
    /// Carry out what became of the address after a failed attempt.
    Settle(Verdict),
    /// The address is done with; `close` says that all queues close.
    Done { close: bool },
}

impl CrawlView {
    /// The peer's metadata is kept.
    pub open spec fn after_handshake(self, key: KeyView, h: HandshakeView) -> CrawlView {
        match self.entry_of(key) {
            Some(e) => self.with_entry(key, EntryView { handshake: Some(h), ..e }),
            None => self,
        }
    }

    /// How the collection ended is kept.
    pub open spec fn after_collection(self, key: KeyView, outcome: CollectionOutcome) -> CrawlView {
        match self.entry_of(key) {
            Some(e) => self.with_entry(
                key,
                EntryView { stats: NodeStats { collection_outcome: outcome, ..e.stats }, ..e },
            ),
            None => self,
        }
    }

    /// All work on a reachable address is done.
    pub open spec fn after_completion(self, key: KeyView, sent_ts: i64) -> (bool, CrawlView) {
        self.after_note(key, "handshake_complete"@, None, None, Some(sent_ts)).after_finish(
            key,
            NodeState::Reachable,
            None,
        )
    }
}

impl Crawler {
    /// Decides what follows an event of the work on an address: connect, handshake, then,
    /// unless in probe mode, collect addresses.
    pub fn process_step(&mut self, key: &AddrKey, attempt: &Attempt, event: ProcessEvent) -> (r:
        ProcessAction)
        requires
            old(self).wf(),
            old(self)@.in_hand(key@, attempt.number),
            event is CollectionEnded ==> (old(self)@.entry_of(key@) matches Some(e)
                ==> e.handshake is Some),
        ensures
            final(self).wf(),
            match event {
                ProcessEvent::ConnectFailed(e) => r matches ProcessAction::Settle(v) && (
                    v,
                    final(self)@,
                ) == old(self)@.after_connect_failure(
                    key@,
                    attempt.number,
                    connect_failure(e, attempt.network),
                ),
                ProcessEvent::Connected(ms) => r is Handshake && final(self)@
                    == old(self)@.after_connect(key@, ms),
                ProcessEvent::HandshakeTimedOut => r matches ProcessAction::Settle(v) && (
                    v,
                    final(self)@,
                ) == old(self)@.after_handshake_timeout(key@, attempt.number),
                ProcessEvent::HandshakeFailed(kind) => r matches ProcessAction::Settle(v) && (
                    v,
                    final(self)@,
                ) == old(self)@.after_handshake_failure(key@, attempt.number, kind),
                ProcessEvent::HandshakeCompleted {
                    version,
                    sent_ts,
                    duration_ms,
                    socket_local,
                    socket_peer,
                } => {
                    let h = handshake_view(
                        version@,
                        sent_ts,
                        duration_ms,
                        addr_text(key@.0, key@.1),
                        addr_text(key@.0, key@.1),
                        socket_local@,
                        socket_peer@,
                    );
                    if old(self)@.settings.probe_mode {
                        r matches ProcessAction::Done { close } && (close, final(self)@)
                            == old(self)@.after_handshake(key@, h).after_completion(key@, sent_ts)
                    } else {
                        r matches ProcessAction::Collect(hd) && hd@ == h && final(self)@
                            == old(self)@.after_handshake(key@, h)
                    }
                },
                ProcessEvent::CollectionEnded { outcome, sent_ts } =>
                    r matches ProcessAction::Done { close } && (close, final(self)@)
                    == old(self)@.after_collection(key@, outcome).after_completion(key@, sent_ts),
            },
    {
        match event {
            ProcessEvent::ConnectFailed(e) => {
                ProcessAction::Settle(self.connect_failed(key, attempt, &e))
            },
            ProcessEvent::Connected(connect_ms) => {
                self.connected(key, connect_ms);
                ProcessAction::Handshake
            },
            ProcessEvent::HandshakeTimedOut => {
                ProcessAction::Settle(self.handshake_timed_out(key, attempt))
            },
            ProcessEvent::HandshakeFailed(kind) => {
                ProcessAction::Settle(self.handshake_failed(key, attempt, kind))
            },
            ProcessEvent::HandshakeCompleted {
                version,
                sent_ts,
                duration_ms,
                socket_local,
                socket_peer,
            } => {
                let ghost c = self@;
                let hd = self.handshake_completed(
                    key,
                    &version,
                    sent_ts,
                    duration_ms,
                    socket_local,
                    socket_peer,
                );
                proof {
                    lemma_known_sound(c, key@, 0);
                    if let Some(e) = c.entry_of(key@) {
                        lemma_replace(c, key@, EntryView { handshake: Some(hd@), ..e }, 0);
                    }
                }
                if self.settings.probe_mode {
                    ProcessAction::Done { close: self.completed(key, sent_ts) }
                } else {
                    ProcessAction::Collect(hd)
                }
            },
            ProcessEvent::CollectionEnded { outcome, sent_ts } => {
                let ghost c = self@;
                self.collection_ended(key, outcome);
                proof {
                    lemma_known_sound(c, key@, 0);
                    if let Some(e) = c.entry_of(key@) {
                        lemma_replace(
                            c,
                            key@,
                            EntryView {
                                stats: NodeStats { collection_outcome: outcome, ..e.stats },
                                ..e
                            },
                            0,
                        );
                    }
                }
                ProcessAction::Done { close: self.completed(key, sent_ts) }
            },
        }
    }
}

} // verus!
