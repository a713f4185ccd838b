//! The feed connector's decisions: when to connect, fetch snapshots, stream,
//! and how long to wait before the next attempt.
//!
//! The connector itself waits on the network and on timers. What it decides
//! is a function from its state and the event that arrived to its next
//! state and the action to perform; that function is here.

use vstd::arithmetic::div_mod::{
    lemma_div_by_multiple, lemma_div_is_ordered, lemma_fundamental_div_mod,
    lemma_fundamental_div_mod_converse_div,
};
use vstd::arithmetic::power::{lemma_pow1, lemma_pow_adds, lemma_pow_increases, lemma_pow_positive, pow};
use vstd::prelude::*;

verus! {

/// The delay before the first reconnect, in milliseconds.
pub const BASE_DELAY_MS: u64 = 5000;

/// A connection is stale once no message has arrived for this long, in
/// milliseconds.
pub const STALE_AFTER_MS: u64 = 10000;

/// The backoff delay in milliseconds for an attempt count, rounded down:
/// the base delay times 1.5 to the power of the count.
pub open spec fn backoff_millis(attempt: nat) -> int {
    BASE_DELAY_MS * pow(3, attempt) / pow(2, attempt)
}

/// The backoff delay as the connector uses it: the delay in milliseconds,
/// held at the largest 64-bit count where it would pass it.
pub open spec fn backoff_delay(attempt: nat) -> u64 {
    if backoff_millis(attempt) > u64::MAX {
        u64::MAX
    } else {
        backoff_millis(attempt) as u64
    }
}

proof fn lemma_pow_step(b: int, e: nat)
    ensures
        pow(b, e + 1) == b * pow(b, e),
{
    lemma_pow_adds(b, 1, e);
    lemma_pow1(b);
}

proof fn lemma_pow3_12()
    ensures
        pow(3, 12) == 531441,
{
    lemma_pow1(3);
    lemma_pow_adds(3, 1, 1);
    assert(pow(3, 2) == 9);
    lemma_pow_adds(3, 2, 2);
    assert(pow(3, 4) == 81);
    lemma_pow_adds(3, 4, 4);
    assert(pow(3, 8) == 6561);
    lemma_pow_adds(3, 8, 4);
}

proof fn lemma_pow2_values()
    ensures
        pow(2, 19) == 524288,
        pow(2, 56) == 72057594037927936,
        pow(2, 96) == 79228162514264337593543950336,
{
    lemma_pow1(2);
    lemma_pow_adds(2, 1, 1);
    assert(pow(2, 2) == 4);
    lemma_pow_adds(2, 2, 1);
    assert(pow(2, 3) == 8);
    lemma_pow_adds(2, 2, 2);
    assert(pow(2, 4) == 16);
    lemma_pow_adds(2, 4, 4);
    assert(pow(2, 8) == 256);
    lemma_pow_adds(2, 8, 8);
    assert(pow(2, 16) == 65536);
    lemma_pow_adds(2, 16, 3);
    assert(pow(2, 19) == 524288);
    lemma_pow_adds(2, 16, 16);
    assert(pow(2, 32) == 4294967296);
    lemma_pow_adds(2, 32, 16);
    assert(pow(2, 48) == 281474976710656);
    lemma_pow_adds(2, 48, 8);
    assert(pow(2, 56) == 72057594037927936);
    lemma_pow_adds(2, 32, 32);
    assert(pow(2, 64) == 18446744073709551616);
    lemma_pow_adds(2, 64, 32);
}

/// Twelve factors of three outgrow nineteen factors of two.
proof fn lemma_three_outgrows_two(m: nat)
    ensures
        pow(3, 12 * m) >= pow(2, 19 * m),
        pow(2, 19 * m) > 0,
    decreases m,
{
    lemma_pow_positive(2, 19 * m);
    if m == 0 {
        vstd::arithmetic::power::lemma_pow0(3);
        vstd::arithmetic::power::lemma_pow0(2);
    } else {
        let n = (m - 1) as nat;
        lemma_three_outgrows_two(n);
        lemma_pow3_12();
        lemma_pow2_values();
        lemma_pow_adds(3, 12 * n, 12);
        lemma_pow_adds(2, 19 * n, 19);
        let a = pow(3, 12 * n);
        let b = pow(2, 19 * n);
        assert(a * 531441 >= b * 524288) by (nonlinear_arith)
            requires
                a >= b,
                b > 0,
        ;
        assert(12 * n + 12 == 12 * m);
        assert(19 * n + 19 == 19 * m);
    }
}

proof fn lemma_three_above_two(j: nat)
    ensures
        pow(3, j) >= pow(2, j),
        pow(2, j) > 0,
    decreases j,
{
    lemma_pow_positive(2, j);
    if j == 0 {
        vstd::arithmetic::power::lemma_pow0(3);
        vstd::arithmetic::power::lemma_pow0(2);
    } else {
        let i = (j - 1) as nat;
        lemma_three_above_two(i);
        lemma_pow_step(3, i);
        lemma_pow_step(2, i);
    }
}

/// From the ninety-sixth attempt on, the delay no longer fits 64 bits.
pub proof fn lemma_backoff_saturates(attempt: nat)
    requires
        attempt >= 96,
    ensures
        backoff_millis(attempt) > u64::MAX,
{
    let rest = (attempt - 96) as nat;
    lemma_three_outgrows_two(8);
    lemma_three_above_two(rest);
    lemma_pow2_values();
    lemma_pow_adds(3, 96, rest);
    lemma_pow_adds(2, 96, rest);
    lemma_pow_adds(2, 96, 56);
    lemma_pow_positive(2, attempt);
    let d = pow(2, attempt);
    let x = BASE_DELAY_MS * pow(3, attempt);
    let c: int = 0x1_0000_0000_0000_0000;
    let a96 = pow(3, 96);
    let b96 = pow(2, 96);
    let ar = pow(3, rest);
    let br = pow(2, rest);
    assert(a96 >= pow(2, 152));
    assert(pow(2, 152) == b96 * 72057594037927936);
    assert(a96 * ar >= (b96 * 72057594037927936) * br) by (nonlinear_arith)
        requires
            a96 >= b96 * 72057594037927936,
            ar >= br,
            br > 0,
            b96 > 0,
    ;
    assert(5000 * (a96 * ar) >= c * (b96 * br)) by (nonlinear_arith)
        requires
            a96 * ar >= (b96 * 72057594037927936) * br,
            b96 > 0,
            br > 0,
            c == 0x1_0000_0000_0000_0000,
    ;
    assert(x >= c * d);
    lemma_div_is_ordered(c * d, x, d);
    lemma_div_by_multiple(c, d);
}

/// The delay before reconnecting after `attempt` failures in a row.
pub fn backoff_delay_ms(attempt: u32) -> (r: u64)
    ensures
        r == backoff_delay(attempt as nat),
{
    if attempt >= 96 {
        proof {
            lemma_backoff_saturates(attempt as nat);
        }
        return u64::MAX;
    }
    let mut q: u128 = 5000;
    let mut r: u128 = 0;
    let mut p: u128 = 1;
    let mut k: u32 = 0;
    proof {
        vstd::arithmetic::power::lemma_pow0(3);
        vstd::arithmetic::power::lemma_pow0(2);
    }
    while k < attempt
        invariant
            k <= attempt < 96,
            p == pow(2, k as nat),
            0 < p,
            r < p,
            q * p + r == 5000 * pow(3, k as nat),
            q <= 5000 * p,
        decreases attempt - k,
    {
        proof {
            lemma_pow2_values();
            lemma_pow_increases(2, k as nat, 95);
            lemma_pow_step(2, 95);
            lemma_pow_step(2, k as nat);
            lemma_pow_step(3, k as nat);
            lemma_fundamental_div_mod(3 * r as int, p as int);
            assert((3 * r) / (p as int) < 3) by (nonlinear_arith)
                requires
                    0 <= 3 * r < 3 * p,
                    p > 0,
            ;
        }
        let t: u128 = 3 * r;
        let s: u128 = t / p;
        let r1: u128 = t % p;
        let u: u128 = 3 * q + s;
        let half: u128 = u / 2;
        let odd: u128 = u % 2;
        proof {
            assert(half * (2 * p) + (odd * p + r1) == 3 * (q * p + r)) by (nonlinear_arith)
                requires
                    t == 3 * r,
                    t == p * s + r1,
                    u == 3 * q + s,
                    u == 2 * half + odd,
            ;
            assert(odd * p + r1 < 2 * p) by (nonlinear_arith)
                requires
                    odd <= 1,
                    r1 < p,
            ;
            assert(odd * p <= p) by (nonlinear_arith)
                requires
                    odd <= 1,
                    0 < p,
            ;
        }
        q = half;
        r = odd * p + r1;
        p = 2 * p;
        k = k + 1;
    }
    proof {
        lemma_fundamental_div_mod_converse_div(
            5000 * pow(3, attempt as nat),
            p as int,
            q as int,
            r as int,
        );
    }
    if q > 0xffff_ffff_ffff_ffff {
        u64::MAX
    } else {
        q as u64
    }
}

/// Where the connector stands in its cycle.
#[derive(Debug, Clone, Copy, PartialEq, Eq, Structural)]
pub enum ConnectorState {
    /// Not connected: at startup, or waiting out a backoff delay.
    Disconnected,
    /// Opening the streaming connection.
    Connecting,
    /// Connected; `fetched` depth snapshots have been emitted so far.
    SnapshotFetch { fetched: usize },
    /// Streaming updates; the last message arrived at `last_message`
    /// milliseconds on the caller's clock.
    Streaming { last_message: u64 },
}

/// What happened outside since the last action was handed out.
#[derive(Debug, Clone, Copy, PartialEq, Eq, Structural)]
pub enum ConnectorEvent {
    /// The wait is over: the process started, or a backoff delay elapsed.
    Wake,
    /// The streaming connection is open.
    Connected { now: u64 },
    /// One depth snapshot was fetched and emitted.
    SnapshotEmitted { now: u64 },
    /// A message arrived on the stream.
    Message { now: u64 },
    /// The clock was read while waiting for a message.
    Tick { now: u64 },
    /// The peer closed the stream.
    Closed,
    /// A connection-level error.
    Failed,
}

/// What the connector is to do next.
#[derive(Debug, Clone, Copy, PartialEq, Eq, Structural)]
pub enum ConnectorAction {
    /// Open the streaming connection for all symbols.
    Connect,
    /// Fetch and emit the depth snapshot of the symbol at `index`.
    FetchSnapshot { index: usize },
    /// Wait for the next message, reading the clock meanwhile.
    Receive,
    /// Drop the connection if there is one, wait `millis`, then wake.
    Sleep { millis: u64 },
    /// The event does not belong to the state: carry on as before.
    Ignore,
}

/// The connector's state: its place in the cycle and the count of failures
/// in a row.
#[derive(Debug, Clone, Copy, PartialEq, Eq, Structural)]
pub struct Connector {
    pub state: ConnectorState,
    pub reconnect_attempts: u32,
    /// Number of symbols whose snapshot is fetched on every connect.
    pub symbol_count: usize,
}

/// No message has arrived for longer than the staleness limit.
pub open spec fn is_stale(last_message: u64, now: u64) -> bool {
    now - last_message > STALE_AFTER_MS
}

/// The count of failures after one more, held at the largest count.
pub open spec fn attempts_after_failure(attempts: u32) -> u32 {
    if attempts == u32::MAX {
        u32::MAX
    } else {
        (attempts + 1) as u32
    }
}

/// The connector after a failure: disconnected, one more failure counted.
pub open spec fn failed(c: Connector) -> (Connector, ConnectorAction) {
    let attempts = attempts_after_failure(c.reconnect_attempts);
    (
        Connector {
            state: ConnectorState::Disconnected,
            reconnect_attempts: attempts,
            symbol_count: c.symbol_count,
        },
        ConnectorAction::Sleep { millis: backoff_delay(attempts as nat) },
    )
}

/// The connector with another place in the cycle.
pub open spec fn moved(c: Connector, state: ConnectorState) -> Connector {
    Connector { state, reconnect_attempts: c.reconnect_attempts, symbol_count: c.symbol_count }
}

/// The transition function of the connector.
///
/// - Disconnected: `Wake` starts connecting.
/// - Connecting: `Connected` starts the snapshot fetch, or streaming where
///   there is no symbol.
/// - SnapshotFetch: each `SnapshotEmitted` asks for the next snapshot; the
///   last one starts streaming.
/// - Streaming: `Message` renews the liveness stamp; `Tick` past the
///   staleness limit is a failure; `Closed` is a clean end, which resets the
///   failure count and waits the base delay.
/// - `Failed` in any connected state, and `Closed` before streaming, is a
///   failure: one more is counted and the backoff delay for the new count
///   is waited.
/// - Any other event leaves the state as it is.
pub open spec fn next(c: Connector, event: ConnectorEvent) -> (Connector, ConnectorAction) {
    match (c.state, event) {
        (ConnectorState::Disconnected, ConnectorEvent::Wake) => (
            moved(c, ConnectorState::Connecting),
            ConnectorAction::Connect,
        ),
        (ConnectorState::Disconnected, _) => (c, ConnectorAction::Ignore),
        (_, ConnectorEvent::Failed) => failed(c),
        (ConnectorState::Connecting, ConnectorEvent::Connected { now }) => if c.symbol_count == 0 {
            (moved(c, ConnectorState::Streaming { last_message: now }), ConnectorAction::Receive)
        } else {
            (
                moved(c, ConnectorState::SnapshotFetch { fetched: 0 }),
                ConnectorAction::FetchSnapshot { index: 0 },
            )
        },
        (ConnectorState::Connecting, ConnectorEvent::Closed) => failed(c),
        (ConnectorState::SnapshotFetch { fetched }, ConnectorEvent::SnapshotEmitted { now }) => if fetched
            + 1 < c.symbol_count {
            (
                moved(c, ConnectorState::SnapshotFetch { fetched: (fetched + 1) as usize }),
                ConnectorAction::FetchSnapshot { index: (fetched + 1) as usize },
            )
        } else {
            (moved(c, ConnectorState::Streaming { last_message: now }), ConnectorAction::Receive)
        },
        (ConnectorState::SnapshotFetch { .. }, ConnectorEvent::Closed) => failed(c),
        (ConnectorState::Streaming { .. }, ConnectorEvent::Message { now }) => (
            moved(c, ConnectorState::Streaming { last_message: now }),
            ConnectorAction::Receive,
        ),
        (ConnectorState::Streaming { last_message }, ConnectorEvent::Tick { now }) => if is_stale(
            last_message,
            now,
        ) {
            failed(c)
        } else {
            (c, ConnectorAction::Receive)
        },
        (ConnectorState::Streaming { .. }, ConnectorEvent::Closed) => (
            Connector {
                state: ConnectorState::Disconnected,
                reconnect_attempts: 0,
                symbol_count: c.symbol_count,
            },
            ConnectorAction::Sleep { millis: backoff_delay(0) },
        ),
        _ => (c, ConnectorAction::Ignore),
    }
}

impl Connector {
    /// A connector for `symbol_count` symbols: disconnected, no failure
    /// counted.
    pub fn new(symbol_count: usize) -> (r: Connector)
        ensures
            r == (Connector {
                state: ConnectorState::Disconnected,
                reconnect_attempts: 0,
                symbol_count,
            }),
    {
        Connector { state: ConnectorState::Disconnected, reconnect_attempts: 0, symbol_count }
    }

    fn fail(&mut self) -> (action: ConnectorAction)
        ensures
            (*final(self), action) == failed(*old(self)),
    {
        if self.reconnect_attempts < u32::MAX {
            self.reconnect_attempts = self.reconnect_attempts + 1;
        }
        self.state = ConnectorState::Disconnected;
        ConnectorAction::Sleep { millis: backoff_delay_ms(self.reconnect_attempts) }
    }

    /// Takes one event: moves to the next state and says what to do.
    pub fn step(&mut self, event: ConnectorEvent) -> (action: ConnectorAction)
        ensures
            (*final(self), action) == next(*old(self), event),
    {
        match self.state {
            ConnectorState::Disconnected => match event {
                ConnectorEvent::Wake => {
                    self.state = ConnectorState::Connecting;
                    ConnectorAction::Connect
                },
                _ => ConnectorAction::Ignore,
            },
            ConnectorState::Connecting => match event {
                ConnectorEvent::Failed => self.fail(),
                ConnectorEvent::Closed => self.fail(),
                ConnectorEvent::Connected { now } => {
                    if self.symbol_count == 0 {
                        self.state = ConnectorState::Streaming { last_message: now };
                        ConnectorAction::Receive
                    } else {
                        self.state = ConnectorState::SnapshotFetch { fetched: 0 };
                        ConnectorAction::FetchSnapshot { index: 0 }
                    }
                },
                _ => ConnectorAction::Ignore,
            },
            ConnectorState::SnapshotFetch { fetched } => match event {
                ConnectorEvent::Failed => self.fail(),
                ConnectorEvent::Closed => self.fail(),
                ConnectorEvent::SnapshotEmitted { now } => {
                    if fetched < self.symbol_count && fetched + 1 < self.symbol_count {
                        self.state = ConnectorState::SnapshotFetch { fetched: fetched + 1 };
                        ConnectorAction::FetchSnapshot { index: fetched + 1 }
                    } else {
                        self.state = ConnectorState::Streaming { last_message: now };
                        ConnectorAction::Receive
                    }
                },
                _ => ConnectorAction::Ignore,
            },
            ConnectorState::Streaming { last_message } => match event {
                ConnectorEvent::Failed => self.fail(),
                ConnectorEvent::Message { now } => {
                    self.state = ConnectorState::Streaming { last_message: now };
                    ConnectorAction::Receive
                },
                ConnectorEvent::Tick { now } => {
                    if now > last_message && now - last_message > STALE_AFTER_MS {
                        self.fail()
                    } else {
                        ConnectorAction::Receive
                    }
                },
                ConnectorEvent::Closed => {
                    self.state = ConnectorState::Disconnected;
                    self.reconnect_attempts = 0;
                    ConnectorAction::Sleep { millis: backoff_delay_ms(0) }
                },
                _ => ConnectorAction::Ignore,
            },
        }
    }
}

/// The connector has no terminal state: from every state some event leads
/// to another one.
pub proof fn lemma_no_terminal_state(c: Connector)
    ensures
        exists|event: ConnectorEvent| (#[trigger] next(c, event)).0.state != c.state,
{
    match c.state {
        ConnectorState::Disconnected => {
            assert(next(c, ConnectorEvent::Wake).0.state != c.state);
        },
        _ => {
            assert(next(c, ConnectorEvent::Failed).0.state != c.state);
        },
    }
}

/// A failure always ends in the disconnected state with a wait of the
/// backoff delay for the new failure count, and a clean end of a stream
/// resets the count.
pub proof fn lemma_reconnect_policy(c: Connector)
    ensures
        c.state != ConnectorState::Disconnected ==> {
            let (after, action) = next(c, ConnectorEvent::Failed);
            &&& after.state == ConnectorState::Disconnected
            &&& after.reconnect_attempts == attempts_after_failure(c.reconnect_attempts)
            &&& action == ConnectorAction::Sleep {
                millis: backoff_delay(after.reconnect_attempts as nat),
            }
        },
        c.state is Streaming ==> {
            let (after, action) = next(c, ConnectorEvent::Closed);
            &&& after.state == ConnectorState::Disconnected
            &&& after.reconnect_attempts == 0
            &&& action == ConnectorAction::Sleep { millis: backoff_delay(0) }
        },
{
}

} // verus!
