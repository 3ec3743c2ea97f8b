//! The per-client worker's decisions.
//!
//! A worker alternates between two phases.  While `Receiving`, it handles the
//! datagrams that the client sent (a `ping` is answered with a `pong` to its
//! sender and keeps the stream alive) until none is waiting; it then stops if the last
//! ping is more than six seconds old, and otherwise waits for the next quote.
//! While `AwaitingQuote`, a quote of one of the client's tickers is forwarded
//! to the client; then the worker receives again.  It stops for good when no
//! ping came in time or when the quote producers are gone.

use vstd::prelude::*;
use vstd::utf8::encode_utf8;
use crate::quote::{quote_text, StockQuote};
use crate::text::{chars_eq, chars_of, views};

verus! {

/// How long a client may stay silent before its stream stops: six seconds,
/// in nanoseconds.
pub const PING_TIMEOUT_NS: u64 = 6_000_000_000;

/// How long the worker waits for a quote before it receives again: 200
/// milliseconds.
pub const QUOTE_WAIT_MS: u64 = 200;

/// Why a worker stopped.
pub enum StopReason {
    /// No ping came within the timeout.
    PingTimeout,
    /// Every quote producer is gone.
    ProducersStopped,
}

/// What the worker is waiting for.
pub enum Phase {
    /// Datagrams from the client.
    Receiving,
    /// The next quote.
    AwaitingQuote,
    /// Nothing: the worker has stopped.
    Stopped(StopReason),
}

/// What the worker was told happened.
pub enum WorkerEvent {
    /// A datagram came from `src` (an address written as text).
    Datagram { src: String, payload: Vec<u8> },
    /// No datagram is waiting (or receiving failed).
    NoDatagram,
    /// A quote came from the producers.
    Quote(StockQuote),
    /// No quote came in the waiting time.
    QuoteTimeout,
    /// The producers are gone; no quote will come.
    ProducersGone,
}

/// What the worker asks to be done.
pub enum WorkerAction {
    /// Answer `pong` to this address.
    Pong(String),
    /// Report a datagram from `src` that is not a ping.
    Report { src: String, payload: Vec<u8> },
    /// Send these bytes to the client's endpoint.
    Forward(Vec<u8>),
    /// Nothing to send; a quote of a ticker the client did not ask for.
    Skip,
    /// Nothing to do; go on.
    Continue,
    /// End the stream.
    Stop(StopReason),
}

/// The state of one client's stream.
pub struct Worker {
    /// The tickers the client asked for.
    pub tickets: Vec<String>,
    /// When the last ping came (nanoseconds on a monotonic clock).
    pub last_ping: u64,
    pub phase: Phase,
}

/// The bytes of `ping`.
pub open spec fn ping_bytes() -> Seq<u8> {
    seq![112u8, 105u8, 110u8, 103u8]
}

/// More than the timeout has passed from `last_ping` to `now` (no time has
/// passed if the clock reads earlier than `last_ping`).
pub open spec fn ping_expired(last_ping: u64, now: u64) -> bool {
    now > last_ping && now - last_ping > PING_TIMEOUT_NS
}

/// The record of `q` as bytes.
pub open spec fn quote_bytes(q: StockQuote) -> Seq<u8> {
    encode_utf8(quote_text(q.ticker@, q.price@, q.volume as nat, q.timestamp as nat))
}

fn is_ping(payload: &Vec<u8>) -> (r: bool)
    ensures
        r == (payload@ == ping_bytes()),
{
    let r = payload.len() == 4 && payload[0] == 112u8 && payload[1] == 105u8 && payload[2] == 110u8
        && payload[3] == 103u8;
    assert(r ==> payload@ =~= ping_bytes());
    r
}

fn subscribed(tickets: &Vec<String>, ticker: &String) -> (r: bool)
    ensures
        r == views(tickets@).contains(ticker@),
{
    let t = chars_of(ticker.as_str());
    let mut i: usize = 0;
    while i < tickets.len()
        invariant
            i <= tickets.len(),
            t@ == ticker@,
            forall|j: int| 0 <= j < i ==> tickets@[j]@ != ticker@,
        decreases tickets.len() - i,
    {
        let c = chars_of(tickets[i].as_str());
        if chars_eq(&c, &t) {
            assert(views(tickets@)[i as int] == ticker@);
            return true;
        }
        i = i + 1;
    }
    assert(!views(tickets@).contains(ticker@)) by {
        if views(tickets@).contains(ticker@) {
            let k: int = choose|k: int| 0 <= k < views(tickets@).len() && views(tickets@)[k] == ticker@;
            assert(tickets@[k]@ == ticker@);
        }
    }
    false
}

impl Worker {
    /// A worker for `tickets`, started at `now`: it counts the start as the
    /// last ping and begins by receiving.
    pub fn new(tickets: Vec<String>, now: u64) -> (w: Worker)
        ensures
            w.tickets@ == tickets@,
            w.last_ping == now,
            w.phase == Phase::Receiving,
    {
        Worker { tickets, last_ping: now, phase: Phase::Receiving }
    }

    /// Decides what to do about `event`, which happened at `now`.
    pub fn step(&mut self, event: WorkerEvent, now: u64) -> (action: WorkerAction)
        ensures
            final(self).tickets@ == old(self).tickets@,
            match old(self).phase {
                Phase::Stopped(reason) => {
                    &&& final(self).phase == old(self).phase
                    &&& final(self).last_ping == old(self).last_ping
                    &&& action == WorkerAction::Stop(reason)
                },
                Phase::Receiving => match event {
                    WorkerEvent::Datagram { src, payload } => {
                        &&& final(self).phase == Phase::Receiving
                        &&& if payload@ == ping_bytes() {
                            final(self).last_ping == now && action == WorkerAction::Pong(src)
                        } else {
                            final(self).last_ping == old(self).last_ping
                                && action == (WorkerAction::Report { src, payload })
                        }
                    },
                    WorkerEvent::NoDatagram => {
                        &&& final(self).last_ping == old(self).last_ping
                        &&& if ping_expired(old(self).last_ping, now) {
                            final(self).phase == Phase::Stopped(StopReason::PingTimeout)
                                && action == WorkerAction::Stop(StopReason::PingTimeout)
                        } else {
                            final(self).phase == Phase::AwaitingQuote && action == WorkerAction::Continue
                        }
                    },
                    _ => {
                        &&& final(self).phase == old(self).phase
                        &&& final(self).last_ping == old(self).last_ping
                        &&& action == WorkerAction::Continue
                    },
                },
                Phase::AwaitingQuote => match event {
                    WorkerEvent::Quote(q) => {
                        &&& final(self).phase == Phase::Receiving
                        &&& final(self).last_ping == old(self).last_ping
                        &&& if views(old(self).tickets@).contains(q.ticker@) {
                            action matches WorkerAction::Forward(b) && b@ == quote_bytes(q)
                        } else {
                            action == WorkerAction::Skip
                        }
                    },
                    WorkerEvent::QuoteTimeout => {
                        &&& final(self).phase == Phase::Receiving
                        &&& final(self).last_ping == old(self).last_ping
                        &&& action == WorkerAction::Continue
                    },
                    WorkerEvent::ProducersGone => {
                        &&& final(self).phase == Phase::Stopped(StopReason::ProducersStopped)
                        &&& final(self).last_ping == old(self).last_ping
                        &&& action == WorkerAction::Stop(StopReason::ProducersStopped)
                    },
                    _ => {
                        &&& final(self).phase == old(self).phase
                        &&& final(self).last_ping == old(self).last_ping
                        &&& action == WorkerAction::Continue
                    },
                },
            },
    {
        match self.phase {
            Phase::Stopped(StopReason::PingTimeout) => WorkerAction::Stop(StopReason::PingTimeout),
            Phase::Stopped(StopReason::ProducersStopped) => WorkerAction::Stop(StopReason::ProducersStopped),
            Phase::Receiving => match event {
                WorkerEvent::Datagram { src, payload } => {
                    if is_ping(&payload) {
                        self.last_ping = now;
                        WorkerAction::Pong(src)
                    } else {
                        WorkerAction::Report { src, payload }
                    }
                },
                WorkerEvent::NoDatagram => {
                    if now > self.last_ping && now - self.last_ping > PING_TIMEOUT_NS {
                        self.phase = Phase::Stopped(StopReason::PingTimeout);
                        WorkerAction::Stop(StopReason::PingTimeout)
                    } else {
                        self.phase = Phase::AwaitingQuote;
                        WorkerAction::Continue
                    }
                },
                _ => WorkerAction::Continue,
            },
            Phase::AwaitingQuote => match event {
                WorkerEvent::Quote(q) => {
                    self.phase = Phase::Receiving;
                    if subscribed(&self.tickets, &q.ticker) {
                        WorkerAction::Forward(q.to_bytes())
                    } else {
                        WorkerAction::Skip
                    }
                },
                WorkerEvent::QuoteTimeout => {
                    self.phase = Phase::Receiving;
                    WorkerAction::Continue
                },
                WorkerEvent::ProducersGone => {
                    self.phase = Phase::Stopped(StopReason::ProducersStopped);
                    WorkerAction::Stop(StopReason::ProducersStopped)
                },
                _ => WorkerAction::Continue,
            },
        }
    }
}

} // verus!
