//! The client's listener decisions: it remembers who last sent it a
//! datagram, and on every tick pings that sender; before the first datagram
//! there is nobody to ping.

use vstd::prelude::*;

verus! {

/// How often the listener ticks (and pings the last sender): every two
/// seconds.
pub const PING_INTERVAL_SECS: u64 = 2;

/// How long the listener rests when no datagram is waiting: three seconds.
pub const IDLE_BACKOFF_SECS: u64 = 3;

/// What the listener remembers.
pub struct Listener {
    /// The address (as text) of the last sender, if any datagram came yet.
    pub last_src: Option<String>,
}

/// What the listener was told happened.
pub enum ListenerEvent {
    /// A datagram came from `src`.
    Datagram { src: String, payload: Vec<u8> },
    /// The ping interval has passed.
    Tick,
}

/// What the listener asks to be done.
pub enum ListenerAction {
    /// Log the datagram.
    Log { src: String, payload: Vec<u8> },
    /// Send `ping` to this address.
    Ping(String),
    /// Nothing to do.
    Idle,
}

impl Listener {
    /// A listener that has heard from nobody.
    pub fn new() -> (l: Listener)
        ensures
            l.last_src is None,
    {
        Listener { last_src: None }
    }

    /// Decides what to do about `e`.
    pub fn step(&mut self, e: ListenerEvent) -> (a: ListenerAction)
        ensures
            match e {
                ListenerEvent::Datagram { src, payload } => final(self).last_src == Some(src)
                    && a == (ListenerAction::Log { src, payload }),
                ListenerEvent::Tick => final(self).last_src == old(self).last_src && match old(
                    self,
                ).last_src {
                    Some(s) => a == ListenerAction::Ping(s),
                    None => a == ListenerAction::Idle,
                },
            },
    {
        match e {
            ListenerEvent::Datagram { src, payload } => {
                self.last_src = Some(src.clone());
                ListenerAction::Log { src, payload }
            },
            ListenerEvent::Tick => match &self.last_src {
                Some(s) => ListenerAction::Ping(s.clone()),
                None => ListenerAction::Idle,
            },
        }
    }
}

} // verus!
