use vstd::prelude::*;

verus! {

/// How long the notes folder must stay quiet before a change is announced.
pub const QUIET_MS: u64 = 300;

/// The state of the watcher that tells the app when the vault changed: whether
/// a change is waiting to be announced, and when the last change came (in
/// milliseconds on a monotonic clock).
#[derive(Clone, Copy, Debug)]
pub struct Debounce {
    pub pending: bool,
    pub last_ms: u64,
}

/// What the watcher hears.
#[derive(Clone, Copy, Debug)]
pub enum WatchEvent {
    /// A file changed.
    Changed { now_ms: u64 },
    /// Nothing came within the poll interval, or the watcher reported an error.
    Quiet { now_ms: u64 },
    /// The watcher is gone.
    Closed,
}

/// What the app does next.
#[derive(Clone, Copy, Debug, PartialEq, Eq, Structural)]
pub enum WatchAction {
    /// Keep listening.
    Listen,
    /// Tell the front end that the vault changed, then keep listening.
    Announce,
    /// Stop watching.
    Stop,
}

/// Milliseconds from `from` to `to`, zero when `to` is not later.
pub open spec fn elapsed(from: u64, to: u64) -> int {
    if to >= from {
        to - from
    } else {
        0
    }
}

impl Debounce {
    /// No change waiting.
    pub fn new() -> (r: Debounce)
        ensures
            !r.pending,
            r.last_ms == 0,
    {
        Debounce { pending: false, last_ms: 0 }
    }

    /// Takes in one event: a change is remembered; once the folder has been
    /// quiet for `QUIET_MS` after the last change, it is announced (once).
    pub fn step(&mut self, event: WatchEvent) -> (a: WatchAction)
        ensures
            match event {
                WatchEvent::Changed { now_ms } => {
                    &&& a == WatchAction::Listen
                    &&& final(self).pending
                    &&& final(self).last_ms == now_ms
                },
                WatchEvent::Quiet { now_ms } => if old(self).pending && elapsed(
                    old(self).last_ms,
                    now_ms,
                ) >= QUIET_MS {
                    &&& a == WatchAction::Announce
                    &&& !final(self).pending
                    &&& final(self).last_ms == old(self).last_ms
                } else {
                    &&& a == WatchAction::Listen
                    &&& *final(self) == *old(self)
                },
                WatchEvent::Closed => a == WatchAction::Stop && *final(self) == *old(self),
            },
    {
        match event {
            WatchEvent::Changed { now_ms } => {
                self.pending = true;
                self.last_ms = now_ms;
                WatchAction::Listen
            },
            WatchEvent::Quiet { now_ms } => {
                let waited = if now_ms >= self.last_ms {
                    now_ms - self.last_ms
                } else {
                    0
                };
                if self.pending && waited >= QUIET_MS {
                    self.pending = false;
                    WatchAction::Announce
                } else {
                    WatchAction::Listen
                }
            },
            WatchEvent::Closed => WatchAction::Stop,
        }
    }
}

} // verus!
