//! Small shared types of the user-interface layer that carry plain
//! values: status events, notification kinds, the modal state, and a
//! rate limiter over injected clock readings.

use vstd::prelude::*;

verus! {

/// A status-line event.
#[derive(Debug, PartialEq, Eq)]
pub enum StatusEvent {
    DisplayMessage(Vec<u8>),
    BufClear,
    BufSet(Vec<u8>),
    UpdateStatus(Vec<u8>),
}

/// The kind of a desktop notification.
#[derive(Clone, Copy, Debug, PartialEq, Eq, Structural)]
pub enum NotificationType {
    INFO,
    ERROR,
    NewMail,
}

/// The application's modal state, as in a modal editor.
#[derive(Clone, Copy, Debug, PartialEq, Eq, Structural)]
pub enum UIMode {
    Normal,
    Insert,
    /// Forward input to an embedded pseudoterminal.
    Embed,
    Execute,
    Fork,
}

/// The status-line label of each mode.
pub open spec fn spec_mode_label(m: UIMode) -> Seq<char> {
    match m {
        UIMode::Normal => "NORMAL"@,
        UIMode::Insert => "INSERT"@,
        UIMode::Execute => "EX"@,
        UIMode::Fork => "FORK"@,
        UIMode::Embed => "EMBED"@,
    }
}

impl UIMode {
    /// The label the status line shows for this mode.
    pub fn as_label(&self) -> (r: &'static str)
        ensures
            r@ == spec_mode_label(*self),
    {
        match self {
            UIMode::Normal => "NORMAL",
            UIMode::Insert => "INSERT",
            UIMode::Execute => "EX",
            UIMode::Fork => "FORK",
            UIMode::Embed => "EMBED",
        }
    }
}

/// An event notification passed to components for handling.
#[derive(Debug, PartialEq, Eq)]
pub struct Notification {
    pub title: Vec<u8>,
    pub content: Vec<u8>,
    /// When it was raised, in milliseconds of the host's clock.
    pub timestamp: u64,
}

/// A rate limiter: at most `reqs` requests per `millis` milliseconds.
/// The host injects clock readings; the limiter only decides.
#[derive(Debug, PartialEq, Eq)]
pub struct RateLimit {
    pub last_tick: u64,
    pub rate: u64,
    pub reqs: u64,
    pub millis: u64,
    pub active: bool,
    pub timer_id: u8,
}

impl RateLimit {
    /// A fresh limiter: `reqs` requests per `millis` milliseconds,
    /// paced at one request every `millis / reqs` milliseconds.
    pub fn new(reqs: u64, millis: u64, now_ms: u64, timer_id: u8) -> (r: RateLimit)
        requires
            reqs > 0,
        ensures
            r.rate == millis / reqs,
            r.reqs == reqs,
            r.millis == millis,
            r.last_tick == now_ms,
            !r.active,
            r.timer_id == timer_id,
    {
        RateLimit { last_tick: now_ms, rate: millis / reqs, reqs, millis, active: false, timer_id }
    }

    /// Start a fresh window at the given clock reading.
    pub fn reset(&mut self, now_ms: u64)
        ensures
            final(self).last_tick == now_ms,
            !final(self).active,
            final(self).rate == old(self).rate,
            final(self).reqs == old(self).reqs,
            final(self).millis == old(self).millis,
            final(self).timer_id == old(self).timer_id,
    {
        self.last_tick = now_ms;
        self.active = false;
    }

    /// Account for one request at the given clock reading: `true` when
    /// it may proceed now; `false` when the budget is spent, in which
    /// case the limiter goes active until the host's timer rearms it.
    pub fn tick(&mut self, now_ms: u64) -> (r: bool)
        requires
            old(self).last_tick <= u64::MAX - old(self).rate,
            now_ms <= u64::MAX - old(self).millis - old(self).rate,
        ensures
            final(self).rate == old(self).rate,
            final(self).reqs == old(self).reqs,
            final(self).millis == old(self).millis,
            final(self).timer_id == old(self).timer_id,
            ({
                let stepped = old(self).last_tick + old(self).rate;
                if stepped < now_ms {
                    r && !final(self).active && final(self).last_tick == now_ms + old(self).rate
                } else if stepped > now_ms + old(self).millis {
                    !r && final(self).active && final(self).last_tick == stepped
                } else {
                    r && !final(self).active && final(self).last_tick == stepped
                }
            }),
    {
        self.last_tick = self.last_tick + self.rate;
        if self.last_tick < now_ms {
            self.last_tick = now_ms + self.rate;
        } else if self.last_tick > now_ms + self.millis {
            self.active = true;
            return false;
        }
        self.active = false;
        true
    }

    /// The identifier of the host timer that rearms this limiter.
    pub fn id(&self) -> (r: u8)
        ensures
            r == self.timer_id,
    {
        self.timer_id
    }
}

} // verus!
