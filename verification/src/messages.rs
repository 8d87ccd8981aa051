use vstd::prelude::*;
use std::collections::VecDeque;
use std::time::{Duration, Instant};

verus! {

#[verifier::external_type_specification]
#[verifier::external_body]
pub struct ExInstant(Instant);

/// `Instant::now`: the current time. Nothing is claimed of it.
#[verifier::external_body]
fn now() -> Instant {
    Instant::now()
}

/// `Instant::elapsed`: the time since `t`. Nothing is claimed of it.
#[verifier::external_body]
fn elapsed(t: &Instant) -> Duration {
    t.elapsed()
}

/// `Duration::as_nanos`: the whole duration in nanoseconds. Nothing is
/// claimed of it here.
#[verifier::external_body]
fn as_nanos(d: &Duration) -> u128 {
    d.as_nanos()
}

/// How long a message stays on the screen, in nanoseconds.
pub const MESSAGE_DISPLAY_NANOS: u128 = 10_000_000_000;

/// Messages to show one after the other, each for a while.
pub struct Messages {
    messages: VecDeque<String>,
    message_display_time: Option<Instant>,
}

impl Messages {
    /// The messages waiting, the one shown first.
    pub closed spec fn queue(&self) -> Seq<Seq<char>> {
        self.messages@.map_values(|s: String| s@)
    }

    /// When the first message started to be shown, if it is being shown.
    pub closed spec fn display_time(&self) -> Option<Instant> {
        self.message_display_time
    }

    /// Whether the first message is being shown.
    pub open spec fn showing(&self) -> bool {
        self.display_time() is Some
    }

    pub open spec fn wf(&self) -> bool {
        self.showing() ==> self.queue().len() > 0
    }

    /// No messages.
    pub fn new() -> (m: Self)
        ensures
            m.wf(),
            m.queue().len() == 0,
            m.display_time() is None,
    {
        let m = Messages { messages: VecDeque::new(), message_display_time: None };
        assert(m.queue() =~= Seq::<Seq<char>>::empty());
        m
    }

    /// Adds `message` after the others.
    pub fn add(&mut self, message: String)
        requires
            old(self).wf(),
        ensures
            final(self).wf(),
            final(self).queue() == old(self).queue().push(message@),
            final(self).display_time() == old(self).display_time(),
    {
        self.messages.push_back(message);
        assert(self.queue() =~= old(self).queue().push(message@));
    }

    /// The message to show now: the first one, which gives way to the next
    /// once it has been shown for longer than `MESSAGE_DISPLAY_NANOS`.
    /// `elapsed` is how long the first message has been shown, if it is;
    /// `now` is the time, at which a message that starts to be shown starts.
    pub fn poll_at(&mut self, elapsed: Option<u128>, now: Instant) -> (r: Option<String>)
        requires
            old(self).wf(),
        ensures
            polled(*old(self), *final(self), r, elapsed, now),
    {
        let expired = match elapsed {
            Some(n) => n > MESSAGE_DISPLAY_NANOS,
            None => false,
        };
        if self.message_display_time.is_some() && expired {
            self.messages.pop_front();
            self.message_display_time = None;
            assert(self.queue() =~= old(self).queue().drop_first());
        }
        if self.message_display_time.is_none() {
            if self.messages.len() > 0 {
                self.message_display_time = Some(now);
            }
        }
        if self.messages.len() > 0 {
            Some(self.messages[0].clone())
        } else {
            None
        }
    }

    /// The message to show now (see `polled`), going by the clock: how long
    /// the first message has been shown and the time now are read from it.
    pub fn poll(&mut self) -> (r: Option<String>)
        requires
            old(self).wf(),
        ensures
            exists|elapsed: Option<u128>, now: Instant|
                (elapsed is Some <==> old(self).showing()) && #[trigger] polled(
                    *old(self),
                    *final(self),
                    r,
                    elapsed,
                    now,
                ),
    {
        let shown_for = match &self.message_display_time {
            Some(t) => {
                let e = elapsed(t);
                Some(as_nanos(&e))
            },
            None => None,
        };
        let n = now();
        self.poll_at(shown_for, n)
    }
}

/// Whether a message shown for `elapsed` nanoseconds (if one is shown) has
/// been shown long enough.
pub open spec fn expired(elapsed: Option<u128>) -> bool {
    elapsed matches Some(n) && n > MESSAGE_DISPLAY_NANOS
}

/// `b` is `a` polled at `now`, its first message having been shown for
/// `elapsed`, and `r` is the message to show: the first message is dropped
/// exactly where it is shown and has expired; a message that starts to be
/// shown starts at `now`, and one still shown keeps its start.
pub open spec fn polled(a: Messages, b: Messages, r: Option<String>, elapsed: Option<u128>, now: Instant) -> bool {
    let dropped = a.showing() && expired(elapsed);
    let q = if dropped { a.queue().drop_first() } else { a.queue() };
    &&& b.wf()
    &&& b.queue() == q
    &&& b.display_time() == if q.len() == 0 {
        None
    } else if dropped || a.display_time() is None {
        Some(now)
    } else {
        a.display_time()
    }
    &&& match r {
        Some(s) => q.len() > 0 && s@ == q[0],
        None => q.len() == 0,
    }
}

} // verus!
