//! How a progress thread behaves while it finds no work.
use std::time::{Duration, Instant};

use vstd::prelude::*;

verus! {

/// A point in time.
#[verifier::external_type_specification]
#[verifier::external_body]
pub struct ExInstant(std::time::Instant);

/// The number of nanoseconds in a span of time.
pub uninterp spec fn nanos(span: Duration) -> u128;

/// `std::time::Duration::as_nanos`: the whole length of the span, in nanoseconds. What that
/// number is for a given span is not stated, only that the span alone decides it.
#[verifier::external_body]
fn span_nanos(span: Duration) -> (n: u128)
    ensures
        n == nanos(span),
{
    span.as_nanos()
}

/// `std::time::Instant::now`. Nothing is claimed of a reading of the clock.
#[verifier::external_body]
fn clock_now() -> (now: Instant) {
    Instant::now()
}

/// `std::time::Instant::elapsed`. Nothing is claimed of a reading of the clock.
#[verifier::external_body]
fn clock_elapsed(since: &Instant) -> (span: Duration) {
    since.elapsed()
}

/// The clock has shown `now`.
pub closed spec fn shown(now: Instant) -> bool {
    call_ensures(clock_now, (), now)
}

/// The clock has shown that `span` has gone by since `since`.
pub closed spec fn measured(since: Instant, span: Duration) -> bool {
    call_ensures(clock_elapsed, (&since,), span)
}

/// Controls how a fabric progress thread behaves after it stops observing work.
///
/// Busy polling remains the default for latency-sensitive primary data paths. Adaptive polling
/// is intended for warm standby paths: it spins through short gaps, then sleeps until the next
/// poll so an idle engine does not consume an entire CPU indefinitely.
#[derive(Clone, Copy, Debug, PartialEq, Eq)]
pub enum PollingMode {
    Busy,
    Adaptive { spin_duration: Duration, idle_sleep: Duration },
}

impl Default for PollingMode {
    fn default() -> (mode: Self)
        ensures
            mode is Busy,
    {
        PollingMode::Busy
    }
}

/// What a progress thread does before it polls again.
#[derive(Clone, Copy, Debug, PartialEq, Eq)]
pub enum IdleAction {
    /// Nothing: there was work.
    Continue,
    /// Spin once.
    Spin,
    /// Let another thread run.
    Yield,
    /// Sleep for this long.
    Sleep(Duration),
}

/// Counts the polls of one progress thread that found no work.
pub struct IdlePoller {
    pub mode: PollingMode,
    /// When the thread was first found idle; read only in adaptive mode.
    pub idle_since: Option<Instant>,
    /// Idle polls since the clock was last read.
    pub idle_polls: u32,
    pub sleeping: bool,
}

/// The sleep of an idle thread: an empty one is a mere yield.
pub open spec fn rest_of(idle_sleep: Duration) -> IdleAction {
    if nanos(idle_sleep) == 0 {
        IdleAction::Yield
    } else {
        IdleAction::Sleep(idle_sleep)
    }
}

impl IdlePoller {
    /// How many idle polls go by between two readings of the clock.
    pub const CLOCK_CHECK_INTERVAL: u32 = 64;

    /// A poller that has just seen work.
    pub open spec fn armed(mode: PollingMode) -> IdlePoller {
        IdlePoller { mode, idle_since: None, idle_polls: 0, sleeping: false }
    }

    /// The poller after the clock has shown that the thread has been idle for `elapsed`
    /// nanoseconds.
    pub open spec fn settled(self, elapsed: u128) -> IdlePoller {
        IdlePoller {
            idle_polls: 0,
            sleeping: match self.mode {
                PollingMode::Busy => self.sleeping,
                PollingMode::Adaptive { spin_duration, .. } => elapsed >= nanos(spin_duration),
            },
            ..self
        }
    }

    /// What the thread does once the clock has been read.
    pub open spec fn settled_action(self, elapsed: u128) -> IdleAction {
        match self.mode {
            PollingMode::Busy => IdleAction::Spin,
            PollingMode::Adaptive { spin_duration, idle_sleep } => if elapsed >= nanos(
                spin_duration,
            ) {
                rest_of(idle_sleep)
            } else {
                IdleAction::Spin
            },
        }
    }

    /// Whether an idle poll reads the clock.
    pub open spec fn reads_clock(self) -> bool {
        &&& self.mode is Adaptive
        &&& !self.sleeping
        &&& self.idle_polls.wrapping_add(1) >= Self::CLOCK_CHECK_INTERVAL
    }

    /// It is known since when the thread is idle: if it was not known before, since what the
    /// clock shows now.
    pub open spec fn noted_idle(self, after: IdlePoller) -> bool {
        match self.idle_since {
            Some(since) => after.idle_since == Some(since),
            None => after.idle_since matches Some(since) && shown(since),
        }
    }

    /// What a poll makes of the poller, and what is done before the next.
    pub open spec fn waited(self, after: IdlePoller, active: bool, action: IdleAction) -> bool {
        if active {
            &&& after == Self::armed(self.mode)
            &&& action == IdleAction::Continue
        } else {
            match self.mode {
                PollingMode::Busy => after == self && action == IdleAction::Spin,
                PollingMode::Adaptive { idle_sleep, .. } => if self.sleeping {
                    after == self && action == rest_of(idle_sleep)
                } else if !self.reads_clock() {
                    &&& self.noted_idle(after)
                    &&& after == (IdlePoller {
                        idle_since: after.idle_since,
                        idle_polls: self.idle_polls.wrapping_add(1),
                        ..self
                    })
                    &&& action == IdleAction::Spin
                } else {
                    &&& self.noted_idle(after)
                    &&& exists|span: Duration|
                        {
                            &&& #[trigger] measured(after.idle_since->Some_0, span)
                            &&& after == (IdlePoller {
                                idle_since: after.idle_since,
                                ..self.settled(nanos(span))
                            })
                            &&& action == self.settled_action(nanos(span))
                        }
                },
            }
        }
    }

    /// A poller that has just seen work.
    pub fn new(mode: PollingMode) -> (poller: Self)
        ensures
            poller == Self::armed(mode),
    {
        IdlePoller { mode, idle_since: None, idle_polls: 0, sleeping: false }
    }

    fn rest(idle_sleep: Duration) -> (action: IdleAction)
        ensures
            action == rest_of(idle_sleep),
    {
        if span_nanos(idle_sleep) == 0 {
            IdleAction::Yield
        } else {
            IdleAction::Sleep(idle_sleep)
        }
    }

    /// Goes to sleep if the thread has been idle for as long as it spins, `elapsed` being the
    /// nanoseconds since it was first found idle.
    pub fn settle(&mut self, elapsed: u128) -> (action: IdleAction)
        ensures
            *final(self) == old(self).settled(elapsed),
            action == old(self).settled_action(elapsed),
    {
        self.idle_polls = 0;
        match self.mode {
            PollingMode::Busy => IdleAction::Spin,
            PollingMode::Adaptive { spin_duration, idle_sleep } => {
                self.sleeping = elapsed >= span_nanos(spin_duration);
                if self.sleeping {
                    Self::rest(idle_sleep)
                } else {
                    IdleAction::Spin
                }
            },
        }
    }

    /// Takes note of a poll that found work or did not; what to do before the next.
    ///
    /// Work rearms the poller. Without work, a busy poller spins, a sleeping one sleeps on, and
    /// any other spins until the clock, read at intervals, shows that it has spun long enough.
    pub fn wait(&mut self, active: bool) -> (action: IdleAction)
        ensures
            old(self).waited(*final(self), active, action),
    {
        if active {
            self.idle_since = None;
            self.idle_polls = 0;
            self.sleeping = false;
            return IdleAction::Continue;
        }
        let idle_sleep = match self.mode {
            PollingMode::Busy => {
                return IdleAction::Spin;
            },
            PollingMode::Adaptive { idle_sleep, .. } => idle_sleep,
        };
        if self.sleeping {
            return Self::rest(idle_sleep);
        }
        let since = match self.idle_since {
            Some(since) => since,
            None => clock_now(),
        };
        self.idle_since = Some(since);
        self.idle_polls = self.idle_polls.wrapping_add(1);
        if self.idle_polls < Self::CLOCK_CHECK_INTERVAL {
            return IdleAction::Spin;
        }
        let span: Duration = clock_elapsed(&since);
        let elapsed: u128 = span_nanos(span);
        let action = self.settle(elapsed);
        proof {
            let settled = old(self).settled(nanos(span));
            assert(measured(self.idle_since->Some_0, span));
            assert(old(self).noted_idle(*self));
            assert(*self == (IdlePoller { idle_since: self.idle_since, ..settled }));
            assert(action == old(self).settled_action(nanos(span)));
        }
        action
    }
}

/// A poll without work leads from one state of a poller to another.
pub open spec fn idles_to(before: IdlePoller, after: IdlePoller) -> bool {
    exists|action: IdleAction| #[trigger] before.waited(after, false, action)
}

/// A poll without work leads from each state of a poller to the next.
pub open spec fn idle_trace(trace: Seq<IdlePoller>) -> bool {
    forall|i: int| 0 <= i < trace.len() - 1 ==> idles_to(#[trigger] trace[i], trace[i + 1])
}

/// A busy poller that is awake stays awake, with work or without.
pub proof fn busy_poller_stays_awake(
    before: IdlePoller,
    after: IdlePoller,
    active: bool,
    action: IdleAction,
)
    requires
        before.mode is Busy,
        !before.sleeping,
        before.waited(after, active, action),
    ensures
        !after.sleeping,
        after.mode is Busy,
        action is Continue || action is Spin,
{
}

/// A poller never counts a whole interval, its mode never changes, and only work wakes it. An
/// adaptive one falls asleep exactly when the clock, read at the end of an interval, shows that
/// it has been idle for as long as it spins; and a poll without work ends in rest exactly if the
/// poller is asleep after it.
pub proof fn sleep_follows_the_measured_idle_time(
    before: IdlePoller,
    after: IdlePoller,
    active: bool,
    action: IdleAction,
)
    requires
        before.idle_polls < IdlePoller::CLOCK_CHECK_INTERVAL,
        before.waited(after, active, action),
    ensures
        after.idle_polls < IdlePoller::CLOCK_CHECK_INTERVAL,
        after.mode == before.mode,
        active ==> !after.sleeping,
        !active ==> match before.mode {
            PollingMode::Busy => after == before,
            PollingMode::Adaptive { spin_duration, .. } => {
                let reads = before.idle_polls + 1 == IdlePoller::CLOCK_CHECK_INTERVAL;
                &&& before.sleeping ==> after.sleeping
                &&& !before.sleeping && after.sleeping ==> reads && exists|span: Duration|
                    #[trigger] measured(after.idle_since->Some_0, span) && nanos(span) >= nanos(
                        spin_duration,
                    )
                &&& !before.sleeping && !after.sleeping && reads ==> exists|span: Duration|
                    #[trigger] measured(after.idle_since->Some_0, span) && nanos(span) < nanos(
                        spin_duration,
                    )
                &&& after.sleeping <==> (action is Yield || action is Sleep)
            },
        },
{
}

/// An adaptive poller that has just seen work stays awake until it has found no work for a
/// whole interval of polls.
pub proof fn rearmed_poller_spins_for_an_interval(trace: Seq<IdlePoller>, mode: PollingMode)
    requires
        mode is Adaptive,
        0 < trace.len() <= IdlePoller::CLOCK_CHECK_INTERVAL,
        trace[0] == IdlePoller::armed(mode),
        idle_trace(trace),
    ensures
        !trace.last().sleeping,
        trace.last().idle_polls == trace.len() - 1,
        trace.last().mode == mode,
    decreases trace.len(),
{
    if trace.len() > 1 {
        let rest = trace.drop_last();
        assert(idle_trace(rest)) by {
            assert forall|i: int| 0 <= i < rest.len() - 1 implies idles_to(
                #[trigger] rest[i],
                rest[i + 1],
            ) by {
                assert(rest[i] == trace[i] && rest[i + 1] == trace[i + 1]);
            }
        }
        rearmed_poller_spins_for_an_interval(rest, mode);
        let before = trace[trace.len() - 2];
        assert(before == rest.last());
        assert(trace[trace.len() - 2 + 1] == trace.last());
    }
}

/// An adaptive poller that spins for no time at all sleeps at the end of the first interval.
pub proof fn impatient_poller_sleeps_after_an_interval(
    trace: Seq<IdlePoller>,
    spin_duration: Duration,
    idle_sleep: Duration,
)
    requires
        nanos(spin_duration) == 0,
        trace.len() == IdlePoller::CLOCK_CHECK_INTERVAL + 1,
        trace[0] == IdlePoller::armed(PollingMode::Adaptive { spin_duration, idle_sleep }),
        idle_trace(trace),
    ensures
        trace.last().sleeping,
{
    let mode = PollingMode::Adaptive { spin_duration, idle_sleep };
    let rest = trace.drop_last();
    assert(idle_trace(rest)) by {
        assert forall|i: int| 0 <= i < rest.len() - 1 implies idles_to(
            #[trigger] rest[i],
            rest[i + 1],
        ) by {
            assert(rest[i] == trace[i] && rest[i + 1] == trace[i + 1]);
        }
    }
    rearmed_poller_spins_for_an_interval(rest, mode);
    let before = trace[trace.len() - 2];
    assert(before == rest.last());
    assert(trace[trace.len() - 2 + 1] == trace.last());
    assert(before.reads_clock());
}

/// A thread that rests does so for the time that its mode gives, and merely yields if that is
/// none; a thread that has found work goes on at once, and forgets that it was idle.
pub proof fn rest_takes_the_given_time(
    before: IdlePoller,
    after: IdlePoller,
    active: bool,
    action: IdleAction,
)
    requires
        before.waited(after, active, action),
    ensures
        active <==> action is Continue,
        active ==> after.idle_since is None && after.idle_polls == 0 && !after.sleeping,
        action matches IdleAction::Sleep(span) ==> nanos(span) > 0 && (
        before.mode matches PollingMode::Adaptive { idle_sleep, .. } && idle_sleep == span),
        action is Yield ==> (before.mode matches PollingMode::Adaptive { idle_sleep, .. } && nanos(
            idle_sleep,
        ) == 0),
        !active && before.mode is Adaptive && !before.sleeping ==> after.idle_since is Some,
        before.idle_since is Some && !active ==> after.idle_since == before.idle_since,
        !active && before.mode is Adaptive && !before.sleeping && before.idle_polls + 1 < 64
            ==> after.idle_polls == before.idle_polls + 1 && action is Spin,
{
}

/// A poller that finds nothing to do and is still awake looks at the clock every 64th time and
/// counts from the beginning after it; at all other times it only counts and spins. It remembers
/// since when it has had nothing to do until there is something.
pub proof fn clock_is_looked_at_every_sixty_fourth_time(
    before: IdlePoller,
    after: IdlePoller,
    active: bool,
    action: IdleAction,
)
    requires
        before.idle_polls < 64,
        before.waited(after, active, action),
    ensures
        active ==> after.idle_polls == 0 && after.idle_since is None && !after.sleeping,
        !active && before.mode is Adaptive && !before.sleeping ==> {
            &&& before.idle_polls == 63 ==> after.idle_polls == 0
            &&& before.idle_polls < 63 ==> {
                &&& after.idle_polls == before.idle_polls + 1
                &&& !after.sleeping
                &&& action is Spin
            }
            &&& after.idle_since is Some
            &&& before.idle_since is Some ==> after.idle_since == before.idle_since
        },
        !active && (before.mode is Busy || before.sleeping) ==> after == before,
{
}

} // verus!
