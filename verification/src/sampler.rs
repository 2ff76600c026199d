//! The sampling engine: one focus sample per tick, counted in memory, and
//! handed out as a batch of records each time the rolling window is over.

use crate::counter::{
    bump, count_of, distinct_keys, lemma_credit, lemma_total_credit, positive_counts, total,
    FocusCounter, FocusKey, Tally,
};
use vstd::prelude::*;

verus! {

/// The sampling interval, in milliseconds.
pub const TICK_PERIOD_MS: u64 = 10;

/// The length of one rolling window, in seconds.
pub const SAMPLE_WINDOW_SIZE: u64 = 5;

/// Nanoseconds in one second.
pub const NANOS_PER_SEC: u64 = 1_000_000_000;

/// A reading of the wall clock, as a distance from the Unix epoch in either
/// direction.
#[derive(Clone, Copy, Debug, PartialEq, Eq)]
pub enum Timestamp {
    /// The clock stood `secs` seconds and `nanos` nanoseconds after the epoch.
    SinceEpoch { secs: u64, nanos: u32 },
    /// The clock stood `secs` seconds and `nanos` nanoseconds before the epoch.
    BeforeEpoch { secs: u64, nanos: u32 },
}

impl Timestamp {
    /// The reading in nanoseconds after the epoch, negative before it.
    pub open spec fn as_nanos(self) -> int {
        match self {
            Timestamp::SinceEpoch { secs, nanos } => secs * NANOS_PER_SEC + nanos,
            Timestamp::BeforeEpoch { secs, nanos } => -(secs * NANOS_PER_SEC + nanos),
        }
    }

    /// The reading in nanoseconds after the epoch, negative before it.
    pub fn nanos_since_epoch(&self) -> (n: i128)
        ensures
            n == self.as_nanos(),
    {
        match self {
            Timestamp::SinceEpoch { secs, nanos } => {
                assert(*secs * NANOS_PER_SEC + *nanos < 0x1_0000_0000_0000_0000 * 0x8000_0000)
                    by (nonlinear_arith)
                    requires
                        *secs < 0x1_0000_0000_0000_0000,
                        *nanos < 0x1_0000_0000,
                        NANOS_PER_SEC == 1_000_000_000,
                ;
                (*secs as i128) * (NANOS_PER_SEC as i128) + (*nanos as i128)
            },
            Timestamp::BeforeEpoch { secs, nanos } => {
                assert(*secs * NANOS_PER_SEC + *nanos < 0x1_0000_0000_0000_0000 * 0x8000_0000)
                    by (nonlinear_arith)
                    requires
                        *secs < 0x1_0000_0000_0000_0000,
                        *nanos < 0x1_0000_0000,
                        NANOS_PER_SEC == 1_000_000_000,
                ;
                -((*secs as i128) * (NANOS_PER_SEC as i128) + (*nanos as i128))
            },
        }
    }
}

/// Why a reading of the clock could not be used.
#[derive(Clone, Copy, Debug, PartialEq, Eq)]
pub enum ClockError {
    /// The clock now stands before the start of the window.
    WentBackwards,
    /// The window started before the Unix epoch.
    BeforeEpoch,
}

/// Whether a window that started at `start` and lasts `window_secs` whole
/// seconds is over at `now`.
pub open spec fn window_over(start: Timestamp, now: Timestamp, window_secs: u64) -> bool {
    now.as_nanos() - start.as_nanos() >= window_secs * NANOS_PER_SEC
}

/// Compares the time since `start` with the window size. The clock having
/// gone backwards is reported, not taken for a window that is not over.
pub fn window_elapsed(start: &Timestamp, now: &Timestamp, window_secs: u64) -> (r: Result<
    bool,
    ClockError,
>)
    ensures
        now.as_nanos() < start.as_nanos() ==> r == Err::<bool, ClockError>(
            ClockError::WentBackwards,
        ),
        now.as_nanos() >= start.as_nanos() ==> r == Ok::<bool, ClockError>(
            window_over(*start, *now, window_secs),
        ),
{
    let from = start.nanos_since_epoch();
    let to = now.nanos_since_epoch();
    if to < from {
        Err(ClockError::WentBackwards)
    } else {
        assert(window_secs * NANOS_PER_SEC < 0x1_0000_0000_0000_0000 * 0x8000_0000)
            by (nonlinear_arith)
            requires
                window_secs < 0x1_0000_0000_0000_0000,
                NANOS_PER_SEC == 1_000_000_000,
        ;
        Ok(to - from >= (window_secs as i128) * (NANOS_PER_SEC as i128))
    }
}

/// One persisted row: how often a window was seen in the window of time that
/// started at `tv_sec` seconds and `tv_nsec` nanoseconds after the epoch.
#[derive(Clone, Debug, PartialEq, Eq)]
pub struct SampleRecord {
    pub tv_sec: u64,
    pub tv_nsec: u32,
    pub app_id: String,
    pub title: String,
    pub count: u64,
}

/// What a `SampleRecord` stands for.
pub struct Sample {
    pub tv_sec: u64,
    pub tv_nsec: u32,
    pub key: FocusKey,
    pub count: nat,
}

impl View for SampleRecord {
    type V = Sample;

    open spec fn view(&self) -> Sample {
        Sample {
            tv_sec: self.tv_sec,
            tv_nsec: self.tv_nsec,
            key: FocusKey { app_id: self.app_id@, title: self.title@ },
            count: self.count as nat,
        }
    }
}

/// What a sequence of records stands for, record by record.
pub open spec fn samples(records: Seq<SampleRecord>) -> Seq<Sample> {
    records.map_values(|r: SampleRecord| r@)
}

/// The rows of one flush: one per tally, in the order of the tallies, all
/// stamped with the same time.
pub open spec fn batch(tv_sec: u64, tv_nsec: u32, tallies: Seq<Tally>) -> Seq<Sample> {
    tallies.map_values(|t: Tally| Sample { tv_sec, tv_nsec, key: t.key, count: t.count })
}

/// A batch holds one row for each tally, in the order of the tallies. Every
/// row carries the time of the batch, and the key and the count of its tally;
/// so tallies with `m` distinct keys give exactly `m` rows, no two of them
/// under one key.
pub proof fn lemma_batch_rows(tv_sec: u64, tv_nsec: u32, tallies: Seq<Tally>)
    ensures
        batch(tv_sec, tv_nsec, tallies).len() == tallies.len(),
        forall|i: int|
            0 <= i < tallies.len() ==> {
                let row = #[trigger] batch(tv_sec, tv_nsec, tallies)[i];
                &&& row.tv_sec == tv_sec
                &&& row.tv_nsec == tv_nsec
                &&& row.key == tallies[i].key
                &&& row.count == tallies[i].count
            },
        distinct_keys(tallies) ==> forall|i: int, j: int|
            0 <= i < j < tallies.len() ==> (#[trigger] batch(tv_sec, tv_nsec, tallies)[i]).key != (
            #[trigger] batch(tv_sec, tv_nsec, tallies)[j]).key,
{
    let rows = batch(tv_sec, tv_nsec, tallies);
    if distinct_keys(tallies) {
        assert forall|i: int, j: int| 0 <= i < j < tallies.len() implies (#[trigger] rows[i]).key
            != (#[trigger] rows[j]).key by {
            assert(tallies[i].key != tallies[j].key);
        }
    }
}

/// Turns the counter into the rows to persist for the window that started at
/// `ts`. A window that started before the epoch has no rows.
pub fn record_stats(ts: &Timestamp, counter: &FocusCounter) -> (r: Result<
    Vec<SampleRecord>,
    ClockError,
>)
    ensures
        match *ts {
            Timestamp::SinceEpoch { secs, nanos } => r is Ok && samples(r->Ok_0@) == batch(
                secs,
                nanos,
                counter@,
            ),
            Timestamp::BeforeEpoch { .. } => r == Err::<Vec<SampleRecord>, ClockError>(
                ClockError::BeforeEpoch,
            ),
        },
{
    match ts {
        Timestamp::SinceEpoch { secs, nanos } => {
            let mut rows: Vec<SampleRecord> = Vec::new();
            let n = counter.len();
            let mut i: usize = 0;
            while i < n
                invariant
                    i <= n,
                    n == counter@.len(),
                    rows@.len() == i,
                    samples(rows@) == batch(*secs, *nanos, counter@.subrange(0, i as int)),
                decreases n - i,
            {
                let e = counter.entry(i);
                let ghost before = rows@;
                rows.push(
                    SampleRecord {
                        tv_sec: *secs,
                        tv_nsec: *nanos,
                        app_id: e.app_id.clone(),
                        title: e.title.clone(),
                        count: e.count,
                    },
                );
                proof {
                    let earlier = batch(*secs, *nanos, counter@.subrange(0, i as int));
                    let now = batch(*secs, *nanos, counter@.subrange(0, i + 1));
                    assert(samples(rows@).len() == now.len());
                    assert forall|j: int| 0 <= j < now.len() implies samples(rows@)[j] == now[j] by {
                        if j < i {
                            assert(samples(rows@)[j] == samples(before)[j]);
                            assert(earlier[j] == now[j]);
                        }
                    }
                    assert(samples(rows@) =~= now);
                }
                i += 1;
            }
            assert(counter@.subrange(0, n as int) =~= counter@);
            Ok(rows)
        },
        Timestamp::BeforeEpoch { .. } => Err(ClockError::BeforeEpoch),
    }
}

/// The tallies after a tick on which the resolver gave `sample`: a window that
/// was found is counted, a tick without one changes nothing.
pub open spec fn counted(tallies: Seq<Tally>, sample: Option<(String, String)>) -> Seq<Tally> {
    match sample {
        Some((app_id, title)) => bump(tallies, FocusKey { app_id: app_id@, title: title@ }),
        None => tallies,
    }
}

/// The tallies after `k` ticks that all gave the same key.
pub open spec fn bump_times(tallies: Seq<Tally>, key: FocusKey, k: nat) -> Seq<Tally>
    decreases k,
{
    if k == 0 {
        tallies
    } else {
        bump(bump_times(tallies, key, (k - 1) as nat), key)
    }
}

/// After `k` ticks that all resolved to the same window, its count is `k`
/// higher than before, every other count is what it was, and the total is `k`
/// higher; the tallies stay well formed. This holds as long as the count
/// stays within what can be stored.
pub proof fn lemma_same_window_for_k_ticks(tallies: Seq<Tally>, key: FocusKey, k: nat)
    requires
        distinct_keys(tallies),
        positive_counts(tallies),
        count_of(tallies, key) + k <= u64::MAX,
    ensures
        distinct_keys(bump_times(tallies, key, k)),
        positive_counts(bump_times(tallies, key, k)),
        count_of(bump_times(tallies, key, k), key) == count_of(tallies, key) + k,
        forall|other: FocusKey|
            other != key ==> count_of(bump_times(tallies, key, k), other) == count_of(
                tallies,
                other,
            ),
        total(bump_times(tallies, key, k)) == total(tallies) + k,
    decreases k,
{
    if k > 0 {
        let before = bump_times(tallies, key, (k - 1) as nat);
        lemma_same_window_for_k_ticks(tallies, key, (k - 1) as nat);
        lemma_total_credit(before, key, 1);
        assert forall|other: FocusKey| other != key implies count_of(
            bump_times(tallies, key, k),
            other,
        ) == count_of(tallies, other) by {
            lemma_credit(before, key, 1, other);
        }
        lemma_credit(before, key, 1, key);
    }
}

/// Starting from an empty counter, `k` ticks that all resolved to the same
/// window leave that window with a count of exactly `k`, and nothing else
/// counted.
pub proof fn lemma_fresh_counter_after_k_ticks(key: FocusKey, k: nat)
    requires
        k <= u64::MAX,
    ensures
        count_of(bump_times(Seq::<Tally>::empty(), key, k), key) == k,
        total(bump_times(Seq::<Tally>::empty(), key, k)) == k,
        forall|other: FocusKey|
            other != key ==> count_of(bump_times(Seq::<Tally>::empty(), key, k), other) == 0,
{
    let nothing = Seq::<Tally>::empty();
    lemma_same_window_for_k_ticks(nothing, key, k);
    assert forall|other: FocusKey| other != key implies count_of(
        bump_times(nothing, key, k),
        other,
    ) == 0 by {
        assert(count_of(bump_times(nothing, key, k), other) == count_of(nothing, other));
    }
}

/// What the engine asks of its caller after a tick.
#[derive(Debug, PartialEq, Eq)]
pub enum TickOutcome {
    /// The window is not over: there is nothing to persist.
    Waiting,
    /// The clock stands before the start of the window: the tick was counted
    /// and the window goes on.
    ClockWentBackwards,
    /// The window was over: these rows are to be persisted, each on its own.
    Flushed(Vec<SampleRecord>),
    /// The window was over, but it had started before the epoch: its counts
    /// were dropped and there is nothing to persist.
    Dropped,
}

/// The state of the sampling engine as contracts see it.
pub struct SamplerState {
    /// The counts of the current window.
    pub tallies: Seq<Tally>,
    /// When the current window started.
    pub window_start: Timestamp,
    /// The length of a window in whole seconds.
    pub window_secs: u64,
    /// The number of ticks since the current window started.
    pub ticks: nat,
}

/// The sampling engine between two ticks: the counter of the current window
/// and the time at which that window started.
pub struct Sampler {
    counter: FocusCounter,
    window_start: Timestamp,
    window_secs: u64,
    ticks: Ghost<nat>,
}

impl View for Sampler {
    type V = SamplerState;

    closed spec fn view(&self) -> SamplerState {
        SamplerState {
            tallies: self.counter@,
            window_start: self.window_start,
            window_secs: self.window_secs,
            ticks: self.ticks@,
        }
    }
}

/// What the engine keeps true of its state: the tallies are well formed, and
/// their total is at most the number of ticks since the window started.
pub open spec fn sampler_inv(state: SamplerState) -> bool {
    &&& distinct_keys(state.tallies)
    &&& positive_counts(state.tallies)
    &&& total(state.tallies) <= state.ticks
}

/// The state after a flush at `now`: nothing counted, a window that starts at
/// `now`, no tick in it yet.
pub open spec fn restarted(state: SamplerState, now: Timestamp) -> SamplerState {
    SamplerState { tallies: Seq::empty(), window_start: now, window_secs: state.window_secs, ticks: 0 }
}

/// The state after a tick that gave `sample`, before the window is looked at.
pub open spec fn observed(state: SamplerState, sample: Option<(String, String)>) -> SamplerState {
    SamplerState {
        tallies: counted(state.tallies, sample),
        window_start: state.window_start,
        window_secs: state.window_secs,
        ticks: state.ticks + 1,
    }
}

impl Sampler {
    /// An engine whose first window starts at `now` and lasts
    /// `SAMPLE_WINDOW_SIZE` seconds.
    pub fn new(now: Timestamp) -> (s: Self)
        ensures
            sampler_inv(s@),
            s@ == (SamplerState {
                tallies: Seq::empty(),
                window_start: now,
                window_secs: SAMPLE_WINDOW_SIZE,
                ticks: 0,
            }),
    {
        Sampler::with_window(now, SAMPLE_WINDOW_SIZE)
    }

    /// An engine whose first window starts at `now` and lasts `window_secs`
    /// seconds.
    pub fn with_window(now: Timestamp, window_secs: u64) -> (s: Self)
        ensures
            sampler_inv(s@),
            s@ == (SamplerState { tallies: Seq::empty(), window_start: now, window_secs, ticks: 0 }),
    {
        Sampler { counter: FocusCounter::new(), window_start: now, window_secs, ticks: Ghost(0) }
    }

    /// The counter of the current window.
    pub fn counter(&self) -> (c: &FocusCounter)
        requires
            sampler_inv(self@),
        ensures
            c.wf(),
            c@ == self@.tallies,
    {
        &self.counter
    }

    /// When the current window started.
    pub fn window_start(&self) -> (ts: Timestamp)
        ensures
            ts == self@.window_start,
    {
        self.window_start
    }

    /// Counts the sample of one tick.
    pub fn observe(&mut self, sample: Option<(String, String)>)
        requires
            sampler_inv(old(self)@),
        ensures
            sampler_inv(final(self)@),
            final(self)@ == observed(old(self)@, sample),
    {
        match sample {
            Some((app_id, title)) => {
                proof {
                    lemma_total_credit(
                        self.counter@,
                        FocusKey { app_id: app_id@, title: title@ },
                        1,
                    );
                }
                self.counter.record(app_id, title);
            },
            None => {},
        }
        self.ticks = Ghost((self.ticks@ + 1) as nat);
    }

    /// Ends the current window at `now`: hands out its rows, stamped with the
    /// time at which it started, forgets every count and starts the next
    /// window at `now`. Of a window that started before the epoch the counts
    /// are forgotten without rows.
    pub fn flush(&mut self, now: Timestamp) -> (r: Result<Vec<SampleRecord>, ClockError>)
        requires
            sampler_inv(old(self)@),
        ensures
            sampler_inv(final(self)@),
            final(self)@ == restarted(old(self)@, now),
            match old(self)@.window_start {
                Timestamp::SinceEpoch { secs, nanos } => r is Ok && samples(r->Ok_0@) == batch(
                    secs,
                    nanos,
                    old(self)@.tallies,
                ),
                Timestamp::BeforeEpoch { .. } => r == Err::<Vec<SampleRecord>, ClockError>(
                    ClockError::BeforeEpoch,
                ),
            },
    {
        let rows = record_stats(&self.window_start, &self.counter);
        self.window_start = now;
        self.counter.clear();
        self.ticks = Ghost(0);
        rows
    }

    /// One step of the engine: counts the sample of this tick, then looks at
    /// the clock and, where the window is over, flushes.
    pub fn on_tick(&mut self, sample: Option<(String, String)>, now: Timestamp) -> (outcome:
        TickOutcome)
        requires
            sampler_inv(old(self)@),
        ensures
            sampler_inv(final(self)@),
            tick_outcome(old(self)@, sample, now, final(self)@, outcome),
    {
        self.observe(sample);
        match window_elapsed(&self.window_start, &now, self.window_secs) {
            Err(_) => TickOutcome::ClockWentBackwards,
            Ok(false) => TickOutcome::Waiting,
            Ok(true) => {
                match self.flush(now) {
                    Ok(rows) => TickOutcome::Flushed(rows),
                    Err(_) => TickOutcome::Dropped,
                }
            },
        }
    }
}

/// What one step does to a state `before` on a tick that gave `sample` when
/// the clock stood at `now`.
pub open spec fn tick_outcome(
    before: SamplerState,
    sample: Option<(String, String)>,
    now: Timestamp,
    after: SamplerState,
    outcome: TickOutcome,
) -> bool {
    let seen = observed(before, sample);
    if now.as_nanos() < before.window_start.as_nanos() {
        after == seen && outcome == TickOutcome::ClockWentBackwards
    } else if !window_over(before.window_start, now, before.window_secs) {
        after == seen && outcome == TickOutcome::Waiting
    } else {
        &&& after == restarted(before, now)
        &&& match before.window_start {
            Timestamp::SinceEpoch { secs, nanos } => outcome is Flushed && samples(
                outcome->Flushed_0@,
            ) == batch(secs, nanos, seen.tallies),
            Timestamp::BeforeEpoch { .. } => outcome == TickOutcome::Dropped,
        }
    }
}

} // verus!
