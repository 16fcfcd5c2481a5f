use vstd::prelude::*;

use crate::text::ascii_upper;
use crate::text::parse_period_days;
use crate::text::spec_normalized;
use crate::text::spec_parse_period;

verus! {

// ---------------------------------------------------------------------------
// Configuration
// ---------------------------------------------------------------------------

/// A configuration the polling loop must reject before it starts.
#[derive(Clone, Copy, PartialEq, Eq, Structural, Debug)]
pub enum ConfigError {
    /// The period is no day-count descriptor of the form "<days>d".
    InvalidPeriod,
    /// The period does not exceed the moving-average window.
    PeriodTooShort,
}

/// An input the statistics engine must reject before computing.
#[derive(Clone, Copy, PartialEq, Eq, Structural, Debug)]
pub enum StatsError {
    /// A moving average over an empty window is undefined.
    ZeroWindow,
    /// The window is longer than the series it should slide across.
    WindowExceedsSeries,
    /// The memoized benchmark series does not match the series in length.
    BenchmarkLengthMismatch,
}

/// Guards the moving-average computation: the window must hold at least
/// one day and be no longer than the series.
pub fn check_window(series_len: usize, window: usize) -> (r: Result<(), StatsError>)
    ensures
        r is Ok <==> 1 <= window <= series_len,
        window == 0 ==> r->Err_0 == StatsError::ZeroWindow,
        window > series_len ==> r->Err_0 == StatsError::WindowExceedsSeries,
{
    if window == 0 {
        Err(StatsError::ZeroWindow)
    } else if window > series_len {
        Err(StatsError::WindowExceedsSeries)
    } else {
        Ok(())
    }
}

/// How many windows of length `n` slide across a series of length `len`:
/// `len - n + 1` when the series is long enough, none otherwise.
pub fn sma_window_count(n: usize, len: usize) -> (c: usize)
    requires
        1 <= n,
    ensures
        c as int == if n <= len {
            len - n + 1
        } else {
            0int
        },
{
    if n <= len {
        len - n + 1
    } else {
        0
    }
}

/// The moving-average window a query carries, as a count of days; a
/// negative window is no window at all.
pub fn query_window(mov_avg_num_days: i32) -> (r: Option<usize>)
    ensures
        r == if mov_avg_num_days >= 0 {
            Some(mov_avg_num_days as usize)
        } else {
            None::<usize>
        },
{
    if mov_avg_num_days >= 0 {
        Some(mov_avg_num_days as usize)
    } else {
        None
    }
}

/// Decides whether the benchmark-relative difference may be computed: the
/// memoized benchmark must be recorded, with exactly the length of the
/// series it is compared against.
pub fn check_benchmark(recorded: Option<usize>, series_len: usize) -> (r: Result<(), StatsError>)
    ensures
        r is Ok <==> recorded == Some(series_len),
        r is Err ==> r->Err_0 == StatsError::BenchmarkLengthMismatch,
{
    match recorded {
        Some(len) => {
            if len == series_len {
                Ok(())
            } else {
                Err(StatsError::BenchmarkLengthMismatch)
            }
        },
        None => Err(StatsError::BenchmarkLengthMismatch),
    }
}

// ---------------------------------------------------------------------------
// Scheduler
// ---------------------------------------------------------------------------

/// One request the scheduler hands down the pipeline: which symbol to
/// fetch over which period, and the moving-average window the processor
/// should apply.
pub struct StockQuery {
    pub symbol: String,
    pub period_start: String,
    pub mov_avg_num_days: i32,
}

#[derive(Clone, Copy, PartialEq, Eq, Structural, Debug)]
pub enum SchedulerPhase {
    /// Walking the symbol list and driving the pipeline for each symbol.
    Ticking,
    /// Pausing for the polling interval between two ticks.
    Sleeping,
}

/// What the polling loop should do next.
pub enum SchedulerAction {
    /// Drive the fetcher and the processor for one symbol.
    Fetch(StockQuery),
    /// The tick is complete: pause for the polling interval.
    Sleep,
    /// The pause is over: begin the next tick.
    Wake,
}

/// The state machine of the polling loop.  Each call of `next_action`
/// advances it by one step; the surrounding program performs the returned
/// action (the network call, the pause) and calls again, forever.
pub struct Scheduler {
    pub symbols: Vec<String>,
    pub period_start: String,
    pub mov_avg_num_days: i32,
    pub next: usize,
    pub phase: SchedulerPhase,
}

impl Scheduler {
    pub open spec fn wf(&self) -> bool {
        &&& self.next <= self.symbols@.len()
        &&& (self.phase is Sleeping ==> self.next == self.symbols@.len())
    }

    /// The single-step transition relation of the polling loop: fetches
    /// walk the symbol list in order, a completed tick sleeps, and waking
    /// starts the next tick at the head of the list.
    pub open spec fn spec_step(pre: Scheduler, post: Scheduler, a: SchedulerAction) -> bool {
        &&& post.symbols@ == pre.symbols@
        &&& post.period_start@ == pre.period_start@
        &&& post.mov_avg_num_days == pre.mov_avg_num_days
        &&& match a {
            SchedulerAction::Fetch(q) => {
                &&& pre.phase is Ticking
                &&& pre.next < pre.symbols@.len()
                &&& q.symbol@ == pre.symbols@[pre.next as int]@
                &&& q.period_start@ == pre.period_start@
                &&& q.mov_avg_num_days == pre.mov_avg_num_days
                &&& post.phase is Ticking
                &&& post.next == pre.next + 1
            },
            SchedulerAction::Sleep => {
                &&& pre.phase is Ticking
                &&& pre.next == pre.symbols@.len()
                &&& post.phase is Sleeping
                &&& post.next == pre.next
            },
            SchedulerAction::Wake => {
                &&& pre.phase is Sleeping
                &&& post.phase is Ticking
                &&& post.next == 0
            },
        }
    }

    pub fn new(symbols: Vec<String>, period_start: String, mov_avg_num_days: i32) -> (r:
        Scheduler)
        ensures
            r.wf(),
            r.symbols@ == symbols@,
            r.period_start@ == period_start@,
            r.mov_avg_num_days == mov_avg_num_days,
            r.next == 0,
            r.phase is Ticking,
    {
        Scheduler {
            symbols,
            period_start,
            mov_avg_num_days,
            next: 0,
            phase: SchedulerPhase::Ticking,
        }
    }

    /// Advances the loop by one step and says what to do next.
    pub fn next_action(&mut self) -> (a: SchedulerAction)
        requires
            old(self).wf(),
        ensures
            final(self).wf(),
            Scheduler::spec_step(*old(self), *final(self), a),
    {
        match self.phase {
            SchedulerPhase::Ticking => {
                if self.next < self.symbols.len() {
                    let symbol = self.symbols[self.next].clone();
                    let q = StockQuery {
                        symbol,
                        period_start: self.period_start.clone(),
                        mov_avg_num_days: self.mov_avg_num_days,
                    };
                    self.next = self.next + 1;
                    SchedulerAction::Fetch(q)
                } else {
                    self.phase = SchedulerPhase::Sleeping;
                    SchedulerAction::Sleep
                }
            },
            SchedulerPhase::Sleeping => {
                self.phase = SchedulerPhase::Ticking;
                self.next = 0;
                SchedulerAction::Wake
            },
        }
    }
}

/// Normalizes every ticker symbol to its upper-cased form: symbol equality
/// is case-insensitive, so the core works on upper-cased symbols only.
pub fn normalize_symbols(symbols: Vec<String>) -> (r: Vec<String>)
    ensures
        r@.len() == symbols@.len(),
        forall|i: int| 0 <= i < r@.len() ==> r@[i]@ == spec_normalized(symbols@[i]@),
{
    let mut upper: Vec<String> = Vec::new();
    let mut i: usize = 0;
    while i < symbols.len()
        invariant
            i <= symbols@.len(),
            upper@.len() == i,
            forall|j: int| 0 <= j < i ==> upper@[j]@ == spec_normalized(symbols@[j]@),
        decreases symbols@.len() - i,
    {
        upper.push(ascii_upper(symbols[i].as_str()));
        i = i + 1;
    }
    upper
}

/// Builds the scheduler after validating the configuration, as the process
/// must do once before the loop begins: the period must parse as a
/// day-count descriptor and strictly exceed the moving-average window; the
/// symbols are normalized to their upper-cased form.  On rejection no
/// scheduler exists, so no fetch is ever requested.
pub fn start_schedule(
    symbols: Vec<String>,
    period_start: String,
    period: &str,
    mov_avg_num_days: i32,
) -> (r: Result<Scheduler, ConfigError>)
    ensures
        r is Ok <==> (spec_parse_period(period@) is Some && spec_parse_period(period@)->0
            > mov_avg_num_days),
        r matches Ok(s) ==> {
            &&& s.wf()
            &&& s.next == 0
            &&& s.phase is Ticking
            &&& s.symbols@.len() == symbols@.len()
            &&& (forall|i: int|
                0 <= i < symbols@.len() ==> s.symbols@[i]@ == spec_normalized(symbols@[i]@))
            &&& s.period_start@ == period_start@
            &&& s.mov_avg_num_days == mov_avg_num_days
        },
        spec_parse_period(period@) is None ==> r->Err_0 == ConfigError::InvalidPeriod,
        (spec_parse_period(period@) is Some && spec_parse_period(period@)->0 <= mov_avg_num_days)
            ==> r->Err_0 == ConfigError::PeriodTooShort,
{
    match parse_period_days(period) {
        None => Err(ConfigError::InvalidPeriod),
        Some(days) => {
            if days > (mov_avg_num_days as i64) {
                Ok(Scheduler::new(normalize_symbols(symbols), period_start, mov_avg_num_days))
            } else {
                Err(ConfigError::PeriodTooShort)
            }
        },
    }
}

/// Within one tick the fetch requests walk the symbol list in the caller's
/// order: in a run of steps that starts a tick and issues only fetch
/// actions, the i-th action fetches the i-th symbol of the list.
pub proof fn lemma_tick_fetches_in_order(states: Seq<Scheduler>, acts: Seq<SchedulerAction>)
    requires
        states.len() == acts.len() + 1,
        states[0].phase is Ticking,
        states[0].next == 0,
        forall|i: int|
            0 <= i < acts.len() ==> Scheduler::spec_step(states[i], states[i + 1], #[trigger] acts[i]),
        forall|i: int| 0 <= i < acts.len() ==> (#[trigger] acts[i]) is Fetch,
    ensures
        forall|i: int|
            0 <= i < acts.len() ==> (#[trigger] acts[i])->Fetch_0.symbol@ == states[0].symbols@[i]@,
{
    assert forall|i: int|
        0 <= i < acts.len() implies (#[trigger] acts[i])->Fetch_0.symbol@
        == states[0].symbols@[i]@ by {
        lemma_tick_positions(states, acts, i);
    }
}

/// After `k` fetch steps from the start of a tick the scheduler stands at
/// position `k` of an unchanged symbol list.
proof fn lemma_tick_positions(states: Seq<Scheduler>, acts: Seq<SchedulerAction>, k: int)
    requires
        states.len() == acts.len() + 1,
        states[0].phase is Ticking,
        states[0].next == 0,
        forall|i: int|
            0 <= i < acts.len() ==> Scheduler::spec_step(states[i], states[i + 1], #[trigger] acts[i]),
        forall|i: int| 0 <= i < acts.len() ==> (#[trigger] acts[i]) is Fetch,
        0 <= k <= acts.len(),
    ensures
        states[k].phase is Ticking,
        states[k].next == k,
        states[k].symbols@ == states[0].symbols@,
    decreases k,
{
    if k > 0 {
        lemma_tick_positions(states, acts, k - 1);
        assert(acts[k - 1] is Fetch);
        assert(Scheduler::spec_step(states[k - 1], states[k], acts[k - 1]));
    }
}

// ---------------------------------------------------------------------------
// Benchmark cache
// ---------------------------------------------------------------------------

/// Whether the shared benchmark series has been fetched yet, and if so the
/// length it was observed to have.
#[derive(Clone, Copy, PartialEq, Eq, Structural, Debug)]
pub enum BenchmarkState {
    Empty,
    Ready { len: usize },
}

/// The once-only guard around the memoized benchmark series.  The series
/// itself stays with the caller that fetched it; the cache decides whether
/// a processor invocation must fetch it, and remembers the observed length
/// so later invocations can hold their series against it.
pub struct BenchmarkCache {
    pub state: BenchmarkState,
}

impl BenchmarkCache {
    /// One processor invocation's interaction with the cache: it fetches
    /// exactly when the cache was still empty, and afterwards the cache is
    /// ready and never changes again.
    pub open spec fn spec_step(pre: BenchmarkState, post: BenchmarkState, fetched: bool) -> bool {
        &&& fetched == (pre is Empty)
        &&& post is Ready
        &&& (pre is Ready ==> post == pre)
    }

    pub fn new() -> (r: BenchmarkCache)
        ensures
            r.state is Empty,
    {
        BenchmarkCache { state: BenchmarkState::Empty }
    }

    /// True exactly when no benchmark has been recorded yet; the caller
    /// must then fetch the series and record its length.
    pub fn needs_fetch(&self) -> (b: bool)
        ensures
            b == (self.state is Empty),
    {
        match self.state {
            BenchmarkState::Empty => true,
            BenchmarkState::Ready { .. } => false,
        }
    }

    /// Records the one benchmark fetch; under the first-need-wins contract
    /// the cache accepts exactly one recording.
    pub fn record(&mut self, len: usize)
        requires
            old(self).state is Empty,
        ensures
            final(self).state == (BenchmarkState::Ready { len }),
    {
        self.state = BenchmarkState::Ready { len };
    }

    /// The length the one recorded benchmark series was observed to have.
    pub fn recorded_len(&self) -> (r: Option<usize>)
        ensures
            self.state is Empty ==> r is None,
            self.state matches BenchmarkState::Ready { len } ==> r == Some(len),
    {
        match self.state {
            BenchmarkState::Empty => None,
            BenchmarkState::Ready { len } => Some(len),
        }
    }
}

pub open spec fn spec_count_true(s: Seq<bool>) -> int
    decreases s.len(),
{
    if s.len() == 0 {
        0
    } else {
        spec_count_true(s.drop_last()) + if s.last() {
            1int
        } else {
            0int
        }
    }
}

/// Benchmark memoization: in any run of processor invocations that starts
/// with an empty cache and steps it once per invocation, exactly the first
/// invocation fetches the benchmark — however many symbols the run serves,
/// the benchmark provider is called exactly once.
pub proof fn lemma_benchmark_fetched_once(states: Seq<BenchmarkState>, fetches: Seq<bool>)
    requires
        states.len() == fetches.len() + 1,
        fetches.len() >= 1,
        states[0] is Empty,
        forall|i: int|
            0 <= i < fetches.len() ==> BenchmarkCache::spec_step(
                states[i],
                states[i + 1],
                #[trigger] fetches[i],
            ),
    ensures
        spec_count_true(fetches) == 1,
{
    assert(fetches[0]);
    assert forall|i: int| 1 <= i < fetches.len() implies !(#[trigger] fetches[i]) by {
        lemma_cache_stays_ready(states, fetches, i);
    }
    lemma_count_single_leading_true(fetches);
}

/// After its first step the cache is ready for good.
proof fn lemma_cache_stays_ready(states: Seq<BenchmarkState>, fetches: Seq<bool>, k: int)
    requires
        states.len() == fetches.len() + 1,
        forall|i: int|
            0 <= i < fetches.len() ==> BenchmarkCache::spec_step(
                states[i],
                states[i + 1],
                #[trigger] fetches[i],
            ),
        1 <= k <= fetches.len(),
    ensures
        states[k] is Ready,
{
    assert(BenchmarkCache::spec_step(states[k - 1], states[k], fetches[k - 1]));
}

proof fn lemma_count_single_leading_true(s: Seq<bool>)
    requires
        s.len() >= 1,
        s[0],
        forall|i: int| 1 <= i < s.len() ==> !s[i],
    ensures
        spec_count_true(s) == 1,
    decreases s.len(),
{
    if s.len() == 1 {
        assert(s.drop_last() =~= Seq::<bool>::empty());
        assert(spec_count_true(Seq::<bool>::empty()) == 0);
    } else {
        let t = s.drop_last();
        assert(t[0]);
        assert forall|i: int| 1 <= i < t.len() implies !t[i] by {
            assert(t[i] == s[i]);
        }
        lemma_count_single_leading_true(t);
        assert(!s[s.len() - 1]);
    }
}

} // verus!
