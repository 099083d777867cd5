//! Background priority, built above the runtime instead of inside it.
//!
//! Background work runs in chunks and closes each one with [`Budget::tick`],
//! which answers whether the next chunk may run at once, should yield the
//! executor one turn, or should sleep first. The caller does the waiting and
//! then calls [`Budget::resume`]:
//!
//! ```text
//! loop {
//!     compact_a_chunk();
//!     match budget.tick(&foreground, clock.now()) { ... }
//!     budget.resume(clock.now());
//! }
//! ```
//!
//! The yield points are visible in the source, and there is no runtime to
//! fork.

use crate::num::NonZeroU8;
use crate::time::{span, Duration, Instant, NANOS_MAX};
use vstd::prelude::*;

verus! {

/// Background scheduling policy for one shard.
///
/// The right share is a property of the application, so it is configuration.
#[derive(Debug, Clone, Copy, PartialEq, Eq)]
pub struct Policy {
    /// Share of the shard's total observed runtime background work may consume.
    pub warrant_percent: NonZeroU8,
    /// Foreground work seen more recently than this means the shard sleeps the
    /// background task rather than merely yielding to it.
    pub foreground_idle: Duration,
    /// Upper bound on one background sleep.
    pub sleep_max: Duration,
}

/// When foreground work was last seen on a shard, if ever.
#[derive(Debug, Clone, Copy, PartialEq, Eq)]
pub struct Foreground {
    at: Option<Instant>,
}

impl View for Foreground {
    type V = Option<Instant>;

    closed spec fn view(&self) -> Option<Instant> {
        self.at
    }
}

impl Foreground {
    /// A shard that has seen no foreground work.
    pub fn new() -> (foreground: Foreground)
        ensures
            foreground@ == None::<Instant>,
    {
        Foreground { at: None }
    }
}

/// Record that foreground work just ran on this shard.
///
/// The listener marks each connection at accept and at close. A service holding
/// long-lived connections should mark each request it serves, otherwise the
/// budget sees a busy shard as idle and stops sleeping background work.
pub fn mark_foreground(foreground: &mut Foreground, now: Instant)
    ensures
        final(foreground)@ == Some(now),
{
    foreground.at = Some(now);
}

/// What the shard has seen at one tick.
#[derive(Debug, Clone, Copy, PartialEq, Eq)]
pub struct Observed {
    /// Background time accounted for, the chunk included.
    pub background: Duration,
    /// Time since the budget was started.
    pub total: Duration,
    /// How long the chunk took that was just closed.
    pub chunk: Duration,
    /// Time since foreground work was last seen, if it ever was.
    pub foreground_idle: Option<Duration>,
}

/// What background work does before its next chunk.
#[derive(Debug, Clone, Copy, PartialEq, Eq)]
pub enum Decision {
    Continue,
    Yield,
    Sleep(Duration),
}

/// Background work has taken more than its share of the observed time.
pub open spec fn over_warrant(policy: Policy, observed: Observed) -> bool {
    observed.background@ * 100 > observed.total@ * policy.warrant_percent@
}

/// Foreground work was seen recently enough to sleep for it.
pub open spec fn foreground_recent(policy: Policy, observed: Observed) -> bool {
    observed.foreground_idle matches Some(idle) && idle@ < policy.foreground_idle@
}

/// How long background work sleeps for recent foreground work: as long as the
/// last chunk took, up to the policy's bound.
pub open spec fn nap(policy: Policy, observed: Observed) -> nat {
    if observed.chunk@ <= policy.sleep_max@ {
        observed.chunk@
    } else {
        policy.sleep_max@
    }
}

/// The decision that the policy asks for.
pub open spec fn decided(policy: Policy, observed: Observed, decision: Decision) -> bool {
    if !over_warrant(policy, observed) {
        decision is Continue
    } else if foreground_recent(policy, observed) && nap(policy, observed) > 0 {
        decision matches Decision::Sleep(length) && length@ == nap(policy, observed)
    } else {
        decision is Yield
    }
}

/// Apply the policy to what the shard has seen.
pub fn decide(policy: &Policy, observed: &Observed) -> (decision: Decision)
    ensures
        decided(*policy, *observed, decision),
{
    let spent: u128 = observed.background.as_nanos() * 100;
    let total: u128 = observed.total.as_nanos();
    let percent: u128 = u128::from(policy.warrant_percent.get());
    proof {
        vstd::arithmetic::mul::lemma_mul_upper_bound(
            total as int,
            NANOS_MAX as int,
            percent as int,
            255,
        );
        vstd::arithmetic::mul::lemma_mul_nonnegative(total as int, percent as int);
    }
    let warranted: u128 = total * percent;
    if spent <= warranted {
        return Decision::Continue;
    }
    let recent = match observed.foreground_idle {
        Some(idle) => idle.as_nanos() < policy.foreground_idle.as_nanos(),
        None => false,
    };
    if recent {
        let length = observed.chunk.min(policy.sleep_max);
        if length.is_zero() {
            Decision::Yield
        } else {
            Decision::Sleep(length)
        }
    } else {
        Decision::Yield
    }
}

/// Per-shard background accounting. One per background task.
#[derive(Debug)]
pub struct Budget {
    policy: Policy,
    started: Instant,
    chunk_started: Instant,
    background: Duration,
}

/// What a budget keeps, with points and spans of time in nanoseconds.
pub struct BudgetView {
    pub policy: Policy,
    /// When the budget was started.
    pub started: nat,
    /// When the chunk began that is running now.
    pub chunk_started: nat,
    /// Background time accounted for in the chunks that were closed.
    pub background: nat,
}

impl View for Budget {
    type V = BudgetView;

    closed spec fn view(&self) -> BudgetView {
        BudgetView {
            policy: self.policy,
            started: self.started@,
            chunk_started: self.chunk_started@,
            background: self.background@,
        }
    }
}

impl BudgetView {
    /// How long the running chunk has taken at `now`.
    pub open spec fn chunk(self, now: nat) -> nat {
        span(self.chunk_started, now)
    }

    /// The budget once its running chunk was closed at `now`.
    pub open spec fn ticked(self, now: nat) -> BudgetView {
        BudgetView { background: self.background + self.chunk(now), ..self }
    }

    /// The budget once a new chunk was begun at `now`.
    pub open spec fn resumed(self, now: nat) -> BudgetView {
        BudgetView { chunk_started: now, ..self }
    }

    /// What the shard sees when the running chunk is closed at `now`.
    pub open spec fn sees(self, foreground: Option<Instant>, now: nat, observed: Observed) -> bool {
        &&& observed.background@ == self.ticked(now).background
        &&& observed.total@ == span(self.started, now)
        &&& observed.chunk@ == self.chunk(now)
        &&& match foreground {
            Some(at) => observed.foreground_idle matches Some(idle) && idle@ == span(at@, now),
            None => observed.foreground_idle is None,
        }
    }

    /// The chunks accounted for do not overlap: all of them lie between the
    /// start of the budget and the start of the running chunk.
    pub open spec fn is_accounted(self) -> bool {
        self.started + self.background <= self.chunk_started
    }
}

impl Budget {
    /// Start accounting, with a first chunk that begins now.
    pub fn start(policy: Policy, now: Instant) -> (budget: Budget)
        ensures
            budget@ == (BudgetView {
                policy,
                started: now@,
                chunk_started: now@,
                background: 0,
            }),
            budget@.is_accounted(),
    {
        Budget { policy, started: now, chunk_started: now, background: Duration::zero() }
    }

    /// Close out the chunk of background work that ran since the last tick and
    /// apply the warrant.
    ///
    /// Under warrant there is nothing to wait for.
    pub fn tick(&mut self, foreground: &Foreground, now: Instant) -> (decision: Decision)
        requires
            old(self)@.is_accounted() || old(self)@.ticked(now@).background <= NANOS_MAX,
        ensures
            final(self)@ == old(self)@.ticked(now@),
            exists|observed: Observed| #[trigger]
                old(self)@.sees(foreground@, now@, observed) && decided(
                    old(self)@.policy,
                    observed,
                    decision,
                ),
    {
        let chunk = now.duration_since(self.chunk_started);
        let total = now.duration_since(self.started);
        self.background = self.background.plus(chunk);
        let foreground_idle = match foreground.at {
            Some(at) => Some(now.duration_since(at)),
            None => None,
        };
        let observed = Observed { background: self.background, total, chunk, foreground_idle };
        assert(old(self)@.sees(foreground@, now@, observed));
        decide(&self.policy, &observed)
    }

    /// Begin the next chunk, once whatever the last tick decided has been
    /// waited for.
    pub fn resume(&mut self, now: Instant)
        ensures
            final(self)@ == old(self)@.resumed(now@),
    {
        self.chunk_started = now;
    }

    /// Background time this budget has accounted for so far.
    pub fn background(&self) -> (background: Duration)
        ensures
            background@ == self@.background,
    {
        self.background
    }
}

/// What the executor does with a task that is polled.
#[derive(Debug, Clone, Copy, PartialEq, Eq)]
pub enum Turn {
    /// Let another task run and poll this one again.
    Pending,
    /// Carry on.
    Ready,
}

/// Hands the executor one turn: pending at the first poll, ready from then on.
#[derive(Debug, Clone, Copy, PartialEq, Eq)]
pub struct YieldNow {
    yielded: bool,
}

impl View for YieldNow {
    type V = bool;

    closed spec fn view(&self) -> bool {
        self.yielded
    }
}

impl YieldNow {
    pub fn new() -> (yielding: YieldNow)
        ensures
            !yielding@,
    {
        YieldNow { yielded: false }
    }

    pub fn poll(&mut self) -> (turn: Turn)
        ensures
            final(self)@,
            turn is Ready <==> old(self)@,
    {
        if self.yielded {
            Turn::Ready
        } else {
            self.yielded = true;
            Turn::Pending
        }
    }
}

/// As long as the clock does not run backwards, a budget never accounts for
/// more time than has passed since it was started, whatever is decided at each
/// tick and however long the waiting takes.
pub proof fn law_accounting_stays_within_elapsed_time(
    budget: BudgetView,
    ticked_at: nat,
    resumed_at: nat,
)
    requires
        budget.is_accounted(),
        budget.chunk_started <= ticked_at <= resumed_at,
    ensures
        budget.ticked(ticked_at).background <= span(budget.started, ticked_at),
        budget.ticked(ticked_at).resumed(resumed_at).is_accounted(),
{
}

/// A chunk of background work: when it began and when it was closed.
pub struct Chunk {
    pub began: nat,
    pub closed: nat,
}

/// The budget once each of the chunks was begun and closed in turn.
pub open spec fn worked(budget: BudgetView, chunks: Seq<Chunk>) -> BudgetView
    decreases chunks.len(),
{
    if chunks.len() == 0 {
        budget
    } else {
        worked(budget, chunks.drop_last()).resumed(chunks.last().began).ticked(chunks.last().closed)
    }
}

/// No background work goes unaccounted: of any run of chunks that took at
/// least `each`, a budget accounts for at least `each` times their number.
pub proof fn law_every_chunk_is_accounted_for(budget: BudgetView, chunks: Seq<Chunk>, each: nat)
    requires
        forall|i: int| 0 <= i < chunks.len() ==> span(#[trigger] chunks[i].began, chunks[i].closed)
            >= each,
    ensures
        worked(budget, chunks).background >= budget.background + each * chunks.len(),
    decreases chunks.len(),
{
    if chunks.len() > 0 {
        let before = chunks.drop_last();
        assert forall|i: int| 0 <= i < before.len() implies span(
            #[trigger] before[i].began,
            before[i].closed,
        ) >= each by {
            assert(before[i] == chunks[i]);
        }
        law_every_chunk_is_accounted_for(budget, before, each);
        let last = chunks.last();
        assert(span(last.began, last.closed) >= each);
        assert(each * chunks.len() == each * before.len() + each) by (nonlinear_arith)
            requires
                chunks.len() == before.len() + 1,
        ;
    }
}

/// A background task never sleeps longer than its policy allows, nor longer
/// than the chunk it just ran, and never sleeps for no time at all.
pub proof fn law_sleep_is_bounded(policy: Policy, observed: Observed, length: Duration)
    requires
        decided(policy, observed, Decision::Sleep(length)),
    ensures
        0 < length@ <= policy.sleep_max@,
        length@ <= observed.chunk@,
{
}

/// Background work is put off only when it is over its warrant, and slept only
/// when foreground work was seen recently.
pub proof fn law_waiting_has_a_reason(policy: Policy, observed: Observed, decision: Decision)
    requires
        decided(policy, observed, decision),
    ensures
        !(decision is Continue) ==> over_warrant(policy, observed),
        decision is Sleep ==> foreground_recent(policy, observed),
{
}

/// A warrant for the whole of the observed time never holds background work
/// back, since a budget accounts for no more than that.
pub proof fn law_full_warrant_never_waits(policy: Policy, observed: Observed, decision: Decision)
    requires
        decided(policy, observed, decision),
        policy.warrant_percent@ >= 100,
        observed.background@ <= observed.total@,
    ensures
        decision is Continue,
{
    assert(observed.background@ * 100 <= observed.total@ * policy.warrant_percent@)
        by (nonlinear_arith)
        requires
            policy.warrant_percent@ >= 100,
            observed.background@ <= observed.total@,
    ;
}

/// Time in which background work does not run pays its debt off: work that is
/// within its warrant stays so as more time passes, and work that took
/// `background` is within it from `100 * background` onwards at the latest.
pub proof fn law_waiting_restores_the_warrant(policy: Policy, before: Observed, after: Observed)
    requires
        policy.warrant_percent@ >= 1,
        after.background@ == before.background@,
        after.total@ >= before.total@,
    ensures
        !over_warrant(policy, before) ==> !over_warrant(policy, after),
        after.total@ >= 100 * after.background@ ==> !over_warrant(policy, after),
{
    let percent = policy.warrant_percent@;
    assert(after.total@ * percent >= before.total@ * percent) by (nonlinear_arith)
        requires
            after.total@ >= before.total@,
    ;
    assert(after.total@ * percent >= after.total@) by (nonlinear_arith)
        requires
            percent >= 1,
    ;
}

/// Background work goes on exactly while it has taken no more than its configured
/// share: of a hundred parts of the observed time as many as the policy says, no
/// more and no fewer.
pub proof fn law_background_work_keeps_to_its_share(
    policy: Policy,
    observed: Observed,
    decision: Decision,
)
    requires
        decided(policy, observed, decision),
    ensures
        decision is Continue <==> observed.background@ * 100 <= observed.total@
            * policy.warrant_percent@,
{
}

/// A larger share lets more go on: what goes on under one warrant goes on under
/// every larger one, and what waits under one waits under every smaller one.
pub proof fn law_a_larger_share_lets_more_go_on(
    policy: Policy,
    larger: Policy,
    observed: Observed,
    decision: Decision,
    under_larger: Decision,
)
    requires
        policy.warrant_percent@ <= larger.warrant_percent@,
        decided(policy, observed, decision),
        decided(larger, observed, under_larger),
    ensures
        decision is Continue ==> under_larger is Continue,
        !(under_larger is Continue) ==> !(decision is Continue),
{
    assert(observed.total@ * policy.warrant_percent@ <= observed.total@ * larger.warrant_percent@)
        by (nonlinear_arith)
        requires
            policy.warrant_percent@ <= larger.warrant_percent@,
    ;
}

/// Work that has to wait sleeps exactly when foreground work was seen more
/// recently than the policy's bound and there is a time to sleep, and then for
/// the shorter of the last chunk and the policy's bound on one sleep; otherwise
/// it yields one turn.
pub proof fn law_work_sleeps_for_recent_foreground_and_yields_otherwise(
    policy: Policy,
    observed: Observed,
    decision: Decision,
)
    requires
        decided(policy, observed, decision),
        observed.background@ * 100 > observed.total@ * policy.warrant_percent@,
    ensures
        ({
            let sleeps = {
                &&& observed.foreground_idle is Some
                &&& observed.foreground_idle->Some_0@ < policy.foreground_idle@
                &&& observed.chunk@ > 0
                &&& policy.sleep_max@ > 0
            };
            &&& decision is Sleep <==> sleeps
            &&& decision is Yield <==> !sleeps
        }),
        decision matches Decision::Sleep(length) ==> {
            &&& observed.chunk@ <= policy.sleep_max@ ==> length@ == observed.chunk@
            &&& policy.sleep_max@ <= observed.chunk@ ==> length@ == policy.sleep_max@
        },
{
}

/// Closing a chunk accounts for the time since it began and for nothing else, and
/// beginning the next one moves only its beginning.
pub proof fn law_a_chunk_is_accounted_for_exactly(budget: BudgetView, closed: nat, began: nat)
    ensures
        budget.chunk_started <= closed ==> budget.ticked(closed).background == budget.background
            + (closed - budget.chunk_started),
        closed <= budget.chunk_started ==> budget.ticked(closed).background == budget.background,
        budget.ticked(closed).policy == budget.policy,
        budget.ticked(closed).started == budget.started,
        budget.ticked(closed).chunk_started == budget.chunk_started,
        budget.resumed(began).chunk_started == began,
        budget.resumed(began).policy == budget.policy,
        budget.resumed(began).started == budget.started,
        budget.resumed(began).background == budget.background,
        budget.is_accounted() <==> budget.started + budget.background <= budget.chunk_started,
{
}

/// What a tick decides, from the times alone: the chunk that is closed counts
/// toward the share, the share is of the time since the budget was started, and
/// foreground work is as old as the time since it was marked.
pub proof fn law_a_tick_weighs_the_times(
    budget: BudgetView,
    foreground: Option<Instant>,
    now: nat,
    observed: Observed,
    decision: Decision,
)
    requires
        budget.sees(foreground, now, observed),
        decided(budget.policy, observed, decision),
    ensures
        ({
            let chunk = if budget.chunk_started <= now {
                now - budget.chunk_started
            } else {
                0
            };
            let total = if budget.started <= now {
                now - budget.started
            } else {
                0
            };
            let over = (budget.background + chunk) * 100 > total
                * budget.policy.warrant_percent@;
            let recent = {
                &&& foreground is Some
                &&& now < foreground->Some_0@ + budget.policy.foreground_idle@
                &&& budget.policy.foreground_idle@ > 0
            };
            &&& decision is Continue <==> !over
            &&& decision is Sleep <==> over && recent && chunk > 0 && budget.policy.sleep_max@ > 0
            &&& decision matches Decision::Sleep(length) ==> {
                &&& chunk <= budget.policy.sleep_max@ ==> length@ == chunk
                &&& budget.policy.sleep_max@ <= chunk ==> length@ == budget.policy.sleep_max@
            }
        }),
{
}

} // verus!
