//! One shard's life, from the start of its thread to its end.
//!
//! A [`Session`] says what the shard's thread does next; the thread does it and
//! says what happened. The first thing to do is to build the runtime, with the
//! CPU that the [`Boot`] names.

use crate::listener;
use crate::shard::{Boot, Error, Message, ShardId};
use crate::time::Duration;
use vstd::prelude::*;

verus! {

/// How far a shard has come.
#[derive(Debug, Clone, Copy, PartialEq, Eq)]
pub enum Stage {
    /// Its runtime is being built.
    Building,
    /// Its listener is being opened.
    Opening,
    /// It reports that it is listening.
    Reporting,
    /// Its service is being made.
    MakingService,
    /// Its accept loop is being started.
    StartingAccept,
    /// Its beat is being started.
    StartingBeat,
    /// It waits for a message.
    Waiting,
    /// It runs a job.
    Working,
    /// Its accept loop is being cancelled.
    StoppingAccept,
    /// Its beat is being cancelled.
    StoppingBeat,
    /// Its service is being told.
    Notifying,
    /// It waits for open connections to close.
    Draining,
    /// Its thread ends.
    Ended,
}

/// What happened on a shard's thread.
#[derive(Debug)]
pub enum Event<J> {
    RuntimeBuilt,
    RuntimeFailed(std::io::Error),
    ListenerOpened,
    BindFailed(listener::Error),
    /// The pool was told that the shard is listening.
    Reported,
    ServiceMade,
    AcceptStarted,
    BeatStarted,
    Received(Message<J>),
    /// The pool is gone: no message will come.
    Disconnected,
    JobRun,
    AcceptStopped,
    BeatStopped,
    ServiceNotified,
    /// The drain is over with this many connections still open.
    Drained(usize),
}

/// What a shard's thread does next.
#[derive(Debug)]
pub enum Task<J> {
    OpenListener,
    /// Tell the pool that the shard is listening.
    ReportListening,
    /// Tell the pool of this failure and end.
    Fail(Error),
    /// Make the service of this shard.
    MakeService(ShardId),
    StartAccepting,
    /// Start to beat this often.
    StartBeating(Duration),
    /// Wait for a message.
    Wait,
    /// Run the job on this shard.
    RunJob { job: J, shard: ShardId },
    /// Cancel the accept loop. Cancelling issues a real cancellation to the
    /// driver: nothing drops an operation that is in flight.
    StopAccepting,
    StopBeating,
    /// Tell the service that the shard has stopped accepting.
    NotifyService,
    /// Wait for open connections to close, at most this long.
    Drain(Duration),
    /// End, with this many connections still open.
    End(usize),
}

/// One shard on its own thread.
#[derive(Debug)]
pub struct Session {
    shard: ShardId,
    beat_every: Option<Duration>,
    drain: Duration,
    stage: Stage,
}

/// What can happen at a stage.
pub open spec fn expects<J>(stage: Stage, event: Event<J>) -> bool {
    match event {
        Event::RuntimeBuilt => stage is Building,
        Event::RuntimeFailed(_) => stage is Building,
        Event::ListenerOpened => stage is Opening,
        Event::BindFailed(_) => stage is Opening,
        Event::Reported => stage is Reporting,
        Event::ServiceMade => stage is MakingService,
        Event::AcceptStarted => stage is StartingAccept,
        Event::BeatStarted => stage is StartingBeat,
        Event::Received(_) => stage is Waiting,
        Event::Disconnected => stage is Waiting,
        Event::JobRun => stage is Working,
        Event::AcceptStopped => stage is StoppingAccept,
        Event::BeatStopped => stage is StoppingBeat,
        Event::ServiceNotified => stage is Notifying,
        Event::Drained(_) => stage is Draining,
    }
}

/// The stage that an event leads to, on a shard that beats or not.
pub open spec fn stage_after<J>(event: Event<J>, beats: bool) -> Stage {
    match event {
        Event::RuntimeBuilt => Stage::Opening,
        Event::RuntimeFailed(_) => Stage::Ended,
        Event::ListenerOpened => Stage::Reporting,
        Event::BindFailed(_) => Stage::Ended,
        Event::Reported => Stage::MakingService,
        Event::ServiceMade => Stage::StartingAccept,
        Event::AcceptStarted => if beats {
            Stage::StartingBeat
        } else {
            Stage::Waiting
        },
        Event::BeatStarted => Stage::Waiting,
        Event::Received(Message::Run(_)) => Stage::Working,
        Event::Received(Message::Stop) => Stage::StoppingAccept,
        Event::Disconnected => Stage::StoppingAccept,
        Event::JobRun => Stage::Waiting,
        Event::AcceptStopped => if beats {
            Stage::StoppingBeat
        } else {
            Stage::Notifying
        },
        Event::BeatStopped => Stage::Notifying,
        Event::ServiceNotified => Stage::Draining,
        Event::Drained(_) => Stage::Ended,
    }
}

/// What a shard does about an event.
pub open spec fn task_for<J>(
    event: Event<J>,
    shard: ShardId,
    beat_every: Option<Duration>,
    drain: Duration,
) -> Task<J> {
    match event {
        Event::RuntimeBuilt => Task::OpenListener,
        Event::RuntimeFailed(source) => Task::Fail(Error::BuildRuntime { shard, source }),
        Event::ListenerOpened => Task::ReportListening,
        Event::BindFailed(source) => Task::Fail(Error::Bind { shard, source }),
        Event::Reported => Task::MakeService(shard),
        Event::ServiceMade => Task::StartAccepting,
        Event::AcceptStarted => match beat_every {
            Some(every) => Task::StartBeating(every),
            None => Task::Wait,
        },
        Event::BeatStarted => Task::Wait,
        Event::Received(Message::Run(job)) => Task::RunJob { job, shard },
        Event::Received(Message::Stop) => Task::StopAccepting,
        Event::Disconnected => Task::StopAccepting,
        Event::JobRun => Task::Wait,
        Event::AcceptStopped => if beat_every is Some {
            Task::StopBeating
        } else {
            Task::NotifyService
        },
        Event::BeatStopped => Task::NotifyService,
        Event::ServiceNotified => Task::Drain(drain),
        Event::Drained(remaining_count) => Task::End(remaining_count),
    }
}

impl Session {
    pub closed spec fn shard(&self) -> ShardId {
        self.shard
    }

    /// How often the shard beats, if it does.
    pub closed spec fn beat_every(&self) -> Option<Duration> {
        self.beat_every
    }

    /// The upper bound on the drain.
    pub closed spec fn drain(&self) -> Duration {
        self.drain
    }

    pub closed spec fn stage(&self) -> Stage {
        self.stage
    }

    /// A shard whose runtime is about to be built.
    pub fn begin(boot: &Boot) -> (session: Session)
        ensures
            session.shard() == boot.shard,
            session.beat_every() == boot.beat_every,
            session.drain() == boot.drain,
            session.stage() is Building,
    {
        Session {
            shard: boot.shard,
            beat_every: boot.beat_every,
            drain: boot.drain,
            stage: Stage::Building,
        }
    }

    /// Go on from what happened.
    pub fn step<J>(&mut self, event: Event<J>) -> (task: Task<J>)
        requires
            expects(old(self).stage(), event),
        ensures
            task == task_for(event, old(self).shard(), old(self).beat_every(), old(self).drain()),
            final(self).stage() == stage_after(event, old(self).beat_every() is Some),
            final(self).shard() == old(self).shard(),
            final(self).beat_every() == old(self).beat_every(),
            final(self).drain() == old(self).drain(),
    {
        match event {
            Event::RuntimeBuilt => {
                self.stage = Stage::Opening;
                Task::OpenListener
            },
            Event::RuntimeFailed(source) => {
                self.stage = Stage::Ended;
                Task::Fail(Error::BuildRuntime { shard: self.shard, source })
            },
            Event::ListenerOpened => {
                self.stage = Stage::Reporting;
                Task::ReportListening
            },
            Event::BindFailed(source) => {
                self.stage = Stage::Ended;
                Task::Fail(Error::Bind { shard: self.shard, source })
            },
            Event::Reported => {
                self.stage = Stage::MakingService;
                Task::MakeService(self.shard)
            },
            Event::ServiceMade => {
                self.stage = Stage::StartingAccept;
                Task::StartAccepting
            },
            Event::AcceptStarted => {
                match self.beat_every {
                    Some(every) => {
                        self.stage = Stage::StartingBeat;
                        Task::StartBeating(every)
                    },
                    None => {
                        self.stage = Stage::Waiting;
                        Task::Wait
                    },
                }
            },
            Event::BeatStarted => {
                self.stage = Stage::Waiting;
                Task::Wait
            },
            Event::Received(Message::Run(job)) => {
                self.stage = Stage::Working;
                Task::RunJob { job, shard: self.shard }
            },
            Event::Received(Message::Stop) => {
                self.stage = Stage::StoppingAccept;
                Task::StopAccepting
            },
            Event::Disconnected => {
                self.stage = Stage::StoppingAccept;
                Task::StopAccepting
            },
            Event::JobRun => {
                self.stage = Stage::Waiting;
                Task::Wait
            },
            Event::AcceptStopped => {
                match self.beat_every {
                    Some(_) => {
                        self.stage = Stage::StoppingBeat;
                        Task::StopBeating
                    },
                    None => {
                        self.stage = Stage::Notifying;
                        Task::NotifyService
                    },
                }
            },
            Event::BeatStopped => {
                self.stage = Stage::Notifying;
                Task::NotifyService
            },
            Event::ServiceNotified => {
                self.stage = Stage::Draining;
                Task::Drain(self.drain)
            },
            Event::Drained(remaining_count) => {
                self.stage = Stage::Ended;
                Task::End(remaining_count)
            },
        }
    }
}

/// The place of a stage in a shard's life.
pub open spec fn order(stage: Stage) -> int {
    match stage {
        Stage::Building => 0,
        Stage::Opening => 1,
        Stage::Reporting => 2,
        Stage::MakingService => 3,
        Stage::StartingAccept => 4,
        Stage::StartingBeat => 5,
        Stage::Waiting => 6,
        Stage::Working => 6,
        Stage::StoppingAccept => 7,
        Stage::StoppingBeat => 8,
        Stage::Notifying => 9,
        Stage::Draining => 10,
        Stage::Ended => 11,
    }
}

/// The shard's accept loop is being started, or runs.
pub open spec fn accepts(stage: Stage) -> bool {
    stage is StartingAccept || stage is StartingBeat || stage is Waiting || stage is Working
}

/// A shard goes through its life once: every event takes it to a later stage,
/// except that it goes back and forth between waiting for a message and running
/// a job.
pub proof fn law_a_shard_moves_forward<J>(stage: Stage, event: Event<J>, beats: bool)
    requires
        expects(stage, event),
    ensures
        event matches Event::Received(Message::Run(_)) ==> stage is Waiting && stage_after(
            event,
            beats,
        ) is Working,
        event is JobRun ==> stage is Working && stage_after(event, beats) is Waiting,
        !(event matches Event::Received(Message::Run(_))) && !(event is JobRun) ==> order(
            stage_after(event, beats),
        ) > order(stage),
{
}

/// Event number `i` is one that could happen, and led to the next stage.
pub open spec fn leads_on<J>(
    stages: Seq<Stage>,
    events: Seq<Event<J>>,
    beats: bool,
    i: int,
) -> bool {
    &&& expects(stages[i], events[i])
    &&& stages[i + 1] == stage_after(events[i], beats)
}

/// A run of a shard: the events that happened, each of them one that could, and
/// the stages that they led through, from the first to the last.
pub open spec fn is_life<J>(stages: Seq<Stage>, events: Seq<Event<J>>, beats: bool) -> bool {
    &&& stages.len() == events.len() + 1
    &&& stages[0] is Building
    &&& forall|i: int| 0 <= i < events.len() ==> #[trigger] leads_on(stages, events, beats, i)
}

/// The pool is told something of the shard's start at this event.
pub open spec fn reports<J>(event: Event<J>) -> bool {
    event is ListenerOpened || event is RuntimeFailed || event is BindFailed
}

/// A shard tells the pool once how its start went: of all that happens to it,
/// only one event makes it report, and the report is either that it is listening
/// or one failure.
pub proof fn law_a_shard_reports_once<J>(
    stages: Seq<Stage>,
    events: Seq<Event<J>>,
    beats: bool,
    one: int,
    other: int,
    shard: ShardId,
    beat_every: Option<Duration>,
    drain: Duration,
)
    requires
        is_life(stages, events, beats),
        0 <= one <= other < events.len(),
        reports(events[one]),
        reports(events[other]),
    ensures
        one == other,
        task_for(events[one], shard, beat_every, drain) is ReportListening || task_for(
            events[one],
            shard,
            beat_every,
            drain,
        ) is Fail,
{
    assert(leads_on(stages, events, beats, one));
    assert(leads_on(stages, events, beats, other));
    if one < other {
        lemma_order_grows(stages, events, beats, one + 1, other);
    }
}

/// The service is made at stage number `makes` and at no other, right after the
/// shard has reported that it is listening.
pub open spec fn made_once(stages: Seq<Stage>, makes: int) -> bool {
    &&& 1 <= makes < stages.len()
    &&& stages[makes] is MakingService
    &&& stages[makes - 1] is Reporting
    &&& forall|i: int|
        0 <= i < stages.len() && #[trigger] stages[i] is MakingService ==> i == makes
}

/// The service is made exactly once, after the shard has reported that it is
/// listening and before it accepts.
pub proof fn law_the_service_is_made_once_before_accepting<J>(
    stages: Seq<Stage>,
    events: Seq<Event<J>>,
    beats: bool,
    accepting: int,
)
    requires
        is_life(stages, events, beats),
        0 <= accepting < stages.len(),
        accepts(stages[accepting]),
    ensures
        exists|makes: int| makes < accepting && #[trigger] made_once(stages, makes),
{
    let makes = lemma_made_before(stages, events, beats, accepting);
    assert(leads_on(stages, events, beats, makes - 1));
    assert forall|i: int|
        0 <= i < stages.len() && #[trigger] stages[i] is MakingService implies i == makes by {
        lemma_made_at_most_once(stages, events, beats, i, makes);
    }
    assert(made_once(stages, makes));
}

proof fn lemma_made_at_most_once<J>(
    stages: Seq<Stage>,
    events: Seq<Event<J>>,
    beats: bool,
    one: int,
    other: int,
)
    requires
        is_life(stages, events, beats),
        0 <= one < stages.len(),
        0 <= other < stages.len(),
        stages[one] is MakingService,
        stages[other] is MakingService,
    ensures
        one == other,
{
    if one < other {
        assert(leads_on(stages, events, beats, one));
        lemma_order_grows(stages, events, beats, one + 1, other);
    }
    if other < one {
        assert(leads_on(stages, events, beats, other));
        lemma_order_grows(stages, events, beats, other + 1, one);
    }
}

proof fn lemma_made_before<J>(
    stages: Seq<Stage>,
    events: Seq<Event<J>>,
    beats: bool,
    accepting: int,
) -> (makes: int)
    requires
        is_life(stages, events, beats),
        0 <= accepting < stages.len(),
        accepts(stages[accepting]),
    ensures
        1 <= makes < accepting,
        stages[makes] is MakingService,
    decreases accepting,
{
    assert(leads_on(stages, events, beats, accepting - 1));
    if stages[accepting] is StartingAccept {
        assert(leads_on(stages, events, beats, accepting - 2));
        accepting - 1
    } else {
        lemma_made_before(stages, events, beats, accepting - 1)
    }
}

/// Once a shard is told to stop, or the pool is gone, it takes no message and
/// so runs no job.
pub proof fn law_no_job_runs_after_the_stop<J>(
    stages: Seq<Stage>,
    events: Seq<Event<J>>,
    beats: bool,
    stops: int,
    later: int,
)
    requires
        is_life(stages, events, beats),
        0 <= stops < later < events.len(),
        events[stops] is Disconnected || (events[stops] matches Event::Received(Message::Stop)),
    ensures
        !(events[later] is Received),
        !(stages[later] is Working),
{
    assert(leads_on(stages, events, beats, stops));
    assert(leads_on(stages, events, beats, later));
    lemma_order_grows(stages, events, beats, stops + 1, later);
}

/// The service is told that the shard is stopping after the shard has stopped
/// accepting and before open connections are drained: in any run in which a
/// shard drains, its service was told before, and before that its accept loop
/// was stopped, and from when the service is told no connection is accepted.
pub proof fn law_the_service_is_told_between_accepting_and_draining<J>(
    stages: Seq<Stage>,
    events: Seq<Event<J>>,
    beats: bool,
    drains: int,
)
    requires
        is_life(stages, events, beats),
        0 <= drains < stages.len(),
        stages[drains] is Draining,
    ensures
        exists|stops: int, tells: int|
            0 <= stops < tells < drains && #[trigger] stages[stops] is StoppingAccept
                && #[trigger] stages[tells] is Notifying,
        forall|later: int|
            drains - 1 <= later < stages.len() ==> !accepts(#[trigger] stages[later]),
{
    let tells = drains - 1;
    assert(leads_on(stages, events, beats, tells));
    assert(stages[tells] is Notifying);
    let before = tells - 1;
    assert(leads_on(stages, events, beats, before));
    if events[before] is AcceptStopped {
        assert(stages[before] is StoppingAccept);
    } else {
        assert(stages[before] is StoppingBeat);
        assert(leads_on(stages, events, beats, before - 1));
        assert(stages[before - 1] is StoppingAccept);
    }
    assert forall|later: int| tells <= later < stages.len() implies !accepts(
        #[trigger] stages[later],
    ) by {
        lemma_order_grows(stages, events, beats, tells, later);
    }
}

proof fn lemma_order_grows<J>(
    stages: Seq<Stage>,
    events: Seq<Event<J>>,
    beats: bool,
    from: int,
    to: int,
)
    requires
        is_life(stages, events, beats),
        0 <= from <= to < stages.len(),
    ensures
        order(stages[from]) <= order(stages[to]),
    decreases to - from,
{
    if from < to {
        lemma_order_grows(stages, events, beats, from, to - 1);
        assert(leads_on(stages, events, beats, to - 1));
    }
}

/// A shard that fails to come up ends at once, without having served, and its
/// failure names it.
pub proof fn law_a_failed_start_ends_the_shard<J>(
    stage: Stage,
    event: Event<J>,
    shard: ShardId,
    beat_every: Option<Duration>,
    drain: Duration,
)
    requires
        expects(stage, event),
        task_for(event, shard, beat_every, drain) is Fail,
    ensures
        order(stage) < order(Stage::Reporting),
        stage_after(event, beat_every is Some) is Ended,
        match task_for(event, shard, beat_every, drain)->Fail_0 {
            Error::BuildRuntime { shard: failed, .. } => failed == shard,
            Error::Bind { shard: failed, .. } => failed == shard,
            _ => false,
        },
{
}

/// What each stage waits for: the two ways that building and opening can end, a
/// message or the pool's end, and otherwise the one thing that is being done.
/// Nothing happens on a shard that has ended.
pub proof fn law_each_stage_waits_for_its_own_events<J>(stage: Stage, event: Event<J>)
    ensures
        expects(stage, event) <==> match stage {
            Stage::Building => event is RuntimeBuilt || event is RuntimeFailed,
            Stage::Opening => event is ListenerOpened || event is BindFailed,
            Stage::Reporting => event is Reported,
            Stage::MakingService => event is ServiceMade,
            Stage::StartingAccept => event is AcceptStarted,
            Stage::StartingBeat => event is BeatStarted,
            Stage::Waiting => event is Received || event is Disconnected,
            Stage::Working => event is JobRun,
            Stage::StoppingAccept => event is AcceptStopped,
            Stage::StoppingBeat => event is BeatStopped,
            Stage::Notifying => event is ServiceNotified,
            Stage::Draining => event is Drained,
            Stage::Ended => false,
        },
{
}

/// A shard does what it is at: the task that an event leads to is the work of the
/// stage that it leads to. A job is the one that was received, a drain is bounded
/// as configured, a beat comes as often as configured, the count at the end is
/// the one that the drain came back with, and a failure is the one that happened.
pub proof fn law_the_task_is_the_work_of_the_stage<J>(
    event: Event<J>,
    shard: ShardId,
    beat_every: Option<Duration>,
    drain: Duration,
)
    ensures
        ({
            let stage = stage_after(event, beat_every is Some);
            let task = task_for(event, shard, beat_every, drain);
            &&& task is OpenListener <==> stage is Opening
            &&& task is ReportListening <==> stage is Reporting
            &&& task is MakeService <==> stage is MakingService
            &&& task is StartAccepting <==> stage is StartingAccept
            &&& task is StartBeating <==> stage is StartingBeat
            &&& task is Wait <==> stage is Waiting
            &&& task is RunJob <==> stage is Working
            &&& task is StopAccepting <==> stage is StoppingAccept
            &&& task is StopBeating <==> stage is StoppingBeat
            &&& task is NotifyService <==> stage is Notifying
            &&& task is Drain <==> stage is Draining
            &&& (task is Fail || task is End) <==> stage is Ended
            &&& task matches Task::MakeService(of) ==> of == shard
            &&& task matches Task::StartBeating(every) ==> beat_every == Some(every)
            &&& task matches Task::RunJob { job, shard: on } ==> {
                &&& on == shard
                &&& event == Event::Received(Message::Run(job))
            }
            &&& task matches Task::Drain(within) ==> within == drain
            &&& task matches Task::End(remaining_count) ==> event == Event::<J>::Drained(
                remaining_count,
            )
            &&& event matches Event::Drained(remaining_count) ==> task == Task::<J>::End(
                remaining_count,
            )
            &&& event matches Event::Received(Message::Run(job)) ==> task == (Task::RunJob {
                job,
                shard,
            })
            &&& event matches Event::RuntimeFailed(source) ==> task == Task::<J>::Fail(
                Error::BuildRuntime { shard, source },
            )
            &&& event matches Event::BindFailed(source) ==> task == Task::<J>::Fail(
                Error::Bind { shard, source },
            )
        }),
{
}

/// A shard comes up step by step: it builds its runtime, opens its listener,
/// reports, makes its service, starts to accept, starts to beat if it is watched,
/// and then waits for messages. It ends at once if the runtime or the listener
/// fails, and in no other way.
pub proof fn law_a_shard_comes_up_step_by_step<J>(
    stages: Seq<Stage>,
    events: Seq<Event<J>>,
    beats: bool,
)
    requires
        is_life(stages, events, beats),
    ensures
        stages[0] is Building,
        stages.len() > 1 ==> if events[0] is RuntimeFailed {
            stages[1] is Ended && stages.len() == 2
        } else {
            stages[1] is Opening
        },
        stages.len() > 2 ==> if events[1] is BindFailed {
            stages[2] is Ended && stages.len() == 3
        } else {
            stages[2] is Reporting
        },
        stages.len() > 3 ==> stages[3] is MakingService,
        stages.len() > 4 ==> stages[4] is StartingAccept,
        stages.len() > 5 ==> if beats {
            stages[5] is StartingBeat
        } else {
            stages[5] is Waiting
        },
        stages.len() > 6 && beats ==> stages[6] is Waiting,
{
    if stages.len() > 1 {
        assert(leads_on(stages, events, beats, 0));
    }
    if stages.len() > 2 {
        assert(leads_on(stages, events, beats, 1));
    }
    if stages.len() > 3 {
        assert(leads_on(stages, events, beats, 2));
    }
    if stages.len() > 4 {
        assert(leads_on(stages, events, beats, 3));
    }
    if stages.len() > 5 {
        assert(leads_on(stages, events, beats, 4));
    }
    if stages.len() > 6 {
        assert(leads_on(stages, events, beats, 5));
    }
}

/// A shard that is told to stop, or whose pool is gone, goes down step by step:
/// it stops to accept, stops to beat if it beats, tells its service, drains, and
/// ends. Nothing is left out, whether it beats or not, and nothing comes after.
pub proof fn law_a_shard_goes_down_step_by_step<J>(
    stages: Seq<Stage>,
    events: Seq<Event<J>>,
    beats: bool,
    stops: int,
)
    requires
        is_life(stages, events, beats),
        0 <= stops < events.len(),
        events[stops] is Disconnected || (events[stops] matches Event::Received(Message::Stop)),
    ensures
        ({
            let told = if beats {
                stops + 3
            } else {
                stops + 2
            };
            &&& stages[stops + 1] is StoppingAccept
            &&& beats && stops + 2 < stages.len() ==> stages[stops + 2] is StoppingBeat
            &&& told < stages.len() ==> stages[told] is Notifying
            &&& told + 1 < stages.len() ==> stages[told + 1] is Draining
            &&& told + 2 < stages.len() ==> stages[told + 2] is Ended
            &&& stages.len() <= told + 3
        }),
{
    assert(leads_on(stages, events, beats, stops));
    if stops + 2 < stages.len() {
        assert(leads_on(stages, events, beats, stops + 1));
    }
    if stops + 3 < stages.len() {
        assert(leads_on(stages, events, beats, stops + 2));
    }
    if stops + 4 < stages.len() {
        assert(leads_on(stages, events, beats, stops + 3));
    }
    if stops + 5 < stages.len() {
        assert(leads_on(stages, events, beats, stops + 4));
    }
    if stops + 6 < stages.len() {
        assert(leads_on(stages, events, beats, stops + 5));
    }
}

/// A shard that was told to stop and comes to its end has drained: just before it
/// ended it waited for open connections, for as long as configured at most,
/// whether it beats or not, and it ends with the count that the drain came back
/// with.
pub proof fn law_a_shard_that_stops_has_drained<J>(
    stages: Seq<Stage>,
    events: Seq<Event<J>>,
    shard: ShardId,
    beat_every: Option<Duration>,
    drain: Duration,
    stops: int,
    ends: int,
)
    requires
        is_life(stages, events, beat_every is Some),
        0 <= stops < ends < stages.len(),
        events[stops] is Disconnected || (events[stops] matches Event::Received(Message::Stop)),
        stages[ends] is Ended,
    ensures
        stops + 1 < ends - 1,
        stages[ends - 1] is Draining,
        task_for(events[ends - 2], shard, beat_every, drain) == Task::<J>::Drain(drain),
        events[ends - 1] matches Event::Drained(remaining_count) && task_for(
            events[ends - 1],
            shard,
            beat_every,
            drain,
        ) == Task::<J>::End(remaining_count),
{
    let beats = beat_every is Some;
    law_a_shard_goes_down_step_by_step(stages, events, beats, stops);
    assert(leads_on(stages, events, beats, ends - 1));
    assert(leads_on(stages, events, beats, ends - 2));
    law_the_task_is_the_work_of_the_stage(events[ends - 2], shard, beat_every, drain);
    law_the_task_is_the_work_of_the_stage(events[ends - 1], shard, beat_every, drain);
}

} // verus!
