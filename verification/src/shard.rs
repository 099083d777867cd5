//! The shard pool: one OS thread per shard, each owning a runtime, a listener,
//! and its connection state.
//!
//! This module decides where shards are placed, what a pool asks of its shards
//! and what it makes of their answers, and in which order a pool is started and
//! stopped. The threads and the runtimes belong to the caller: a pool holds a
//! handle `T` of each thread and a handle `D` of the watchdog, and hands them
//! back when it is time to join them. `J` is the work that a shard can be given.

use crate::channel::{Jobs, Replies, Reply};
use crate::listener;
use crate::num::NonZeroU16;
use crate::time::{Duration, Instant};
use crate::watchdog;
use std::collections::BTreeSet;
use vstd::prelude::*;

verus! {

broadcast use vstd::std_specs::btree::group_btree_axioms;

/// 0-based shard index. `index + 1 = count`.
#[derive(Debug, Clone, Copy, PartialEq, Eq, PartialOrd, Ord, Hash)]
pub struct ShardId(u16);

impl View for ShardId {
    type V = u16;

    closed spec fn view(&self) -> u16 {
        self.0
    }
}

impl ShardId {
    pub fn index(self) -> (index: u16)
        ensures
            index == self@,
    {
        self.0
    }
}

/// How many shards to run.
#[derive(Debug, Clone, Copy, PartialEq, Eq)]
pub enum Count {
    /// One per CPU the process is permitted to run on, so `taskset` and cpuset
    /// limits are respected without a flag.
    PerCore,
    Exactly(NonZeroU16),
}

/// Whether shard threads are pinned to the CPUs they are placed on.
#[derive(Debug, Clone, Copy, PartialEq, Eq)]
pub enum Affinity {
    /// Pin shard `i` to the `i`th permitted CPU, wrapping if there are more
    /// shards than CPUs.
    Auto,
    /// Leave placement to the scheduler. [`Shards::affinity`] then reports an
    /// empty set, because the pool claims nothing.
    Off,
}

/// The CPUs a pool has claimed.
#[derive(Debug, PartialEq, Eq)]
pub struct CpuSet(BTreeSet<usize>);

impl View for CpuSet {
    type V = Set<usize>;

    closed spec fn view(&self) -> Set<usize> {
        self.0@
    }
}

impl Clone for CpuSet {
    fn clone(&self) -> (other: CpuSet)
        ensures
            other@ == self@,
    {
        CpuSet(self.0.clone())
    }
}

impl Default for CpuSet {
    fn default() -> (none: CpuSet)
        ensures
            none@ == Set::<usize>::empty(),
    {
        CpuSet(BTreeSet::new())
    }
}

impl CpuSet {
    pub fn ids(&self) -> (ids: &BTreeSet<usize>)
        ensures
            ids@ == self@,
    {
        &self.0
    }

    pub fn contains(&self, cpu: usize) -> (contained: bool)
        ensures
            contained == self@.contains(cpu),
    {
        self.0.contains(&cpu)
    }
}

/// Pool configuration. Every value is explicit: there is no `Default`, because
/// each of these changes how the process behaves under load.
#[derive(Debug, Clone, Copy)]
pub struct Config {
    pub count: Count,
    pub pin: Affinity,
    pub watchdog: watchdog::Policy,
    /// Upper bound on waiting for open connections to close during shutdown.
    pub drain: Duration,
}

/// One shard's counters, read on that shard's own thread.
#[derive(Debug, Clone, Copy, PartialEq, Eq)]
pub struct Stats {
    pub shard: ShardId,
    pub connections: listener::Counts,
}

#[allow(inconsistent_fields)]
#[derive(Debug)]
pub enum Error {
    /// No CPUs are available to place shards on.
    NoCpus,
    /// There are more CPUs than a shard index can address.
    TooManyCpus { count: usize, source: std::num::TryFromIntError },
    SpawnThread { shard: ShardId, source: std::io::Error },
    BuildRuntime { shard: ShardId, source: std::io::Error },
    Bind { shard: ShardId, source: listener::Error },
    /// The shard is no longer running.
    ShardGone { shard: ShardId },
    Panicked { shard: ShardId },
    /// Collecting results from the shards failed.
    Gather(flume::RecvError),
    /// The watchdog could not be started.
    Watchdog(watchdog::Error),
}

/// Which CPU each shard is placed on, decided once before any thread starts.
#[derive(Debug)]
pub struct Placement {
    cpus: Vec<usize>,
    shards_count: usize,
    claimed: CpuSet,
}

/// What a placement decides.
pub struct PlacementView {
    /// The CPUs that shards may run on, in the order in which they are taken.
    pub cpus: Seq<usize>,
    pub shards_count: nat,
    /// The CPUs that shards are pinned to.
    pub claimed: Set<usize>,
}

impl View for Placement {
    type V = PlacementView;

    closed spec fn view(&self) -> PlacementView {
        PlacementView {
            cpus: self.cpus@,
            shards_count: self.shards_count as nat,
            claimed: self.claimed@,
        }
    }
}

/// How many shards a configuration asks for on a machine with `cpus` CPUs.
pub open spec fn shards_asked(count: Count, cpus: nat) -> nat {
    match count {
        Count::PerCore => cpus,
        Count::Exactly(exactly) => exactly@,
    }
}

/// The CPUs that a pool of `shards` shards claims: the first ones, one for each
/// shard, as far as they go.
pub open spec fn cpus_claimed(pin: Affinity, cpus: Seq<usize>, shards: nat) -> Set<usize> {
    match pin {
        Affinity::Auto => if shards <= cpus.len() {
            cpus.take(shards as int).to_set()
        } else {
            cpus.to_set()
        },
        Affinity::Off => Set::empty(),
    }
}

impl PlacementView {
    /// The placement is the one that a configuration asks for on these CPUs.
    pub open spec fn follows(self, config: Config, cpus: Seq<usize>) -> bool {
        &&& self.cpus == cpus
        &&& self.shards_count == shards_asked(config.count, cpus.len())
        &&& self.claimed == cpus_claimed(config.pin, cpus, self.shards_count)
    }

    /// There is something to place and somewhere to place it, and every shard
    /// and every CPU can be counted in a shard index.
    pub open spec fn wf(self) -> bool {
        &&& 1 <= self.cpus.len() <= u16::MAX
        &&& 1 <= self.shards_count <= u16::MAX
    }

    /// The CPU that a shard is pinned to.
    pub open spec fn cpu(self, index: nat) -> Option<usize> {
        if self.claimed.is_empty() {
            None
        } else {
            Some(self.cpus[index as int % self.cpus.len() as int])
        }
    }
}

/// CPU numbers that ascend, and so are all different.
pub open spec fn ascending(cpus: Seq<usize>) -> bool {
    forall|i: int, j: int| 0 <= i < j < cpus.len() ==> cpus[i] < cpus[j]
}

/// `core_affinity::get_core_ids` asks the operating system for the CPUs that
/// the current thread may run on. Which ones come back rests on the machine;
/// on every platform they are listed in ascending order.
#[verifier::external_body]
fn core_ids() -> (cpus: Option<Vec<usize>>)
    ensures
        cpus matches Some(found) ==> ascending(found@),
{
    core_affinity::get_core_ids().map(|cores| cores.into_iter().map(|core| core.id).collect())
}

/// `found` is what the machine answered when it was asked for its CPUs.
pub closed spec fn machine_has(found: Option<Vec<usize>>) -> bool {
    call_ensures(core_ids, (), found)
}

/// The CPUs in an answer of the machine.
pub open spec fn cpus_of(found: Option<Vec<usize>>) -> Seq<usize> {
    match found {
        Some(cpus) => cpus@,
        None => Seq::empty(),
    }
}

/// `placement` is what comes of placing shards on these CPUs.
pub open spec fn planned(
    config: Config,
    cpus: Seq<usize>,
    placement: Result<Placement, Error>,
) -> bool {
    &&& cpus.len() == 0 ==> placement == Err::<Placement, Error>(Error::NoCpus)
    &&& cpus.len() > u16::MAX ==> {
        &&& placement matches Err(Error::TooManyCpus { count, .. })
        &&& count == cpus.len()
    }
    &&& 1 <= cpus.len() <= u16::MAX ==> {
        &&& placement matches Ok(placed)
        &&& placed@.wf()
        &&& placed@.follows(config, cpus)
    }
}

impl Placement {
    /// Place shards on the CPUs that this process may run on.
    pub fn plan(config: &Config) -> (placement: Result<Placement, Error>)
        ensures
            exists|found: Option<Vec<usize>>| #[trigger]
                machine_has(found) && ascending(cpus_of(found)) && planned(
                    *config,
                    cpus_of(found),
                    placement,
                ),
            placement matches Ok(placed) ==> (config.count is PerCore && config.pin is Auto
                ==> placed@.claimed.len() == placed@.shards_count),
    {
        let ask = core_ids;
        let found = ask();
        let ghost answer = found;
        let cpus = match found {
            Some(cpus) => cpus,
            None => Vec::new(),
        };
        let placement = Placement::plan_on(config, cpus);
        proof {
            assert(machine_has(answer));
            assert(cpus@ =~= cpus_of(answer));
            if placement is Ok && config.count is PerCore && config.pin is Auto {
                law_one_cpu_per_shard(placement->Ok_0@, *config);
            }
        }
        placement
    }

    /// Place shards on these CPUs.
    pub fn plan_on(config: &Config, cpus: Vec<usize>) -> (placement: Result<Placement, Error>)
        ensures
            planned(*config, cpus@, placement),
    {
        if cpus.len() == 0 {
            return Err(Error::NoCpus);
        }
        match u16::try_from(cpus.len()) {
            Ok(_) => {},
            Err(source) => {
                return Err(Error::TooManyCpus { count: cpus.len(), source });
            },
        }
        let shards_count: usize = match config.count {
            Count::PerCore => cpus.len(),
            Count::Exactly(count) => usize::from(count.get()),
        };
        let claimed = match config.pin {
            Affinity::Auto => first_cpus(&cpus, shards_count),
            Affinity::Off => CpuSet::default(),
        };
        Ok(Placement { cpus, shards_count, claimed })
    }

    pub fn shards_count(&self) -> (count: usize)
        ensures
            count == self@.shards_count,
    {
        self.shards_count
    }

    /// The CPUs that shards are pinned to.
    pub fn claimed(&self) -> (claimed: &CpuSet)
        ensures
            claimed@ == self@.claimed,
    {
        &self.claimed
    }

    /// The CPUs that shards may run on.
    pub fn cpus(&self) -> (cpus: &Vec<usize>)
        ensures
            cpus@ == self@.cpus,
    {
        &self.cpus
    }

    pub fn shard(&self, index: usize) -> (shard: Result<ShardId, Error>)
        ensures
            index <= u16::MAX ==> (shard matches Ok(id) && id@ == index),
            index > u16::MAX ==> (shard matches Err(Error::TooManyCpus { count, .. }) && count
                == self@.shards_count),
    {
        match u16::try_from(index) {
            Ok(index) => Ok(ShardId(index)),
            Err(source) => Err(Error::TooManyCpus { count: self.shards_count, source }),
        }
    }

    /// `None` when pinning is off. Wraps when there are more shards than CPUs.
    pub fn cpu(&self, index: usize) -> (cpu: Option<usize>)
        requires
            self@.wf(),
        ensures
            cpu == self@.cpu(index as nat),
    {
        if self.claimed.ids().is_empty() {
            None
        } else {
            Some(self.cpus[index % self.cpus.len()])
        }
    }
}

/// The set of the first `count` CPUs, or of all of them if there are fewer.
fn first_cpus(cpus: &Vec<usize>, count: usize) -> (claimed: CpuSet)
    ensures
        claimed@ == cpus_claimed(Affinity::Auto, cpus@, count as nat),
{
    let mut ids: BTreeSet<usize> = BTreeSet::new();
    let mut taken: usize = 0;
    while taken < count && taken < cpus.len()
        invariant
            taken <= count,
            taken <= cpus.len(),
            ids@ == cpus@.take(taken as int).to_set(),
        decreases cpus.len() - taken,
    {
        ids.insert(cpus[taken]);
        proof {
            lemma_take_one_more(cpus@, taken as int);
        }
        taken = taken + 1;
    }
    proof {
        assert(cpus@.take(cpus.len() as int) =~= cpus@);
    }
    CpuSet(ids)
}

proof fn lemma_take_one_more(cpus: Seq<usize>, taken: int)
    requires
        0 <= taken < cpus.len(),
    ensures
        cpus.take(taken + 1).to_set() == cpus.take(taken).to_set().insert(cpus[taken]),
{
    let fewer = cpus.take(taken);
    let more = cpus.take(taken + 1);
    assert(more =~= fewer.push(cpus[taken]));
    assert forall|cpu: usize| more.to_set().contains(cpu) <==> fewer.to_set().insert(
        cpus[taken],
    ).contains(cpu) by {
        if fewer.contains(cpu) {
            let i = choose|i: int| 0 <= i < fewer.len() && fewer[i] == cpu;
            assert(more[i] == cpu);
        }
        if cpu == cpus[taken] {
            assert(more[taken] == cpu);
        }
    }
    assert(more.to_set() =~= fewer.to_set().insert(cpus[taken]));
}

/// With one shard per CPU and pinning on, a pool claims as many CPUs as it has
/// shards, as long as the CPUs are all different.
pub proof fn law_one_cpu_per_shard(placement: PlacementView, config: Config)
    requires
        placement.follows(config, placement.cpus),
        placement.cpus.no_duplicates(),
        config.count is PerCore,
        config.pin is Auto,
    ensures
        placement.claimed.len() == placement.shards_count,
{
    let cpus = placement.cpus;
    assert(cpus.take(cpus.len() as int) =~= cpus);
    cpus.unique_seq_to_set();
}

/// A pool claims exactly the CPUs that its shards are pinned to, so threads
/// that keep off them keep out of the shards' way.
pub proof fn law_claimed_is_where_shards_run(placement: PlacementView, config: Config, cpu: usize)
    requires
        placement.wf(),
        placement.follows(config, placement.cpus),
    ensures
        placement.claimed.contains(cpu) <==> exists|index: nat|
            index < placement.shards_count && #[trigger] placement.cpu(index) == Some(cpu),
{
    let cpus = placement.cpus;
    let count = placement.shards_count;
    let claimed = placement.claimed;
    if config.pin is Auto {
        let first = if count <= cpus.len() {
            cpus.take(count as int)
        } else {
            cpus
        };
        assert(first.to_set() == claimed);
        assert(first[0] == cpus[0]);
        assert(claimed.contains(cpus[0]));
        if claimed.contains(cpu) {
            let i = choose|i: int| 0 <= i < first.len() && first[i] == cpu;
            vstd::arithmetic::div_mod::lemma_small_mod(i as nat, cpus.len());
            assert(placement.cpu(i as nat) == Some(cpu));
        }
        if exists|index: nat| index < count && #[trigger] placement.cpu(index) == Some(cpu) {
            let index = choose|index: nat|
                index < count && #[trigger] placement.cpu(index) == Some(cpu);
            let i = index as int % cpus.len() as int;
            if count <= cpus.len() {
                vstd::arithmetic::div_mod::lemma_small_mod(index, cpus.len());
            }
            assert(first[i] == cpu);
        }
    }
}

/// With pinning off nothing is claimed and no shard is pinned.
pub proof fn law_off_claims_nothing(placement: PlacementView, config: Config, index: nat)
    requires
        placement.follows(config, placement.cpus),
        config.pin is Off,
    ensures
        placement.claimed.is_empty(),
        placement.cpu(index) == None::<usize>,
{
}

/// When there are more shards than CPUs, placement wraps around the CPU list.
pub proof fn law_placement_wraps(placement: PlacementView, index: nat)
    requires
        placement.wf(),
    ensures
        placement.cpu(index + placement.cpus.len()) == placement.cpu(index),
{
    vstd::arithmetic::div_mod::lemma_mod_add_multiples_vanish(
        index as int,
        placement.cpus.len() as int,
    );
}

/// How often a shard ticks for the watchdog, if it is watched.
pub fn sample_every(policy: &watchdog::Policy) -> (every: Option<Duration>)
    ensures
        every == match *policy {
            watchdog::Policy::Off => None,
            watchdog::Policy::On { sample_every, .. } => Some(sample_every),
        },
{
    match *policy {
        watchdog::Policy::Off => None,
        watchdog::Policy::On { sample_every, .. } => Some(sample_every),
    }
}

/// What a shard is sent.
#[derive(Debug)]
pub enum Message<J> {
    /// Run this job on the shard's thread.
    Run(J),
    Stop,
}

/// What came of sending a message to a shard, as the pool sees it.
pub open spec fn sent_as<M>(shard: ShardId, told: Result<(), M>) -> Result<(), Error> {
    match told {
        Ok(()) => Ok(()),
        Err(_) => Err(Error::ShardGone { shard }),
    }
}

/// What became of sending a message to a shard.
pub fn sent<M>(shard: ShardId, told: Result<(), M>) -> (sent: Result<(), Error>)
    ensures
        sent == sent_as(shard, told),
{
    match told {
        Ok(()) => Ok(()),
        Err(_) => Err(Error::ShardGone { shard }),
    }
}

/// The first failure among these outcomes, if there is one.
pub open spec fn first_failure(outcomes: Seq<Result<(), Error>>) -> Result<(), Error>
    decreases outcomes.len(),
{
    if outcomes.len() == 0 {
        Ok(())
    } else {
        match first_failure(outcomes.drop_last()) {
            Ok(()) => match outcomes.last() {
                Ok(()) => Ok(()),
                Err(error) => Err(error),
            },
            Err(error) => Err(error),
        }
    }
}

/// What became of a round of messages to the shards: the first failure among
/// the outcomes, or none.
pub fn round(outcomes: Vec<Result<(), Error>>) -> (outcome: Result<(), Error>)
    ensures
        outcome == first_failure(outcomes@),
{
    let mut left = outcomes;
    let mut index: usize = 0;
    while index < left.len()
        invariant
            index <= left.len(),
            left == outcomes,
            first_failure(left@.take(index as int)) == Ok::<(), Error>(()),
        decreases left.len() - index,
    {
        assert(left@.take(index + 1).drop_last() =~= left@.take(index as int));
        assert(left@.take(index + 1).last() == left[index as int]);
        if left[index].is_err() {
            proof {
                lemma_first_failure_stays(left@, index + 1);
            }
            return left.remove(index);
        }
        index = index + 1;
    }
    assert(left@.take(index as int) =~= left@);
    Ok(())
}

proof fn lemma_first_failure_stays(outcomes: Seq<Result<(), Error>>, taken: int)
    requires
        0 <= taken <= outcomes.len(),
        first_failure(outcomes.take(taken)) is Err,
    ensures
        first_failure(outcomes) == first_failure(outcomes.take(taken)),
    decreases outcomes.len(),
{
    if taken == outcomes.len() {
        assert(outcomes.take(taken) =~= outcomes);
    } else {
        assert(outcomes.drop_last().take(taken) =~= outcomes.take(taken));
        lemma_first_failure_stays(outcomes.drop_last(), taken);
    }
}

/// What a shard says of its start, or that no shard is left to say anything.
pub type Started = Result<Result<(), Error>, flume::RecvError>;

/// What one shard's word, or the silence of all of them, means for the pool.
pub open spec fn heard_as(started: Started) -> Result<(), Error> {
    match started {
        Ok(outcome) => outcome,
        Err(_) => Err(Error::ShardGone { shard: first_shard() }),
    }
}

/// The shard with index zero.
pub closed spec fn first_shard() -> ShardId {
    ShardId(0)
}

/// What one shard's word, or the silence of all of them, means for the pool.
pub fn heard(started: Started) -> (outcome: Result<(), Error>)
    ensures
        outcome == heard_as(started),
        started matches Ok(word) ==> outcome == word,
        started is Err ==> (outcome matches Err(Error::ShardGone { shard }) && shard@ == 0),
{
    match started {
        Ok(outcome) => outcome,
        Err(_) => Err(Error::ShardGone { shard: ShardId(0) }),
    }
}

/// A pool of `count` shards that heard these words, in this order, is up, or
/// has failed with the first failure among them.
pub open spec fn all_heard(words: Seq<Started>, count: nat, outcome: Result<(), Error>) -> bool {
    match outcome {
        Ok(()) => {
            &&& words.len() == count
            &&& forall|i: int| 0 <= i < count ==> heard_as(#[trigger] words[i]) is Ok
        },
        Err(_) => {
            &&& 1 <= words.len() <= count
            &&& heard_as(words.last()) == outcome
            &&& forall|i: int| 0 <= i < words.len() - 1 ==> heard_as(#[trigger] words[i]) is Ok
        },
    }
}

#[verifier::reject_recursive_types(J)]
#[verifier::reject_recursive_types(T)]
struct Handle<J, T> {
    shard: ShardId,
    jobs: Jobs<Message<J>>,
    thread: Option<T>,
}

impl<J, T> Handle<J, T> {
    fn send(&mut self, message: Message<J>) -> (outcome: Result<(), Error>)
        ensures
            final(self).jobs@ == old(self).jobs@.push(message),
            final(self).jobs.sender() == old(self).jobs.sender(),
            final(self).shard == old(self).shard,
            final(self).thread == old(self).thread,
            exists|told: Result<(), Message<J>>| #[trigger]
                crate::channel::sends(old(self).jobs.sender(), message, told) && outcome == sent_as(
                    old(self).shard,
                    told,
                ),
    {
        let told = self.jobs.send(message);
        assert(crate::channel::sends(old(self).jobs.sender(), message, told));
        sent(self.shard, told)
    }
}

/// Why a pool could not be started. That pool hands the error out once the shards
/// that did start are stopped and joined, and not before.
#[verifier::reject_recursive_types(J)]
pub struct Failure<J> {
    error: Error,
    channels: Ghost<Seq<flume::Sender<Message<J>>>>,
}

impl<J> View for Failure<J> {
    type V = Error;

    closed spec fn view(&self) -> Error {
        self.error
    }
}

impl<J> Failure<J> {
    /// The pool that could not be started, known by its channels.
    pub closed spec fn of(&self) -> Seq<flume::Sender<Message<J>>> {
        self.channels@
    }
}

/// The error in the failure of a step, if it failed.
pub open spec fn error_of<J>(outcome: Result<(), Failure<J>>) -> Result<(), Error> {
    match outcome {
        Ok(()) => Ok(()),
        Err(failure) => Err(failure@),
    }
}

/// A shard pool. Its shards run until it is stopped.
#[verifier::reject_recursive_types(J)]
#[verifier::reject_recursive_types(T)]
#[verifier::reject_recursive_types(D)]
pub struct Shards<J, T, D> {
    shards: Vec<Handle<J, T>>,
    cpus: CpuSet,
    listening: bool,
    watchdog: Option<D>,
}

/// What a pool keeps.
#[verifier::reject_recursive_types(J)]
#[verifier::reject_recursive_types(T)]
#[verifier::reject_recursive_types(D)]
pub struct PoolView<J, T, D> {
    /// The shards, in the order of their indices.
    pub shards: Seq<ShardId>,
    /// The half of each shard's channel that the pool sends through.
    pub channels: Seq<flume::Sender<Message<J>>>,
    /// What the pool has sent to each shard, in order.
    pub sent: Seq<Seq<Message<J>>>,
    /// The thread of each shard, until it is handed out to be joined.
    pub threads: Seq<Option<T>>,
    /// The CPUs that the shards are pinned to.
    pub cpus: Set<usize>,
    /// Every shard was heard to be listening.
    pub listening: bool,
    /// The watchdog, until it is handed out to be stopped.
    pub watchdog: Option<D>,
}

impl<J, T, D> View for Shards<J, T, D> {
    type V = PoolView<J, T, D>;

    closed spec fn view(&self) -> PoolView<J, T, D> {
        PoolView {
            shards: self.shards@.map_values(|handle: Handle<J, T>| handle.shard),
            channels: self.shards@.map_values(|handle: Handle<J, T>| handle.jobs.sender()),
            sent: self.shards@.map_values(|handle: Handle<J, T>| handle.jobs@),
            threads: self.shards@.map_values(|handle: Handle<J, T>| handle.thread),
            cpus: self.cpus@,
            listening: self.listening,
            watchdog: self.watchdog,
        }
    }
}

/// What is to be done next to stop a pool.
#[derive(Debug)]
pub enum Stop<T, D> {
    /// This shard was told to stop, unless it was gone: join its thread.
    Join { shard: ShardId, thread: T, told: Result<(), Error> },
    StopWatchdog(D),
    /// Nothing: the pool is stopped.
    Stopped,
}

impl<J, T, D> PoolView<J, T, D> {
    /// The shards are numbered from zero, and each has a channel and a place
    /// for its thread.
    pub open spec fn wf(self) -> bool {
        &&& self.shards.len() <= u16::MAX
        &&& self.channels.len() == self.shards.len()
        &&& self.sent.len() == self.shards.len()
        &&& self.threads.len() == self.shards.len()
        &&& forall|i: int| 0 <= i < self.shards.len() ==> (#[trigger] self.shards[i])@ == i
    }

    /// The pool once one more shard was started.
    pub open spec fn grown(
        self,
        shard: ShardId,
        jobs: Jobs<Message<J>>,
        thread: T,
    ) -> PoolView<J, T, D> {
        PoolView {
            shards: self.shards.push(shard),
            channels: self.channels.push(jobs.sender()),
            sent: self.sent.push(jobs@),
            threads: self.threads.push(Some(thread)),
            ..self
        }
    }

    /// The pool once a message was sent to shard `index`.
    pub open spec fn told(self, index: int, message: Message<J>) -> PoolView<J, T, D> {
        PoolView { sent: self.sent.update(index, self.sent[index].push(message)), ..self }
    }

    /// The pool once each of the first shards was sent one job, and nothing else
    /// was sent.
    pub open spec fn after_round(self, jobs: Seq<J>) -> PoolView<J, T, D> {
        PoolView {
            sent: Seq::new(
                self.sent.len(),
                |i: int|
                    if i < jobs.len() {
                        self.sent[i].push(Message::Run(jobs[i]))
                    } else {
                        self.sent[i]
                    },
            ),
            ..self
        }
    }

    /// Each shard was sent one job and nothing else, in their order, up to the
    /// first that did not take it: `told` is what came of sending each job,
    /// `outcome` is what the pool makes of it, and `after` is the pool then.
    pub open spec fn fans_out(
        self,
        jobs: Seq<J>,
        told: Seq<Result<(), Message<J>>>,
        outcome: Result<(), Error>,
        after: PoolView<J, T, D>,
    ) -> bool {
        &&& after == self.after_round(jobs)
        &&& jobs.len() == told.len()
        &&& forall|i: int|
            0 <= i < jobs.len() ==> crate::channel::sends(
                self.channels[i],
                Message::Run(#[trigger] jobs[i]),
                told[i],
            )
        &&& match outcome {
            Ok(()) => {
                &&& told.len() == self.shards.len()
                &&& forall|i: int| 0 <= i < told.len() ==> (#[trigger] told[i]) is Ok
            },
            Err(error) => {
                &&& 1 <= told.len() <= self.shards.len()
                &&& told.last() is Err
                &&& forall|i: int| 0 <= i < told.len() - 1 ==> (#[trigger] told[i]) is Ok
                &&& error == (Error::ShardGone { shard: self.shards[told.len() - 1] })
            },
        }
    }

    /// Shard `index` was sent the message to stop, and `told` is what the pool
    /// makes of what came of it.
    pub open spec fn is_told(self, index: int, told: Result<(), Error>) -> bool {
        exists|raw: Result<(), Message<J>>| #[trigger]
            crate::channel::sends(self.channels[index], Message::Stop, raw) && told == sent_as(
                self.shards[index],
                raw,
            )
    }

    /// Every shard's thread has been handed out, and the watchdog.
    pub open spec fn is_stopped(self) -> bool {
        &&& self.none_running()
        &&& self.watchdog is None
    }

    /// Every shard's thread has been handed out.
    pub open spec fn none_running(self) -> bool {
        forall|i: int| 0 <= i < self.threads.len() ==> (#[trigger] self.threads[i]) is None
    }

    /// Shard `index` is the first one whose thread has not been handed out.
    pub open spec fn next_running(self, index: int) -> bool {
        &&& 0 <= index < self.threads.len()
        &&& self.threads[index] is Some
        &&& forall|i: int| 0 <= i < index ==> (#[trigger] self.threads[i]) is None
    }

    /// The pool once shard `index` was sent the message to stop, and nothing
    /// else was sent, and its thread was handed out.
    pub open spec fn without(self, index: int) -> PoolView<J, T, D> {
        PoolView { threads: self.threads.update(index, None), ..self.told(index, Message::Stop) }
    }

    /// How many things there are left to stop.
    pub open spec fn left(self) -> nat {
        running_count(self.threads) + if self.watchdog is Some {
            1nat
        } else {
            0
        }
    }

    /// `stop` is what is to be done next to stop this pool, and `after` is the
    /// pool that is then left to stop.
    pub open spec fn stops(self, stop: Stop<T, D>, after: PoolView<J, T, D>) -> bool {
        match stop {
            Stop::Join { shard, thread, told } => exists|index: int|
                {
                    &&& #[trigger] self.next_running(index)
                    &&& self.threads[index] == Some(thread)
                    &&& self.shards[index] == shard
                    &&& self.is_told(index, told)
                    &&& after == self.without(index)
                },
            Stop::StopWatchdog(watchdog) => {
                &&& self.none_running()
                &&& self.watchdog == Some(watchdog)
                &&& after == PoolView { watchdog: None, ..self }
            },
            Stop::Stopped => {
                &&& self.is_stopped()
                &&& after == self
            },
        }
    }
}

impl<J, T, D> Shards<J, T, D> {
    /// Plan a pool for this machine. Its shards are then started one by one.
    pub fn start(config: &Config) -> (startup: Result<Startup<J, T, D>, Error>)
        ensures
            exists|found: Option<Vec<usize>>| #[trigger]
                machine_has(found) && ascending(cpus_of(found)) && starts(
                    *config,
                    cpus_of(found),
                    startup,
                ),
    {
        match Placement::plan(config) {
            Ok(placement) => Ok(Startup::begin(*config, placement)),
            Err(error) => Err(error),
        }
    }

    /// The CPUs the shards claimed. The application's own runtime is a
    /// scheduling peer of the shards, so it should either keep its threads off
    /// these or run them at a lower priority.
    pub fn affinity(&self) -> (cpus: &CpuSet)
        ensures
            cpus@ == self@.cpus,
    {
        &self.cpus
    }

    pub fn shards_count(&self) -> (count: usize)
        ensures
            count == self@.shards.len(),
    {
        self.shards.len()
    }

    /// The shards, in the order of their indices.
    pub fn ids(&self) -> (ids: Vec<ShardId>)
        ensures
            ids@ == self@.shards,
    {
        let mut ids: Vec<ShardId> = Vec::with_capacity(self.shards.len());
        let mut index: usize = 0;
        while index < self.shards.len()
            invariant
                index <= self.shards.len(),
                ids@ == self@.shards.take(index as int),
            decreases self.shards.len() - index,
        {
            ids.push(self.shards[index].shard);
            index = index + 1;
        }
        assert(self@.shards.take(index as int) =~= self@.shards);
        ids
    }

    /// Send a message to one shard.
    fn hand(&mut self, index: usize, message: Message<J>) -> (outcome: Result<(), Error>)
        requires
            index < old(self)@.shards.len(),
        ensures
            final(self)@ == old(self)@.told(index as int, message),
            exists|raw: Result<(), Message<J>>| #[trigger]
                crate::channel::sends(old(self)@.channels[index as int], message, raw) && outcome
                    == sent_as(old(self)@.shards[index as int], raw),
    {
        let outcome = self.shards[index].send(message);
        proof {
            let after = old(self)@.told(index as int, message);
            assert(self@.shards =~= after.shards);
            assert(self@.channels =~= after.channels);
            assert(self@.sent =~= after.sent);
            assert(self@.threads =~= after.threads);
            assert(old(self)@.channels[index as int] == old(self).shards[index as int].jobs.sender());
        }
        outcome
    }

    /// Hand a job to every shard and return without waiting for it. Stops at
    /// the first shard that is gone.
    pub fn spawn_on_all<F: Fn() -> J>(&mut self, make_job: F) -> (outcome: Result<(), Error>)
        requires
            make_job.requires(()),
        ensures
            exists|jobs: Seq<J>, told: Seq<Result<(), Message<J>>>| #[trigger]
                old(self)@.fans_out(jobs, told, outcome, final(self)@) && forall|i: int|
                    0 <= i < jobs.len() ==> make_job.ensures((), #[trigger] jobs[i]),
    {
        let ghost before = self@;
        let ghost mut jobs: Seq<J> = seq![];
        let ghost mut told: Seq<Result<(), Message<J>>> = seq![];
        assert(before.sent =~= before.after_round(jobs).sent);
        let mut outcomes: Vec<Result<(), Error>> = Vec::with_capacity(self.shards.len());
        let mut going = true;
        while going && outcomes.len() < self.shards.len()
            invariant
                make_job.requires(()),
                before == old(self)@,
                self@ == before.after_round(jobs),
                before.sent.len() == before.shards.len(),
                fanned_out(before, jobs, told, outcomes@, going),
                forall|i: int| 0 <= i < jobs.len() ==> make_job.ensures((), #[trigger] jobs[i]),
            decreases self.shards.len() - outcomes.len(),
        {
            let job = make_job();
            let outcome = self.hand(outcomes.len(), Message::Run(job));
            going = outcome.is_ok();
            proof {
                let index = outcomes.len() as int;
                let raw = choose|raw: Result<(), Message<J>>| #[trigger]
                    crate::channel::sends(before.channels[index], Message::Run(job), raw)
                        && outcome == sent_as(before.shards[index], raw);
                lemma_one_more_told(before, jobs, told, outcomes@, job, raw, outcome);
                jobs = jobs.push(job);
                told = told.push(raw);
            }
            outcomes.push(outcome);
        }
        let outcome = round(outcomes);
        assert(before.fans_out(jobs, told, outcome, self@));
        outcome
    }

    /// One message per shard, one reply per shard. The only fan-out primitive.
    /// Stops at the first shard that is gone.
    pub fn gather<R, F: Fn(Reply<R>) -> J>(&mut self, make_job: F) -> (gathering: Result<
        Gathering<R>,
        Error,
    >)
        requires
            forall|reply: Reply<R>| make_job.requires((reply,)),
        ensures
            asked(old(self)@, make_job, gathering, final(self)@),
    {
        let ghost before = self@;
        let count: usize = self.shards.len();
        let (mut rights, replies) = Reply::channel(count);
        let ghost receiver = replies.receiver();
        let ghost mut jobs: Seq<J> = seq![];
        let ghost mut told: Seq<Result<(), Message<J>>> = seq![];
        assert(before.sent =~= before.after_round(jobs).sent);
        let mut outcomes: Vec<Result<(), Error>> = Vec::with_capacity(count);
        let mut going = true;
        while going && outcomes.len() < self.shards.len()
            invariant
                count == self.shards.len(),
                rights.len() == count - outcomes.len(),
                forall|i: int|
                    0 <= i < rights.len() ==> (#[trigger] rights[i]).answers_to(count, receiver),
                forall|reply: Reply<R>| make_job.requires((reply,)),
                before == old(self)@,
                self@ == before.after_round(jobs),
                before.sent.len() == before.shards.len(),
                fanned_out(before, jobs, told, outcomes@, going),
                forall|i: int|
                    0 <= i < jobs.len() ==> answered_by(
                        make_job,
                        #[trigger] jobs[i],
                        count,
                        receiver,
                    ),
            decreases self.shards.len() - outcomes.len(),
        {
            match rights.pop() {
                Some(reply) => {
                    let job = make_job(reply);
                    assert(answered_by(make_job, job, count, receiver));
                    let outcome = self.hand(outcomes.len(), Message::Run(job));
                    going = outcome.is_ok();
                    proof {
                        let index = outcomes.len() as int;
                        let raw = choose|raw: Result<(), Message<J>>| #[trigger]
                            crate::channel::sends(before.channels[index], Message::Run(job), raw)
                                && outcome == sent_as(before.shards[index], raw);
                        lemma_one_more_told(before, jobs, told, outcomes@, job, raw, outcome);
                        jobs = jobs.push(job);
                        told = told.push(raw);
                        assert(self@.shards.len() == self.shards.len());
                    }
                    outcomes.push(outcome);
                },
                None => {
                    going = false;
                },
            }
        }
        match round(outcomes) {
            Ok(()) => {
                let gathering = Ok(
                    Gathering {
                        replies: replies.into_receiver(),
                        expected: count,
                        gathered: Vec::new(),
                    },
                );
                assert(before.fans_out(jobs, told, all_asked(gathering), self@));
                assert(gathers(gathering, receiver, before.shards.len()));
                gathering
            },
            Err(error) => {
                let gathering = Err(error);
                assert(before.fans_out(jobs, told, all_asked(gathering), self@));
                assert(gathers(gathering, receiver, before.shards.len()));
                gathering
            },
        }
    }

    /// Run a job on every shard, to be answered when it is finished.
    pub fn broadcast<F: Fn(Reply<()>) -> J>(&mut self, make_job: F) -> (gathering: Result<
        Gathering<()>,
        Error,
    >)
        requires
            forall|reply: Reply<()>| make_job.requires((reply,)),
        ensures
            asked(old(self)@, make_job, gathering, final(self)@),
    {
        self.gather(make_job)
    }

    /// Ask every shard for its counters.
    pub fn stats<F: Fn(Reply<Stats>) -> J>(&mut self, make_job: F) -> (gathering: Result<
        Gathering<Stats>,
        Error,
    >)
        requires
            forall|reply: Reply<Stats>| make_job.requires((reply,)),
        ensures
            asked(old(self)@, make_job, gathering, final(self)@),
    {
        self.gather(make_job)
    }

    /// Ask every shard to walk its connection registry. [`all_clients`] makes
    /// one list of the answers.
    pub fn clients<F: Fn(Reply<Vec<listener::Client>>) -> J>(&mut self, make_job: F) -> (gathering:
        Result<Gathering<Vec<listener::Client>>, Error>)
        requires
            forall|reply: Reply<Vec<listener::Client>>| make_job.requires((reply,)),
        ensures
            asked(old(self)@, make_job, gathering, final(self)@),
    {
        self.gather(make_job)
    }

    /// Wait until every shard is listening, or for the first failure.
    pub fn await_listening(&mut self, starting: &mut Replies<Result<(), Error>>) -> (outcome:
        Result<(), Failure<J>>)
        ensures
            exists|words: Seq<Started>| #[trigger]
                all_heard(words, old(self)@.shards.len(), error_of(outcome)) && final(starting)@
                    == old(starting)@ + words && forall|i: int|
                    0 <= i < words.len() ==> crate::channel::received(
                        old(starting).receiver(),
                        #[trigger] words[i],
                    ),
            final(starting).receiver() == old(starting).receiver(),
            final(self)@ == (PoolView { listening: outcome is Ok, ..old(self)@ }),
            outcome matches Err(failure) ==> failure.of() == old(self)@.channels,
    {
        let ghost mut words: Seq<Started> = seq![];
        self.listening = false;
        assert(starting@ =~= old(starting)@ + words);
        let mut index: usize = 0;
        while index < self.shards.len()
            invariant
                index <= self.shards.len(),
                self@ == (PoolView { listening: false, ..old(self)@ }),
                words.len() == index,
                starting@ == old(starting)@ + words,
                starting.receiver() == old(starting).receiver(),
                forall|i: int| 0 <= i < words.len() ==> heard_as(#[trigger] words[i]) is Ok,
                forall|i: int|
                    0 <= i < words.len() ==> crate::channel::received(
                        old(starting).receiver(),
                        #[trigger] words[i],
                    ),
            decreases self.shards.len() - index,
        {
            let word = starting.recv();
            proof {
                assert(starting@ =~= old(starting)@ + words.push(word));
                words = words.push(word);
            }
            match heard(word) {
                Ok(()) => {},
                Err(error) => {
                    let failed: Result<(), Failure<J>> = Err(
                        Failure { error, channels: Ghost(self@.channels) },
                    );
                    assert(all_heard(words, self@.shards.len(), error_of(failed)));
                    return failed;
                },
            }
            index = index + 1;
        }
        self.listening = true;
        let up: Result<(), Failure<J>> = Ok(());
        assert(all_heard(words, self@.shards.len(), error_of(up)));
        up
    }

    /// Take over the watchdog that was started for this pool, if any, or its
    /// failure to start. Every shard is listening by then.
    pub fn watch(&mut self, watchdog: Result<Option<D>, watchdog::Error>) -> (outcome: Result<
        (),
        Failure<J>,
    >)
        requires
            old(self)@.listening,
        ensures
            match watchdog {
                Ok(watching) => {
                    &&& outcome is Ok
                    &&& final(self)@ == (PoolView { watchdog: watching, ..old(self)@ })
                },
                Err(error) => {
                    &&& error_of(outcome) == Err::<(), Error>(Error::Watchdog(error))
                    &&& outcome->Err_0.of() == old(self)@.channels
                    &&& final(self)@ == old(self)@
                },
            },
    {
        match watchdog {
            Ok(watching) => {
                self.watchdog = watching;
                Ok(())
            },
            Err(error) => Err(
                Failure { error: Error::Watchdog(error), channels: Ghost(self@.channels) },
            ),
        }
    }

    /// The error that this pool could not be started with, once it is stopped and
    /// each of the shards that did start was joined.
    pub fn give_up(&self, failure: Failure<J>, joined: &Joined) -> (error: Error)
        requires
            failure.of() == self@.channels,
            self@.is_stopped(),
            shards_joined(joined@) == self@.shards,
        ensures
            error == failure@,
    {
        failure.error
    }

    /// Go one step towards a stopped pool: tell the next running shard to stop
    /// and hand out its thread, or when no shard is running hand out the
    /// watchdog.
    pub fn stop(&mut self) -> (stop: Stop<T, D>)
        ensures
            old(self)@.stops(stop, final(self)@),
            old(self)@.wf() ==> final(self)@.wf(),
    {
        let mut index: usize = 0;
        while index < self.shards.len()
            invariant
                index <= self.shards.len(),
                self.shards@ == old(self).shards@,
                self@ == old(self)@,
                self.cpus == old(self).cpus,
                self.listening == old(self).listening,
                self.watchdog == old(self).watchdog,
                forall|i: int| 0 <= i < index ==> (#[trigger] self.shards[i]).thread is None,
            decreases self.shards.len() - index,
        {
            match self.shards[index].thread.take() {
                Some(thread) => {
                    let shard = self.shards[index].shard;
                    // A shard that is gone needs no telling.
                    proof {
                        assert(self@.shards =~= old(self)@.shards);
                        assert(self@.channels =~= old(self)@.channels);
                        assert(self@.sent =~= old(self)@.sent);
                        assert(self@.threads =~= old(self)@.threads.update(index as int, None));
                        assert(old(self)@.next_running(index as int));
                    }
                    let told = self.hand(index, Message::Stop);
                    proof {
                        assert(old(self)@.is_told(index as int, told));
                        assert(self@ == old(self)@.without(index as int));
                    }
                    return Stop::Join { shard, thread, told };
                },
                None => {
                    assert(self.shards@ =~= old(self).shards@);
                },
            }
            index = index + 1;
        }
        assert(self@.none_running());
        match self.watchdog.take() {
            Some(watchdog) => Stop::StopWatchdog(watchdog),
            None => Stop::Stopped,
        }
    }

    /// Whether a pool that has been stopped stopped cleanly. Each of its shards
    /// was joined.
    pub fn shutdown(self, joined: Joined) -> (outcome: Result<(), Error>)
        requires
            self@.is_stopped(),
            shards_joined(joined@) == self@.shards,
        ensures
            outcome == match shut_down(joined@) {
                Some(error) => Err::<(), Error>(error),
                None => Ok(()),
            },
    {
        proof {
            use_type_invariant(&joined);
        }
        match joined.failure {
            Some(error) => Err(error),
            None => Ok(()),
        }
    }
}

/// `startup` is what comes of planning a pool on these CPUs.
pub open spec fn starts<J, T, D>(
    config: Config,
    cpus: Seq<usize>,
    startup: Result<Startup<J, T, D>, Error>,
) -> bool {
    match startup {
        Ok(begun) => {
            &&& 1 <= cpus.len() <= u16::MAX
            &&& begun.wf()
            &&& begun.placement().follows(config, cpus)
            &&& begun.config() == config
            &&& begun.pool().shards.len() == 0
        },
        Err(error) => planned(config, cpus, Err(error)),
    }
}

/// How many threads have not been handed out.
pub open spec fn running_count<T>(threads: Seq<Option<T>>) -> nat
    decreases threads.len(),
{
    if threads.len() == 0 {
        0
    } else {
        running_count(threads.drop_last()) + if threads.last() is Some {
            1nat
        } else {
            0
        }
    }
}

/// A round of jobs so far: as [`PoolView::fans_out`], except that a round that is
/// still going on need not have reached every shard.
spec fn fanned_out<J, T, D>(
    pool: PoolView<J, T, D>,
    jobs: Seq<J>,
    told: Seq<Result<(), Message<J>>>,
    outcomes: Seq<Result<(), Error>>,
    going: bool,
) -> bool {
    &&& jobs.len() == told.len() == outcomes.len()
    &&& told.len() <= pool.shards.len()
    &&& forall|i: int|
        0 <= i < jobs.len() ==> crate::channel::sends(
            pool.channels[i],
            Message::Run(#[trigger] jobs[i]),
            told[i],
        )
    &&& if going {
        &&& forall|i: int| 0 <= i < told.len() ==> (#[trigger] told[i]) is Ok
        &&& first_failure(outcomes) == Ok::<(), Error>(())
    } else {
        &&& told.len() >= 1
        &&& told.last() is Err
        &&& forall|i: int| 0 <= i < told.len() - 1 ==> (#[trigger] told[i]) is Ok
        &&& first_failure(outcomes) == Err::<(), Error>(
            Error::ShardGone { shard: pool.shards[told.len() - 1] },
        )
    }
}

/// A round goes on by one job, or stops with it.
proof fn lemma_one_more_told<J, T, D>(
    pool: PoolView<J, T, D>,
    jobs: Seq<J>,
    told: Seq<Result<(), Message<J>>>,
    outcomes: Seq<Result<(), Error>>,
    job: J,
    raw: Result<(), Message<J>>,
    outcome: Result<(), Error>,
)
    requires
        fanned_out(pool, jobs, told, outcomes, true),
        told.len() < pool.shards.len(),
        pool.sent.len() == pool.shards.len(),
        crate::channel::sends(pool.channels[told.len() as int], Message::Run(job), raw),
        outcome == sent_as(pool.shards[told.len() as int], raw),
    ensures
        fanned_out(pool, jobs.push(job), told.push(raw), outcomes.push(outcome), outcome is Ok),
        pool.after_round(jobs).told(jobs.len() as int, Message::Run(job)) == pool.after_round(
            jobs.push(job),
        ),
{
    assert(outcomes.push(outcome).drop_last() =~= outcomes);
    assert forall|i: int| 0 <= i < jobs.push(job).len() implies crate::channel::sends(
        pool.channels[i],
        Message::Run(#[trigger] jobs.push(job)[i]),
        told.push(raw)[i],
    ) by {
        if i < jobs.len() {
            assert(jobs.push(job)[i] == jobs[i]);
        }
    }
    assert(pool.after_round(jobs).told(jobs.len() as int, Message::Run(job)).sent
        =~= pool.after_round(jobs.push(job)).sent);
}

/// The job was made with the right to answer once, on the channel that
/// `receiver` takes answers from and that has room for `count` of them.
pub open spec fn answered_by<R, F: Fn(Reply<R>) -> J, J>(
    make_job: F,
    job: J,
    count: usize,
    receiver: flume::Receiver<R>,
) -> bool {
    exists|reply: Reply<R>| #[trigger]
        reply.answers_to(count, receiver) && make_job.ensures((reply,), job)
}

/// Each shard was sent one job and nothing else, up to the first that did not
/// take it. Each job can answer once, on the channel that the answers are then
/// gathered from, as many as there are shards. `after` is the pool then.
pub open spec fn asked<R, F: Fn(Reply<R>) -> J, J, T, D>(
    pool: PoolView<J, T, D>,
    make_job: F,
    gathering: Result<Gathering<R>, Error>,
    after: PoolView<J, T, D>,
) -> bool {
    exists|jobs: Seq<J>, told: Seq<Result<(), Message<J>>>, receiver: flume::Receiver<R>|
        {
            &&& #[trigger] pool.fans_out(jobs, told, all_asked(gathering), after)
            &&& #[trigger] gathers(gathering, receiver, pool.shards.len())
            &&& forall|i: int|
                0 <= i < jobs.len() ==> answered_by(
                    make_job,
                    #[trigger] jobs[i],
                    pool.shards.len() as usize,
                    receiver,
                )
        }
}

/// If anything is gathered, it is `count` answers from `receiver`, none of which
/// has come yet.
pub open spec fn gathers<R>(
    gathering: Result<Gathering<R>, Error>,
    receiver: flume::Receiver<R>,
    count: nat,
) -> bool {
    gathering matches Ok(asking) ==> {
        &&& asking.wf()
        &&& asking.receiver() == receiver
        &&& asking.expected() == count
        &&& asking.gathered() == Seq::<R>::empty()
    }
}

/// Whether every shard could be asked.
pub open spec fn all_asked<R>(gathering: Result<Gathering<R>, Error>) -> Result<(), Error> {
    match gathering {
        Ok(_) => Ok(()),
        Err(error) => Err(error),
    }
}

/// The replies of the shards to one question, as they come in.
#[verifier::reject_recursive_types(R)]
#[derive(Debug)]
pub struct Gathering<R> {
    replies: flume::Receiver<R>,
    expected: usize,
    gathered: Vec<R>,
}

impl<R> Gathering<R> {
    /// How many replies there will be.
    pub closed spec fn expected(&self) -> nat {
        self.expected as nat
    }

    /// The replies so far, in the order in which they came.
    pub closed spec fn gathered(&self) -> Seq<R> {
        self.gathered@
    }

    /// No more replies have come than are expected.
    pub open spec fn wf(&self) -> bool {
        self.gathered().len() <= self.expected()
    }

    /// The asker's half of the channel that the replies come through.
    pub closed spec fn receiver(&self) -> flume::Receiver<R> {
        self.replies
    }

    /// Where the next reply is to be waited for.
    pub fn replies(&self) -> (replies: &flume::Receiver<R>)
        ensures
            *replies == self.receiver(),
    {
        &self.replies
    }

    /// Whether every shard has replied.
    pub fn is_complete(&self) -> (complete: bool)
        requires
            self.wf(),
        ensures
            complete == (self.gathered().len() == self.expected()),
    {
        self.gathered.len() == self.expected
    }

    /// Take in a reply, or the news that none will come.
    pub fn receive(&mut self, reply: Result<R, flume::RecvError>) -> (outcome: Result<(), Error>)
        requires
            old(self).gathered().len() < old(self).expected(),
        ensures
            final(self).wf(),
            final(self).expected() == old(self).expected(),
            final(self).receiver() == old(self).receiver(),
            match reply {
                Ok(item) => {
                    &&& outcome == Ok::<(), Error>(())
                    &&& final(self).gathered() == old(self).gathered().push(item)
                },
                Err(error) => {
                    &&& outcome == Err::<(), Error>(Error::Gather(error))
                    &&& final(self).gathered() == old(self).gathered()
                },
            },
    {
        match reply {
            Ok(item) => {
                self.gathered.push(item);
                Ok(())
            },
            Err(error) => Err(Error::Gather(error)),
        }
    }

    /// The replies, one for each shard.
    pub fn finish(self) -> (gathered: Vec<R>)
        requires
            self.gathered().len() == self.expected(),
        ensures
            gathered@ == self.gathered(),
            gathered.len() == self.expected(),
    {
        self.gathered
    }
}

impl Stats {
    /// A shard's answer when the pool gathers its counters.
    pub fn read(shard: ShardId, registry: &listener::Registry) -> (stats: Stats)
        ensures
            stats.shard == shard,
            stats.connections.open_count == registry@.open.len(),
            stats.connections.accepted_count == registry@.accepted_count,
            stats.connections.rejected_count == registry@.rejected_count,
    {
        Stats { shard, connections: listener::counts(registry) }
    }
}

/// The clients of every shard in one list, shard by shard.
pub fn all_clients(per_shard: Vec<Vec<listener::Client>>) -> (all: Vec<listener::Client>)
    ensures
        all@ == per_shard@.map_values(|clients: Vec<listener::Client>| clients@).flatten(),
{
    let ghost nested = per_shard@.map_values(|clients: Vec<listener::Client>| clients@);
    let mut all: Vec<listener::Client> = Vec::new();
    let mut index: usize = 0;
    while index < per_shard.len()
        invariant
            index <= per_shard.len(),
            nested == per_shard@.map_values(|clients: Vec<listener::Client>| clients@),
            all@ == nested.take(index as int).flatten(),
        decreases per_shard.len() - index,
    {
        let clients = &per_shard[index];
        let ghost before = all@;
        let mut taken: usize = 0;
        while taken < clients.len()
            invariant
                taken <= clients.len(),
                all@ == before + clients@.take(taken as int),
            decreases clients.len() - taken,
        {
            all.push(clients[taken]);
            taken = taken + 1;
        }
        proof {
            assert(clients@.take(taken as int) =~= clients@);
            let more = nested.take(index + 1);
            assert(more.drop_last() =~= nested.take(index as int));
            more.lemma_flatten_and_flatten_alt_are_equivalent();
            more.drop_last().lemma_flatten_and_flatten_alt_are_equivalent();
        }
        index = index + 1;
    }
    assert(nested.take(index as int) =~= nested);
    all
}

/// The entries of one shard in a list of clients.
pub open spec fn of_shard(clients: Seq<listener::Client>, shard: ShardId) -> Seq<listener::Client> {
    clients.filter(|client: listener::Client| client.shard == shard)
}

/// The joined list loses nothing and doubles nothing: when each of `n` different
/// shards walked its own registry, the list holds for each of them as many
/// entries as it has connections open, and as many entries in all as all of
/// them have connections open together.
pub proof fn law_every_open_connection_is_listed_once(
    lists: Seq<Seq<listener::Client>>,
    shards: Seq<ShardId>,
    registries: Seq<listener::RegistryView>,
    times: Seq<Instant>,
)
    requires
        lists.len() == shards.len() == registries.len() == times.len(),
        forall|i: int, j: int| 0 <= i < j < shards.len() ==> shards[i] != shards[j],
        forall|i: int|
            0 <= i < lists.len() ==> listener::listed(
                #[trigger] lists[i],
                registries[i].open,
                shards[i],
                times[i],
            ),
    ensures
        lists.flatten().len() == listener::open_in_all(registries),
        forall|i: int|
            0 <= i < shards.len() ==> of_shard(lists.flatten(), #[trigger] shards[i]).len()
                == registries[i].open.len(),
        forall|shard: ShardId|
            !shards.contains(shard) ==> (#[trigger] of_shard(lists.flatten(), shard)).len() == 0,
    decreases lists.len(),
{
    if lists.len() > 0 {
        let fewer = lists.drop_last();
        let last = lists.last();
        let end = lists.len() - 1;
        assert forall|i: int| 0 <= i < fewer.len() implies listener::listed(
            #[trigger] fewer[i],
            registries.drop_last()[i].open,
            shards.drop_last()[i],
            times.drop_last()[i],
        ) by {
            assert(fewer[i] == lists[i]);
        }
        law_every_open_connection_is_listed_once(
            fewer,
            shards.drop_last(),
            registries.drop_last(),
            times.drop_last(),
        );
        lists.lemma_flatten_and_flatten_alt_are_equivalent();
        fewer.lemma_flatten_and_flatten_alt_are_equivalent();
        assert(lists.flatten() == fewer.flatten() + last);
        assert(listener::listed(lists[end], registries[end].open, shards[end], times[end]));
        assert forall|i: int| 0 <= i < last.len() implies (#[trigger] last[i]).shard
            == shards[end] by {}
        assert forall|shard: ShardId| #[trigger]
            of_shard(lists.flatten(), shard).len() == of_shard(fewer.flatten(), shard).len() + if shard
                == shards[end] {
                last.len()
            } else {
                0
            } by {
            let is_its = |client: listener::Client| client.shard == shard;
            Seq::filter_distributes_over_add(fewer.flatten(), last, is_its);
            lemma_one_shards_list(last, shards[end], shard);
        }
        assert forall|i: int| 0 <= i < shards.len() implies of_shard(
            lists.flatten(),
            #[trigger] shards[i],
        ).len() == registries[i].open.len() by {
            if i < end {
                assert(shards.drop_last()[i] == shards[i]);
                assert(registries.drop_last()[i] == registries[i]);
            } else if shards.drop_last().contains(shards[end]) {
                let j = choose|j: int|
                    0 <= j < shards.drop_last().len() && shards.drop_last()[j] == shards[end];
                assert(shards[j] != shards[end]);
            }
        }
        assert forall|shard: ShardId| !shards.contains(shard) implies (#[trigger] of_shard(
            lists.flatten(),
            shard,
        )).len() == 0 by {
            assert(shards[end] != shard);
            if shards.drop_last().contains(shard) {
                let j = choose|j: int|
                    0 <= j < shards.drop_last().len() && shards.drop_last()[j] == shard;
                assert(shards[j] == shard);
            }
        }
    } else {
        assert(lists.flatten() =~= Seq::<listener::Client>::empty());
        assert forall|shard: ShardId| (#[trigger] of_shard(lists.flatten(), shard)).len() == 0 by {
            reveal(Seq::filter);
        }
    }
}

/// A list whose entries are all of one shard holds nothing of another.
proof fn lemma_one_shards_list(clients: Seq<listener::Client>, of: ShardId, shard: ShardId)
    requires
        forall|i: int| 0 <= i < clients.len() ==> (#[trigger] clients[i]).shard == of,
    ensures
        of_shard(clients, shard).len() == if shard == of {
            clients.len()
        } else {
            0
        },
    decreases clients.len(),
{
    reveal(Seq::filter);
    if clients.len() > 0 {
        assert forall|i: int| 0 <= i < clients.drop_last().len() implies (
        #[trigger] clients.drop_last()[i]).shard == of by {
            assert(clients.drop_last()[i] == clients[i]);
        }
        lemma_one_shards_list(clients.drop_last(), of, shard);
        assert(clients[clients.len() - 1].shard == of);
    }
}

/// What one shard thread needs to know to come up.
#[derive(Debug, Clone, Copy)]
pub struct Boot {
    pub shard: ShardId,
    /// The CPU to pin the thread to, if any.
    pub cpu: Option<usize>,
    /// How often to tick for the watchdog, if it is on.
    pub beat_every: Option<Duration>,
    /// Upper bound on waiting for open connections to close.
    pub drain: Duration,
}

/// A pool while its shards are being started.
#[verifier::reject_recursive_types(J)]
#[verifier::reject_recursive_types(T)]
#[verifier::reject_recursive_types(D)]
pub struct Startup<J, T, D> {
    config: Config,
    placement: Placement,
    pool: Shards<J, T, D>,
}

impl<J, T, D> Startup<J, T, D> {
    pub closed spec fn config(&self) -> Config {
        self.config
    }

    /// Where the shards are placed.
    pub closed spec fn placement(&self) -> PlacementView {
        self.placement@
    }

    /// The shards that were started so far.
    pub closed spec fn pool(&self) -> PoolView<J, T, D> {
        self.pool@
    }

    /// The shards that were started are the first of those that were planned,
    /// all of them are running, and the pool has claimed the planned CPUs.
    pub open spec fn wf(&self) -> bool {
        &&& self.placement().wf()
        &&& self.pool().wf()
        &&& self.pool().shards.len() <= self.placement().shards_count
        &&& self.pool().cpus == self.placement().claimed
        &&& !self.pool().listening
        &&& self.pool().watchdog is None
        &&& forall|i: int|
            0 <= i < self.pool().threads.len() ==> (#[trigger] self.pool().threads[i]) is Some
    }

    /// Begin to start the shards that were planned.
    pub fn begin(config: Config, placement: Placement) -> (startup: Startup<J, T, D>)
        requires
            placement@.wf(),
        ensures
            startup.wf(),
            startup.config() == config,
            startup.placement() == placement@,
            startup.pool().shards.len() == 0,
    {
        let pool = Shards {
            shards: Vec::new(),
            cpus: placement.claimed.clone(),
            listening: false,
            watchdog: None,
        };
        Startup { config, placement, pool }
    }

    /// How many shards there will be.
    pub fn shards_count(&self) -> (count: usize)
        ensures
            count == self.placement().shards_count,
    {
        self.placement.shards_count()
    }

    /// The next shard to start, or `None` when all of them were started.
    pub fn next(&self) -> (boot: Option<Boot>)
        requires
            self.wf(),
        ensures
            boot is Some <==> self.pool().shards.len() < self.placement().shards_count,
            boot matches Some(next) ==> {
                &&& next.shard@ == self.pool().shards.len()
                &&& next.cpu == self.placement().cpu(self.pool().shards.len())
                &&& next.beat_every == match self.config().watchdog {
                    watchdog::Policy::Off => None,
                    watchdog::Policy::On { sample_every, .. } => Some(sample_every),
                }
                &&& next.drain == self.config().drain
            },
    {
        let index: usize = self.pool.shards.len();
        if index >= self.placement.shards_count() {
            return None;
        }
        match self.placement.shard(index) {
            Ok(shard) => Some(
                Boot {
                    shard,
                    cpu: self.placement.cpu(index),
                    beat_every: sample_every(&self.config.watchdog),
                    drain: self.config.drain,
                },
            ),
            Err(_) => None,
        }
    }

    /// Take over the thread that was spawned for the next shard, or its
    /// failure to start. `jobs` leads to the shard.
    pub fn spawned(
        &mut self,
        jobs: Jobs<Message<J>>,
        thread: Result<T, std::io::Error>,
    ) -> (outcome: Result<(), Failure<J>>)
        requires
            old(self).wf(),
            old(self).pool().shards.len() < old(self).placement().shards_count,
        ensures
            final(self).wf(),
            final(self).config() == old(self).config(),
            final(self).placement() == old(self).placement(),
            match thread {
                Ok(handle) => {
                    &&& outcome is Ok
                    &&& final(self).pool() == old(self).pool().grown(
                        final(self).pool().shards.last(),
                        jobs,
                        handle,
                    )
                },
                Err(failure) => {
                    &&& error_of(outcome) matches Err(Error::SpawnThread { shard, source })
                    &&& shard@ == old(self).pool().shards.len()
                    &&& source == failure
                    &&& outcome->Err_0.of() == old(self).pool().channels
                    &&& final(self).pool() == old(self).pool()
                },
            },
    {
        let shard = match self.placement.shard(self.pool.shards.len()) {
            Ok(shard) => shard,
            Err(error) => {
                return Err(Failure { error, channels: Ghost(self.pool@.channels) });
            },
        };
        match thread {
            Ok(handle) => {
                self.pool.shards.push(Handle { shard, jobs, thread: Some(handle) });
                proof {
                    let before = old(self).pool();
                    let after = self.pool();
                    assert(after.shards =~= before.shards.push(shard));
                    assert(after.channels =~= before.channels.push(jobs.sender()));
                    assert(after.sent =~= before.sent.push(jobs@));
                    assert(after.threads =~= before.threads.push(Some(handle)));
                }
                Ok(())
            },
            Err(source) => Err(
                Failure {
                    error: Error::SpawnThread { shard, source },
                    channels: Ghost(self.pool@.channels),
                },
            ),
        }
    }

    /// The pool of the shards that were started, complete or not.
    pub fn into_pool(self) -> (pool: Shards<J, T, D>)
        ensures
            pool@ == self.pool(),
    {
        self.pool
    }
}

/// What became of the shards of a pool that is being stopped. Its view is the
/// shards that were joined, in order, each having panicked (`true`) or not.
pub struct Joined {
    failure: Option<Error>,
    joins: Ghost<Seq<(ShardId, bool)>>,
}

impl View for Joined {
    type V = Seq<(ShardId, bool)>;

    closed spec fn view(&self) -> Seq<(ShardId, bool)> {
        self.joins@
    }
}

/// The shards among what was joined.
pub open spec fn shards_joined(joins: Seq<(ShardId, bool)>) -> Seq<ShardId> {
    joins.map_values(|join: (ShardId, bool)| join.0)
}

impl Joined {
    #[verifier::type_invariant]
    spec fn keeps_the_failure(self) -> bool {
        self.failure == shut_down(self.joins@)
    }

    pub fn new() -> (joined: Joined)
        ensures
            joined@ == Seq::<(ShardId, bool)>::empty(),
    {
        Joined { failure: None, joins: Ghost(Seq::empty()) }
    }

    /// A shard's thread was joined, and had panicked or not.
    pub fn join(&mut self, shard: ShardId, panicked: bool)
        ensures
            final(self)@ == old(self)@.push((shard, panicked)),
    {
        proof {
            use_type_invariant(&*self);
            assert(self.joins@.push((shard, panicked)).drop_last() =~= self.joins@);
        }
        if panicked && self.failure.is_none() {
            *self =
            Joined {
                failure: Some(Error::Panicked { shard }),
                joins: Ghost(self.joins@.push((shard, panicked))),
            };
        } else {
            self.joins = Ghost(self.joins@.push((shard, panicked)));
        }
    }
}

/// The outcome of a shutdown whose shards were joined in this order, each
/// having panicked (`true`) or not.
pub open spec fn shut_down(joins: Seq<(ShardId, bool)>) -> Option<Error>
    decreases joins.len(),
{
    if joins.len() == 0 {
        None
    } else {
        let before = shut_down(joins.drop_last());
        if joins.last().1 && before is None {
            Some(Error::Panicked { shard: joins.last().0 })
        } else {
            before
        }
    }
}

/// A pool that is stopped reports the first shard that had panicked, and is
/// reported clean if and only if none had.
pub proof fn law_the_first_panic_is_reported(joins: Seq<(ShardId, bool)>)
    ensures
        match shut_down(joins) {
            Some(error) => exists|first: int|
                {
                    &&& 0 <= first < joins.len()
                    &&& (#[trigger] joins[first]).1
                    &&& error == (Error::Panicked { shard: joins[first].0 })
                    &&& forall|i: int| 0 <= i < first ==> !(#[trigger] joins[i]).1
                },
            None => forall|i: int| 0 <= i < joins.len() ==> !(#[trigger] joins[i]).1,
        },
    decreases joins.len(),
{
    if joins.len() > 0 {
        let before = joins.drop_last();
        law_the_first_panic_is_reported(before);
        match shut_down(before) {
            Some(error) => {
                let first = choose|first: int|
                    {
                        &&& 0 <= first < before.len()
                        &&& (#[trigger] before[first]).1
                        &&& error == (Error::Panicked { shard: before[first].0 })
                        &&& forall|i: int| 0 <= i < first ==> !(#[trigger] before[i]).1
                    };
                assert(joins[first] == before[first]);
                assert forall|i: int| 0 <= i < first implies !(#[trigger] joins[i]).1 by {
                    assert(joins[i] == before[i]);
                }
            },
            None => {
                assert forall|i: int| 0 <= i < before.len() implies !(#[trigger] joins[i]).1 by {
                    assert(joins[i] == before[i]);
                }
                assert(joins[joins.len() - 1] == joins.last());
            },
        }
    }
}

/// A question to the pool is one message to each shard: every shard that is
/// reached is sent its job after whatever it was sent before, and nothing else
/// is sent. When the round succeeds every shard was reached and took its job;
/// when it fails, the error names the shard that did not take its job, those
/// before it took theirs, and those after it are sent nothing.
pub proof fn law_one_message_per_shard<J, T, D>(
    pool: PoolView<J, T, D>,
    jobs: Seq<J>,
    told: Seq<Result<(), Message<J>>>,
    outcome: Result<(), Error>,
    after: PoolView<J, T, D>,
    index: int,
)
    requires
        pool.wf(),
        pool.fans_out(jobs, told, outcome, after),
        0 <= index < pool.shards.len(),
    ensures
        after.wf(),
        after.channels == pool.channels,
        index < jobs.len() ==> {
            &&& after.sent[index] == pool.sent[index].push(Message::Run(jobs[index]))
            &&& crate::channel::sends(
                pool.channels[index],
                Message::Run(jobs[index]),
                told[index],
            )
        },
        index >= jobs.len() ==> after.sent[index] == pool.sent[index],
        outcome is Ok ==> index < jobs.len() && told[index] is Ok,
        outcome matches Err(error) ==> {
            &&& error matches Error::ShardGone { shard }
            &&& index < jobs.len() <==> index <= shard@
            &&& index < shard@ ==> told[index] is Ok
            &&& index == shard@ ==> told[index] is Err
        },
{
    if index < jobs.len() {
        assert(crate::channel::sends(
            pool.channels[index],
            Message::Run(jobs[index]),
            told[index],
        ));
    }
    if outcome is Err {
        assert(pool.shards[told.len() - 1]@ == told.len() - 1);
    }
}

/// A shard is sent the message to stop before its thread is handed out to be
/// joined, which would otherwise never end. Stopping sends nothing else, and the
/// channels stay the same ones.
pub proof fn law_a_shard_is_told_before_it_is_joined<J, T, D>(
    pool: PoolView<J, T, D>,
    stop: Stop<T, D>,
    after: PoolView<J, T, D>,
    index: int,
)
    requires
        pool.wf(),
        pool.stops(stop, after),
        0 <= index < pool.shards.len(),
    ensures
        after.wf(),
        after.channels == pool.channels,
        stop matches Stop::Join { shard, told, .. } ==> pool.is_told(shard@ as int, told),
        after.sent[index] == if stop matches Stop::Join { shard, .. } && shard@ == index {
            pool.sent[index].push(Message::Stop)
        } else {
            pool.sent[index]
        },
{
    if let Stop::Join { shard, thread, told } = stop {
        let joined = choose|joined: int|
            {
                &&& #[trigger] pool.next_running(joined)
                &&& pool.threads[joined] == Some(thread)
                &&& pool.shards[joined] == shard
                &&& pool.is_told(joined, told)
                &&& after == pool.without(joined)
            };
        assert(pool.shards[joined]@ == joined);
    }
}

impl<J, T, D> PoolView<J, T, D> {
    /// The shards from `index` on whose threads have not been handed out, in
    /// order.
    pub open spec fn running_from(self, index: int) -> Seq<ShardId>
        decreases self.threads.len() - index,
    {
        if index >= self.threads.len() {
            seq![]
        } else if self.threads[index] is Some {
            seq![self.shards[index]] + self.running_from(index + 1)
        } else {
            self.running_from(index + 1)
        }
    }
}

/// Stopping a pool joins every running shard exactly once, in the order of
/// their indices, and the watchdog only after all of them: each step hands out
/// the first of the shards that are running and leaves the others, and the
/// watchdog is handed out, or the pool found stopped, only when none is left.
pub proof fn law_each_running_shard_is_joined_once<J, T, D>(
    pool: PoolView<J, T, D>,
    stop: Stop<T, D>,
    after: PoolView<J, T, D>,
)
    requires
        pool.stops(stop, after),
    ensures
        match stop {
            Stop::Join { shard, .. } => pool.running_from(0) == seq![shard]
                + after.running_from(0),
            Stop::StopWatchdog(_) => pool.running_from(0).len() == 0 && after.running_from(0).len()
                == 0,
            Stop::Stopped => pool.running_from(0).len() == 0,
        },
{
    match stop {
        Stop::Join { shard, thread, .. } => {
            let index = choose|index: int|
                {
                    &&& #[trigger] pool.next_running(index)
                    &&& pool.threads[index] == Some(thread)
                    &&& pool.shards[index] == shard
                    &&& after == pool.without(index)
                };
            lemma_running_from(pool, 0, index);
            lemma_running_from(after, 0, index);
            lemma_running_same(pool, after, index + 1);
            assert(after.threads[index] is None);
            assert(after.running_from(index) == after.running_from(index + 1));
        },
        Stop::StopWatchdog(_) => {
            lemma_running_from(pool, 0, pool.threads.len() as int);
            lemma_running_from(after, 0, after.threads.len() as int);
        },
        Stop::Stopped => {
            lemma_running_from(pool, 0, pool.threads.len() as int);
        },
    }
}

proof fn lemma_running_from<J, T, D>(pool: PoolView<J, T, D>, from: int, to: int)
    requires
        0 <= from <= to <= pool.threads.len(),
        forall|i: int| from <= i < to ==> (#[trigger] pool.threads[i]) is None,
    ensures
        pool.running_from(from) == pool.running_from(to),
    decreases to - from,
{
    if from < to {
        assert(pool.threads[from] is None);
        lemma_running_from(pool, from + 1, to);
    }
}

proof fn lemma_running_same<J, T, D>(one: PoolView<J, T, D>, other: PoolView<J, T, D>, from: int)
    requires
        0 <= from,
        one.shards == other.shards,
        one.threads.len() == other.threads.len(),
        forall|i: int|
            from <= i < one.threads.len() ==> #[trigger] one.threads[i] == other.threads[i],
    ensures
        one.running_from(from) == other.running_from(from),
    decreases one.threads.len() - from,
{
    if from < one.threads.len() {
        assert(one.threads[from] == other.threads[from]);
        lemma_running_same(one, other, from + 1);
    }
}

/// Stopping is idempotent: a pool that is stopped stays as it is, and there is
/// nothing more to do for it.
pub proof fn law_stopping_again_does_nothing<J, T, D>(
    pool: PoolView<J, T, D>,
    stopped: PoolView<J, T, D>,
    again: Stop<T, D>,
    after: PoolView<J, T, D>,
)
    requires
        pool.stops(Stop::Stopped, stopped),
        stopped.stops(again, after),
    ensures
        again is Stopped,
        after == stopped,
{
}

/// Stopping ends: every step but the last leaves fewer things to stop.
pub proof fn law_stopping_ends<J, T, D>(
    pool: PoolView<J, T, D>,
    stop: Stop<T, D>,
    after: PoolView<J, T, D>,
)
    requires
        pool.stops(stop, after),
        !(stop is Stopped),
    ensures
        after.left() < pool.left(),
{
    match stop {
        Stop::Join { shard, thread, .. } => {
            let index = choose|index: int|
                {
                    &&& #[trigger] pool.next_running(index)
                    &&& pool.threads[index] == Some(thread)
                    &&& pool.shards[index] == shard
                    &&& after == pool.without(index)
                };
            lemma_one_fewer_running(pool.threads, index);
        },
        _ => {},
    }
}

proof fn lemma_one_fewer_running<T>(threads: Seq<Option<T>>, index: int)
    requires
        0 <= index < threads.len(),
        threads[index] is Some,
    ensures
        running_count(threads) == running_count(threads.update(index, None)) + 1,
    decreases threads.len(),
{
    let fewer = threads.update(index, None);
    if index == threads.len() - 1 {
        assert(fewer.drop_last() =~= threads.drop_last());
    } else {
        assert(fewer.drop_last() =~= threads.drop_last().update(index, None));
        lemma_one_fewer_running(threads.drop_last(), index);
    }
}

/// A pool is planned as it is configured, on any number of CPUs that a shard
/// index can address: as many shards as there are CPUs or as were asked for,
/// shard `index` on the CPU at that place in the list, going around the list, and
/// as claimed those CPUs that a shard is pinned to; with pinning off none. On no
/// CPUs at all, or on more than can be addressed, it is not planned.
pub proof fn law_a_plan_follows_its_configuration(
    config: Config,
    cpus: Seq<usize>,
    placement: Result<Placement, Error>,
    index: nat,
    cpu: usize,
)
    requires
        planned(config, cpus, placement),
    ensures
        placement is Ok <==> 1 <= cpus.len() <= 65_535,
        cpus.len() == 0 ==> placement->Err_0 is NoCpus,
        cpus.len() > 65_535 ==> (placement matches Err(Error::TooManyCpus { count, .. }) && count
            == cpus.len()),
        placement matches Ok(placed) ==> {
            &&& placed@.cpus == cpus
            &&& config.count is PerCore ==> placed@.shards_count == cpus.len()
            &&& config.count matches Count::Exactly(count) ==> placed@.shards_count == count@
            &&& config.pin is Off ==> placed@.cpu(index) is None && !placed@.claimed.contains(cpu)
            &&& config.pin is Auto ==> {
                &&& placed@.cpu(index) == Some(cpus[index as int % cpus.len() as int])
                &&& placed@.claimed.contains(cpu) <==> exists|i: int|
                    0 <= i < cpus.len() && i < placed@.shards_count && #[trigger] cpus[i] == cpu
            }
        },
{
    if placement is Ok {
        let placed = placement->Ok_0@;
        let first = if placed.shards_count <= cpus.len() {
            cpus.take(placed.shards_count as int)
        } else {
            cpus
        };
        if config.pin is Auto {
            if config.count is Exactly {
                assert(placed.shards_count >= 1);
            }
            assert(placed.claimed == first.to_set());
            assert(first[0] == cpus[0]);
            assert(placed.claimed.contains(cpus[0]));
            assert(placed.claimed.contains(cpu) <==> exists|i: int|
                0 <= i < cpus.len() && i < placed.shards_count && #[trigger] cpus[i] == cpu) by {
                if placed.claimed.contains(cpu) {
                    let i = choose|i: int| 0 <= i < first.len() && first[i] == cpu;
                    assert(cpus[i] == cpu);
                }
                if exists|i: int|
                    0 <= i < cpus.len() && i < placed.shards_count && #[trigger] cpus[i] == cpu {
                    let i = choose|i: int|
                        0 <= i < cpus.len() && i < placed.shards_count && #[trigger] cpus[i]
                            == cpu;
                    assert(first[i] == cpu);
                }
            }
        }
    }
}

/// A pool is begun on what the machine answered: on the CPUs that it named, with
/// no shard started, or not at all when it named none or too many.
pub proof fn law_a_pool_is_begun_on_what_the_machine_has<J, T, D>(
    config: Config,
    found: Option<Vec<usize>>,
    startup: Result<Startup<J, T, D>, Error>,
)
    requires
        starts(config, cpus_of(found), startup),
    ensures
        found matches Some(cpus) ==> cpus_of(found) == cpus@,
        found is None ==> startup is Err,
        startup is Ok <==> (found matches Some(cpus) && 1 <= cpus@.len() <= 65_535),
        startup matches Ok(begun) ==> {
            &&& begun.placement().cpus == found->Some_0@
            &&& begun.placement().shards_count == match config.count {
                Count::PerCore => found->Some_0@.len(),
                Count::Exactly(count) => count@,
            }
            &&& begun.config() == config
            &&& begun.pool().shards.len() == 0
            &&& begun.pool().threads.len() == 0
            &&& begun.pool().watchdog is None
            &&& !begun.pool().listening
        },
        startup matches Err(error) ==> {
            ||| error is NoCpus
            ||| error is TooManyCpus
        },
{
}

/// A message that was taken counts as sent; one that came back means that the
/// shard is gone, and the error names that shard.
pub proof fn law_a_message_that_comes_back_names_the_shard<M>(
    shard: ShardId,
    told: Result<(), M>,
)
    ensures
        told is Ok <==> sent_as(shard, told) is Ok,
        told is Err ==> sent_as(shard, told) == Err::<(), Error>(Error::ShardGone { shard }),
{
}

/// A round succeeds exactly when nothing in it failed, and otherwise fails with
/// what failed first, whatever it is.
pub proof fn law_a_round_fails_with_its_first_failure(outcomes: Seq<Result<(), Error>>)
    ensures
        match first_failure(outcomes) {
            Ok(()) => forall|i: int| 0 <= i < outcomes.len() ==> (#[trigger] outcomes[i]) is Ok,
            Err(error) => exists|first: int|
                {
                    &&& 0 <= first < outcomes.len()
                    &&& (#[trigger] outcomes[first]) is Err
                    &&& outcomes[first]->Err_0 == error
                    &&& forall|i: int| 0 <= i < first ==> (#[trigger] outcomes[i]) is Ok
                },
        },
    decreases outcomes.len(),
{
    if outcomes.len() > 0 {
        let before = outcomes.drop_last();
        law_a_round_fails_with_its_first_failure(before);
        match first_failure(before) {
            Err(error) => {
                let first = choose|first: int|
                    {
                        &&& 0 <= first < before.len()
                        &&& (#[trigger] before[first]) is Err
                        &&& before[first]->Err_0 == error
                        &&& forall|i: int| 0 <= i < first ==> (#[trigger] before[i]) is Ok
                    };
                assert(outcomes[first] == before[first]);
                assert forall|i: int| 0 <= i < first implies (#[trigger] outcomes[i]) is Ok by {
                    assert(outcomes[i] == before[i]);
                }
            },
            Ok(()) => {
                assert forall|i: int| 0 <= i < before.len() implies (#[trigger] outcomes[i]) is Ok by {
                    assert(outcomes[i] == before[i]);
                }
                assert(outcomes[outcomes.len() - 1] == outcomes.last());
            },
        }
    }
}

/// A shard said that it is listening.
pub open spec fn is_listening(word: Started) -> bool {
    word is Ok && word->Ok_0 is Ok
}

/// A pool is up exactly when it heard from each of its shards and every one of
/// them said that it is listening. Any failure that a shard reports, of whatever
/// kind, fails the start, with that very error if it is the first; and if all of
/// them fall silent before that, the start fails too.
pub proof fn law_a_pool_is_up_only_if_every_shard_listens<J>(
    words: Seq<Started>,
    count: nat,
    outcome: Result<(), Failure<J>>,
)
    requires
        all_heard(words, count, error_of(outcome)),
    ensures
        outcome is Ok <==> {
            &&& words.len() == count
            &&& forall|i: int| 0 <= i < words.len() ==> is_listening(#[trigger] words[i])
        },
        outcome matches Err(failure) ==> {
            &&& 1 <= words.len() <= count
            &&& !is_listening(words.last())
            &&& forall|i: int| 0 <= i < words.len() - 1 ==> is_listening(#[trigger] words[i])
            &&& words.last() matches Ok(word) ==> failure@ == word->Err_0
            &&& words.last() is Err ==> (failure@ matches Error::ShardGone { shard } && shard@
                == 0)
        },
{
    assert(first_shard()@ == 0);
    match outcome {
        Ok(()) => {
            assert forall|i: int| 0 <= i < words.len() implies is_listening(
                #[trigger] words[i],
            ) by {
                assert(heard_as(words[i]) is Ok);
            }
        },
        Err(failure) => {
            assert(words[words.len() - 1] == words.last());
            assert(heard_as(words.last()) is Err);
            assert forall|i: int| 0 <= i < words.len() - 1 implies is_listening(
                #[trigger] words[i],
            ) by {
                assert(heard_as(words[i]) is Ok);
            }
        },
    }
}

/// A pool grows by the shard that was started, with its channel and its thread,
/// and by nothing else.
pub proof fn law_a_pool_grows_by_one_shard<J, T, D>(
    pool: PoolView<J, T, D>,
    shard: ShardId,
    jobs: Jobs<Message<J>>,
    thread: T,
    index: int,
)
    requires
        pool.wf(),
        0 <= index < pool.shards.len(),
    ensures
        ({
            let after = pool.grown(shard, jobs, thread);
            let last = pool.shards.len() as int;
            &&& after.shards.len() == last + 1
            &&& after.shards[last] == shard
            &&& after.channels[last] == jobs.sender()
            &&& after.sent[last] == jobs@
            &&& after.threads[last] == Some(thread)
            &&& after.shards[index] == pool.shards[index]
            &&& after.channels[index] == pool.channels[index]
            &&& after.sent[index] == pool.sent[index]
            &&& after.threads[index] == pool.threads[index]
            &&& after.cpus == pool.cpus
            &&& after.listening == pool.listening
            &&& after.watchdog == pool.watchdog
        }),
{
}

/// A round of jobs changes what was sent and nothing else of the pool.
pub proof fn law_a_round_only_sends<J, T, D>(
    pool: PoolView<J, T, D>,
    jobs: Seq<J>,
    told: Seq<Result<(), Message<J>>>,
    outcome: Result<(), Error>,
    after: PoolView<J, T, D>,
)
    requires
        pool.fans_out(jobs, told, outcome, after),
    ensures
        after.shards == pool.shards,
        after.channels == pool.channels,
        after.threads == pool.threads,
        after.cpus == pool.cpus,
        after.listening == pool.listening,
        after.watchdog == pool.watchdog,
        after.sent.len() == pool.sent.len(),
{
}

/// When a question is out, every shard has one job more and can answer it once,
/// on the channel that the answers are taken from, and as many answers are
/// expected as there are shards; when it is not, some shard is gone.
pub proof fn law_a_question_that_is_out_reached_every_shard<R, F: Fn(Reply<R>) -> J, J, T, D>(
    pool: PoolView<J, T, D>,
    make_job: F,
    gathering: Result<Gathering<R>, Error>,
    after: PoolView<J, T, D>,
    index: int,
)
    requires
        pool.wf(),
        asked(pool, make_job, gathering, after),
        0 <= index < pool.shards.len(),
    ensures
        gathering matches Ok(asking) ==> {
            &&& asking.expected() == pool.shards.len()
            &&& asking.gathered().len() == 0
            &&& exists|job: J, reply: Reply<R>|
                {
                    &&& after.sent[index] == pool.sent[index].push(Message::Run(job))
                    &&& #[trigger] make_job.ensures((reply,), job)
                    &&& reply.answers_to(pool.shards.len() as usize, asking.receiver())
                }
        },
        gathering matches Err(error) ==> {
            &&& error matches Error::ShardGone { shard }
            &&& index > shard@ ==> after.sent[index] == pool.sent[index]
            &&& index <= shard@ ==> after.sent[index].len() == pool.sent[index].len() + 1
        },
{
    let (jobs, told, receiver) = choose|
        jobs: Seq<J>,
        told: Seq<Result<(), Message<J>>>,
        receiver: flume::Receiver<R>,
    |
        {
            &&& #[trigger] pool.fans_out(jobs, told, all_asked(gathering), after)
            &&& #[trigger] gathers(gathering, receiver, pool.shards.len())
            &&& forall|i: int|
                0 <= i < jobs.len() ==> answered_by(
                    make_job,
                    #[trigger] jobs[i],
                    pool.shards.len() as usize,
                    receiver,
                )
        };
    law_one_message_per_shard(pool, jobs, told, all_asked(gathering), after, index);
    if gathering is Ok {
        assert(answered_by(make_job, jobs[index], pool.shards.len() as usize, receiver));
        let reply = choose|reply: Reply<R>| #[trigger]
            reply.answers_to(pool.shards.len() as usize, receiver) && make_job.ensures(
                (reply,),
                jobs[index],
            );
        assert(make_job.ensures((reply,), jobs[index]));
    }
}

/// A step towards a stopped pool takes one thing out of it: the thread of the
/// shard that was just sent the message to stop, which was the first still there,
/// or, with no thread left, the watchdog. Only a pool without either is stopped.
pub proof fn law_a_step_takes_out_what_it_hands_out<J, T, D>(
    pool: PoolView<J, T, D>,
    stop: Stop<T, D>,
    after: PoolView<J, T, D>,
    index: int,
)
    requires
        pool.wf(),
        pool.stops(stop, after),
        0 <= index < pool.shards.len(),
    ensures
        after.shards == pool.shards,
        after.cpus == pool.cpus,
        after.listening == pool.listening,
        pool.is_stopped() <==> {
            &&& pool.watchdog is None
            &&& forall|i: int| 0 <= i < pool.threads.len() ==> (#[trigger] pool.threads[i]) is None
        },
        match stop {
            Stop::Join { shard, thread, told } => {
                &&& shard@ < pool.shards.len()
                &&& pool.shards[shard@ as int] == shard
                &&& pool.threads[shard@ as int] == Some(thread)
                &&& index < shard@ ==> pool.threads[index] is None
                &&& after.threads[index] == if index == shard@ {
                    None
                } else {
                    pool.threads[index]
                }
                &&& after.watchdog == pool.watchdog
                &&& exists|raw: Result<(), Message<J>>| #[trigger]
                    crate::channel::sends(
                        pool.channels[shard@ as int],
                        Message::Stop,
                        raw,
                    ) && (told is Ok <==> raw is Ok)
                &&& told matches Err(error) ==> error == (Error::ShardGone { shard })
            },
            Stop::StopWatchdog(watchdog) => {
                &&& pool.threads[index] is None
                &&& pool.watchdog == Some(watchdog)
                &&& after.watchdog is None
                &&& after.threads == pool.threads
            },
            Stop::Stopped => {
                &&& pool.threads[index] is None
                &&& pool.watchdog is None
                &&& after == pool
            },
        },
{
    if let Stop::Join { shard, thread, told } = stop {
        let joined = choose|joined: int|
            {
                &&& #[trigger] pool.next_running(joined)
                &&& pool.threads[joined] == Some(thread)
                &&& pool.shards[joined] == shard
                &&& pool.is_told(joined, told)
                &&& after == pool.without(joined)
            };
        assert(pool.shards[joined]@ == joined);
    }
}

/// A pool is taken to be joined only when each of its shards was, in the order of
/// their indices; and what could not be started is told by the error that it
/// failed with.
pub proof fn law_every_shard_is_among_the_joined<J>(
    joins: Seq<(ShardId, bool)>,
    shards: Seq<ShardId>,
    outcome: Result<(), Failure<J>>,
)
    ensures
        shards_joined(joins) == shards <==> {
            &&& joins.len() == shards.len()
            &&& forall|i: int| 0 <= i < joins.len() ==> (#[trigger] joins[i]).0 == shards[i]
        },
        outcome is Ok <==> error_of(outcome) is Ok,
        outcome matches Err(failure) ==> error_of(outcome) == Err::<(), Error>(failure@),
{
    if shards_joined(joins) == shards {
        assert forall|i: int| 0 <= i < joins.len() implies (#[trigger] joins[i]).0 == shards[i] by {
            assert(shards_joined(joins)[i] == joins[i].0);
        }
    }
    if joins.len() == shards.len() && forall|i: int|
        0 <= i < joins.len() ==> (#[trigger] joins[i]).0 == shards[i] {
        assert(shards_joined(joins) =~= shards);
    }
}

/// What the machine has is what it answers when it is asked, in ascending order.
proof fn law_the_machine_is_asked(found: Option<Vec<usize>>)
    requires
        machine_has(found),
    ensures
        call_ensures(core_ids, (), found),
        found matches Some(cpus) ==> forall|i: int, j: int|
            0 <= i < j < cpus@.len() ==> cpus@[i] < cpus@[j],
{
}

} // verus!
