//! Stall detection.
//!
//! Head-of-line blocking is the primary failure mode of shard-per-core. Each
//! shard ticks a [`Beat`] from a timer task; a watchdog thread samples the
//! beats and reports a shard whose loop has stopped turning.
//!
//! This module decides: how many silent samples make a stall, what one sample
//! does to what was seen before, and what there is to report. The timer, the
//! thread and the log belong to the caller.

use crate::shard::ShardId;
use crate::time::Duration;
use vstd::prelude::*;

verus! {

/// An error of the operating system. Nothing is known of its contents: it is
/// carried along as the source of an error of this crate.
#[verifier::external_type_specification]
#[verifier::external_body]
pub struct ExIoError(std::io::Error);

/// Whether shards are watched, and how closely.
#[derive(Debug, Clone, Copy, PartialEq, Eq)]
pub enum Policy {
    Off,
    On {
        /// A shard silent for this long is reported as stalled.
        stall_after: Duration,
        /// How often the shard ticks and the watchdog samples.
        sample_every: Duration,
    },
}

#[derive(Debug)]
pub enum Error {
    /// `sample_every` must be shorter than `stall_after`.
    SampleTooCoarse { stall_after: Duration, sample_every: Duration },
    /// The watchdog thread could not be spawned.
    SpawnThread(std::io::Error),
}

/// A shard's liveness counter. Only its movement is meaningful, so there is no
/// clock to convert and nothing to overflow.
#[derive(Debug, Clone, Copy, PartialEq, Eq)]
pub struct Beat {
    count: u64,
}

impl View for Beat {
    type V = u64;

    closed spec fn view(&self) -> u64 {
        self.count
    }
}

/// The counter after one more beat: it wraps around at the end of its range.
pub open spec fn ticked(count: u64) -> u64 {
    if count == u64::MAX {
        0
    } else {
        (count + 1) as u64
    }
}

impl Beat {
    pub fn new() -> (beat: Beat)
        ensures
            beat@ == 0,
    {
        Beat { count: 0 }
    }

    /// Count one turn of the shard's loop.
    pub fn tick(&mut self)
        ensures
            final(self)@ == ticked(old(self)@),
    {
        self.count = self.count.wrapping_add(1);
    }

    pub fn read(&self) -> (count: u64)
        ensures
            count == self@,
    {
        self.count
    }
}

/// What a watchdog thread works to: how long it sleeps between samples, and
/// how many silent samples in a row make a stall.
#[derive(Debug, Clone, Copy, PartialEq, Eq)]
pub struct Schedule {
    pub sample_every: Duration,
    pub samples_max: u32,
}

/// Whether a stall window can be sampled: the samples come at a positive
/// distance, more often than the window is long, and the samples that fit in
/// the window can be counted.
pub open spec fn samples_fit(stall_after: Duration, sample_every: Duration) -> bool {
    &&& 0 < sample_every@ < stall_after@
    &&& stall_after@ / sample_every@ <= u32::MAX
}

/// How many samples fit into the stall window.
pub fn stall_samples(stall_after: Duration, sample_every: Duration) -> (samples: Result<u32, Error>)
    ensures
        samples is Ok <==> samples_fit(stall_after, sample_every),
        samples matches Ok(count) ==> {
            &&& count == stall_after@ / sample_every@
            &&& 1 <= count
            &&& count * sample_every@ <= stall_after@ < (count + 1) * sample_every@
        },
        samples matches Err(error) ==> error == (Error::SampleTooCoarse {
            stall_after,
            sample_every,
        }),
{
    let window: u128 = stall_after.as_nanos();
    let step: u128 = sample_every.as_nanos();
    if step == 0 || step >= window {
        return Err(Error::SampleTooCoarse { stall_after, sample_every });
    }
    let samples: u128 = window / step;
    proof {
        vstd::arithmetic::div_mod::lemma_fundamental_div_mod(window as int, step as int);
        vstd::arithmetic::div_mod::lemma_div_non_zero(window as int, step as int);
        vstd::arithmetic::mul::lemma_mul_is_commutative(samples as int, step as int);
        vstd::arithmetic::mul::lemma_mul_is_distributive_add_other_way(
            step as int,
            samples as int,
            1,
        );
    }
    match u32::try_from(samples) {
        Ok(count) => Ok(count),
        Err(_) => Err(Error::SampleTooCoarse { stall_after, sample_every }),
    }
}

impl Schedule {
    /// The schedule that a policy asks for, or `None` when the policy is
    /// [`Policy::Off`].
    pub fn start(policy: &Policy) -> (schedule: Result<Option<Schedule>, Error>)
        ensures
            match *policy {
                Policy::Off => schedule == Ok::<Option<Schedule>, Error>(None),
                Policy::On { stall_after, sample_every } => {
                    &&& schedule is Ok <==> samples_fit(stall_after, sample_every)
                    &&& schedule matches Ok(found) ==> {
                        &&& found matches Some(every)
                        &&& every.sample_every == sample_every
                        &&& every.samples_max == stall_after@ / sample_every@
                        &&& every.samples_max >= 1
                    }
                    &&& schedule matches Err(error) ==> error == (Error::SampleTooCoarse {
                        stall_after,
                        sample_every,
                    })
                },
            },
    {
        match *policy {
            Policy::Off => Ok(None),
            Policy::On { stall_after, sample_every } => {
                match stall_samples(stall_after, sample_every) {
                    Ok(samples_max) => Ok(Some(Schedule { sample_every, samples_max })),
                    Err(error) => Err(error),
                }
            },
        }
    }
}

/// What became of spawning the watchdog thread.
pub fn spawned<T>(thread: Result<T, std::io::Error>) -> (watching: Result<T, Error>)
    ensures
        watching == match thread {
            Ok(handle) => Ok::<T, Error>(handle),
            Err(source) => Err(Error::SpawnThread(source)),
        },
{
    match thread {
        Ok(handle) => Ok(handle),
        Err(source) => Err(Error::SpawnThread(source)),
    }
}

/// One shard's sampling state, held by the watchdog thread alone.
#[derive(Debug, Clone, Copy, PartialEq, Eq)]
pub struct Seen {
    pub beats_count: u64,
    pub missed_count: u32,
    pub reported: bool,
}

/// What a sample has to say about a shard.
#[derive(Debug, Clone, Copy, PartialEq, Eq)]
pub enum Report {
    /// The shard's loop has not turned for the whole stall window.
    Stalled { shard: ShardId, missed_count: u32 },
    /// A shard that was reported stalled is turning again.
    Recovered { shard: ShardId },
}

/// The state in which a shard is first seen, with `beats_count` on its
/// counter.
pub open spec fn first_seen(beats_count: u64) -> Seen {
    Seen { beats_count, missed_count: 0, reported: false }
}

/// The samples missed in a row, counting one that has just been missed.
pub open spec fn missed(seen: Seen) -> u32 {
    if seen.missed_count == u32::MAX {
        u32::MAX
    } else {
        (seen.missed_count + 1) as u32
    }
}

/// What is known of a shard once its counter has been sampled.
pub open spec fn sampled(seen: Seen, beats_count: u64, samples_max: u32) -> Seen {
    if beats_count != seen.beats_count {
        first_seen(beats_count)
    } else {
        Seen {
            beats_count,
            missed_count: missed(seen),
            reported: seen.reported || missed(seen) >= samples_max,
        }
    }
}

/// What a sample has to say about a shard.
pub open spec fn report_of(
    shard: ShardId,
    seen: Seen,
    beats_count: u64,
    samples_max: u32,
) -> Option<Report> {
    if beats_count != seen.beats_count && seen.reported {
        Some(Report::Recovered { shard })
    } else if beats_count == seen.beats_count && missed(seen) >= samples_max && !seen.reported {
        Some(Report::Stalled { shard, missed_count: missed(seen) })
    } else {
        None
    }
}

/// Take one sample of one shard.
pub fn sample(shard: ShardId, beats_count: u64, seen: &mut Seen, samples_max: u32) -> (report:
    Option<Report>)
    ensures
        *final(seen) == sampled(*old(seen), beats_count, samples_max),
        report == report_of(shard, *old(seen), beats_count, samples_max),
{
    if beats_count != seen.beats_count {
        let recovered = seen.reported;
        seen.beats_count = beats_count;
        seen.missed_count = 0;
        seen.reported = false;
        if recovered {
            return Some(Report::Recovered { shard });
        } else {
            return None;
        }
    }
    seen.missed_count = seen.missed_count.saturating_add(1);
    if seen.missed_count >= samples_max && !seen.reported {
        seen.reported = true;
        Some(Report::Stalled { shard, missed_count: seen.missed_count })
    } else {
        None
    }
}

/// The watchdog thread's view of the whole pool.
#[derive(Debug)]
pub struct Watch {
    shards: Vec<ShardId>,
    seen: Vec<Seen>,
    samples_max: u32,
}

/// The reports of one round of samples, in the order of the shards.
pub open spec fn reports_of(
    shards: Seq<ShardId>,
    seen: Seq<Seen>,
    beats: Seq<u64>,
    samples_max: u32,
) -> Seq<Report>
    decreases shards.len(),
{
    if shards.len() == 0 {
        seq![]
    } else {
        let before = reports_of(
            shards.drop_last(),
            seen.drop_last(),
            beats.drop_last(),
            samples_max,
        );
        match report_of(shards.last(), seen.last(), beats.last(), samples_max) {
            Some(report) => before.push(report),
            None => before,
        }
    }
}

impl Watch {
    /// The shards that are watched.
    pub closed spec fn shards(&self) -> Seq<ShardId> {
        self.shards@
    }

    /// What was last seen of each shard.
    pub closed spec fn seen(&self) -> Seq<Seen> {
        self.seen@
    }

    /// How many silent samples in a row make a stall.
    pub closed spec fn samples_max(&self) -> u32 {
        self.samples_max
    }

    /// There is one state per shard.
    pub open spec fn wf(&self) -> bool {
        self.seen().len() == self.shards().len()
    }

    /// Begin to watch: `beats` holds what each shard's counter reads now.
    pub fn begin(shards: Vec<ShardId>, beats: &Vec<u64>, samples_max: u32) -> (watch: Watch)
        requires
            beats.len() == shards.len(),
        ensures
            watch.wf(),
            watch.shards() == shards@,
            watch.samples_max() == samples_max,
            watch.seen() == beats@.map_values(|count: u64| first_seen(count)),
    {
        let mut seen: Vec<Seen> = Vec::with_capacity(shards.len());
        let mut index: usize = 0;
        while index < shards.len()
            invariant
                beats.len() == shards.len(),
                index <= shards.len(),
                seen@ == beats@.take(index as int).map_values(|count: u64| first_seen(count)),
            decreases shards.len() - index,
        {
            seen.push(Seen { beats_count: beats[index], missed_count: 0, reported: false });
            index = index + 1;
        }
        proof {
            assert(beats@.take(beats.len() as int) =~= beats@);
        }
        Watch { shards, seen, samples_max }
    }

    /// Sample every shard once: `beats` holds what each counter reads now.
    /// Returns what there is to report.
    pub fn sample_all(&mut self, beats: &Vec<u64>) -> (reports: Vec<Report>)
        requires
            old(self).wf(),
            beats.len() == old(self).shards().len(),
        ensures
            final(self).wf(),
            final(self).shards() == old(self).shards(),
            final(self).samples_max() == old(self).samples_max(),
            forall|i: int|
                0 <= i < beats.len() ==> #[trigger] final(self).seen()[i] == sampled(
                    old(self).seen()[i],
                    beats[i],
                    old(self).samples_max(),
                ),
            reports@ == reports_of(
                old(self).shards(),
                old(self).seen(),
                beats@,
                old(self).samples_max(),
            ),
    {
        let ghost before = self.seen@;
        let mut reports: Vec<Report> = Vec::new();
        let mut index: usize = 0;
        while index < self.shards.len()
            invariant
                index <= self.shards.len(),
                self.shards == old(self).shards,
                self.samples_max == old(self).samples_max,
                self.seen.len() == self.shards.len(),
                before == old(self).seen@,
                before.len() == self.shards.len(),
                beats.len() == self.shards.len(),
                forall|i: int|
                    0 <= i < index ==> self.seen[i] == sampled(
                        before[i],
                        beats[i],
                        self.samples_max,
                    ),
                forall|i: int| index <= i < self.seen.len() ==> self.seen[i] == before[i],
                reports@ == reports_of(
                    self.shards@.take(index as int),
                    before.take(index as int),
                    beats@.take(index as int),
                    self.samples_max,
                ),
            decreases self.shards.len() - index,
        {
            let mut state: Seen = self.seen[index];
            let report = sample(self.shards[index], beats[index], &mut state, self.samples_max);
            self.seen.set(index, state);
            proof {
                let next = index + 1;
                assert(self.shards@.take(next).drop_last() =~= self.shards@.take(index as int));
                assert(before.take(next).drop_last() =~= before.take(index as int));
                assert(beats@.take(next).drop_last() =~= beats@.take(index as int));
            }
            match report {
                Some(report) => {
                    reports.push(report);
                },
                None => {},
            }
            index = index + 1;
        }
        proof {
            assert(self.shards@.take(index as int) =~= self.shards@);
            assert(before.take(index as int) =~= before);
            assert(beats@.take(index as int) =~= beats@);
        }
        reports
    }
}

/// A shard's state after `samples` samples during which its counter does not
/// move.
pub open spec fn silent(seen: Seen, samples: nat, samples_max: u32) -> Seen
    decreases samples,
{
    if samples == 0 {
        seen
    } else {
        let before = silent(seen, (samples - 1) as nat, samples_max);
        sampled(before, before.beats_count, samples_max)
    }
}

/// A shard that stops beating is reported stalled exactly once, at the sample
/// that completes the stall window: of the samples of a silent shard, sample
/// number `samples` (counted from one) reports a stall if and only if it is
/// the `samples_max`th, and none of them reports anything else.
pub proof fn law_a_silent_shard_is_reported_once(
    shard: ShardId,
    beats_count: u64,
    samples: nat,
    samples_max: u32,
)
    requires
        samples >= 1,
        samples_max >= 1,
    ensures
        report_of(
            shard,
            silent(first_seen(beats_count), (samples - 1) as nat, samples_max),
            beats_count,
            samples_max,
        ) == if samples == samples_max {
            Some(Report::Stalled { shard, missed_count: samples_max })
        } else {
            None
        },
{
    lemma_silent(beats_count, (samples - 1) as nat, samples_max);
}

proof fn lemma_silent(beats_count: u64, samples: nat, samples_max: u32)
    requires
        samples_max >= 1,
    ensures
        silent(first_seen(beats_count), samples, samples_max) == (Seen {
            beats_count,
            missed_count: if samples <= u32::MAX {
                samples as u32
            } else {
                u32::MAX
            },
            reported: samples >= samples_max,
        }),
    decreases samples,
{
    if samples > 0 {
        lemma_silent(beats_count, (samples - 1) as nat, samples_max);
    }
}

/// A shard whose counter moved since the last sample is never reported
/// stalled, is reported recovered if and only if it had been reported stalled,
/// and starts a new stall window.
pub proof fn law_a_beating_shard_is_not_stalled(
    shard: ShardId,
    seen: Seen,
    beats_count: u64,
    samples_max: u32,
)
    requires
        beats_count != seen.beats_count,
    ensures
        report_of(shard, seen, beats_count, samples_max) == if seen.reported {
            Some(Report::Recovered { shard })
        } else {
            None
        },
        sampled(seen, beats_count, samples_max) == first_seen(beats_count),
{
}

/// The reports of one shard alternate, whatever its counter does: a stall is
/// reported only while none is outstanding and then is outstanding, a recovery
/// only while a stall is outstanding and then none is, and a sample without a
/// report leaves that as it was.
pub proof fn law_stalls_and_recoveries_alternate(
    shard: ShardId,
    seen: Seen,
    beats_count: u64,
    samples_max: u32,
)
    ensures
        ({
            let after = sampled(seen, beats_count, samples_max);
            match report_of(shard, seen, beats_count, samples_max) {
                Some(Report::Stalled { .. }) => !seen.reported && after.reported,
                Some(Report::Recovered { .. }) => seen.reported && !after.reported,
                None => after.reported == seen.reported,
            }
        }),
{
}

/// The counter after `beats` more beats.
pub open spec fn ticked_times(count: u64, beats: nat) -> u64
    decreases beats,
{
    if beats == 0 {
        count
    } else {
        ticked(ticked_times(count, (beats - 1) as nat))
    }
}

/// Beats between two samples are seen as movement, although the counter wraps,
/// as long as they are fewer than the counter has values.
pub proof fn law_beats_are_seen(count: u64, beats: nat)
    requires
        1 <= beats <= u64::MAX,
    ensures
        ticked_times(count, beats) != count,
{
    lemma_ticked_times(count, beats);
}

proof fn lemma_ticked_times(count: u64, beats: nat)
    requires
        beats <= u64::MAX,
    ensures
        ticked_times(count, beats) == if count + beats <= u64::MAX {
            count + beats
        } else {
            count + beats - u64::MAX - 1
        },
    decreases beats,
{
    if beats > 0 {
        lemma_ticked_times(count, (beats - 1) as nat);
    }
}

/// A stall window can be sampled exactly when samples come at a positive
/// distance, shorter than the window, and no more of them fit into it than a
/// `u32` can count.
pub proof fn law_a_window_can_be_sampled(stall_after: Duration, sample_every: Duration)
    ensures
        samples_fit(stall_after, sample_every) <==> {
            &&& sample_every@ > 0
            &&& sample_every@ < stall_after@
            &&& stall_after@ < 0x1_0000_0000 * sample_every@
        },
{
    let window = stall_after@ as int;
    let step = sample_every@ as int;
    if step > 0 {
        let count = window / step;
        vstd::arithmetic::div_mod::lemma_fundamental_div_mod(window, step);
        assert(count <= u32::MAX <==> window < 0x1_0000_0000 * step) by (nonlinear_arith)
            requires
                window == step * count + window % step,
                0 <= window % step < step,
        ;
    }
}

/// The counter counts: from zero, `beats` beats make it read `beats`.
pub proof fn law_beats_are_counted(beats: nat)
    requires
        beats <= u64::MAX,
    ensures
        ticked_times(0, beats) == beats,
{
    lemma_ticked_times(0, beats);
}

/// The shard that a report is about.
pub open spec fn about(report: Report) -> ShardId {
    match report {
        Report::Stalled { shard, .. } => shard,
        Report::Recovered { shard } => shard,
    }
}

/// What reports say about one shard.
pub open spec fn reports_about(reports: Seq<Report>, shard: ShardId) -> Seq<Report> {
    reports.filter(|report: Report| about(report) == shard)
}

/// A round says about each watched shard what sampling that shard alone says,
/// once, whatever its place among the shards, and about other shards nothing.
pub proof fn law_every_shard_is_reported_on_its_own(
    shards: Seq<ShardId>,
    seen: Seq<Seen>,
    beats: Seq<u64>,
    samples_max: u32,
    shard: ShardId,
)
    requires
        seen.len() == shards.len(),
        beats.len() == shards.len(),
        forall|i: int, j: int| 0 <= i < j < shards.len() ==> shards[i] != shards[j],
    ensures
        forall|i: int|
            0 <= i < shards.len() && #[trigger] shards[i] == shard ==> reports_about(
                reports_of(shards, seen, beats, samples_max),
                shard,
            ) == match report_of(shard, seen[i], beats[i], samples_max) {
                Some(report) => seq![report],
                None => seq![],
            },
        !shards.contains(shard) ==> reports_about(
            reports_of(shards, seen, beats, samples_max),
            shard,
        ).len() == 0,
    decreases shards.len(),
{
    reveal(Seq::filter);
    let all = reports_of(shards, seen, beats, samples_max);
    if shards.len() > 0 {
        let end = shards.len() - 1;
        let fewer = shards.drop_last();
        let before = reports_of(fewer, seen.drop_last(), beats.drop_last(), samples_max);
        assert forall|i: int, j: int| 0 <= i < j < fewer.len() implies fewer[i] != fewer[j] by {
            assert(shards[i] != shards[j]);
        }
        law_every_shard_is_reported_on_its_own(
            fewer,
            seen.drop_last(),
            beats.drop_last(),
            samples_max,
            shard,
        );
        let last = report_of(shards[end], seen[end], beats[end], samples_max);
        if last is Some {
            assert(all.drop_last() =~= before);
            assert(about(all.last()) == shards[end]);
        }
        assert(reports_about(all, shard) == if last is Some && shards[end] == shard {
            reports_about(before, shard).push(last->Some_0)
        } else {
            reports_about(before, shard)
        });
        if fewer.contains(shard) {
            let k = choose|k: int| 0 <= k < fewer.len() && fewer[k] == shard;
            assert(shards[k] == shard);
            assert(shards[k] != shards[end]);
        } else if shards[end] == shard {
            assert(reports_about(before, shard) =~= seq![]);
            if last is Some {
                assert(reports_about(all, shard) =~= seq![last->Some_0]);
            }
        }
        assert forall|i: int| 0 <= i < shards.len() && #[trigger] shards[i] == shard implies
            reports_about(all, shard) == match report_of(shard, seen[i], beats[i], samples_max) {
            Some(report) => seq![report],
            None => seq![],
        } by {
            if i < end {
                assert(fewer[i] == shard);
                assert(fewer.contains(shard));
            } else if fewer.contains(shard) {
                let k = choose|k: int| 0 <= k < fewer.len() && fewer[k] == shard;
                assert(shards[k] != shards[end]);
            }
        }
        if !shards.contains(shard) {
            assert(shards[end] != shard);
            if fewer.contains(shard) {
                let k = choose|k: int| 0 <= k < fewer.len() && fewer[k] == shard;
                assert(shards[k] == shard);
            }
        }
    }
}

/// The reports of a round come in the order of the shards.
pub proof fn law_reports_come_in_the_order_of_the_shards(
    shards: Seq<ShardId>,
    seen: Seq<Seen>,
    beats: Seq<u64>,
    samples_max: u32,
    one: int,
    other: int,
)
    requires
        seen.len() == shards.len(),
        beats.len() == shards.len(),
        0 <= one <= other < reports_of(shards, seen, beats, samples_max).len(),
    ensures
        exists|i: int, j: int|
            {
                &&& 0 <= i <= j < shards.len()
                &&& one < other ==> i < j
                &&& about(reports_of(shards, seen, beats, samples_max)[one])
                    == #[trigger] shards[i]
                &&& about(reports_of(shards, seen, beats, samples_max)[other])
                    == #[trigger] shards[j]
            },
    decreases shards.len(),
{
    if shards.len() > 0 {
        let end = shards.len() - 1;
        let fewer = shards.drop_last();
        let all = reports_of(shards, seen, beats, samples_max);
        let before = reports_of(fewer, seen.drop_last(), beats.drop_last(), samples_max);
        if other < before.len() {
            law_reports_come_in_the_order_of_the_shards(
                fewer,
                seen.drop_last(),
                beats.drop_last(),
                samples_max,
                one,
                other,
            );
            let (i, j) = choose|i: int, j: int|
                {
                    &&& 0 <= i <= j < fewer.len()
                    &&& one < other ==> i < j
                    &&& about(before[one]) == #[trigger] fewer[i]
                    &&& about(before[other]) == #[trigger] fewer[j]
                };
            assert(shards[i] == fewer[i] && shards[j] == fewer[j]);
        } else {
            assert(about(all[other]) == shards[end]);
            if one < other {
                law_reports_come_in_the_order_of_the_shards(
                    fewer,
                    seen.drop_last(),
                    beats.drop_last(),
                    samples_max,
                    one,
                    one,
                );
                let (i, j) = choose|i: int, j: int|
                    {
                        &&& 0 <= i <= j < fewer.len()
                        &&& about(before[one]) == #[trigger] fewer[i]
                        &&& about(before[one]) == #[trigger] fewer[j]
                    };
                assert(shards[i] == fewer[i]);
            }
        }
    }
}

/// What is known of the shards after rounds of samples, each of which holds what
/// every counter read.
pub open spec fn seen_after(seen: Seq<Seen>, rounds: Seq<Seq<u64>>, samples_max: u32) -> Seq<Seen>
    decreases rounds.len(),
{
    if rounds.len() == 0 {
        seen
    } else {
        let before = seen_after(seen, rounds.drop_last(), samples_max);
        Seq::new(before.len(), |i: int| sampled(before[i], rounds.last()[i], samples_max))
    }
}

/// A shard that falls silent is reported: from when its counter was last seen to
/// move, the round that completes the stall window says of it that it is stalled,
/// and no round before it or after it says anything of it while it stays silent,
/// whatever its place and whatever the other shards do.
pub proof fn law_a_shard_that_falls_silent_is_reported(
    shards: Seq<ShardId>,
    seen: Seq<Seen>,
    rounds: Seq<Seq<u64>>,
    samples_max: u32,
    index: int,
)
    requires
        seen.len() == shards.len(),
        forall|i: int, j: int| 0 <= i < j < shards.len() ==> shards[i] != shards[j],
        0 <= index < shards.len(),
        seen[index] == first_seen(seen[index].beats_count),
        samples_max >= 1,
        rounds.len() >= 1,
        forall|r: int|
            0 <= r < rounds.len() ==> (#[trigger] rounds[r]).len() == shards.len()
                && rounds[r][index] == seen[index].beats_count,
    ensures
        reports_about(
            reports_of(
                shards,
                seen_after(seen, rounds.drop_last(), samples_max),
                rounds.last(),
                samples_max,
            ),
            shards[index],
        ) == if rounds.len() == samples_max {
            seq![Report::Stalled { shard: shards[index], missed_count: samples_max }]
        } else {
            seq![]
        },
{
    let earlier = rounds.drop_last();
    let known = seen_after(seen, earlier, samples_max);
    lemma_seen_after_silence(seen, earlier, samples_max, index);
    assert(rounds[rounds.len() - 1].len() == shards.len());
    law_every_shard_is_reported_on_its_own(
        shards,
        known,
        rounds.last(),
        samples_max,
        shards[index],
    );
    law_a_silent_shard_is_reported_once(
        shards[index],
        seen[index].beats_count,
        rounds.len(),
        samples_max,
    );
    lemma_silent(seen[index].beats_count, earlier.len(), samples_max);
}

proof fn lemma_seen_after_silence(
    seen: Seq<Seen>,
    rounds: Seq<Seq<u64>>,
    samples_max: u32,
    index: int,
)
    requires
        0 <= index < seen.len(),
        seen[index] == first_seen(seen[index].beats_count),
        samples_max >= 1,
        forall|r: int|
            0 <= r < rounds.len() ==> (#[trigger] rounds[r])[index] == seen[index].beats_count,
    ensures
        seen_after(seen, rounds, samples_max).len() == seen.len(),
        seen_after(seen, rounds, samples_max)[index] == silent(
            first_seen(seen[index].beats_count),
            rounds.len(),
            samples_max,
        ),
    decreases rounds.len(),
{
    if rounds.len() > 0 {
        let earlier = rounds.drop_last();
        assert forall|r: int| 0 <= r < earlier.len() implies (#[trigger] earlier[r])[index]
            == seen[index].beats_count by {
            assert(earlier[r] == rounds[r]);
        }
        lemma_seen_after_silence(seen, earlier, samples_max, index);
        lemma_silent(seen[index].beats_count, earlier.len(), samples_max);
        assert(rounds[rounds.len() - 1][index] == seen[index].beats_count);
    }
}

/// A shard whose counter has moved is reported recovered by the round if it had
/// been reported stalled, and otherwise not reported, whatever its place; and it
/// starts a new stall window.
pub proof fn law_a_shard_that_turns_again_is_reported(
    shards: Seq<ShardId>,
    seen: Seq<Seen>,
    beats: Seq<u64>,
    samples_max: u32,
    index: int,
)
    requires
        seen.len() == shards.len(),
        beats.len() == shards.len(),
        forall|i: int, j: int| 0 <= i < j < shards.len() ==> shards[i] != shards[j],
        0 <= index < shards.len(),
        beats[index] != seen[index].beats_count,
    ensures
        reports_about(reports_of(shards, seen, beats, samples_max), shards[index])
            == if seen[index].reported {
            seq![Report::Recovered { shard: shards[index] }]
        } else {
            seq![]
        },
        sampled(seen[index], beats[index], samples_max) == (Seen {
            beats_count: beats[index],
            missed_count: 0,
            reported: false,
        }),
{
    law_every_shard_is_reported_on_its_own(shards, seen, beats, samples_max, shards[index]);
    law_a_beating_shard_is_not_stalled(shards[index], seen[index], beats[index], samples_max);
}

} // verus!
