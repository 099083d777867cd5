use selene::num::NonZeroU16;
use selene::shard::{Affinity, Config, Count, Placement, ShardId};
use selene::time::Duration;
use selene::watchdog::{
    sample, spawned, stall_samples, Beat, Error, Policy, Report, Schedule, Seen, Watch,
};

fn shard_ids(count: u16) -> Vec<ShardId> {
    let config = Config {
        count: Count::Exactly(NonZeroU16::new(count).expect("literal")),
        pin: Affinity::Off,
        watchdog: Policy::Off,
        drain: Duration::from_secs(1),
    };
    let placement = Placement::plan_on(&config, vec![0]).expect("one CPU is enough");
    (0..usize::from(count))
        .map(|index| placement.shard(index).expect("in range"))
        .collect()
}

#[test]
fn a_stall_window_holding_four_samples_reports_after_four() {
    let samples = stall_samples(Duration::from_millis(200), Duration::from_millis(50));
    assert_eq!(samples.expect("valid policy"), 4);
}

#[test]
fn sampling_slower_than_the_stall_window_is_rejected() {
    let samples = stall_samples(Duration::from_millis(50), Duration::from_millis(50));
    assert!(samples.is_err());
}

#[test]
fn a_zero_sample_interval_is_rejected() {
    let samples = stall_samples(Duration::from_millis(50), Duration::zero());
    assert!(samples.is_err());
}

#[test]
fn a_window_with_more_samples_than_can_be_counted_is_rejected() {
    // 2^32 samples of one nanosecond each.
    let window = Duration::new(4, 294_967_296);
    let error = stall_samples(window, Duration::new(0, 1)).expect_err("too many samples");
    assert!(matches!(
        error,
        Error::SampleTooCoarse { stall_after, sample_every }
            if stall_after == window && sample_every == Duration::new(0, 1)
    ));
    let window = Duration::new(4, 294_967_295);
    assert_eq!(
        stall_samples(window, Duration::new(0, 1)).expect("just fits"),
        u32::MAX
    );
}

#[test]
fn a_window_that_is_no_multiple_of_the_interval_is_rounded_down() {
    let samples = stall_samples(Duration::from_millis(199), Duration::from_millis(50));
    assert_eq!(samples.expect("valid policy"), 3);
}

#[test]
fn a_policy_becomes_a_schedule() {
    assert_eq!(Schedule::start(&Policy::Off).expect("off is valid"), None);
    let on = Policy::On {
        stall_after: Duration::from_millis(500),
        sample_every: Duration::from_millis(50),
    };
    assert_eq!(
        Schedule::start(&on).expect("valid policy"),
        Some(Schedule {
            sample_every: Duration::from_millis(50),
            samples_max: 10,
        })
    );
    let coarse = Policy::On {
        stall_after: Duration::from_millis(50),
        sample_every: Duration::from_millis(500),
    };
    assert!(matches!(
        Schedule::start(&coarse),
        Err(Error::SampleTooCoarse { .. })
    ));
}

#[test]
fn a_watchdog_thread_that_cannot_be_spawned_is_an_error() {
    assert_eq!(spawned::<u32>(Ok(7)).expect("spawned"), 7);
    let refused = std::io::Error::from(std::io::ErrorKind::WouldBlock);
    assert!(matches!(
        spawned::<u32>(Err(refused)),
        Err(Error::SpawnThread(source)) if source.kind() == std::io::ErrorKind::WouldBlock
    ));
}

#[test]
fn a_silent_shard_is_reported_once_and_its_recovery_too() {
    let shard = shard_ids(1)[0];
    let mut seen = Seen {
        beats_count: 5,
        missed_count: 0,
        reported: false,
    };
    assert_eq!(sample(shard, 5, &mut seen, 3), None);
    assert_eq!(sample(shard, 5, &mut seen, 3), None);
    assert_eq!(
        sample(shard, 5, &mut seen, 3),
        Some(Report::Stalled {
            shard,
            missed_count: 3,
        })
    );
    assert_eq!(sample(shard, 5, &mut seen, 3), None);
    assert_eq!(sample(shard, 6, &mut seen, 3), Some(Report::Recovered { shard }));
    assert_eq!(
        seen,
        Seen {
            beats_count: 6,
            missed_count: 0,
            reported: false,
        }
    );
    assert_eq!(sample(shard, 7, &mut seen, 3), None);
}

#[test]
fn missed_samples_saturate() {
    let shard = shard_ids(1)[0];
    let mut seen = Seen {
        beats_count: 1,
        missed_count: u32::MAX,
        reported: true,
    };
    assert_eq!(sample(shard, 1, &mut seen, 4), None);
    assert_eq!(seen.missed_count, u32::MAX);
}

#[test]
fn a_beat_counts_turns_from_zero() {
    let mut beat = Beat::new();
    assert_eq!(beat.read(), 0);
    beat.tick();
    beat.tick();
    assert_eq!(beat.read(), 2);
}

#[test]
fn a_watch_reports_the_shards_that_are_silent() {
    let ids = shard_ids(3);
    let mut watch = Watch::begin(ids.clone(), &vec![10, 20, 30], 2);
    assert_eq!(watch.sample_all(&vec![11, 20, 31]), vec![]);
    assert_eq!(
        watch.sample_all(&vec![12, 20, 31]),
        vec![Report::Stalled {
            shard: ids[1],
            missed_count: 2,
        }]
    );
    assert_eq!(
        watch.sample_all(&vec![13, 21, 31]),
        vec![
            Report::Recovered { shard: ids[1] },
            Report::Stalled {
                shard: ids[2],
                missed_count: 2,
            },
        ]
    );
}
