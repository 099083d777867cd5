use selene::num::NonZeroU16;
use selene::session::{Event, Session, Task};
use selene::shard::{Affinity, Boot, Config, Count, Error, Message, Placement};
use selene::time::Duration;
use selene::watchdog;

fn boot(beat_every: Option<Duration>) -> Boot {
    let config = Config {
        count: Count::Exactly(NonZeroU16::new(4).expect("literal")),
        pin: Affinity::Off,
        watchdog: watchdog::Policy::Off,
        drain: Duration::from_secs(2),
    };
    let placement = Placement::plan_on(&config, vec![0]).expect("one CPU");
    Boot {
        shard: placement.shard(3).expect("in range"),
        cpu: None,
        beat_every,
        drain: Duration::from_secs(2),
    }
}

fn refused() -> std::io::Error {
    std::io::Error::from(std::io::ErrorKind::Unsupported)
}

#[test]
fn a_watched_shard_lives_from_start_to_end() {
    let every = Some(Duration::from_millis(50));
    let mut session = Session::begin(&boot(every));
    assert!(matches!(
        session.step::<u8>(Event::RuntimeBuilt),
        Task::OpenListener
    ));
    assert!(matches!(
        session.step::<u8>(Event::ListenerOpened),
        Task::ReportListening
    ));
    assert!(matches!(
        session.step::<u8>(Event::Reported),
        Task::MakeService(shard) if shard.index() == 3
    ));
    assert!(matches!(
        session.step::<u8>(Event::ServiceMade),
        Task::StartAccepting
    ));
    assert!(matches!(
        session.step::<u8>(Event::AcceptStarted),
        Task::StartBeating(beat) if Some(beat) == every
    ));
    assert!(matches!(session.step::<u8>(Event::BeatStarted), Task::Wait));
    for job in 0..3u8 {
        assert!(matches!(
            session.step(Event::Received(Message::Run(job))),
            Task::RunJob { job: run, shard } if run == job && shard.index() == 3
        ));
        assert!(matches!(session.step::<u8>(Event::JobRun), Task::Wait));
    }
    assert!(matches!(
        session.step::<u8>(Event::Received(Message::Stop)),
        Task::StopAccepting
    ));
    assert!(matches!(
        session.step::<u8>(Event::AcceptStopped),
        Task::StopBeating
    ));
    assert!(matches!(
        session.step::<u8>(Event::BeatStopped),
        Task::NotifyService
    ));
    assert!(matches!(
        session.step::<u8>(Event::ServiceNotified),
        Task::Drain(within) if within == Duration::from_secs(2)
    ));
    assert!(matches!(session.step::<u8>(Event::Drained(5)), Task::End(5)));
}

#[test]
fn an_unwatched_shard_has_no_beat_to_stop() {
    let mut session = Session::begin(&boot(None));
    assert!(matches!(
        session.step::<u8>(Event::RuntimeBuilt),
        Task::OpenListener
    ));
    assert!(matches!(
        session.step::<u8>(Event::ListenerOpened),
        Task::ReportListening
    ));
    assert!(matches!(
        session.step::<u8>(Event::Reported),
        Task::MakeService(_)
    ));
    assert!(matches!(
        session.step::<u8>(Event::ServiceMade),
        Task::StartAccepting
    ));
    assert!(matches!(session.step::<u8>(Event::AcceptStarted), Task::Wait));
    // A pool that is gone stops its shards as well.
    assert!(matches!(
        session.step::<u8>(Event::Disconnected),
        Task::StopAccepting
    ));
    assert!(matches!(
        session.step::<u8>(Event::AcceptStopped),
        Task::NotifyService
    ));
}

#[test]
fn a_runtime_that_cannot_be_built_is_reported() {
    let mut session = Session::begin(&boot(None));
    assert!(matches!(
        session.step::<u8>(Event::RuntimeFailed(refused())),
        Task::Fail(Error::BuildRuntime { shard, source })
            if shard.index() == 3 && source.kind() == std::io::ErrorKind::Unsupported
    ));
}

#[test]
fn a_listener_that_cannot_be_opened_is_reported() {
    let mut session = Session::begin(&boot(None));
    assert!(matches!(
        session.step::<u8>(Event::RuntimeBuilt),
        Task::OpenListener
    ));
    let failed = selene::listener::Error::CreateSocket(refused());
    assert!(matches!(
        session.step::<u8>(Event::BindFailed(failed)),
        Task::Fail(Error::Bind {
            shard,
            source: selene::listener::Error::CreateSocket(_),
        }) if shard.index() == 3
    ));
}
