use selene::channel::{Jobs, Replies, Reply};
use selene::budget::Foreground;
use selene::listener::{bind, receive, Client, Counts, MaxConnections, Registry};
use selene::net::{Ip, SocketAddr};
use selene::num::{NonZeroU16, NonZeroU32};
use selene::session::{Event, Session, Task};
use selene::shard::{
    all_clients, round, sample_every, sent, Affinity, Boot, Config, Count, CpuSet, Error, Failure, Joined, Message,
    Placement, Shards, Startup, Stats, Stop,
};
use selene::time::{Duration, Instant};
use selene::watchdog;

fn config(count: Count, pin: Affinity) -> Config {
    Config {
        count,
        pin,
        watchdog: watchdog::Policy::Off,
        drain: Duration::from_secs(1),
    }
}

fn exactly(count: u16) -> Count {
    Count::Exactly(NonZeroU16::new(count).expect("literal"))
}

fn addr(port: u16) -> SocketAddr {
    SocketAddr {
        ip: Ip::V4 {
            octets: [127, 0, 0, 1],
        },
        port,
    }
}

fn listen(port: u16) -> selene::listener::Config {
    selene::listener::Config {
        addr: addr(port),
        backlog: NonZeroU32::new(128).expect("literal"),
        nodelay: true,
        max_connections: MaxConnections::Unlimited,
    }
}

fn refused() -> std::io::Error {
    std::io::Error::from(std::io::ErrorKind::OutOfMemory)
}

type Inbox = flume::Receiver<Message<String>>;

/// A pool of `count` shards without threads: each "thread" is its number, and
/// what the shards are sent can be read from the inboxes.
fn pool(count: u16) -> (Shards<String, u16, char>, Vec<Inbox>) {
    let placement = Placement::plan_on(&config(exactly(count), Affinity::Auto), vec![0, 1])
        .expect("two CPUs");
    let mut startup: Startup<String, u16, char> =
        Startup::begin(config(exactly(count), Affinity::Auto), placement);
    let mut inboxes = Vec::new();
    while let Some(boot) = startup.next() {
        let (jobs, taking) = Jobs::channel();
        assert!(startup.spawned(jobs, Ok(100 + boot.shard.index())).is_ok());
        inboxes.push(taking);
    }
    (startup.into_pool(), inboxes)
}

/// The error of a start that failed, with the pool stopped first.
fn given_up(pool: &mut Shards<String, u16, char>, failure: Failure<String>) -> Error {
    let mut joined = Joined::new();
    while let Stop::Join { shard, .. } = pool.stop() {
        joined.join(shard, false);
    }
    pool.give_up(failure, &joined)
}

/// A pool whose shards were all heard to be listening.
fn listening(count: u16) -> (Shards<String, u16, char>, Vec<Inbox>) {
    let (mut pool, inboxes) = pool(count);
    let (replies, mut starting) = Reply::channel(usize::from(count));
    for reply in replies {
        assert!(reply.report(Ok(())).is_ok());
    }
    assert!(pool.await_listening(&mut starting).is_ok());
    (pool, inboxes)
}

fn run_of(message: Message<String>) -> String {
    match message {
        Message::Run(job) => job,
        Message::Stop => panic!("not a job"),
    }
}

#[test]
fn per_core_claims_one_cpu_per_shard() {
    let placement =
        Placement::plan(&config(Count::PerCore, Affinity::Auto)).expect("this machine has CPUs");
    assert_eq!(placement.claimed().ids().len(), placement.shards_count());
}

#[test]
fn pinning_off_claims_nothing() {
    let placement =
        Placement::plan(&config(Count::PerCore, Affinity::Off)).expect("this machine has CPUs");
    assert!(placement.claimed().ids().is_empty());
    assert_eq!(placement.cpu(0), None);
}

#[test]
fn more_shards_than_cpus_wrap_around_the_cpu_list() {
    let many = NonZeroU16::new(512).expect("literal");
    let placement = Placement::plan(&config(Count::Exactly(many), Affinity::Auto))
        .expect("this machine has CPUs");
    assert_eq!(placement.shards_count(), 512);
    assert_eq!(placement.cpu(0), placement.cpu(placement.cpus().len()));
}

#[test]
fn shard_ids_are_zero_based() {
    let placement =
        Placement::plan(&config(Count::PerCore, Affinity::Auto)).expect("this machine has CPUs");
    assert_eq!(placement.shard(0).expect("in range").index(), 0);
}

#[test]
fn the_cpus_of_this_machine_ascend() {
    let placement =
        Placement::plan(&config(Count::PerCore, Affinity::Off)).expect("this machine has CPUs");
    let cpus = placement.cpus();
    assert_eq!(cpus.len(), placement.shards_count());
    assert!(cpus.windows(2).all(|pair| pair[0] < pair[1]));
}

#[test]
fn a_pool_claims_the_cpus_that_its_shards_run_on() {
    let cpus = vec![3, 5, 9];
    let placement = Placement::plan_on(&config(exactly(2), Affinity::Auto), cpus.clone())
        .expect("three CPUs");
    let claimed: Vec<usize> = placement.claimed().ids().iter().copied().collect();
    assert_eq!(claimed, vec![3, 5]);
    assert!(placement.claimed().contains(5));
    assert!(!placement.claimed().contains(9));
    assert_eq!(placement.cpu(0), Some(3));
    assert_eq!(placement.cpu(1), Some(5));

    let placement =
        Placement::plan_on(&config(exactly(5), Affinity::Auto), cpus).expect("three CPUs");
    let claimed: Vec<usize> = placement.claimed().ids().iter().copied().collect();
    assert_eq!(claimed, vec![3, 5, 9]);
    assert_eq!(placement.cpu(3), Some(3));
    assert_eq!(placement.cpu(4), Some(5));
}

#[test]
fn a_machine_without_cpus_takes_no_shards() {
    let error = Placement::plan_on(&config(Count::PerCore, Affinity::Auto), vec![])
        .expect_err("no CPUs");
    assert!(matches!(error, Error::NoCpus));
}

#[test]
fn a_machine_with_more_cpus_than_shard_indices_is_refused() {
    let error = Placement::plan_on(&config(exactly(1), Affinity::Auto), (0..65_536).collect())
        .expect_err("too many CPUs");
    assert!(matches!(error, Error::TooManyCpus { count: 65_536, .. }));
    let placement =
        Placement::plan_on(&config(Count::PerCore, Affinity::Off), (0..65_535).collect())
            .expect("just enough indices");
    assert_eq!(placement.shards_count(), 65_535);
    assert_eq!(placement.shard(65_534).expect("in range").index(), 65_534);
    assert!(matches!(
        placement.shard(65_536),
        Err(Error::TooManyCpus { count: 65_535, .. })
    ));
}

#[test]
fn cpu_sets_start_empty() {
    let none = CpuSet::default();
    assert!(none.ids().is_empty());
    assert!(!none.contains(0));
    assert_eq!(none.clone(), none);
}

#[test]
fn shards_beat_as_often_as_the_watchdog_samples() {
    assert_eq!(sample_every(&watchdog::Policy::Off), None);
    let on = watchdog::Policy::On {
        stall_after: Duration::from_millis(200),
        sample_every: Duration::from_millis(50),
    };
    assert_eq!(sample_every(&on), Some(Duration::from_millis(50)));
}

#[test]
fn shards_are_started_in_order() {
    let mut two = config(exactly(2), Affinity::Auto);
    two.watchdog = watchdog::Policy::On {
        stall_after: Duration::from_millis(500),
        sample_every: Duration::from_millis(50),
    };
    let placement = Placement::plan_on(&two, vec![7]).expect("one CPU");
    let mut startup: Startup<String, u16, char> = Startup::begin(two, placement);
    assert_eq!(startup.shards_count(), 2);
    for expected in 0..2u16 {
        let boot = startup.next().expect("not all shards were started");
        assert_eq!(boot.shard.index(), expected);
        assert_eq!(boot.cpu, Some(7));
        assert_eq!(boot.beat_every, Some(Duration::from_millis(50)));
        assert_eq!(boot.drain, Duration::from_secs(1));
        let (jobs, _taking) = Jobs::channel();
        assert!(startup.spawned(jobs, Ok(expected)).is_ok());
    }
    assert!(startup.next().is_none());
    let pool = startup.into_pool();
    assert_eq!(pool.shards_count(), 2);
    assert!(pool.affinity().contains(7));
    let indices: Vec<u16> = pool.ids().iter().map(|shard| shard.index()).collect();
    assert_eq!(indices, vec![0, 1]);
}

#[test]
fn a_pool_is_planned_for_this_machine() {
    let startup: Startup<String, u16, char> =
        Shards::start(&config(exactly(3), Affinity::Off)).expect("this machine has CPUs");
    assert_eq!(startup.shards_count(), 3);
    let boot = startup.next().expect("nothing was started");
    assert_eq!(boot.shard.index(), 0);
    assert_eq!(boot.cpu, None);
    assert_eq!(boot.beat_every, None);
}

#[test]
fn a_thread_that_cannot_be_spawned_names_its_shard_and_leaves_the_others_to_stop() {
    let placement = Placement::plan_on(&config(exactly(3), Affinity::Off), vec![0]).expect("a CPU");
    let mut startup: Startup<String, u16, char> =
        Startup::begin(config(exactly(3), Affinity::Off), placement);
    let (jobs, _first) = Jobs::channel();
    assert!(startup.spawned(jobs, Ok(10)).is_ok());
    let (jobs, _second) = Jobs::channel();
    let failure = startup.spawned(jobs, Err(refused())).expect_err("refused");
    let mut pool = startup.into_pool();
    let mut joined = Joined::new();
    match pool.stop() {
        Stop::Join { shard, thread, .. } => {
            assert_eq!(thread, 10);
            joined.join(shard, false);
        }
        other => panic!("unexpected step: {other:?}"),
    }
    assert!(matches!(pool.stop(), Stop::Stopped));
    let error = pool.give_up(failure, &joined);
    assert!(matches!(error, Error::SpawnThread { shard, .. } if shard.index() == 1));
}

#[test]
fn a_job_goes_to_every_shard() {
    let (mut pool, inboxes) = pool(3);
    pool.spawn_on_all(|| "warm".to_owned()).expect("all shards are there");
    for inbox in &inboxes {
        assert_eq!(run_of(inbox.try_recv().expect("a job")), "warm");
        assert!(inbox.try_recv().is_err());
    }
}

#[test]
fn sending_stops_at_the_first_shard_that_is_gone() {
    let (mut pool, mut inboxes) = pool(3);
    drop(inboxes.remove(1));
    let error = pool
        .spawn_on_all(|| "warm".to_owned())
        .expect_err("a shard is gone");
    assert!(matches!(error, Error::ShardGone { shard } if shard.index() == 1));
    assert!(inboxes[0].try_recv().is_ok());
    assert!(inboxes[1].try_recv().is_err());

    let error = pool
        .gather(|_reply: Reply<u8>| "count".to_owned())
        .expect_err("a shard is gone");
    assert!(matches!(error, Error::ShardGone { shard } if shard.index() == 1));
}

#[test]
fn every_shard_is_asked_and_every_reply_is_gathered() {
    let (mut pool, inboxes) = pool(2);
    let replies = std::cell::RefCell::new(Vec::new());
    let mut gathering = pool
        .stats(|reply| {
            replies.borrow_mut().push(reply);
            "stats".to_owned()
        })
        .expect("all shards are there");
    for inbox in &inboxes {
        assert_eq!(run_of(inbox.try_recv().expect("a question")), "stats");
        assert!(inbox.try_recv().is_err());
    }
    for (shard, reply) in pool.ids().into_iter().zip(replies.into_inner()) {
        assert!(!gathering.is_complete());
        let registry = Registry::new();
        assert!(reply.report(Stats::read(shard, &registry)).is_ok());
        let came = gathering.replies().recv();
        gathering.receive(came).expect("a reply");
    }
    assert!(gathering.is_complete());
    let stats = gathering.finish();
    assert_eq!(stats.len(), 2);
    for (index, shard) in stats.iter().enumerate() {
        assert_eq!(usize::from(shard.shard.index()), index);
        assert_eq!(
            shard.connections,
            Counts {
                open_count: 0,
                accepted_count: 0,
                rejected_count: 0,
            }
        );
    }
}

#[test]
fn a_shard_that_dies_before_it_replies_fails_the_gathering() {
    let (mut pool, _inboxes) = pool(2);
    // The jobs drop their replies unanswered.
    let mut gathering = pool
        .broadcast(|_reply| "flush".to_owned())
        .expect("all shards are there");
    let came = gathering.replies().recv();
    assert!(matches!(
        gathering.receive(came),
        Err(Error::Gather(flume::RecvError::Disconnected))
    ));
    assert!(!gathering.is_complete());
}

#[test]
fn answers_come_in_the_order_in_which_they_are_given() {
    let (mut replies, mut waiting) = Reply::channel(2);
    assert!(replies.pop().expect("two replies").report('a').is_ok());
    assert!(replies.pop().expect("two replies").report('b').is_ok());
    assert!(replies.is_empty());
    assert_eq!(waiting.recv(), Ok('a'));
    let waiting = waiting.into_receiver();
    assert_eq!(waiting.recv(), Ok('b'));
    assert_eq!(waiting.recv(), Err(flume::RecvError::Disconnected));
}

#[test]
fn a_message_to_a_shard_that_is_gone_comes_back() {
    let (mut jobs, taking) = Jobs::channel();
    assert_eq!(jobs.send('a'), Ok(()));
    assert_eq!(taking.recv(), Ok('a'));
    drop(taking);
    assert_eq!(jobs.send('b'), Err('b'));
}

#[test]
fn a_reply_that_nobody_waits_for_is_not_delivered() {
    let (mut replies, waiting): (Vec<Reply<u8>>, Replies<u8>) = Reply::channel(1);
    drop(waiting);
    let reply = replies.pop().expect("one reply");
    assert_eq!(reply.report(7u8), Err(7));
}

#[test]
fn clients_of_all_shards_make_one_list() {
    let (pool, _inboxes) = pool(2);
    let now = Instant::after_origin(Duration::from_secs(1));
    let mut per_shard = Vec::new();
    for (shard, ports) in pool.ids().into_iter().zip([vec![1, 2], vec![3]]) {
        let mut registry = Registry::new();
        let mut foreground = Foreground::new();
        for port in ports {
            receive(&mut registry, &mut foreground, &listen(7000), addr(port), now);
        }
        per_shard.push(selene::listener::clients(&registry, shard, now));
    }
    let all: Vec<Client> = all_clients(per_shard);
    let listed: Vec<(u16, u16)> = all
        .iter()
        .map(|client| (client.shard.index(), client.peer.port))
        .collect();
    assert_eq!(listed, vec![(0, 1), (0, 2), (1, 3)]);
    assert_eq!(all_clients(vec![]), vec![]);
}

#[test]
fn a_pool_is_up_when_every_shard_is_listening() {
    let (pool, _inboxes) = listening(2);
    assert_eq!(pool.shards_count(), 2);
}

#[test]
fn a_pool_fails_with_the_first_failure() {
    let (mut pool, _inboxes) = pool(3);
    let ids = pool.ids();
    let (mut replies, mut starting) = Reply::channel(3);
    let first = replies.pop().expect("three replies");
    let second = replies.pop().expect("three replies");
    assert!(first.report(Ok(())).is_ok());
    assert!(second
        .report(Err(Error::BuildRuntime {
            shard: ids[2],
            source: refused(),
        }))
        .is_ok());
    let failure = pool.await_listening(&mut starting).expect_err("a shard failed");
    let error = given_up(&mut pool, failure);
    assert!(matches!(error, Error::BuildRuntime { shard, .. } if shard.index() == 2));
}

#[test]
fn a_pool_whose_shards_all_fall_silent_fails() {
    let (mut pool, _inboxes) = pool(2);
    let (mut replies, mut starting) = Reply::channel(2);
    assert!(replies.pop().expect("two replies").report(Ok(())).is_ok());
    drop(replies);
    let failure = pool.await_listening(&mut starting).expect_err("nobody is left");
    let error = given_up(&mut pool, failure);
    assert!(matches!(error, Error::ShardGone { shard } if shard.index() == 0));
}

#[test]
fn an_ephemeral_port_is_rejected_because_reuseport_would_not_group_the_shards() {
    let listen = listen(0);
    let (mut pool, _inboxes) = pool(2);
    let (mut replies, mut starting) = Reply::channel(2);
    for shard in pool.ids() {
        let mut session = Session::begin(&Boot {
            shard,
            cpu: None,
            beat_every: None,
            drain: Duration::from_secs(2),
        });
        let task: Task<String> = session.step(Event::RuntimeBuilt);
        assert!(matches!(task, Task::OpenListener));
        let source = bind(&listen).expect_err("port 0 must not start");
        let task: Task<String> = session.step(Event::BindFailed(source));
        match task {
            Task::Fail(error) => {
                assert!(replies.pop().expect("a reply").report(Err(error)).is_ok());
            }
            other => panic!("unexpected task: {other:?}"),
        }
    }
    let failure = pool
        .await_listening(&mut starting)
        .expect_err("port 0 must not start");
    let error = given_up(&mut pool, failure);
    assert!(
        matches!(
            error,
            Error::Bind {
                source: selene::listener::Error::EphemeralPort { .. },
                ..
            }
        ),
        "unexpected error: {error:?}",
    );
}

#[test]
fn stopping_tells_every_shard_and_joins_each_once() {
    let (mut pool, inboxes) = listening(3);
    assert!(pool.watch(Ok(Some('w'))).is_ok());
    let mut joined = Joined::new();
    for expected in 0..3u16 {
        match pool.stop() {
            Stop::Join { shard, thread, told } => {
                assert!(told.is_ok());
                assert_eq!(shard.index(), expected);
                assert_eq!(thread, 100 + expected);
                let inbox = &inboxes[usize::from(expected)];
                assert!(matches!(inbox.try_recv(), Ok(Message::Stop)));
                joined.join(shard, false);
            }
            other => panic!("unexpected step: {other:?}"),
        }
    }
    assert!(matches!(pool.stop(), Stop::StopWatchdog('w')));
    assert!(matches!(pool.stop(), Stop::Stopped));
    assert!(matches!(pool.stop(), Stop::Stopped));
    assert!(pool.shutdown(joined).is_ok());
}

#[test]
fn a_shard_that_is_gone_is_joined_all_the_same() {
    let (mut pool, inboxes) = pool(1);
    drop(inboxes);
    assert!(matches!(
        pool.stop(),
        Stop::Join {
            thread: 100,
            told: Err(Error::ShardGone { .. }),
            ..
        }
    ));
    assert!(matches!(pool.stop(), Stop::Stopped));
}

#[test]
fn shutdown_reports_the_first_shard_that_panicked() {
    let (mut pool, _inboxes) = pool(4);
    let mut joined = Joined::new();
    while let Stop::Join { shard, .. } = pool.stop() {
        joined.join(shard, shard.index() == 1 || shard.index() == 3);
    }
    let error = pool.shutdown(joined).expect_err("two shards panicked");
    assert!(matches!(error, Error::Panicked { shard } if shard.index() == 1));
}

#[test]
fn a_watchdog_that_does_not_start_fails_the_pool() {
    let (mut pool, _inboxes) = listening(1);
    assert!(pool.watch(Ok(None)).is_ok());
    let coarse = watchdog::Error::SampleTooCoarse {
        stall_after: Duration::from_millis(1),
        sample_every: Duration::from_millis(2),
    };
    let failure = pool.watch(Err(coarse)).expect_err("too coarse");
    assert!(matches!(
        given_up(&mut pool, failure),
        Error::Watchdog(watchdog::Error::SampleTooCoarse { .. })
    ));
}

#[test]
fn a_round_fails_with_its_first_failure() {
    let (pool, _inboxes) = pool(3);
    let ids = pool.ids();
    assert!(round(vec![]).is_ok());
    assert!(round(vec![Ok(()), Ok(())]).is_ok());
    let outcomes = vec![
        sent::<u8>(ids[0], Ok(())),
        sent(ids[1], Err(7)),
        sent(ids[2], Err(8)),
    ];
    assert!(matches!(
        round(outcomes),
        Err(Error::ShardGone { shard }) if shard.index() == 1
    ));
}
