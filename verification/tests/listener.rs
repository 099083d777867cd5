use selene::budget::Foreground;
use selene::listener::{
    bind, clients, counts, decide, drain, receive, Accepting, Admission, Config, Counts, Drain,
    Error, MaxConnections, Outcome, Received, Registered, Registry, Retry, Step, ACCEPT_ERRORS_MAX,
};
use selene::net::{Ip, SocketAddr};
use selene::num::{NonZeroU16, NonZeroU32, NonZeroUsize};
use selene::shard::{Affinity, Count, Placement, ShardId};
use selene::time::{Duration, Instant};
use selene::watchdog;

const FULL: &[u8] = b"-ERR max number of clients reached\r\n";

fn addr(port: u16) -> SocketAddr {
    SocketAddr {
        ip: Ip::V4 {
            octets: [127, 0, 0, 1],
        },
        port,
    }
}

fn config(port: u16, max_connections: MaxConnections) -> Config {
    Config {
        addr: addr(port),
        backlog: NonZeroU32::new(128).expect("literal"),
        nodelay: true,
        max_connections,
    }
}

fn at_millis(millis: u64) -> Instant {
    Instant::after_origin(Duration::from_millis(millis))
}

fn shard(index: usize) -> ShardId {
    let config = selene::shard::Config {
        count: Count::Exactly(NonZeroU16::new(8).expect("literal")),
        pin: Affinity::Off,
        watchdog: watchdog::Policy::Off,
        drain: Duration::from_secs(1),
    };
    Placement::plan_on(&config, vec![0])
        .expect("one CPU is enough")
        .shard(index)
        .expect("in range")
}

/// Register a connection with a shard that has no limit.
fn open(registry: &mut Registry, port: u16, millis: u64) -> Registered {
    let config = config(9000, MaxConnections::Unlimited);
    let mut foreground = Foreground::new();
    served(receive(registry, &mut foreground, &config, addr(port), at_millis(millis)))
}

fn served(received: Received) -> Registered {
    match received {
        Received::Serve(registered) => registered,
        other => panic!("not served: {other:?}"),
    }
}

fn refused() -> std::io::Error {
    std::io::Error::from(std::io::ErrorKind::AddrInUse)
}

#[test]
fn unlimited_always_serves() {
    let decision = decide(&MaxConnections::Unlimited, usize::MAX);
    assert_eq!(decision, Admission::Serve);
}

#[test]
fn close_applies_at_the_limit_not_after_it() {
    let two = NonZeroUsize::new(2).expect("literal");
    let max_connections = MaxConnections::Close(two);
    assert_eq!(decide(&max_connections, 1), Admission::Serve);
    assert_eq!(decide(&max_connections, 2), Admission::Close);
}

#[test]
fn reply_carries_the_message_once_full() {
    let one = NonZeroUsize::new(1).expect("literal");
    let max_connections = MaxConnections::Reply {
        count: one,
        message: b"-ERR max number of clients reached\r\n",
    };
    assert_eq!(decide(&max_connections, 0), Admission::Serve);
    assert_eq!(
        decide(&max_connections, 1),
        Admission::Reply(b"-ERR max number of clients reached\r\n")
    );
}

#[test]
fn a_full_shard_counts_what_it_turns_away() {
    let limit = MaxConnections::Reply {
        count: NonZeroUsize::new(1).expect("literal"),
        message: FULL,
    };
    let config = config(9000, limit);
    let mut registry = Registry::new();
    let mut foreground = Foreground::new();

    let first = served(receive(
        &mut registry,
        &mut foreground,
        &config,
        addr(40_000),
        at_millis(3),
    ));
    let served_at = foreground;

    assert!(matches!(
        receive(&mut registry, &mut foreground, &config, addr(40_001), at_millis(4)),
        Received::Reply(message) if message == FULL
    ));
    // Turning a connection away is not foreground work.
    assert_eq!(foreground, served_at);
    let full = counts(&registry);
    assert_eq!(full.open_count, 1);
    assert_eq!(full.accepted_count, 1);
    assert_eq!(full.rejected_count, 1);

    first.close(&mut registry);
    assert!(matches!(
        receive(&mut registry, &mut foreground, &config, addr(40_002), at_millis(5)),
        Received::Serve(_)
    ));
    assert!(foreground != served_at);
}

#[test]
fn a_shard_that_closes_silently_counts_too() {
    let config = config(
        9000,
        MaxConnections::Close(NonZeroUsize::new(1).expect("literal")),
    );
    let mut registry = Registry::new();
    let mut foreground = Foreground::new();
    // Two in a row, with nothing in between: the place is taken at once.
    let _first = served(receive(
        &mut registry,
        &mut foreground,
        &config,
        addr(40_000),
        at_millis(1),
    ));
    let served_at = foreground;
    assert!(matches!(
        receive(&mut registry, &mut foreground, &config, addr(40_001), at_millis(2)),
        Received::Close
    ));
    assert_eq!(counts(&registry).rejected_count, 1);
    assert_eq!(foreground, served_at);
}

#[test]
fn connections_leave_the_registry_when_they_close() {
    let mut registry = Registry::new();
    let one = open(&mut registry, 1, 10);
    let two = open(&mut registry, 2, 20);
    let three = open(&mut registry, 3, 30);
    assert_eq!(registry.open_count(), 3);

    two.close(&mut registry);
    let listed = clients(&registry, shard(4), at_millis(130));
    assert_eq!(listed.len(), 2);
    for client in &listed {
        assert_eq!(client.shard.index(), 4);
    }
    let mut ports: Vec<u16> = listed.iter().map(|client| client.peer.port).collect();
    ports.sort_unstable();
    assert_eq!(ports, vec![1, 3]);
    for client in &listed {
        let expected = if client.peer.port == 1 { 120 } else { 100 };
        assert_eq!(client.connected_for, Duration::from_millis(expected));
    }

    // The slot is used again, and what is open is not confused.
    let four = open(&mut registry, 4, 40);
    one.close(&mut registry);
    three.close(&mut registry);
    let listed = clients(&registry, shard(0), at_millis(40));
    assert_eq!(listed.len(), 1);
    assert_eq!(listed[0].peer, addr(4));
    assert_eq!(listed[0].connected_for, Duration::zero());

    four.close(&mut registry);
    assert_eq!(clients(&registry, shard(0), at_millis(50)), vec![]);
    let empty = counts(&registry);
    assert_eq!(empty.open_count, 0);
    assert_eq!(empty.accepted_count, 4);
}

#[test]
fn clients_are_listed_in_the_order_of_their_slots() {
    let mut registry = Registry::new();
    let mut registered = Vec::new();
    for port in 1..=5u16 {
        registered.push(open(&mut registry, port, 0));
    }
    let ports: Vec<u16> = clients(&registry, shard(0), at_millis(0))
        .iter()
        .map(|client| client.peer.port)
        .collect();
    assert_eq!(ports, vec![1, 2, 3, 4, 5]);
}

#[test]
fn a_zero_port_is_refused_before_any_socket_is_made() {
    let error = bind(&config(0, MaxConnections::Unlimited)).expect_err("port 0 must not bind");
    assert!(matches!(error, Error::EphemeralPort { addr } if addr.port == 0));
}

#[test]
fn a_backlog_that_listen_cannot_take_is_refused() {
    let mut large = config(9000, MaxConnections::Unlimited);
    large.backlog = NonZeroU32::new(0x8000_0000).expect("literal");
    let error = bind(&large).expect_err("the backlog does not fit");
    assert!(matches!(error, Error::Backlog { backlog, .. } if backlog.get() == 0x8000_0000));

    large.backlog = NonZeroU32::new(0x7fff_ffff).expect("literal");
    let opening = bind(&large).expect("the backlog fits");
    assert_eq!(opening.listen_backlog(), i32::MAX);
}

#[test]
fn a_listener_is_opened_step_by_step() {
    let mut opening = bind(&config(9000, MaxConnections::Unlimited)).expect("valid");
    assert_eq!(opening.bind_addr(), addr(9000));
    assert_eq!(opening.listen_backlog(), 128);
    let mut steps = Vec::new();
    while opening.next_step() != Step::Listening {
        steps.push(opening.next_step());
        opening = opening.advance(Outcome::Done).expect("the step was done");
    }
    assert_eq!(
        steps,
        vec![
            Step::CreateSocket,
            Step::ReuseAddress,
            Step::ReusePort,
            Step::Bind,
            Step::Listen,
            Step::Register,
        ]
    );
}

#[test]
fn each_step_fails_with_its_own_error() {
    let mut errors = Vec::new();
    for failing in 0..6 {
        let mut opening = bind(&config(9000, MaxConnections::Unlimited)).expect("valid");
        for _ in 0..failing {
            opening = opening.advance(Outcome::Done).expect("the step was done");
        }
        errors.push(
            opening
                .advance(Outcome::Failed(refused()))
                .expect_err("the step failed"),
        );
    }
    assert!(matches!(errors[0], Error::CreateSocket(_)));
    assert!(matches!(errors[1], Error::SetReuseAddress(_)));
    assert!(matches!(errors[2], Error::SetReusePort(_)));
    assert!(matches!(errors[3], Error::Bind { addr, .. } if addr.port == 9000));
    assert!(matches!(errors[4], Error::Listen { addr, .. } if addr.port == 9000));
    assert!(matches!(errors[5], Error::Register(_)));
}

#[test]
fn a_platform_without_reuseport_cannot_share_a_port() {
    let mut opening = bind(&config(9000, MaxConnections::Unlimited)).expect("valid");
    while opening.next_step() != Step::ReusePort {
        opening = opening.advance(Outcome::Done).expect("the step was done");
    }
    let error = opening
        .advance(Outcome::Unsupported)
        .expect_err("no SO_REUSEPORT");
    assert!(matches!(error, Error::ReusePortUnsupported));
}

#[test]
fn accept_gives_up_on_failures_in_a_row_only() {
    let mut accepting = Accepting::new();
    for _ in 1..ACCEPT_ERRORS_MAX {
        assert_eq!(accepting.failed(), Retry::Again);
    }
    assert_eq!(accepting.errors_count(), 15);
    accepting.accepted();
    assert_eq!(accepting.errors_count(), 0);
    for _ in 1..16 {
        assert_eq!(accepting.failed(), Retry::Again);
    }
    assert_eq!(accepting.failed(), Retry::GiveUp);
}

#[test]
fn a_drain_ends_when_nothing_is_open_or_the_deadline_passes() {
    let draining = drain(Duration::from_secs(2), at_millis(500));
    assert_eq!(draining.check(3, at_millis(500)), Drain::Wait(Duration::from_millis(10)));
    assert_eq!(draining.check(1, at_millis(2499)), Drain::Wait(Duration::from_millis(10)));
    assert_eq!(draining.check(1, at_millis(2500)), Drain::Stop(1));
    assert_eq!(draining.check(0, at_millis(600)), Drain::Stop(0));
    assert_eq!(draining.check(0, at_millis(9000)), Drain::Stop(0));
}

#[test]
fn the_limit_is_per_shard() {
    let two = MaxConnections::Close(NonZeroUsize::new(2).expect("literal"));
    let config = config(7000, two);
    let mut registries = [Registry::new(), Registry::new(), Registry::new()];
    for registry in &mut registries {
        let mut foreground = Foreground::new();
        for port in 1..=5 {
            let received = receive(registry, &mut foreground, &config, addr(port), at_millis(1));
            assert_eq!(matches!(received, Received::Serve(_)), port <= 2);
        }
        assert_eq!(
            counts(registry),
            Counts {
                open_count: 2,
                accepted_count: 2,
                rejected_count: 3,
            }
        );
    }
    let open_in_all: usize = registries.iter().map(Registry::open_count).sum();
    assert_eq!(open_in_all, 3 * 2);
}
