//! The per-shard listener: every shard opens its own `SO_REUSEPORT` socket, so
//! the kernel distributes connections and each one is born on the shard that
//! will serve it. Nothing migrates, so there is no migration protocol.
//!
//! This module decides what a listener does, step by step, and keeps the
//! connection registry. The sockets and the tasks belong to the caller, which
//! performs each step and hands its outcome back. A registry belongs to one
//! shard, which walks it on its own thread.

use crate::budget::{mark_foreground, Foreground};
use crate::net::SocketAddr;
use crate::num::{NonZeroU32, NonZeroUsize};
use crate::shard::ShardId;
use crate::time::{span, Duration, Instant, NANOS_MAX};
use vstd::prelude::*;

verus! {

/// Listening socket configuration. Every shard binds this same address.
#[derive(Debug, Clone, Copy)]
pub struct Config {
    /// The port must be concrete: under `SO_REUSEPORT` a zero port would hand
    /// every shard a *different* kernel-assigned port instead of one listener
    /// group, so [`bind`] rejects it.
    pub addr: SocketAddr,
    pub backlog: NonZeroU32,
    /// Applied to each accepted connection rather than the listener, because
    /// listener inheritance of `TCP_NODELAY` is not portable.
    pub nodelay: bool,
    pub max_connections: MaxConnections,
}

/// What a shard does once it is already holding its share of connections.
///
/// The limit is per shard, not per process: with `n` shards the process admits
/// `n` times this count.
#[derive(Debug, Clone, Copy)]
pub enum MaxConnections {
    Unlimited,
    /// Close the socket without writing anything.
    Close(NonZeroUsize),
    /// Write `message`, then close.
    Reply { count: NonZeroUsize, message: &'static [u8] },
}

/// Per-shard connection counters.
#[derive(Debug, Clone, Copy, PartialEq, Eq)]
pub struct Counts {
    pub open_count: usize,
    pub accepted_count: u64,
    pub rejected_count: u64,
}

/// One entry of a shard's connection registry.
#[derive(Debug, Clone, Copy, PartialEq, Eq)]
pub struct Client {
    pub shard: ShardId,
    pub peer: SocketAddr,
    pub connected_for: Duration,
}

#[allow(inconsistent_fields)]
#[derive(Debug)]
pub enum Error {
    /// A listening address must name a concrete port under `SO_REUSEPORT`.
    EphemeralPort { addr: SocketAddr },
    CreateSocket(std::io::Error),
    SetReuseAddress(std::io::Error),
    SetReusePort(std::io::Error),
    /// This platform has no `SO_REUSEPORT`, so shards cannot share a port.
    ReusePortUnsupported,
    /// The backlog does not fit the platform's `listen(2)` argument.
    Backlog { backlog: NonZeroU32, source: std::num::TryFromIntError },
    Bind { addr: SocketAddr, source: std::io::Error },
    Listen { addr: SocketAddr, source: std::io::Error },
    /// The listener could not be registered with the shard runtime.
    Register(std::io::Error),
}

/// Consecutive `accept` failures after which a shard gives the listener up. A
/// listener that cannot accept is a broken invariant, not a transient peer
/// fault, so the shard surfaces it instead of spinning.
pub const ACCEPT_ERRORS_MAX: u32 = 16;

/// How often a drain rechecks the registry while waiting for connections to
/// close, in milliseconds.
pub const DRAIN_POLL_MILLIS: u64 = 10;

/// How many connections a registry has room for at least: storage that doubles
/// as it grows may not take up more than half of the address space.
pub const OPEN_MAX: usize = usize::MAX / 512;

/// What is done next to open one shard's listener.
#[derive(Debug, Clone, Copy, PartialEq, Eq)]
pub enum Step {
    CreateSocket,
    /// Enable `SO_REUSEADDR`.
    ReuseAddress,
    /// Enable `SO_REUSEPORT`.
    ReusePort,
    Bind,
    Listen,
    /// Register with the shard's runtime.
    Register,
    /// Nothing: the listener is open.
    Listening,
}

/// What became of one step.
#[derive(Debug)]
pub enum Outcome {
    Done,
    Failed(std::io::Error),
    /// The platform does not know the step.
    Unsupported,
}

/// One shard's listener while it is being opened.
#[derive(Debug)]
pub struct Opening {
    addr: SocketAddr,
    backlog: i32,
    step: Step,
}

/// The step that follows a step that was done.
pub open spec fn following(step: Step) -> Step {
    match step {
        Step::CreateSocket => Step::ReuseAddress,
        Step::ReuseAddress => Step::ReusePort,
        Step::ReusePort => Step::Bind,
        Step::Bind => Step::Listen,
        Step::Listen => Step::Register,
        Step::Register => Step::Listening,
        Step::Listening => Step::Listening,
    }
}

/// The error of a step that failed.
pub open spec fn failure(step: Step, addr: SocketAddr, source: std::io::Error) -> Error {
    match step {
        Step::CreateSocket => Error::CreateSocket(source),
        Step::ReuseAddress => Error::SetReuseAddress(source),
        Step::ReusePort => Error::SetReusePort(source),
        Step::Bind => Error::Bind { addr, source },
        Step::Listen => Error::Listen { addr, source },
        Step::Register => Error::Register(source),
        Step::Listening => Error::Register(source),
    }
}

/// Begin to open one shard's listener.
pub fn bind(config: &Config) -> (opening: Result<Opening, Error>)
    ensures
        config.addr.port == 0 ==> opening == Err::<Opening, Error>(
            Error::EphemeralPort { addr: config.addr },
        ),
        config.addr.port != 0 && config.backlog@ > i32::MAX ==> {
            &&& opening matches Err(Error::Backlog { backlog, .. })
            &&& backlog == config.backlog
        },
        config.addr.port != 0 && config.backlog@ <= i32::MAX ==> {
            &&& opening matches Ok(opened)
            &&& opened.step() == Step::CreateSocket
            &&& opened.addr() == config.addr
            &&& opened.backlog() == config.backlog@
        },
{
    if config.addr.port == 0 {
        return Err(Error::EphemeralPort { addr: config.addr });
    }
    match i32::try_from(u64::from(config.backlog.get())) {
        Ok(backlog) => Ok(Opening { addr: config.addr, backlog, step: Step::CreateSocket }),
        Err(source) => Err(Error::Backlog { backlog: config.backlog, source }),
    }
}

impl Opening {
    pub closed spec fn step(&self) -> Step {
        self.step
    }

    pub closed spec fn addr(&self) -> SocketAddr {
        self.addr
    }

    pub closed spec fn backlog(&self) -> i32 {
        self.backlog
    }

    /// The step to take now.
    pub fn next_step(&self) -> (step: Step)
        ensures
            step == self.step(),
    {
        self.step
    }

    /// The address to bind.
    pub fn bind_addr(&self) -> (addr: SocketAddr)
        ensures
            addr == self.addr(),
    {
        self.addr
    }

    /// The backlog to listen with.
    pub fn listen_backlog(&self) -> (backlog: i32)
        ensures
            backlog == self.backlog(),
    {
        self.backlog
    }

    /// Go on from what became of the current step: to the next one, or to the
    /// error that this step failed with.
    pub fn advance(self, outcome: Outcome) -> (opening: Result<Opening, Error>)
        requires
            !(self.step() is Listening),
            outcome is Unsupported ==> self.step() is ReusePort,
        ensures
            match outcome {
                Outcome::Done => {
                    &&& opening matches Ok(after)
                    &&& after.step() == following(self.step())
                    &&& after.addr() == self.addr()
                    &&& after.backlog() == self.backlog()
                },
                Outcome::Failed(source) => opening == Err::<Opening, Error>(
                    failure(self.step(), self.addr(), source),
                ),
                Outcome::Unsupported => opening == Err::<Opening, Error>(
                    Error::ReusePortUnsupported,
                ),
            },
    {
        match outcome {
            Outcome::Done => {
                let step = match self.step {
                    Step::CreateSocket => Step::ReuseAddress,
                    Step::ReuseAddress => Step::ReusePort,
                    Step::ReusePort => Step::Bind,
                    Step::Bind => Step::Listen,
                    Step::Listen => Step::Register,
                    Step::Register => Step::Listening,
                    Step::Listening => Step::Listening,
                };
                Ok(Opening { addr: self.addr, backlog: self.backlog, step })
            },
            Outcome::Failed(source) => Err(
                match self.step {
                    Step::CreateSocket => Error::CreateSocket(source),
                    Step::ReuseAddress => Error::SetReuseAddress(source),
                    Step::ReusePort => Error::SetReusePort(source),
                    Step::Bind => Error::Bind { addr: self.addr, source },
                    Step::Listen => Error::Listen { addr: self.addr, source },
                    Step::Register => Error::Register(source),
                    Step::Listening => Error::Register(source),
                },
            ),
            Outcome::Unsupported => Err(Error::ReusePortUnsupported),
        }
    }
}

/// The step that is taken after `done` steps were done.
pub open spec fn step_after(done: nat) -> Step
    decreases done,
{
    if done == 0 {
        Step::CreateSocket
    } else {
        following(step_after((done - 1) as nat))
    }
}

/// A listener is open after six steps and no earlier, and by the time its
/// socket is bound the port has been made shareable: otherwise the shards
/// could not bind one port together.
pub proof fn law_the_port_is_shared_before_it_is_bound(done: nat)
    ensures
        step_after(done) is Listening <==> done >= 6,
        step_after(done) is Bind ==> exists|earlier: nat|
            earlier < done && #[trigger] step_after(earlier) is ReusePort,
    decreases done,
{
    reveal_with_fuel(step_after, 7);
    if done > 6 {
        law_the_port_is_shared_before_it_is_bound((done - 1) as nat);
    }
    assert(step_after(2) is ReusePort);
}

/// What the accept loop does next.
#[derive(Debug, Clone, Copy, PartialEq, Eq)]
pub enum Retry {
    /// A transient peer fault: accept again.
    Again,
    /// Give the listener up, with the error of the last failure.
    GiveUp,
}

/// The accept loop's memory: how many times in a row `accept` has failed. Its
/// view is what became of every `accept` so far, in order, each of which either
/// accepted a connection (`true`) or failed.
pub struct Accepting {
    errors_count: u32,
    accepts: Ghost<Seq<bool>>,
}

impl View for Accepting {
    type V = Seq<bool>;

    closed spec fn view(&self) -> Seq<bool> {
        self.accepts@
    }
}

impl Accepting {
    #[verifier::type_invariant]
    spec fn counts_errors(self) -> bool {
        self.errors_count == errors_after(self.accepts@)
    }

    pub fn new() -> (accepting: Accepting)
        ensures
            accepting@ == Seq::<bool>::empty(),
    {
        Accepting { errors_count: 0, accepts: Ghost(Seq::empty()) }
    }

    /// How many times in a row `accept` has failed.
    pub fn errors_count(&self) -> (count: u32)
        ensures
            count == errors_after(self@),
    {
        proof {
            use_type_invariant(self);
        }
        self.errors_count
    }

    /// A connection was accepted.
    pub fn accepted(&mut self)
        ensures
            final(self)@ == old(self)@.push(true),
    {
        *self = Accepting { errors_count: 0, accepts: Ghost(self.accepts@.push(true)) };
    }

    /// An `accept` failed.
    pub fn failed(&mut self) -> (retry: Retry)
        requires
            errors_after(old(self)@) < ACCEPT_ERRORS_MAX,
        ensures
            final(self)@ == old(self)@.push(false),
            retry is GiveUp <==> errors_after(final(self)@) >= ACCEPT_ERRORS_MAX,
    {
        proof {
            use_type_invariant(&*self);
            assert(self.accepts@.push(false).drop_last() =~= self.accepts@);
        }
        let errors_count: u32 = self.errors_count + 1;
        *self = Accepting { errors_count, accepts: Ghost(self.accepts@.push(false)) };
        if errors_count >= ACCEPT_ERRORS_MAX {
            Retry::GiveUp
        } else {
            Retry::Again
        }
    }
}

/// The accept loop's count after a run of `accept` calls, each of which either
/// accepted a connection (`true`) or failed.
pub open spec fn errors_after(accepts: Seq<bool>) -> nat
    decreases accepts.len(),
{
    if accepts.len() == 0 || accepts.last() {
        0
    } else {
        errors_after(accepts.drop_last()) + 1
    }
}

/// The accept loop gives up on failures in a row and on nothing else: its
/// count reaches `count` exactly when the last `count` calls all failed.
pub proof fn law_only_failures_in_a_row_count(accepts: Seq<bool>, count: nat)
    ensures
        errors_after(accepts) >= count <==> {
            &&& accepts.len() >= count
            &&& forall|i: int| accepts.len() - count <= i < accepts.len() ==> !accepts[i]
        },
    decreases accepts.len(),
{
    if count > 0 && accepts.len() > 0 {
        let before = accepts.drop_last();
        law_only_failures_in_a_row_count(before, (count - 1) as nat);
        if accepts.last() {
            assert(accepts[accepts.len() - 1]);
        } else if before.len() >= count - 1 {
            if forall|i: int|
                accepts.len() - count <= i < accepts.len() ==> !#[trigger] accepts[i] {
                assert forall|i: int| before.len() - (count - 1) <= i < before.len() implies !(
                #[trigger] before[i]) by {
                    assert(before[i] == accepts[i]);
                }
            }
            if forall|i: int| before.len() - (count - 1) <= i < before.len() ==> !#[trigger] before[i] {
                assert forall|i: int| accepts.len() - count <= i < accepts.len() implies !(
                #[trigger] accepts[i]) by {
                    if i < before.len() {
                        assert(before[i] == accepts[i]);
                    }
                }
            }
        }
    }
}

/// What the shard does with one accepted connection.
#[derive(Debug, Clone, Copy, PartialEq, Eq)]
pub enum Admission {
    Serve,
    Close,
    Reply(&'static [u8]),
}

/// Whether a shard that holds `open_count` connections is at its limit.
pub open spec fn at_limit(max_connections: MaxConnections, open_count: nat) -> bool {
    match max_connections {
        MaxConnections::Unlimited => false,
        MaxConnections::Close(count) => open_count >= count@,
        MaxConnections::Reply { count, .. } => open_count >= count@,
    }
}

/// What a shard that holds `open_count` connections does with one more.
pub open spec fn admission(max_connections: MaxConnections, open_count: nat) -> Admission {
    if !at_limit(max_connections, open_count) {
        Admission::Serve
    } else {
        match max_connections {
            MaxConnections::Reply { message, .. } => Admission::Reply(message),
            _ => Admission::Close,
        }
    }
}

/// Whether a shard that holds `open_count` connections holds no more than its
/// limit.
pub open spec fn within_limit(max_connections: MaxConnections, open_count: nat) -> bool {
    match max_connections {
        MaxConnections::Unlimited => true,
        MaxConnections::Close(count) => open_count <= count@,
        MaxConnections::Reply { count, .. } => open_count <= count@,
    }
}

/// Decide what to do with one more connection.
pub fn decide(max_connections: &MaxConnections, open_count: usize) -> (decision: Admission)
    ensures
        decision == admission(*max_connections, open_count as nat),
{
    match *max_connections {
        MaxConnections::Unlimited => Admission::Serve,
        MaxConnections::Close(count) => {
            if open_count >= count.get() {
                Admission::Close
            } else {
                Admission::Serve
            }
        },
        MaxConnections::Reply { count, message } => {
            if open_count >= count.get() {
                Admission::Reply(message)
            } else {
                Admission::Serve
            }
        },
    }
}

/// A connection as the registry keeps it.
#[derive(Debug, Clone, Copy, PartialEq, Eq)]
pub struct Conn {
    pub peer: SocketAddr,
    pub since: Instant,
}

/// `slab::Slab`: a store that hands out a key for each value put in. What it
/// holds is named by [`held`].
#[verifier::external_type_specification]
#[verifier::external_body]
#[verifier::reject_recursive_types(T)]
pub struct ExSlab<T>(slab::Slab<T>);

/// What a slab of connections holds, by key.
pub uninterp spec fn held(connections: slab::Slab<Conn>) -> Map<usize, Conn>;

/// `slab::Slab::new` makes a slab that holds nothing.
#[verifier::external_body]
fn slab_new() -> (connections: slab::Slab<Conn>)
    ensures
        forall|key: usize| !(#[trigger] held(connections).contains_key(key)),
{
    slab::Slab::new()
}

/// `slab::Slab::insert` puts a value in under a key that was not in use, and
/// returns the key. Which free key it takes is left open. It panics when its
/// storage would outgrow `isize::MAX` bytes; storage grows only when no key
/// below its length is free, doubles at most, and takes at most 64 bytes for
/// each connection.
#[verifier::external_body]
fn slab_insert(connections: &mut slab::Slab<Conn>, conn: Conn) -> (key: usize)
    requires
        held(*old(connections)).len() < OPEN_MAX,
    ensures
        !held(*old(connections)).contains_key(key),
        held(*final(connections)) == held(*old(connections)).insert(key, conn),
{
    connections.insert(conn)
}

/// `slab::Slab::remove` takes out the value under a key and returns it. It
/// panics on a key that is not in use.
#[verifier::external_body]
fn slab_remove(connections: &mut slab::Slab<Conn>, key: usize) -> (conn: Conn)
    requires
        held(*old(connections)).contains_key(key),
    ensures
        conn == held(*old(connections))[key],
        held(*final(connections)) == held(*old(connections)).remove(key),
{
    connections.remove(key)
}

/// `slab::Slab::len` counts the values held.
#[verifier::external_body]
fn slab_len(connections: &slab::Slab<Conn>) -> (count: usize)
    ensures
        count == held(*connections).len(),
{
    connections.len()
}

/// `slab::Slab::iter` walks the values held, each with its key and each once,
/// in the order of their keys.
#[verifier::external_body]
fn slab_entries(connections: &slab::Slab<Conn>) -> (entries: Vec<(usize, Conn)>)
    ensures
        in_key_order(entries@.map_values(|entry: (usize, Conn)| entry.0)),
        forall|i: int|
            0 <= i < entries.len() ==> held(*connections).contains_key((#[trigger] entries[i]).0)
                && held(*connections)[entries[i].0] == entries[i].1,
        forall|key: usize| #[trigger]
            held(*connections).contains_key(key) ==> exists|i: int|
                0 <= i < entries.len() && (#[trigger] entries[i]).0 == key,
{
    connections.iter().map(|(key, conn)| (key, *conn)).collect()
}

/// Keys that ascend, and so are all different.
pub open spec fn in_key_order(keys: Seq<usize>) -> bool {
    forall|i: int, j: int| 0 <= i < j < keys.len() ==> keys[i] < keys[j]
}

/// A shard's connection registry. No shard ever reads another shard's
/// registry.
pub struct Registry {
    connections: slab::Slab<Conn>,
    accepted_count: u64,
    rejected_count: u64,
}

/// What a registry keeps.
pub struct RegistryView {
    /// The connections that are open, by key.
    pub open: Map<usize, Conn>,
    /// How many connections were ever registered.
    pub accepted_count: u64,
    /// How many connections were turned away.
    pub rejected_count: u64,
}

impl View for Registry {
    type V = RegistryView;

    closed spec fn view(&self) -> RegistryView {
        RegistryView {
            open: held(self.connections),
            accepted_count: self.accepted_count,
            rejected_count: self.rejected_count,
        }
    }
}

impl RegistryView {
    /// Finitely many connections are open, and each of them was accepted.
    pub open spec fn wf(self) -> bool {
        &&& self.open.dom().finite()
        &&& self.open.len() <= self.accepted_count
    }

    /// The counters have room for one more connection, whatever is decided.
    pub open spec fn has_room(self, max_connections: MaxConnections) -> bool {
        if at_limit(max_connections, self.open.len()) {
            self.rejected_count < u64::MAX
        } else {
            &&& self.open.len() < OPEN_MAX
            &&& self.accepted_count < u64::MAX
        }
    }

    /// The registry once `conn` was registered under `key`.
    pub open spec fn opened(self, key: usize, conn: Conn) -> RegistryView {
        RegistryView {
            open: self.open.insert(key, conn),
            accepted_count: (self.accepted_count + 1) as u64,
            rejected_count: self.rejected_count,
        }
    }

    /// The registry once the connection under `key` was closed.
    pub open spec fn closed(self, key: usize) -> RegistryView {
        RegistryView { open: self.open.remove(key), ..self }
    }

    /// The registry once a connection was turned away.
    pub open spec fn turned_away(self) -> RegistryView {
        RegistryView { rejected_count: (self.rejected_count + 1) as u64, ..self }
    }
}

/// Registration of one live connection: the key under which it is open.
#[derive(Debug)]
pub struct Registered {
    key: usize,
}

impl View for Registered {
    type V = usize;

    closed spec fn view(&self) -> usize {
        self.key
    }
}

impl Registry {
    pub fn new() -> (registry: Registry)
        ensures
            registry@.wf(),
            registry@ == new_registry(),
    {
        let connections = slab_new();
        assert(held(connections) =~= Map::<usize, Conn>::empty());
        Registry { connections, accepted_count: 0, rejected_count: 0 }
    }

    /// How many connections are open.
    pub fn open_count(&self) -> (count: usize)
        ensures
            count == self@.open.len(),
    {
        slab_len(&self.connections)
    }
}

/// What became of a connection that the kernel handed to the shard.
#[derive(Debug)]
pub enum Received {
    /// It has its place in the registry: serve it, and close it when it ends.
    Serve(Registered),
    Close,
    Reply(&'static [u8]),
}

impl Received {
    /// What was decided.
    pub open spec fn admission(self) -> Admission {
        match self {
            Received::Serve(_) => Admission::Serve,
            Received::Close => Admission::Close,
            Received::Reply(message) => Admission::Reply(message),
        }
    }
}

/// Decide what becomes of a connection that the kernel has handed to this
/// shard, and record it: one that will be served is foreground work and takes
/// its place in the registry at once, one that is turned away is counted.
pub fn receive(
    registry: &mut Registry,
    foreground: &mut Foreground,
    config: &Config,
    peer: SocketAddr,
    now: Instant,
) -> (received: Received)
    requires
        old(registry)@.wf(),
        old(registry)@.has_room(config.max_connections),
    ensures
        received.admission() == admission(config.max_connections, old(registry)@.open.len()),
        received matches Received::Serve(registered) ==> {
            &&& !old(registry)@.open.contains_key(registered@)
            &&& final(registry)@ == old(registry)@.opened(
                registered@,
                (Conn { peer, since: now }),
            )
        },
        !(received is Serve) ==> final(registry)@ == old(registry)@.turned_away(),
        final(registry)@.wf(),
        within_limit(config.max_connections, old(registry)@.open.len()) ==> within_limit(
            config.max_connections,
            final(registry)@.open.len(),
        ),
        final(foreground)@ == if received is Serve {
            Some(now)
        } else {
            old(foreground)@
        },
{
    match decide(&config.max_connections, registry.open_count()) {
        Admission::Serve => {
            mark_foreground(foreground, now);
            Received::Serve(Registered::open(registry, peer, now))
        },
        Admission::Close => {
            registry.rejected_count = registry.rejected_count + 1;
            Received::Close
        },
        Admission::Reply(message) => {
            registry.rejected_count = registry.rejected_count + 1;
            Received::Reply(message)
        },
    }
}

impl Registered {
    /// Register a connection that is about to be served.
    fn open(registry: &mut Registry, peer: SocketAddr, now: Instant) -> (registered: Registered)
        requires
            old(registry)@.wf(),
            old(registry)@.open.len() < OPEN_MAX,
            old(registry)@.accepted_count < u64::MAX,
        ensures
            final(registry)@.wf(),
            !old(registry)@.open.contains_key(registered@),
            final(registry)@ == old(registry)@.opened(registered@, (Conn { peer, since: now })),
    {
        registry.accepted_count = registry.accepted_count + 1;
        let key = slab_insert(&mut registry.connections, Conn { peer, since: now });
        Registered { key }
    }

    /// Take a connection that has ended out of the registry.
    pub fn close(self, registry: &mut Registry)
        requires
            old(registry)@.wf(),
            old(registry)@.open.contains_key(self@),
        ensures
            final(registry)@.wf(),
            final(registry)@ == old(registry)@.closed(self@),
    {
        let _conn = slab_remove(&mut registry.connections, self.key);
    }
}

/// A shard's counters.
pub fn counts(registry: &Registry) -> (counts: Counts)
    ensures
        counts.open_count == registry@.open.len(),
        counts.accepted_count == registry@.accepted_count,
        counts.rejected_count == registry@.rejected_count,
{
    Counts {
        open_count: registry.open_count(),
        accepted_count: registry.accepted_count,
        rejected_count: registry.rejected_count,
    }
}

/// `keys` are the keys of the open connections, in ascending order.
pub open spec fn lists(open: Map<usize, Conn>, keys: Seq<usize>) -> bool {
    &&& in_key_order(keys)
    &&& keys.to_set() == open.dom()
}

/// The entry that a walk over the registry makes for a connection.
pub open spec fn entry_of(client: Client, shard: ShardId, conn: Conn, now: Instant) -> bool {
    &&& client.shard == shard
    &&& client.peer == conn.peer
    &&& client.connected_for@ == span(conn.since@, now@)
}

/// `clients` holds one entry for each open connection, in the order of their
/// keys.
pub open spec fn listed(
    clients: Seq<Client>,
    open: Map<usize, Conn>,
    shard: ShardId,
    now: Instant,
) -> bool {
    &&& clients.len() == open.len()
    &&& exists|keys: Seq<usize>| #[trigger]
        lists(open, keys) && keys.len() == clients.len() && forall|i: int|
            0 <= i < clients.len() ==> entry_of(
                #[trigger] clients[i],
                shard,
                open[keys[i]],
                now,
            )
}

/// Walk a shard's registry: one entry for each open connection, in the order
/// of their keys.
pub fn clients(registry: &Registry, shard: ShardId, now: Instant) -> (clients: Vec<Client>)
    ensures
        listed(clients@, registry@.open, shard, now),
{
    let entries = slab_entries(&registry.connections);
    let mut clients: Vec<Client> = Vec::with_capacity(entries.len());
    let mut index: usize = 0;
    while index < entries.len()
        invariant
            index <= entries.len(),
            clients.len() == index,
            forall|i: int|
                0 <= i < index ==> entry_of(#[trigger] clients[i], shard, entries[i].1, now),
        decreases entries.len() - index,
    {
        let conn = entries[index].1;
        clients.push(
            Client { shard, peer: conn.peer, connected_for: now.duration_since(conn.since) },
        );
        index = index + 1;
    }
    proof {
        let keys = entries@.map_values(|entry: (usize, Conn)| entry.0);
        assert forall|key: usize| registry@.open.dom().contains(key) implies keys.to_set().contains(
            key,
        ) by {
            let i = choose|i: int| 0 <= i < entries.len() && (#[trigger] entries[i]).0 == key;
            assert(keys[i] == key);
        }
        assert forall|key: usize| keys.to_set().contains(key) implies registry@.open.dom().contains(
            key,
        ) by {
            let i = choose|i: int| 0 <= i < keys.len() && keys[i] == key;
            assert(entries[i].0 == key);
        }
        assert(keys.to_set() =~= registry@.open.dom());
        keys.unique_seq_to_set();
        assert(lists(registry@.open, keys));
        assert forall|i: int| 0 <= i < clients.len() implies entry_of(
            #[trigger] clients[i],
            shard,
            registry@.open[keys[i]],
            now,
        ) by {
            assert(entries[i].0 == keys[i]);
        }
    }
    clients
}

/// What to do while open connections are drained.
#[derive(Debug, Clone, Copy, PartialEq, Eq)]
pub enum Drain {
    /// Nothing is left to wait for, or the deadline has passed: stop with this
    /// many connections still open.
    Stop(usize),
    /// Wait this long and look again.
    Wait(Duration),
}

/// A wait for open connections to close, up to a deadline.
#[derive(Debug, Clone, Copy, PartialEq, Eq)]
pub struct Draining {
    deadline: Instant,
}

impl View for Draining {
    type V = nat;

    closed spec fn view(&self) -> nat {
        self.deadline@
    }
}

/// Begin to wait for open connections to close, giving up after `within`.
pub fn drain(within: Duration, now: Instant) -> (draining: Draining)
    requires
        now@ + within@ <= NANOS_MAX,
    ensures
        draining@ == now@ + within@,
{
    Draining { deadline: now.plus(within) }
}

impl Draining {
    /// Look at the registry once: `open_count` connections are open now.
    pub fn check(&self, open_count: usize, now: Instant) -> (next: Drain)
        ensures
            open_count == 0 ==> next == Drain::Stop(0),
            open_count > 0 && now@ >= self@ ==> next == Drain::Stop(open_count),
            open_count > 0 && now@ < self@ ==> {
                &&& next matches Drain::Wait(pause)
                &&& pause@ == DRAIN_POLL_MILLIS * 1_000_000
                &&& pause@ == 10_000_000
            },
    {
        if open_count == 0 {
            Drain::Stop(0)
        } else if now.reached(self.deadline) {
            Drain::Stop(open_count)
        } else {
            Drain::Wait(Duration::from_millis(DRAIN_POLL_MILLIS))
        }
    }
}

/// Closing a connection undoes opening it: the registry holds again what it
/// held before, and only the number of connections ever accepted has moved.
pub proof fn law_closing_undoes_opening(registry: RegistryView, key: usize, conn: Conn)
    requires
        !registry.open.contains_key(key),
    ensures
        registry.opened(key, conn).closed(key).open == registry.open,
        registry.opened(key, conn).closed(key).rejected_count == registry.rejected_count,
{
    assert(registry.opened(key, conn).closed(key).open =~= registry.open);
}

/// Opening and closing one connection leaves every other one as it is.
pub proof fn law_connections_are_independent(
    registry: RegistryView,
    key: usize,
    conn: Conn,
    other: usize,
)
    requires
        other != key,
    ensures
        registry.opened(key, conn).open.contains_key(other) == registry.open.contains_key(other),
        registry.closed(key).open.contains_key(other) == registry.open.contains_key(other),
        registry.open.contains_key(other) ==> {
            &&& registry.opened(key, conn).open[other] == registry.open[other]
            &&& registry.closed(key).open[other] == registry.open[other]
        },
{
}

/// Opening a connection makes one more open and one more accepted; closing it
/// makes one fewer open. So the connections accepted are those still open and
/// those that were closed.
pub proof fn law_open_is_accepted_less_closed(registry: RegistryView, key: usize, conn: Conn)
    requires
        registry.wf(),
    ensures
        !registry.open.contains_key(key) && registry.accepted_count < u64::MAX ==> {
            let after = registry.opened(key, conn);
            &&& after.wf()
            &&& after.open.len() == registry.open.len() + 1
            &&& after.accepted_count - after.open.len() == registry.accepted_count
                - registry.open.len()
        },
        registry.open.contains_key(key) ==> {
            let after = registry.closed(key);
            &&& after.wf()
            &&& after.open.len() == registry.open.len() - 1
            &&& after.accepted_count - after.open.len() == registry.accepted_count
                - registry.open.len() + 1
        },
{
}

/// What happens to a registry: a connection is received, and if it is served
/// takes its place under `key`, or the one under `key` is closed.
pub enum Change {
    Received { key: usize, conn: Conn },
    Closed { key: usize },
}

/// What can happen to a registry: a connection takes a place that is free, and
/// one that is closed was open.
pub open spec fn can_happen(registry: RegistryView, change: Change) -> bool {
    match change {
        Change::Received { key, .. } => !registry.open.contains_key(key),
        Change::Closed { key } => registry.open.contains_key(key),
    }
}

/// The registry once it happened.
pub open spec fn changed(
    max_connections: MaxConnections,
    registry: RegistryView,
    change: Change,
) -> RegistryView {
    match change {
        Change::Received { key, conn } => if admission(
            max_connections,
            registry.open.len(),
        ) is Serve {
            registry.opened(key, conn)
        } else {
            registry.turned_away()
        },
        Change::Closed { key } => registry.closed(key),
    }
}

/// The registry after a run of changes in any order, each of them one that could
/// happen.
pub open spec fn after_changes(
    max_connections: MaxConnections,
    registry: RegistryView,
    changes: Seq<Change>,
) -> Option<RegistryView>
    decreases changes.len(),
{
    if changes.len() == 0 {
        Some(registry)
    } else {
        match after_changes(max_connections, registry, changes.drop_last()) {
            Some(before) => if can_happen(before, changes.last()) {
                Some(changed(max_connections, before, changes.last()))
            } else {
                None
            },
            None => None,
        }
    }
}

/// A shard never holds more connections than its limit, in whatever order
/// connections come and end and whatever its counters read: a registry that is
/// within its limit stays so.
pub proof fn law_the_limit_holds(
    max_connections: MaxConnections,
    registry: RegistryView,
    changes: Seq<Change>,
)
    requires
        registry.open.dom().finite(),
        within_limit(max_connections, registry.open.len()),
    ensures
        after_changes(max_connections, registry, changes) matches Some(after) ==> {
            &&& after.open.dom().finite()
            &&& within_limit(max_connections, after.open.len())
        },
    decreases changes.len(),
{
    if changes.len() > 0 {
        law_the_limit_holds(max_connections, registry, changes.drop_last());
    }
}

/// The last place is taken as soon as it is given: of two connections received
/// in a row by a shard that is one short of its limit, the first is served and
/// the second is turned away.
pub proof fn law_the_last_place_is_taken_at_once(
    max_connections: MaxConnections,
    registry: RegistryView,
    key: usize,
    conn: Conn,
    next: usize,
    next_conn: Conn,
)
    requires
        registry.open.dom().finite(),
        !at_limit(max_connections, registry.open.len()),
        at_limit(max_connections, registry.open.len() + 1),
        !registry.open.contains_key(key),
    ensures
        ({
            let first = changed(max_connections, registry, Change::Received { key, conn });
            let second = changed(
                max_connections,
                first,
                Change::Received { key: next, conn: next_conn },
            );
            &&& first == registry.opened(key, conn)
            &&& second == first.turned_away()
            &&& second.open == first.open
            &&& registry.rejected_count < u64::MAX ==> second.rejected_count
                == registry.rejected_count + 1
        }),
{
}

/// The registry of a shard that has had no connection.
pub open spec fn new_registry() -> RegistryView {
    RegistryView { open: Map::empty(), accepted_count: 0, rejected_count: 0 }
}

/// How many connections are open on all shards together.
pub open spec fn open_in_all(registries: Seq<RegistryView>) -> nat
    decreases registries.len(),
{
    if registries.len() == 0 {
        0
    } else {
        open_in_all(registries.drop_last()) + registries.last().open.len()
    }
}

/// The registry is one that a shard can come to from a new one.
pub open spec fn can_come_to(max_connections: MaxConnections, registry: RegistryView) -> bool {
    exists|changes: Seq<Change>| #[trigger]
        after_changes(max_connections, new_registry(), changes) == Some(registry)
}

/// The limit is per shard: whatever happens to `n` shards, the process holds at
/// most `n` times as many connections.
pub proof fn law_the_process_holds_n_times_the_limit(
    max_connections: MaxConnections,
    limit: nat,
    registries: Seq<RegistryView>,
)
    requires
        match max_connections {
            MaxConnections::Unlimited => false,
            MaxConnections::Close(count) => limit == count@,
            MaxConnections::Reply { count, .. } => limit == count@,
        },
        forall|i: int|
            0 <= i < registries.len() ==> can_come_to(max_connections, #[trigger] registries[i]),
    ensures
        open_in_all(registries) <= registries.len() * limit,
    decreases registries.len(),
{
    if registries.len() > 0 {
        let fewer = registries.drop_last();
        assert forall|i: int| 0 <= i < fewer.len() implies can_come_to(
            max_connections,
            #[trigger] fewer[i],
        ) by {
            assert(fewer[i] == registries[i]);
        }
        law_the_process_holds_n_times_the_limit(max_connections, limit, fewer);
        let last = registries[registries.len() - 1];
        assert(can_come_to(max_connections, last));
        let changes = choose|changes: Seq<Change>| #[trigger]
            after_changes(max_connections, new_registry(), changes) == Some(last);
        law_the_limit_holds(max_connections, new_registry(), changes);
        assert(registries.len() * limit == fewer.len() * limit + limit) by (nonlinear_arith)
            requires
                registries.len() == fewer.len() + 1,
        ;
    }
}

/// A listener is opened in one order: the socket is made, its address and then
/// its port are made shareable, it is bound, it listens, and it is registered.
pub proof fn law_a_listener_is_opened_in_one_order(done: nat)
    ensures
        step_after(done) is CreateSocket <==> done == 0,
        step_after(done) is ReuseAddress <==> done == 1,
        step_after(done) is ReusePort <==> done == 2,
        step_after(done) is Bind <==> done == 3,
        step_after(done) is Listen <==> done == 4,
        step_after(done) is Register <==> done == 5,
        step_after(done) is Listening <==> done >= 6,
    decreases done,
{
    reveal_with_fuel(step_after, 7);
    if done > 6 {
        law_a_listener_is_opened_in_one_order((done - 1) as nat);
    }
}

/// A step that fails is told from its error, and the error carries what the
/// operating system said, and the address where one was in play.
pub proof fn law_the_error_names_the_step_that_failed(
    step: Step,
    addr: SocketAddr,
    source: std::io::Error,
)
    requires
        !(step is Listening),
    ensures
        match failure(step, addr, source) {
            Error::CreateSocket(said) => step is CreateSocket && said == source,
            Error::SetReuseAddress(said) => step is ReuseAddress && said == source,
            Error::SetReusePort(said) => step is ReusePort && said == source,
            Error::Bind { addr: at, source: said } => step is Bind && at == addr && said == source,
            Error::Listen { addr: at, source: said } => step is Listen && at == addr && said
                == source,
            Error::Register(said) => step is Register && said == source,
            _ => false,
        },
{
}

/// The accept loop gives up exactly when the last sixteen calls all failed.
pub proof fn law_sixteen_failures_in_a_row_are_too_many(accepts: Seq<bool>)
    ensures
        errors_after(accepts) >= ACCEPT_ERRORS_MAX <==> {
            &&& accepts.len() >= 16
            &&& forall|i: int| accepts.len() - 16 <= i < accepts.len() ==> !accepts[i]
        },
{
    law_only_failures_in_a_row_count(accepts, 16);
}

/// A shard serves a connection exactly while it holds fewer than its limit, and
/// every one when it has none; one that is turned away is closed in silence or
/// told the configured message, as configured.
pub proof fn law_a_shard_serves_up_to_its_limit(max_connections: MaxConnections, open_count: nat)
    ensures
        match max_connections {
            MaxConnections::Unlimited => admission(max_connections, open_count) is Serve
                && within_limit(max_connections, open_count),
            MaxConnections::Close(count) => {
                &&& open_count < count@ ==> admission(max_connections, open_count) is Serve
                &&& open_count >= count@ ==> admission(max_connections, open_count) is Close
                &&& within_limit(max_connections, open_count) <==> open_count <= count@
            },
            MaxConnections::Reply { count, message } => {
                &&& open_count < count@ ==> admission(max_connections, open_count) is Serve
                &&& open_count >= count@ ==> admission(max_connections, open_count)
                    == Admission::Reply(message)
                &&& within_limit(max_connections, open_count) <==> open_count <= count@
            },
        },
{
}

/// What is done with a connection is what was decided for it.
pub proof fn law_what_is_done_is_what_was_decided(received: Received)
    ensures
        match received {
            Received::Serve(_) => received.admission() is Serve,
            Received::Close => received.admission() is Close,
            Received::Reply(message) => received.admission() == Admission::Reply(message),
        },
{
}

/// A registry records what happens and nothing else: one that is opened is there
/// and counted as accepted, one that is closed is gone, one that is turned away is
/// counted as rejected, and the counters that are not concerned stay as they are.
pub proof fn law_a_registry_records_what_happens(registry: RegistryView, key: usize, conn: Conn)
    ensures
        registry.opened(key, conn).open.contains_key(key),
        registry.opened(key, conn).open[key] == conn,
        registry.accepted_count < u64::MAX ==> registry.opened(key, conn).accepted_count
            == registry.accepted_count + 1,
        registry.opened(key, conn).rejected_count == registry.rejected_count,
        !registry.closed(key).open.contains_key(key),
        registry.closed(key).accepted_count == registry.accepted_count,
        registry.closed(key).rejected_count == registry.rejected_count,
        registry.turned_away().open == registry.open,
        registry.turned_away().accepted_count == registry.accepted_count,
        registry.rejected_count < u64::MAX ==> registry.turned_away().rejected_count
            == registry.rejected_count + 1,
        new_registry().open.len() == 0,
        !new_registry().open.contains_key(key),
        new_registry().accepted_count == 0,
        new_registry().rejected_count == 0,
{
}

/// There is room for a connection until a counter or the storage is full, whatever
/// the limit is: only the machine sets a bound.
pub proof fn law_only_the_machine_bounds_the_room(
    registry: RegistryView,
    max_connections: MaxConnections,
)
    requires
        registry.open.len() < usize::MAX / 512,
        registry.accepted_count < u64::MAX,
        registry.rejected_count < u64::MAX,
    ensures
        registry.has_room(max_connections),
{
}

/// A walk over the registry lists what is open: one entry for each open
/// connection, in the order of the keys, with its shard, its peer, and the time
/// from when it was opened until now.
pub proof fn law_the_list_is_what_is_open(
    clients: Seq<Client>,
    open: Map<usize, Conn>,
    shard: ShardId,
    now: Instant,
)
    requires
        listed(clients, open, shard, now),
    ensures
        clients.len() == open.len(),
        exists|keys: Seq<usize>|
            {
                &&& keys.len() == clients.len()
                &&& forall|i: int, j: int| 0 <= i < j < keys.len() ==> keys[i] < keys[j]
                &&& forall|key: usize| #[trigger] keys.contains(key) <==> open.contains_key(key)
                &&& forall|i: int|
                    0 <= i < clients.len() ==> {
                        let conn = open[#[trigger] keys[i]];
                        &&& clients[i].shard == shard
                        &&& clients[i].peer == conn.peer
                        &&& conn.since@ <= now@ ==> conn.since@ + clients[i].connected_for@ == now@
                    }
            },
{
    let keys = choose|keys: Seq<usize>| #[trigger]
        lists(open, keys) && keys.len() == clients.len() && forall|i: int|
            0 <= i < clients.len() ==> entry_of(#[trigger] clients[i], shard, open[keys[i]], now);
    assert forall|key: usize| #[trigger] keys.contains(key) <==> open.contains_key(key) by {
        assert(keys.to_set().contains(key) <==> open.dom().contains(key));
    }
    assert forall|i: int| 0 <= i < clients.len() implies ({
        let conn = open[#[trigger] keys[i]];
        &&& clients[i].shard == shard
        &&& clients[i].peer == conn.peer
        &&& conn.since@ <= now@ ==> conn.since@ + clients[i].connected_for@ == now@
    }) by {
        assert(entry_of(clients[i], shard, open[keys[i]], now));
    }
}

} // verus!
