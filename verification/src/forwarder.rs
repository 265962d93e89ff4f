//! Forwarding between UDP clients and fake-TCP connections: which datagram goes
//! where, and when a connection begins and ends.
//!
//! Sockets, tasks and clocks are the program's. It reports what happened and
//! carries out what comes back; `C` is whatever it keeps for a connection.

use vstd::prelude::*;

use crate::net::SocketAddr;

verus! {

/// How long a connection may stay silent before it is closed, in milliseconds.
pub const UDP_TTL_MILLIS: u64 = 180_000;

/// What the forwarder works with.
#[derive(Clone, Copy, Debug)]
pub struct ForwarderConfig {
    /// The server.
    pub remote_addr: SocketAddr,
    /// The local IPv4 address of the fake-TCP connections.
    pub fake_tcp_local_ipv4: u32,
    /// Their local IPv6 address, when there is one.
    pub fake_tcp_local_ipv6: Option<u128>,
    /// How many tasks read from a connection.
    pub worker_count: usize,
    /// How long a connection may stay silent, in milliseconds.
    pub udp_ttl_millis: u64,
}

/// What the receiving loop waits for.
#[derive(Clone, Copy, Debug, PartialEq, Eq, Structural)]
pub enum Stage {
    /// A datagram of any client.
    Listening,
    /// A connection to the server, for the client.
    Connecting(SocketAddr),
    /// The first datagram of the client to leave on its new connection.
    Greeting(SocketAddr),
}

impl Stage {
    /// The client that a connection is being made for.
    pub open spec fn client(self) -> Option<SocketAddr> {
        match self {
            Stage::Listening => None,
            Stage::Connecting(client) => Some(client),
            Stage::Greeting(client) => Some(client),
        }
    }
}

/// The forwarder: the open connections and the state of the receiving loop.
pub struct Forwarder<C> {
    pub config: ForwarderConfig,
    pub connections: Vec<(SocketAddr, C)>,
    pub stage: Stage,
}

/// What the forwarder works with, the connection of every client that has one,
/// and the state of the loop.
pub struct ForwarderView<C> {
    pub config: ForwarderConfig,
    pub table: Map<SocketAddr, C>,
    pub stage: Stage,
}

/// Whether an entry of the list is the client's.
pub open spec fn listed<C>(entries: Seq<(SocketAddr, C)>, client: SocketAddr) -> bool {
    exists|i: int| 0 <= i < entries.len() && (#[trigger] entries[i]).0 == client
}

/// The list of entries as a map.
pub open spec fn table_of<C>(entries: Seq<(SocketAddr, C)>) -> Map<SocketAddr, C> {
    Map::new(
        |client: SocketAddr| listed(entries, client),
        |client: SocketAddr|
            {
                let at = choose|i: int|
                    0 <= i < entries.len() && (#[trigger] entries[i]).0 == client;
                entries[at].1
            },
    )
}

/// Whether no client is listed twice.
pub open spec fn distinct<C>(entries: Seq<(SocketAddr, C)>) -> bool {
    forall|i: int, j: int|
        0 <= i < entries.len() && 0 <= j < entries.len() && (#[trigger] entries[i]).0 == (
        #[trigger] entries[j]).0 ==> i == j
}

/// In a list without repetition the map holds what the entry says.
proof fn lemma_entry<C>(entries: Seq<(SocketAddr, C)>, at: int)
    requires
        distinct(entries),
        0 <= at < entries.len(),
    ensures
        table_of(entries).dom().contains(entries[at].0),
        table_of(entries)[entries[at].0] == entries[at].1,
{
    let client = entries[at].0;
    let found = choose|i: int| 0 <= i < entries.len() && (#[trigger] entries[i]).0 == client;
    assert(entries[found].0 == client);
}

proof fn lemma_push<C>(entries: Seq<(SocketAddr, C)>, client: SocketAddr, connection: C)
    requires
        distinct(entries),
        !listed(entries, client),
    ensures
        distinct(entries.push((client, connection))),
        table_of(entries.push((client, connection))) == table_of(entries).insert(
            client,
            connection,
        ),
{
    let longer = entries.push((client, connection));
    assert forall|other: SocketAddr| listed(longer, other) <==> listed(entries, other) || other
        == client by {
        if listed(entries, other) {
            let i = choose|i: int| 0 <= i < entries.len() && (#[trigger] entries[i]).0 == other;
            assert(longer[i].0 == other);
        }
        assert(longer[entries.len() as int].0 == client);
    }
    let table = table_of(entries).insert(client, connection);
    assert forall|other: SocketAddr| #[trigger]
        table.dom().contains(other) implies table_of(longer)[other] == table[other] by {
        let i = choose|i: int| 0 <= i < longer.len() && (#[trigger] longer[i]).0 == other;
        lemma_entry(longer, i);
        if i < entries.len() {
            assert(entries[i] == longer[i]);
            lemma_entry(entries, i);
        }
    }
    assert(table_of(longer) == table);
}

proof fn lemma_remove<C>(entries: Seq<(SocketAddr, C)>, at: int)
    requires
        distinct(entries),
        0 <= at < entries.len(),
    ensures
        distinct(entries.remove(at)),
        table_of(entries.remove(at)) == table_of(entries).remove(entries[at].0),
{
    let shorter = entries.remove(at);
    let client = entries[at].0;
    let table = table_of(entries).remove(client);
    assert forall|i: int| 0 <= i < shorter.len() implies (#[trigger] shorter[i]) == entries[if i
        < at {
        i
    } else {
        i + 1
    }] by {}
    assert forall|other: SocketAddr|
        listed(shorter, other) <==> listed(entries, other) && other != client by {
        if listed(entries, other) && other != client {
            let i = choose|i: int| 0 <= i < entries.len() && (#[trigger] entries[i]).0 == other;
            assert(shorter[if i < at {
                i
            } else {
                i - 1
            }].0 == other);
        }
    }
    assert forall|other: SocketAddr| #[trigger]
        table.dom().contains(other) implies table_of(shorter)[other] == table[other] by {
        let i = choose|i: int| 0 <= i < shorter.len() && (#[trigger] shorter[i]).0 == other;
        lemma_entry(shorter, i);
        lemma_entry(
            entries,
            if i < at {
                i
            } else {
                i + 1
            },
        );
    }
    assert(table_of(shorter) == table);
}

/// What happens to the forwarder.
pub enum ForwarderEvent<C> {
    /// A datagram of the client came in.
    Received(SocketAddr),
    /// The attempt to connect ended, with a connection or without.
    Connected(bool),
    /// The first datagram left on the new connection, or could not.
    Greeted(Option<C>),
    /// The connection of the client ended.
    Ended(SocketAddr),
    /// The forwarder is told to stop.
    Shutdown,
}

impl<C> ForwarderView<C> {
    /// Whether a client that a connection is being made for has none.
    pub open spec fn consistent(self) -> bool {
        self.stage.client() matches Some(client) ==> !self.table.dom().contains(client)
    }

    /// Whether the event can happen now. Connections end at any time; the rest
    /// is up to the receiving loop.
    pub open spec fn permits(self, event: ForwarderEvent<C>) -> bool {
        match event {
            ForwarderEvent::Received(_) => self.stage is Listening,
            ForwarderEvent::Connected(_) => self.stage is Connecting,
            ForwarderEvent::Greeted(_) => self.stage is Greeting,
            ForwarderEvent::Ended(_) => true,
            ForwarderEvent::Shutdown => self.stage is Listening,
        }
    }

    /// The state behind the event.
    pub open spec fn after(self, event: ForwarderEvent<C>) -> ForwarderView<C> {
        match event {
            ForwarderEvent::Received(client) => if self.table.dom().contains(client) {
                self
            } else {
                ForwarderView { stage: Stage::Connecting(client), ..self }
            },
            ForwarderEvent::Connected(success) => ForwarderView {
                stage: match self.stage {
                    Stage::Connecting(client) if success => Stage::Greeting(client),
                    _ => Stage::Listening,
                },
                ..self
            },
            ForwarderEvent::Greeted(connection) => ForwarderView {
                table: match (self.stage, connection) {
                    (Stage::Greeting(client), Some(connection)) => self.table.insert(
                        client,
                        connection,
                    ),
                    _ => self.table,
                },
                stage: Stage::Listening,
                ..self
            },
            ForwarderEvent::Ended(client) => ForwarderView {
                table: self.table.remove(client),
                ..self
            },
            ForwarderEvent::Shutdown => ForwarderView { table: Map::empty(), ..self },
        }
    }

    /// The connection of the client, if it has one.
    pub open spec fn connection(self, client: SocketAddr) -> Option<C> {
        if self.table.dom().contains(client) {
            Some(self.table[client])
        } else {
            None
        }
    }

    /// How a client is served that got a connection: by at least one worker, and
    /// with a first wait as long as a connection may stay silent.
    pub open spec fn service(self, client: SocketAddr) -> Service {
        Service {
            client,
            workers: if self.config.worker_count == 0 {
                1
            } else {
                self.config.worker_count
            },
            wait_millis: self.config.udp_ttl_millis,
        }
    }

    /// The state behind the end of a wait for traffic on the connection of the
    /// client.
    pub open spec fn after_watch(self, client: SocketAddr, event: WatchEvent) -> ForwarderView<C> {
        match event {
            WatchEvent::PacketReceived => self,
            _ => self.after(ForwarderEvent::Ended(client)),
        }
    }

    /// What the watch does at the end of a wait: traffic starts a new wait, as
    /// long as a connection may stay silent; silence closes the connection, and a
    /// closed connection ends the watch.
    pub open spec fn watch_action(self, client: SocketAddr, event: WatchEvent) -> WatchAction<C> {
        match event {
            WatchEvent::PacketReceived => WatchAction::Wait {
                millis: self.config.udp_ttl_millis,
            },
            WatchEvent::Quit => WatchAction::Stop,
            WatchEvent::Elapsed => WatchAction::Close(self.connection(client)),
        }
    }

    /// Whether the events can happen one after the other.
    pub open spec fn permits_all(self, events: Seq<ForwarderEvent<C>>) -> bool
        decreases events.len(),
    {
        events.len() == 0 || {
            &&& self.permits_all(events.drop_last())
            &&& self.after_all(events.drop_last()).permits(events.last())
        }
    }

    /// The state behind all events.
    pub open spec fn after_all(self, events: Seq<ForwarderEvent<C>>) -> ForwarderView<C>
        decreases events.len(),
    {
        if events.len() == 0 {
            self
        } else {
            self.after_all(events.drop_last()).after(events.last())
        }
    }
}

/// Whether the two lists name every client of the table once, each with its
/// connection.
pub open spec fn lists_all<C>(
    table: Map<SocketAddr, C>,
    clients: Seq<SocketAddr>,
    connections: Seq<C>,
) -> bool {
    &&& clients.len() == connections.len()
    &&& clients.no_duplicates()
    &&& forall|client: SocketAddr| table.dom().contains(client) <==> clients.contains(client)
    &&& forall|i: int|
        0 <= i < clients.len() ==> #[trigger] connections[i] == table[clients[i]]
}

/// Where a datagram of a client goes.
pub enum ReceiveAction<'a, C> {
    /// Out on the connection of the client.
    Send(&'a C),
    /// Out on a connection that is to be made, to this endpoint.
    Connect(SocketAddr),
}

/// How a client with a new connection is served.
#[derive(Clone, Copy, Debug, PartialEq, Eq, Structural)]
pub struct Service {
    pub client: SocketAddr,
    /// How many tasks read from the connection.
    pub workers: usize,
    /// How long the watch over the connection waits for the first traffic.
    pub wait_millis: u64,
}

/// What ended the wait for traffic on a connection.
#[derive(Clone, Copy, Debug, PartialEq, Eq, Structural)]
pub enum WatchEvent {
    /// No traffic came in time.
    Elapsed,
    /// The connection was closed.
    Quit,
    /// Traffic came.
    PacketReceived,
}

/// What the watch over a connection does next.
pub enum WatchAction<C> {
    /// Wait for traffic again, for so long.
    Wait { millis: u64 },
    /// Close the connection that was open, or else the watched one, and stop.
    Close(Option<C>),
    /// Stop.
    Stop,
}

impl<C> View for Forwarder<C> {
    type V = ForwarderView<C>;

    open spec fn view(&self) -> ForwarderView<C> {
        ForwarderView {
            config: self.config,
            table: table_of(self.connections@),
            stage: self.stage,
        }
    }
}

impl<C> Forwarder<C> {
    /// No client is listed twice, and none that a connection is being made for.
    pub open spec fn wf(&self) -> bool {
        distinct(self.connections@) && self@.consistent()
    }

    /// The forwarder without connections.
    pub fn new(config: ForwarderConfig) -> (forwarder: Forwarder<C>)
        ensures
            forwarder.wf(),
            forwarder@.config == config,
            forwarder@.table == Map::<SocketAddr, C>::empty(),
            forwarder@.stage == Stage::Listening,
    {
        let forwarder = Forwarder { config, connections: Vec::new(), stage: Stage::Listening };
        assert(forwarder@.table == Map::<SocketAddr, C>::empty());
        forwarder
    }

    /// Where the client stands in the list.
    fn find(&self, client: SocketAddr) -> (at: Option<usize>)
        requires
            distinct(self.connections@),
        ensures
            match at {
                Some(at) => {
                    &&& at < self.connections.len()
                    &&& self.connections[at as int].0 == client
                    &&& self@.table.dom().contains(client)
                    &&& self@.table[client] == self.connections[at as int].1
                },
                None => !self@.table.dom().contains(client),
            },
    {
        let mut at: usize = 0;
        while at < self.connections.len()
            invariant
                at <= self.connections.len(),
                distinct(self.connections@),
                forall|i: int| 0 <= i < at ==> (#[trigger] self.connections[i]).0 != client,
            decreases self.connections.len() - at,
        {
            if self.connections[at].0 == client {
                proof {
                    lemma_entry(self.connections@, at as int);
                }
                return Some(at);
            }
            at += 1;
        }
        None
    }

    /// Takes a datagram of the client. It goes out on the connection of the
    /// client; without one, a connection to the server is to be made.
    pub fn receive(&mut self, client: SocketAddr) -> (action: ReceiveAction<'_, C>)
        requires
            old(self).wf(),
            old(self).stage is Listening,
        ensures
            final(self).wf(),
            final(self)@ == old(self)@.after(ForwarderEvent::Received(client)),
            match action {
                ReceiveAction::Send(connection) => old(self)@.connection(client) == Some(
                    *connection,
                ),
                ReceiveAction::Connect(endpoint) => {
                    &&& old(self)@.connection(client) is None
                    &&& endpoint == old(self)@.config.remote_addr
                },
            },
    {
        match self.find(client) {
            Some(at) => ReceiveAction::Send(&self.connections[at].1),
            None => {
                self.stage = Stage::Connecting(client);
                ReceiveAction::Connect(self.config.remote_addr)
            },
        }
    }

    /// Takes the end of the attempt to connect. After a success the datagram is
    /// to be sent on the new connection; after a failure it is lost.
    pub fn connected(&mut self, success: bool)
        requires
            old(self).wf(),
            old(self).stage is Connecting,
        ensures
            final(self).wf(),
            final(self)@ == old(self)@.after(ForwarderEvent::Connected(success)),
    {
        self.stage = match self.stage {
            Stage::Connecting(client) if success => Stage::Greeting(client),
            _ => Stage::Listening,
        };
    }

    /// Takes the new connection when the first datagram left on it, and nothing
    /// when it could not. What comes back tells how the client is served: the
    /// tasks that read from its connection and the watch over it are to be started.
    pub fn greeted(&mut self, connection: Option<C>) -> (service: Option<Service>)
        requires
            old(self).wf(),
            old(self).stage is Greeting,
        ensures
            final(self).wf(),
            final(self)@ == old(self)@.after(ForwarderEvent::Greeted(connection)),
            service == match (connection, old(self).stage) {
                (Some(_), Stage::Greeting(client)) => Some(old(self)@.service(client)),
                _ => None,
            },
    {
        let stage = self.stage;
        self.stage = Stage::Listening;
        match (stage, connection) {
            (Stage::Greeting(client), Some(connection)) => {
                proof {
                    lemma_push(self.connections@, client, connection);
                }
                self.connections.push((client, connection));
                Some(
                    Service {
                        client,
                        workers: if self.config.worker_count == 0 {
                            1
                        } else {
                            self.config.worker_count
                        },
                        wait_millis: self.config.udp_ttl_millis,
                    },
                )
            },
            _ => None,
        }
    }

    /// Removes the connection of the client.
    fn remove(&mut self, client: SocketAddr) -> (connection: Option<C>)
        requires
            old(self).wf(),
        ensures
            final(self).wf(),
            final(self)@ == old(self)@.after(ForwarderEvent::Ended(client)),
            connection == old(self)@.connection(client),
    {
        match self.find(client) {
            Some(at) => {
                proof {
                    lemma_remove(self.connections@, at as int);
                }
                let entry = self.connections.remove(at);
                Some(entry.1)
            },
            None => {
                assert(self@.table.remove(client) == self@.table);
                None
            },
        }
    }

    /// Takes what ended the wait for traffic on the connection of the client.
    /// Traffic starts a new wait; everything else ends the connection, and
    /// silence closes it.
    pub fn watch(&mut self, client: SocketAddr, event: WatchEvent) -> (action: WatchAction<C>)
        requires
            old(self).wf(),
        ensures
            final(self).wf(),
            final(self)@ == old(self)@.after_watch(client, event),
            action == old(self)@.watch_action(client, event),
    {
        match event {
            WatchEvent::PacketReceived => WatchAction::Wait {
                millis: self.config.udp_ttl_millis,
            },
            WatchEvent::Quit => {
                let _ = self.remove(client);
                WatchAction::Stop
            },
            WatchEvent::Elapsed => WatchAction::Close(self.remove(client)),
        }
    }

    /// Stops the forwarder. What comes back are the connections, all of them,
    /// to be closed.
    pub fn cancel_all_connections(&mut self) -> (connections: Vec<C>)
        requires
            old(self).wf(),
            old(self).stage is Listening,
        ensures
            final(self).wf(),
            final(self)@ == old(self)@.after(ForwarderEvent::Shutdown),
            exists|clients: Seq<SocketAddr>|
                lists_all(old(self)@.table, clients, connections@),
    {
        let ghost entries = self.connections@;
        let mut connections: Vec<C> = Vec::new();
        while self.connections.len() > 0
            invariant
                self.connections@ == entries.take(self.connections.len() as int),
                connections.len() + self.connections.len() == entries.len(),
                forall|i: int|
                    0 <= i < connections.len() ==> #[trigger] connections[i] == entries[entries.len()
                        - 1 - i].1,
                self.config == old(self).config,
                self.stage == old(self).stage,
            decreases self.connections.len(),
        {
            if let Some(entry) = self.connections.pop() {
                connections.push(entry.1);
            }
        }
        proof {
            let clients = Seq::new(entries.len(), |i: int| entries[entries.len() - 1 - i].0);
            assert forall|client: SocketAddr|
                table_of(entries).dom().contains(client) <==> clients.contains(client) by {
                if listed(entries, client) {
                    let i = choose|i: int|
                        0 <= i < entries.len() && (#[trigger] entries[i]).0 == client;
                    assert(clients[entries.len() - 1 - i] == client);
                }
            }
            assert forall|i: int| 0 <= i < clients.len() implies #[trigger] connections[i]
                == table_of(entries)[clients[i]] by {
                lemma_entry(entries, entries.len() - 1 - i);
            }
            assert(lists_all(table_of(entries), clients, connections@));
            assert(self@.table == Map::<SocketAddr, C>::empty());
        }
        connections
    }
}

/// What happened to a task that reads from a connection.
#[derive(Clone, Copy, Debug, PartialEq, Eq, Structural)]
pub enum WorkerEvent {
    /// So many bytes came from the server; nothing when the connection is gone.
    Received(Option<usize>),
    /// The bytes were handed to the client, or could not be.
    Delivered(bool),
    /// The connection was closed.
    Quit,
}

/// What a task that reads from a connection does next.
#[derive(Clone, Copy, Debug, PartialEq, Eq, Structural)]
pub enum WorkerAction {
    /// Send the bytes to the client.
    Deliver { client: SocketAddr, size: usize },
    /// Tell the watch about the traffic and read on.
    Notify,
    /// Close the connection and stop.
    Close,
    /// Stop.
    Stop,
}

/// What the task does next that reads from the connection of the client.
pub open spec fn worker_action(client: SocketAddr, event: WorkerEvent) -> WorkerAction {
    match event {
        WorkerEvent::Received(Some(size)) => if size > 0 {
            WorkerAction::Deliver { client, size }
        } else {
            WorkerAction::Notify
        },
        WorkerEvent::Received(None) => WorkerAction::Close,
        WorkerEvent::Delivered(true) => WorkerAction::Notify,
        WorkerEvent::Delivered(false) => WorkerAction::Close,
        WorkerEvent::Quit => WorkerAction::Stop,
    }
}

/// Decides what the task does next that reads from the connection of the client.
pub fn worker_step(client: SocketAddr, event: WorkerEvent) -> (action: WorkerAction)
    ensures
        action == worker_action(client, event),
{
    match event {
        WorkerEvent::Received(Some(size)) => {
            if size > 0 {
                WorkerAction::Deliver { client, size }
            } else {
                WorkerAction::Notify
            }
        },
        WorkerEvent::Received(None) => WorkerAction::Close,
        WorkerEvent::Delivered(success) => {
            if success {
                WorkerAction::Notify
            } else {
                WorkerAction::Close
            }
        },
        WorkerEvent::Quit => WorkerAction::Stop,
    }
}

/// A new connection never takes the place of another one: whatever happens, the
/// client that a connection is being made for has none.
pub proof fn connections_are_never_replaced<C>(
    state: ForwarderView<C>,
    events: Seq<ForwarderEvent<C>>,
)
    requires
        state.consistent(),
        state.permits_all(events),
    ensures
        state.after_all(events).consistent(),
    decreases events.len(),
{
    if events.len() > 0 {
        connections_are_never_replaced(state, events.drop_last());
    }
}

/// A client keeps its connection, whatever happens to others, until that
/// connection ends or the forwarder stops.
pub proof fn clients_keep_their_connections<C>(
    state: ForwarderView<C>,
    events: Seq<ForwarderEvent<C>>,
    client: SocketAddr,
)
    requires
        state.consistent(),
        state.permits_all(events),
        state.table.dom().contains(client),
        forall|i: int|
            0 <= i < events.len() ==> (#[trigger] events[i]) != ForwarderEvent::<C>::Ended(client)
                && !(events[i] is Shutdown),
    ensures
        state.after_all(events).table.dom().contains(client),
        state.after_all(events).table[client] == state.table[client],
    decreases events.len(),
{
    if events.len() > 0 {
        let front = events.drop_last();
        assert forall|i: int| 0 <= i < front.len() implies (#[trigger] front[i])
            != ForwarderEvent::<C>::Ended(client) && !(front[i] is Shutdown) by {
            assert(front[i] == events[i]);
        }
        clients_keep_their_connections(state, front, client);
        connections_are_never_replaced(state, front);
        assert(events.last() == events[events.len() - 1]);
    }
}

/// What happens to one client leaves the connections of the others alone.
pub proof fn clients_are_isolated<C>(
    state: ForwarderView<C>,
    event: ForwarderEvent<C>,
    other: SocketAddr,
)
    requires
        !(event is Shutdown),
        event != ForwarderEvent::<C>::Ended(other),
        state.stage.client() != Some(other),
    ensures
        state.after(event).table.dom().contains(other) == state.table.dom().contains(other),
        state.table.dom().contains(other) ==> state.after(event).table[other]
            == state.table[other],
{
}

/// Whose connection ended can have a new one: the next datagram leads to an
/// attempt to connect, and a success puts the new connection into the table.
pub proof fn an_ended_client_can_connect_again<C>(
    state: ForwarderView<C>,
    client: SocketAddr,
    connection: C,
)
    requires
        state.stage is Listening,
    ensures
        ({
            let again = state.after(ForwarderEvent::Ended(client)).after(
                ForwarderEvent::Received(client),
            );
            let served = again.after(ForwarderEvent::Connected(true)).after(
                ForwarderEvent::Greeted(Some(connection)),
            );
            &&& again.stage == Stage::Connecting(client)
            &&& served.stage is Listening
            &&& served.table == state.table.insert(client, connection)
        }),
{
    assert(state.table.remove(client).insert(client, connection) == state.table.insert(
        client,
        connection,
    ));
}

/// A datagram of a client without a connection that cannot be sent leaves no
/// trace: neither a failed attempt to connect nor a failed first send changes
/// the table, and the loop listens again.
pub proof fn failed_attempts_leave_no_trace<C>(state: ForwarderView<C>, client: SocketAddr)
    requires
        state.stage is Listening,
        !state.table.dom().contains(client),
    ensures
        state.after(ForwarderEvent::Received(client)).after(ForwarderEvent::Connected(false))
            == state,
        state.after(ForwarderEvent::Received(client)).after(ForwarderEvent::Connected(true)).after(
            ForwarderEvent::Greeted(None),
        ) == state,
{
}

/// The forwarder together with its tasks: the connections that were ever made,
/// the watches that run, each with its own connection, and the connections that
/// were told to close.
#[verifier::reject_recursive_types(C)]
pub struct Sessions<C> {
    pub forwarder: ForwarderView<C>,
    pub started: Set<C>,
    pub watches: Map<SocketAddr, C>,
    pub closed: Set<C>,
    pub stopped: bool,
}

/// What happens to the forwarder or to one of its tasks.
pub enum SessionEvent<C> {
    /// A step of the receiving loop.
    Loop(ForwarderEvent<C>),
    /// A step of a task that reads from the connection.
    Worker { client: SocketAddr, connection: C, event: WorkerEvent },
    /// The end of a wait of the watch over the connection of the client.
    Watch { client: SocketAddr, event: WatchEvent },
}

impl<C> Sessions<C> {
    /// A forwarder that was just made.
    pub open spec fn initial(config: ForwarderConfig) -> Sessions<C> {
        Sessions {
            forwarder: ForwarderView { config, table: Map::empty(), stage: Stage::Listening },
            started: Set::empty(),
            watches: Map::empty(),
            closed: Set::empty(),
            stopped: false,
        }
    }

    /// Whether the event can happen now. The loop ends with the shutdown, makes
    /// connections that were not there before, and leaves their end to the
    /// watches; a watch learns of the end of its own connection only when that
    /// was told to close.
    pub open spec fn permits(self, event: SessionEvent<C>) -> bool {
        match event {
            SessionEvent::Loop(step) => {
                &&& !self.stopped
                &&& self.forwarder.permits(step)
                &&& !(step is Ended)
                &&& step matches ForwarderEvent::Greeted(Some(connection))
                    ==> !self.started.contains(connection)
            },
            SessionEvent::Worker { connection, .. } => self.started.contains(connection),
            SessionEvent::Watch { client, event } => {
                &&& self.watches.dom().contains(client)
                &&& event is Quit ==> self.closed.contains(self.watches[client])
            },
        }
    }

    /// The state behind the event.
    pub open spec fn after(self, event: SessionEvent<C>) -> Sessions<C> {
        match event {
            SessionEvent::Loop(step) => {
                let forwarder = self.forwarder.after(step);
                match (step, self.forwarder.stage) {
                    (
                        ForwarderEvent::Greeted(Some(connection)),
                        Stage::Greeting(client),
                    ) => Sessions {
                        forwarder,
                        started: self.started.insert(connection),
                        watches: self.watches.insert(client, connection),
                        ..self
                    },
                    (ForwarderEvent::Shutdown, _) => Sessions {
                        forwarder,
                        closed: self.closed.union(self.forwarder.table.values()),
                        stopped: true,
                        ..self
                    },
                    _ => Sessions { forwarder, ..self },
                }
            },
            SessionEvent::Worker { client, connection, event } => Sessions {
                closed: if worker_action(client, event) is Close {
                    self.closed.insert(connection)
                } else {
                    self.closed
                },
                ..self
            },
            SessionEvent::Watch { client, event } => {
                let action = self.forwarder.watch_action(client, event);
                Sessions {
                    forwarder: self.forwarder.after_watch(client, event),
                    watches: if action is Wait {
                        self.watches
                    } else {
                        self.watches.remove(client)
                    },
                    closed: match action {
                        WatchAction::Close(Some(connection)) => self.closed.insert(connection),
                        WatchAction::Close(None) => self.closed.insert(self.watches[client]),
                        _ => self.closed,
                    },
                    ..self
                }
            },
        }
    }

    /// Whether the events can happen one after the other.
    pub open spec fn permits_all(self, events: Seq<SessionEvent<C>>) -> bool
        decreases events.len(),
    {
        events.len() == 0 || {
            &&& self.permits_all(events.drop_last())
            &&& self.after_all(events.drop_last()).permits(events.last())
        }
    }

    /// The state behind all events.
    pub open spec fn after_all(self, events: Seq<SessionEvent<C>>) -> Sessions<C>
        decreases events.len(),
    {
        if events.len() == 0 {
            self
        } else {
            self.after_all(events.drop_last()).after(events.last())
        }
    }

    /// While the forwarder runs, every open connection has its own watch; every
    /// connection that was ever made is open or was told to close; and a client
    /// that a connection is being made for has none.
    pub open spec fn orderly(self) -> bool {
        &&& self.forwarder.consistent()
        &&& if self.stopped {
            self.forwarder.table == Map::<SocketAddr, C>::empty()
        } else {
            self.forwarder.table == self.watches
        }
        &&& forall|connection: C| #[trigger]
            self.started.contains(connection) ==> self.closed.contains(connection)
                || self.forwarder.table.values().contains(connection)
    }
}

/// A new entry adds its value and loses none.
proof fn lemma_values_insert<C>(table: Map<SocketAddr, C>, client: SocketAddr, connection: C)
    requires
        !table.dom().contains(client),
    ensures
        table.insert(client, connection).values().contains(connection),
        forall|other: C| #[trigger]
            table.values().contains(other) ==> table.insert(client, connection).values().contains(
                other,
            ),
{
    let larger = table.insert(client, connection);
    assert(larger.dom().contains(client) && larger[client] == connection);
    assert forall|other: C| #[trigger] table.values().contains(other) implies larger.values().contains(
        other,
    ) by {
        let key = choose|key: SocketAddr| #[trigger]
            table.dom().contains(key) && table[key] == other;
        assert(larger.dom().contains(key) && larger[key] == other);
    }
}

/// Removing an entry loses no value but its own.
proof fn lemma_values_remove<C>(table: Map<SocketAddr, C>, client: SocketAddr)
    ensures
        forall|other: C| #[trigger]
            table.values().contains(other) ==> table.remove(client).values().contains(other) || (
            table.dom().contains(client) && table[client] == other),
{
    let smaller = table.remove(client);
    assert forall|other: C| #[trigger] table.values().contains(other) implies smaller.values().contains(
        other,
    ) || (table.dom().contains(client) && table[client] == other) by {
        let key = choose|key: SocketAddr| #[trigger]
            table.dom().contains(key) && table[key] == other;
        if key != client {
            assert(smaller.dom().contains(key) && smaller[key] == other);
        }
    }
}

/// One event keeps the sessions orderly.
proof fn lemma_orderly_step<C>(sessions: Sessions<C>, event: SessionEvent<C>)
    requires
        sessions.orderly(),
        sessions.permits(event),
    ensures
        sessions.after(event).orderly(),
{
    let next = sessions.after(event);
    match event {
        SessionEvent::Loop(step) => {
            if let (ForwarderEvent::Greeted(Some(connection)), Stage::Greeting(client)) = (
                step,
                sessions.forwarder.stage,
            ) {
                lemma_values_insert(sessions.forwarder.table, client, connection);
            }
        },
        SessionEvent::Worker { .. } => {},
        SessionEvent::Watch { client, event } => {
            lemma_values_remove(sessions.forwarder.table, client);
            if sessions.stopped {
                assert(next.forwarder.table == Map::<SocketAddr, C>::empty());
            }
        },
    }
}

/// No connection is lost: whatever the loop, the workers and the watches do and
/// in whatever order, every connection that was ever made is open, with its own
/// watch over it, or was told to close. What the forwarder works with stays.
pub proof fn no_connection_is_lost<C>(config: ForwarderConfig, events: Seq<SessionEvent<C>>)
    requires
        Sessions::<C>::initial(config).permits_all(events),
    ensures
        Sessions::<C>::initial(config).after_all(events).orderly(),
        Sessions::<C>::initial(config).after_all(events).forwarder.config == config,
    decreases events.len(),
{
    if events.len() > 0 {
        no_connection_is_lost(config, events.drop_last());
        lemma_orderly_step(
            Sessions::<C>::initial(config).after_all(events.drop_last()),
            events.last(),
        );
    }
}

/// A watch ends its own connection and no other: while the forwarder runs, the
/// connection that it removes is the one that it watches over, and afterwards
/// that connection was told to close.
pub proof fn a_watch_ends_its_own_connection<C>(
    sessions: Sessions<C>,
    client: SocketAddr,
    event: WatchEvent,
)
    requires
        sessions.orderly(),
        !sessions.stopped,
        sessions.permits(SessionEvent::Watch { client, event }),
    ensures
        ({
            let next = sessions.after(SessionEvent::Watch { client, event });
            &&& sessions.forwarder.connection(client) == Some(sessions.watches[client])
            &&& event is PacketReceived ==> next == sessions
            &&& !(event is PacketReceived) ==> {
                &&& next.forwarder.table == sessions.forwarder.table.remove(client)
                &&& next.closed == sessions.closed.insert(sessions.watches[client])
            }
        }),
{
    if event is Quit {
        assert(sessions.closed.insert(sessions.watches[client]) == sessions.closed);
    }
}

/// After the shutdown every connection that was ever made was told to close.
pub proof fn a_shutdown_closes_every_connection<C>(sessions: Sessions<C>)
    requires
        sessions.orderly(),
        sessions.permits(SessionEvent::Loop(ForwarderEvent::Shutdown)),
    ensures
        sessions.started.subset_of(
            sessions.after(SessionEvent::Loop(ForwarderEvent::Shutdown)).closed,
        ),
{
}

/// Replies reach their client whole: what is delivered goes to the client of the
/// connection and is as long as what was received, whatever the length. Nothing
/// is delivered otherwise.
pub proof fn replies_are_delivered_whole(client: SocketAddr, event: WorkerEvent, size: usize)
    ensures
        size > 0 ==> worker_action(client, WorkerEvent::Received(Some(size)))
            == (WorkerAction::Deliver { client, size }),
        worker_action(client, event) matches WorkerAction::Deliver { client: to, size: len } ==> to
            == client && len > 0 && event == WorkerEvent::Received(Some(len)),
{
}

/// A task goes on after every reply that was delivered or was empty; it closes
/// the connection exactly when the server is gone or the client cannot be
/// reached, and stops when the connection was closed.
pub proof fn workers_close_when_an_end_is_gone(client: SocketAddr, event: WorkerEvent)
    ensures
        worker_action(client, event) is Notify <==> event == WorkerEvent::Received(Some(0))
            || event == WorkerEvent::Delivered(true),
        worker_action(client, event) is Close <==> event == WorkerEvent::Received(None) || event
            == WorkerEvent::Delivered(false),
        worker_action(client, event) is Stop <==> event is Quit,
{
}

/// Every wait for traffic lasts the configured time: the first one of a served
/// client, and each one that follows traffic. Only its end without traffic closes
/// the connection, and then the one of that client.
pub proof fn every_wait_lasts_the_configured_time<C>(
    state: ForwarderView<C>,
    client: SocketAddr,
    event: WatchEvent,
)
    ensures
        state.watch_action(client, WatchEvent::PacketReceived) == (WatchAction::<C>::Wait {
            millis: state.config.udp_ttl_millis,
        }),
        state.service(client).wait_millis == state.config.udp_ttl_millis,
        state.watch_action(client, event) is Wait <==> event is PacketReceived,
        state.watch_action(client, event) is Close <==> event is Elapsed,
        state.watch_action(client, event) is Stop <==> event is Quit,
        state.watch_action(client, WatchEvent::Elapsed) matches WatchAction::Close(closed) && (
        closed is Some <==> state.table.dom().contains(client)) && (closed matches Some(connection)
            ==> state.table[client] == connection),
{
}

/// A wait that traffic ended changes nothing; any other end of a wait takes the
/// client, and no other, out of the table.
pub proof fn only_traffic_keeps_a_connection<C>(
    state: ForwarderView<C>,
    client: SocketAddr,
    event: WatchEvent,
)
    ensures
        event is PacketReceived ==> state.after_watch(client, event) == state,
        !(event is PacketReceived) ==> {
            let next = state.after_watch(client, event);
            &&& next.config == state.config
            &&& next.stage == state.stage
            &&& next.table == state.table.remove(client)
        },
{
}

/// A served client has as many workers as configured, and one when none is.
pub proof fn a_served_client_has_a_worker<C>(state: ForwarderView<C>, client: SocketAddr)
    ensures
        state.service(client).client == client,
        state.service(client).workers >= 1,
        state.config.worker_count >= 1 ==> state.service(client).workers
            == state.config.worker_count,
        state.config.worker_count == 0 ==> state.service(client).workers == 1,
{
}

/// A datagram of a client with a connection changes nothing; one of a client
/// without leads to an attempt to connect, for that client, and changes nothing
/// else.
pub proof fn datagrams_need_one_connection<C>(state: ForwarderView<C>, client: SocketAddr)
    ensures
        state.table.dom().contains(client) ==> state.after(ForwarderEvent::Received(client))
            == state && state.connection(client) == Some(state.table[client]),
        !state.table.dom().contains(client) ==> {
            let next = state.after(ForwarderEvent::Received(client));
            &&& next.stage == Stage::Connecting(client)
            &&& next.table == state.table
            &&& next.config == state.config
            &&& state.connection(client) is None
        },
{
}

/// An attempt to connect ends as it went, for the client that it was made for: a
/// success waits for the first datagram to leave, and with that the connection,
/// and no other, enters the table.
pub proof fn attempts_end_as_they_went<C>(
    state: ForwarderView<C>,
    client: SocketAddr,
    connection: C,
)
    ensures
        state.stage == Stage::Connecting(client) ==> {
            let success = state.after(ForwarderEvent::Connected(true));
            let failure = state.after(ForwarderEvent::Connected(false));
            &&& success.stage == Stage::Greeting(client)
            &&& failure.stage == Stage::Listening
            &&& success.table == state.table && failure.table == state.table
        },
        state.stage == Stage::Greeting(client) ==> {
            let served = state.after(ForwarderEvent::Greeted(Some(connection)));
            let lost = state.after(ForwarderEvent::Greeted(None));
            &&& served.stage == Stage::Listening && lost.stage == Stage::Listening
            &&& served.table == state.table.insert(client, connection)
            &&& lost.table == state.table
        },
        state.after(ForwarderEvent::Shutdown).table == Map::<SocketAddr, C>::empty(),
        state.after(ForwarderEvent::Shutdown).stage == state.stage,
{
}

/// What the forwarder works with, whatever happens, stays.
pub proof fn the_configuration_stays<C>(state: ForwarderView<C>, event: ForwarderEvent<C>)
    ensures
        state.after(event).config == state.config,
{
}

/// The table holds the entries of the list, each client with its connection, and
/// no others.
pub proof fn the_table_holds_the_entries<C>(forwarder: Forwarder<C>, client: SocketAddr)
    requires
        forwarder.wf(),
    ensures
        forwarder@.config == forwarder.config,
        forwarder@.stage == forwarder.stage,
        forall|i: int|
            0 <= i < forwarder.connections@.len() ==> {
                let entry = #[trigger] forwarder.connections@[i];
                forwarder@.table.dom().contains(entry.0) && forwarder@.table[entry.0] == entry.1
            },
        forwarder@.table.dom().contains(client) ==> exists|i: int|
            0 <= i < forwarder.connections@.len() && (#[trigger] forwarder.connections@[i]).0
                == client,
{
    assert forall|i: int| 0 <= i < forwarder.connections@.len() implies {
        let entry = #[trigger] forwarder.connections@[i];
        forwarder@.table.dom().contains(entry.0) && forwarder@.table[entry.0] == entry.1
    } by {
        lemma_entry(forwarder.connections@, i);
    }
}

/// A list of all connections has the connection of every client, has nothing
/// else, and is as long as the table is large.
pub proof fn listing_all_leaves_none_out<C>(
    table: Map<SocketAddr, C>,
    clients: Seq<SocketAddr>,
    connections: Seq<C>,
)
    requires
        lists_all(table, clients, connections),
    ensures
        connections.len() == table.dom().len(),
        forall|client: SocketAddr| #[trigger]
            table.dom().contains(client) ==> connections.contains(table[client]),
        forall|i: int|
            0 <= i < connections.len() ==> table.values().contains(#[trigger] connections[i]),
{
    assert(clients.to_set() == table.dom());
    clients.unique_seq_to_set();
    assert forall|client: SocketAddr| #[trigger]
        table.dom().contains(client) implies connections.contains(table[client]) by {
        let i = choose|i: int| 0 <= i < clients.len() && clients[i] == client;
        assert(connections[i] == table[clients[i]]);
    }
    assert forall|i: int| 0 <= i < connections.len() implies table.values().contains(
        #[trigger] connections[i],
    ) by {
        assert(clients.contains(clients[i]));
        assert(table.dom().contains(clients[i]) && table[clients[i]] == connections[i]);
    }
}

/// A well-formed forwarder lists no client twice, and none that a connection is
/// being made for.
pub proof fn clients_are_listed_once<C>(forwarder: Forwarder<C>, left: int, right: int)
    requires
        forwarder.wf(),
        0 <= left < right < forwarder.connections@.len(),
    ensures
        forwarder.connections@[left].0 != forwarder.connections@[right].0,
        forwarder.stage != Stage::Connecting(forwarder.connections@[left].0),
        forwarder.stage != Stage::Greeting(forwarder.connections@[left].0),
        forwarder.stage != Stage::Connecting(forwarder.connections@[right].0),
        forwarder.stage != Stage::Greeting(forwarder.connections@[right].0),
{
    lemma_entry(forwarder.connections@, left);
    lemma_entry(forwarder.connections@, right);
}

/// A connection may stay silent for three minutes.
pub proof fn silence_may_last_three_minutes()
    ensures
        UDP_TTL_MILLIS == 3 * 60 * 1000,
{
}

} // verus!
