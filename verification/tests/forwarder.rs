use phantun_client_mac::forwarder::{
    worker_step, Forwarder, ForwarderConfig, ReceiveAction, Service, Stage, WatchAction,
    WatchEvent, WorkerAction, WorkerEvent, UDP_TTL_MILLIS,
};
use phantun_client_mac::net::{SocketAddr, SocketAddrV4};

fn endpoint(ip: u32, port: u16) -> SocketAddr {
    SocketAddr::V4(SocketAddrV4 { ip, port })
}

fn config(worker_count: usize) -> ForwarderConfig {
    ForwarderConfig {
        remote_addr: endpoint_of_the_server(),
        fake_tcp_local_ipv4: 0xc000_020a,
        fake_tcp_local_ipv6: None,
        worker_count,
        udp_ttl_millis: 2000,
    }
}

/// The connection that a datagram goes out on; without one, the server is to be
/// connected.
fn receive(forwarder: &mut Forwarder<u32>, client: SocketAddr) -> Option<u32> {
    match forwarder.receive(client) {
        ReceiveAction::Send(connection) => Some(*connection),
        ReceiveAction::Connect(endpoint) => {
            assert_eq!(endpoint, endpoint_of_the_server());
            None
        }
    }
}

fn endpoint_of_the_server() -> SocketAddr {
    endpoint(0xcb00_7114, 65009)
}

fn serve(forwarder: &mut Forwarder<u32>, client: SocketAddr, connection: u32) {
    assert_eq!(receive(forwarder, client), None);
    assert_eq!(forwarder.stage, Stage::Connecting(client));
    forwarder.connected(true);
    assert_eq!(forwarder.stage, Stage::Greeting(client));
    assert_eq!(
        forwarder.greeted(Some(connection)),
        Some(Service {
            client,
            workers: 2,
            wait_millis: 2000,
        })
    );
    assert_eq!(forwarder.stage, Stage::Listening);
}

#[test]
fn every_client_keeps_its_own_connection() {
    let first = endpoint(1, 10);
    let second = endpoint(1, 11);
    let mut forwarder: Forwarder<u32> = Forwarder::new(config(2));
    serve(&mut forwarder, first, 7);
    serve(&mut forwarder, second, 8);
    assert_eq!(receive(&mut forwarder, first), Some(7));
    assert_eq!(receive(&mut forwarder, second), Some(8));
    assert_eq!(receive(&mut forwarder, first), Some(7));
}

#[test]
fn silence_closes_the_connection_and_a_new_one_may_follow() {
    let client = endpoint(1, 10);
    let other = endpoint(2, 10);
    let mut forwarder: Forwarder<u32> = Forwarder::new(config(2));
    serve(&mut forwarder, client, 7);
    serve(&mut forwarder, other, 8);
    assert!(matches!(
        forwarder.watch(client, WatchEvent::PacketReceived),
        WatchAction::Wait { millis: 2000 }
    ));
    assert!(matches!(
        forwarder.watch(client, WatchEvent::Elapsed),
        WatchAction::Close(Some(7))
    ));
    assert!(matches!(
        forwarder.watch(client, WatchEvent::Elapsed),
        WatchAction::Close(None)
    ));
    assert_eq!(receive(&mut forwarder, other), Some(8));
    serve(&mut forwarder, client, 9);
    assert_eq!(receive(&mut forwarder, client), Some(9));
}

#[test]
fn a_closed_connection_is_forgotten() {
    let client = endpoint(1, 10);
    let mut forwarder: Forwarder<u32> = Forwarder::new(config(2));
    serve(&mut forwarder, client, 7);
    assert!(matches!(
        forwarder.watch(client, WatchEvent::Quit),
        WatchAction::Stop
    ));
    assert_eq!(receive(&mut forwarder, client), None);
}

#[test]
fn failed_attempts_leave_the_table_alone() {
    let client = endpoint(1, 10);
    let other = endpoint(2, 10);
    let mut forwarder: Forwarder<u32> = Forwarder::new(config(2));
    serve(&mut forwarder, other, 8);
    assert_eq!(receive(&mut forwarder, client), None);
    forwarder.connected(false);
    assert_eq!(forwarder.stage, Stage::Listening);
    assert_eq!(receive(&mut forwarder, client), None);
    forwarder.connected(true);
    assert_eq!(forwarder.greeted(None), None);
    assert_eq!(forwarder.stage, Stage::Listening);
    assert_eq!(receive(&mut forwarder, client), None);
    forwarder.connected(false);
    assert_eq!(receive(&mut forwarder, other), Some(8));
}

#[test]
fn connections_may_end_while_another_is_made() {
    let client = endpoint(1, 10);
    let other = endpoint(2, 10);
    let mut forwarder: Forwarder<u32> = Forwarder::new(config(2));
    serve(&mut forwarder, other, 8);
    assert_eq!(receive(&mut forwarder, client), None);
    assert!(matches!(
        forwarder.watch(other, WatchEvent::Quit),
        WatchAction::Stop
    ));
    forwarder.connected(true);
    assert_eq!(
        forwarder.greeted(Some(7)).map(|service| service.client),
        Some(client)
    );
    assert_eq!(receive(&mut forwarder, client), Some(7));
    assert_eq!(receive(&mut forwarder, other), None);
}

#[test]
fn shutdown_hands_out_every_connection_once() {
    let mut forwarder: Forwarder<u32> = Forwarder::new(config(2));
    serve(&mut forwarder, endpoint(1, 10), 7);
    serve(&mut forwarder, endpoint(1, 11), 8);
    serve(&mut forwarder, endpoint(1, 12), 9);
    let mut connections = forwarder.cancel_all_connections();
    connections.sort();
    assert_eq!(connections, vec![7, 8, 9]);
    assert!(forwarder.cancel_all_connections().is_empty());
    assert_eq!(receive(&mut forwarder, endpoint(1, 10)), None);
}

#[test]
fn there_is_always_a_worker() {
    for (configured, workers) in [(0, 1), (1, 1), (8, 8)] {
        let mut forwarder: Forwarder<u32> = Forwarder::new(config(configured));
        assert_eq!(receive(&mut forwarder, endpoint(1, 10)), None);
        forwarder.connected(true);
        let service = forwarder.greeted(Some(7)).expect("a served client");
        assert_eq!(service.workers, workers);
    }
    assert_eq!(UDP_TTL_MILLIS, 180_000);
}

#[test]
fn replies_go_to_the_client_of_the_connection() {
    let client = endpoint(1, 10);
    assert_eq!(
        worker_step(client, WorkerEvent::Received(Some(5))),
        WorkerAction::Deliver { client, size: 5 }
    );
    assert_eq!(
        worker_step(client, WorkerEvent::Received(Some(0))),
        WorkerAction::Notify
    );
    assert_eq!(
        worker_step(client, WorkerEvent::Received(None)),
        WorkerAction::Close
    );
    assert_eq!(
        worker_step(client, WorkerEvent::Delivered(true)),
        WorkerAction::Notify
    );
    assert_eq!(
        worker_step(client, WorkerEvent::Delivered(false)),
        WorkerAction::Close
    );
    assert_eq!(worker_step(client, WorkerEvent::Quit), WorkerAction::Stop);
}
