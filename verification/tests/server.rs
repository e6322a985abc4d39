use revproxy::backend::{Backend, BackendStatus};
use revproxy::buffer::{Buffer, BufferMode};
use revproxy::events::{socket_type, ClientResult, ConnectionError, SocketType};
use revproxy::messages::{Instance, Order, ServerMessageStatus, TcpFront};
use revproxy::server::{instance_addr, u16_to_string, Dispatch, Server, TcpProxyOrder};
use revproxy::session::{Client, ConnectionStatus, ReadOutcome, WriteOutcome};

const L: usize = 10;
const C: usize = 500;

fn addr() -> String {
    String::from("127.0.0.1:5678")
}

fn server_with_one_instance() -> (Server, usize) {
    let mut s = Server::new(L, C, 3);
    let tok = s
        .add_tcp_front(1234, &String::from("app_a"), true)
        .expect("no listener slot");
    s.add_instance(&String::from("app_a"), &addr());
    (s, tok)
}

#[test]
fn identifier_ranges() {
    assert_eq!(socket_type(0, L, C), Some(SocketType::Listener));
    assert_eq!(socket_type(L - 1, L, C), Some(SocketType::Listener));
    assert_eq!(socket_type(L, L, C), Some(SocketType::FrontClient));
    assert_eq!(socket_type(L + C - 1, L, C), Some(SocketType::FrontClient));
    assert_eq!(socket_type(L + C, L, C), Some(SocketType::BackClient));
    assert_eq!(socket_type(L + 2 * C - 1, L, C), Some(SocketType::BackClient));
    assert_eq!(socket_type(L + 2 * C, L, C), None);
}

#[test]
fn tcp_happy_path() {
    let (mut s, ltok) = server_with_one_instance();
    let picked = s.pick_backend(ltok, 42).expect("no backend picked");
    assert_eq!(picked, addr());
    assert!(s.try_admit());
    let ft = s.register_session(ltok, &picked).expect("no session");
    assert_eq!(s.dispatch(ft), Dispatch::FrontIo(ft));
    {
        let cs = s.get_session(ft).expect("no session stored");
        assert_eq!(cs.session.status, ConnectionStatus::Connected);
        assert_eq!(cs.session.token, Some(ft));
        let bt = cs.session.backend_token.expect("no back token");
        assert_eq!(s.dispatch(bt), Dispatch::BackIo(ft));
    }
    assert_eq!(s.instances[0].backends[0].active_connections, 1);

    // client writes "hello"; it is forwarded to the back in order
    assert!(s.client_readable(ft, ReadOutcome::Data(b"hello".to_vec())));
    assert_eq!(
        s.get_session(ft).unwrap().session.front_buf.pending(),
        &b"hello".to_vec()
    );
    assert!(s.client_back_writable(ft, WriteOutcome::Wrote(5)));
    assert!(s.get_session(ft).unwrap().session.front_buf.pending().is_empty());

    // the echo server answers with "hello END"
    assert!(s.client_back_readable(ft, ReadOutcome::Data(b"hello END".to_vec())));
    assert_eq!(
        s.get_session(ft).unwrap().session.back_buf.pending(),
        &b"hello END".to_vec()
    );
    assert!(s.client_writable(ft, WriteOutcome::Wrote(9)));
    let cs = s.get_session(ft).unwrap();
    assert_eq!(cs.session.rx_count, 5);
    assert_eq!(cs.session.tx_count, 9);

    assert!(s.close_client(ft));
    assert_eq!(s.live, 0);
    assert_eq!(s.instances[0].backends[0].active_connections, 0);
    assert_eq!(s.dispatch(ft), Dispatch::Stale);
}

#[test]
fn partial_writes_keep_order() {
    let (mut s, ltok) = server_with_one_instance();
    let ft = s.register_session(ltok, &addr()).expect("no session");
    assert!(s.client_readable(ft, ReadOutcome::Data(b"abcdef".to_vec())));
    assert!(s.client_back_writable(ft, WriteOutcome::Wrote(2)));
    assert_eq!(
        s.get_session(ft).unwrap().session.front_buf.pending(),
        &b"cdef".to_vec()
    );
    assert!(s.client_back_writable(ft, WriteOutcome::Wrote(4)));
    assert!(s.get_session(ft).unwrap().session.front_buf.pending().is_empty());
    assert_eq!(
        s.get_session(ft).unwrap().session.front_buf.mode(),
        BufferMode::Fill
    );
}

#[test]
fn would_block_changes_nothing() {
    let (mut s, ltok) = server_with_one_instance();
    let ft = s.register_session(ltok, &addr()).expect("no session");
    assert!(s.client_readable(ft, ReadOutcome::Data(b"abc".to_vec())));
    let before_pending = s.get_session(ft).unwrap().session.front_buf.pending().clone();
    let before_rx = s.get_session(ft).unwrap().session.rx_count;
    assert!(s.client_readable(ft, ReadOutcome::WouldBlock));
    assert!(s.client_back_writable(ft, WriteOutcome::WouldBlock));
    assert!(s.client_writable(ft, WriteOutcome::WouldBlock));
    assert!(s.client_back_readable(ft, ReadOutcome::WouldBlock));
    let cs = s.get_session(ft).unwrap();
    assert_eq!(cs.session.front_buf.pending(), &before_pending);
    assert_eq!(cs.session.rx_count, before_rx);
    // a blocked back write re-registers back-write interest
    assert!(cs.session.back_interest.writable);
}

#[test]
fn accept_rejected_when_full() {
    let mut s = Server::new(2, 1, 3);
    let ltok = s
        .add_tcp_front(1234, &String::from("app_a"), true)
        .expect("no listener slot");
    s.add_instance(&String::from("app_a"), &addr());
    assert!(s.try_admit());
    let _ft = s.register_session(ltok, &addr()).expect("no session");
    assert_eq!(s.accept_rejected, 0);
    assert!(!s.try_admit());
    assert_eq!(s.accept_rejected, 1);
    assert!(!s.try_admit());
    assert_eq!(s.accept_rejected, 2);
}

#[test]
fn backend_failure_accounting() {
    let mut s = Server::new(L, C, 2);
    let app = String::from("app_a");
    let ltok = s.add_tcp_front(1234, &app, true).expect("no listener slot");
    let a1 = String::from("10.0.0.1:80");
    let a2 = String::from("10.0.0.2:80");
    s.add_instance(&app, &a1);
    s.add_instance(&app, &a2);
    // every connect is refused; each pick is followed by a failure
    let mut attempts = 0;
    for rnd in 0..16 {
        match s.pick_backend(ltok, rnd) {
            Ok(chosen) => {
                attempts += 1;
                s.connect_failed(&app, &chosen);
            }
            Err(e) => {
                assert_eq!(e, ConnectionError::NoBackendAvailable);
                break;
            }
        }
    }
    // two instances, two failures each, then no candidate is left: the
    // fifth attempt fails the session
    assert_eq!(attempts, 4);
    assert_eq!(s.pick_backend(ltok, 0), Err(ConnectionError::NoBackendAvailable));
    assert!(s.instances[0].backends[0].failures >= 1);
    assert!(s.instances[0].backends[1].failures >= 1);
}

#[test]
fn remove_instance_drains() {
    let (mut s, ltok) = server_with_one_instance();
    let ft = s.register_session(ltok, &addr()).expect("no session");
    assert_eq!(s.instances[0].backends[0].active_connections, 1);
    s.remove_instance(&String::from("app_a"), &addr());
    // still in the table, draining, and not pickable
    assert_eq!(s.instances[0].backends[0].status, BackendStatus::Closing);
    assert_eq!(s.pick_backend(ltok, 0), Err(ConnectionError::NoBackendAvailable));
    assert!(s.register_session(ltok, &addr()).is_err());
    // the last session ends: the instance disappears
    assert!(s.close_client(ft));
    assert_eq!(s.instances[0].backends.len(), 0);
}

#[test]
fn remove_instance_without_sessions_disappears_at_once() {
    let (mut s, _ltok) = server_with_one_instance();
    s.remove_instance(&String::from("app_a"), &addr());
    assert_eq!(s.instances[0].backends.len(), 0);
}

#[test]
fn soft_stop_drains() {
    let (mut s, ltok) = server_with_one_instance();
    let ft = s.register_session(ltok, &addr()).expect("no session");
    // mid-response
    assert!(s.client_back_readable(ft, ReadOutcome::Data(b"HTTP/1.1 200 OK\r\n".to_vec())));
    let reply = s.notify(&TcpProxyOrder::Command(Order::SoftStop), false);
    assert_eq!(reply, ServerMessageStatus::Processing);
    // new connects are refused, the in-flight session lives on
    assert!(!s.try_admit());
    assert!(s.register_session(ltok, &addr()).is_err());
    assert!(!s.done());
    // the response completes, the session ends, the loop is over
    assert!(s.client_writable(ft, WriteOutcome::Wrote(17)));
    assert!(s.close_client(ft));
    assert!(s.done());
}

#[test]
fn hard_stop_discards_everything() {
    let (mut s, ltok) = server_with_one_instance();
    let _ft = s.register_session(ltok, &addr()).expect("no session");
    let reply = s.notify(&TcpProxyOrder::Stop, false);
    assert_eq!(reply, ServerMessageStatus::Success);
    assert_eq!(s.live, 0);
    assert!(s.done());
    assert_eq!(s.instances.len(), 0);
}

#[test]
fn notify_applies_tcp_orders() {
    let mut s = Server::new(L, C, 3);
    let front = TcpFront {
        app_id: String::from("app_a"),
        ip_address: String::from("127.0.0.1"),
        port: 1234,
    };
    let reply = s.notify(&TcpProxyOrder::Command(Order::AddTcpFront(front.clone())), true);
    assert_eq!(reply, ServerMessageStatus::Success);
    let instance = Instance {
        app_id: String::from("app_a"),
        ip_address: String::from("127.0.0.1"),
        port: 5678,
    };
    let reply = s.notify(&TcpProxyOrder::Command(Order::AddInstance(instance.clone())), false);
    assert_eq!(reply, ServerMessageStatus::Success);
    assert_eq!(s.instances[0].backends[0].address, "127.0.0.1:5678");
    let reply = s.notify(&TcpProxyOrder::Command(Order::RemoveInstance(instance)), false);
    assert_eq!(reply, ServerMessageStatus::Success);
    assert_eq!(s.instances[0].backends.len(), 0);
    let reply = s.notify(&TcpProxyOrder::Command(Order::RemoveTcpFront(front)), false);
    assert_eq!(reply, ServerMessageStatus::Success);
    let reply = s.notify(&TcpProxyOrder::Command(Order::Status), false);
    assert_eq!(reply, ServerMessageStatus::Success);
    let reply = s.notify(
        &TcpProxyOrder::Command(Order::RemoveCertificate(vec![1])),
        false,
    );
    assert!(matches!(reply, ServerMessageStatus::Error(_)));
}

#[test]
fn bind_failure_is_an_error() {
    let mut s = Server::new(L, C, 3);
    assert!(s.add_tcp_front(1234, &String::from("app_a"), false).is_none());
    let front = TcpFront {
        app_id: String::from("app_a"),
        ip_address: String::from("127.0.0.1"),
        port: 1234,
    };
    let reply = s.notify(&TcpProxyOrder::Command(Order::AddTcpFront(front)), false);
    assert!(matches!(reply, ServerMessageStatus::Error(_)));
}

#[test]
fn front_and_back_hups() {
    let (mut s, ltok) = server_with_one_instance();
    let ft = s.register_session(ltok, &addr()).expect("no session");
    // back closes first: the session half-closes and continues
    assert_eq!(s.client_back_hup(ft), Some(ClientResult::Continue));
    assert_eq!(
        s.get_session(ft).unwrap().session.status,
        ConnectionStatus::ServerClosed
    );
    // then the front closes: the session is over
    assert_eq!(s.client_front_hup(ft), Some(ClientResult::CloseClient));
    assert!(s.close_client(ft));
    assert_eq!(s.client_front_hup(ft), None);
}

#[test]
fn backend_connection_counters() {
    let mut b = Backend::new(addr());
    assert!(b.can_open(3));
    assert_eq!(b.inc_connections(), Some(1));
    assert_eq!(b.inc_connections(), Some(2));
    assert_eq!(b.dec_connections(), Some(1));
    b.set_closing();
    assert!(!b.can_open(3));
    assert_eq!(b.inc_connections(), None);
    // the draining instance closes when its last session ends
    assert_eq!(b.dec_connections(), None);
    assert_eq!(b.status, BackendStatus::Closed);
}

#[test]
fn backend_try_connect_bookkeeping() {
    let mut b = Backend::new(addr());
    assert_eq!(b.try_connect(2, true), Ok(()));
    assert_eq!(b.active_connections, 1);
    assert_eq!(b.try_connect(2, false), Err(ConnectionError::NoBackendAvailable));
    assert_eq!(b.failures, 1);
    assert_eq!(b.try_connect(2, false), Err(ConnectionError::NoBackendAvailable));
    // two failures reach the threshold: unavailable without an attempt
    assert_eq!(b.try_connect(2, true), Err(ConnectionError::NoBackendAvailable));
    assert_eq!(b.active_connections, 1);
}

#[test]
fn buffer_fill_and_drain_discipline() {
    let mut b = Buffer::new(8);
    assert_eq!(b.mode(), BufferMode::Fill);
    b.fill(&[1, 2, 3, 4]);
    assert_eq!(b.len(), 4);
    assert_eq!(b.available(), 4);
    b.flip_to_drain();
    b.consume(3);
    assert_eq!(b.pending(), &vec![4u8]);
    b.consume(1);
    assert!(b.is_empty());
    b.flip_to_fill();
    b.fill(&[9; 8]);
    assert!(b.is_full());
}

#[test]
fn session_interest_derivation() {
    let mut c = Client::new();
    c.status = ConnectionStatus::Connected;
    let ev = c.required_events();
    assert!(ev.front_readable());
    assert!(!ev.front_writable());
    assert!(ev.back_readable());
    assert!(!ev.back_writable());
    c.readable(ReadOutcome::Data(b"xy".to_vec()));
    let ev = c.required_events();
    assert!(ev.back_writable());
    c.status = ConnectionStatus::Closed;
    let ev = c.required_events();
    assert!(!ev.front_readable() && !ev.front_writable());
    assert!(!ev.back_readable() && !ev.back_writable());
}

#[test]
fn port_and_address_text() {
    assert_eq!(u16_to_string(0), "0");
    assert_eq!(u16_to_string(7), "7");
    assert_eq!(u16_to_string(10), "10");
    assert_eq!(u16_to_string(1234), "1234");
    assert_eq!(u16_to_string(65535), "65535");
    assert_eq!(instance_addr(&String::from("127.0.0.1"), 5678), "127.0.0.1:5678");
}

#[test]
fn stale_identifiers_dispatch_nowhere() {
    let (mut s, ltok) = server_with_one_instance();
    assert_eq!(s.dispatch(ltok), Dispatch::Accept);
    assert_eq!(s.dispatch(L - 1), Dispatch::Stale);
    assert_eq!(s.dispatch(L + 3), Dispatch::Stale);
    assert_eq!(s.dispatch(L + C + 3), Dispatch::Stale);
    assert_eq!(s.dispatch(L + 2 * C + 1), Dispatch::Stale);
    assert!(!s.close_client(L + 3));
    assert!(!s.client_readable(L + 3, ReadOutcome::WouldBlock));
    let removed = s.remove_tcp_front(&String::from("app_a"));
    assert_eq!(removed, Some(ltok));
    assert_eq!(s.dispatch(ltok), Dispatch::Stale);
}

#[test]
fn half_close_from_front_still_delivers() {
    let (mut s, ltok) = server_with_one_instance();
    let ft = s.register_session(ltok, &addr()).expect("no session");
    // full request in, then the front closes its write half
    assert!(s.client_readable(ft, ReadOutcome::Data(b"request body".to_vec())));
    assert_eq!(s.client_front_hup(ft), Some(ClientResult::Continue));
    assert_eq!(
        s.get_session(ft).unwrap().session.status,
        ConnectionStatus::ClientClosed
    );
    // the request still reaches the back, and the back still wants it
    let ev = s.client_required_events(ft).unwrap();
    assert!(ev.back_writable());
    assert!(s.client_back_writable(ft, WriteOutcome::Wrote(12)));
    // the response still reaches the front, in full, before the back
    // goes away
    assert!(s.client_back_readable(ft, ReadOutcome::Data(b"response".to_vec())));
    let ev = s.client_required_events(ft).unwrap();
    assert!(ev.front_writable());
    assert!(s.client_writable(ft, WriteOutcome::Wrote(8)));
    assert!(s.get_session(ft).unwrap().session.back_buf.pending().is_empty());
    // now the back hangs up: the session is over
    assert_eq!(s.client_back_hup(ft), Some(ClientResult::CloseClient));
    assert!(s.close_client(ft));
}

#[test]
fn removing_a_front_drops_its_binding() {
    let (mut s, ltok) = server_with_one_instance();
    assert_eq!(s.remove_tcp_front(&String::from("app_b")), None);
    assert_eq!(s.remove_tcp_front(&String::from("app_a")), Some(ltok));
    // the binding is gone with the listener: a second removal finds
    // nothing
    assert_eq!(s.remove_tcp_front(&String::from("app_a")), None);
    // rebinding hands out a fresh listener slot
    let tok2 = s
        .add_tcp_front(4321, &String::from("app_a"), true)
        .expect("no listener slot");
    assert_eq!(s.remove_tcp_front(&String::from("app_a")), Some(tok2));
}

#[test]
fn adding_a_known_instance_changes_nothing() {
    let (mut s, _ltok) = server_with_one_instance();
    assert_eq!(s.instances[0].backends.len(), 1);
    s.add_instance(&String::from("app_a"), &addr());
    assert_eq!(s.instances[0].backends.len(), 1);
    assert_eq!(s.instances[0].backends[0].status, BackendStatus::Normal);
    assert_eq!(s.instances[0].backends[0].failures, 0);
}

#[test]
fn connect_failures_are_counted_once_each() {
    let (mut s, _ltok) = server_with_one_instance();
    s.connect_failed(&String::from("app_a"), &addr());
    assert_eq!(s.instances[0].backends[0].failures, 1);
    // an unknown pair changes nothing
    s.connect_failed(&String::from("app_b"), &addr());
    s.connect_failed(&String::from("app_a"), &String::from("10.9.9.9:1"));
    assert_eq!(s.instances[0].backends[0].failures, 1);
    assert_eq!(s.instances.len(), 1);
}
