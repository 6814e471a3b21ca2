use rustlab::client::{Client, ClientStep};
use rustlab::protocol::ReadOutcome;
use rustlab::server::{Server, ServerStep};

#[test]
fn create_test() {
    let _s = Server::new("127.0.0.1:3000".into());
}

#[test]
fn server_starts_empty() {
    let s = Server::new("127.0.0.1:3000".into());
    assert_eq!(s.ip(), "127.0.0.1:3000");
    assert!(s.clients().is_empty());
    let i = Server::init();
    assert_eq!(i.ip(), "");
}

#[test]
fn client_init_defaults() {
    let c = Client::init();
    assert_eq!(
        c.to_display_string(),
        "nickname: User123$, ip: 127.0.0.1, tcp_port: 5000, udp_port: 0"
    );
}

#[test]
fn client_new_accepts_valid_registration() {
    let c = Client::new("Alice$".into(), "192.168.0.12".into(), 4000);
    assert_eq!(c.nickname(), "Alice$");
    assert_eq!(c.ip(), "192.168.0.12");
    assert_eq!(c.tcp_port(), 4000);
    assert_eq!(c.udp_port(), 0);
}

#[test]
fn client_new_falls_back_on_invalid_registration() {
    for (nick, ip, port) in [
        ("Alice", "192.168.0.12", 4000),
        ("Al$", "192.168.0.12", 4000),
        ("Alice$", "256.1.1.1", 4000),
        ("Alice$", "1.2.3", 4000),
        ("Alice$", "10.0.0.1", 0),
        ("Alice$", "10.0.0.1", 65535),
    ] {
        let c = Client::new(nick.into(), ip.into(), port);
        assert_eq!(c.nickname(), "User123$");
        assert_eq!(c.ip(), "127.0.0.1");
        assert_eq!(c.tcp_port(), 5000);
    }
    assert!(Client::registration_valid("abc$", "0.0.0.0", 1));
    assert!(!Client::registration_valid("abc$x", "0.0.0.0", 1));
}

#[test]
fn write_into_buf_copies_bytes() {
    let (buf, len) = Client::write_into_buf("héllo".into());
    assert_eq!(len, 6);
    assert_eq!(&buf[..len], "héllo".as_bytes());
    assert!(buf[len..].iter().all(|b| *b == 0));
    let (buf, len) = Server::write_into_buf(String::new());
    assert_eq!(len, 0);
    assert!(buf.iter().all(|b| *b == 0));
}

#[test]
fn client_reply_from_read() {
    assert_eq!(Client::reply_from_read(ReadOutcome::Closed, 0), "C_SOCKET_CLOSED");
    assert_eq!(Client::reply_from_read(ReadOutcome::Failed, 0), "CLIENT_READ_ERR");
    assert_eq!(
        Client::reply_from_read(ReadOutcome::Data("  hi there \0\0\0".into()), 3),
        "hi there"
    );
    assert_eq!(Client::reply_from_read(ReadOutcome::Data("hi".into()), 11), "LOGOUT");
    assert_eq!(Client::reply_from_read(ReadOutcome::Data("bye$".into()), 1), "LOGOUT");
}

#[test]
fn client_steps() {
    assert_eq!(Client::step_for("EXIT"), ClientStep::Exit);
    assert_eq!(Client::step_for("LOGOUT"), ClientStep::Logout);
    assert_eq!(Client::step_for("UDP"), ClientStep::OpenUdp);
    assert_eq!(Client::step_for("C_SOCKED_CLOSED"), ClientStep::Stop);
    assert_eq!(Client::step_for("C_SOCKET_CLOSED"), ClientStep::Continue);
    assert_eq!(Client::step_for("hello"), ClientStep::Continue);
}

#[test]
fn client_udp_port_from_reply() {
    let mut c = Client::init();
    c.set_udp_port("-4242");
    assert_eq!(c.udp_port(), -4242);
    c.set_udp_port("+70");
    assert_eq!(c.udp_port(), 70);
    assert_eq!(c.tcp_port(), 5000);
}

#[test]
fn server_reply_from_read() {
    assert!(!Server::timed_out(30));
    assert!(Server::timed_out(31));
    assert_eq!(Server::reply_from_read(ReadOutcome::Closed), "LOGOUT");
    assert_eq!(Server::reply_from_read(ReadOutcome::Failed), "S_RECEIVE_ERR");
    assert_eq!(Server::reply_from_read(ReadOutcome::Data("\n msg \n".into())), "msg");
    assert_eq!(Server::reply_from_read(ReadOutcome::Data("a$b".into())), "LOGOUT");
}

fn replies(step: ServerStep) -> (Vec<String>, bool) {
    match step {
        ServerStep::Respond { replies, keep_connection } => (replies, keep_connection),
        ServerStep::Exit => panic!("unexpected exit"),
    }
}

#[test]
fn server_echoes_and_logs_out() {
    let mut s = Server::new("0.0.0.0:1".into());
    s.register_client(1000);
    s.register_client(2000);
    s.register_client(3000);
    assert_eq!(replies(s.handle_client("hello", 2000)), (vec!["hello".to_string()], true));
    assert_eq!(replies(s.handle_client("S_RECEIVE_ERR", 2000)), (vec![], false));
    assert_eq!(replies(s.handle_client("LOGOUT", 2000)), (vec!["LOGOUT".to_string()], false));
    assert_eq!(s.clients(), &[1000, 3000]);
    assert_eq!(replies(s.handle_client("LOGOUT", 4000)), (vec![], false));
    assert_eq!(s.clients(), &[1000, 3000]);
    assert_eq!(
        replies(s.handle_client("SERVER_SHUTDOWN", 1000)),
        (vec!["LOGOUT".to_string()], false)
    );
    assert_eq!(s.clients(), &[3000]);
    assert!(matches!(s.handle_client("TIMEOUT_SHUTDOWN", 3000), ServerStep::Exit));
}

#[test]
fn server_shutdown_without_clients_exits() {
    let mut s = Server::init();
    assert!(matches!(s.handle_client("SERVER_SHUTDOWN", 1), ServerStep::Exit));
    assert!(matches!(s.handle_client("S_CLIENT_CLOSE", 1), ServerStep::Exit));
}

#[test]
fn server_logout_shifts_on_repeated_port() {
    let mut s = Server::init();
    s.register_client(5);
    s.register_client(7);
    s.register_client(5);
    s.register_client(9);
    // The first removal shifts the list, so the second index hits port 9.
    assert_eq!(
        replies(s.handle_client("LOGOUT", 5)),
        (vec!["LOGOUT".to_string(), "LOGOUT".to_string()], false)
    );
    assert_eq!(s.clients(), &[7, 5]);
}

#[test]
fn server_checked_handling() {
    let mut s = Server::init();
    s.register_client(5);
    s.register_client(5);
    assert!(s.handling_fails("LOGOUT", 5));
    assert!(s.handle_client_checked("LOGOUT", 5).is_none());
    assert_eq!(s.clients(), &[5, 5]);
    assert!(!s.handling_fails("LOGOUT", 6));
    assert!(!s.handling_fails("hello", 5));
    assert!(s.handle_client_checked("hello", 5).is_some());
}

#[test]
fn client_session_ends_at_timeout() {
    assert!(!Client::session_over(0));
    assert!(!Client::session_over(9));
    assert!(Client::session_over(10));
    assert!(Client::session_over(11));
}

#[test]
fn server_loop_decisions() {
    assert!(Server::still_serving(0));
    assert!(Server::still_serving(29));
    assert!(!Server::still_serving(30));
    assert!(Server::logs_out("LOGOUT"));
    assert!(Server::logs_out("SERVER_SHUTDOWN"));
    assert!(Server::logs_out("S_CLIENT_CLOSE"));
    assert!(!Server::logs_out("TIMEOUT_SHUTDOWN"));
    assert!(!Server::logs_out("hello"));
}

#[test]
fn registration_from_given_answers() {
    assert!(Client::registration_from_matches(true, true, 8080));
    assert!(!Client::registration_from_matches(false, true, 8080));
    assert!(!Client::registration_from_matches(true, false, 8080));
    assert!(!Client::registration_from_matches(true, true, 0));
    assert!(!Client::registration_from_matches(true, true, 65535));
    assert!(Client::registration_from_matches(true, true, 65534));
}
