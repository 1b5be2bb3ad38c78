use ws_gateway::address::Address;
use ws_gateway::command::{read_instruction, Instruction, MESSAGE_ARGS_LENGTH};
use ws_gateway::error::MyError;
use ws_gateway::filter::Filter;
use ws_gateway::gateway::{authorize, Evidence};
use ws_gateway::server::{
    Beat, Message, MyWebSocket, Reply, SessionState, Step, CLIENT_TIMEOUT, HEARTBEAT_INTERVAL,
};

fn ip(text: &str) -> Address {
    Address::parse(text).unwrap()
}

fn active(filter: &Filter, now: u64) -> MyWebSocket {
    let mut session = MyWebSocket::new(filter, now);
    session.started(now);
    session
}

fn peer(address: &str) -> Evidence {
    Evidence { is_browser_like: false, peer_address: Some(ip(address)), bearer_credential: None }
}

#[test]
fn constants_have_their_values() {
    assert_eq!(HEARTBEAT_INTERVAL, 5_000);
    assert_eq!(CLIENT_TIMEOUT, 10_000);
    assert_eq!(MESSAGE_ARGS_LENGTH, 2);
}

#[test]
fn new_session_is_connecting_and_keeps_the_listing() {
    let filter = Filter::new();
    let session = MyWebSocket::new(&filter, 17);
    assert_eq!(session.state(), SessionState::Connecting);
    assert_eq!(session.last_activity(), 17);
    assert_eq!(session.cause(), None);
    assert_eq!(session.snapshot(), "Authorized clients: {127.0.0.1}");
    assert!(!session.is_active());
}

#[test]
fn started_session_is_active() {
    let filter = Filter::new();
    let mut session = MyWebSocket::new(&filter, 17);
    session.started(20);
    assert_eq!(session.state(), SessionState::Active);
    assert_eq!(session.last_activity(), 20);
    assert!(session.is_active());
    session.started(30);
    assert_eq!(session.last_activity(), 20);
}

#[test]
fn instructions_are_read_from_text() {
    assert_eq!(read_instruction("ADD 10.0.0.5"), Instruction::Add(ip("10.0.0.5")));
    assert_eq!(read_instruction("REMOVE 10.0.0.5"), Instruction::Remove(ip("10.0.0.5")));
    assert_eq!(read_instruction("  ADD \t 10.0.0.5 \r\n"), Instruction::Add(ip("10.0.0.5")));
    assert_eq!(read_instruction("ADD"), Instruction::Echo);
    assert_eq!(read_instruction(""), Instruction::Echo);
    assert_eq!(read_instruction("ADD 10.0.0.5 now"), Instruction::Echo);
    assert_eq!(read_instruction("add 10.0.0.5"), Instruction::Echo);
    assert_eq!(read_instruction("hello world"), Instruction::Echo);
    assert_eq!(read_instruction("ADD nowhere"), Instruction::Ignore);
    assert_eq!(read_instruction("REMOVE 10.0.0.256"), Instruction::Ignore);
    assert_eq!(read_instruction("ADD\u{a0}10.0.0.5"), Instruction::Echo);
}

#[test]
fn add_command_admits_the_added_peer() {
    let mut filter = Filter::new();
    let mut session = active(&filter, 0);
    assert_eq!(authorize(&filter, &peer("10.0.0.5")), Err(MyError::NotAuthorized));
    let reply = session.handle(&mut filter, Message::Text("ADD 10.0.0.5".to_string()), 1);
    assert_eq!(reply, Reply::Nothing);
    assert_eq!(authorize(&filter, &peer("10.0.0.5")), Ok(()));
    assert_ne!(filter.get_token(), "1234");
}

#[test]
fn one_word_is_echoed_and_changes_nothing() {
    let mut filter = Filter::new();
    let mut session = active(&filter, 0);
    let reply = session.handle(&mut filter, Message::Text("ADD".to_string()), 1);
    assert_eq!(reply, Reply::Text("ADD".to_string()));
    assert_eq!(filter.list_clients(), "Authorized clients: {127.0.0.1}");
    assert_eq!(filter.get_token(), "1234");
    assert_eq!(session.last_activity(), 0);
    assert_eq!(session.state(), SessionState::Active);
}

#[test]
fn other_text_is_echoed_verbatim() {
    let mut filter = Filter::new();
    let mut session = active(&filter, 0);
    for text in ["", "hello", "  spaced  out  ", "PING 1.2.3.4", "ADD 1.2.3.4 5", "a b c d"] {
        let reply = session.handle(&mut filter, Message::Text(text.to_string()), 1);
        assert_eq!(reply, Reply::Text(text.to_string()));
    }
    assert_eq!(filter.get_token(), "1234");
}

#[test]
fn remove_twice_is_idempotent() {
    let mut filter = Filter::new();
    let mut session = active(&filter, 0);
    session.handle(&mut filter, Message::Text("ADD 10.0.0.5".to_string()), 1);
    assert!(filter.check_ip(&ip("10.0.0.5")));
    let first = session.handle(&mut filter, Message::Text("REMOVE 10.0.0.5".to_string()), 2);
    assert_eq!(first, Reply::Nothing);
    assert!(!filter.check_ip(&ip("10.0.0.5")));
    let second = session.handle(&mut filter, Message::Text("REMOVE 10.0.0.5".to_string()), 3);
    assert_eq!(second, Reply::Nothing);
    assert!(!filter.check_ip(&ip("10.0.0.5")));
    assert!(!filter.remove_ip(&ip("10.0.0.5")));
}

#[test]
fn malformed_address_is_ignored_in_silence() {
    let mut filter = Filter::new();
    let mut session = active(&filter, 0);
    let reply = session.handle(&mut filter, Message::Text("ADD 10.0.0".to_string()), 1);
    assert_eq!(reply, Reply::Nothing);
    let reply = session.handle(&mut filter, Message::Text("REMOVE localhost".to_string()), 1);
    assert_eq!(reply, Reply::Nothing);
    assert_eq!(filter.list_clients(), "Authorized clients: {127.0.0.1}");
    assert_eq!(filter.get_token(), "1234");
}

#[test]
fn handle_with_takes_the_drawn_token() {
    let mut filter = Filter::new();
    let mut session = active(&filter, 0);
    let reply = session.handle_with(&mut filter, Message::Text("ADD 10.0.0.5".to_string()), 1, 4321);
    assert_eq!(reply, Reply::Nothing);
    assert_eq!(filter.get_token(), "4321");
    let reply = session.handle_with(&mut filter, Message::Text("REMOVE 10.0.0.5".to_string()), 1, 9);
    assert_eq!(reply, Reply::Nothing);
    assert_eq!(filter.get_token(), "4321");
}

#[test]
fn ping_is_answered_and_refreshes() {
    let mut filter = Filter::new();
    let mut session = active(&filter, 0);
    let reply = session.handle(&mut filter, Message::Ping(vec![1, 2, 3]), 700);
    assert_eq!(reply, Reply::Pong(vec![1, 2, 3]));
    assert_eq!(session.last_activity(), 700);
}

#[test]
fn pong_refreshes_without_reply() {
    let mut filter = Filter::new();
    let mut session = active(&filter, 0);
    let reply = session.handle(&mut filter, Message::Pong(vec![]), 900);
    assert_eq!(reply, Reply::Nothing);
    assert_eq!(session.last_activity(), 900);
}

#[test]
fn binary_is_echoed() {
    let mut filter = Filter::new();
    let mut session = active(&filter, 0);
    let reply = session.handle(&mut filter, Message::Binary(vec![0, 255, 7]), 5);
    assert_eq!(reply, Reply::Binary(vec![0, 255, 7]));
    assert_eq!(session.last_activity(), 0);
}

#[test]
fn close_stops_the_session() {
    let mut filter = Filter::new();
    let mut session = active(&filter, 0);
    let reply = session.handle(&mut filter, Message::Close, 5);
    assert_eq!(reply, Reply::Stop);
    assert_eq!(session.state(), SessionState::Closing);
    assert_eq!(session.cause(), None);
    assert_eq!(session.hb(6), Beat::Idle);
    let reply = session.handle(&mut filter, Message::Text("ADD 10.0.0.5".to_string()), 7);
    assert_eq!(reply, Reply::Nothing);
    assert!(!filter.check_ip(&ip("10.0.0.5")));
}

#[test]
fn nop_is_ignored() {
    let mut filter = Filter::new();
    let mut session = active(&filter, 0);
    assert_eq!(session.handle(&mut filter, Message::Nop, 5), Reply::Nothing);
    assert_eq!(session.last_activity(), 0);
    assert_eq!(session.state(), SessionState::Active);
}

#[test]
fn interpret_says_what_to_carry_out() {
    let filter = Filter::new();
    let mut session = active(&filter, 0);
    assert_eq!(
        session.interpret(Message::Text("ADD 10.0.0.5".to_string()), 1),
        Step { reply: Reply::Nothing, instruction: Instruction::Add(ip("10.0.0.5")) }
    );
    assert_eq!(
        session.interpret(Message::Text("what".to_string()), 1),
        Step { reply: Reply::Text("what".to_string()), instruction: Instruction::Echo }
    );
    assert_eq!(
        session.interpret(Message::Ping(vec![9]), 1),
        Step { reply: Reply::Pong(vec![9]), instruction: Instruction::Ignore }
    );
}

#[test]
fn session_that_does_not_run_handles_nothing() {
    let mut filter = Filter::new();
    let mut session = MyWebSocket::new(&filter, 0);
    let reply = session.handle(&mut filter, Message::Text("ADD 10.0.0.5".to_string()), 1);
    assert_eq!(reply, Reply::Nothing);
    assert!(!filter.check_ip(&ip("10.0.0.5")));
    assert_eq!(session.handle(&mut filter, Message::Ping(vec![1]), 2), Reply::Nothing);
    assert_eq!(session.last_activity(), 0);
    assert_eq!(session.hb(1_000_000), Beat::Idle);
    assert_eq!(session.state(), SessionState::Connecting);
}

#[test]
fn silent_peer_times_out() {
    let filter = Filter::new();
    let mut session = active(&filter, 1_000);
    assert_eq!(session.hb(6_000), Beat::Ping);
    assert_eq!(session.hb(11_000), Beat::Ping);
    assert_eq!(session.state(), SessionState::Active);
    assert_eq!(session.hb(11_001), Beat::Stop);
    assert_eq!(session.state(), SessionState::Closing);
    assert_eq!(session.cause(), Some(MyError::PeerTimeout));
    assert_eq!(session.hb(16_001), Beat::Idle);
    assert_eq!(session.hb(0), Beat::Idle);
}

#[test]
fn pong_keeps_the_session_alive() {
    let mut filter = Filter::new();
    let mut session = active(&filter, 0);
    assert_eq!(session.hb(5_000), Beat::Ping);
    session.handle(&mut filter, Message::Pong(vec![]), 5_100);
    assert_eq!(session.hb(10_000), Beat::Ping);
    assert_eq!(session.hb(15_000), Beat::Ping);
    assert_eq!(session.hb(15_101), Beat::Stop);
}

#[test]
fn text_does_not_count_as_a_sign_of_life() {
    let mut filter = Filter::new();
    let mut session = active(&filter, 0);
    session.handle(&mut filter, Message::Text("hello".to_string()), 9_000);
    session.handle(&mut filter, Message::Binary(vec![1]), 9_500);
    assert_eq!(session.hb(10_001), Beat::Stop);
}

#[test]
fn clock_that_went_back_is_no_silence() {
    let filter = Filter::new();
    let mut session = active(&filter, 50_000);
    assert_eq!(session.hb(10), Beat::Ping);
    assert_eq!(session.state(), SessionState::Active);
}

#[test]
fn write_failure_closes_the_session() {
    let filter = Filter::new();
    let mut session = active(&filter, 0);
    session.write_failed();
    assert_eq!(session.state(), SessionState::Closing);
    assert_eq!(session.cause(), Some(MyError::StreamWriteFailure));
    assert_eq!(session.hb(1), Beat::Idle);
    session.finished();
    assert_eq!(session.state(), SessionState::Closed);
    session.write_failed();
    assert_eq!(session.state(), SessionState::Closed);
}

#[test]
fn closing_session_keeps_its_first_cause() {
    let filter = Filter::new();
    let mut session = active(&filter, 0);
    assert_eq!(session.hb(20_000), Beat::Stop);
    session.write_failed();
    assert_eq!(session.cause(), Some(MyError::PeerTimeout));
}

#[test]
fn session_commands_reach_the_filter() {
    let mut filter = Filter::new();
    let mut session = active(&filter, 0);
    assert!(session.add_ip(&mut filter, ip("10.0.0.5")));
    assert!(!session.add_ip(&mut filter, ip("10.0.0.5")));
    assert!(filter.check_ip(&ip("10.0.0.5")));
    assert!(session.remove_ip(&mut filter, ip("10.0.0.5")));
    assert!(!session.remove_ip(&mut filter, ip("10.0.0.5")));
    assert!(!filter.check_ip(&ip("10.0.0.5")));
}

#[test]
fn execute_reports_whether_the_list_changed() {
    let mut filter = Filter::new();
    assert!(filter.execute(Instruction::Add(ip("10.0.0.5"))));
    assert!(!filter.execute(Instruction::Add(ip("10.0.0.5"))));
    assert!(!filter.execute(Instruction::Ignore));
    assert!(!filter.execute(Instruction::Echo));
    assert!(filter.execute(Instruction::Remove(ip("10.0.0.5"))));
    assert!(!filter.execute(Instruction::Remove(ip("10.0.0.5"))));
    assert!(!filter.execute(Instruction::Remove(Address::loopback())));
    assert!(filter.execute_with(Instruction::Add(ip("10.0.0.9")), 5));
    assert_eq!(filter.get_token(), "5");
}

#[test]
fn commands_take_addresses_of_either_form() {
    let mut filter = Filter::new();
    let mut session = active(&filter, 0);
    assert_eq!(session.handle(&mut filter, Message::Text("ADD ::1".to_string()), 1), Reply::Nothing);
    assert!(filter.check_ip(&Address::V6(1)));
    assert_eq!(
        session.handle(&mut filter, Message::Text("REMOVE 0:0:0:0:0:0:0:1".to_string()), 2),
        Reply::Nothing
    );
    assert!(!filter.check_ip(&Address::V6(1)));
}
