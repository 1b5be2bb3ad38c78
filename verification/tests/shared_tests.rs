use std::sync::Arc;
use ws_gateway::address::Address;
use ws_gateway::command::Instruction;
use ws_gateway::error::MyError;
use ws_gateway::filter::Filter;
use ws_gateway::gateway::Evidence;
use ws_gateway::server::{Message, Reply, SessionState};
use ws_gateway::shared::SharedFilter;

fn ip(text: &str) -> Address {
    Address::parse(text).unwrap()
}

fn headers(pairs: &[(&str, &str)]) -> Vec<(String, String)> {
    pairs.iter().map(|(n, v)| (n.to_string(), v.to_string())).collect()
}

#[test]
fn shared_filter_starts_fresh() {
    let shared = SharedFilter::new();
    assert!(shared.check_ip(&Address::loopback()));
    assert!(!shared.check_ip(&ip("10.0.0.5")));
    assert_eq!(shared.get_token(), "1234");
    assert_eq!(shared.list_clients(), "Authorized clients: {127.0.0.1}");
    let other = SharedFilter::default();
    assert_eq!(other.get_token(), "1234");
}

#[test]
fn shared_filter_keeps_what_it_was_given() {
    let mut filter = Filter::new();
    filter.add_ip_with(ip("10.0.0.5"), 8);
    let shared = SharedFilter::share(filter);
    assert!(shared.check_ip(&ip("10.0.0.5")));
    assert_eq!(shared.get_token(), "8");
}

#[test]
fn shared_add_and_remove() {
    let shared = SharedFilter::new();
    assert!(shared.add_ip(ip("10.0.0.5")));
    assert!(!shared.add_ip(ip("10.0.0.5")));
    assert!(!shared.add_ip(Address::loopback()));
    assert!(shared.check_ip(&ip("10.0.0.5")));
    assert_ne!(shared.get_token(), "1234");
    assert!(shared.remove_ip(&ip("10.0.0.5")));
    assert!(!shared.remove_ip(&ip("10.0.0.5")));
    assert!(!shared.remove_ip(&Address::loopback()));
    assert!(shared.check_ip(&Address::loopback()));
}

#[test]
fn shared_decisions() {
    let shared = SharedFilter::new();
    let evidence = Evidence {
        is_browser_like: false,
        peer_address: Some(ip("8.8.8.8")),
        bearer_credential: Some("1234".to_string()),
    };
    assert_eq!(shared.authorize(&evidence), Ok(()));
    shared.add_ip(ip("10.0.0.5"));
    assert_eq!(shared.authorize(&evidence), Err(MyError::NotAuthorized));
    let h = headers(&[("authorization", "Bearer 1234")]);
    assert_eq!(shared.decide_request(Some(ip("8.8.8.8")), &h), Err(MyError::NotAuthorized));
    assert_eq!(shared.decide_request(Some(ip("10.0.0.5")), &h), Ok(()));
    assert_eq!(shared.decide_request(None, &headers(&[("User-Agent", "x")])), Ok(()));
}

#[test]
fn sessions_on_a_shared_filter() {
    let shared = SharedFilter::new();
    let mut first = shared.open_session(0);
    let mut second = shared.open_session(0);
    assert_eq!(first.state(), SessionState::Connecting);
    assert_eq!(first.snapshot(), "Authorized clients: {127.0.0.1}");
    first.started(0);
    second.started(0);
    assert_eq!(shared.handle(&mut first, Message::Text("ADD 10.0.0.5".to_string()), 1), Reply::Nothing);
    assert!(shared.check_ip(&ip("10.0.0.5")));
    assert_eq!(
        shared.handle(&mut second, Message::Text("REMOVE 10.0.0.5".to_string()), 2),
        Reply::Nothing
    );
    assert!(!shared.check_ip(&ip("10.0.0.5")));
    assert_eq!(
        shared.handle(&mut second, Message::Text("hello".to_string()), 3),
        Reply::Text("hello".to_string())
    );
    assert_eq!(shared.handle(&mut first, Message::Ping(vec![4]), 4), Reply::Pong(vec![4]));
    assert_eq!(first.last_activity(), 4);
    assert_eq!(shared.handle(&mut first, Message::Close, 5), Reply::Stop);
    assert_eq!(first.state(), SessionState::Closing);
    let third = shared.open_session(9);
    assert_eq!(third.snapshot(), "Authorized clients: {127.0.0.1}");
}

#[test]
fn shared_execute_reports_changes() {
    let shared = SharedFilter::new();
    assert!(shared.execute(Instruction::Add(ip("10.0.0.5"))));
    assert!(!shared.execute(Instruction::Add(ip("10.0.0.5"))));
    assert!(!shared.execute(Instruction::Echo));
    assert!(!shared.execute(Instruction::Ignore));
    assert!(shared.execute(Instruction::Remove(ip("10.0.0.5"))));
    assert!(!shared.execute(Instruction::Remove(Address::loopback())));
}

#[test]
fn many_holders_of_one_filter() {
    let shared = Arc::new(SharedFilter::new());
    let holders: Vec<Arc<SharedFilter>> = (0..8).map(|_| Arc::clone(&shared)).collect();
    for host in 1..=50u8 {
        for (worker, holder) in holders.iter().enumerate() {
            let address = Address::from_octets(10, 0, worker as u8, host);
            assert!(holder.add_ip(address));
            assert!(shared.check_ip(&address));
            assert!(holder.check_ip(&Address::loopback()));
            if host % 2 == 0 {
                assert!(holder.remove_ip(&address));
            }
        }
    }
    for worker in 0..8u8 {
        for host in 1..=50u8 {
            let address = Address::from_octets(10, 0, worker, host);
            assert_eq!(shared.check_ip(&address), host % 2 == 1);
        }
    }
    assert_eq!(shared.list_clients().matches(", ").count(), 8 * 25);
    assert_ne!(shared.get_token(), "1234");
}

#[test]
fn shared_filter_receives_peers() {
    let shared = SharedFilter::new();
    let browser = headers(&[("user-agent", "Mozilla/5.0")]);
    let session = shared.accept(Some(ip("9.9.9.9")), &browser, 5).unwrap();
    assert_eq!(session.state(), SessionState::Connecting);
    assert_eq!(session.last_activity(), 5);
    assert_eq!(session.snapshot(), "Authorized clients: {127.0.0.1}");
    assert!(shared.accept(Some(Address::loopback()), &headers(&[]), 5).is_ok());
    assert!(matches!(
        shared.accept(Some(ip("9.9.9.9")), &headers(&[]), 5),
        Err(MyError::NotAuthorized)
    ));
    assert!(matches!(shared.accept(None, &headers(&[]), 5), Err(MyError::NotAuthorized)));
}
