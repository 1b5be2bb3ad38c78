use ws_gateway::address::Address;
use ws_gateway::error::MyError;
use ws_gateway::filter::Filter;
use ws_gateway::gateway::{
    authorize, bearer_credential, decide, decide_request, find_header, is_browser_like,
    names_match, Evidence,
};

fn ip(text: &str) -> Address {
    Address::parse(text).unwrap()
}

fn headers(pairs: &[(&str, &str)]) -> Vec<(String, String)> {
    pairs.iter().map(|(n, v)| (n.to_string(), v.to_string())).collect()
}

#[test]
fn browser_is_admitted() {
    let filter = Filter::new();
    let evidence = Evidence {
        is_browser_like: true,
        peer_address: Some(ip("9.9.9.9")),
        bearer_credential: None,
    };
    assert_eq!(authorize(&filter, &evidence), Ok(()));
}

#[test]
fn browser_without_address_is_admitted() {
    let filter = Filter::new();
    let evidence = Evidence { is_browser_like: true, peer_address: None, bearer_credential: None };
    assert_eq!(authorize(&filter, &evidence), Ok(()));
}

#[test]
fn loopback_is_admitted() {
    let filter = Filter::new();
    let evidence = Evidence {
        is_browser_like: false,
        peer_address: Some(ip("127.0.0.1")),
        bearer_credential: None,
    };
    assert_eq!(authorize(&filter, &evidence), Ok(()));
}

#[test]
fn default_token_admits_until_first_add() {
    let mut filter = Filter::new();
    let evidence = Evidence {
        is_browser_like: false,
        peer_address: Some(ip("8.8.8.8")),
        bearer_credential: Some("1234".to_string()),
    };
    assert_eq!(authorize(&filter, &evidence), Ok(()));
    filter.add_ip(ip("10.0.0.5"));
    assert_eq!(authorize(&filter, &evidence), Err(MyError::NotAuthorized));
}

#[test]
fn current_token_admits() {
    let mut filter = Filter::new();
    filter.add_ip(ip("10.0.0.5"));
    let evidence = Evidence {
        is_browser_like: false,
        peer_address: Some(ip("8.8.8.8")),
        bearer_credential: Some(filter.get_token()),
    };
    assert_eq!(authorize(&filter, &evidence), Ok(()));
}

#[test]
fn unknown_peer_is_refused() {
    let filter = Filter::new();
    let evidence = Evidence {
        is_browser_like: false,
        peer_address: Some(ip("8.8.8.8")),
        bearer_credential: None,
    };
    assert_eq!(authorize(&filter, &evidence), Err(MyError::NotAuthorized));
}

#[test]
fn wrong_token_is_refused() {
    let filter = Filter::new();
    for token in ["", "123", "12345", "01234", "1234 ", "+1234", "abcd"] {
        let evidence = Evidence {
            is_browser_like: false,
            peer_address: Some(ip("8.8.8.8")),
            bearer_credential: Some(token.to_string()),
        };
        assert_eq!(authorize(&filter, &evidence), Err(MyError::NotAuthorized), "{:?}", token);
    }
}

#[test]
fn absent_address_is_refused_even_with_token() {
    let filter = Filter::new();
    let evidence = Evidence {
        is_browser_like: false,
        peer_address: None,
        bearer_credential: Some("1234".to_string()),
    };
    assert_eq!(authorize(&filter, &evidence), Err(MyError::NotAuthorized));
}

#[test]
fn same_evidence_same_decision() {
    let mut filter = Filter::new();
    filter.add_ip_with(ip("10.0.0.5"), 99);
    let evidence = Evidence {
        is_browser_like: false,
        peer_address: Some(ip("10.0.0.5")),
        bearer_credential: None,
    };
    let first = authorize(&filter, &evidence);
    let second = authorize(&filter, &evidence);
    assert_eq!(first, second);
    assert_eq!(first, Ok(()));
}

#[test]
fn bearer_credential_well_formed() {
    assert_eq!(bearer_credential("Bearer 1234"), Ok("1234".to_string()));
    assert_eq!(bearer_credential("  Bearer \t abc  "), Ok("abc".to_string()));
    assert_eq!(bearer_credential("Bearer 1234 more"), Ok("1234".to_string()));
    assert_eq!(bearer_credential("Bearer tökén"), Ok("tökén".to_string()));
}

#[test]
fn bearer_credential_malformed() {
    for header in ["", " ", "Bearer", "Bearer ", "1234", "Basic 1234", "bearer 1234", "Bearer1234"] {
        assert_eq!(
            bearer_credential(header),
            Err(MyError::MalformedCredentialHeader),
            "{:?}",
            header
        );
    }
}

#[test]
fn header_names_match_whatever_the_case() {
    assert!(names_match("user-agent", "User-Agent"));
    assert!(names_match("AUTHORIZATION", "authorization"));
    assert!(names_match("", ""));
    assert!(!names_match("user-agent", "user_agent"));
    assert!(!names_match("user-agent", "user-agen"));
    assert!(!names_match("@", "`"));
    assert!(!names_match("[", "{"));
}

#[test]
fn first_header_of_a_name_is_found() {
    let h = headers(&[("Host", "example"), ("Authorization", "Bearer 1"), ("authorization", "Bearer 2")]);
    assert_eq!(find_header(&h, "authorization"), Some("Bearer 1"));
    assert_eq!(find_header(&h, "host"), Some("example"));
    assert_eq!(find_header(&h, "user-agent"), None);
    assert_eq!(find_header(&headers(&[]), "host"), None);
}

#[test]
fn browser_likeness_is_the_user_agent_header() {
    assert!(is_browser_like(&headers(&[("user-agent", "Mozilla/5.0")])));
    assert!(is_browser_like(&headers(&[("host", "x"), ("User-Agent", "")])));
    assert!(!is_browser_like(&headers(&[("host", "x")])));
    assert!(!is_browser_like(&headers(&[])));
}

#[test]
fn evidence_is_gathered_from_headers() {
    let h = headers(&[("authorization", "Bearer 1234")]);
    let evidence = Evidence::gather(Some(ip("8.8.8.8")), &h, false);
    assert_eq!(
        evidence,
        Evidence {
            is_browser_like: false,
            peer_address: Some(ip("8.8.8.8")),
            bearer_credential: Some("1234".to_string()),
        }
    );
    let malformed = headers(&[("authorization", "1234")]);
    assert_eq!(Evidence::gather(None, &malformed, true).bearer_credential, None);
    assert_eq!(Evidence::gather(None, &headers(&[]), true).bearer_credential, None);
}

#[test]
fn malformed_header_falls_through_to_refusal() {
    let filter = Filter::new();
    for value in ["1234", "Bearer", "", "Basic 1234"] {
        let h = headers(&[("authorization", value)]);
        assert_eq!(
            decide(&filter, Some(ip("8.8.8.8")), &h, false),
            Err(MyError::NotAuthorized),
            "{:?}",
            value
        );
    }
}

#[test]
fn request_with_token_header_is_admitted() {
    let filter = Filter::new();
    let h = headers(&[("authorization", "Bearer 1234")]);
    assert_eq!(decide(&filter, Some(ip("8.8.8.8")), &h, false), Ok(()));
    assert_eq!(decide_request(&filter, Some(ip("8.8.8.8")), &h), Ok(()));
    assert_eq!(decide_request(&filter, None, &h), Err(MyError::NotAuthorized));
}

#[test]
fn request_of_a_browser_is_admitted() {
    let filter = Filter::new();
    let h = headers(&[("user-agent", "Mozilla/5.0")]);
    assert_eq!(decide_request(&filter, Some(ip("9.9.9.9")), &h), Ok(()));
    assert_eq!(decide_request(&filter, None, &h), Ok(()));
    assert_eq!(decide_request(&filter, Some(ip("9.9.9.9")), &headers(&[])), Err(MyError::NotAuthorized));
}

#[test]
fn admitted_peer_gets_a_session() {
    let mut filter = Filter::new();
    filter.add_ip_with(ip("10.0.0.5"), 7);
    let session = match ws_gateway::gateway::accept(&filter, Some(ip("10.0.0.5")), &headers(&[]), 33) {
        Ok(session) => session,
        Err(refusal) => panic!("refused: {:?}", refusal),
    };
    assert_eq!(session.state(), ws_gateway::server::SessionState::Connecting);
    assert_eq!(session.last_activity(), 33);
    assert_eq!(session.cause(), None);
    assert_eq!(session.snapshot(), "Authorized clients: {127.0.0.1, 10.0.0.5}");
}

#[test]
fn refused_peer_gets_no_session() {
    let filter = Filter::new();
    let outcome = ws_gateway::gateway::accept(&filter, Some(ip("10.0.0.5")), &headers(&[]), 33);
    assert!(matches!(outcome, Err(MyError::NotAuthorized)));
    let wrong = headers(&[("authorization", "Bearer 4321")]);
    let outcome = ws_gateway::gateway::accept(&filter, Some(ip("10.0.0.5")), &wrong, 33);
    assert!(matches!(outcome, Err(MyError::NotAuthorized)));
    let right = headers(&[("authorization", "Bearer 1234")]);
    assert!(ws_gateway::gateway::accept(&filter, Some(ip("10.0.0.5")), &right, 33).is_ok());
    assert!(matches!(
        ws_gateway::gateway::accept(&filter, None, &right, 33),
        Err(MyError::NotAuthorized)
    ));
}
