//! Admission: whether a connecting peer may open a session.
//!
//! Three paths lead in, tried in this order: a request that looks like a
//! browser's is admitted as it is; a peer whose address is on the allow-list
//! is admitted; a peer that presents the token in force as a bearer
//! credential is admitted. Everyone else is refused, and the refusal does not
//! say why.

use crate::address::Address;
use crate::error::MyError;
use crate::filter::{
    enumerates, lemma_initial_token_text, listing, Filter, FilterState, DEFAULT_TOKEN,
};
use crate::numeral::{decimal, lemma_numeral_is_injective};
use crate::server::{MyWebSocket, SessionState};
use crate::text::{chars_of, cut, piece_is, split_words, words};
use vstd::prelude::*;
use vstd::string::*;

verus! {

/// What is known of a connecting peer when its admission is decided.
#[derive(Clone, Debug, PartialEq, Eq)]
pub struct Evidence {
    /// Whether the request carries the header by which browsers name
    /// themselves.
    pub is_browser_like: bool,
    /// The address of the peer's end of the connection, if it is known.
    pub peer_address: Option<Address>,
    /// The bearer credential that the peer presented, if it presented one
    /// in good form.
    pub bearer_credential: Option<String>,
}

/// The characters of a text that may be absent.
pub open spec fn chars_of_option(text: Option<String>) -> Option<Seq<char>> {
    match text {
        Some(t) => Some(t@),
        None => None,
    }
}

/// Whether a peer is admitted: a browser-like request always; otherwise a
/// peer of known address that is on the list or presents the token in force.
pub open spec fn admits(
    state: FilterState,
    is_browser_like: bool,
    peer_address: Option<Address>,
    bearer_credential: Option<Seq<char>>,
) -> bool {
    is_browser_like || match peer_address {
        None => false,
        Some(ip) => state.contains(ip) || bearer_credential == Some(decimal(state.token as nat)),
    }
}

/// The decision as it is handed out: `Ok` for a peer that is admitted, and
/// for every other the one refusal there is.
pub open spec fn verdict(admitted: bool) -> Result<(), MyError> {
    if admitted {
        Ok(())
    } else {
        Err(MyError::NotAuthorized)
    }
}

impl Evidence {
    /// Whether `state` admits a peer with this evidence.
    pub open spec fn admitted_by(self, state: FilterState) -> bool {
        admits(
            state,
            self.is_browser_like,
            self.peer_address,
            chars_of_option(self.bearer_credential),
        )
    }
}

/// The credential that the value of an `authorization` header carries: the
/// word after the scheme `Bearer`. A value of another scheme, or of the
/// scheme alone, carries none.
pub open spec fn bearer_of(header: Seq<char>) -> Option<Seq<char>> {
    let w = words(header);
    if w.len() >= 2 && w[0] == "Bearer"@ {
        Some(w[1])
    } else {
        None
    }
}

/// The code of `c`, or that of the small letter where `c` is a capital
/// ASCII letter.
pub open spec fn folded(c: char) -> int {
    if 'A' <= c <= 'Z' {
        c as int + 32
    } else {
        c as int
    }
}

/// Whether two header names are the same: they are, whatever the case of
/// their ASCII letters.
pub open spec fn same_name(a: Seq<char>, b: Seq<char>) -> bool {
    a.len() == b.len() && forall|i: int| 0 <= i < a.len() ==> folded(#[trigger] a[i]) == folded(b[i])
}

/// The position of the first header from `from` on that is named `name`, or
/// the number of headers where none is.
pub open spec fn header_position(headers: Seq<(String, String)>, name: Seq<char>, from: int) -> int
    decreases headers.len() - from,
{
    if 0 <= from < headers.len() && !same_name(headers[from].0@, name) {
        header_position(headers, name, from + 1)
    } else {
        from
    }
}

/// The value of the first header named `name`, if there is one.
pub open spec fn header_value(headers: Seq<(String, String)>, name: Seq<char>) -> Option<Seq<char>> {
    let at = header_position(headers, name, 0);
    if 0 <= at < headers.len() {
        Some(headers[at].1@)
    } else {
        None
    }
}

/// Whether the headers are those of a browser: one of them is named
/// `user-agent`.
pub open spec fn browser_like(headers: Seq<(String, String)>) -> bool {
    header_value(headers, "user-agent"@) is Some
}

/// The bearer credential among the headers: that of the first header named
/// `authorization`, if there is such a header and it carries one.
pub open spec fn credential_in(headers: Seq<(String, String)>) -> Option<Seq<char>> {
    match header_value(headers, "authorization"@) {
        Some(value) => bearer_of(value),
        None => None,
    }
}

/// The decision rests on nothing but the evidence and the state of the
/// filter: the same evidence against the same state is decided alike.
pub proof fn lemma_decision_is_determined(
    first: FilterState,
    second: FilterState,
    is_browser_like: bool,
    peer_address: Option<Address>,
    bearer_credential: Option<Seq<char>>,
)
    requires
        first == second,
    ensures
        admits(first, is_browser_like, peer_address, bearer_credential) == admits(
            second,
            is_browser_like,
            peer_address,
            bearer_credential,
        ),
{
}

/// Of the filter the decision reads only the token and whether the peer's
/// address is on the list.
pub proof fn lemma_decision_reads_little(
    first: FilterState,
    second: FilterState,
    is_browser_like: bool,
    peer_address: Option<Address>,
    bearer_credential: Option<Seq<char>>,
)
    requires
        first.token == second.token,
        peer_address is Some ==> first.contains(peer_address.unwrap()) == second.contains(
            peer_address.unwrap(),
        ),
    ensures
        admits(first, is_browser_like, peer_address, bearer_credential) == admits(
            second,
            is_browser_like,
            peer_address,
            bearer_credential,
        ),
{
}

/// A browser-like request is admitted whatever else is known, and a peer of
/// unknown address that is not browser-like never.
pub proof fn lemma_first_paths(
    state: FilterState,
    peer_address: Option<Address>,
    bearer_credential: Option<Seq<char>>,
)
    ensures
        admits(state, true, peer_address, bearer_credential),
        !admits(state, false, None, bearer_credential),
{
}

/// Where the initial token is no longer in force it admits nobody: a peer
/// that is not on the list and presents `1234` is refused.
pub proof fn lemma_initial_token_is_spent(state: FilterState, ip: Address)
    requires
        state.token != DEFAULT_TOKEN,
        !state.contains(ip),
    ensures
        !admits(state, false, Some(ip), Some("1234"@)),
{
    lemma_initial_token_text();
    if decimal(state.token as nat) == decimal(DEFAULT_TOKEN as nat) {
        lemma_numeral_is_injective(state.token as nat, DEFAULT_TOKEN as nat, 10);
    }
}

/// A new filter admits the gateway's own host whatever else is known, and a
/// peer that presents `1234` whatever its address.
pub proof fn lemma_first_admissions(ip: Address, bearer_credential: Option<Seq<char>>)
    ensures
        admits(FilterState::fresh(), false, Some(crate::address::loopback()), bearer_credential),
        admits(FilterState::fresh(), false, Some(ip), Some("1234"@)),
{
    lemma_initial_token_text();
}

/// The code of `c`, or that of the small letter where `c` is a capital
/// ASCII letter.
pub fn fold_case(c: char) -> (code: u32)
    ensures
        code == folded(c),
{
    if 'A' <= c && c <= 'Z' {
        c as u32 + 32
    } else {
        c as u32
    }
}

/// Whether `a` and `b` are the same header name.
pub fn names_match(a: &str, b: &str) -> (same: bool)
    ensures
        same == same_name(a@, b@),
{
    let left = chars_of(a);
    let right = chars_of(b);
    if left.len() != right.len() {
        return false;
    }
    let mut i: usize = 0;
    while i < left.len()
        invariant
            left@ == a@,
            right@ == b@,
            left@.len() == right@.len(),
            i <= left@.len(),
            forall|k: int| 0 <= k < i ==> folded(#[trigger] left@[k]) == folded(right@[k]),
        decreases left@.len() - i,
    {
        if fold_case(left[i]) != fold_case(right[i]) {
            return false;
        }
        i = i + 1;
    }
    true
}

/// The value of the first of `headers` that is named `name`.
pub fn find_header<'a>(headers: &'a Vec<(String, String)>, name: &str) -> (value: Option<&'a str>)
    ensures
        chars_of_str(value) == header_value(headers@, name@),
{
    let mut i: usize = 0;
    while i < headers.len()
        invariant
            i <= headers@.len(),
            header_position(headers@, name@, i as int) == header_position(headers@, name@, 0),
        decreases headers@.len() - i,
    {
        if names_match(headers[i].0.as_str(), name) {
            return Some(headers[i].1.as_str());
        }
        i = i + 1;
    }
    None
}

/// The characters of a borrowed text that may be absent.
pub open spec fn chars_of_str(text: Option<&str>) -> Option<Seq<char>> {
    match text {
        Some(t) => Some(t@),
        None => None,
    }
}

/// The credential that the value of an `authorization` header carries. A
/// value that carries none is refused as a malformed header.
pub fn bearer_credential(header: &str) -> (credential: Result<String, MyError>)
    ensures
        match credential {
            Ok(token) => bearer_of(header@) == Some(token@),
            Err(e) => e == MyError::MalformedCredentialHeader && bearer_of(header@) is None,
        },
{
    let chars = chars_of(header);
    let spans = split_words(&chars);
    if spans.len() < 2 {
        return Err(MyError::MalformedCredentialHeader);
    }
    proof {
        assert(cut(chars@, spans@)[0] == words(header@)[0]);
        assert(cut(chars@, spans@)[1] == words(header@)[1]);
    }
    if !piece_is(&chars, spans[0].0, spans[0].1, "Bearer") {
        return Err(MyError::MalformedCredentialHeader);
    }
    let token = header.substring_char(spans[1].0, spans[1].1);
    Ok(String::from_str(token))
}

/// Whether `headers` are those of a browser.
pub fn is_browser_like(headers: &Vec<(String, String)>) -> (browser: bool)
    ensures
        browser == browser_like(headers@),
{
    find_header(headers, "user-agent").is_some()
}

impl Evidence {
    /// The evidence that a request gives: the peer's address, whether the
    /// request is browser-like, and the credential among its headers. A
    /// malformed `authorization` header counts as none.
    pub fn gather(
        peer_address: Option<Address>,
        headers: &Vec<(String, String)>,
        is_browser_like: bool,
    ) -> (evidence: Evidence)
        ensures
            evidence.is_browser_like == is_browser_like,
            evidence.peer_address == peer_address,
            chars_of_option(evidence.bearer_credential) == credential_in(headers@),
    {
        let bearer_credential = match find_header(headers, "authorization") {
            Some(value) => match bearer_credential(value) {
                Ok(token) => Some(token),
                Err(_) => None,
            },
            None => None,
        };
        Evidence { is_browser_like, peer_address, bearer_credential }
    }
}

/// Decides on the admission of a peer with the given evidence: `Ok` where
/// the filter admits it, and else the one refusal there is.
pub fn authorize(filter: &Filter, evidence: &Evidence) -> (decision: Result<(), MyError>)
    ensures
        decision == verdict(evidence.admitted_by(filter@)),
{
    if evidence.is_browser_like {
        return Ok(());
    }
    let ip = match &evidence.peer_address {
        Some(ip) => ip,
        None => {
            return Err(MyError::NotAuthorized);
        },
    };
    if filter.check_ip(ip) {
        return Ok(());
    }
    match &evidence.bearer_credential {
        Some(token) => {
            let expected = filter.get_token();
            if *token == expected {
                Ok(())
            } else {
                Err(MyError::NotAuthorized)
            }
        },
        None => Err(MyError::NotAuthorized),
    }
}

/// Decides on the admission of the peer behind a request, from the peer's
/// address, the request's headers and whether the request is browser-like.
pub fn decide(
    filter: &Filter,
    peer_address: Option<Address>,
    headers: &Vec<(String, String)>,
    is_browser_like: bool,
) -> (decision: Result<(), MyError>)
    ensures
        decision == verdict(
            admits(filter@, is_browser_like, peer_address, credential_in(headers@)),
        ),
{
    let evidence = Evidence::gather(peer_address, headers, is_browser_like);
    authorize(filter, &evidence)
}

/// Decides on the admission of the peer behind a request as `decide` does,
/// taking the request for browser-like where its headers are a browser's.
pub fn decide_request(
    filter: &Filter,
    peer_address: Option<Address>,
    headers: &Vec<(String, String)>,
) -> (decision: Result<(), MyError>)
    ensures
        decision == verdict(
            admits(filter@, browser_like(headers@), peer_address, credential_in(headers@)),
        ),
{
    let browser = is_browser_like(headers);
    decide(filter, peer_address, headers, browser)
}

/// Receives a peer that asks for a session at `now`: decides on its
/// admission as `decide_request` does, and makes the session of a peer that
/// is admitted. A peer that is refused gets no session.
pub fn accept(
    filter: &Filter,
    peer_address: Option<Address>,
    headers: &Vec<(String, String)>,
    now: u64,
) -> (outcome: Result<MyWebSocket, MyError>)
    ensures
        outcome is Ok == admits(
            filter@,
            browser_like(headers@),
            peer_address,
            credential_in(headers@),
        ),
        match outcome {
            Ok(session) => {
                &&& session@.state == SessionState::Connecting
                &&& session@.last_activity == now
                &&& session@.cause is None
                &&& exists|order: Seq<Address>| #[trigger]
                    enumerates(order, filter@.clients) && session@.snapshot == listing(order)
            },
            Err(refusal) => refusal == MyError::NotAuthorized,
        },
{
    match decide_request(filter, peer_address, headers) {
        Ok(()) => Ok(MyWebSocket::new(filter, now)),
        Err(refusal) => Err(refusal),
    }
}

} // verus!
