//! The filter as the sessions share it: behind a lock that lets any number
//! of them read at once and one of them write at a time.
//!
//! Each function here takes the lock once, does its work on the filter and
//! lets the lock go. What the filter holds before and after is not for the
//! caller to know: another session may have written in between. So these
//! contracts say what holds whatever the others did, and the contracts of
//! `Filter` say what is done while the lock is held.

use crate::address::{loopback, Address};
use crate::command::Instruction;
use crate::error::MyError;
use crate::filter::{listing, Filter, FilterState};
use crate::gateway::{
    accept, admits, authorize, browser_like, credential_in, decide_request, verdict, Evidence,
};
use crate::numeral::decimal;
use crate::server::{Message, MyWebSocket, Reply, SessionState};
use parking_lot::{RwLock, RwLockReadGuard, RwLockWriteGuard};
use vstd::prelude::*;

verus! {

/// The lock of `parking_lot`, `RwLock`, which is `lock_api::RwLock` over
/// `parking_lot`'s raw lock. It is carried, never looked into.
#[verifier::external_type_specification]
#[verifier::external_body]
#[verifier::reject_recursive_types(R)]
#[verifier::reject_recursive_types(T)]
pub struct ExRwLock<R, T: ?Sized>(parking_lot::lock_api::RwLock<R, T>);

/// The raw lock of `parking_lot`, `RawRwLock`, which `RwLock` is built on.
/// It is named in the lock's type and never used otherwise.
#[verifier::external_type_specification]
#[verifier::external_body]
pub struct ExRawRwLock(parking_lot::RawRwLock);

/// The right to read the filter, as `RwLock::read` hands it out: a
/// `RwLockReadGuard`. It ends when the value is dropped. The guard's own type
/// is bound by a trait of the lock's crate that the verifier does not know,
/// so the guard is held in a struct that the verifier does not look into.
#[verifier::external_body]
struct ReadGuard<'a> {
    guard: RwLockReadGuard<'a, Filter>,
}

/// The right to write the filter, as `RwLock::write` hands it out: a
/// `RwLockWriteGuard`. It ends when the value is dropped. It is held in a
/// struct that the verifier does not look into, as the read guard is.
#[verifier::external_body]
struct WriteGuard<'a> {
    guard: RwLockWriteGuard<'a, Filter>,
}

/// Puts `filter` behind a lock, by `RwLock::new`. Nothing is claimed of the
/// lock: what it holds is seen only through a guard.
#[verifier::external_body]
fn lock_new(filter: Filter) -> RwLock<Filter> {
    RwLock::new(filter)
}

/// Waits until no session writes and takes the right to read, by
/// `RwLock::read`. Nothing is claimed of the filter that is then read. The
/// call does not return to a thread that holds the right to write already;
/// no function of this module asks while it holds a guard.
#[verifier::external_body]
fn lock_read<'a>(lock: &'a RwLock<Filter>) -> ReadGuard<'a> {
    ReadGuard { guard: lock.read() }
}

/// The filter that a read guard gives access to, by the guard's `deref`.
/// Nothing is claimed of it.
#[verifier::external_body]
fn read_target<'a, 'b>(guard: &'b ReadGuard<'a>) -> &'b Filter {
    &*guard.guard
}

/// Waits until no session reads or writes and takes the right to write, by
/// `RwLock::write`. Nothing is claimed of the filter that is then written.
/// The call does not return to a thread that holds a guard of the lock
/// already; no function of this module asks while it holds a guard.
#[verifier::external_body]
fn lock_write<'a>(lock: &'a RwLock<Filter>) -> WriteGuard<'a> {
    WriteGuard { guard: lock.write() }
}

/// The filter that a write guard gives access to, by the guard's
/// `deref_mut`. Nothing is claimed of it.
#[verifier::external_body]
fn write_target<'a, 'b>(guard: &'b mut WriteGuard<'a>) -> &'b mut Filter {
    &mut *guard.guard
}

/// The one filter of the gateway, shared by its sessions.
pub struct SharedFilter {
    lock: RwLock<Filter>,
}

impl SharedFilter {
    /// A shared filter that authorizes the gateway's own host alone, with
    /// the initial token in force.
    pub fn new() -> (shared: SharedFilter) {
        SharedFilter { lock: lock_new(Filter::new()) }
    }

    /// Shares `filter`.
    pub fn share(filter: Filter) -> (shared: SharedFilter) {
        SharedFilter { lock: lock_new(filter) }
    }

    /// Adds `ip` to the list and replaces the token, as `Filter::add_ip`
    /// does, while no other session reads or writes. Returns whether `ip`
    /// was new to the list at that moment.
    pub fn add_ip(&self, ip: Address) -> (added: bool)
        ensures
            ip == loopback() ==> !added,
    {
        let mut guard = lock_write(&self.lock);
        let filter = write_target(&mut guard);
        proof {
            filter.lemma_always_trusts_own_host();
        }
        filter.add_ip(ip)
    }

    /// Removes `ip` from the list, as `Filter::remove_ip` does, while no
    /// other session reads or writes. Returns whether an address left the
    /// list; the gateway's own host never does.
    pub fn remove_ip(&self, ip: &Address) -> (removed: bool)
        ensures
            *ip == loopback() ==> !removed,
    {
        let mut guard = lock_write(&self.lock);
        let filter = write_target(&mut guard);
        filter.remove_ip(ip)
    }

    /// Whether `ip` is on the list at the moment of the call. The gateway's
    /// own host always is.
    pub fn check_ip(&self, ip: &Address) -> (listed: bool)
        ensures
            *ip == loopback() ==> listed,
    {
        let guard = lock_read(&self.lock);
        let filter = read_target(&guard);
        filter.check_ip(ip)
    }

    /// The list for display, as it is at the moment of the call: each
    /// address once, the gateway's own host among them.
    pub fn list_clients(&self) -> (text: String)
        ensures
            exists|order: Seq<Address>| #[trigger]
                order.no_duplicates() && order.contains(loopback()) && text@ == listing(order),
    {
        let guard = lock_read(&self.lock);
        let filter = read_target(&guard);
        let text = filter.list_clients();
        proof {
            filter.lemma_always_trusts_own_host();
            let order = choose|order: Seq<Address>| #[trigger]
                crate::filter::enumerates(order, filter@.clients) && text@ == listing(order);
            assert(order.to_set().contains(loopback()));
            assert(order.no_duplicates() && order.contains(loopback()) && text@ == listing(order));
        }
        text
    }

    /// The token in force at the moment of the call, in decimal.
    pub fn get_token(&self) -> (text: String)
        ensures
            exists|token: u64| text@ == #[trigger] decimal(token as nat),
    {
        let guard = lock_read(&self.lock);
        let filter = read_target(&guard);
        let text = filter.get_token();
        assert(text@ == decimal(filter@.token as nat));
        text
    }

    /// Decides on the admission of a peer with the given evidence, against
    /// the filter as it is at the moment of the call.
    pub fn authorize(&self, evidence: &Evidence) -> (decision: Result<(), MyError>)
        ensures
            exists|state: FilterState| #[trigger]
                state.trusts_own_host() && decision == verdict(evidence.admitted_by(state)),
            evidence.is_browser_like ==> decision is Ok,
            !evidence.is_browser_like && evidence.peer_address is None ==> decision is Err,
            evidence.peer_address == Some(loopback()) ==> decision is Ok,
            decision is Err ==> decision == Err::<(), MyError>(MyError::NotAuthorized),
    {
        let guard = lock_read(&self.lock);
        let filter = read_target(&guard);
        let decision = authorize(filter, evidence);
        proof {
            filter.lemma_always_trusts_own_host();
            assert(filter@.trusts_own_host() && decision == verdict(evidence.admitted_by(filter@)));
        }
        decision
    }

    /// Decides on the admission of the peer behind a request, against the
    /// filter as it is at the moment of the call.
    pub fn decide_request(
        &self,
        peer_address: Option<Address>,
        headers: &Vec<(String, String)>,
    ) -> (decision: Result<(), MyError>)
        ensures
            exists|state: FilterState| #[trigger]
                state.trusts_own_host() && decision == verdict(
                    admits(state, browser_like(headers@), peer_address, credential_in(headers@)),
                ),
            browser_like(headers@) ==> decision is Ok,
            !browser_like(headers@) && peer_address is None ==> decision is Err,
            peer_address == Some(loopback()) ==> decision is Ok,
            decision is Err ==> decision == Err::<(), MyError>(MyError::NotAuthorized),
    {
        let guard = lock_read(&self.lock);
        let filter = read_target(&guard);
        let decision = decide_request(filter, peer_address, headers);
        proof {
            filter.lemma_always_trusts_own_host();
            assert(filter@.trusts_own_host() && decision == verdict(
                admits(filter@, browser_like(headers@), peer_address, credential_in(headers@)),
            ));
        }
        decision
    }

    /// Receives a peer that asks for a session at `now`: decides on its
    /// admission against the filter as it is at the moment of the call, and
    /// makes the session of a peer that is admitted, with the listing of the
    /// allow-list as it is at that same moment.
    pub fn accept(
        &self,
        peer_address: Option<Address>,
        headers: &Vec<(String, String)>,
        now: u64,
    ) -> (outcome: Result<MyWebSocket, MyError>)
        ensures
            exists|state: FilterState| #[trigger]
                state.trusts_own_host() && outcome is Ok == admits(
                    state,
                    browser_like(headers@),
                    peer_address,
                    credential_in(headers@),
                ),
            browser_like(headers@) ==> outcome is Ok,
            !browser_like(headers@) && peer_address is None ==> outcome is Err,
            peer_address == Some(loopback()) ==> outcome is Ok,
            match outcome {
                Ok(session) => {
                    &&& session@.state == SessionState::Connecting
                    &&& session@.last_activity == now
                    &&& session@.cause is None
                    &&& exists|order: Seq<Address>| #[trigger]
                        order.no_duplicates() && order.contains(loopback()) && session@.snapshot
                            == listing(order)
                },
                Err(refusal) => refusal == MyError::NotAuthorized,
            },
    {
        let guard = lock_read(&self.lock);
        let filter = read_target(&guard);
        let outcome = accept(filter, peer_address, headers, now);
        proof {
            filter.lemma_always_trusts_own_host();
            assert(filter@.trusts_own_host() && outcome is Ok == admits(
                filter@,
                browser_like(headers@),
                peer_address,
                credential_in(headers@),
            ));
            if outcome is Ok {
                let session = outcome->Ok_0;
                let order = choose|order: Seq<Address>| #[trigger]
                    crate::filter::enumerates(order, filter@.clients) && session@.snapshot
                        == listing(order);
                assert(order.to_set().contains(loopback()));
                assert(order.no_duplicates() && order.contains(loopback()) && session@.snapshot
                    == listing(order));
            }
        }
        outcome
    }

    /// A session made at `now`, with the listing of the allow-list as it is
    /// at the moment of the call.
    pub fn open_session(&self, now: u64) -> (session: MyWebSocket)
        ensures
            session@.state == SessionState::Connecting,
            session@.last_activity == now,
            session@.cause is None,
            exists|order: Seq<Address>| #[trigger]
                order.no_duplicates() && order.contains(loopback()) && session@.snapshot
                    == listing(order),
    {
        let guard = lock_read(&self.lock);
        let filter = read_target(&guard);
        let session = MyWebSocket::new(filter, now);
        proof {
            filter.lemma_always_trusts_own_host();
            let order = choose|order: Seq<Address>| #[trigger]
                crate::filter::enumerates(order, filter@.clients) && session@.snapshot == listing(
                    order,
                );
            assert(order.to_set().contains(loopback()));
            assert(order.no_duplicates() && order.contains(loopback()) && session@.snapshot
                == listing(order));
        }
        session
    }

    /// Handles `message`, which arrived at `now` on `session`: says what
    /// goes back to the peer, and carries out on the filter what the message
    /// asks, while no other session reads or writes. A message that asks
    /// nothing of the filter does not wait for the lock.
    pub fn handle(&self, session: &mut MyWebSocket, message: Message, now: u64) -> (reply: Reply)
        ensures
            reply@ == old(session)@.reply(message@),
            final(session)@ == old(session)@.received(message@, now),
    {
        let step = session.interpret(message, now);
        match step.instruction {
            Instruction::Add(_) => {
                self.execute(step.instruction);
            },
            Instruction::Remove(_) => {
                self.execute(step.instruction);
            },
            _ => {},
        }
        step.reply
    }

    /// Carries `instruction` out on the filter, as `Filter::execute` does,
    /// while no other session reads or writes. Returns whether the list
    /// changed.
    pub fn execute(&self, instruction: Instruction) -> (changed: bool)
        ensures
            instruction is Ignore || instruction is Echo ==> !changed,
            instruction == Instruction::Add(loopback()) ==> !changed,
            instruction == Instruction::Remove(loopback()) ==> !changed,
    {
        let mut guard = lock_write(&self.lock);
        let filter = write_target(&mut guard);
        proof {
            filter.lemma_always_trusts_own_host();
        }
        filter.execute(instruction)
    }
}

impl Default for SharedFilter {
    fn default() -> (shared: SharedFilter) {
        SharedFilter::new()
    }
}

} // verus!
