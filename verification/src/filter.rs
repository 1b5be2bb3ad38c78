//! The allow-list of addresses and the token that rotates with it.
//!
//! The gateway's own host is always on the list. Every attempt to add an
//! address, successful or not, replaces the token by a number drawn at
//! random.

use crate::address::{address_text, loopback, Address, LOOPBACK_BITS};
use crate::groups::push_v6;
use crate::quad::push_v4;
use crate::numeral::{decimal, decimal_text, lemma_numeral_is_injective, numeral};
use rand::Rng;
use std::collections::HashSet;
use vstd::prelude::*;
use vstd::string::*;

verus! {

broadcast use vstd::std_specs::hash::group_hash_axioms;

/// The token in force until the first attempt to add an address.
pub const DEFAULT_TOKEN: u64 = 1234;

/// What a filter holds: the authorized addresses and the token in force.
pub ghost struct FilterState {
    pub clients: Set<Address>,
    pub token: u64,
}

/// Whether `candidate` may follow `current` as the token: it differs from
/// it and from the initial token.
pub open spec fn may_follow(candidate: u64, current: u64) -> bool {
    candidate != current && candidate != DEFAULT_TOKEN
}

/// The number after `token`, zero after the greatest.
pub open spec fn successor(token: u64) -> u64 {
    if token == u64::MAX {
        0
    } else {
        (token + 1) as u64
    }
}

/// The token that follows `current` after `drawn` was drawn: `drawn` itself
/// where it may follow, else the first of its successors that may.
pub open spec fn rotated(current: u64, drawn: u64) -> u64 {
    if may_follow(drawn, current) {
        drawn
    } else if may_follow(successor(drawn), current) {
        successor(drawn)
    } else {
        successor(successor(drawn))
    }
}

impl FilterState {
    /// The state of a new filter: the gateway's own host alone is
    /// authorized, and the initial token is in force.
    pub open spec fn fresh() -> FilterState {
        FilterState { clients: set![loopback()], token: DEFAULT_TOKEN }
    }

    /// Whether the gateway's own host is authorized, as it is in every
    /// state that a filter reaches.
    pub open spec fn trusts_own_host(self) -> bool {
        self.clients.contains(loopback())
    }

    /// Whether `ip` is authorized.
    pub open spec fn contains(self, ip: Address) -> bool {
        self.clients.contains(ip)
    }

    /// The state after an attempt to add `ip` for which `drawn` was drawn.
    pub open spec fn added(self, ip: Address, drawn: u64) -> FilterState {
        FilterState { clients: self.clients.insert(ip), token: rotated(self.token, drawn) }
    }

    /// The state after an attempt to remove `ip`. The gateway's own host
    /// stays.
    pub open spec fn removed(self, ip: Address) -> FilterState {
        if ip == loopback() {
            self
        } else {
            FilterState { clients: self.clients.remove(ip), token: self.token }
        }
    }
}

/// The items of a listing: the addresses in the given order, with a comma
/// and a space between them.
pub open spec fn items_text(order: Seq<Address>) -> Seq<char>
    decreases order.len(),
{
    if order.len() == 0 {
        Seq::empty()
    } else if order.len() == 1 {
        address_text(order[0])
    } else {
        items_text(order.drop_last()) + seq![',', ' '] + address_text(order.last())
    }
}

/// The listing of the addresses in the given order.
pub open spec fn listing(order: Seq<Address>) -> Seq<char> {
    "Authorized clients: {"@ + items_text(order) + seq!['}']
}

/// Whether `order` names each address of `clients` once and no other.
pub open spec fn enumerates(order: Seq<Address>, clients: Set<Address>) -> bool {
    order.no_duplicates() && order.to_set() == clients
}

/// The token that follows is never the token that was in force, nor the
/// initial token; and it is the number drawn wherever that is neither.
pub proof fn lemma_rotated(current: u64, drawn: u64)
    ensures
        may_follow(rotated(current, drawn), current),
        may_follow(drawn, current) ==> rotated(current, drawn) == drawn,
{
}

/// After an attempt to add an address the address is authorized and the
/// token is no longer the one that was in force, nor is it written as that
/// one was, whether or not the address was authorized before.
pub proof fn lemma_add_authorizes_and_rotates(state: FilterState, ip: Address, drawn: u64)
    ensures
        state.added(ip, drawn).contains(ip),
        state.added(ip, drawn).token != state.token,
        state.added(ip, drawn).token != DEFAULT_TOKEN,
        decimal(state.added(ip, drawn).token as nat) != decimal(state.token as nat),
        decimal(state.added(ip, drawn).token as nat) != decimal(DEFAULT_TOKEN as nat),
{
    let after = state.added(ip, drawn).token;
    if decimal(after as nat) == decimal(state.token as nat) {
        lemma_numeral_is_injective(after as nat, state.token as nat, 10);
    }
    if decimal(after as nat) == decimal(DEFAULT_TOKEN as nat) {
        lemma_numeral_is_injective(after as nat, DEFAULT_TOKEN as nat, 10);
    }
}

/// The initial token is written `1234`.
pub proof fn lemma_initial_token_text()
    ensures
        decimal(DEFAULT_TOKEN as nat) == "1234"@,
{
    reveal_strlit("1234");
    reveal_with_fuel(numeral, 5);
    assert(decimal(1) == seq!['1']);
    assert(decimal(12) == seq!['1', '2']);
    assert(decimal(123) == seq!['1', '2', '3']);
    assert(decimal(1234) == seq!['1', '2', '3', '4']);
    assert("1234"@ =~= seq!['1', '2', '3', '4']);
}

/// Once the initial token was replaced it does not come back: no attempt to
/// add or to remove an address puts it in force again.
pub proof fn lemma_initial_token_retires(state: FilterState, ip: Address, drawn: u64)
    ensures
        state.added(ip, drawn).token != DEFAULT_TOKEN,
        state.token != DEFAULT_TOKEN ==> state.removed(ip).token != DEFAULT_TOKEN,
{
}

/// An address other than the gateway's own host is not authorized after it
/// was added and then removed.
pub proof fn lemma_add_then_remove(state: FilterState, ip: Address, drawn: u64)
    requires
        ip != loopback(),
    ensures
        !state.added(ip, drawn).removed(ip).contains(ip),
{
}

/// A new filter authorizes the gateway's own host, and neither adding nor
/// removing an address, whichever it is, ends that.
pub proof fn lemma_own_host_stays(state: FilterState, ip: Address, drawn: u64)
    ensures
        FilterState::fresh().trusts_own_host(),
        state.trusts_own_host() ==> state.added(ip, drawn).trusts_own_host(),
        state.trusts_own_host() ==> state.removed(ip).trusts_own_host(),
{
}

/// Removing an address a second time changes nothing, and the address is
/// not authorized after either removal unless it is the gateway's own host.
pub proof fn lemma_remove_twice(state: FilterState, ip: Address)
    ensures
        state.removed(ip).removed(ip) == state.removed(ip),
        ip != loopback() ==> !state.removed(ip).contains(ip),
{
    if ip != loopback() {
        assert(state.clients.remove(ip).remove(ip) =~= state.clients.remove(ip));
    }
}

/// One more address at the end of an order that names it nowhere: the order
/// still names none twice, names that address and what it named before, and
/// its items end with a comma, a space and the address.
pub proof fn lemma_listed_once_more(order: Seq<Address>, ip: Address)
    requires
        order.len() >= 1,
        order.no_duplicates(),
        !order.contains(ip),
    ensures
        order.push(ip).no_duplicates(),
        items_text(order.push(ip)) == items_text(order) + seq![',', ' '] + address_text(ip),
        forall|other: Address| order.push(ip).contains(other) <==> order.contains(other) || other == ip,
{
    let longer = order.push(ip);
    assert(longer.drop_last() =~= order);
    assert forall|other: Address| longer.contains(other) <==> order.contains(other) || other
        == ip by {
        if order.contains(other) {
            let j = choose|j: int| 0 <= j < order.len() && order[j] == other;
            assert(longer[j] == other);
        }
        if other == ip {
            assert(longer[order.len() as int] == ip);
        }
    }
    assert forall|i: int, j: int| 0 <= i < longer.len() && 0 <= j < longer.len() && i != j implies longer[i]
        != longer[j] by {
        if i < order.len() && j < order.len() {
        } else if i < order.len() {
            assert(order.contains(order[i]));
        } else {
            assert(order.contains(order[j]));
        }
    }
}

/// Draws the number for the next token, by `rand::thread_rng` and
/// `Rng::gen`. The generator is seeded by the system for each thread, so
/// nothing is claimed of the number drawn. Where the system cannot seed the
/// generator of a thread, the first draw on that thread panics.
#[verifier::external_body]
fn draw_token() -> u64 {
    rand::thread_rng().gen::<u64>()
}

/// The token that follows `current` after `drawn` was drawn.
pub fn rotate_token(current: u64, drawn: u64) -> (token: u64)
    ensures
        token == rotated(current, drawn),
{
    let first = drawn;
    let second = if first == u64::MAX {
        0
    } else {
        first + 1
    };
    let third = if second == u64::MAX {
        0
    } else {
        second + 1
    };
    if first != current && first != DEFAULT_TOKEN {
        first
    } else if second != current && second != DEFAULT_TOKEN {
        second
    } else {
        third
    }
}

/// The allow-list and its token. The gateway's own host is on the list
/// without being held: what is held are the other addresses.
pub struct Filter {
    v4: HashSet<u32>,
    v6: HashSet<u128>,
    token: u64,
}

impl View for Filter {
    type V = FilterState;

    closed spec fn view(&self) -> FilterState {
        FilterState {
            clients: Set::new(
                |ip: Address|
                    ip == loopback() || match ip {
                        Address::V4(bits) => self.v4@.contains(bits),
                        Address::V6(bits) => self.v6@.contains(bits),
                    },
            ),
            token: self.token,
        }
    }
}

impl Filter {
    /// Every filter authorizes the gateway's own host, whatever was added to
    /// it or removed from it.
    pub proof fn lemma_always_trusts_own_host(&self)
        ensures
            self@.trusts_own_host(),
    {
    }

    /// A filter that authorizes the gateway's own host alone, with the
    /// initial token in force.
    pub fn new() -> (filter: Filter)
        ensures
            filter@ == FilterState::fresh(),
    {
        let filter = Filter { v4: HashSet::new(), v6: HashSet::new(), token: DEFAULT_TOKEN };
        assert(filter@.clients =~= set![loopback()]);
        filter
    }

    /// Adds `ip` to the list and replaces the token by one drawn at random.
    /// Returns whether `ip` is new to the list.
    pub fn add_ip(&mut self, ip: Address) -> (added: bool)
        ensures
            added == !old(self)@.contains(ip),
            exists|drawn: u64| final(self)@ == old(self)@.added(ip, drawn),
            final(self)@.clients == old(self)@.clients.insert(ip),
            may_follow(final(self)@.token, old(self)@.token),
            final(self)@.trusts_own_host(),
    {
        let drawn = draw_token();
        let added = self.add_ip_with(ip, drawn);
        proof {
            lemma_rotated(old(self)@.token, drawn);
        }
        added
    }

    /// Adds `ip` to the list and replaces the token by the one that follows
    /// when `drawn` was drawn. Returns whether `ip` is new to the list.
    pub fn add_ip_with(&mut self, ip: Address, drawn: u64) -> (added: bool)
        ensures
            added == !old(self)@.contains(ip),
            final(self)@ == old(self)@.added(ip, drawn),
            final(self)@.trusts_own_host(),
    {
        self.token = rotate_token(self.token, drawn);
        let added = if ip.is_loopback() {
            false
        } else {
            match ip {
                Address::V4(bits) => self.v4.insert(bits),
                Address::V6(bits) => self.v6.insert(bits),
            }
        };
        proof {
            assert(final(self)@.clients =~= old(self)@.clients.insert(ip));
        }
        added
    }

    /// Removes `ip` from the list, unless it is the gateway's own host,
    /// which stays. Returns whether an address left the list. The token is
    /// not touched.
    pub fn remove_ip(&mut self, ip: &Address) -> (removed: bool)
        ensures
            removed == (old(self)@.contains(*ip) && *ip != loopback()),
            final(self)@ == old(self)@.removed(*ip),
            final(self)@.trusts_own_host(),
    {
        if ip.is_loopback() {
            return false;
        }
        let removed = match ip {
            Address::V4(bits) => self.v4.remove(bits),
            Address::V6(bits) => self.v6.remove(bits),
        };
        proof {
            assert(final(self)@.clients =~= old(self)@.clients.remove(*ip));
        }
        removed
    }

    /// Whether `ip` is on the list.
    pub fn check_ip(&self, ip: &Address) -> (listed: bool)
        ensures
            listed == self@.contains(*ip),
            self@.trusts_own_host(),
    {
        if ip.is_loopback() {
            return true;
        }
        match ip {
            Address::V4(bits) => self.v4.contains(bits),
            Address::V6(bits) => self.v6.contains(bits),
        }
    }

    /// The list for display: the gateway's own host first, then the other
    /// addresses in the order in which the sets that hold them hand them
    /// out, which is not fixed.
    pub fn list_clients(&self) -> (text: String)
        ensures
            exists|order: Seq<Address>| #[trigger]
                enumerates(order, self@.clients) && text@ == listing(order),
    {
        let mut text = String::from_str("Authorized clients: {");
        push_v4(&mut text, LOOPBACK_BITS);
        let ghost mut order: Seq<Address> = seq![loopback()];
        for bits in it: self.v4.iter()
            invariant
                it.seq().unref().no_duplicates(),
                it.seq().unref().to_set() == self.v4@,
                order.len() >= 1,
                order[0] == loopback(),
                order.no_duplicates(),
                text@ == "Authorized clients: {"@ + items_text(order),
                forall|ip: Address| #[trigger]
                    order.contains(ip) ==> ip == loopback() || (ip is V4 && it.seq().unref().take(
                        it.index() as int,
                    ).contains(ip->V4_0)),
                forall|j: int|
                    0 <= j < it.index() ==> order.contains(
                        Address::V4(#[trigger] it.seq().unref()[j]),
                    ),
        {
            let ghost walk = it.seq().unref();
            let ghost seen = walk.take(it.index() as int);
            let ghost longer = walk.take(it.index() + 1);
            let ghost before = order;
            proof {
                assert(walk[it.index() as int] == *bits);
                assert forall|w: u32| seen.contains(w) implies longer.contains(w) by {
                    let j = choose|j: int| 0 <= j < seen.len() && seen[j] == w;
                    assert(longer[j] == w);
                }
                assert(longer[seen.len() as int] == *bits);
            }
            if *bits != LOOPBACK_BITS {
                text.append(", ");
                push_v4(&mut text, *bits);
                proof {
                    reveal_strlit(", ");
                    assert(", "@ =~= seq![',', ' ']);
                    let ip = Address::V4(*bits);
                    if seen.contains(*bits) {
                        let j = choose|j: int| 0 <= j < seen.len() && seen[j] == *bits;
                        assert(walk[j] == *bits);
                    }
                    assert(!before.contains(ip));
                    order = before.push(ip);
                    lemma_listed_once_more(before, ip);
                    assert(text@ =~= "Authorized clients: {"@ + items_text(order));
                }
            }
            proof {
                assert(order.contains(Address::V4(*bits))) by {
                    if *bits == LOOPBACK_BITS {
                        assert(order[0] == loopback());
                    }
                }
                assert forall|ip: Address| #[trigger] order.contains(ip) implies ip == loopback() || (
                ip is V4 && longer.contains(ip->V4_0)) by {
                    if before.contains(ip) {
                    }
                }
                assert forall|j: int| 0 <= j < it.index() + 1 implies order.contains(
                    Address::V4(#[trigger] walk[j]),
                ) by {
                    if j < it.index() {
                        assert(before.contains(Address::V4(walk[j])));
                    }
                }
            }
        }
        let ghost v4_order = order;
        proof {
            assert forall|ip: Address| #[trigger] v4_order.contains(ip) implies ip is V4
                && self@.clients.contains(ip) by {}
            assert forall|w: u32| self.v4@.contains(w) implies v4_order.contains(Address::V4(w)) by {}
            assert(v4_order.contains(loopback())) by {
                assert(v4_order[0] == loopback());
            }
        }
        for bits in it: self.v6.iter()
            invariant
                it.seq().unref().no_duplicates(),
                it.seq().unref().to_set() == self.v6@,
                order.len() >= 1,
                order.no_duplicates(),
                text@ == "Authorized clients: {"@ + items_text(order),
                forall|ip: Address| #[trigger] v4_order.contains(ip) ==> ip is V4 && order.contains(ip),
                forall|ip: Address| #[trigger]
                    order.contains(ip) ==> v4_order.contains(ip) || (ip is V6
                        && it.seq().unref().take(it.index() as int).contains(ip->V6_0)),
                forall|j: int|
                    0 <= j < it.index() ==> order.contains(
                        Address::V6(#[trigger] it.seq().unref()[j]),
                    ),
        {
            let ghost walk = it.seq().unref();
            let ghost seen = walk.take(it.index() as int);
            let ghost longer = walk.take(it.index() + 1);
            let ghost before = order;
            text.append(", ");
            push_v6(&mut text, *bits);
            proof {
                assert(walk[it.index() as int] == *bits);
                assert forall|w: u128| seen.contains(w) implies longer.contains(w) by {
                    let j = choose|j: int| 0 <= j < seen.len() && seen[j] == w;
                    assert(longer[j] == w);
                }
                assert(longer[seen.len() as int] == *bits);
                reveal_strlit(", ");
                assert(", "@ =~= seq![',', ' ']);
                let ip = Address::V6(*bits);
                if seen.contains(*bits) {
                    let j = choose|j: int| 0 <= j < seen.len() && seen[j] == *bits;
                    assert(walk[j] == *bits);
                }
                assert(!before.contains(ip));
                order = before.push(ip);
                lemma_listed_once_more(before, ip);
                assert(text@ =~= "Authorized clients: {"@ + items_text(order));
                assert forall|j: int| 0 <= j < it.index() + 1 implies order.contains(
                    Address::V6(#[trigger] walk[j]),
                ) by {
                    if j < it.index() {
                        assert(before.contains(Address::V6(walk[j])));
                    }
                }
                assert forall|other: Address| #[trigger] v4_order.contains(other) implies other is V4
                    && order.contains(other) by {
                    assert(before.contains(other));
                }
                assert forall|other: Address| #[trigger] order.contains(other) implies v4_order.contains(
                    other,
                ) || (other is V6 && longer.contains(other->V6_0)) by {
                    if before.contains(other) {
                    }
                }
            }
        }
        text.append("}");
        proof {
            reveal_strlit("}");
            assert("}"@ =~= seq!['}']);
            assert(text@ =~= listing(order));
            assert forall|ip: Address| #[trigger] order.contains(ip) implies self@.clients.contains(ip) by {}
            assert forall|w: u128| self.v6@.contains(w) implies order.contains(Address::V6(w)) by {}
            assert forall|ip: Address| self@.clients.contains(ip) implies order.contains(ip) by {
                match ip {
                    Address::V4(w) => {
                        if ip != loopback() {
                            assert(self.v4@.contains(w));
                        }
                        assert(v4_order.contains(ip));
                    },
                    Address::V6(w) => {
                        assert(self.v6@.contains(w));
                    },
                }
            }
            assert(order.to_set() =~= self@.clients);
            assert(enumerates(order, self@.clients));
        }
        text
    }

    /// The token in force, in decimal.
    pub fn get_token(&self) -> (text: String)
        ensures
            text@ == decimal(self@.token as nat),
    {
        decimal_text(self.token)
    }
}

impl Default for Filter {
    fn default() -> (filter: Filter)
        ensures
            filter@ == FilterState::fresh(),
    {
        Filter::new()
    }
}

} // verus!
