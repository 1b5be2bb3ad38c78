//! Network addresses and the text that denotes them.
//!
//! An address has 32 bits or 128, and each kind has its own form of text.
//! Text is read as an address of 32 bits where it denotes one, and else as
//! one of 128 bits.

use crate::error::MyError;
use crate::groups::{
    group, group_texts, lemma_group_round_trip, lemma_v6_round_trip, push_v6, read_v6, v6_of,
    v6_text,
};
use crate::numeral::{decimal, lemma_numeral_is_spaceless};
use crate::quad::{
    lemma_octet_round_trip, lemma_v4_round_trip, octet, push_v4, quad, quad_bits, read_v4,
    v4_of, v4_text,
};
use crate::text::{
    chars_of, free_of, is_space, is_word, join, lemma_join_free_of, lemma_join_of_filled_parts,
};
use vstd::prelude::*;
use vstd::string::*;

verus! {

/// A network address, held as the number that its bits spell.
#[derive(Clone, Copy, Debug, PartialEq, Eq, Hash, Structural)]
pub enum Address {
    /// An address of 32 bits.
    V4(u32),
    /// An address of 128 bits.
    V6(u128),
}

/// The bits of 127.0.0.1, the address of the gateway's own host.
pub const LOOPBACK_BITS: u32 = 0x7F00_0001;

/// The address of the gateway's own host.
pub open spec fn loopback() -> Address {
    Address::V4(LOOPBACK_BITS)
}

/// The address that `s` denotes, if it denotes one.
pub open spec fn address_of(s: Seq<char>) -> Option<Address> {
    match v4_of(s) {
        Some(bits) => Some(Address::V4(bits)),
        None => match v6_of(s) {
            Some(bits) => Some(Address::V6(bits)),
            None => None,
        },
    }
}

/// How an address is written.
pub open spec fn address_text(address: Address) -> Seq<char> {
    match address {
        Address::V4(bits) => v4_text(bits),
        Address::V6(bits) => v6_text(bits),
    }
}

/// The address that the piece of `chars` from `start` up to `end` denotes.
pub fn read_address(chars: &Vec<char>, start: usize, end: usize) -> (value: Option<Address>)
    requires
        start <= end <= chars@.len(),
    ensures
        value == address_of(chars@.subrange(start as int, end as int)),
{
    match read_v4(chars, start, end) {
        Some(bits) => Some(Address::V4(bits)),
        None => match read_v6(chars, start, end) {
            Some(bits) => Some(Address::V6(bits)),
            None => None,
        },
    }
}

impl Address {
    /// The address of the gateway's own host, 127.0.0.1.
    pub fn loopback() -> (address: Address)
        ensures
            address == loopback(),
    {
        Address::V4(LOOPBACK_BITS)
    }

    /// The address a.b.c.d.
    pub fn from_octets(a: u8, b: u8, c: u8, d: u8) -> (address: Address)
        ensures
            address == Address::V4(quad(a, b, c, d)),
    {
        Address::V4(quad_bits(a, b, c, d))
    }

    /// Whether this is the address of the gateway's own host.
    pub fn is_loopback(&self) -> (b: bool)
        ensures
            b == (*self == loopback()),
    {
        match self {
            Address::V4(bits) => *bits == LOOPBACK_BITS,
            Address::V6(_) => false,
        }
    }

    /// The address that `text` denotes. Text that denotes none is refused as
    /// a malformed address.
    pub fn parse(text: &str) -> (parsed: Result<Address, MyError>)
        ensures
            parsed == match address_of(text@) {
                Some(address) => Ok::<Address, MyError>(address),
                None => Err::<Address, MyError>(MyError::MalformedAddress),
            },
    {
        let chars = chars_of(text);
        assert(chars@.subrange(0, chars@.len() as int) == text@);
        match read_address(&chars, 0, chars.len()) {
            Some(address) => Ok(address),
            None => Err(MyError::MalformedAddress),
        }
    }

    /// The text of the address.
    pub fn to_text(&self) -> (text: String)
        ensures
            text@ == address_text(*self),
    {
        let mut text = String::new();
        match self {
            Address::V4(bits) => push_v4(&mut text, *bits),
            Address::V6(bits) => push_v6(&mut text, *bits),
        }
        assert(Seq::<char>::empty() + address_text(*self) =~= address_text(*self));
        text
    }
}

/// The text written for an address is a word: it is not empty and holds no
/// whitespace.
pub proof fn lemma_address_text_is_word(address: Address)
    ensures
        is_word(address_text(address)),
{
    let text = address_text(address);
    match address {
        Address::V4(bits) => {
            let parts = seq![
                decimal(octet(bits, 0) as nat),
                decimal(octet(bits, 1) as nat),
                decimal(octet(bits, 2) as nat),
                decimal(octet(bits, 3) as nat),
            ];
            assert(join(parts, '.') =~= text) by {
                reveal_with_fuel(join, 5);
                let g = parts.skip(1);
                let h = g.skip(1);
                let k = h.skip(1);
                assert(g.len() == 3 && g[0] == parts[1]);
                assert(h.len() == 2 && h[0] == parts[2]);
                assert(k.len() == 1 && k[0] == parts[3]);
                assert(join(k, '.') == parts[3]);
                assert(join(h, '.') == parts[2] + seq!['.'] + parts[3]);
                assert(join(g, '.') == parts[1] + seq!['.'] + (parts[2] + seq!['.'] + parts[3]));
            }
            assert forall|i: int| 0 <= i < parts.len() implies (#[trigger] parts[i]).len() >= 1
                && free_of(parts[i], '.') && free_of(parts[i], ' ') && free_of(parts[i], '\t')
                && free_of(parts[i], '\n') && free_of(parts[i], '\x0C') && free_of(
                parts[i],
                '\r',
            ) by {
                lemma_numeral_is_spaceless(octet(bits, i) as nat, 10);
                lemma_octet_round_trip(octet(bits, i));
            }
            lemma_join_of_filled_parts(parts, '.');
            lemma_join_free_of(parts, '.', ' ');
            lemma_join_free_of(parts, '.', '\t');
            lemma_join_free_of(parts, '.', '\n');
            lemma_join_free_of(parts, '.', '\x0C');
            lemma_join_free_of(parts, '.', '\r');
        },
        Address::V6(bits) => {
            let parts = group_texts(bits);
            assert forall|i: int| 0 <= i < parts.len() implies (#[trigger] parts[i]).len() >= 1
                && free_of(parts[i], ':') && free_of(parts[i], ' ') && free_of(parts[i], '\t')
                && free_of(parts[i], '\n') && free_of(parts[i], '\x0C') && free_of(
                parts[i],
                '\r',
            ) by {
                lemma_numeral_is_spaceless(group(bits, i) as nat, 16);
                lemma_group_round_trip(group(bits, i));
            }
            lemma_join_of_filled_parts(parts, ':');
            lemma_join_free_of(parts, ':', ' ');
            lemma_join_free_of(parts, ':', '\t');
            lemma_join_free_of(parts, ':', '\n');
            lemma_join_free_of(parts, ':', '\x0C');
            lemma_join_free_of(parts, ':', '\r');
        },
    }
    assert forall|i: int| 0 <= i < text.len() implies !is_space(#[trigger] text[i]) by {}
}

/// The text written for an address denotes that address.
pub proof fn lemma_address_round_trip(address: Address)
    ensures
        address_of(address_text(address)) == Some(address),
{
    match address {
        Address::V4(bits) => lemma_v4_round_trip(bits),
        Address::V6(bits) => lemma_v6_round_trip(bits),
    }
}

} // verus!
