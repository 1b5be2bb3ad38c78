//! Addresses of 32 bits and the text that denotes them: four decimal numbers,
//! each at most 255 and without a leading zero, with a dot between them.

use crate::numeral::{
    all_digits, decimal, digit_char, digit_of, lemma_numeral_reads_back,
    lemma_plain_numeral_is_written, numeral_value, push_numeral, read_numeral,
};
use crate::text::{
    cut, fields, free_of, join, lemma_fields_after, lemma_fields_join, lemma_one_field,
    split_fields,
};
use vstd::prelude::*;
use vstd::string::*;

verus! {

/// The address bits that four octets spell, the first being the most
/// significant.
pub open spec fn quad(a: u8, b: u8, c: u8, d: u8) -> u32 {
    (a as int * 0x100_0000 + b as int * 0x1_0000 + c as int * 0x100 + d as int) as u32
}

/// The octet of `bits` at `index`, the octet at 0 being the most significant.
pub open spec fn octet(bits: u32, index: int) -> u8 {
    if index == 0 {
        (bits as int / 0x100_0000) as u8
    } else if index == 1 {
        (bits as int / 0x1_0000 % 0x100) as u8
    } else if index == 2 {
        (bits as int / 0x100 % 0x100) as u8
    } else {
        (bits as int % 0x100) as u8
    }
}

/// The octet that `s` denotes: a decimal numeral of one to three digits
/// without a leading zero, and at most 255.
pub open spec fn octet_of(s: Seq<char>) -> Option<u8> {
    if 1 <= s.len() <= 3 && all_digits(s, 10) && (s.len() == 1 || s[0] != '0') && numeral_value(
        s,
        10,
    ) <= 255 {
        Some(numeral_value(s, 10) as u8)
    } else {
        None
    }
}

/// The 32 address bits that `s` denotes: four octets with dots between them.
pub open spec fn v4_of(s: Seq<char>) -> Option<u32> {
    let f = fields(s, '.');
    if f.len() == 4 && octet_of(f[0]) is Some && octet_of(f[1]) is Some && octet_of(f[2]) is Some
        && octet_of(f[3]) is Some {
        Some(
            quad(
                octet_of(f[0]).unwrap(),
                octet_of(f[1]).unwrap(),
                octet_of(f[2]).unwrap(),
                octet_of(f[3]).unwrap(),
            ),
        )
    } else {
        None
    }
}

/// How 32 address bits are written: the four octets in decimal, with dots.
pub open spec fn v4_text(bits: u32) -> Seq<char> {
    decimal(octet(bits, 0) as nat) + seq!['.'] + decimal(octet(bits, 1) as nat) + seq!['.']
        + decimal(octet(bits, 2) as nat) + seq!['.'] + decimal(octet(bits, 3) as nat)
}

/// The octets of `bits` spell `bits`.
pub proof fn lemma_quad_of_octets(bits: u32)
    ensures
        quad(octet(bits, 0), octet(bits, 1), octet(bits, 2), octet(bits, 3)) == bits,
{
}

/// Four octets are the octets of the bits that they spell.
pub proof fn lemma_octets_of_quad(a: u8, b: u8, c: u8, d: u8)
    ensures
        octet(quad(a, b, c, d), 0) == a,
        octet(quad(a, b, c, d), 1) == b,
        octet(quad(a, b, c, d), 2) == c,
        octet(quad(a, b, c, d), 3) == d,
{
    let bits = quad(a, b, c, d) as int;
    let top = a as int;
    let upper = a as int * 0x100 + b as int;
    let most = upper * 0x100 + c as int;
    assert(bits == most * 0x100 + d as int);
    vstd::arithmetic::div_mod::lemma_fundamental_div_mod_converse(bits, 0x100, most, d as int);
    vstd::arithmetic::div_mod::lemma_fundamental_div_mod_converse(most, 0x100, upper, c as int);
    vstd::arithmetic::div_mod::lemma_fundamental_div_mod_converse(upper, 0x100, top, b as int);
    assert(bits == upper * 0x1_0000 + (c as int * 0x100 + d as int));
    vstd::arithmetic::div_mod::lemma_fundamental_div_mod_converse(
        bits,
        0x1_0000,
        upper,
        c as int * 0x100 + d as int,
    );
    assert(bits == top * 0x100_0000 + (b as int * 0x1_0000 + c as int * 0x100 + d as int));
    vstd::arithmetic::div_mod::lemma_fundamental_div_mod_converse(
        bits,
        0x100_0000,
        top,
        b as int * 0x1_0000 + c as int * 0x100 + d as int,
    );
}

/// An octet's decimal numeral denotes that octet, and holds no dot.
pub proof fn lemma_octet_round_trip(n: u8)
    ensures
        octet_of(decimal(n as nat)) == Some(n),
        free_of(decimal(n as nat), '.'),
{
    let s = decimal(n as nat);
    lemma_numeral_reads_back(n as nat, 10);
    lemma_decimal_length(n as nat);
    assert forall|i: int| 0 <= i < s.len() implies #[trigger] s[i] != '.' by {
        assert(digit_of(s[i], 10) is Some);
    }
}

/// A number below a thousand is written with at most three decimal digits.
pub proof fn lemma_decimal_length(n: nat)
    requires
        n < 1000,
    ensures
        1 <= decimal(n).len() <= 3,
{
    if n >= 10 {
        let q = n / 10;
        assert(decimal(n) == decimal(q).push(digit_char(n % 10)));
        if q >= 10 {
            let p = q / 10;
            assert(decimal(q) == decimal(p).push(digit_char(q % 10)));
            assert(p < 10);
            assert(decimal(p) == seq![digit_char(p)]);
        } else {
            assert(decimal(q) == seq![digit_char(q)]);
        }
    } else {
        assert(decimal(n) == seq![digit_char(n)]);
    }
}

/// What an octet denotes is written as its decimal numeral.
pub proof fn lemma_octet_is_written(s: Seq<char>)
    requires
        octet_of(s) is Some,
    ensures
        decimal(octet_of(s).unwrap() as nat) == s,
{
    assert forall|i: int| 0 <= i < s.len() implies !('A' <= #[trigger] s[i] <= 'F') by {
        assert(digit_of(s[i], 10) is Some);
    }
    lemma_plain_numeral_is_written(s, 10);
}

/// The text written for address bits denotes those bits.
pub proof fn lemma_v4_round_trip(bits: u32)
    ensures
        v4_of(v4_text(bits)) == Some(bits),
{
    let a = decimal(octet(bits, 0) as nat);
    let b = decimal(octet(bits, 1) as nat);
    let c = decimal(octet(bits, 2) as nat);
    let d = decimal(octet(bits, 3) as nat);
    let dot = seq!['.'];
    lemma_octet_round_trip(octet(bits, 0));
    lemma_octet_round_trip(octet(bits, 1));
    lemma_octet_round_trip(octet(bits, 2));
    lemma_octet_round_trip(octet(bits, 3));
    lemma_one_field(d, '.');
    lemma_fields_after(c, d, '.');
    lemma_fields_after(b, c + dot + d, '.');
    lemma_fields_after(a, b + dot + (c + dot + d), '.');
    assert(v4_text(bits) =~= a + dot + (b + dot + (c + dot + d)));
    let f = fields(v4_text(bits), '.');
    assert(f =~= seq![a, b, c, d]);
    lemma_quad_of_octets(bits);
}

/// Text that denotes address bits is the text written for them.
pub proof fn lemma_v4_text_is_unique(s: Seq<char>)
    requires
        v4_of(s) is Some,
    ensures
        v4_text(v4_of(s).unwrap()) == s,
{
    let f = fields(s, '.');
    let bits = v4_of(s).unwrap();
    lemma_octets_of_quad(
        octet_of(f[0]).unwrap(),
        octet_of(f[1]).unwrap(),
        octet_of(f[2]).unwrap(),
        octet_of(f[3]).unwrap(),
    );
    lemma_octet_is_written(f[0]);
    lemma_octet_is_written(f[1]);
    lemma_octet_is_written(f[2]);
    lemma_octet_is_written(f[3]);
    lemma_fields_join(s, '.');
    assert(join(f, '.') =~= f[0] + seq!['.'] + f[1] + seq!['.'] + f[2] + seq!['.'] + f[3]) by {
        reveal_with_fuel(join, 5);
        let g = f.skip(1);
        let h = g.skip(1);
        let k = h.skip(1);
        assert(g.len() == 3 && g[0] == f[1]);
        assert(h.len() == 2 && h[0] == f[2]);
        assert(k.len() == 1 && k[0] == f[3]);
        assert(join(k, '.') == f[3]);
        assert(join(h, '.') == f[2] + seq!['.'] + f[3]);
        assert(join(g, '.') == f[1] + seq!['.'] + (f[2] + seq!['.'] + f[3]));
    }
}

/// The octet that the piece of `chars` from `start` up to `end` denotes.
pub fn read_octet(chars: &Vec<char>, start: usize, end: usize) -> (value: Option<u8>)
    requires
        start <= end <= chars@.len(),
    ensures
        value == octet_of(chars@.subrange(start as int, end as int)),
{
    let len = end - start;
    if len < 1 || len > 3 {
        return None;
    }
    if len > 1 && chars[start] == '0' {
        assert(chars@.subrange(start as int, end as int)[0] == '0');
        return None;
    }
    assert(chars@.subrange(start as int, end as int)[0] == chars@[start as int]);
    match read_numeral(chars, start, end, 10) {
        Some(n) => if n <= 255 {
            Some(n as u8)
        } else {
            None
        },
        None => None,
    }
}

/// The 32 address bits that the piece of `chars` from `start` up to `end`
/// denotes.
pub fn read_v4(chars: &Vec<char>, start: usize, end: usize) -> (value: Option<u32>)
    requires
        start <= end <= chars@.len(),
    ensures
        value == v4_of(chars@.subrange(start as int, end as int)),
{
    let spans = split_fields(chars, start, end, '.');
    if spans.len() != 4 {
        return None;
    }
    let ghost f = fields(chars@.subrange(start as int, end as int), '.');
    proof {
        assert(cut(chars@, spans@)[0] == f[0]);
        assert(cut(chars@, spans@)[1] == f[1]);
        assert(cut(chars@, spans@)[2] == f[2]);
        assert(cut(chars@, spans@)[3] == f[3]);
    }
    let a = match read_octet(chars, spans[0].0, spans[0].1) {
        Some(n) => n,
        None => {
            return None;
        },
    };
    let b = match read_octet(chars, spans[1].0, spans[1].1) {
        Some(n) => n,
        None => {
            return None;
        },
    };
    let c = match read_octet(chars, spans[2].0, spans[2].1) {
        Some(n) => n,
        None => {
            return None;
        },
    };
    let d = match read_octet(chars, spans[3].0, spans[3].1) {
        Some(n) => n,
        None => {
            return None;
        },
    };
    Some(quad_bits(a, b, c, d))
}

/// The address bits that four octets spell.
pub fn quad_bits(a: u8, b: u8, c: u8, d: u8) -> (bits: u32)
    ensures
        bits == quad(a, b, c, d),
{
    (a as u32) * 0x100_0000 + (b as u32) * 0x1_0000 + (c as u32) * 0x100 + (d as u32)
}

/// Writes the text of 32 address bits at the end of `out`.
pub fn push_v4(out: &mut String, bits: u32)
    ensures
        final(out)@ == old(out)@ + v4_text(bits),
{
    let a = bits / 0x100_0000;
    let b = bits / 0x1_0000 % 0x100;
    let c = bits / 0x100 % 0x100;
    let d = bits % 0x100;
    push_numeral(out, a as u64, 10);
    out.append(".");
    push_numeral(out, b as u64, 10);
    out.append(".");
    push_numeral(out, c as u64, 10);
    out.append(".");
    push_numeral(out, d as u64, 10);
    proof {
        reveal_strlit(".");
        assert("."@ =~= seq!['.']);
        assert(final(out)@ =~= old(out)@ + v4_text(bits));
    }
}

} // verus!
