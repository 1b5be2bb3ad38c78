//! Addresses of 128 bits and the text that denotes them: eight groups of one
//! to four hexadecimal digits with a colon between them.
//!
//! In reading, one run of groups that are zero may be left out and marked by
//! two colons, and the last two groups may stand as an address of 32 bits in
//! its own form. In writing, all eight groups stand, each without leading
//! zeros.

use crate::numeral::{
    all_digits, digit_of, lemma_numeral_reads_back, numeral, numeral_value, push_numeral,
    read_numeral,
};
use crate::quad::{read_v4, v4_of};
use crate::text::{
    cut, fields, free_of, join, lemma_fields_of_join, lemma_join_free_of,
    lemma_join_of_filled_parts, lemma_join_push, lemma_one_field, no_empty_gap, split_fields,
};
use vstd::prelude::*;
use vstd::string::*;

verus! {

/// What one step to the left is worth among the groups of 128 address bits.
pub const GROUP_RADIX: u128 = 0x1_0000;

/// The group of 16 bits that `s` denotes: one to four hexadecimal digits.
pub open spec fn group_of(s: Seq<char>) -> Option<u16> {
    if 1 <= s.len() <= 4 && all_digits(s, 16) {
        Some(numeral_value(s, 16) as u16)
    } else {
        None
    }
}

/// The groups that `parts` denote, one each, if each denotes one.
pub open spec fn groups_of(parts: Seq<Seq<char>>) -> Option<Seq<u16>>
    decreases parts.len(),
{
    if parts.len() == 0 {
        Some(Seq::empty())
    } else {
        match (groups_of(parts.drop_last()), group_of(parts.last())) {
            (Some(front), Some(last)) => Some(front.push(last)),
            _ => None,
        }
    }
}

/// The two groups that 32 address bits fill, the more significant first.
pub open spec fn halves(bits: u32) -> Seq<u16> {
    seq![(bits as int / 0x1_0000) as u16, (bits as int % 0x1_0000) as u16]
}

/// The groups that `parts` denote where the last part may be an address of
/// 32 bits, which then stands for two groups.
pub open spec fn closing_groups_of(parts: Seq<Seq<char>>) -> Option<Seq<u16>> {
    if parts.len() >= 1 && v4_of(parts.last()) is Some {
        match groups_of(parts.drop_last()) {
            Some(front) => Some(front + halves(v4_of(parts.last()).unwrap())),
            None => None,
        }
    } else {
        groups_of(parts)
    }
}

/// The groups that a run of text denotes: none where it is empty, and else
/// those of its parts between colons. Only a run that closes the address may
/// end in an address of 32 bits.
pub open spec fn run_groups_of(s: Seq<char>, closing: bool) -> Option<Seq<u16>> {
    if s.len() == 0 {
        Some(Seq::empty())
    } else if closing {
        closing_groups_of(fields(s, ':'))
    } else {
        groups_of(fields(s, ':'))
    }
}

/// The first position at or after `from` at which two colons stand side by
/// side, or the length of `s` where they do nowhere.
pub open spec fn gap_at(s: Seq<char>, from: int) -> int
    decreases s.len() - from,
{
    if from < 0 || from + 1 >= s.len() {
        s.len() as int
    } else if s[from] == ':' && s[from + 1] == ':' {
        from
    } else {
        gap_at(s, from + 1)
    }
}

/// The address bits that eight groups spell, the first being the most
/// significant.
pub open spec fn v6_bits(groups: Seq<u16>) -> u128 {
    (groups[0] as int * group_weight(0) + groups[1] as int * group_weight(1) + groups[2] as int
        * group_weight(2) + groups[3] as int * group_weight(3) + groups[4] as int * group_weight(4)
        + groups[5] as int * group_weight(5) + groups[6] as int * group_weight(6) + groups[7] as int
        * group_weight(7)) as u128
}

/// `count` groups that are zero.
pub open spec fn zero_groups(count: int) -> Seq<u16> {
    Seq::new(count as nat, |i: int| 0u16)
}

/// The 128 address bits that `s` denotes. Without two colons side by side
/// `s` must denote all eight groups. With them, the text before and the text
/// after denote seven groups or fewer, and groups that are zero fill the gap.
pub open spec fn v6_of(s: Seq<char>) -> Option<u128> {
    let gap = gap_at(s, 0);
    if gap >= s.len() {
        match closing_groups_of(fields(s, ':')) {
            Some(groups) => if groups.len() == 8 {
                Some(v6_bits(groups))
            } else {
                None
            },
            None => None,
        }
    } else {
        match (
            run_groups_of(s.subrange(0, gap), false),
            run_groups_of(s.subrange(gap + 2, s.len() as int), true),
        ) {
            (Some(head), Some(tail)) => if head.len() + tail.len() <= 7 {
                Some(v6_bits(head + zero_groups(8 - head.len() - tail.len()) + tail))
            } else {
                None
            },
            _ => None,
        }
    }
}

/// The weight of the group at `index`, the group at 0 being the most
/// significant of eight.
pub open spec fn group_weight(index: int) -> int {
    if index == 0 {
        0x1_0000_0000_0000_0000_0000_0000_0000
    } else if index == 1 {
        0x1_0000_0000_0000_0000_0000_0000
    } else if index == 2 {
        0x1_0000_0000_0000_0000_0000
    } else if index == 3 {
        0x1_0000_0000_0000_0000
    } else if index == 4 {
        0x1_0000_0000_0000
    } else if index == 5 {
        0x1_0000_0000
    } else if index == 6 {
        0x1_0000
    } else {
        1
    }
}

/// The group of 16 bits of `bits` at `index`.
pub open spec fn group(bits: u128, index: int) -> u16 {
    (bits as int / group_weight(index) % 0x1_0000) as u16
}

/// The eight groups of `bits`, each written in hexadecimal.
pub open spec fn group_texts(bits: u128) -> Seq<Seq<char>> {
    Seq::new(8, |i: int| numeral(group(bits, i) as nat, 16))
}

/// How 128 address bits are written: the eight groups in hexadecimal, with
/// colons.
pub open spec fn v6_text(bits: u128) -> Seq<char> {
    join(group_texts(bits), ':')
}

/// The eight groups of `bits`.
pub open spec fn groups(bits: u128) -> Seq<u16> {
    Seq::new(8, |i: int| group(bits, i))
}

/// A numeral of at most four hexadecimal digits spells a number that fits
/// 16 bits.
pub proof fn lemma_group_fits(s: Seq<char>)
    requires
        s.len() <= 4,
    ensures
        numeral_value(s, 16) <= 0xffff,
        s.len() <= 3 ==> numeral_value(s, 16) <= 0xfff,
        s.len() <= 2 ==> numeral_value(s, 16) <= 0xff,
        s.len() <= 1 ==> numeral_value(s, 16) <= 0xf,
        s.len() == 0 ==> numeral_value(s, 16) == 0,
    decreases s.len(),
{
    if s.len() > 0 {
        lemma_group_fits(s.drop_last());
    }
}

/// Where one of the parts denotes no group, the parts denote no groups.
pub proof fn lemma_groups_need_each(parts: Seq<Seq<char>>, at: int)
    requires
        0 <= at < parts.len(),
        group_of(parts[at]) is None,
    ensures
        groups_of(parts) is None,
    decreases parts.len(),
{
    if at < parts.len() - 1 {
        assert(parts.drop_last()[at] == parts[at]);
        lemma_groups_need_each(parts.drop_last(), at);
    }
}

/// A number that fits 16 bits is written with at most four hexadecimal
/// digits.
pub proof fn lemma_group_length(n: nat)
    requires
        n <= 0xffff,
    ensures
        1 <= numeral(n, 16).len() <= 4,
{
    reveal_with_fuel(numeral, 5);
    if n >= 16 {
        let q = n / 16;
        if q >= 16 {
            let p = q / 16;
            if p >= 16 {
                assert(p / 16 < 16);
            }
        }
    }
}

/// A group's hexadecimal numeral denotes that group, is not empty, and holds
/// neither colon nor dot.
pub proof fn lemma_group_round_trip(g: u16)
    ensures
        group_of(numeral(g as nat, 16)) == Some(g),
        numeral(g as nat, 16).len() >= 1,
        free_of(numeral(g as nat, 16), ':'),
        free_of(numeral(g as nat, 16), '.'),
{
    let s = numeral(g as nat, 16);
    lemma_numeral_reads_back(g as nat, 16);
    lemma_group_length(g as nat);
    assert forall|i: int| 0 <= i < s.len() implies #[trigger] s[i] != ':' by {
        assert(digit_of(s[i], 16) is Some);
    }
    assert forall|i: int| 0 <= i < s.len() implies #[trigger] s[i] != '.' by {
        assert(digit_of(s[i], 16) is Some);
    }
}

/// The numerals of groups denote those groups.
pub proof fn lemma_groups_round_trip(written: Seq<Seq<char>>, values: Seq<u16>)
    requires
        written.len() == values.len(),
        forall|i: int| 0 <= i < values.len() ==> #[trigger] written[i] == numeral(values[i] as nat, 16),
    ensures
        groups_of(written) == Some(values),
    decreases written.len(),
{
    if written.len() > 0 {
        let front = written.drop_last();
        let front_values = values.drop_last();
        assert forall|i: int| 0 <= i < front_values.len() implies #[trigger] front[i] == numeral(
            front_values[i] as nat,
            16,
        ) by {
            assert(front[i] == written[i]);
        }
        lemma_groups_round_trip(front, front_values);
        assert(written.last() == written[written.len() - 1]);
        lemma_group_round_trip(values.last());
        assert(front_values.push(values.last()) =~= values);
    } else {
        assert(values =~= Seq::<u16>::empty());
    }
}

/// The groups of `bits` spell `bits`.
pub proof fn lemma_groups_spell(bits: u128)
    ensures
        v6_bits(groups(bits)) == bits,
{
    let r = 0x1_0000int;
    let x0 = bits as int;
    let x1 = x0 / r;
    let x2 = x1 / r;
    let x3 = x2 / r;
    let x4 = x3 / r;
    let x5 = x4 / r;
    let x6 = x5 / r;
    let x7 = x6 / r;
    vstd::arithmetic::div_mod::lemma_fundamental_div_mod(x0, r);
    vstd::arithmetic::div_mod::lemma_fundamental_div_mod(x1, r);
    vstd::arithmetic::div_mod::lemma_fundamental_div_mod(x2, r);
    vstd::arithmetic::div_mod::lemma_fundamental_div_mod(x3, r);
    vstd::arithmetic::div_mod::lemma_fundamental_div_mod(x4, r);
    vstd::arithmetic::div_mod::lemma_fundamental_div_mod(x5, r);
    vstd::arithmetic::div_mod::lemma_fundamental_div_mod(x6, r);
    vstd::arithmetic::div_mod::lemma_div_denominator(x0, r, r);
    assert(x2 == x0 / group_weight(5));
    vstd::arithmetic::div_mod::lemma_div_denominator(x0, group_weight(5), r);
    assert(x3 == x0 / group_weight(4));
    vstd::arithmetic::div_mod::lemma_div_denominator(x0, group_weight(4), r);
    assert(x4 == x0 / group_weight(3));
    vstd::arithmetic::div_mod::lemma_div_denominator(x0, group_weight(3), r);
    assert(x5 == x0 / group_weight(2));
    vstd::arithmetic::div_mod::lemma_div_denominator(x0, group_weight(2), r);
    assert(x6 == x0 / group_weight(1));
    vstd::arithmetic::div_mod::lemma_div_denominator(x0, group_weight(1), r);
    assert(x7 == x0 / group_weight(0));
    assert(0 <= x7 < r);
    assert(x7 % r == x7);
    let g = groups(bits);
    assert(g[7] as int == x0 % r);
    assert(g[6] as int == x1 % r);
    assert(g[5] as int == x2 % r);
    assert(g[4] as int == x3 % r);
    assert(g[3] as int == x4 % r);
    assert(g[2] as int == x5 % r);
    assert(g[1] as int == x6 % r);
    assert(g[0] as int == x7);
    assert(x6 == r * x7 + g[1] as int);
    assert(x5 == r * x6 + g[2] as int);
    assert(x4 == r * x5 + g[3] as int);
    assert(x3 == r * x4 + g[4] as int);
    assert(x2 == r * x3 + g[5] as int);
    assert(x1 == r * x2 + g[6] as int);
    assert(x0 == r * x1 + g[7] as int);
}

/// Where no two colons stand side by side, there is no gap to find.
pub proof fn lemma_no_gap(s: Seq<char>, from: int)
    requires
        0 <= from,
        no_empty_gap(s, ':'),
    ensures
        gap_at(s, from) == s.len(),
    decreases s.len() - from,
{
    if from + 1 < s.len() {
        assert(!(s[from] == ':' && s[from + 1] == ':'));
        lemma_no_gap(s, from + 1);
    }
}

/// The text written for 128 address bits denotes those bits, and no address
/// of 32 bits.
pub proof fn lemma_v6_round_trip(bits: u128)
    ensures
        v6_of(v6_text(bits)) == Some(bits),
        v4_of(v6_text(bits)) is None,
{
    let parts = group_texts(bits);
    let text = v6_text(bits);
    let values = groups(bits);
    assert forall|i: int| 0 <= i < parts.len() implies (#[trigger] parts[i]).len() >= 1 && free_of(
        parts[i],
        ':',
    ) && free_of(parts[i], '.') by {
        lemma_group_round_trip(group(bits, i));
    }
    lemma_fields_of_join(parts, ':');
    lemma_join_of_filled_parts(parts, ':');
    lemma_no_gap(text, 0);
    lemma_join_free_of(parts, ':', '.');
    lemma_one_field(text, '.');
    lemma_one_field(parts.last(), '.');
    assert(v4_of(parts.last()) is None);
    lemma_groups_round_trip(parts, values);
    lemma_groups_spell(bits);
}

/// The group of 16 bits that the piece of `chars` from `start` up to `end`
/// denotes.
pub fn read_group(chars: &Vec<char>, start: usize, end: usize) -> (value: Option<u16>)
    requires
        start <= end <= chars@.len(),
    ensures
        value == group_of(chars@.subrange(start as int, end as int)),
{
    let len = end - start;
    if len < 1 || len > 4 {
        return None;
    }
    proof {
        lemma_group_fits(chars@.subrange(start as int, end as int));
    }
    match read_numeral(chars, start, end, 16) {
        Some(n) => Some(n as u16),
        None => None,
    }
}

/// The groups that the pieces of `chars` at the first `count` of `spans`
/// denote, one each.
pub fn read_groups(chars: &Vec<char>, spans: &Vec<(usize, usize)>, count: usize) -> (groups: Option<
    Vec<u16>,
>)
    requires
        count <= spans@.len(),
        forall|i: int| 0 <= i < spans@.len() ==> (#[trigger] spans@[i]).0 <= spans@[i].1 <= chars@.len(),
    ensures
        match groups {
            Some(found) => groups_of(cut(chars@, spans@).take(count as int)) == Some(found@),
            None => groups_of(cut(chars@, spans@).take(count as int)) is None,
        },
{
    let ghost parts = cut(chars@, spans@);
    let mut found: Vec<u16> = Vec::new();
    let mut i: usize = 0;
    while i < count
        invariant
            i <= count <= spans@.len(),
            parts == cut(chars@, spans@),
            forall|k: int| 0 <= k < spans@.len() ==> (#[trigger] spans@[k]).0 <= spans@[k].1 <= chars@.len(),
            groups_of(parts.take(i as int)) == Some(found@),
        decreases count - i,
    {
        proof {
            assert(parts.take(i + 1).drop_last() == parts.take(i as int));
            assert(parts.take(i + 1).last() == parts[i as int]);
        }
        match read_group(chars, spans[i].0, spans[i].1) {
            Some(g) => {
                found.push(g);
            },
            None => {
                proof {
                    lemma_groups_need_each(parts.take(count as int), i as int);
                    assert(parts.take(count as int)[i as int] == parts[i as int]);
                }
                return None;
            },
        }
        i = i + 1;
    }
    Some(found)
}

/// The groups that the pieces of `chars` at `spans` denote, where the last
/// piece may be an address of 32 bits.
pub fn read_closing_groups(chars: &Vec<char>, spans: &Vec<(usize, usize)>) -> (groups: Option<
    Vec<u16>,
>)
    requires
        forall|i: int| 0 <= i < spans@.len() ==> (#[trigger] spans@[i]).0 <= spans@[i].1 <= chars@.len(),
    ensures
        match groups {
            Some(found) => closing_groups_of(cut(chars@, spans@)) == Some(found@),
            None => closing_groups_of(cut(chars@, spans@)) is None,
        },
{
    let ghost parts = cut(chars@, spans@);
    let n = spans.len();
    proof {
        assert(parts.take(n as int) == parts);
    }
    if n == 0 {
        return read_groups(chars, spans, 0);
    }
    proof {
        assert(parts.last() == chars@.subrange(spans@[n - 1].0 as int, spans@[n - 1].1 as int));
        assert(parts.drop_last() == parts.take(n - 1));
    }
    match read_v4(chars, spans[n - 1].0, spans[n - 1].1) {
        Some(bits) => {
            match read_groups(chars, spans, n - 1) {
                Some(mut found) => {
                    let ghost front = found@;
                    found.push((bits / 0x1_0000) as u16);
                    found.push((bits % 0x1_0000) as u16);
                    assert(found@ == front + halves(bits));
                    Some(found)
                },
                None => None,
            }
        },
        None => read_groups(chars, spans, n),
    }
}

/// The groups that the piece of `chars` from `start` up to `end` denotes as
/// a run.
pub fn read_run(chars: &Vec<char>, start: usize, end: usize, closing: bool) -> (groups: Option<
    Vec<u16>,
>)
    requires
        start <= end <= chars@.len(),
    ensures
        match groups {
            Some(found) => run_groups_of(chars@.subrange(start as int, end as int), closing)
                == Some(found@),
            None => run_groups_of(chars@.subrange(start as int, end as int), closing) is None,
        },
{
    if start == end {
        return Some(Vec::new());
    }
    let spans = split_fields(chars, start, end, ':');
    if closing {
        read_closing_groups(chars, &spans)
    } else {
        let ghost parts = cut(chars@, spans@);
        proof {
            assert(parts.take(spans@.len() as int) == parts);
        }
        read_groups(chars, &spans, spans.len())
    }
}

/// The address bits that eight groups spell.
pub fn spell_groups(groups: &Vec<u16>) -> (bits: u128)
    requires
        groups@.len() == 8,
    ensures
        bits == v6_bits(groups@),
{
    (groups[0] as u128) * 0x1_0000_0000_0000_0000_0000_0000_0000 + (groups[1] as u128)
        * 0x1_0000_0000_0000_0000_0000_0000 + (groups[2] as u128) * 0x1_0000_0000_0000_0000_0000
        + (groups[3] as u128) * 0x1_0000_0000_0000_0000 + (groups[4] as u128) * 0x1_0000_0000_0000
        + (groups[5] as u128) * 0x1_0000_0000 + (groups[6] as u128) * 0x1_0000 + (groups[7] as u128)
}

/// Where two colons first stand side by side in the piece of `chars` from
/// `start` up to `end`, or `end` where they do nowhere.
pub fn find_gap(chars: &Vec<char>, start: usize, end: usize) -> (gap: usize)
    requires
        start <= end <= chars@.len(),
    ensures
        start <= gap <= end,
        gap < end ==> gap + 2 <= end,
        gap - start == gap_at(chars@.subrange(start as int, end as int), 0),
{
    let ghost piece = chars@.subrange(start as int, end as int);
    let mut i: usize = start;
    while i < end && i + 1 < end
        invariant
            start <= i <= end <= chars@.len(),
            piece == chars@.subrange(start as int, end as int),
            gap_at(piece, i - start) == gap_at(piece, 0),
        decreases end - i,
    {
        proof {
            assert(piece[i - start] == chars@[i as int]);
            assert(piece[i - start + 1] == chars@[i + 1]);
        }
        if chars[i] == ':' && chars[i + 1] == ':' {
            return i;
        }
        i = i + 1;
    }
    end
}

/// The 128 address bits that the piece of `chars` from `start` up to `end`
/// denotes.
pub fn read_v6(chars: &Vec<char>, start: usize, end: usize) -> (value: Option<u128>)
    requires
        start <= end <= chars@.len(),
    ensures
        value == v6_of(chars@.subrange(start as int, end as int)),
{
    let ghost piece = chars@.subrange(start as int, end as int);
    let gap = find_gap(chars, start, end);
    if gap >= end {
        let spans = split_fields(chars, start, end, ':');
        return match read_closing_groups(chars, &spans) {
            Some(groups) => if groups.len() == 8 {
                Some(spell_groups(&groups))
            } else {
                None
            },
            None => None,
        };
    }
    proof {
        assert(piece.subrange(0, gap - start) == chars@.subrange(start as int, gap as int));
        assert(piece.subrange(gap - start + 2, piece.len() as int) == chars@.subrange(
            gap + 2,
            end as int,
        ));
    }
    let head = match read_run(chars, start, gap, false) {
        Some(groups) => groups,
        None => {
            return None;
        },
    };
    let tail = match read_run(chars, gap + 2, end, true) {
        Some(groups) => groups,
        None => {
            return None;
        },
    };
    if head.len() > 7 || tail.len() > 7 - head.len() {
        return None;
    }
    let fill = 8 - head.len() - tail.len();
    let mut all: Vec<u16> = Vec::new();
    let mut i: usize = 0;
    while i < head.len()
        invariant
            i <= head@.len(),
            all@ == head@.take(i as int),
        decreases head@.len() - i,
    {
        all.push(head[i]);
        assert(head@.take(i + 1) == head@.take(i as int).push(head@[i as int]));
        i = i + 1;
    }
    let mut j: usize = 0;
    while j < fill
        invariant
            j <= fill,
            all@ == head@ + zero_groups(j as int),
        decreases fill - j,
    {
        all.push(0);
        assert(zero_groups(j + 1) == zero_groups(j as int).push(0u16));
        j = j + 1;
    }
    let mut k: usize = 0;
    while k < tail.len()
        invariant
            k <= tail@.len(),
            all@ == head@ + zero_groups(fill as int) + tail@.take(k as int),
        decreases tail@.len() - k,
    {
        all.push(tail[k]);
        assert(tail@.take(k + 1) == tail@.take(k as int).push(tail@[k as int]));
        k = k + 1;
    }
    assert(tail@.take(tail@.len() as int) == tail@);
    Some(spell_groups(&all))
}

/// The group of 16 bits of `bits` at `index`.
pub fn group_bits(bits: u128, index: usize) -> (value: u16)
    requires
        index < 8,
    ensures
        value == group(bits, index as int),
{
    let weight: u128 = if index == 0 {
        0x1_0000_0000_0000_0000_0000_0000_0000
    } else if index == 1 {
        0x1_0000_0000_0000_0000_0000_0000
    } else if index == 2 {
        0x1_0000_0000_0000_0000_0000
    } else if index == 3 {
        0x1_0000_0000_0000_0000
    } else if index == 4 {
        0x1_0000_0000_0000
    } else if index == 5 {
        0x1_0000_0000
    } else if index == 6 {
        0x1_0000
    } else {
        1
    };
    (bits / weight % GROUP_RADIX) as u16
}

/// Writes the text of 128 address bits at the end of `out`.
pub fn push_v6(out: &mut String, bits: u128)
    ensures
        final(out)@ == old(out)@ + v6_text(bits),
{
    let ghost texts = group_texts(bits);
    let mut index: usize = 0;
    while index < 8
        invariant
            index <= 8,
            texts == group_texts(bits),
            out@ == old(out)@ + join(texts.take(index as int), ':'),
        decreases 8 - index,
    {
        let ghost before = out@;
        if index > 0 {
            out.append(":");
        }
        push_numeral(out, group_bits(bits, index) as u64, 16);
        proof {
            reveal_strlit(":");
            assert(":"@ =~= seq![':']);
            let done = texts.take(index as int);
            assert(texts.take(index + 1) =~= done.push(texts[index as int]));
            lemma_join_push(done, texts[index as int], ':');
            if index > 0 {
                assert(out@ =~= old(out)@ + (join(done, ':') + seq![':'] + texts[index as int]));
            } else {
                assert(join(done, ':') =~= Seq::<char>::empty());
                assert(out@ =~= old(out)@ + texts[index as int]);
            }
        }
        index = index + 1;
    }
    assert(texts.take(8) == texts);
}

} // verus!
