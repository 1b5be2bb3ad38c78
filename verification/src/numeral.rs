//! Numerals: numbers written with digits, in base ten or sixteen.

use crate::text::{free_of, is_space};
use vstd::prelude::*;
use vstd::string::*;

verus! {

/// The value of `c` as a digit of the base `radix`, if it is one. In base
/// sixteen the letters count in either case.
pub open spec fn digit_of(c: char, radix: nat) -> Option<nat> {
    let value: nat = if '0' <= c <= '9' {
        (c as nat - '0' as nat) as nat
    } else if 'a' <= c <= 'f' {
        (c as nat - 'a' as nat + 10) as nat
    } else if 'A' <= c <= 'F' {
        (c as nat - 'A' as nat + 10) as nat
    } else {
        16
    };
    if value < radix && radix <= 16 {
        Some(value)
    } else {
        None
    }
}

/// Whether every character of `s` is a digit of the base `radix`.
pub open spec fn all_digits(s: Seq<char>, radix: nat) -> bool {
    forall|i: int| 0 <= i < s.len() ==> (#[trigger] digit_of(s[i], radix)) is Some
}

/// The number that the digits of `s` spell in the base `radix`, the most
/// significant digit first. A character that is no digit counts as zero.
pub open spec fn numeral_value(s: Seq<char>, radix: nat) -> nat
    decreases s.len(),
{
    if s.len() == 0 {
        0
    } else {
        let last: nat = match digit_of(s.last(), radix) {
            Some(d) => d,
            None => 0,
        };
        numeral_value(s.drop_last(), radix) * radix + last
    }
}

/// The character that stands for the digit `d`, letters in lower case.
pub open spec fn digit_char(d: nat) -> char {
    if d == 0 {
        '0'
    } else if d == 1 {
        '1'
    } else if d == 2 {
        '2'
    } else if d == 3 {
        '3'
    } else if d == 4 {
        '4'
    } else if d == 5 {
        '5'
    } else if d == 6 {
        '6'
    } else if d == 7 {
        '7'
    } else if d == 8 {
        '8'
    } else if d == 9 {
        '9'
    } else if d == 10 {
        'a'
    } else if d == 11 {
        'b'
    } else if d == 12 {
        'c'
    } else if d == 13 {
        'd'
    } else if d == 14 {
        'e'
    } else {
        'f'
    }
}

/// How `n` is written in the base `radix`: without leading zeros, and zero
/// itself as a single digit.
pub open spec fn numeral(n: nat, radix: nat) -> Seq<char>
    decreases n,
{
    if n < radix || radix < 2 {
        seq![digit_char(n)]
    } else {
        proof {
            assert(n / radix < n) by (nonlinear_arith)
                requires
                    n >= radix,
                    radix >= 2,
            ;
        }
        numeral(n / radix, radix).push(digit_char(n % radix))
    }
}

/// How `n` is written in base ten.
pub open spec fn decimal(n: nat) -> Seq<char> {
    numeral(n, 10)
}

/// What `s` spells in the base `radix` as a machine number: its value where
/// every character is a digit and the value fits 64 bits.
pub open spec fn spelled(s: Seq<char>, radix: nat) -> Option<u64> {
    if all_digits(s, radix) && numeral_value(s, radix) <= u64::MAX {
        Some(numeral_value(s, radix) as u64)
    } else {
        None
    }
}

/// Whether `s` is written as `numeral` writes: digits only, at least one,
/// and no leading zero before another digit.
pub open spec fn is_plain_numeral(s: Seq<char>, radix: nat) -> bool {
    &&& s.len() >= 1
    &&& all_digits(s, radix)
    &&& (s.len() == 1 || s[0] != '0')
    &&& forall|i: int| 0 <= i < s.len() ==> !('A' <= #[trigger] s[i] <= 'F')
}

/// A digit's character reads back as that digit.
pub proof fn lemma_digit_char(d: nat, radix: nat)
    requires
        d < radix <= 16,
    ensures
        digit_of(digit_char(d), radix) == Some(d),
        !('A' <= digit_char(d) <= 'F'),
        d != 0 ==> digit_char(d) != '0',
{
}

/// A digit that is not a capital letter is the character of its value.
pub proof fn lemma_digit_of(c: char, radix: nat)
    requires
        digit_of(c, radix) is Some,
        !('A' <= c <= 'F'),
    ensures
        digit_char(digit_of(c, radix).unwrap()) == c,
{
}

/// What `numeral` writes is a plain numeral that spells the number written.
pub proof fn lemma_numeral_reads_back(n: nat, radix: nat)
    requires
        2 <= radix <= 16,
    ensures
        is_plain_numeral(numeral(n, radix), radix),
        numeral_value(numeral(n, radix), radix) == n,
        n == 0 <==> numeral(n, radix) == seq!['0'],
    decreases n,
{
    let s = numeral(n, radix);
    if n < radix {
        lemma_digit_char(n, radix);
        assert(s == seq![digit_char(n)]);
        assert(s.drop_last() == Seq::<char>::empty());
        assert(numeral_value(s.drop_last(), radix) * radix == 0) by (nonlinear_arith)
            requires
                numeral_value(s.drop_last(), radix) == 0,
        ;
        assert(s.last() == digit_char(n));
        assert(numeral_value(s, radix) == n);
        if n != 0 {
            assert(s[0] != '0');
        }
    } else {
        let q = n / radix;
        let r = n % radix;
        lemma_numeral_reads_back(q, radix);
        lemma_digit_char(r, radix);
        let front = numeral(q, radix);
        assert(s == front.push(digit_char(r)));
        assert(s.drop_last() == front);
        assert(s.last() == digit_char(r));
        assert(q * radix + r == n) by (nonlinear_arith)
            requires
                q == n / radix,
                r == n % radix,
                radix >= 2,
        ;
        assert(q >= 1) by (nonlinear_arith)
            requires
                q == n / radix,
                n >= radix,
                radix >= 2,
        ;
        assert(front != seq!['0']);
        assert(s[0] == front[0]);
        if front.len() == 1 {
            assert(front == seq![front[0]]);
        }
        assert(s[0] != '0');
        assert forall|i: int| 0 <= i < s.len() implies (#[trigger] digit_of(s[i], radix)) is Some by {
            if i < front.len() {
                assert(s[i] == front[i]);
            }
        }
        assert forall|i: int| 0 <= i < s.len() implies !('A' <= #[trigger] s[i] <= 'F') by {
            if i < front.len() {
                assert(s[i] == front[i]);
            }
        }
        assert(s.len() >= 2);
        assert(s != seq!['0']);
    }
}

/// A plain numeral is what `numeral` writes for the number that it spells.
pub proof fn lemma_plain_numeral_is_written(s: Seq<char>, radix: nat)
    requires
        2 <= radix <= 16,
        is_plain_numeral(s, radix),
    ensures
        numeral(numeral_value(s, radix), radix) == s,
    decreases s.len(),
{
    assert(digit_of(s[s.len() - 1], radix) is Some);
    let last = digit_of(s.last(), radix).unwrap();
    lemma_digit_of(s.last(), radix);
    let front = s.drop_last();
    if s.len() == 1 {
        assert(front == Seq::<char>::empty());
        assert(numeral_value(front, radix) == 0);
        assert(numeral_value(front, radix) * radix == 0) by (nonlinear_arith)
            requires
                numeral_value(front, radix) == 0,
        ;
        assert(numeral_value(s, radix) == last);
        assert(s == seq![s.last()]);
    } else {
        assert(front[0] == s[0]);
        assert forall|i: int| 0 <= i < front.len() implies (#[trigger] digit_of(front[i], radix)) is Some by {
            assert(front[i] == s[i]);
        }
        assert forall|i: int| 0 <= i < front.len() implies !('A' <= #[trigger] front[i] <= 'F') by {
            assert(front[i] == s[i]);
        }
        assert(is_plain_numeral(front, radix));
        lemma_plain_numeral_is_written(front, radix);
        let q = numeral_value(front, radix);
        lemma_leading_digit(front, radix);
        assert(q >= 1);
        let n = numeral_value(s, radix);
        assert(n == q * radix + last);
        assert(n >= radix) by (nonlinear_arith)
            requires
                n == q * radix + last,
                q >= 1,
                radix >= 2,
        ;
        assert(n / radix == q && n % radix == last) by (nonlinear_arith)
            requires
                n == q * radix + last,
                last < radix,
                radix >= 2,
        ;
        assert(numeral(n, radix) == numeral(q, radix).push(digit_char(last)));
        assert(front.push(s.last()) == s);
    }
}

/// A numeral of digits that does not begin with zero spells no zero.
pub proof fn lemma_leading_digit(s: Seq<char>, radix: nat)
    requires
        2 <= radix <= 16,
        s.len() >= 1,
        all_digits(s, radix),
        s[0] != '0',
    ensures
        numeral_value(s, radix) >= 1,
    decreases s.len(),
{
    let front = s.drop_last();
    if s.len() == 1 {
        assert(front == Seq::<char>::empty());
        assert(numeral_value(front, radix) * radix == 0) by (nonlinear_arith)
            requires
                numeral_value(front, radix) == 0,
        ;
        assert(digit_of(s[0], radix) is Some);
        assert(s.last() == s[0]);
    } else {
        assert(front[0] == s[0]);
        assert forall|i: int| 0 <= i < front.len() implies (#[trigger] digit_of(front[i], radix)) is Some by {
            assert(front[i] == s[i]);
        }
        lemma_leading_digit(front, radix);
        let q = numeral_value(front, radix);
        assert(q * radix >= 1) by (nonlinear_arith)
            requires
                q >= 1,
                radix >= 2,
        ;
    }
}

/// Two numbers that are written alike are the same number.
pub proof fn lemma_numeral_is_injective(a: nat, b: nat, radix: nat)
    requires
        2 <= radix <= 16,
        numeral(a, radix) == numeral(b, radix),
    ensures
        a == b,
{
    lemma_numeral_reads_back(a, radix);
    lemma_numeral_reads_back(b, radix);
}

/// A numeral spells at least what any of its beginnings spells.
pub proof fn lemma_numeral_grows(s: Seq<char>, k: int, radix: nat)
    requires
        0 <= k <= s.len(),
        1 <= radix,
    ensures
        numeral_value(s.take(k), radix) <= numeral_value(s, radix),
    decreases s.len() - k,
{
    if k == s.len() {
        assert(s.take(k) == s);
    } else {
        lemma_numeral_grows(s, k + 1, radix);
        let longer = s.take(k + 1);
        assert(longer.drop_last() == s.take(k));
        let q = numeral_value(s.take(k), radix);
        assert(q * radix >= q) by (nonlinear_arith)
            requires
                q >= 0,
                radix >= 1,
        ;
    }
}

/// A numeral holds no whitespace.
pub proof fn lemma_numeral_is_spaceless(n: nat, radix: nat)
    requires
        2 <= radix <= 16,
    ensures
        free_of(numeral(n, radix), ' '),
        free_of(numeral(n, radix), '\t'),
        free_of(numeral(n, radix), '\n'),
        free_of(numeral(n, radix), '\x0C'),
        free_of(numeral(n, radix), '\r'),
{
    let s = numeral(n, radix);
    lemma_numeral_reads_back(n, radix);
    assert forall|i: int| 0 <= i < s.len() implies !is_space(#[trigger] s[i]) by {
        assert(digit_of(s[i], radix) is Some);
    }
    assert forall|i: int| 0 <= i < s.len() implies #[trigger] s[i] != ' ' by {
        assert(!is_space(s[i]));
    }
    assert forall|i: int| 0 <= i < s.len() implies #[trigger] s[i] != '\t' by {
        assert(!is_space(s[i]));
    }
    assert forall|i: int| 0 <= i < s.len() implies #[trigger] s[i] != '\n' by {
        assert(!is_space(s[i]));
    }
    assert forall|i: int| 0 <= i < s.len() implies #[trigger] s[i] != '\x0C' by {
        assert(!is_space(s[i]));
    }
    assert forall|i: int| 0 <= i < s.len() implies #[trigger] s[i] != '\r' by {
        assert(!is_space(s[i]));
    }
}

/// The value of `c` as a digit of the base `radix`, if it is one.
pub fn digit_value(c: char, radix: u64) -> (value: Option<u64>)
    ensures
        match value {
            Some(d) => digit_of(c, radix as nat) == Some(d as nat),
            None => digit_of(c, radix as nat) is None,
        },
{
    let value: u64 = if '0' <= c && c <= '9' {
        (c as u32 - '0' as u32) as u64
    } else if 'a' <= c && c <= 'f' {
        (c as u32 - 'a' as u32) as u64 + 10
    } else if 'A' <= c && c <= 'F' {
        (c as u32 - 'A' as u32) as u64 + 10
    } else {
        16
    };
    if value < radix && radix <= 16 {
        Some(value)
    } else {
        None
    }
}

/// The number that the piece of `chars` from `start` up to `end` spells in
/// the base `radix`, where every character of it is a digit and the number
/// fits the result.
pub fn read_numeral(chars: &Vec<char>, start: usize, end: usize, radix: u64) -> (value: Option<u64>)
    requires
        start <= end <= chars@.len(),
        1 <= radix,
    ensures
        value == spelled(chars@.subrange(start as int, end as int), radix as nat),
{
    let ghost piece = chars@.subrange(start as int, end as int);
    let mut acc: u64 = 0;
    let mut i: usize = start;
    while i < end
        invariant
            start <= i <= end <= chars@.len(),
            1 <= radix,
            piece == chars@.subrange(start as int, end as int),
            all_digits(piece.take(i - start), radix as nat),
            acc == numeral_value(piece.take(i - start), radix as nat),
        decreases end - i,
    {
        let ghost before = piece.take(i - start);
        let ghost longer = piece.take(i - start + 1);
        proof {
            assert(longer.drop_last() == before);
            assert(longer.last() == chars@[i as int]);
            lemma_numeral_grows(piece, i - start + 1, radix as nat);
        }
        let digit = match digit_value(chars[i], radix) {
            Some(d) => d,
            None => {
                proof {
                    assert(digit_of(piece[i - start], radix as nat) is None);
                }
                return None;
            },
        };
        let scaled = match acc.checked_mul(radix) {
            Some(v) => v,
            None => {
                return None;
            },
        };
        acc = match scaled.checked_add(digit) {
            Some(v) => v,
            None => {
                return None;
            },
        };
        proof {
            assert forall|k: int| 0 <= k < longer.len() implies (#[trigger] digit_of(
                longer[k],
                radix as nat,
            )) is Some by {
                if k < before.len() {
                    assert(longer[k] == before[k]);
                }
            }
        }
        i = i + 1;
    }
    proof {
        assert(piece.take(end - start) == piece);
    }
    Some(acc)
}

/// The text of a single digit.
pub fn digit_text(d: u64) -> (text: &'static str)
    requires
        d < 16,
    ensures
        text@ == seq![digit_char(d as nat)],
{
    proof {
        reveal_strlit("0");
        reveal_strlit("1");
        reveal_strlit("2");
        reveal_strlit("3");
        reveal_strlit("4");
        reveal_strlit("5");
        reveal_strlit("6");
        reveal_strlit("7");
        reveal_strlit("8");
        reveal_strlit("9");
        reveal_strlit("a");
        reveal_strlit("b");
        reveal_strlit("c");
        reveal_strlit("d");
        reveal_strlit("e");
        reveal_strlit("f");
    }
    let text = if d == 0 {
        "0"
    } else if d == 1 {
        "1"
    } else if d == 2 {
        "2"
    } else if d == 3 {
        "3"
    } else if d == 4 {
        "4"
    } else if d == 5 {
        "5"
    } else if d == 6 {
        "6"
    } else if d == 7 {
        "7"
    } else if d == 8 {
        "8"
    } else if d == 9 {
        "9"
    } else if d == 10 {
        "a"
    } else if d == 11 {
        "b"
    } else if d == 12 {
        "c"
    } else if d == 13 {
        "d"
    } else if d == 14 {
        "e"
    } else {
        "f"
    };
    assert(text@ =~= seq![digit_char(d as nat)]);
    text
}

/// Writes `n` in the base `radix` at the end of `out`.
pub fn push_numeral(out: &mut String, n: u64, radix: u64)
    requires
        2 <= radix <= 16,
    ensures
        final(out)@ == old(out)@ + numeral(n as nat, radix as nat),
    decreases n,
{
    if n < radix {
        out.append(digit_text(n));
    } else {
        assert(n / radix < n) by (nonlinear_arith)
            requires
                n >= radix,
                radix >= 2,
        ;
        push_numeral(out, n / radix, radix);
        out.append(digit_text(n % radix));
        proof {
            let front = numeral((n / radix) as nat, radix as nat);
            let last = seq![digit_char((n % radix) as nat)];
            assert(old(out)@ + front + last =~= old(out)@ + front.push(last[0]));
        }
    }
}

/// `n` written in base ten.
pub fn decimal_text(n: u64) -> (text: String)
    ensures
        text@ == decimal(n as nat),
{
    let mut text = String::new();
    push_numeral(&mut text, n, 10);
    assert(Seq::<char>::empty() + decimal(n as nat) =~= decimal(n as nat));
    text
}

} // verus!
