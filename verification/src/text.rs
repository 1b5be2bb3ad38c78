//! Text as sequences of characters: reading it, comparing it and splitting
//! it into words.
//!
//! A word is a maximal run of characters none of which is ASCII whitespace.

use vstd::prelude::*;
use vstd::string::*;

verus! {

/// ASCII whitespace: space, tab, line feed, form feed, carriage return.
pub open spec fn is_space(c: char) -> bool {
    c == ' ' || c == '\t' || c == '\n' || c == '\x0C' || c == '\r'
}

/// The first position at or after `from` that holds no whitespace, or the
/// length of `s` where only whitespace is left.
pub open spec fn word_start(s: Seq<char>, from: int) -> int
    decreases s.len() - from,
{
    if 0 <= from < s.len() && is_space(s[from]) {
        word_start(s, from + 1)
    } else {
        from
    }
}

/// The first position at or after `from` that holds whitespace, or the
/// length of `s` where none is left.
pub open spec fn word_end(s: Seq<char>, from: int) -> int
    decreases s.len() - from,
{
    if 0 <= from < s.len() && !is_space(s[from]) {
        word_end(s, from + 1)
    } else {
        from
    }
}

/// The words of `s` that begin at or after `from`, in order.
pub open spec fn words_from(s: Seq<char>, from: int) -> Seq<Seq<char>>
    decreases s.len() - from,
{
    let start = word_start(s, from);
    let end = word_end(s, start);
    if 0 <= from && start < s.len() {
        proof {
            lemma_word_start(s, from);
            lemma_word_end(s, start);
        }
        seq![s.subrange(start, end)] + words_from(s, end)
    } else {
        Seq::empty()
    }
}

/// The words of `s`, in order.
pub open spec fn words(s: Seq<char>) -> Seq<Seq<char>> {
    words_from(s, 0)
}

/// Whether `w` could be a word: it is not empty and holds no whitespace.
pub open spec fn is_word(w: Seq<char>) -> bool {
    w.len() > 0 && forall|i: int| 0 <= i < w.len() ==> !is_space(#[trigger] w[i])
}

/// `word_start` skips whitespace only, and stops at a character that is none.
pub proof fn lemma_word_start(s: Seq<char>, from: int)
    requires
        0 <= from <= s.len(),
    ensures
        from <= word_start(s, from) <= s.len(),
        word_start(s, from) < s.len() ==> !is_space(s[word_start(s, from)]),
        forall|k: int| from <= k < word_start(s, from) ==> is_space(#[trigger] s[k]),
    decreases s.len() - from,
{
    if from < s.len() && is_space(s[from]) {
        lemma_word_start(s, from + 1);
    }
}

/// `word_end` skips characters that are no whitespace, and stops at whitespace.
pub proof fn lemma_word_end(s: Seq<char>, from: int)
    requires
        0 <= from <= s.len(),
    ensures
        from <= word_end(s, from) <= s.len(),
        from < s.len() && !is_space(s[from]) ==> from < word_end(s, from),
        word_end(s, from) < s.len() ==> is_space(s[word_end(s, from)]),
        forall|k: int| from <= k < word_end(s, from) ==> !is_space(#[trigger] s[k]),
    decreases s.len() - from,
{
    if from < s.len() && !is_space(s[from]) {
        lemma_word_end(s, from + 1);
    }
}

/// Every word is a non-empty run without whitespace.
pub proof fn lemma_words_are_words(s: Seq<char>, from: int)
    requires
        0 <= from <= s.len(),
    ensures
        forall|i: int| 0 <= i < words_from(s, from).len() ==> is_word(#[trigger] words_from(s, from)[i]),
    decreases s.len() - from,
{
    let start = word_start(s, from);
    let end = word_end(s, start);
    lemma_word_start(s, from);
    lemma_word_end(s, start);
    if start < s.len() {
        lemma_words_are_words(s, end);
        let first = s.subrange(start, end);
        assert forall|i: int| 0 <= i < first.len() implies !is_space(#[trigger] first[i]) by {
            assert(first[i] == s[start + i]);
        }
        assert(is_word(first));
        assert forall|i: int| 0 <= i < words_from(s, from).len() implies is_word(
            #[trigger] words_from(s, from)[i],
        ) by {
            if i > 0 {
                assert(words_from(s, from)[i] == words_from(s, end)[i - 1]);
            }
        }
    }
}

/// Two words with one space between them are the two words of their text.
pub proof fn lemma_two_words(first: Seq<char>, second: Seq<char>)
    requires
        is_word(first),
        is_word(second),
    ensures
        words(first + seq![' '] + second) == seq![first, second],
{
    let s = first + seq![' '] + second;
    let n = first.len() as int;
    let len = s.len() as int;
    assert forall|k: int| 0 <= k < n implies !is_space(#[trigger] s[k]) by {
        assert(s[k] == first[k]);
    }
    assert(is_space(s[n]));
    assert forall|k: int| n < k < len implies !is_space(#[trigger] s[k]) by {
        assert(s[k] == second[k - n - 1]);
    }
    lemma_word_start(s, 0);
    assert(word_start(s, 0) == 0);
    lemma_word_end(s, 0);
    let e = word_end(s, 0);
    if e < n {
        assert(!is_space(s[e]));
    }
    if e > n {
        assert(!is_space(s[n]));
    }
    assert(e == n);
    lemma_word_start(s, n);
    let b = word_start(s, n);
    if b > n + 1 {
        assert(is_space(s[n + 1]));
    }
    assert(b == n + 1);
    lemma_word_end(s, n + 1);
    let f = word_end(s, n + 1);
    if f < len {
        assert(is_space(s[f]));
    }
    assert(f == len);
    assert(word_start(s, len) == len);
    assert(words_from(s, len) == Seq::<Seq<char>>::empty());
    assert(s.subrange(0, n) == first);
    assert(s.subrange(n + 1, len) == second);
    assert(words_from(s, n) == seq![second] + words_from(s, len));
    assert(words(s) == seq![first] + words_from(s, n));
    assert(words(s) =~= seq![first, second]);
}

/// The first position at or after `from` that holds `sep`, or the length of
/// `s` where none is left.
pub open spec fn field_end(s: Seq<char>, from: int, sep: char) -> int
    decreases s.len() - from,
{
    if 0 <= from < s.len() && s[from] != sep {
        field_end(s, from + 1, sep)
    } else {
        from
    }
}

/// The fields of `s` from `from` on: the pieces between one `sep` and the
/// next. There is always at least one field, and a field may be empty.
pub open spec fn fields_from(s: Seq<char>, from: int, sep: char) -> Seq<Seq<char>>
    decreases s.len() - from,
{
    let end = field_end(s, from, sep);
    if 0 <= from && end < s.len() {
        proof {
            lemma_field_end(s, from, sep);
        }
        seq![s.subrange(from, end)] + fields_from(s, end + 1, sep)
    } else {
        seq![s.subrange(from, s.len() as int)]
    }
}

/// The fields of `s`: the pieces that its occurrences of `sep` separate.
pub open spec fn fields(s: Seq<char>, sep: char) -> Seq<Seq<char>> {
    fields_from(s, 0, sep)
}

/// Whether `sep` occurs nowhere in `s`.
pub open spec fn free_of(s: Seq<char>, sep: char) -> bool {
    forall|i: int| 0 <= i < s.len() ==> #[trigger] s[i] != sep
}

/// `field_end` passes over characters other than `sep`, and stops at `sep`.
pub proof fn lemma_field_end(s: Seq<char>, from: int, sep: char)
    requires
        0 <= from <= s.len(),
    ensures
        from <= field_end(s, from, sep) <= s.len(),
        field_end(s, from, sep) < s.len() ==> s[field_end(s, from, sep)] == sep,
        forall|k: int| from <= k < field_end(s, from, sep) ==> #[trigger] s[k] != sep,
    decreases s.len() - from,
{
    if from < s.len() && s[from] != sep {
        lemma_field_end(s, from + 1, sep);
    }
}

/// The parts written one after the other with `sep` between them.
pub open spec fn join(parts: Seq<Seq<char>>, sep: char) -> Seq<char>
    decreases parts.len(),
{
    if parts.len() == 0 {
        Seq::empty()
    } else if parts.len() == 1 {
        parts[0]
    } else {
        parts[0] + seq![sep] + join(parts.skip(1), sep)
    }
}

/// Joining one more part puts the separator and that part at the end.
pub proof fn lemma_join_push(parts: Seq<Seq<char>>, last: Seq<char>, sep: char)
    ensures
        join(parts.push(last), sep) == if parts.len() == 0 {
            last
        } else {
            join(parts, sep) + seq![sep] + last
        },
    decreases parts.len(),
{
    let all = parts.push(last);
    if parts.len() == 0 {
        assert(all[0] == last);
    } else {
        assert(all[0] == parts[0]);
        assert(all.skip(1) =~= parts.skip(1).push(last));
        lemma_join_push(parts.skip(1), last, sep);
        if parts.len() == 1 {
            assert(parts.skip(1).len() == 0);
        } else {
            assert(parts[0] + seq![sep] + (join(parts.skip(1), sep) + seq![sep] + last) =~= parts[0]
                + seq![sep] + join(parts.skip(1), sep) + seq![sep] + last);
        }
    }
}

/// The fields of a text, joined again, are the text.
pub proof fn lemma_fields_join(s: Seq<char>, sep: char)
    ensures
        join(fields(s, sep), sep) == s,
{
    lemma_fields_from_join(s, 0, sep);
    assert(s.subrange(0, s.len() as int) == s);
}

/// The fields of a text from a position on, joined again, are the text from
/// that position on.
pub proof fn lemma_fields_from_join(s: Seq<char>, from: int, sep: char)
    requires
        0 <= from <= s.len(),
    ensures
        fields_from(s, from, sep).len() >= 1,
        join(fields_from(s, from, sep), sep) == s.subrange(from, s.len() as int),
    decreases s.len() - from,
{
    lemma_field_end(s, from, sep);
    let end = field_end(s, from, sep);
    if end < s.len() {
        lemma_fields_from_join(s, end + 1, sep);
        let first = s.subrange(from, end);
        let rest = fields_from(s, end + 1, sep);
        let all = seq![first] + rest;
        assert(all.skip(1) =~= rest);
        assert(all[0] == first);
        assert(first + seq![sep] + s.subrange(end + 1, s.len() as int) =~= s.subrange(
            from,
            s.len() as int,
        ));
    }
}

/// Parts that hold no separator, joined, have those parts as their fields.
pub proof fn lemma_fields_of_join(parts: Seq<Seq<char>>, sep: char)
    requires
        parts.len() >= 1,
        forall|i: int| 0 <= i < parts.len() ==> free_of(#[trigger] parts[i], sep),
    ensures
        fields(join(parts, sep), sep) == parts,
    decreases parts.len(),
{
    if parts.len() == 1 {
        lemma_one_field(parts[0], sep);
        assert(parts =~= seq![parts[0]]);
    } else {
        let rest = parts.skip(1);
        assert forall|i: int| 0 <= i < rest.len() implies free_of(#[trigger] rest[i], sep) by {
            assert(rest[i] == parts[i + 1]);
        }
        lemma_fields_of_join(rest, sep);
        lemma_fields_after(parts[0], join(rest, sep), sep);
        assert(seq![parts[0]] + rest =~= parts);
    }
}

/// Parts that hold no `c`, joined with a separator other than `c`, hold no
/// `c`.
pub proof fn lemma_join_free_of(parts: Seq<Seq<char>>, sep: char, c: char)
    requires
        c != sep,
        forall|i: int| 0 <= i < parts.len() ==> free_of(#[trigger] parts[i], c),
    ensures
        free_of(join(parts, sep), c),
    decreases parts.len(),
{
    if parts.len() >= 2 {
        let rest = parts.skip(1);
        assert forall|i: int| 0 <= i < rest.len() implies free_of(#[trigger] rest[i], c) by {
            assert(rest[i] == parts[i + 1]);
        }
        lemma_join_free_of(rest, sep, c);
        let first = parts[0];
        let tail = join(rest, sep);
        let all = first + seq![sep] + tail;
        assert(free_of(first, c));
        assert forall|i: int| 0 <= i < all.len() implies #[trigger] all[i] != c by {
            if i < first.len() {
                assert(all[i] == first[i]);
            } else if i == first.len() {
                assert(all[i] == sep);
            } else {
                assert(all[i] == tail[i - first.len() - 1]);
            }
        }
    } else if parts.len() == 1 {
        assert(free_of(parts[0], c));
    }
}

/// Whether the separator stands nowhere twice side by side in `s`.
pub open spec fn no_empty_gap(s: Seq<char>, sep: char) -> bool {
    forall|i: int| 0 <= i < s.len() - 1 ==> !(#[trigger] s[i] == sep && s[i + 1] == sep)
}

/// Parts that are not empty and hold no separator, joined, neither begin nor
/// end with the separator, nor hold it twice side by side.
pub proof fn lemma_join_of_filled_parts(parts: Seq<Seq<char>>, sep: char)
    requires
        parts.len() >= 1,
        forall|i: int| 0 <= i < parts.len() ==> (#[trigger] parts[i]).len() >= 1 && free_of(parts[i], sep),
    ensures
        join(parts, sep).len() >= 1,
        join(parts, sep)[0] != sep,
        join(parts, sep).last() != sep,
        no_empty_gap(join(parts, sep), sep),
    decreases parts.len(),
{
    let first = parts[0];
    assert(first.len() >= 1 && free_of(first, sep));
    if parts.len() >= 2 {
        let rest = parts.skip(1);
        assert forall|i: int| 0 <= i < rest.len() implies (#[trigger] rest[i]).len() >= 1 && free_of(
            rest[i],
            sep,
        ) by {
            assert(rest[i] == parts[i + 1]);
        }
        lemma_join_of_filled_parts(rest, sep);
        let tail = join(rest, sep);
        let all = first + seq![sep] + tail;
        let n = first.len() as int;
        assert(all[0] == first[0]);
        assert(all.last() == tail.last());
        assert forall|i: int| 0 <= i < all.len() - 1 implies !(#[trigger] all[i] == sep && all[i + 1]
            == sep) by {
            if i < n {
                assert(all[i] == first[i]);
            } else if i == n {
                assert(all[i + 1] == tail[0]);
            } else {
                assert(all[i] == tail[i - n - 1]);
                assert(all[i + 1] == tail[i - n]);
            }
        }
    } else {
        assert forall|i: int| 0 <= i < first.len() - 1 implies !(#[trigger] first[i] == sep && first[i
            + 1] == sep) by {}
    }
}

/// Text without the separator is a single field.
pub proof fn lemma_one_field(s: Seq<char>, sep: char)
    requires
        free_of(s, sep),
    ensures
        fields(s, sep) == seq![s],
{
    lemma_field_end(s, 0, sep);
    let end = field_end(s, 0, sep);
    if end < s.len() {
        assert(s[end] == sep);
    }
    assert(s.subrange(0, s.len() as int) == s);
}

/// A field, the separator and more text: the fields are that field and then
/// those of the rest.
pub proof fn lemma_fields_after(first: Seq<char>, rest: Seq<char>, sep: char)
    requires
        free_of(first, sep),
    ensures
        fields(first + seq![sep] + rest, sep) == seq![first] + fields(rest, sep),
{
    let s = first + seq![sep] + rest;
    let n = first.len() as int;
    lemma_field_end(s, 0, sep);
    let end = field_end(s, 0, sep);
    assert(s[n] == sep);
    if end < n {
        assert(s[end] == first[end]);
    }
    assert(end == n);
    assert(s.subrange(0, n) == first);
    lemma_fields_shift(s, rest, n + 1, 0, sep);
}

/// Where `s` ends with `tail`, the fields of `s` from a position within that
/// end are the fields of `tail` from the matching position.
pub proof fn lemma_fields_shift(s: Seq<char>, tail: Seq<char>, offset: int, from: int, sep: char)
    requires
        0 <= offset,
        0 <= from <= tail.len(),
        s.len() == offset + tail.len(),
        forall|k: int| 0 <= k < tail.len() ==> s[offset + k] == #[trigger] tail[k],
    ensures
        fields_from(s, offset + from, sep) == fields_from(tail, from, sep),
        field_end(s, offset + from, sep) == offset + field_end(tail, from, sep),
    decreases tail.len() - from,
{
    lemma_field_end_shift(s, tail, offset, from, sep);
    lemma_field_end(tail, from, sep);
    let end = field_end(tail, from, sep);
    if end < tail.len() {
        lemma_fields_shift(s, tail, offset, end + 1, sep);
        assert(s.subrange(offset + from, offset + end) == tail.subrange(from, end));
    } else {
        assert(s.subrange(offset + from, s.len() as int) == tail.subrange(from, tail.len() as int));
    }
}

/// Where `s` ends with `tail`, a field ends in `s` where it ends in `tail`.
pub proof fn lemma_field_end_shift(s: Seq<char>, tail: Seq<char>, offset: int, from: int, sep: char)
    requires
        0 <= offset,
        0 <= from <= tail.len(),
        s.len() == offset + tail.len(),
        forall|k: int| 0 <= k < tail.len() ==> s[offset + k] == #[trigger] tail[k],
    ensures
        field_end(s, offset + from, sep) == offset + field_end(tail, from, sep),
    decreases tail.len() - from,
{
    if from < tail.len() {
        assert(s[offset + from] == tail[from]);
        if tail[from] != sep {
            lemma_field_end_shift(s, tail, offset, from + 1, sep);
        }
    }
}

/// The pieces of `s` that `spans` cuts out, in order.
pub open spec fn cut(s: Seq<char>, spans: Seq<(usize, usize)>) -> Seq<Seq<char>> {
    Seq::new(spans.len(), |i: int| s.subrange(spans[i].0 as int, spans[i].1 as int))
}

/// Whether each of `spans` is a non-empty range within a text of length `len`.
pub open spec fn spans_within(spans: Seq<(usize, usize)>, len: nat) -> bool {
    forall|i: int| 0 <= i < spans.len() ==> (#[trigger] spans[i]).0 < spans[i].1 <= len
}

#[verifier::when_used_as_spec(is_space)]
pub fn is_whitespace(c: char) -> (b: bool)
    ensures
        b == is_space(c),
{
    c == ' ' || c == '\t' || c == '\n' || c == '\x0C' || c == '\r'
}

/// The characters of `s`, in order.
pub fn chars_of(s: &str) -> (v: Vec<char>)
    ensures
        v@ == s@,
{
    let mut v: Vec<char> = Vec::new();
    for c in it: s.chars()
        invariant
            it.seq() == s@,
            v@ == it.seq().take(it.index() as int),
    {
        v.push(c);
    }
    v
}

/// Where the words of `chars` lie: for each word the position of its first
/// character and the position after its last.
pub fn split_words(chars: &Vec<char>) -> (spans: Vec<(usize, usize)>)
    ensures
        cut(chars@, spans@) == words(chars@),
        spans_within(spans@, chars@.len()),
{
    let n = chars.len();
    let mut spans: Vec<(usize, usize)> = Vec::new();
    let mut pos: usize = 0;
    while pos < n
        invariant
            n == chars@.len(),
            pos <= n,
            spans_within(spans@, chars@.len()),
            words(chars@) == cut(chars@, spans@) + words_from(chars@, pos as int),
        decreases n - pos,
    {
        let mut start: usize = pos;
        while start < n && is_whitespace(chars[start])
            invariant
                n == chars@.len(),
                pos <= start <= n,
                word_start(chars@, start as int) == word_start(chars@, pos as int),
            decreases n - start,
        {
            start = start + 1;
        }
        let mut end: usize = start;
        while end < n && !is_whitespace(chars[end])
            invariant
                n == chars@.len(),
                start <= end <= n,
                word_end(chars@, end as int) == word_end(chars@, start as int),
            decreases n - end,
        {
            end = end + 1;
        }
        proof {
            assert(word_start(chars@, pos as int) == start);
            assert(word_end(chars@, start as int) == end);
        }
        if start < n {
            let ghost before = spans@;
            spans.push((start, end));
            proof {
                let piece = chars@.subrange(start as int, end as int);
                assert(cut(chars@, spans@) =~= cut(chars@, before).push(piece));
                assert(words_from(chars@, pos as int) == seq![piece] + words_from(
                    chars@,
                    end as int,
                ));
                assert(cut(chars@, before) + (seq![piece] + words_from(chars@, end as int))
                    =~= cut(chars@, before).push(piece) + words_from(chars@, end as int));
            }
        } else {
            proof {
                assert(words_from(chars@, pos as int) == Seq::<Seq<char>>::empty());
                assert(words_from(chars@, end as int) == Seq::<Seq<char>>::empty());
            }
        }
        pos = end;
    }
    proof {
        assert(words_from(chars@, pos as int) == Seq::<Seq<char>>::empty());
        assert(cut(chars@, spans@) + Seq::<Seq<char>>::empty() =~= cut(chars@, spans@));
    }
    spans
}

/// Where the fields of the piece of `chars` from `start` up to `end` lie: for
/// each field the position of its first character and the position after its
/// last.
pub fn split_fields(chars: &Vec<char>, start: usize, end: usize, sep: char) -> (spans: Vec<
    (usize, usize),
>)
    requires
        start <= end <= chars@.len(),
    ensures
        cut(chars@, spans@) == fields(chars@.subrange(start as int, end as int), sep),
        forall|i: int| 0 <= i < spans@.len() ==> start <= (#[trigger] spans@[i]).0 <= spans@[i].1 <= end,
{
    let ghost piece = chars@.subrange(start as int, end as int);
    let mut spans: Vec<(usize, usize)> = Vec::new();
    let mut from: usize = start;
    let mut pos: usize = start;
    while pos < end
        invariant
            start <= from <= pos <= end <= chars@.len(),
            piece == chars@.subrange(start as int, end as int),
            field_end(piece, pos - start, sep) == field_end(piece, from - start, sep),
            fields(piece, sep) == cut(chars@, spans@) + fields_from(piece, from - start, sep),
            forall|i: int| 0 <= i < spans@.len() ==> start <= (#[trigger] spans@[i]).0 <= spans@[i].1 <= end,
        decreases end - pos,
    {
        if chars[pos] == sep {
            let ghost before = spans@;
            spans.push((from, pos));
            proof {
                assert(piece[pos - start] == sep);
                assert(field_end(piece, pos - start, sep) == pos - start);
                let field = chars@.subrange(from as int, pos as int);
                assert(field == piece.subrange(from - start, pos - start));
                assert(cut(chars@, spans@) =~= cut(chars@, before).push(field));
                assert(cut(chars@, before) + (seq![field] + fields_from(piece, pos - start + 1, sep))
                    =~= cut(chars@, before).push(field) + fields_from(piece, pos - start + 1, sep));
            }
            from = pos + 1;
        } else {
            proof {
                assert(piece[pos - start] != sep);
            }
        }
        pos = pos + 1;
    }
    let ghost before = spans@;
    spans.push((from, end));
    proof {
        assert(field_end(piece, end - start, sep) == end - start);
        let field = chars@.subrange(from as int, end as int);
        assert(field == piece.subrange(from - start, piece.len() as int));
        assert(fields_from(piece, from - start, sep) == seq![field]);
        assert(cut(chars@, spans@) =~= cut(chars@, before).push(field));
        assert(cut(chars@, before) + seq![field] =~= cut(chars@, before).push(field));
    }
    spans
}

/// Whether the piece of `chars` from `start` up to `end` reads as `word`.
pub fn piece_is(chars: &Vec<char>, start: usize, end: usize, word: &str) -> (same: bool)
    requires
        start <= end <= chars@.len(),
    ensures
        same == (chars@.subrange(start as int, end as int) == word@),
{
    let wanted = chars_of(word);
    let len = end - start;
    if wanted.len() != len {
        return false;
    }
    let ghost piece = chars@.subrange(start as int, end as int);
    let mut i: usize = 0;
    while i < len
        invariant
            start <= end <= chars@.len(),
            len == end - start,
            wanted@.len() == len,
            wanted@ == word@,
            piece == chars@.subrange(start as int, end as int),
            i <= len,
            forall|k: int| 0 <= k < i ==> piece[k] == wanted@[k],
        decreases len - i,
    {
        if chars[start + i] != wanted[i] {
            assert(piece[i as int] != wanted@[i as int]);
            return false;
        }
        i = i + 1;
    }
    assert(piece =~= wanted@);
    true
}

} // verus!
