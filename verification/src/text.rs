//! Byte-level text: blank bytes, trimming, phrase search and words.
//!
//! Text in a kernel is a run of bytes in a fixed-width field or in the
//! comment area. It is kept as bytes, since nothing in the format promises
//! an encoding.

use vstd::prelude::*;

verus! {

/// A byte that trimming removes: NUL, space, or one of the five controls
/// from horizontal tab to carriage return.
pub open spec fn blank(b: u8) -> bool {
    b == 0 || b == 32 || (9 <= b && b <= 13)
}

/// The index of the first byte at or after `from` that is not blank, or the
/// length of `s` if there is none.
pub open spec fn solid_from(s: Seq<u8>, from: int) -> int
    decreases s.len() - from,
{
    if from >= s.len() {
        s.len() as int
    } else if !blank(s[from]) {
        from
    } else {
        solid_from(s, from + 1)
    }
}

/// The index just behind the last byte before `to` that is not blank, or 0
/// if there is none.
pub open spec fn solid_until(s: Seq<u8>, to: int) -> int
    decreases to,
{
    if to <= 0 {
        0
    } else if !blank(s[to - 1]) {
        to
    } else {
        solid_until(s, to - 1)
    }
}

/// `s` without the blank bytes at its two ends.
pub open spec fn trimmed(s: Seq<u8>) -> Seq<u8> {
    let a = solid_from(s, 0);
    let b = solid_until(s, s.len() as int);
    if a < b {
        s.subrange(a, b)
    } else {
        Seq::empty()
    }
}

/// Whether `needle` stands in `hay` at index `i`.
pub open spec fn occurs_at(hay: Seq<u8>, needle: Seq<u8>, i: int) -> bool {
    0 <= i && i + needle.len() <= hay.len() && hay.subrange(i, i + needle.len()) == needle
}

/// The least index at or after `from` at which `needle` stands in `hay`.
pub open spec fn first_occurrence(hay: Seq<u8>, needle: Seq<u8>, from: int) -> Option<int>
    decreases hay.len() + 1 - from,
{
    if from < 0 || from + needle.len() > hay.len() {
        None
    } else if occurs_at(hay, needle, from) {
        Some(from)
    } else {
        first_occurrence(hay, needle, from + 1)
    }
}

/// What `solid_from` finds: only blank bytes lie before it.
pub proof fn solid_from_is_first(s: Seq<u8>, from: int)
    requires
        0 <= from <= s.len(),
    ensures
        from <= solid_from(s, from) <= s.len(),
        forall|i: int| from <= i < solid_from(s, from) ==> blank(#[trigger] s[i]),
        solid_from(s, from) < s.len() ==> !blank(s[solid_from(s, from)]),
    decreases s.len() - from,
{
    if from < s.len() && blank(s[from]) {
        solid_from_is_first(s, from + 1);
    }
}

/// What `solid_until` finds: only blank bytes lie behind it.
pub proof fn solid_until_is_last(s: Seq<u8>, to: int)
    requires
        0 <= to <= s.len(),
    ensures
        0 <= solid_until(s, to) <= to,
        forall|i: int| solid_until(s, to) <= i < to ==> blank(#[trigger] s[i]),
        solid_until(s, to) > 0 ==> !blank(s[solid_until(s, to) - 1]),
    decreases to,
{
    if to > 0 && blank(s[to - 1]) {
        solid_until_is_last(s, to - 1);
    }
}

/// Whether `text` has no blank byte at either end.
pub open spec fn tight(text: Seq<u8>) -> bool {
    text.len() == 0 || (!blank(text[0]) && !blank(text.last()))
}

/// Whether `s` holds blank bytes only.
pub open spec fn all_blank(s: Seq<u8>) -> bool {
    forall|i: int| 0 <= i < s.len() ==> blank(#[trigger] s[i])
}

/// Trimming undoes padding: a text without blank ends comes back from any
/// blank filling behind it.
pub proof fn trimmed_of_padded(text: Seq<u8>, filling: Seq<u8>)
    requires
        tight(text),
        all_blank(filling),
    ensures
        trimmed(text + filling) == text,
{
    let s = text + filling;
    solid_from_is_first(s, 0);
    solid_until_is_last(s, s.len() as int);
    let b = solid_until(s, s.len() as int);
    if text.len() == 0 {
        assert forall|i: int| 0 <= i < s.len() implies blank(#[trigger] s[i]) by {
            assert(s[i] == filling[i]);
        }
        assert(trimmed(s) =~= text);
    } else {
        assert(s[0] == text[0]);
        assert(s[text.len() - 1] == text.last());
        if b > text.len() {
            assert(s[b - 1] == filling[b - 1 - text.len()]);
        }
        assert(b == text.len());
        assert(s.subrange(0, b) =~= text);
    }
}

/// What trimming leaves has no blank byte at either end.
pub proof fn trimmed_is_tight(s: Seq<u8>)
    ensures
        tight(trimmed(s)),
{
    solid_from_is_first(s, 0);
    solid_until_is_last(s, s.len() as int);
}

/// Trimming twice is trimming once.
pub proof fn trimmed_is_idempotent(s: Seq<u8>)
    ensures
        trimmed(trimmed(s)) == trimmed(s),
{
    trimmed_is_tight(s);
    trimmed_of_padded(trimmed(s), Seq::empty());
    assert(trimmed(s) + Seq::<u8>::empty() =~= trimmed(s));
}

/// What `first_occurrence` finds: the needle stands there and nowhere
/// earlier; where it finds nothing, the needle stands nowhere from `from` on.
pub proof fn first_occurrence_is_first(hay: Seq<u8>, needle: Seq<u8>, from: int)
    requires
        0 <= from,
    ensures
        match first_occurrence(hay, needle, from) {
            Some(at) => from <= at && occurs_at(hay, needle, at) && forall|i: int|
                from <= i < at ==> !occurs_at(hay, needle, i),
            None => forall|i: int| from <= i ==> !occurs_at(hay, needle, i),
        },
    decreases hay.len() + 1 - from,
{
    if from + needle.len() <= hay.len() && !occurs_at(hay, needle, from) {
        first_occurrence_is_first(hay, needle, from + 1);
    }
}

/// The bytes of a text of ASCII characters.
pub open spec fn ascii(text: Seq<char>) -> Seq<u8> {
    Seq::new(text.len(), |i: int| text[i] as u8)
}

/// The bytes of a phrase of ASCII characters.
pub(crate) fn phrase(text: &'static str) -> (bytes: &'static [u8])
    requires
        vstd::string::is_ascii(text),
    ensures
        bytes@ == ascii(text@),
{
    proof {
        vstd::string::is_ascii_spec_bytes(text);
    }
    text.as_bytes()
}

/// Tells whether two runs of bytes are the same.
pub fn same_bytes(a: &[u8], b: &[u8]) -> (r: bool)
    ensures
        r == (a@ == b@),
{
    if a.len() != b.len() {
        return false;
    }
    let r = stands_at(a, b, 0);
    assert(a@.subrange(0, a@.len() as int) =~= a@);
    r
}

/// Tells whether a byte is blank.
pub fn is_blank(b: u8) -> (r: bool)
    ensures
        r == blank(b),
{
    b == 0 || b == 32 || (9 <= b && b <= 13)
}

/// The part of `bytes` between its first and its last byte that is not blank.
pub fn trim(bytes: &[u8]) -> (r: &[u8])
    ensures
        r@ == trimmed(bytes@),
{
    let mut a: usize = 0;
    while a < bytes.len() && is_blank(bytes[a])
        invariant
            a <= bytes@.len(),
            solid_from(bytes@, 0) == solid_from(bytes@, a as int),
        decreases bytes@.len() - a,
    {
        a += 1;
    }
    let mut b: usize = bytes.len();
    while b > 0 && is_blank(bytes[b - 1])
        invariant
            b <= bytes@.len(),
            solid_until(bytes@, bytes@.len() as int) == solid_until(bytes@, b as int),
        decreases b,
    {
        b -= 1;
    }
    if a < b {
        &bytes[a..b]
    } else {
        &bytes[0..0]
    }
}

/// Finds the first byte at or after `from` that is not blank, or the end
/// of `bytes` where there is none.
pub fn skip_blank(bytes: &[u8], from: usize) -> (at: usize)
    ensures
        at == solid_from(bytes@, from as int),
        from <= bytes@.len() ==> from <= at,
        at <= bytes@.len(),
{
    if from >= bytes.len() {
        return bytes.len();
    }
    let mut at: usize = from;
    while at < bytes.len() && is_blank(bytes[at])
        invariant
            from <= at <= bytes@.len(),
            solid_from(bytes@, from as int) == solid_from(bytes@, at as int),
        decreases bytes@.len() - at,
    {
        at += 1;
    }
    at
}

/// The bytes from `from` up to `to`, trimmed, as a text of their own.
pub(crate) fn trimmed_text(bytes: &[u8], from: usize, to: usize) -> (text: Vec<u8>)
    requires
        from <= to <= bytes@.len(),
    ensures
        text@ == trimmed(bytes@.subrange(from as int, to as int)),
{
    vstd::slice::slice_to_vec(trim(&bytes[from..to]))
}

/// Tells whether `needle` stands in `hay` at index `at`.
pub fn stands_at(hay: &[u8], needle: &[u8], at: usize) -> (r: bool)
    ensures
        r == occurs_at(hay@, needle@, at as int),
{
    if at > hay.len() || needle.len() > hay.len() - at {
        return false;
    }
    let mut k: usize = 0;
    while k < needle.len()
        invariant
            k <= needle.len(),
            at + needle.len() <= hay.len(),
            forall|j: int| 0 <= j < k ==> hay@[at + j] == needle@[j],
        decreases needle@.len() - k,
    {
        if hay[at + k] != needle[k] {
            proof {
                let part = hay@.subrange(at as int, at + needle@.len());
                assert(part[k as int] == hay@[at + k]);
            }
            return false;
        }
        k += 1;
    }
    assert(hay@.subrange(at as int, at + needle@.len()) =~= needle@);
    true
}

/// Finds the first place at or after `from` where `needle` stands in `hay`.
pub fn find(hay: &[u8], needle: &[u8], from: usize) -> (r: Option<usize>)
    ensures
        r.is_some() == first_occurrence(hay@, needle@, from as int).is_some(),
        r matches Some(at) ==> first_occurrence(hay@, needle@, from as int) == Some(at as int)
            && from <= at && at + needle.len() <= hay.len(),
{
    proof {
        first_occurrence_is_first(hay@, needle@, from as int);
    }
    if from > hay.len() || needle.len() > hay.len() - from {
        return None;
    }
    let last = hay.len() - needle.len();
    let mut at: usize = from;
    loop
        invariant
            from <= at <= last,
            last == hay.len() - needle.len(),
            first_occurrence(hay@, needle@, from as int) == first_occurrence(
                hay@,
                needle@,
                at as int,
            ),
        decreases last - at,
    {
        if stands_at(hay, needle, at) {
            return Some(at);
        }
        if at == last {
            assert(first_occurrence(hay@, needle@, at + 1) is None);
            return None;
        }
        at += 1;
    }
}

/// The index of the first blank byte at or after `from`, or the length of
/// `s` if there is none.
pub open spec fn word_end(s: Seq<u8>, from: int) -> int
    decreases s.len() - from,
{
    if from >= s.len() {
        s.len() as int
    } else if blank(s[from]) {
        from
    } else {
        word_end(s, from + 1)
    }
}

/// Whether a word starts at `i`: the byte there is not blank, and it is the
/// first byte or follows a blank one.
pub open spec fn starts_word(s: Seq<u8>, i: int) -> bool {
    0 <= i < s.len() && !blank(s[i]) && (i == 0 || blank(s[i - 1]))
}

/// The words that start at or after `from`, in order, each as the index of
/// its first byte and the index just behind its last.
pub open spec fn words_from(s: Seq<u8>, from: int) -> Seq<(int, int)>
    decreases s.len() - from,
{
    if from >= s.len() {
        Seq::empty()
    } else if starts_word(s, from) {
        seq![(from, word_end(s, from))] + words_from(s, from + 1)
    } else {
        words_from(s, from + 1)
    }
}

/// The words of `s`: its maximal runs of bytes that are not blank.
pub open spec fn words(s: Seq<u8>) -> Seq<(int, int)> {
    words_from(s, 0)
}

/// The bytes of the word that `span` bounds.
pub open spec fn word_text(s: Seq<u8>, span: (int, int)) -> Seq<u8> {
    s.subrange(span.0, span.1)
}

/// Word bounds as indices of the model.
pub open spec fn spans(found: Seq<(usize, usize)>) -> Seq<(int, int)> {
    Seq::new(found.len(), |k: int| (found[k].0 as int, found[k].1 as int))
}

/// What `word_end` finds: no blank byte lies before it.
pub proof fn word_end_is_first(s: Seq<u8>, from: int)
    requires
        0 <= from <= s.len(),
    ensures
        from <= word_end(s, from) <= s.len(),
        forall|i: int| from <= i < word_end(s, from) ==> !blank(#[trigger] s[i]),
        word_end(s, from) < s.len() ==> blank(s[word_end(s, from)]),
    decreases s.len() - from,
{
    if from < s.len() && !blank(s[from]) {
        word_end_is_first(s, from + 1);
    }
}

/// No word starts inside a word or inside a run of blank bytes.
proof fn no_word_starts_within(s: Seq<u8>, from: int, to: int)
    requires
        0 <= from <= to <= s.len(),
        forall|i: int| from <= i < to ==> !starts_word(s, i),
    ensures
        words_from(s, from) == words_from(s, to),
    decreases to - from,
{
    if from < to {
        no_word_starts_within(s, from + 1, to);
    }
}

/// Every word lies inside the text and holds at least one byte.
pub proof fn words_are_in_bounds(s: Seq<u8>, from: int)
    requires
        0 <= from,
    ensures
        forall|k: int|
            0 <= k < words_from(s, from).len() ==> {
                let span = #[trigger] words_from(s, from)[k];
                from <= span.0 < span.1 <= s.len()
            },
    decreases s.len() - from,
{
    if from < s.len() {
        words_are_in_bounds(s, from + 1);
        let rest = words_from(s, from + 1);
        if starts_word(s, from) {
            word_end_is_first(s, from);
            assert forall|k: int| 0 <= k < words_from(s, from).len() implies {
                let span = #[trigger] words_from(s, from)[k];
                from <= span.0 < span.1 <= s.len()
            } by {
                if k > 0 {
                    assert(words_from(s, from)[k] == rest[k - 1]);
                }
            }
        }
    }
}

/// Splits `line` at its blank bytes and gives the bounds of each word.
pub fn split_words(line: &[u8]) -> (found: Vec<(usize, usize)>)
    ensures
        spans(found@) == words(line@),
        forall|k: int| 0 <= k < found@.len() ==> (#[trigger] found@[k]).0 < found@[k].1 <= line@.len(),
{
    let mut found: Vec<(usize, usize)> = Vec::new();
    let mut at: usize = 0;
    while at < line.len()
        invariant
            at <= line.len(),
            at < line.len() && !blank(line@[at as int]) ==> starts_word(line@, at as int),
            words(line@) == spans(found@) + words_from(line@, at as int),
        decreases line.len() - at,
    {
        if is_blank(line[at]) {
            at += 1;
        } else {
            let start = at;
            let mut end: usize = at + 1;
            while end < line.len() && !is_blank(line[end])
                invariant
                    start < end <= line.len(),
                    !blank(line@[start as int]),
                    word_end(line@, start as int) == word_end(line@, end as int),
                    forall|i: int| start < i < end ==> !blank(#[trigger] line@[i]),
                decreases line.len() - end,
            {
                end += 1;
            }
            proof {
                assert(starts_word(line@, start as int));
                assert forall|i: int| start + 1 <= i < end implies !starts_word(line@, i) by {
                    assert(!blank(line@[i - 1]));
                }
                no_word_starts_within(line@, start + 1, end as int);
                assert(spans(found@.push((start, end))) =~= spans(found@) + seq![
                    (start as int, end as int),
                ]);
            }
            found.push((start, end));
            at = end;
        }
    }
    proof {
        assert(spans(found@) + words_from(line@, at as int) =~= spans(found@));
        words_are_in_bounds(line@, 0);
        assert forall|k: int| 0 <= k < found@.len() implies (#[trigger] found@[k]).0
            < found@[k].1 <= line@.len() by {
            assert(spans(found@)[k] == words(line@)[k]);
        }
    }
    found
}

} // verus!
