//! Character sequences: searching, splitting and joining.

use vstd::prelude::*;

verus! {

/// The position of the first `sep` in `s`, or `s.len()` where `s` holds none.
pub open spec fn first_index(s: Seq<char>, sep: char) -> int
    decreases s.len(),
{
    if s.len() == 0 || s[0] == sep {
        0
    } else {
        1 + first_index(s.skip(1), sep)
    }
}

/// The parts of `s` that lie between the occurrences of `sep`, in order.
/// There is always at least one part; a part may be empty.
pub open spec fn split(s: Seq<char>, sep: char) -> Seq<Seq<char>>
    decreases s.len(),
{
    let i = first_index(s, sep);
    if 0 <= i < s.len() {
        seq![s.take(i)] + split(s.skip(i + 1), sep)
    } else {
        seq![s]
    }
}

/// The parts put together again, with one `sep` between neighbours.
pub open spec fn join(parts: Seq<Seq<char>>, sep: char) -> Seq<char>
    decreases parts.len(),
{
    if parts.len() == 0 {
        Seq::empty()
    } else if parts.len() == 1 {
        parts[0]
    } else {
        parts[0] + seq![sep] + join(parts.skip(1), sep)
    }
}

/// The texts of a list of strings, in order.
pub open spec fn texts(strings: Seq<String>) -> Seq<Seq<char>> {
    Seq::new(strings.len(), |i: int| strings[i]@)
}

/// Whether `c` occurs nowhere in `s`.
pub open spec fn lacks(s: Seq<char>, c: char) -> bool {
    forall|i: int| 0 <= i < s.len() ==> s[i] != c
}

/// `first_index` lies within bounds, nothing before it is `sep`, and where it
/// is a position of `s`, that position holds `sep`.
pub proof fn lemma_first_index(s: Seq<char>, sep: char)
    ensures
        0 <= first_index(s, sep) <= s.len(),
        forall|j: int| 0 <= j < first_index(s, sep) ==> s[j] != sep,
        first_index(s, sep) < s.len() ==> s[first_index(s, sep)] == sep,
    decreases s.len(),
{
    if s.len() == 0 || s[0] == sep {
    } else {
        let rest = s.skip(1);
        lemma_first_index(rest, sep);
        assert forall|j: int| 0 <= j < first_index(s, sep) implies s[j] != sep by {
            if j > 0 {
                assert(rest[j - 1] == s[j]);
            }
        }
        let i = first_index(s, sep);
        assert(i < s.len() ==> rest[i - 1] == s[i]);
    }
}

/// A position that meets the description of `first_index` is `first_index`.
pub proof fn lemma_first_index_unique(s: Seq<char>, sep: char, i: int)
    requires
        0 <= i <= s.len(),
        forall|j: int| 0 <= j < i ==> s[j] != sep,
        i < s.len() ==> s[i] == sep,
    ensures
        first_index(s, sep) == i,
{
    lemma_first_index(s, sep);
}

/// Appending to a sequence that holds no `sep` something that is empty or
/// starts with `sep` puts the first `sep` right behind the sequence.
pub proof fn lemma_first_index_concat(head: Seq<char>, tail: Seq<char>, sep: char)
    requires
        lacks(head, sep),
        tail.len() > 0 ==> tail[0] == sep,
    ensures
        first_index(head + tail, sep) == head.len(),
{
    lemma_first_index_unique(head + tail, sep, head.len() as int);
}

/// A split has at least one part.
pub proof fn lemma_split_nonempty(s: Seq<char>, sep: char)
    ensures
        split(s, sep).len() >= 1,
    decreases s.len(),
{
    let i = first_index(s, sep);
    if 0 <= i < s.len() {
        lemma_split_nonempty(s.skip(i + 1), sep);
    }
}

/// Adding one more part to a non-empty list joins it on behind a separator.
pub proof fn lemma_join_push(parts: Seq<Seq<char>>, part: Seq<char>, sep: char)
    requires
        parts.len() >= 1,
    ensures
        join(parts.push(part), sep) == join(parts, sep) + seq![sep] + part,
    decreases parts.len(),
{
    let all = parts.push(part);
    if parts.len() == 1 {
        assert(all.skip(1) =~= seq![part]);
        assert(join(all.skip(1), sep) == part);
        assert(join(all, sep) =~= join(parts, sep) + seq![sep] + part);
    } else {
        lemma_join_push(parts.skip(1), part, sep);
        assert(all.skip(1) =~= parts.skip(1).push(part));
        assert(join(all, sep) =~= join(parts, sep) + seq![sep] + part);
    }
}

/// Splitting what was joined gives the parts back, provided that there is at
/// least one part and that no part holds the separator.
pub proof fn lemma_split_join(parts: Seq<Seq<char>>, sep: char)
    requires
        parts.len() >= 1,
        forall|i: int| 0 <= i < parts.len() ==> lacks(#[trigger] parts[i], sep),
    ensures
        split(join(parts, sep), sep) == parts,
    decreases parts.len(),
{
    let joined = join(parts, sep);
    if parts.len() == 1 {
        assert(lacks(parts[0], sep));
        lemma_first_index_unique(joined, sep, joined.len() as int);
        assert(split(joined, sep) =~= parts);
    } else {
        let rest = parts.skip(1);
        let tail = seq![sep] + join(rest, sep);
        assert(joined =~= parts[0] + tail);
        assert(lacks(parts[0], sep));
        lemma_first_index_concat(parts[0], tail, sep);
        let i = parts[0].len() as int;
        assert(joined.take(i) =~= parts[0]);
        assert(joined.skip(i + 1) =~= join(rest, sep));
        assert forall|k: int| 0 <= k < rest.len() implies lacks(#[trigger] rest[k], sep) by {
            assert(rest[k] == parts[k + 1]);
        }
        lemma_split_join(rest, sep);
        assert(split(joined, sep) =~= parts);
    }
}

/// What is joined from parts that lack `c`, with a separator other than `c`,
/// lacks `c` too.
pub proof fn lemma_join_lacks(parts: Seq<Seq<char>>, sep: char, c: char)
    requires
        sep != c,
        forall|i: int| 0 <= i < parts.len() ==> lacks(#[trigger] parts[i], c),
    ensures
        lacks(join(parts, sep), c),
    decreases parts.len(),
{
    if parts.len() == 0 {
    } else if parts.len() == 1 {
        assert(lacks(parts[0], c));
    } else {
        let rest = parts.skip(1);
        assert forall|k: int| 0 <= k < rest.len() implies lacks(#[trigger] rest[k], c) by {
            assert(rest[k] == parts[k + 1]);
        }
        lemma_join_lacks(rest, sep, c);
        assert(lacks(parts[0], c));
    }
}

/// The characters of a string, one by one.
pub(crate) fn to_chars(s: &str) -> (chars: Vec<char>)
    ensures
        chars@ == s@,
{
    let mut chars: Vec<char> = Vec::new();
    for c in it: s.chars()
        invariant
            chars@ == it.seq().take(it.index()),
            it.seq() == s@,
    {
        chars.push(c);
    }
    chars
}

/// The first position in `from..to` at which `chars` holds `sep`, or `to`
/// where it holds none there.
pub(crate) fn find(chars: &Vec<char>, sep: char, from: usize, to: usize) -> (at: usize)
    requires
        from <= to <= chars.len(),
    ensures
        from <= at <= to,
        at - from == first_index(chars@.subrange(from as int, to as int), sep),
{
    let ghost window = chars@.subrange(from as int, to as int);
    let mut at: usize = from;
    while at < to && chars[at] != sep
        invariant
            from <= at <= to <= chars.len(),
            window == chars@.subrange(from as int, to as int),
            forall|j: int| 0 <= j < at - from ==> window[j] != sep,
        decreases to - at,
    {
        at += 1;
    }
    proof {
        lemma_first_index_unique(window, sep, at - from);
    }
    at
}

} // verus!
