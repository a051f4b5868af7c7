//! Cutting a text into pieces.

use crate::text::trim::{is_white, trim_start_spec, white, white_end};
use crate::text::{chars_of, join_spec, string_of, texts};
use vstd::prelude::*;

verus! {

/// How many characters stand in `s` before the first `c`, or in all where there
/// is no `c`.
pub open spec fn upto(s: Seq<char>, c: char) -> nat
    decreases s.len(),
{
    if s.len() == 0 || s[0] == c {
        0
    } else {
        1 + upto(s.drop_first(), c)
    }
}

/// `upto` is the index of the first `c`, or the length where there is none.
pub proof fn upto_is_first(s: Seq<char>, c: char)
    ensures
        upto(s, c) <= s.len(),
        upto(s, c) < s.len() ==> s[upto(s, c) as int] == c,
        forall|k: int| 0 <= k < upto(s, c) ==> s[k] != c,
    decreases s.len(),
{
    if s.len() > 0 && s[0] != c {
        let t = s.drop_first();
        upto_is_first(t, c);
        assert forall|k: int| 0 <= k < upto(s, c) implies s[k] != c by {
            if k > 0 {
                assert(t[k - 1] == s[k]);
            }
        }
    }
}

proof fn lemma_upto(s: Seq<char>, c: char, n: nat)
    requires
        n <= s.len(),
        n < s.len() ==> s[n as int] == c,
        forall|k: int| 0 <= k < n ==> s[k] != c,
    ensures
        upto(s, c) == n,
{
    upto_is_first(s, c);
    let m = upto(s, c);
    if m < n {
        assert(s[m as int] == c);
    }
}

/// The index of the first `c` in `v[from..]`, or the length of `v`.
pub fn scan(v: &Vec<char>, from: usize, c: char) -> (r: usize)
    requires
        from <= v@.len(),
    ensures
        from <= r <= v@.len(),
        r - from == upto(v@.skip(from as int), c),
        r < v@.len() ==> v@[r as int] == c,
        forall|k: int| from <= k < r ==> v@[k] != c,
{
    let mut i: usize = from;
    while i < v.len() && v[i] != c
        invariant
            from <= i <= v@.len(),
            forall|k: int| from <= k < i ==> v@[k] != c,
        decreases v@.len() - i,
    {
        i += 1;
    }
    proof {
        let t = v@.skip(from as int);
        assert forall|k: int| 0 <= k < i - from implies t[k] != c by {
            assert(t[k] == v@[from + k]);
        }
        lemma_upto(t, c, (i - from) as nat);
    }
    i
}

/// The pieces of `s` between the characters `c`.
pub open spec fn split_spec(s: Seq<char>, c: char) -> Seq<Seq<char>>
    decreases s.len(),
{
    let n = upto(s, c);
    if n < s.len() {
        seq![s.take(n as int)] + split_spec(s.skip(n as int + 1), c)
    } else {
        seq![s]
    }
}

/// `str::split` with one character.
pub fn split(s: &str, c: char) -> (r: Vec<String>)
    ensures
        texts(r@) == split_spec(s@, c),
{
    let v = chars_of(s);
    let mut out: Vec<String> = Vec::new();
    let mut start: usize = 0;
    assert(v@.skip(0) =~= s@);
    assert(texts(out@) + split_spec(s@, c) =~= split_spec(s@, c));
    loop
        invariant
            start <= v@.len(),
            v@ == s@,
            texts(out@) + split_spec(v@.skip(start as int), c) == split_spec(s@, c),
        decreases v@.len() - start,
    {
        let end: usize = scan(&v, start, c);
        let piece = string_of(&v, start, end);
        let ghost rest = v@.skip(start as int);
        let ghost n = upto(rest, c);
        let ghost before = out@;
        assert(piece@ =~= rest.take(n as int));
        out.push(piece);
        assert(texts(out@) =~= texts(before).push(piece@));
        if end == v.len() {
            assert(rest.take(n as int) =~= rest);
            assert(texts(out@) =~= texts(before) + seq![rest]);
            return out;
        }
        assert(rest.skip(n as int + 1) =~= v@.skip(end as int + 1));
        assert(texts(out@) + split_spec(v@.skip(end as int + 1), c) =~= texts(before) + (
        seq![rest.take(n as int)] + split_spec(rest.skip(n as int + 1), c)));
        start = end + 1;
    }
}

/// What stands before and after the first `c`.
pub open spec fn split_once_spec(s: Seq<char>, c: char) -> Option<(Seq<char>, Seq<char>)> {
    let n = upto(s, c);
    if n < s.len() {
        Some((s.take(n as int), s.skip(n as int + 1)))
    } else {
        None
    }
}

/// The text of an optional pair of strings.
pub open spec fn pair_text(o: Option<(String, String)>) -> Option<(Seq<char>, Seq<char>)> {
    match o {
        Some(p) => Some((p.0@, p.1@)),
        None => None,
    }
}

/// `str::split_once` with one character.
pub fn split_once(s: &str, c: char) -> (r: Option<(String, String)>)
    ensures
        pair_text(r) == split_once_spec(s@, c),
{
    let v = chars_of(s);
    let n: usize = scan(&v, 0, c);
    assert(v@.skip(0) =~= s@);
    if n < v.len() {
        let a = string_of(&v, 0, n);
        let b = string_of(&v, n + 1, v.len());
        assert(a@ =~= s@.take(n as int));
        assert(b@ =~= s@.skip(n as int + 1));
        Some((a, b))
    } else {
        None
    }
}

/// A line without the carriage return before its line feed.
pub open spec fn strip_cr(s: Seq<char>) -> Seq<char> {
    if s.len() > 0 && s.last() == '\r' {
        s.drop_last()
    } else {
        s
    }
}

/// The lines of a text: what stands before each line feed, without the carriage
/// return that may precede it, and what follows the last one where that is not
/// empty.
pub open spec fn lines_spec(s: Seq<char>) -> Seq<Seq<char>>
    decreases s.len(),
{
    if s.len() == 0 {
        Seq::empty()
    } else {
        let n = upto(s, '\n');
        if n < s.len() {
            seq![strip_cr(s.take(n as int))] + lines_spec(s.skip(n as int + 1))
        } else {
            seq![s]
        }
    }
}

/// `str::lines`.
pub fn lines(s: &str) -> (r: Vec<String>)
    ensures
        texts(r@) == lines_spec(s@),
{
    let v = chars_of(s);
    let mut out: Vec<String> = Vec::new();
    let mut start: usize = 0;
    assert(v@.skip(0) =~= s@);
    assert(texts(out@) + lines_spec(s@) =~= lines_spec(s@));
    while start < v.len()
        invariant
            start <= v@.len(),
            v@ == s@,
            texts(out@) + lines_spec(v@.skip(start as int)) == lines_spec(s@),
        decreases v@.len() - start,
    {
        let end: usize = scan(&v, start, '\n');
        let ghost rest = v@.skip(start as int);
        let ghost n = upto(rest, '\n');
        let ghost before = out@;
        if end == v.len() {
            let piece = string_of(&v, start, end);
            assert(piece@ =~= rest);
            out.push(piece);
            assert(texts(out@) =~= texts(before) + seq![rest]);
            return out;
        }
        let stop: usize = if end > start && v[end - 1] == '\r' {
            end - 1
        } else {
            end
        };
        let piece = string_of(&v, start, stop);
        assert(piece@ =~= strip_cr(rest.take(n as int)));
        out.push(piece);
        assert(texts(out@) =~= texts(before).push(piece@));
        assert(rest.skip(n as int + 1) =~= v@.skip(end as int + 1));
        assert(texts(out@) + lines_spec(v@.skip(end as int + 1)) =~= texts(before) + (
        seq![strip_cr(rest.take(n as int))] + lines_spec(rest.skip(n as int + 1))));
        start = end + 1;
    }
    assert(v@.skip(start as int) =~= Seq::<char>::empty());
    assert(texts(out@) + lines_spec(v@.skip(start as int)) =~= texts(out@));
    out
}

/// How many characters `s` begins with that are not white space.
pub open spec fn word_len(s: Seq<char>) -> nat
    decreases s.len(),
{
    if s.len() == 0 || is_white(s[0]) {
        0
    } else {
        1 + word_len(s.drop_first())
    }
}

/// The pieces of `s` between stretches of white space.
pub open spec fn words_spec(s: Seq<char>) -> Seq<Seq<char>>
    decreases s.len(),
    via words_decreases
{
    let t = trim_start_spec(s);
    if t.len() == 0 {
        Seq::empty()
    } else {
        let n = word_len(t);
        seq![t.take(n as int)] + words_spec(t.skip(n as int))
    }
}

#[via_fn]
proof fn words_decreases(s: Seq<char>) {
    lemma_trim_start_len(s);
    lemma_word_len(trim_start_spec(s));
}

proof fn lemma_trim_start_len(s: Seq<char>)
    ensures
        trim_start_spec(s).len() <= s.len(),
        trim_start_spec(s).len() > 0 ==> !is_white(trim_start_spec(s)[0]),
    decreases s.len(),
{
    if s.len() > 0 && is_white(s[0]) {
        lemma_trim_start_len(s.drop_first());
    }
}

proof fn lemma_word_len(s: Seq<char>)
    ensures
        word_len(s) <= s.len(),
        s.len() > 0 && !is_white(s[0]) ==> word_len(s) > 0,
        forall|k: int| 0 <= k < word_len(s) ==> !is_white(#[trigger] s[k]),
        word_len(s) < s.len() ==> is_white(s[word_len(s) as int]),
    decreases s.len(),
{
    if s.len() > 0 && !is_white(s[0]) {
        let t = s.drop_first();
        lemma_word_len(t);
        assert forall|k: int| 0 <= k < word_len(s) implies !is_white(#[trigger] s[k]) by {
            if k > 0 {
                assert(t[k - 1] == s[k]);
            }
        }
        if word_len(s) < s.len() {
            assert(t[word_len(t) as int] == s[word_len(s) as int]);
        }
    }
}

proof fn lemma_word_len_is(s: Seq<char>, n: nat)
    requires
        n <= s.len(),
        n < s.len() ==> is_white(s[n as int]),
        forall|k: int| 0 <= k < n ==> !is_white(#[trigger] s[k]),
    ensures
        word_len(s) == n,
{
    lemma_word_len(s);
    if word_len(s) < n {
        assert(is_white(s[word_len(s) as int]));
    } else if n < word_len(s) {
        assert(!is_white(s[n as int]));
    }
}

/// `str::split_whitespace`.
pub fn words(s: &str) -> (r: Vec<String>)
    ensures
        texts(r@) == words_spec(s@),
{
    let v = chars_of(s);
    let mut out: Vec<String> = Vec::new();
    let mut start: usize = 0;
    assert(v@.skip(0) =~= s@);
    assert(texts(out@) + words_spec(s@) =~= words_spec(s@));
    loop
        invariant
            start <= v@.len(),
            v@ == s@,
            texts(out@) + words_spec(v@.skip(start as int)) == words_spec(s@),
        decreases v@.len() - start,
    {
        let a: usize = white_end(&v, start, v.len());
        assert(v@.subrange(start as int, v@.len() as int) =~= v@.skip(start as int));
        let ghost rest = v@.skip(start as int);
        let ghost t = trim_start_spec(rest);
        assert(t =~= v@.skip(a as int));
        if a == v.len() {
            assert(words_spec(rest) =~= Seq::<Seq<char>>::empty());
            assert(texts(out@) + words_spec(rest) =~= texts(out@));
            return out;
        }
        let mut b: usize = a;
        while b < v.len() && !white(v[b])
            invariant
                a <= b <= v@.len(),
                forall|k: int| a <= k < b ==> !is_white(#[trigger] v@[k]),
            decreases v@.len() - b,
        {
            b += 1;
        }
        let ghost n = (b - a) as nat;
        proof {
            assert forall|k: int| 0 <= k < n implies !is_white(#[trigger] t[k]) by {
                assert(t[k] == v@[a + k]);
            }
            lemma_word_len_is(t, n);
            lemma_word_len(t);
        }
        let piece = string_of(&v, a, b);
        let ghost before = out@;
        assert(piece@ =~= t.take(n as int));
        out.push(piece);
        assert(texts(out@) =~= texts(before).push(piece@));
        assert(t.skip(n as int) =~= v@.skip(b as int));
        assert(texts(out@) + words_spec(v@.skip(b as int)) =~= texts(before) + (
        seq![t.take(n as int)] + words_spec(t.skip(n as int))));
        start = b;
    }
}

/// The first word of a text.
pub open spec fn first_word_spec(s: Seq<char>) -> Option<Seq<char>> {
    let t = trim_start_spec(s);
    if t.len() == 0 {
        None
    } else {
        Some(t.take(word_len(t) as int))
    }
}

/// `split_whitespace().next()`.
pub fn first_word(s: &str) -> (r: Option<String>)
    ensures
        match r {
            Some(w) => first_word_spec(s@) == Some(w@),
            None => first_word_spec(s@) is None,
        },
{
    let v = chars_of(s);
    let a: usize = white_end(&v, 0, v.len());
    assert(v@.subrange(0, v@.len() as int) =~= s@);
    let ghost t = trim_start_spec(s@);
    assert(t =~= v@.skip(a as int));
    if a == v.len() {
        return None;
    }
    let mut b: usize = a;
    while b < v.len() && !white(v[b])
        invariant
            a <= b <= v@.len(),
            forall|k: int| a <= k < b ==> !is_white(#[trigger] v@[k]),
        decreases v@.len() - b,
    {
        b += 1;
    }
    proof {
        assert forall|k: int| 0 <= k < b - a implies !is_white(#[trigger] t[k]) by {
            assert(t[k] == v@[a + k]);
        }
        lemma_word_len_is(t, (b - a) as nat);
    }
    let w = string_of(&v, a, b);
    assert(w@ =~= t.take(word_len(t) as int));
    Some(w)
}

/// Whether a line of a text stands from `a` to `b`: it holds no line feed, and
/// line feeds or the ends of the text stand around it.
pub open spec fn is_line(s: Seq<char>, a: int, b: int) -> bool {
    &&& 0 <= a <= b <= s.len()
    &&& a == 0 || s[a - 1] == '\n'
    &&& b == s.len() || s[b] == '\n'
    &&& forall|k: int| a <= k < b ==> s[k] != '\n'
}

/// What `lines` gives stands in the text: each is a line of it, without the
/// carriage return that may end it, and holds no line feed.
pub proof fn lines_stand_in_text(s: Seq<char>, from: int, i: int) -> (r: (int, int))
    requires
        0 <= from <= s.len(),
        from == 0 || s[from - 1] == '\n',
        0 <= i < lines_spec(s.skip(from)).len(),
    ensures
        is_line(s, r.0, r.1),
        lines_spec(s.skip(from))[i] == s.subrange(r.0, r.1) || lines_spec(s.skip(from))[i]
            == strip_cr(s.subrange(r.0, r.1)),
        forall|k: int|
            0 <= k < lines_spec(s.skip(from))[i].len() ==> lines_spec(s.skip(from))[i][k] != '\n',
    decreases s.len() - from,
{
    let t = s.skip(from);
    let n = upto(t, '\n');
    upto_is_first(t, '\n');
    if n < t.len() {
        let next = from + n + 1;
        assert(t.skip(n as int + 1) =~= s.skip(next));
        assert(s[next - 1] == t[n as int]);
        if i == 0 {
            assert(t.take(n as int) =~= s.subrange(from, from + n));
            assert forall|k: int| from <= k < from + n implies s[k] != '\n' by {
                assert(t[k - from] == s[k]);
            }
            (from, from + n)
        } else {
            assert(lines_spec(t)[i] == lines_spec(s.skip(next))[i - 1]);
            lines_stand_in_text(s, next, i - 1)
        }
    } else {
        assert(t =~= s.subrange(from, s.len() as int));
        assert forall|k: int| from <= k < s.len() implies s[k] != '\n' by {
            assert(t[k - from] == s[k]);
        }
        (from, s.len() as int)
    }
}

/// The lines of texts that are joined by line feeds are those texts, if none of
/// them holds a line feed itself.
pub proof fn joined_texts_are_lines(parts: Seq<Seq<char>>, a: int, b: int) -> (i: int)
    requires
        parts.len() > 0,
        forall|p: int, k: int|
            0 <= p < parts.len() && 0 <= k < parts[p].len() ==> #[trigger] parts[p][k] != '\n',
        is_line(join_spec(parts, seq!['\n']), a, b),
    ensures
        0 <= i < parts.len(),
        join_spec(parts, seq!['\n']).subrange(a, b) == parts[i],
    decreases parts.len(),
{
    let s = join_spec(parts, seq!['\n']);
    if parts.len() == 1 {
        if a > 0 {
            assert(parts[0][a - 1] != '\n');
        }
        if b < s.len() {
            assert(parts[0][b] != '\n');
        }
        assert(s.subrange(0, s.len() as int) =~= s);
        0
    } else {
        let head = parts.drop_last();
        let before = join_spec(head, seq!['\n']);
        let last = parts.last();
        let n = before.len() as int;
        assert(s[n] == '\n');
        assert forall|p: int, k: int| 0 <= p < head.len() && 0 <= k < head[p].len() implies
            #[trigger] head[p][k] != '\n' by {
            assert(parts[p][k] != '\n');
        }
        if b <= n {
            assert(forall|k: int| 0 <= k < n ==> s[k] == before[k]);
            assert(is_line(before, a, b));
            assert(s.subrange(a, b) =~= before.subrange(a, b));
            joined_texts_are_lines(head, a, b)
        } else {
            assert(a > n);
            if a > n + 1 {
                assert(s[a - 1] == parts[parts.len() - 1][a - 1 - (n + 1)]);
            }
            if b < s.len() {
                assert(s[b] == parts[parts.len() - 1][b - (n + 1)]);
            }
            assert(s.subrange(a, b) =~= last);
            parts.len() - 1
        }
    }
}

proof fn join_from_the_front(first: Seq<char>, rest: Seq<Seq<char>>, sep: Seq<char>)
    requires
        rest.len() > 0,
    ensures
        join_spec(seq![first] + rest, sep) == first + sep + join_spec(rest, sep),
    decreases rest.len(),
{
    let all = seq![first] + rest;
    assert(all.last() == rest.last());
    if rest.len() == 1 {
        assert(all.drop_last() =~= seq![first]);
        assert(join_spec(seq![first], sep) == first);
    } else {
        let head = rest.drop_last();
        join_from_the_front(first, head, sep);
        assert(all.drop_last() =~= seq![first] + head);
        assert(join_spec(all, sep) =~= first + sep + join_spec(rest, sep));
    }
}

/// The lines of a text, joined by line feeds, are the text again, but for a line
/// feed at its end, if no carriage return stands before a line feed.
pub proof fn joined_lines_are_the_text(s: Seq<char>)
    requires
        forall|i: int| 0 <= i < s.len() - 1 && #[trigger] s[i] == '\r' ==> s[i + 1] != '\n',
    ensures
        join_spec(lines_spec(s), seq!['\n']) == (if s.len() > 0 && s.last() == '\n' {
            s.drop_last()
        } else {
            s
        }),
    decreases s.len(),
{
    if s.len() > 0 {
        let n = upto(s, '\n');
        upto_is_first(s, '\n');
        if n < s.len() {
            let first = s.take(n as int);
            let rest = s.skip(n as int + 1);
            if n > 0 {
                assert(first.last() == s[n - 1]);
                assert(s[n - 1 + 1] == '\n');
            }
            assert(strip_cr(first) == first);
            assert forall|i: int| 0 <= i < rest.len() - 1 && #[trigger] rest[i] == '\r' implies
                rest[i + 1] != '\n' by {
                assert(s[n + 1 + i] == rest[i]);
                assert(s[n + 1 + i + 1] == rest[i + 1]);
            }
            joined_lines_are_the_text(rest);
            if rest.len() == 0 {
                assert(lines_spec(rest) =~= Seq::empty());
                assert(lines_spec(s) =~= seq![first]);
                assert(first =~= s.drop_last());
            } else {
                assert(lines_spec(rest).len() > 0);
                join_from_the_front(first, lines_spec(rest), seq!['\n']);
                let joined = join_spec(lines_spec(s), seq!['\n']);
                if s.last() == '\n' {
                    assert(joined =~= s.drop_last());
                } else {
                    assert(joined =~= s);
                }
            }
        } else {
            if s.last() == '\n' {
                assert(s[s.len() - 1] != '\n');
            }
        }
    }
}

}  // verus!
