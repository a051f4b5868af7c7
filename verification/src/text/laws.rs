//! What holds of texts: how they are joined and parted, filled up and cut.

use crate::text::clock::clock_spec;
use crate::text::number::{
    decimal_spec, digits_value, numbers_are_written_in_digits, two_digits_spec,
};
use crate::text::order::text_le;
use crate::text::search::{
    ascii_lower_spec, contains_spec, occurs_at, strip_prefix_spec, strip_suffix_spec,
};
use crate::text::split::{
    first_word_spec, lines_spec, split_once_spec, split_spec, upto, upto_is_first, word_len,
    words_spec,
};
use crate::text::trim::{is_white, trim_start_spec};
use crate::text::{clip_spec, first_of, join_spec, pad_left_spec, pad_right_spec};
use vstd::arithmetic::div_mod::lemma_fundamental_div_mod_converse;
use vstd::prelude::*;
use vstd::string::*;

verus! {

/// Joining is concatenation with a separator between: joining one text gives that
/// text, and joining two lists gives the joined lists with the separator between.
pub proof fn joining_is_concatenation(a: Seq<Seq<char>>, b: Seq<Seq<char>>, x: Seq<char>, sep: Seq<char>)
    ensures
        join_spec(Seq::empty(), sep).len() == 0,
        join_spec(seq![x], sep) == x,
        a.len() > 0 && b.len() > 0 ==> join_spec(a + b, sep) == join_spec(a, sep) + sep
            + join_spec(b, sep),
    decreases b.len(),
{
    if a.len() > 0 && b.len() > 0 {
        let all = a + b;
        assert(all.last() == b.last());
        if b.len() == 1 {
            assert(all.drop_last() =~= a);
            assert(join_spec(b, sep) == b[0]);
        } else {
            let head = b.drop_last();
            joining_is_concatenation(a, head, x, sep);
            assert(all.drop_last() =~= a + head);
            assert(join_spec(all, sep) =~= join_spec(a, sep) + sep + join_spec(b, sep));
        }
    }
}

/// Each of the texts that are joined stands in the result.
pub proof fn joined_texts_stand(parts: Seq<Seq<char>>, sep: Seq<char>, k: int) -> (i: int)
    requires
        0 <= k < parts.len(),
    ensures
        occurs_at(join_spec(parts, sep), parts[k], i),
    decreases parts.len(),
{
    let all = join_spec(parts, sep);
    if parts.len() == 1 {
        assert(all.subrange(0, all.len() as int) =~= parts[0]);
        0
    } else if k == parts.len() - 1 {
        let n = all.len() - parts[k].len();
        assert(all.subrange(n, n + parts[k].len()) =~= parts[k]);
        n
    } else {
        let head = parts.drop_last();
        let i = joined_texts_stand(head, sep, k);
        let before = join_spec(head, sep);
        assert(all.subrange(i, i + parts[k].len()) =~= before.subrange(i, i + parts[k].len()));
        i
    }
}

/// What stands in a text that stands in another stands in that other.
pub proof fn standing_is_passed_on(s: Seq<char>, t: Seq<char>, x: Seq<char>)
    requires
        contains_spec(s, t),
        contains_spec(t, x),
    ensures
        contains_spec(s, x),
{
    let i = choose|i: int| occurs_at(s, t, i);
    let j = choose|j: int| occurs_at(t, x, j);
    assert(s.subrange(i + j, i + j + x.len()) =~= t.subrange(j, j + x.len()));
    assert(occurs_at(s, x, i + j));
}

/// What stands between two texts stands in the whole.
pub proof fn what_is_between_stands(a: Seq<char>, x: Seq<char>, b: Seq<char>)
    ensures
        contains_spec(a + x + b, x),
{
    let s = a + x + b;
    let n = a.len() as int;
    assert(s.subrange(n, n + x.len()) =~= x);
    assert(occurs_at(s, x, n));
}

/// Parting a text at a character loses nothing: no piece holds the character, and
/// joining the pieces with it gives the text again.
pub proof fn pieces_make_the_text(s: Seq<char>, c: char)
    ensures
        split_spec(s, c).len() > 0,
        join_spec(split_spec(s, c), seq![c]) == s,
        forall|i: int, k: int|
            0 <= i < split_spec(s, c).len() && 0 <= k < split_spec(s, c)[i].len()
                ==> #[trigger] split_spec(s, c)[i][k] != c,
    decreases s.len(),
{
    let n = upto(s, c);
    upto_is_first(s, c);
    let all = split_spec(s, c);
    if n < s.len() {
        let first = s.take(n as int);
        let rest = s.skip(n as int + 1);
        pieces_make_the_text(rest, c);
        joining_is_concatenation(seq![first], split_spec(rest, c), first, seq![c]);
        assert(join_spec(all, seq![c]) =~= s);
        assert forall|i: int, k: int| 0 <= i < all.len() && 0 <= k < all[i].len() implies
            #[trigger] all[i][k] != c by {
            if i == 0 {
                assert(all[0][k] == s[k]);
            } else {
                assert(all[i] == split_spec(rest, c)[i - 1]);
                assert(split_spec(rest, c)[i - 1][k] != c);
            }
        }
    } else {
        assert forall|i: int, k: int| 0 <= i < all.len() && 0 <= k < all[i].len() implies
            #[trigger] all[i][k] != c by {
            assert(all[i] == s);
        }
    }
}

/// Parting a text once parts it at the first such character, and at no other.
pub proof fn parted_once(s: Seq<char>, c: char)
    ensures
        match split_once_spec(s, c) {
            Some((a, b)) => s == a + seq![c] + b && !a.contains(c),
            None => !s.contains(c),
        },
{
    upto_is_first(s, c);
    let n = upto(s, c) as int;
    if n < s.len() {
        let a = s.take(n);
        assert(s =~= a + seq![c] + s.skip(n + 1));
        if a.contains(c) {
            let k = choose|k: int| 0 <= k < a.len() && a[k] == c;
            assert(s[k] == c);
        }
    } else if s.contains(c) {
        let k = choose|k: int| 0 <= k < s.len() && s[k] == c;
        assert(s[k] != c);
    }
}

proof fn trim_start_of(s: Seq<char>)
    ensures
        trim_start_spec(s).len() <= s.len(),
        trim_start_spec(s).len() > 0 ==> !is_white(trim_start_spec(s)[0]),
        trim_start_spec(s) == s.skip(s.len() - trim_start_spec(s).len()),
    decreases s.len(),
{
    if s.len() > 0 && is_white(s[0]) {
        let d = s.drop_first();
        trim_start_of(d);
        let n = s.len() - trim_start_spec(s).len();
        assert(d.skip(n - 1) =~= s.skip(n));
    } else {
        assert(s.skip(0) =~= s);
    }
}

proof fn word_len_of(s: Seq<char>)
    ensures
        word_len(s) <= s.len(),
        s.len() > 0 && !is_white(s[0]) ==> word_len(s) > 0,
        forall|k: int| 0 <= k < word_len(s) ==> !is_white(#[trigger] s[k]),
        word_len(s) < s.len() ==> is_white(s[word_len(s) as int]),
    decreases s.len(),
{
    if s.len() > 0 && !is_white(s[0]) {
        let t = s.drop_first();
        word_len_of(t);
        assert forall|k: int| 0 <= k < word_len(s) implies !is_white(#[trigger] s[k]) by {
            if k > 0 {
                assert(t[k - 1] == s[k]);
            }
        }
        if word_len(s) < s.len() {
            assert(t[word_len(t) as int] == s[word_len(s) as int]);
        }
    }
}

proof fn word_len_is(s: Seq<char>, n: nat)
    requires
        n <= s.len(),
        n < s.len() ==> is_white(s[n as int]),
        forall|k: int| 0 <= k < n ==> !is_white(#[trigger] s[k]),
    ensures
        word_len(s) == n,
{
    word_len_of(s);
    if word_len(s) < n {
        assert(!is_white(s[word_len(s) as int]));
    } else if n < word_len(s) {
        assert(!is_white(s[n as int]));
    }
}

/// The words of a text: white space in front does not count, and a word that is
/// followed by white space or by nothing is the first, before the words of the rest.
pub proof fn words_are_parted_by_white_space(w: Seq<char>, c: char, rest: Seq<char>)
    requires
        is_white(c),
        forall|k: int| 0 <= k < w.len() ==> !is_white(#[trigger] w[k]),
    ensures
        words_spec(Seq::empty()).len() == 0,
        words_spec(seq![c] + rest) == words_spec(rest),
        w.len() > 0 ==> words_spec(w) == seq![w],
        w.len() > 0 ==> words_spec(w + seq![c] + rest) == seq![w] + words_spec(rest),
{
    let none = Seq::<char>::empty();
    assert(trim_start_spec(none).len() == 0);
    assert(words_spec(none) =~= Seq::empty());
    let padded = seq![c] + rest;
    assert(padded.drop_first() =~= rest);
    assert(trim_start_spec(padded) == trim_start_spec(rest));
    if w.len() > 0 {
        assert(!is_white(w[0]));
        word_len_is(w, w.len());
        assert(w.take(w.len() as int) =~= w);
        assert(w.skip(w.len() as int) =~= none);
        assert(trim_start_spec(w) == w);
        assert(words_spec(w) =~= seq![w]);
        let s = w + seq![c] + rest;
        assert(s[0] == w[0]);
        assert forall|k: int| 0 <= k < w.len() implies !is_white(#[trigger] s[k]) by {
            assert(s[k] == w[k]);
        }
        word_len_is(s, w.len());
        assert(s.take(w.len() as int) =~= w);
        assert(s.skip(w.len() as int) =~= seq![c] + rest);
        assert(words_spec(s) =~= seq![w] + words_spec(seq![c] + rest));
    }
}

/// The first word of a text is the first of its words; there is none where there
/// are no words.
pub proof fn first_words_come_first(s: Seq<char>)
    ensures
        match first_word_spec(s) {
            Some(w) => words_spec(s).len() > 0 && words_spec(s)[0] == w,
            None => words_spec(s).len() == 0,
        },
{
}

/// The lines of a text: what stands before a line feed is a line of its own, without
/// a carriage return at its end, before the lines of the rest; a text without a line
/// feed is one line, and nothing is none.
pub proof fn lines_are_parted_by_feeds(a: Seq<char>, rest: Seq<char>)
    requires
        !a.contains('\n'),
    ensures
        lines_spec(Seq::empty()).len() == 0,
        a.len() > 0 ==> lines_spec(a) == seq![a],
        (a.len() == 0 || a.last() != '\r') ==> lines_spec(a + seq!['\n'] + rest) == seq![a]
            + lines_spec(rest),
        lines_spec(a + seq!['\r', '\n'] + rest) == seq![a] + lines_spec(rest),
{
    let f = a + seq!['\n'] + rest;
    feed_stands_after(a, seq!['\n'], rest);
    assert(f.take(a.len() as int) =~= a);
    assert(f.skip(a.len() as int + 1) =~= rest);
    let cr = a.push('\r');
    if cr.contains('\n') {
        let k = choose|k: int| 0 <= k < cr.len() && cr[k] == '\n';
        assert(a[k] == '\n');
    }
    let g = cr + seq!['\n'] + rest;
    feed_stands_after(cr, seq!['\n'], rest);
    assert(g.take(cr.len() as int) =~= cr);
    assert(g.skip(cr.len() as int + 1) =~= rest);
    assert(cr.drop_last() =~= a);
    assert(g =~= a + seq!['\r', '\n'] + rest);
    upto_is_first(a, '\n');
    if a.len() > 0 {
        let n = upto(a, '\n');
        if n < a.len() {
            assert(a[n as int] == '\n');
        }
    }
}

proof fn feed_stands_after(a: Seq<char>, feed: Seq<char>, rest: Seq<char>)
    requires
        !a.contains('\n'),
        feed == seq!['\n'],
    ensures
        upto(a + feed + rest, '\n') == a.len(),
{
    let s = a + feed + rest;
    upto_is_first(s, '\n');
    let n = upto(s, '\n') as int;
    assert(s[a.len() as int] == '\n');
    if n < a.len() {
        assert(a[n] == s[n]);
    }
}

/// What stands behind a beginning, or before an ending, is the rest of the text.
pub proof fn stripped_texts_go_with_the_rest(s: Seq<char>, p: Seq<char>)
    ensures
        match strip_prefix_spec(s, p) {
            Some(r) => s == p + r,
            None => !p.is_prefix_of(s),
        },
        match strip_suffix_spec(s, p) {
            Some(r) => s == r + p,
            None => !p.is_suffix_of(s),
        },
        strip_prefix_spec(p + s, p) == Some(s),
        strip_suffix_spec(s + p, p) == Some(s),
{
    if p.is_prefix_of(s) {
        assert(s =~= p + s.skip(p.len() as int));
    }
    if p.is_suffix_of(s) {
        assert(s =~= s.take(s.len() - p.len()) + p);
    }
    let a = p + s;
    assert(p =~= a.subrange(0, p.len() as int));
    assert(a.skip(p.len() as int) =~= s);
    let b = s + p;
    assert(p =~= b.subrange(s.len() as int, b.len() as int));
    assert(b.take(s.len() as int) =~= s);
}

/// A text that is filled up keeps its characters, and has the width where it was
/// shorter; what is filled in are blanks.
pub proof fn filling_keeps_the_text(s: Seq<char>, width: nat)
    ensures
        ({
            let n = if s.len() < width {
                width
            } else {
                s.len()
            };
            let l = pad_left_spec(s, width);
            let r = pad_right_spec(s, width);
            &&& l.len() == n && r.len() == n
            &&& s.is_suffix_of(l) && s.is_prefix_of(r)
            &&& forall|k: int| 0 <= k < n - s.len() ==> l[k] == ' '
            &&& forall|k: int| s.len() <= k < n ==> r[k] == ' '
        }),
{
    let l = pad_left_spec(s, width);
    let r = pad_right_spec(s, width);
    assert(s =~= l.subrange(l.len() - s.len(), l.len() as int));
    assert(s =~= r.subrange(0, s.len() as int));
}

/// A text that is cut is its beginning; one that is short enough is kept.
pub proof fn cutting_keeps_the_beginning(s: Seq<char>, n: nat)
    ensures
        clip_spec(s, n).is_prefix_of(s),
        clip_spec(s, n).len() == (if s.len() < n {
            s.len()
        } else {
            n
        }),
{
    assert(s =~= s.subrange(0, s.len() as int));
}

/// In lower case the ASCII letters are the small ones, and nothing else changes.
pub proof fn only_capitals_are_lowered(s: Seq<char>, k: int)
    requires
        0 <= k < s.len(),
    ensures
        ascii_lower_spec(s).len() == s.len(),
        'A' <= s[k] <= 'Z' ==> ascii_lower_spec(s)[k] as int == s[k] as int + 32,
        !('A' <= s[k] <= 'Z') ==> ascii_lower_spec(s)[k] == s[k],
{
}

/// Texts are ordered by the first character in which they differ, and a beginning
/// comes before what it begins.
pub proof fn the_first_difference_decides(p: Seq<char>, a: char, b: char, x: Seq<char>, y: Seq<char>)
    ensures
        text_le(p, p + x),
        (a as int) < (b as int) ==> text_le(p + seq![a] + x, p + seq![b] + y) && !text_le(
            p + seq![b] + y,
            p + seq![a] + x,
        ),
    decreases p.len(),
{
    let l = p + seq![a] + x;
    let r = p + seq![b] + y;
    if p.len() > 0 {
        let q = p.drop_first();
        the_first_difference_decides(q, a, b, x, y);
        assert((p + x).drop_first() =~= q + x);
        assert(l.drop_first() =~= q + seq![a] + x);
        assert(r.drop_first() =~= q + seq![b] + y);
    } else {
        assert(l[0] == a);
        assert(r[0] == b);
    }
}

/// The first of two texts counts where it is there, then the second, then the
/// default.
pub proof fn the_first_that_is_there_counts(a: String, b: String, o: Option<String>, d: Seq<char>)
    ensures
        first_of(Some(a), o, d) == a@,
        first_of(None, Some(b), d) == b@,
        first_of(None, None, d) == d,
{
}

proof fn the_parts_of_a_day(secs: int)
    requires
        secs >= 0,
    ensures
        0 <= (secs / 3600) % 24 < 24,
        0 <= (secs / 60) % 60 < 60,
        0 <= secs % 60 < 60,
        ((secs / 3600) % 24) * 3600 + ((secs / 60) % 60) * 60 + secs % 60 == secs % 86400,
{
    let m = secs / 60;
    let s = secs % 60;
    let h = m / 60;
    let k = m % 60;
    lemma_fundamental_div_mod_converse(secs, 3600, h, 60 * k + s);
    let d = h / 24;
    let e = h % 24;
    lemma_fundamental_div_mod_converse(secs, 86400, d, 3600 * e + 60 * k + s);
}

proof fn three_parts_between_colons(a: Seq<char>, b: Seq<char>, c: Seq<char>)
    requires
        a.len() == 2,
        b.len() == 2,
        c.len() == 2,
    ensures
        ({
            let t = a + ":"@ + b + ":"@ + c;
            &&& t.len() == 8
            &&& t[2] == ':' && t[5] == ':'
            &&& t.take(2) == a
            &&& t.subrange(3, 5) == b
            &&& t.subrange(6, 8) == c
        }),
{
    reveal_strlit(":");
}

/// The time of day is written as two digits each for the hours, the minutes and the
/// seconds, which read back as the time that has passed since midnight.
pub proof fn the_clock_reads_back(secs: u64)
    ensures
        ({
            let t = clock_spec(secs);
            &&& t.len() == 8
            &&& t[2] == ':' && t[5] == ':'
            &&& digits_value(t.take(2)) < 24
            &&& digits_value(t.subrange(3, 5)) < 60
            &&& digits_value(t.subrange(6, 8)) < 60
            &&& digits_value(t.take(2)) * 3600 + digits_value(t.subrange(3, 5)) * 60 + digits_value(
                t.subrange(6, 8),
            ) == secs % 86400
        }),
{
    let h = ((secs / 3600) % 24) as nat;
    let m = ((secs / 60) % 60) as nat;
    let s = (secs % 60) as nat;
    the_parts_of_a_day(secs as int);
    two_digits_read_back(h);
    two_digits_read_back(m);
    two_digits_read_back(s);
    three_parts_between_colons(two_digits_spec(h), two_digits_spec(m), two_digits_spec(s));
}

proof fn two_digits_read_back(n: nat)
    requires
        n < 100,
    ensures
        two_digits_spec(n).len() == 2,
        digits_value(two_digits_spec(n)) == n,
{
    let t = two_digits_spec(n);
    if n < 10 {
        assert(t.drop_last() =~= seq!['0']);
        assert(t.drop_last().drop_last() =~= Seq::empty());
        reveal_with_fuel(digits_value, 3);
    } else {
        numbers_are_written_in_digits(n, 0);
        reveal_with_fuel(decimal_spec, 2);
        assert(n / 10 < 10);
    }
}

}  // verus!
