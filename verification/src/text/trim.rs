//! White space, and what is left of a text without it.

use crate::text::{chars_of, string_of};
use vstd::prelude::*;

verus! {

/// The characters with the Unicode property `White_Space`.
pub open spec fn is_white(c: char) -> bool {
    ||| '\u{0009}' <= c <= '\u{000D}'
    ||| c == '\u{0020}'
    ||| c == '\u{0085}'
    ||| c == '\u{00A0}'
    ||| c == '\u{1680}'
    ||| '\u{2000}' <= c <= '\u{200A}'
    ||| c == '\u{2028}'
    ||| c == '\u{2029}'
    ||| c == '\u{202F}'
    ||| c == '\u{205F}'
    ||| c == '\u{3000}'
}

/// Whether `c` is white space.
pub fn white(c: char) -> (r: bool)
    ensures
        r == is_white(c),
{
    ('\u{0009}' <= c && c <= '\u{000D}') || c == '\u{0020}' || c == '\u{0085}' || c == '\u{00A0}'
        || c == '\u{1680}' || ('\u{2000}' <= c && c <= '\u{200A}') || c == '\u{2028}' || c
        == '\u{2029}' || c == '\u{202F}' || c == '\u{205F}' || c == '\u{3000}'
}

/// `s` without its leading white space.
pub open spec fn trim_start_spec(s: Seq<char>) -> Seq<char>
    decreases s.len(),
{
    if s.len() > 0 && is_white(s[0]) {
        trim_start_spec(s.drop_first())
    } else {
        s
    }
}

/// `s` without its trailing white space.
pub open spec fn trim_end_spec(s: Seq<char>) -> Seq<char>
    decreases s.len(),
{
    if s.len() > 0 && is_white(s.last()) {
        trim_end_spec(s.drop_last())
    } else {
        s
    }
}

/// `s` without white space at either end.
pub open spec fn trim_spec(s: Seq<char>) -> Seq<char> {
    trim_end_spec(trim_start_spec(s))
}

/// `s` without the characters `c` that it begins with.
pub open spec fn strip_leading_spec(s: Seq<char>, c: char) -> Seq<char>
    decreases s.len(),
{
    if s.len() > 0 && s[0] == c {
        strip_leading_spec(s.drop_first(), c)
    } else {
        s
    }
}

/// `s` without the characters `c` that it ends with.
pub open spec fn strip_trailing_spec(s: Seq<char>, c: char) -> Seq<char>
    decreases s.len(),
{
    if s.len() > 0 && s.last() == c {
        strip_trailing_spec(s.drop_last(), c)
    } else {
        s
    }
}

/// The first index from which `v[from..to]` does not start with white space.
pub fn white_end(v: &Vec<char>, from: usize, to: usize) -> (r: usize)
    requires
        from <= to <= v@.len(),
    ensures
        from <= r <= to,
        r < to ==> !is_white(v@[r as int]),
        forall|k: int| from <= k < r ==> is_white(#[trigger] v@[k]),
        trim_start_spec(v@.subrange(from as int, to as int)) == v@.subrange(r as int, to as int),
{
    let mut i: usize = from;
    while i < to && white(v[i])
        invariant
            from <= i <= to <= v@.len(),
            forall|k: int| from <= k < i ==> is_white(#[trigger] v@[k]),
            trim_start_spec(v@.subrange(from as int, to as int)) == trim_start_spec(
                v@.subrange(i as int, to as int),
            ),
        decreases to - i,
    {
        assert(v@.subrange(i as int, to as int).drop_first() =~= v@.subrange(
            i as int + 1,
            to as int,
        ));
        i += 1;
    }
    i
}

/// The last index up to which `v[from..to]` does not end with white space.
pub fn white_start(v: &Vec<char>, from: usize, to: usize) -> (r: usize)
    requires
        from <= to <= v@.len(),
    ensures
        from <= r <= to,
        trim_end_spec(v@.subrange(from as int, to as int)) == v@.subrange(from as int, r as int),
{
    let mut i: usize = to;
    while i > from && white(v[i - 1])
        invariant
            from <= i <= to <= v@.len(),
            trim_end_spec(v@.subrange(from as int, to as int)) == trim_end_spec(
                v@.subrange(from as int, i as int),
            ),
        decreases i,
    {
        assert(v@.subrange(from as int, i as int).drop_last() =~= v@.subrange(
            from as int,
            i as int - 1,
        ));
        i -= 1;
    }
    i
}

pub fn trim_start(s: &str) -> (r: String)
    ensures
        r@ == trim_start_spec(s@),
{
    let v = chars_of(s);
    let a: usize = white_end(&v, 0, v.len());
    assert(v@.subrange(0, v@.len() as int) =~= s@);
    string_of(&v, a, v.len())
}

pub fn trim_end(s: &str) -> (r: String)
    ensures
        r@ == trim_end_spec(s@),
{
    let v = chars_of(s);
    let b: usize = white_start(&v, 0, v.len());
    assert(v@.subrange(0, v@.len() as int) =~= s@);
    string_of(&v, 0, b)
}

pub fn trim(s: &str) -> (r: String)
    ensures
        r@ == trim_spec(s@),
{
    let v = chars_of(s);
    let a: usize = white_end(&v, 0, v.len());
    assert(v@.subrange(0, v@.len() as int) =~= s@);
    let b: usize = white_start(&v, a, v.len());
    string_of(&v, a, b)
}

/// `str::trim_start_matches` with one character.
pub fn strip_leading(s: &str, c: char) -> (r: String)
    ensures
        r@ == strip_leading_spec(s@, c),
{
    let v = chars_of(s);
    let mut i: usize = 0;
    assert(v@.subrange(0, v@.len() as int) =~= s@);
    while i < v.len() && v[i] == c
        invariant
            i <= v@.len(),
            strip_leading_spec(s@, c) == strip_leading_spec(v@.subrange(i as int, v@.len() as int), c),
        decreases v@.len() - i,
    {
        assert(v@.subrange(i as int, v@.len() as int).drop_first() =~= v@.subrange(
            i as int + 1,
            v@.len() as int,
        ));
        i += 1;
    }
    string_of(&v, i, v.len())
}

/// `str::trim_end_matches` with one character.
pub fn strip_trailing(s: &str, c: char) -> (r: String)
    ensures
        r@ == strip_trailing_spec(s@, c),
{
    let v = chars_of(s);
    let mut i: usize = v.len();
    assert(v@.subrange(0, v@.len() as int) =~= s@);
    while i > 0 && v[i - 1] == c
        invariant
            i <= v@.len(),
            strip_trailing_spec(s@, c) == strip_trailing_spec(v@.subrange(0, i as int), c),
        decreases i,
    {
        assert(v@.subrange(0, i as int).drop_last() =~= v@.subrange(0, i as int - 1));
        i -= 1;
    }
    string_of(&v, 0, i)
}

/// A text that `trim` leaves does not begin or end with white space, and
/// trimming it once more changes nothing.
pub proof fn trim_is_stable(s: Seq<char>)
    ensures
        trim_spec(trim_spec(s)) == trim_spec(s),
        trim_spec(s).len() > 0 ==> !is_white(trim_spec(s)[0]) && !is_white(trim_spec(s).last()),
{
    let t = trim_start_spec(s);
    lemma_trim_start_head(s);
    lemma_trim_end_prefix(t);
    let u = trim_end_spec(t);
    if u.len() > 0 {
        assert(u[0] == t[0]);
    }
    assert(trim_start_spec(u) == u);
}

proof fn lemma_trim_start_head(s: Seq<char>)
    ensures
        trim_start_spec(s).len() > 0 ==> !is_white(trim_start_spec(s)[0]),
    decreases s.len(),
{
    if s.len() > 0 && is_white(s[0]) {
        lemma_trim_start_head(s.drop_first());
    }
}

proof fn lemma_trim_end_prefix(s: Seq<char>)
    ensures
        trim_end_spec(s).len() <= s.len(),
        trim_end_spec(s) == s.take(trim_end_spec(s).len() as int),
        trim_end_spec(s).len() > 0 ==> !is_white(trim_end_spec(s).last()),
    decreases s.len(),
{
    if s.len() > 0 && is_white(s.last()) {
        lemma_trim_end_prefix(s.drop_last());
        let n = trim_end_spec(s).len() as int;
        assert(s.drop_last().take(n) =~= s.take(n));
    } else {
        assert(s.take(s.len() as int) =~= s);
    }
}

/// `trim` takes white space away and nothing else: what it leaves stands in the
/// text from the first bound to the second, and all around it is white space.
pub proof fn trim_bounds(s: Seq<char>) -> (r: (int, int))
    ensures
        0 <= r.0 <= r.1 <= s.len(),
        trim_spec(s) == s.subrange(r.0, r.1),
        forall|k: int| 0 <= k < r.0 ==> is_white(#[trigger] s[k]),
        forall|k: int| r.1 <= k < s.len() ==> is_white(#[trigger] s[k]),
{
    let t = trim_start_spec(s);
    lemma_trim_start_white(s);
    lemma_trim_end_white(t);
    let from = s.len() - t.len();
    let to = from + trim_end_spec(t).len();
    assert(trim_end_spec(t) =~= s.subrange(from, to));
    assert forall|k: int| to <= k < s.len() implies is_white(#[trigger] s[k]) by {
        assert(t[k - from] == s[k]);
    }
    (from, to)
}

proof fn lemma_trim_start_white(s: Seq<char>)
    ensures
        trim_start_spec(s).len() <= s.len(),
        trim_start_spec(s) == s.skip(s.len() - trim_start_spec(s).len()),
        forall|k: int|
            0 <= k < s.len() - trim_start_spec(s).len() ==> is_white(#[trigger] s[k]),
    decreases s.len(),
{
    if s.len() > 0 && is_white(s[0]) {
        let d = s.drop_first();
        lemma_trim_start_white(d);
        let n = s.len() - trim_start_spec(s).len();
        assert(d.skip(n - 1) =~= s.skip(n));
        assert forall|k: int| 0 <= k < n implies is_white(#[trigger] s[k]) by {
            if k > 0 {
                assert(d[k - 1] == s[k]);
            }
        }
    } else {
        assert(s.skip(0) =~= s);
    }
}

proof fn lemma_trim_end_white(s: Seq<char>)
    ensures
        trim_end_spec(s).len() <= s.len(),
        trim_end_spec(s) == s.take(trim_end_spec(s).len() as int),
        forall|k: int| trim_end_spec(s).len() <= k < s.len() ==> is_white(#[trigger] s[k]),
    decreases s.len(),
{
    if s.len() > 0 && is_white(s.last()) {
        let d = s.drop_last();
        lemma_trim_end_white(d);
        let n = trim_end_spec(s).len() as int;
        assert(d.take(n) =~= s.take(n));
        assert forall|k: int| n <= k < s.len() implies is_white(#[trigger] s[k]) by {
            if k < d.len() {
                assert(d[k] == s[k]);
            }
        }
    } else {
        assert(s.take(s.len() as int) =~= s);
    }
}

proof fn lemma_trim_start_behind(s: Seq<char>, a: int)
    requires
        0 <= a <= s.len(),
        forall|k: int| 0 <= k < a ==> is_white(#[trigger] s[k]),
    ensures
        trim_start_spec(s) == trim_start_spec(s.skip(a)),
    decreases a,
{
    if a == 0 {
        assert(s.skip(0) =~= s);
    } else {
        let d = s.drop_first();
        assert(is_white(s[0]));
        assert forall|k: int| 0 <= k < a - 1 implies is_white(#[trigger] d[k]) by {
            assert(is_white(s[k + 1]));
        }
        lemma_trim_start_behind(d, a - 1);
        assert(d.skip(a - 1) =~= s.skip(a));
    }
}

proof fn lemma_trim_before(s: Seq<char>, b: int)
    requires
        0 <= b <= s.len(),
        forall|k: int| b <= k < s.len() ==> is_white(#[trigger] s[k]),
    ensures
        trim_spec(s) == trim_spec(s.take(b)),
    decreases s.len(),
{
    if b == s.len() {
        assert(s.take(b) =~= s);
    } else {
        let d = s.drop_last();
        assert(is_white(s[s.len() - 1]));
        assert forall|k: int| b <= k < d.len() implies is_white(#[trigger] d[k]) by {
            assert(is_white(s[k]));
        }
        lemma_trim_before(d, b);
        assert(d.take(b) =~= s.take(b));
        lemma_trim_start_push(d, s.last());
        assert(d.push(s.last()) =~= s);
        let t = trim_start_spec(d);
        if trim_start_spec(s).len() > 0 {
            assert(trim_start_spec(s).drop_last() =~= t);
        }
    }
}

proof fn lemma_trim_start_push(s: Seq<char>, c: char)
    requires
        is_white(c),
    ensures
        trim_start_spec(s.push(c)) == (if trim_start_spec(s).len() == 0 {
            Seq::empty()
        } else {
            trim_start_spec(s).push(c)
        }),
    decreases s.len(),
{
    let p = s.push(c);
    if s.len() == 0 {
        assert(p.drop_first() =~= Seq::empty());
        assert(trim_start_spec(p.drop_first()) =~= Seq::empty());
    } else if is_white(s[0]) {
        assert(p.drop_first() =~= s.drop_first().push(c));
        lemma_trim_start_push(s.drop_first(), c);
    }
}

/// White space around a text does not change what `trim` leaves of it.
pub proof fn trim_of_padded(s: Seq<char>, a: int, b: int)
    requires
        0 <= a <= b <= s.len(),
        forall|k: int| 0 <= k < a ==> is_white(#[trigger] s[k]),
        forall|k: int| b <= k < s.len() ==> is_white(#[trigger] s[k]),
    ensures
        trim_spec(s) == trim_spec(s.subrange(a, b)),
{
    lemma_trim_start_behind(s, a);
    let t = s.skip(a);
    assert(trim_spec(s) == trim_spec(t));
    assert forall|k: int| b - a <= k < t.len() implies is_white(#[trigger] t[k]) by {
        assert(is_white(s[k + a]));
    }
    lemma_trim_before(t, b - a);
    assert(t.take(b - a) =~= s.subrange(a, b));
}

/// What is stripped from an end of a text is the given character, as often as it
/// stands there, and nothing else.
pub proof fn stripping_is_exact(s: Seq<char>, c: char)
    ensures
        ({
            let t = strip_trailing_spec(s, c);
            &&& t.is_prefix_of(s)
            &&& t.len() == 0 || t.last() != c
            &&& forall|k: int| t.len() <= k < s.len() ==> s[k] == c
        }),
        ({
            let t = strip_leading_spec(s, c);
            &&& t.is_suffix_of(s)
            &&& t.len() == 0 || t[0] != c
            &&& forall|k: int| 0 <= k < s.len() - t.len() ==> s[k] == c
        }),
    decreases s.len(),
{
    assert(s =~= s.subrange(0, s.len() as int));
    if s.len() > 0 && s.last() == c {
        let d = s.drop_last();
        stripping_is_exact(d, c);
        let t = strip_trailing_spec(s, c);
        assert(t =~= s.subrange(0, t.len() as int));
        assert forall|k: int| t.len() <= k < s.len() implies s[k] == c by {
            if k < d.len() {
                assert(d[k] == s[k]);
            }
        }
    }
    if s.len() > 0 && s[0] == c {
        let d = s.drop_first();
        stripping_is_exact(d, c);
        let t = strip_leading_spec(s, c);
        assert(t =~= s.subrange(s.len() - t.len(), s.len() as int));
        assert forall|k: int| 0 <= k < s.len() - t.len() implies s[k] == c by {
            if k > 0 {
                assert(d[k - 1] == s[k]);
            }
        }
    }
}

/// What is trimmed from one end of a text is white space, all that stands there, and
/// nothing else.
pub proof fn trimming_is_exact(s: Seq<char>)
    ensures
        ({
            let t = trim_start_spec(s);
            &&& t.is_suffix_of(s)
            &&& t.len() == 0 || !is_white(t[0])
            &&& forall|k: int| 0 <= k < s.len() - t.len() ==> is_white(#[trigger] s[k])
        }),
        ({
            let t = trim_end_spec(s);
            &&& t.is_prefix_of(s)
            &&& t.len() == 0 || !is_white(t.last())
            &&& forall|k: int| t.len() <= k < s.len() ==> is_white(#[trigger] s[k])
        }),
{
    lemma_trim_start_white(s);
    lemma_trim_start_head(s);
    lemma_trim_end_white(s);
    lemma_trim_end_prefix(s);
    let t = trim_start_spec(s);
    assert(t =~= s.subrange(s.len() - t.len(), s.len() as int));
    let u = trim_end_spec(s);
    assert(u =~= s.subrange(0, u.len() as int));
}

/// Of the ASCII characters the blank and those from the tabulator to the carriage
/// return are white space, and no others.
pub proof fn white_space_in_ascii(c: char)
    requires
        (c as int) < 128,
    ensures
        is_white(c) <==> c == ' ' || '\t' <= c <= '\r',
{
}

}  // verus!
