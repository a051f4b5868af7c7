//! Numbers in decimal notation.

use crate::text::chars_of;
use vstd::prelude::*;
use vstd::string::*;

verus! {

/// The character for one decimal digit.
pub open spec fn digit_char(d: nat) -> char {
    ((48 + d) as u8) as char
}

/// A number in decimal notation, without leading zeros.
pub open spec fn decimal_spec(n: nat) -> Seq<char>
    decreases n,
{
    if n < 10 {
        seq![digit_char(n)]
    } else {
        decimal_spec(n / 10).push(digit_char(n % 10))
    }
}

fn digit(d: u128) -> (r: char)
    requires
        d < 10,
    ensures
        r == digit_char(d as nat),
{
    let b: u8 = d as u8;
    (48u8 + b) as char
}

pub fn decimal(n: u128) -> (r: String)
    ensures
        r@ == decimal_spec(n as nat),
    decreases n,
{
    if n < 10 {
        let mut out = String::new();
        out.push(digit(n));
        assert(out@ =~= seq![digit_char(n as nat)]);
        out
    } else {
        let mut out = decimal(n / 10);
        out.push(digit(n % 10));
        out
    }
}

/// An integer in decimal notation, with a minus sign where it is negative.
pub open spec fn signed_spec(n: int) -> Seq<char> {
    if n < 0 {
        seq!['-'] + decimal_spec((-n) as nat)
    } else {
        decimal_spec(n as nat)
    }
}

pub fn signed(n: i32) -> (r: String)
    ensures
        r@ == signed_spec(n as int),
{
    if n < 0 {
        let m: i64 = -(n as i64);
        let mut out = String::new();
        out.push('-');
        assert(out@ =~= seq!['-']);
        out.append(decimal(m as u128).as_str());
        out
    } else {
        decimal(n as u128)
    }
}

/// A number in at least two digits.
pub open spec fn two_digits_spec(n: nat) -> Seq<char> {
    if n < 10 {
        seq!['0', digit_char(n)]
    } else {
        decimal_spec(n)
    }
}

pub fn two_digits(n: u64) -> (r: String)
    ensures
        r@ == two_digits_spec(n as nat),
{
    if n < 10 {
        let mut out = String::new();
        out.push('0');
        out.push(digit(n as u128));
        assert(out@ =~= seq!['0', digit_char(n as nat)]);
        out
    } else {
        decimal(n as u128)
    }
}

pub open spec fn is_digit(c: char) -> bool {
    '0' <= c <= '9'
}

/// What a digit counts.
pub open spec fn digit_value(c: char) -> nat {
    (c as u32 - 48) as nat
}

/// The number that a sequence of digits denotes.
pub open spec fn digits_value(s: Seq<char>) -> nat
    decreases s.len(),
{
    if s.len() == 0 {
        0
    } else {
        digits_value(s.drop_last()) * 10 + digit_value(s.last())
    }
}

/// The digits of an unsigned literal: an optional plus sign is left out.
pub open spec fn unsigned_digits(s: Seq<char>) -> Seq<char> {
    if s.len() > 0 && s[0] == '+' {
        s.drop_first()
    } else {
        s
    }
}

/// The number that a text denotes as an unsigned literal: one or more digits,
/// with an optional plus sign in front.
pub open spec fn unsigned_spec(s: Seq<char>) -> Option<nat> {
    let d = unsigned_digits(s);
    if d.len() > 0 && (forall|k: int| 0 <= k < d.len() ==> is_digit(#[trigger] d[k])) {
        Some(digits_value(d))
    } else {
        None
    }
}

/// `usize::from_str`: `None` where the text is no unsigned literal or the number
/// does not fit.
pub fn parse_usize(s: &str) -> (r: Option<usize>)
    ensures
        r == (match unsigned_spec(s@) {
            Some(n) if n <= usize::MAX => Some(n as usize),
            _ => None::<usize>,
        }),
{
    let v = chars_of(s);
    let start: usize = if v.len() > 0 && v[0] == '+' {
        1
    } else {
        0
    };
    let ghost d = unsigned_digits(s@);
    assert(d =~= v@.subrange(start as int, v@.len() as int));
    if start == v.len() {
        return None;
    }
    let mut n: usize = 0;
    let mut i: usize = start;
    let mut fits = true;
    assert(d.take(0) =~= Seq::<char>::empty());
    while i < v.len()
        invariant
            start <= i <= v@.len(),
            v@ == s@,
            d == unsigned_digits(s@),
            d == v@.subrange(start as int, v@.len() as int),
            forall|k: int| 0 <= k < i - start ==> is_digit(#[trigger] d[k]),
            fits ==> n == digits_value(d.take(i - start)),
            !fits ==> digits_value(d.take(i - start)) > usize::MAX,
        decreases v@.len() - i,
    {
        let c = v[i];
        assert(c == d[i - start]);
        if !('0' <= c && c <= '9') {
            assert(!is_digit(d[i - start]));
            return None;
        }
        proof {
            let t = d.take(i - start + 1);
            assert(t.drop_last() =~= d.take(i - start));
            assert(t.last() == c);
        }
        if fits {
            let x: u32 = c as u32 - 48;
            match n.checked_mul(10) {
                Some(m) => match m.checked_add(x as usize) {
                    Some(k) => {
                        n = k;
                    },
                    None => {
                        fits = false;
                    },
                },
                None => {
                    fits = false;
                },
            }
        }
        i += 1;
    }
    assert(d.take(d.len() as int) =~= d);
    if fits {
        Some(n)
    } else {
        None
    }
}

/// A number written in decimal notation reads back as that number.
pub proof fn decimal_reads_back(n: nat)
    ensures
        unsigned_spec(decimal_spec(n)) == Some(n),
{
    lemma_decimal_digits(n);
    let s = decimal_spec(n);
    assert(is_digit(s[0]));
    assert(unsigned_digits(s) == s);
}

proof fn lemma_decimal_digits(n: nat)
    ensures
        decimal_spec(n).len() > 0,
        forall|k: int| 0 <= k < decimal_spec(n).len() ==> is_digit(#[trigger] decimal_spec(n)[k]),
        digits_value(decimal_spec(n)) == n,
    decreases n,
{
    let s = decimal_spec(n);
    if n < 10 {
        assert(s.drop_last() =~= Seq::<char>::empty());
        assert(digits_value(s.drop_last()) == 0);
    } else {
        lemma_decimal_digits(n / 10);
        assert(s.drop_last() =~= decimal_spec(n / 10));
    }
}

/// A number can be read off a text that goes on with something else than a digit:
/// two texts that begin with a number each are equal only if the numbers are, and
/// what follows them.
pub proof fn decimal_is_read_off(a: nat, b: nat, x: Seq<char>, y: Seq<char>)
    requires
        x.len() == 0 || !is_digit(x[0]),
        y.len() == 0 || !is_digit(y[0]),
        decimal_spec(a) + x == decimal_spec(b) + y,
    ensures
        a == b,
        x == y,
{
    lemma_decimal_digits(a);
    lemma_decimal_digits(b);
    let da = decimal_spec(a);
    let db = decimal_spec(b);
    let s = da + x;
    assert(s == db + y);
    if da.len() < db.len() {
        assert(s[da.len() as int] == db[da.len() as int]);
        assert(s[da.len() as int] == x[0]);
    } else if db.len() < da.len() {
        assert(s[db.len() as int] == da[db.len() as int]);
        assert(s[db.len() as int] == y[0]);
    } else {
        assert(da =~= s.take(da.len() as int));
        assert(db =~= s.take(da.len() as int));
        assert(x =~= s.skip(da.len() as int));
        assert(y =~= s.skip(da.len() as int));
    }
}

/// An integer can be read off in the same way.
pub proof fn signed_is_read_off(a: int, b: int, x: Seq<char>, y: Seq<char>)
    requires
        x.len() == 0 || !is_digit(x[0]),
        y.len() == 0 || !is_digit(y[0]),
        signed_spec(a) + x == signed_spec(b) + y,
    ensures
        a == b,
        x == y,
{
    let s = signed_spec(a) + x;
    lemma_decimal_digits(if a < 0 {
        (-a) as nat
    } else {
        a as nat
    });
    lemma_decimal_digits(if b < 0 {
        (-b) as nat
    } else {
        b as nat
    });
    if a < 0 {
        assert(s[0] == '-');
    } else {
        assert(s[0] == decimal_spec(a as nat)[0]);
    }
    if b < 0 {
        assert((signed_spec(b) + y)[0] == '-');
    } else {
        assert((signed_spec(b) + y)[0] == decimal_spec(b as nat)[0]);
    }
    if a < 0 {
        assert(s.skip(1) =~= decimal_spec((-a) as nat) + x);
        assert(s.skip(1) =~= decimal_spec((-b) as nat) + y);
        decimal_is_read_off((-a) as nat, (-b) as nat, x, y);
    } else {
        decimal_is_read_off(a as nat, b as nat, x, y);
    }
}

/// A number is written with digits alone, without a leading zero, and reads back
/// as that number; a negative one has a minus sign in front.
pub proof fn numbers_are_written_in_digits(n: nat, z: int)
    ensures
        decimal_spec(n).len() > 0,
        forall|k: int|
            0 <= k < decimal_spec(n).len() ==> '0' <= #[trigger] decimal_spec(n)[k] <= '9',
        decimal_spec(n).len() > 1 ==> decimal_spec(n)[0] != '0',
        digits_value(decimal_spec(n)) == n,
        z < 0 ==> signed_spec(z)[0] == '-' && digits_value(signed_spec(z).skip(1)) == -z,
        z >= 0 ==> digits_value(signed_spec(z)) == z,
    decreases n,
{
    lemma_decimal_digits(n);
    assert forall|k: int| 0 <= k < decimal_spec(n).len() implies '0' <= #[trigger] decimal_spec(
        n,
    )[k] <= '9' by {
        assert(is_digit(decimal_spec(n)[k]));
    }
    if n >= 10 {
        numbers_are_written_in_digits(n / 10, 0);
        assert(decimal_spec(n)[0] == decimal_spec(n / 10)[0]);
        if n / 10 < 10 {
            assert(decimal_spec(n / 10)[0] == digit_char(n / 10));
        } else {
            lemma_decimal_digits(n / 10 / 10);
        }
    }
    if z < 0 {
        lemma_decimal_digits((-z) as nat);
        assert(signed_spec(z).skip(1) =~= decimal_spec((-z) as nat));
    } else {
        lemma_decimal_digits(z as nat);
    }
}

/// Digits denote the number whose last digit they end with and whose tenfold part
/// the others denote.
pub proof fn digits_count_in_tens(s: Seq<char>, c: char)
    ensures
        digits_value(Seq::empty()) == 0,
        '0' <= c <= '9' ==> digits_value(s.push(c)) == 10 * digits_value(s) + (c as int - '0' as int),
{
    assert(s.push(c).drop_last() =~= s);
}

}  // verus!
