//! Decimal digit fields: fixed-width unsigned numbers as they occur in
//! the basic and application headers, with zero-padded re-encoding.

use vstd::prelude::*;

verus! {

pub open spec fn is_digit(c: char) -> bool {
    '0' <= c && c <= '9'
}

pub open spec fn all_digits(s: Seq<char>) -> bool {
    forall|k: int| 0 <= k < s.len() ==> is_digit(s[k])
}

pub open spec fn digit_val(c: char) -> int {
    c as int - '0' as int
}

/// The number a digit string denotes, most significant digit first.
pub open spec fn digits_val(s: Seq<char>) -> int
    decreases s.len(),
{
    if s.len() == 0 {
        0
    } else {
        digits_val(s.drop_last()) * 10 + digit_val(s.last())
    }
}

pub open spec fn pow10(n: nat) -> int
    decreases n,
{
    if n == 0 {
        1
    } else {
        10 * pow10((n - 1) as nat)
    }
}

pub proof fn lemma_digits_val_bound(s: Seq<char>)
    requires
        all_digits(s),
    ensures
        0 <= digits_val(s) < pow10(s.len()),
    decreases s.len(),
{
    if s.len() > 0 {
        assert(all_digits(s.drop_last()));
        lemma_digits_val_bound(s.drop_last());
        assert(is_digit(s.last()));
    }
}

pub proof fn lemma_pow10_increases(a: nat, b: nat)
    requires
        a <= b,
    ensures
        pow10(a) <= pow10(b),
    decreases b,
{
    if a < b {
        lemma_pow10_increases(a, (b - 1) as nat);
        assert(pow10((b - 1) as nat) >= 1) by {
            lemma_pow10_increases(0, (b - 1) as nat);
        }
    }
}

/// The digit character for a value 0 through 9.
pub open spec fn digit_char(d: int) -> char {
    if d == 0 {
        '0'
    } else if d == 1 {
        '1'
    } else if d == 2 {
        '2'
    } else if d == 3 {
        '3'
    } else if d == 4 {
        '4'
    } else if d == 5 {
        '5'
    } else if d == 6 {
        '6'
    } else if d == 7 {
        '7'
    } else if d == 8 {
        '8'
    } else {
        '9'
    }
}

/// `n` written with exactly `w` digits, zero-padded, truncated to its `w`
/// low decimal digits when wider.
pub open spec fn padded_digits(n: int, w: nat) -> Seq<char>
    decreases w,
{
    if w == 0 {
        Seq::empty()
    } else {
        padded_digits(n / 10, (w - 1) as nat).push(digit_char(n % 10))
    }
}

pub proof fn lemma_padded_digits_len(n: int, w: nat)
    ensures
        padded_digits(n, w).len() == w,
        all_digits(padded_digits(n, w)),
    decreases w,
{
    if w > 0 {
        lemma_padded_digits_len(n / 10, (w - 1) as nat);
        let s = padded_digits(n, w);
        assert forall|k: int| 0 <= k < s.len() implies is_digit(s[k]) by {
            if k < w - 1 {
                assert(s[k] == padded_digits(n / 10, (w - 1) as nat)[k]);
            }
        }
    }
}

/// A digit string is reproduced exactly by re-encoding its value at its
/// own width.
pub proof fn lemma_padded_digits_round_trip(s: Seq<char>)
    requires
        all_digits(s),
    ensures
        padded_digits(digits_val(s), s.len()) == s,
    decreases s.len(),
{
    if s.len() > 0 {
        let front = s.drop_last();
        let c = s.last();
        assert(all_digits(front));
        lemma_padded_digits_round_trip(front);
        lemma_digits_val_bound(front);
        let n = digits_val(s);
        assert(n == digits_val(front) * 10 + digit_val(c));
        assert(0 <= digit_val(c) < 10);
        assert(n / 10 == digits_val(front)) by {
            assert(n == 10 * digits_val(front) + digit_val(c));
        }
        assert(n % 10 == digit_val(c)) by {
            assert(n == 10 * digits_val(front) + digit_val(c));
        }
        assert(digit_char(digit_val(c)) == c);
        assert(padded_digits(n, s.len()) =~= s);
    } else {
        assert(padded_digits(digits_val(s), 0) =~= s);
    }
}

/// Parses a digit-only field of at most 9 characters as a number; `None`
/// exactly when some character is not a decimal digit.
pub fn parse_u32_digits(v: &Vec<char>) -> (r: Option<u32>)
    requires
        v@.len() <= 9,
    ensures
        all_digits(v@) ==> (r matches Some(n) && n as int == digits_val(v@)),
        !all_digits(v@) ==> r is None,
{
    let n = v.len();
    let mut acc: u32 = 0;
    let mut i: usize = 0;
    while i < n
        invariant
            i <= n,
            n == v@.len() <= 9,
            all_digits(v@.subrange(0, i as int)),
            acc as int == digits_val(v@.subrange(0, i as int)),
        decreases n - i,
    {
        let c = v[i];
        if c < '0' || c > '9' {
            assert(!is_digit(v@[i as int]));
            return None;
        }
        let d = c as u32 - '0' as u32;
        proof {
            lemma_digits_val_bound(v@.subrange(0, i as int));
            lemma_pow10_increases(i as nat, 8);
            assert(pow10(8) == 100000000) by {
                reveal_with_fuel(pow10, 9);
            }
        }
        acc = acc * 10 + d;
        proof {
            let prev = v@.subrange(0, i as int);
            let cur = v@.subrange(0, i + 1 as int);
            assert(cur.drop_last() =~= prev);
            assert(cur.last() == v@[i as int]);
        }
        i = i + 1;
    }
    proof {
        assert(v@.subrange(0, n as int) =~= v@);
    }
    Some(acc)
}

fn digit_char_of(d: u32) -> (c: char)
    requires
        d < 10,
    ensures
        c == digit_char(d as int),
{
    if d == 0 {
        '0'
    } else if d == 1 {
        '1'
    } else if d == 2 {
        '2'
    } else if d == 3 {
        '3'
    } else if d == 4 {
        '4'
    } else if d == 5 {
        '5'
    } else if d == 6 {
        '6'
    } else if d == 7 {
        '7'
    } else if d == 8 {
        '8'
    } else {
        '9'
    }
}

/// `n` zero-padded to exactly `width` decimal digits.
pub fn u32_to_padded(n: u32, width: usize) -> (r: String)
    ensures
        r@ == padded_digits(n as int, width as nat),
    decreases width,
{
    if width == 0 {
        String::new()
    } else {
        let mut s = u32_to_padded(n / 10, width - 1);
        crate::strutil::push_char(&mut s, digit_char_of(n % 10));
        s
    }
}

} // verus!
