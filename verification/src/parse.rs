use vstd::prelude::*;
use vstd::string::StrSliceExecFns;

verus! {

/// Whether `c` is a decimal digit.
pub open spec fn is_digit(c: char) -> bool {
    '0' as u32 <= c as u32 && c as u32 <= '9' as u32
}

/// The numeric value of a digit character.
pub open spec fn digit_value(c: char) -> int {
    c as u32 - '0' as u32
}

/// Whether every character of `s` is a decimal digit.
pub open spec fn all_digits(s: Seq<char>) -> bool {
    forall|m: int| 0 <= m < s.len() ==> is_digit(s[m])
}

/// The value of a digit string read in base ten: `"007"` gives 7.
pub open spec fn digits_value(s: Seq<char>) -> int
    decreases s.len(),
{
    if s.len() == 0 {
        0
    } else {
        digits_value(s.drop_last()) * 10 + digit_value(s.last())
    }
}

/// `s` without one optional leading plus sign.
pub open spec fn strip_plus(s: Seq<char>) -> Seq<char> {
    if s.len() > 0 && s[0] == '+' {
        s.drop_first()
    } else {
        s
    }
}

/// The index of the first `'.'` in `s`, or `s.len()` if there is none.
pub open spec fn dot_index(s: Seq<char>) -> int
    decreases s.len(),
{
    if s.len() == 0 {
        0
    } else if s[0] == '.' {
        0
    } else {
        1 + dot_index(s.drop_first())
    }
}

/// Ten to the power `n`.
pub open spec fn pow10(n: nat) -> int
    decreases n,
{
    if n == 0 {
        1
    } else {
        10 * pow10((n - 1) as nat)
    }
}

/// The cent value of up to two fraction digits: `"5"` gives 50, `"50"` gives 50.
pub open spec fn frac_cents(f: Seq<char>) -> int {
    if f.len() == 0 {
        0
    } else if f.len() == 1 {
        digit_value(f[0]) * 10
    } else {
        digit_value(f[0]) * 10 + digit_value(f[1])
    }
}

/// The grammar of a price: an optional `+`, one to fifteen integer
/// digits, then optionally a dot and at most two fraction digits.
pub open spec fn price_ok(s: Seq<char>) -> bool {
    let t = strip_plus(s);
    let d = dot_index(t);
    &&& 1 <= d <= 15
    &&& all_digits(t.subrange(0, d))
    &&& (d == t.len() || (t.len() - d - 1 <= 2 && all_digits(
        t.subrange(d + 1, t.len() as int),
    )))
}

/// The cent value of a well-formed price string.
pub open spec fn price_value(s: Seq<char>) -> int {
    let t = strip_plus(s);
    let d = dot_index(t);
    let frac = if d == t.len() {
        Seq::<char>::empty()
    } else {
        t.subrange(d + 1, t.len() as int)
    };
    digits_value(t.subrange(0, d)) * 100 + frac_cents(frac)
}

/// What `parse_price` returns: the cent amount of a well-formed price
/// string, `None` otherwise.
pub open spec fn parse_price_spec(s: Seq<char>) -> Option<u64> {
    if price_ok(s) {
        Some(price_value(s) as u64)
    } else {
        None
    }
}

/// The grammar of a menu choice: an optional `+` and one to nine digits.
pub open spec fn choice_ok(s: Seq<char>) -> bool {
    let t = strip_plus(s);
    1 <= t.len() <= 9 && all_digits(t)
}

/// What `parse_choice` returns.
pub open spec fn parse_choice_spec(s: Seq<char>) -> Option<u32> {
    if choice_ok(s) {
        Some(digits_value(strip_plus(s)) as u32)
    } else {
        None
    }
}

/// Whether `s` is the terminator word `done`, compared without regard
/// to ASCII case.
pub open spec fn is_sentinel_spec(s: Seq<char>) -> bool {
    &&& s.len() == 4
    &&& (s[0] == 'd' || s[0] == 'D')
    &&& (s[1] == 'o' || s[1] == 'O')
    &&& (s[2] == 'n' || s[2] == 'N')
    &&& (s[3] == 'e' || s[3] == 'E')
}

proof fn lemma_pow10_pos(a: nat)
    ensures
        pow10(a) >= 1,
    decreases a,
{
    if a > 0 {
        lemma_pow10_pos((a - 1) as nat);
    }
}

proof fn lemma_pow10_monotone(a: nat, b: nat)
    requires
        a <= b,
    ensures
        1 <= pow10(a) <= pow10(b),
    decreases b,
{
    lemma_pow10_pos(a);
    if a < b {
        lemma_pow10_monotone(a, (b - 1) as nat);
    }
}

proof fn lemma_digits_value_bound(s: Seq<char>)
    requires
        all_digits(s),
    ensures
        0 <= digits_value(s) < pow10(s.len()),
    decreases s.len(),
{
    if s.len() > 0 {
        assert(forall|m: int| 0 <= m < s.drop_last().len() ==> is_digit(#[trigger] s.drop_last()[m]));
        lemma_digits_value_bound(s.drop_last());
        assert(is_digit(s.last()));
    }
}

proof fn lemma_dot_index_bounds(s: Seq<char>)
    ensures
        0 <= dot_index(s) <= s.len(),
    decreases s.len(),
{
    if s.len() > 0 && s[0] != '.' {
        lemma_dot_index_bounds(s.drop_first());
    }
}

proof fn lemma_dot_index_lower(s: Seq<char>, j: int)
    requires
        0 <= j <= s.len(),
        forall|m: int| 0 <= m < j ==> s[m] != '.',
    ensures
        dot_index(s) >= j,
    decreases s.len(),
{
    lemma_dot_index_bounds(s);
    if j > 0 && s.len() > 0 {
        assert(s[0] != '.');
        assert(forall|m: int| 0 <= m < j - 1 ==> #[trigger] s.drop_first()[m] != '.');
        lemma_dot_index_lower(s.drop_first(), j - 1);
    }
}

proof fn lemma_dot_index_min(s: Seq<char>, j: int)
    requires
        0 <= j < s.len(),
        s[j] == '.',
    ensures
        dot_index(s) <= j,
    decreases s.len(),
{
    if s.len() > 0 && s[0] != '.' {
        assert(j != 0);
        assert(s.drop_first()[j - 1] == s[j]);
        lemma_dot_index_min(s.drop_first(), j - 1);
    }
}

proof fn lemma_dot_index_at(s: Seq<char>, j: int)
    requires
        0 <= j <= s.len(),
        forall|m: int| 0 <= m < j ==> s[m] != '.',
        j < s.len() ==> s[j] == '.',
    ensures
        dot_index(s) == j,
{
    lemma_dot_index_bounds(s);
    lemma_dot_index_lower(s, j);
    if j < s.len() {
        lemma_dot_index_min(s, j);
    }
}

/// Whether `c` is a decimal digit.
fn char_digit(c: char) -> (r: bool)
    ensures
        r == is_digit(c),
{
    let u = c as u32;
    u >= '0' as u32 && u <= '9' as u32
}

/// The numeric value of a digit character.
fn digit_of(c: char) -> (r: u64)
    requires
        is_digit(c),
    ensures
        r as int == digit_value(c),
        r < 10,
{
    (c as u32 - '0' as u32) as u64
}

/// Parses a price in dollars into cents: `"10.5"` gives `Some(1050)`.
/// Accepts an optional leading `+`, one to fifteen integer digits and
/// up to two fraction digits; anything else gives `None`.
#[verifier::rlimit(50)]
pub fn parse_price(s: &str) -> (r: Option<u64>)
    ensures
        r == parse_price_spec(s@),
{
    let n = s.unicode_len();
    let plus = n > 0 && s.get_char(0) == '+';
    let start: usize = if plus {
        1
    } else {
        0
    };
    let ghost t = strip_plus(s@);
    proof {
        assert(t =~= s@.subrange(start as int, n as int));
    }
    let mut i: usize = start;
    let mut whole: u64 = 0;
    while i < n && char_digit(s.get_char(i))
        invariant
            n == s@.len(),
            start <= i <= n,
            t == strip_plus(s@),
            t =~= s@.subrange(start as int, n as int),
            i - start <= 15,
            forall|m: int| 0 <= m < i - start ==> is_digit(#[trigger] t[m]),
            whole == digits_value(t.subrange(0, i - start)),
        decreases n - i,
    {
        if i - start == 15 {
            // a sixteenth integer digit: the first dot, if any, comes later
            proof {
                assert(t[15] == s@[i as int]);
                assert forall|m: int| 0 <= m < 16 implies t[m] != '.' by {
                    assert(is_digit(t[m]));
                }
                lemma_dot_index_lower(t, 16);
            }
            return None;
        }
        let c = s.get_char(i);
        let d = digit_of(c);
        proof {
            lemma_digits_value_bound(t.subrange(0, i - start));
            lemma_pow10_monotone((i - start) as nat, 14);
            assert(pow10(14) == 100000000000000) by {
                reveal_with_fuel(pow10, 15);
            }
            assert(t.subrange(0, i + 1 - start) =~= t.subrange(0, i - start).push(t[i - start]));
            assert(t.subrange(0, i + 1 - start).drop_last() =~= t.subrange(0, i - start));
        }
        whole = whole * 10 + d;
        i = i + 1;
    }
    proof {
        lemma_digits_value_bound(t.subrange(0, i - start));
        lemma_pow10_monotone((i - start) as nat, 15);
        assert(pow10(15) == 1000000000000000) by {
            reveal_with_fuel(pow10, 16);
        }
    }
    if i == n {
        // no dot: the whole string is the integer part
        if i == start {
            return None;
        }
        proof {
            lemma_dot_index_at(t, t.len() as int);
            assert(t.subrange(0, t.len() as int) =~= t);
        }
        return Some(whole * 100);
    }
    let c = s.get_char(i);
    let dpos = i - start;
    if c != '.' {
        // neither a digit nor a dot at `dpos`: no well-formed reading
        proof {
            lemma_dot_index_lower(t, dpos + 1);
            lemma_dot_index_bounds(t);
            assert(!price_ok(s@)) by {
                let d = dot_index(t);
                if 1 <= d <= 15 {
                    assert(t.subrange(0, d)[dpos as int] == t[dpos as int]);
                    assert(!is_digit(t[dpos as int]));
                }
            }
        }
        return None;
    }
    proof {
        lemma_dot_index_at(t, dpos as int);
    }
    if dpos == 0 {
        return None;
    }
    let mut j = i + 1;
    let mut fd0: u64 = 0;
    let mut fd1: u64 = 0;
    while j < n
        invariant
            n == s@.len(),
            start <= i < n,
            i - start == dpos < 16,
            1 <= dpos,
            t == strip_plus(s@),
            t =~= s@.subrange(start as int, n as int),
            dot_index(t) == dpos,
            i + 1 <= j <= n,
            j - i - 1 <= 2,
            forall|m: int| 0 <= m < dpos ==> is_digit(#[trigger] t[m]),
            forall|m: int| dpos + 1 <= m < j - start ==> is_digit(#[trigger] t[m]),
            j - start > dpos + 1 ==> fd0 == digit_value(t[dpos + 1]),
            j - start > dpos + 2 ==> fd1 == digit_value(t[dpos + 2]),
            fd0 < 10,
            fd1 < 10,
            whole == digits_value(t.subrange(0, dpos as int)),
        decreases n - j,
    {
        let c2 = s.get_char(j);
        if !char_digit(c2) {
            // a stray character among the fraction digits
            proof {
                assert(t[j - start] == s@[j as int]);
                assert(t.subrange(dpos + 1, t.len() as int)[j - start - dpos - 1] == t[j - start]);
            }
            return None;
        }
        if j - i - 1 == 2 {
            // a third fraction digit
            return None;
        }
        let d2 = digit_of(c2);
        if j == i + 1 {
            fd0 = d2;
        } else {
            fd1 = d2;
        }
        proof {
            assert(t[j - start] == s@[j as int]);
        }
        j = j + 1;
    }
    let fcount = n - i - 1;
    let frac: u64 = if fcount == 0 {
        0
    } else if fcount == 1 {
        fd0 * 10
    } else {
        fd0 * 10 + fd1
    };
    proof {
        lemma_digits_value_bound(t.subrange(0, dpos as int));
        lemma_pow10_monotone(dpos as nat, 15);
        assert(pow10(15) == 1000000000000000) by {
            reveal_with_fuel(pow10, 16);
        }
        let f = t.subrange(dpos + 1, t.len() as int);
        assert(f.len() == fcount);
        assert(all_digits(f)) by {
            assert(forall|m: int| 0 <= m < f.len() ==> #[trigger] f[m] == t[dpos + 1 + m]);
        }
        if fcount >= 1 {
            assert(f[0] == t[dpos + 1]);
        }
        if fcount >= 2 {
            assert(f[1] == t[dpos + 2]);
        }
        assert(price_ok(s@));
        assert(frac == frac_cents(f));
    }
    Some(whole * 100 + frac)
}

/// Parses a menu choice: an optional leading `+` and one to nine
/// digits; anything else gives `None`.
pub fn parse_choice(s: &str) -> (r: Option<u32>)
    ensures
        r == parse_choice_spec(s@),
{
    let n = s.unicode_len();
    let plus = n > 0 && s.get_char(0) == '+';
    let start: usize = if plus {
        1
    } else {
        0
    };
    let ghost t = strip_plus(s@);
    proof {
        assert(t =~= s@.subrange(start as int, n as int));
    }
    let mut i: usize = start;
    let mut value: u32 = 0;
    while i < n
        invariant
            n == s@.len(),
            start <= i <= n,
            t == strip_plus(s@),
            t =~= s@.subrange(start as int, n as int),
            i - start <= 9,
            forall|m: int| 0 <= m < i - start ==> is_digit(#[trigger] t[m]),
            value == digits_value(t.subrange(0, i - start)),
        decreases n - i,
    {
        let c = s.get_char(i);
        if !char_digit(c) {
            proof {
                assert(t[i - start] == s@[i as int]);
                assert(!is_digit(t[i - start]));
                assert(!all_digits(t));
                assert(!choice_ok(s@));
            }
            return None;
        }
        if i - start == 9 {
            proof {
                assert(t.len() >= 10);
                assert(!choice_ok(s@));
            }
            return None;
        }
        let d = digit_of(c);
        proof {
            lemma_digits_value_bound(t.subrange(0, i - start));
            lemma_pow10_monotone((i - start) as nat, 8);
            assert(pow10(8) == 100000000) by {
                reveal_with_fuel(pow10, 9);
            }
            assert(t.subrange(0, i + 1 - start) =~= t.subrange(0, i - start).push(t[i - start]));
            assert(t.subrange(0, i + 1 - start).drop_last() =~= t.subrange(0, i - start));
        }
        value = value * 10 + (d as u32);
        i = i + 1;
    }
    if i == start {
        return None;
    }
    proof {
        assert(t.subrange(0, t.len() as int) =~= t);
    }
    Some(value)
}

/// Whether the trimmed input line is the terminator word `done`,
/// compared without regard to ASCII case.
pub fn is_sentinel(s: &str) -> (r: bool)
    ensures
        r == is_sentinel_spec(s@),
{
    if s.unicode_len() != 4 {
        return false;
    }
    let c0 = s.get_char(0);
    let c1 = s.get_char(1);
    let c2 = s.get_char(2);
    let c3 = s.get_char(3);
    (c0 == 'd' || c0 == 'D') && (c1 == 'o' || c1 == 'O') && (c2 == 'n' || c2 == 'N') && (c3 == 'e'
        || c3 == 'E')
}

} // verus!
