//! Byte-level text helpers shared by the file formats of the supervisor:
//! ASCII whitespace trimming and unsigned decimal numbers.
use vstd::prelude::*;

verus! {

/// ASCII whitespace as `char::is_whitespace` sees it: tab, line feed,
/// vertical tab, form feed, carriage return and space.
pub open spec fn is_space(b: u8) -> bool {
    (9 <= b && b <= 13) || b == 32
}

pub open spec fn is_digit(b: u8) -> bool {
    48 <= b && b <= 57
}

/// The text without its leading whitespace.
pub open spec fn trim_start(s: Seq<u8>) -> Seq<u8>
    decreases s.len(),
{
    if s.len() > 0 && is_space(s[0]) {
        trim_start(s.drop_first())
    } else {
        s
    }
}

/// The text without its trailing whitespace.
pub open spec fn trim_end(s: Seq<u8>) -> Seq<u8>
    decreases s.len(),
{
    if s.len() > 0 && is_space(s.last()) {
        trim_end(s.drop_last())
    } else {
        s
    }
}

/// The text without leading and trailing whitespace.
pub open spec fn trim(s: Seq<u8>) -> Seq<u8> {
    trim_end(trim_start(s))
}

pub open spec fn all_digits(s: Seq<u8>) -> bool {
    forall|i: int| 0 <= i < s.len() ==> is_digit(#[trigger] s[i])
}

/// The number that a run of decimal digits denotes.
pub open spec fn digits_value(s: Seq<u8>) -> nat
    decreases s.len(),
{
    if s.len() == 0 {
        0
    } else {
        digits_value(s.drop_last()) * 10 + (s.last() - 48) as nat
    }
}

/// An unsigned decimal number as std reads one: an optional `+`, then one or
/// more digits, denoting a value of at most `max`.
pub open spec fn parse_unsigned(s: Seq<u8>, max: nat) -> Option<nat> {
    let d = if s.len() > 0 && s[0] == 43u8 {
        s.drop_first()
    } else {
        s
    };
    if d.len() > 0 && all_digits(d) && digits_value(d) <= max {
        Some(digits_value(d))
    } else {
        None
    }
}

pub fn is_space_byte(b: u8) -> (r: bool)
    ensures
        r == is_space(b),
{
    (9 <= b && b <= 13) || b == 32
}

pub fn is_digit_byte(b: u8) -> (r: bool)
    ensures
        r == is_digit(b),
{
    48 <= b && b <= 57
}

proof fn lemma_trim_start_step(s: Seq<u8>, a: int)
    requires
        0 <= a < s.len(),
        is_space(s[a]),
    ensures
        trim_start(s.subrange(a, s.len() as int)) == trim_start(s.subrange(a + 1, s.len() as int)),
{
    assert(s.subrange(a, s.len() as int).drop_first() =~= s.subrange(a + 1, s.len() as int));
}

proof fn lemma_trim_end_step(s: Seq<u8>, a: int, b: int)
    requires
        0 <= a < b <= s.len(),
        is_space(s[b - 1]),
    ensures
        trim_end(s.subrange(a, b)) == trim_end(s.subrange(a, b - 1)),
{
    assert(s.subrange(a, b).drop_last() =~= s.subrange(a, b - 1));
}

/// Where the trimmed text starts and ends.
pub fn trim_bounds(s: &[u8]) -> (r: (usize, usize))
    ensures
        r.0 <= r.1 <= s@.len(),
        s@.subrange(r.0 as int, r.1 as int) == trim(s@),
{
    let mut a: usize = 0;
    assert(s@.subrange(0, s@.len() as int) =~= s@);
    while a < s.len() && is_space_byte(s[a])
        invariant
            a <= s@.len(),
            trim_start(s@) == trim_start(s@.subrange(a as int, s@.len() as int)),
        decreases s@.len() - a,
    {
        proof {
            lemma_trim_start_step(s@, a as int);
        }
        a = a + 1;
    }
    proof {
        let rest = s@.subrange(a as int, s@.len() as int);
        if rest.len() > 0 {
            assert(rest[0] == s@[a as int]);
        }
    }
    let mut b: usize = s.len();
    while b > a && is_space_byte(s[b - 1])
        invariant
            a <= b <= s@.len(),
            trim_start(s@) == s@.subrange(a as int, s@.len() as int),
            trim(s@) == trim_end(s@.subrange(a as int, b as int)),
        decreases b,
    {
        proof {
            lemma_trim_end_step(s@, a as int, b as int);
        }
        b = b - 1;
    }
    proof {
        let mid = s@.subrange(a as int, b as int);
        if mid.len() > 0 {
            assert(mid.last() == s@[b - 1]);
        }
    }
    (a, b)
}

pub proof fn lemma_digits_value_push(s: Seq<u8>, d: u8)
    ensures
        digits_value(s.push(d)) == digits_value(s) * 10 + (d - 48) as nat,
{
    assert(s.push(d).drop_last() =~= s);
}

/// A longer run of digits never denotes a smaller number.
pub proof fn lemma_digits_value_prefix(s: Seq<u8>, k: int)
    requires
        0 <= k <= s.len(),
        all_digits(s),
    ensures
        digits_value(s.subrange(0, k)) <= digits_value(s),
    decreases s.len() - k,
{
    if k < s.len() {
        lemma_digits_value_prefix(s, k + 1);
        let p = s.subrange(0, k);
        assert(s.subrange(0, k + 1) =~= p.push(s[k]));
        lemma_digits_value_push(p, s[k]);
        assert(is_digit(s[k]));
    } else {
        assert(s.subrange(0, k) =~= s);
    }
}

proof fn lemma_too_large(s: Seq<u8>, first: int, k: int, end: int, max: nat)
    requires
        0 <= first < k <= end <= s.len(),
        all_digits(s.subrange(first, k)),
        digits_value(s.subrange(first, k)) > max,
    ensures
        !(all_digits(s.subrange(first, end)) && digits_value(s.subrange(first, end)) <= max),
{
    let d = s.subrange(first, end);
    if all_digits(d) {
        lemma_digits_value_prefix(d, k - first);
        assert(d.subrange(0, k - first) =~= s.subrange(first, k));
    }
}

/// Reads the bytes `s[start..end]` as an unsigned decimal number of at most
/// `max`, the way std's `str::parse` reads an unsigned integer.
pub fn parse_unsigned_in(s: &[u8], start: usize, end: usize, max: u64) -> (r: Option<u64>)
    requires
        start <= end <= s@.len(),
    ensures
        match parse_unsigned(s@.subrange(start as int, end as int), max as nat) {
            Some(v) => r == Some(v as u64),
            None => r is None,
        },
{
    let ghost whole = s@.subrange(start as int, end as int);
    let mut i: usize = start;
    if start < end && s[start] == 43u8 {
        i = start + 1;
    }
    let ghost d = s@.subrange(i as int, end as int);
    proof {
        if start < end {
            assert(whole[0] == s@[start as int]);
        }
        if start < end && s@[start as int] == 43u8 {
            assert(whole.drop_first() =~= d);
        } else {
            assert(whole =~= d);
        }
        assert(parse_unsigned(whole, max as nat) == if d.len() > 0 && all_digits(d) && digits_value(d)
            <= max as nat {
            Some(digits_value(d))
        } else {
            None::<nat>
        });
    }
    if i == end {
        return None;
    }
    let first = i;
    let mut v: u64 = 0;
    while i < end
        invariant
            first <= i <= end <= s@.len(),
            first < end,
            d == s@.subrange(first as int, end as int),
            whole == s@.subrange(start as int, end as int),
            parse_unsigned(whole, max as nat) == if d.len() > 0 && all_digits(d) && digits_value(d)
                <= max as nat {
                Some(digits_value(d))
            } else {
                None::<nat>
            },
            all_digits(s@.subrange(first as int, i as int)),
            v as nat == digits_value(s@.subrange(first as int, i as int)),
            v <= max,
        decreases end - i,
    {
        let c = s[i];
        if !is_digit_byte(c) {
            proof {
                assert(d[i - first] == c);
            }
            return None;
        }
        proof {
            assert(s@.subrange(first as int, i + 1) =~= s@.subrange(first as int, i as int).push(c));
            lemma_digits_value_push(s@.subrange(first as int, i as int), c);
        }
        let next = match v.checked_mul(10) {
            Some(t) => t.checked_add((c - 48) as u64),
            None => None,
        };
        match next {
            Some(n) => {
                if n > max {
                    proof {
                        lemma_too_large(s@, first as int, i + 1, end as int, max as nat);
                    }
                    return None;
                }
                v = n;
            },
            None => {
                proof {
                    lemma_too_large(s@, first as int, i + 1, end as int, max as nat);
                }
                return None;
            },
        }
        i = i + 1;
    }
    assert(s@.subrange(first as int, end as int) =~= d);
    Some(v)
}

} // verus!
