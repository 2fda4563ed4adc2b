//! Time-to-live handling: the default, parsing a ttl given as text, and the
//! expiry instant a ttl gives.
use vstd::prelude::*;
use vstd::string::StrSliceExecFns;

verus! {

/// The ttl, in seconds, of an entry written without one.
pub const DEFAULT_TTL_SECS: u64 = 300;

/// Clock ticks (nanoseconds) in one second.
pub const NANOS_PER_SEC: u64 = 1_000_000_000;

/// The ttl in force: the given one, or the default when none is given.
pub open spec fn effective_ttl(ttl: Option<u64>) -> u64 {
    match ttl {
        Some(t) => t,
        None => DEFAULT_TTL_SECS,
    }
}

/// The instant at which an entry written at `now` with `ttl_secs` expires:
/// `now + ttl_secs` seconds, or the last representable instant if that lies
/// beyond it.
pub open spec fn expiry_time(now: u64, ttl_secs: u64) -> u64 {
    let t = now + ttl_secs * NANOS_PER_SEC;
    if t <= u64::MAX {
        t as u64
    } else {
        u64::MAX
    }
}

pub open spec fn is_digit(c: char) -> bool {
    '0' <= c && c <= '9'
}

/// The number written by a sequence of decimal digits (0 for none).
pub open spec fn digits_value(s: Seq<char>) -> int
    decreases s.len(),
{
    if s.len() == 0 {
        0
    } else {
        digits_value(s.drop_last()) * 10 + (s.last() as int - '0' as int)
    }
}

/// The text with one leading `+` sign, if any, taken off.
pub open spec fn unsigned_digits(s: Seq<char>) -> Seq<char> {
    if s.len() > 0 && s[0] == '+' {
        s.drop_first()
    } else {
        s
    }
}

/// The ttl that a text denotes: an optional `+` followed by one or more
/// decimal digits whose value fits in a `u64`; anything else denotes none.
pub open spec fn parsed_ttl(s: Seq<char>) -> Option<u64> {
    let d = unsigned_digits(s);
    if d.len() > 0 && (forall|i: int| 0 <= i < d.len() ==> is_digit(#[trigger] d[i]))
        && digits_value(d) <= u64::MAX {
        Some(digits_value(d) as u64)
    } else {
        None
    }
}

/// The ttl that an optional query text resolves to: its parsed value, or the
/// default when it is absent or does not parse.
pub open spec fn resolve_ttl(raw: Option<Seq<char>>) -> u64 {
    match raw {
        Some(s) => effective_ttl(parsed_ttl(s)),
        None => DEFAULT_TTL_SECS,
    }
}

proof fn lemma_digits_value_nonneg(s: Seq<char>)
    requires
        forall|i: int| 0 <= i < s.len() ==> is_digit(#[trigger] s[i]),
    ensures
        digits_value(s) >= 0,
    decreases s.len(),
{
    if s.len() > 0 {
        lemma_digits_value_nonneg(s.drop_last());
    }
}

/// Over decimal digits, a longer prefix never writes a smaller number.
proof fn lemma_digits_value_prefix(s: Seq<char>, k: int)
    requires
        0 <= k <= s.len(),
        forall|i: int| 0 <= i < s.len() ==> is_digit(#[trigger] s[i]),
    ensures
        digits_value(s.subrange(0, k)) <= digits_value(s),
    decreases s.len(),
{
    if k < s.len() {
        let p = s.drop_last();
        assert(p.subrange(0, k) =~= s.subrange(0, k));
        lemma_digits_value_prefix(p, k);
        lemma_digits_value_nonneg(p);
    } else {
        assert(s.subrange(0, k) =~= s);
    }
}

/// The ttl in force for an optional ttl.
pub fn ttl_or_default(ttl: Option<u64>) -> (r: u64)
    ensures
        r == effective_ttl(ttl),
{
    match ttl {
        Some(t) => t,
        None => DEFAULT_TTL_SECS,
    }
}

/// Parses a ttl written in decimal, with an optional leading `+`.
pub fn parse_ttl(text: &str) -> (r: Option<u64>)
    ensures
        r == parsed_ttl(text@),
{
    let ghost s = text@;
    let n = text.unicode_len();
    let mut i: usize = 0;
    if n > 0 && text.get_char(0) == '+' {
        i = 1;
    }
    let start = i;
    let ghost d = unsigned_digits(s);
    assert(d =~= s.subrange(start as int, n as int));
    if start == n {
        return None;
    }
    let mut value: u64 = 0;
    while i < n
        invariant
            start <= i <= n,
            n == s.len(),
            s == text@,
            d == s.subrange(start as int, n as int),
            d == unsigned_digits(s),
            forall|j: int| start <= j < i ==> is_digit(#[trigger] s[j]),
            value as int == digits_value(s.subrange(start as int, i as int)),
        decreases n - i,
    {
        let c = text.get_char(i);
        if !('0' <= c && c <= '9') {
            assert(d[i - start] == c);
            assert(!is_digit(d[i - start]));
            return None;
        }
        let digit = (c as u32 - '0' as u32) as u64;
        let ghost next = s.subrange(start as int, i + 1);
        assert(next.drop_last() =~= s.subrange(start as int, i as int));
        assert(next.last() == c);
        assert(digits_value(next) == value * 10 + digit);
        let grown = value.checked_mul(10);
        match grown {
            Some(g) => {
                match g.checked_add(digit) {
                    Some(v) => {
                        value = v;
                    },
                    None => {
                        proof {
                            if forall|j: int| 0 <= j < d.len() ==> is_digit(#[trigger] d[j]) {
                                assert(d.subrange(0, i + 1 - start) =~= next);
                                lemma_digits_value_prefix(d, i + 1 - start);
                            }
                        }
                        return None;
                    },
                }
            },
            None => {
                proof {
                    if forall|j: int| 0 <= j < d.len() ==> is_digit(#[trigger] d[j]) {
                        assert(d.subrange(0, i + 1 - start) =~= next);
                        lemma_digits_value_prefix(d, i + 1 - start);
                    }
                }
                return None;
            },
        }
        i = i + 1;
    }
    assert(s.subrange(start as int, i as int) =~= d);
    Some(value)
}

/// The ttl for an optional query text: its parsed value, or the default
/// when it is absent or not a valid ttl.
pub fn resolve_ttl_text(raw: Option<&str>) -> (r: u64)
    ensures
        r == resolve_ttl(
            match raw {
                Some(s) => Some(s@),
                None => None,
            },
        ),
{
    match raw {
        Some(s) => ttl_or_default(parse_ttl(s)),
        None => DEFAULT_TTL_SECS,
    }
}

/// The instant at which an entry written at `now` with `ttl_secs` expires.
pub fn expires_at(now: u64, ttl_secs: u64) -> (r: u64)
    ensures
        r == expiry_time(now, ttl_secs),
{
    match ttl_secs.checked_mul(NANOS_PER_SEC) {
        Some(span) => now.saturating_add(span),
        None => {
            assert(now + ttl_secs * NANOS_PER_SEC > u64::MAX) by (nonlinear_arith)
                requires ttl_secs * NANOS_PER_SEC > u64::MAX, now >= 0;
            u64::MAX
        },
    }
}

} // verus!
