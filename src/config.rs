use vstd::prelude::*;

verus! {

/// Seconds an answer stays fresh where nothing else is configured: one day.
pub const DEFAULT_TTL: u32 = 24 * 60 * 60;

/// Process settings: how long answers stay fresh, and the port to serve on.
#[derive(Clone, Debug)]
pub struct Config {
    pub cache_ttl: u32,
    pub port: String,
}

pub open spec fn is_digit(c: char) -> bool {
    '0' <= c && c <= '9'
}

/// The number that a sequence of decimal digits denotes.
pub open spec fn digits_value(s: Seq<char>) -> nat
    decreases s.len(),
{
    if s.len() == 0 {
        0
    } else {
        digits_value(s.drop_last()) * 10 + (s.last() as nat - '0' as nat) as nat
    }
}

/// The digits of an unsigned decimal: the text without one leading `+`.
pub open spec fn unsigned_digits(s: Seq<char>) -> Seq<char> {
    if s.len() > 0 && s[0] == '+' {
        s.drop_first()
    } else {
        s
    }
}

/// What reading `s` as a `u32` gives: an optional `+`, then one or more
/// decimal digits denoting a number that fits in 32 bits.
pub open spec fn u32_of_text(s: Seq<char>) -> Option<u32> {
    let d = unsigned_digits(s);
    if d.len() > 0 && (forall|i: int| 0 <= i < d.len() ==> is_digit(#[trigger] d[i])) && digits_value(d)
        <= u32::MAX {
        Some(digits_value(d) as u32)
    } else {
        None
    }
}

proof fn lemma_digits_grow(d: Seq<char>, n: int)
    requires
        0 <= n <= d.len(),
        forall|i: int| 0 <= i < d.len() ==> is_digit(#[trigger] d[i]),
    ensures
        digits_value(d.subrange(0, n)) <= digits_value(d),
    decreases d.len() - n,
{
    if n < d.len() {
        lemma_digits_grow(d, n + 1);
        let p = d.subrange(0, n + 1);
        assert(p.drop_last() =~= d.subrange(0, n));
        assert(is_digit(d[n]));
    } else {
        assert(d.subrange(0, n) =~= d);
    }
}

/// Reads `s` as a `u32` the way `str::parse` does.
pub fn parse_u32(s: &str) -> (r: Option<u32>)
    ensures
        r == u32_of_text(s@),
{
    let len = s.unicode_len();
    let mut start: usize = 0;
    if len > 0 && s.get_char(0) == '+' {
        start = 1;
    }
    let ghost d = unsigned_digits(s@);
    assert(d =~= s@.subrange(start as int, len as int));
    if start == len {
        return None;
    }
    let mut value: u64 = 0;
    let mut i: usize = start;
    while i < len
        invariant
            start <= i <= len,
            len == s@.len(),
            d == s@.subrange(start as int, len as int),
            d == unsigned_digits(s@),
            forall|j: int| 0 <= j < i - start ==> is_digit(#[trigger] d[j]),
            value == digits_value(d.subrange(0, i - start)),
            value <= u32::MAX,
        decreases len - i,
    {
        let c = s.get_char(i);
        if c < '0' || c > '9' {
            assert(!is_digit(d[i - start]));
            return None;
        }
        proof {
            let p = d.subrange(0, i - start + 1);
            assert(p.drop_last() =~= d.subrange(0, i - start));
            assert(p.last() == c);
        }
        value = value * 10 + (c as u64 - '0' as u64);
        if value > 0xffff_ffff {
            proof {
                if forall|j: int| 0 <= j < d.len() ==> is_digit(#[trigger] d[j]) {
                    lemma_digits_grow(d, i - start + 1);
                }
            }
            return None;
        }
        i = i + 1;
    }
    assert(d.subrange(0, len - start) =~= d);
    Some(value as u32)
}

impl Config {
    /// Settings from the values of the two settings' variables, where they
    /// are set: a time to live that does not read as a `u32` falls back to
    /// one day, a missing port to 8080.
    pub fn from_vars(cache_ttl: Option<&str>, port: Option<String>) -> (r: Config)
        ensures
            r.cache_ttl == match cache_ttl {
                Some(t) => match u32_of_text(t@) {
                    Some(n) => n,
                    None => DEFAULT_TTL,
                },
                None => DEFAULT_TTL,
            },
            r.port@ == match port {
                Some(p) => p@,
                None => "8080"@,
            },
    {
        let ttl = match cache_ttl {
            Some(t) => match parse_u32(t) {
                Some(n) => n,
                None => DEFAULT_TTL,
            },
            None => DEFAULT_TTL,
        };
        let port = match port {
            Some(p) => p,
            None => String::from_str("8080"),
        };
        Config { cache_ttl: ttl, port }
    }
}

} // verus!
