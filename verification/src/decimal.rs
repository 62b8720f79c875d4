//! Decimal numerals on the wire.
//!
//! RESP writes lengths and integers as ASCII decimal. `spec_dec` gives the
//! canonical digits of a number; `spec_atoi_u64` gives the exact meaning of
//! the decimal reader used when decoding (an optional sign, then the longest
//! digit prefix, `None` on overflow or when nothing numeric is there).

use vstd::prelude::*;
use vstd::arithmetic::div_mod::lemma_fundamental_div_mod;
use vstd::string::StringSliceAdditionalSpecFns;

verus! {

pub open spec fn is_digit(b: u8) -> bool {
    48 <= b <= 57
}

/// Length of the longest all-digit prefix of `s`.
pub open spec fn digit_count(s: Seq<u8>) -> int
    decreases s.len(),
{
    if s.len() == 0 || !is_digit(s[0]) {
        0
    } else {
        1 + digit_count(s.subrange(1, s.len() as int))
    }
}

/// Value of an all-digit sequence, most significant digit first.
pub open spec fn digits_val(s: Seq<u8>) -> int
    decreases s.len(),
{
    if s.len() == 0 {
        0
    } else {
        digits_val(s.drop_last()) * 10 + s.last() - 48
    }
}

/// The decimal digits of `n`, most significant first.
pub open spec fn spec_dec(n: nat) -> Seq<u8>
    decreases n,
{
    if n < 10 {
        seq![(48 + n) as u8]
    } else {
        spec_dec(n / 10) + seq![(48 + n % 10) as u8]
    }
}

/// What the decoder's decimal reader yields on a line: an optional single
/// `+`/`-` sign, then the longest digit prefix; bytes after the digits are
/// ignored. `-` allows only the value zero; overflow yields `None`.
pub open spec fn spec_atoi_u64(s: Seq<u8>) -> Option<u64> {
    let signed = s.len() > 0 && (s[0] == 43u8 || s[0] == 45u8);
    let neg = s.len() > 0 && s[0] == 45u8;
    let rest = if signed {
        s.subrange(1, s.len() as int)
    } else {
        s
    };
    let k = digit_count(rest);
    if !signed && k == 0 {
        None
    } else {
        let v = digits_val(rest.subrange(0, k));
        if neg {
            if v == 0 {
                Some(0u64)
            } else {
                None
            }
        } else if v > u64::MAX {
            None
        } else {
            Some(v as u64)
        }
    }
}

pub proof fn lemma_digit_count_is(s: Seq<u8>, m: int)
    requires
        0 <= m <= s.len(),
        forall|j: int| 0 <= j < m ==> is_digit(s[j]),
        m == s.len() || !is_digit(s[m]),
    ensures
        digit_count(s) == m,
    decreases s.len(),
{
    if s.len() == 0 || !is_digit(s[0]) {
    } else {
        let t = s.subrange(1, s.len() as int);
        lemma_digit_count_is(t, m - 1);
    }
}

pub proof fn lemma_digit_count_bounds(s: Seq<u8>)
    ensures
        0 <= digit_count(s) <= s.len(),
        forall|j: int| 0 <= j < digit_count(s) ==> is_digit(s[j]),
    decreases s.len(),
{
    if s.len() == 0 || !is_digit(s[0]) {
    } else {
        let t = s.subrange(1, s.len() as int);
        lemma_digit_count_bounds(t);
        assert forall|j: int| 0 <= j < digit_count(s) implies is_digit(s[j]) by {
            if j >= 1 {
                assert(is_digit(t[j - 1]));
            }
        }
    }
}

/// The canonical digits of `n`: at least one digit, all digits, first not a
/// sign, and their value is `n` again.
pub proof fn lemma_spec_dec(n: nat)
    ensures
        spec_dec(n).len() >= 1,
        forall|i: int| 0 <= i < spec_dec(n).len() ==> is_digit(#[trigger] spec_dec(n)[i]),
        digits_val(spec_dec(n)) == n,
    decreases n,
{
    if n < 10 {
        assert(spec_dec(n) =~= seq![(48 + n) as u8]);
        assert(spec_dec(n).drop_last() =~= Seq::<u8>::empty());
        assert(spec_dec(n).last() == (48 + n) as u8);
        assert(digits_val(Seq::<u8>::empty()) == 0);
        assert(digits_val(spec_dec(n)) == digits_val(spec_dec(n).drop_last()) * 10 + spec_dec(
            n,
        ).last() - 48);
    } else {
        lemma_spec_dec(n / 10);
        lemma_fundamental_div_mod(n as int, 10);
        assert(spec_dec(n) =~= spec_dec(n / 10) + seq![(48 + n % 10) as u8]);
        assert(spec_dec(n).drop_last() =~= spec_dec(n / 10));
        assert(spec_dec(n).last() == (48 + n % 10) as u8);
        assert((48 + n % 10) as u8 - 48 == n % 10);
        assert(digits_val(spec_dec(n)) == digits_val(spec_dec(n / 10)) * 10 + ((48 + n % 10) as u8
            - 48));
        assert(digits_val(spec_dec(n)) == (n / 10) * 10 + (n % 10));
    }
}

/// Reading back the canonical digits of `n` yields `n`.
pub proof fn lemma_atoi_of_dec(n: u64)
    ensures
        spec_atoi_u64(spec_dec(n as nat)) == Some(n),
{
    let s = spec_dec(n as nat);
    lemma_spec_dec(n as nat);
    lemma_digit_count_is(s, s.len() as int);
    assert(s.subrange(0, s.len() as int) =~= s);
}

/// The longest digit prefix of the decoder's input, as executable code.
pub fn atoi_u64(s: &[u8]) -> (r: Option<u64>)
    ensures
        r == spec_atoi_u64(s@),
{
    let mut i: usize = 0;
    let mut neg = false;
    let mut signed = false;
    if s.len() > 0 && (s[0] == 43 || s[0] == 45) {
        neg = s[0] == 45;
        signed = true;
        i = 1;
    }
    let start = i;
    let mut acc: Option<u64> = Some(0);
    while i < s.len() && 48 <= s[i] && s[i] <= 57
        invariant
            start <= i <= s@.len(),
            start == if signed { 1int } else { 0int },
            forall|j: int| start <= j < i ==> is_digit(s@[j]),
            match acc {
                Some(v) => v == digits_val(s@.subrange(start as int, i as int)),
                None => digits_val(s@.subrange(start as int, i as int)) > u64::MAX,
            },
        decreases s@.len() - i,
    {
        let d = s[i] - 48;
        let ghost pre = s@.subrange(start as int, i as int);
        let ghost cur = s@.subrange(start as int, i as int + 1);
        proof {
            assert(cur.drop_last() =~= pre);
            assert(cur.last() == s@[i as int]);
        }
        acc = match acc {
            Some(v) => match v.checked_mul(10) {
                Some(w) => w.checked_add(d as u64),
                None => None,
            },
            None => None,
        };
        i = i + 1;
    }
    let ghost rest = if signed {
        s@.subrange(1, s@.len() as int)
    } else {
        s@
    };
    proof {
        assert(forall|j: int| 0 <= j < i - start ==> is_digit(#[trigger] rest[j]));
        assert(i - start == rest.len() || !is_digit(rest[i - start]));
        lemma_digit_count_is(rest, i as int - start as int);
        assert(rest.subrange(0, i - start) =~= s@.subrange(start as int, i as int));
    }
    if !signed && i == start {
        None
    } else if neg {
        if acc == Some(0u64) {
            Some(0)
        } else {
            None
        }
    } else {
        acc
    }
}

/// The canonical decimal digits of `n`, as executable code.
pub fn format_decimal(n: u64) -> (out: Vec<u8>)
    ensures
        out@ == spec_dec(n as nat),
    decreases n,
{
    if n < 10 {
        let mut v: Vec<u8> = Vec::new();
        v.push(48 + n as u8);
        proof {
            assert(v@ =~= spec_dec(n as nat));
        }
        v
    } else {
        let mut v = format_decimal(n / 10);
        v.push(48 + (n % 10) as u8);
        proof {
            assert(v@ =~= spec_dec(n as nat));
        }
        v
    }
}

/// What `u64` text parsing accepts: an optional `+`, then one or more
/// digits and nothing else, within range.
pub open spec fn spec_parse_u64(s: Seq<u8>) -> Option<u64> {
    let off: int = if s.len() > 0 && s[0] == 43u8 {
        1
    } else {
        0
    };
    let rest = s.subrange(off, s.len() as int);
    if rest.len() == 0 || digit_count(rest) != rest.len() {
        None
    } else if digits_val(rest) > u64::MAX {
        None
    } else {
        Some(digits_val(rest) as u64)
    }
}

/// A millisecond count given as text on the command line.
#[verifier::loop_isolation(false)]
pub fn duration_from_ms_str(src: &str) -> (r: Result<u64, ()>)
    ensures
        match spec_parse_u64(src.spec_bytes()) {
            Some(v) => r == Ok::<u64, ()>(v),
            None => r == Err::<u64, ()>(()),
        },
{
    let s = src.as_bytes();
    let mut i: usize = 0;
    if s.len() > 0 && s[0] == 43 {
        i = 1;
    }
    let start = i;
    if i >= s.len() {
        return Err(());
    }
    let ghost rest = s@.subrange(start as int, s@.len() as int);
    let mut acc: Option<u64> = Some(0);
    while i < s.len()
        invariant
            start <= i <= s@.len(),
            rest == s@.subrange(start as int, s@.len() as int),
            forall|j: int| start <= j < i ==> is_digit(s@[j]),
            match acc {
                Some(v) => v == digits_val(s@.subrange(start as int, i as int)),
                None => digits_val(s@.subrange(start as int, i as int)) > u64::MAX,
            },
        decreases s@.len() - i,
    {
        let b = s[i];
        if b < 48 || b > 57 {
            proof {
                assert(rest[i - start] == s@[i as int]);
                lemma_digit_count_bounds(rest);
                if digit_count(rest) == rest.len() {
                    assert(is_digit(rest[i - start]));
                }
            }
            return Err(());
        }
        let ghost pre = s@.subrange(start as int, i as int);
        let ghost curr = s@.subrange(start as int, i as int + 1);
        proof {
            assert(curr.drop_last() =~= pre);
            assert(curr.last() == s@[i as int]);
        }
        acc = match acc {
            Some(v) => match v.checked_mul(10) {
                Some(w) => w.checked_add((b - 48) as u64),
                None => None,
            },
            None => None,
        };
        i = i + 1;
    }
    proof {
        assert(rest =~= s@.subrange(start as int, i as int));
        lemma_digit_count_is(rest, rest.len() as int);
    }
    match acc {
        Some(v) => Ok(v),
        None => Err(()),
    }
}

} // verus!
