//! Reading a measurement written in decimal: an optional sign, digits, and at
//! most three digits after a point, held as an integer count of thousandths.
//! Exponents, `inf` and `NaN` are not measurements.

use vstd::prelude::*;
use vstd::string::StringSliceAdditionalSpecFns;

verus! {

/// An integer part above this makes any measurement leave the `i64` range.
const INT_PART_CAP: i128 = 10_000_000_000_000_000;

pub open spec fn is_digit(b: u8) -> bool {
    48 <= b <= 57
}

pub open spec fn all_digits(s: Seq<u8>) -> bool {
    forall|i: int| 0 <= i < s.len() ==> is_digit(#[trigger] s[i])
}

/// The number that a run of decimal digits writes.
pub open spec fn digits_value(s: Seq<u8>) -> int
    decreases s.len(),
{
    if s.len() == 0 {
        0
    } else {
        digits_value(s.drop_last()) * 10 + (s.last() - 48)
    }
}

/// The position of the first `.` in `s`, or its length if there is none.
pub open spec fn first_dot(s: Seq<u8>) -> int
    decreases s.len(),
{
    if s.len() == 0 || s[0] == 46 {
        0
    } else {
        1 + first_dot(s.drop_first())
    }
}

/// The digits after the first `.` of `s`, if any.
pub open spec fn fraction_part(s: Seq<u8>) -> Seq<u8> {
    if first_dot(s) < s.len() {
        s.skip(first_dot(s) + 1)
    } else {
        Seq::empty()
    }
}

/// Thousandths in one unit of the fraction's last digit.
pub open spec fn fraction_scale(len: int) -> int {
    if len == 0 {
        1000
    } else if len == 1 {
        100
    } else if len == 2 {
        10
    } else {
        1
    }
}

/// The value, in thousandths, of unsigned decimal text.
pub open spec fn unsigned_thousandths(s: Seq<u8>) -> Option<int> {
    let ip = s.take(first_dot(s));
    let fp = fraction_part(s);
    if all_digits(ip) && all_digits(fp) && fp.len() <= 3 && ip.len() + fp.len() >= 1 {
        Some(digits_value(ip) * 1000 + digits_value(fp) * fraction_scale(fp.len() as int))
    } else {
        None
    }
}

/// The value, in thousandths, of decimal text with an optional sign, if it
/// is well formed and within `i64`.
pub open spec fn measurement_of(s: Seq<u8>) -> Option<int> {
    let neg = s.len() > 0 && s[0] == 45;
    let body = if s.len() > 0 && (s[0] == 45 || s[0] == 43) {
        s.drop_first()
    } else {
        s
    };
    match unsigned_thousandths(body) {
        Some(v) => {
            let x = if neg {
                -v
            } else {
                v
            };
            if i64::MIN <= x <= i64::MAX {
                Some(x)
            } else {
                None
            }
        },
        None => None,
    }
}

proof fn lemma_digits_value_nonneg(s: Seq<u8>)
    requires
        all_digits(s),
    ensures
        digits_value(s) >= 0,
    decreases s.len(),
{
    if s.len() > 0 {
        assert(all_digits(s.drop_last())) by {
            assert forall|i: int| 0 <= i < s.drop_last().len() implies is_digit(
                #[trigger] s.drop_last()[i],
            ) by {
                assert(s.drop_last()[i] == s[i]);
            }
        }
        lemma_digits_value_nonneg(s.drop_last());
        assert(is_digit(s[s.len() - 1]));
    }
}

proof fn lemma_first_dot(s: Seq<u8>)
    ensures
        0 <= first_dot(s) <= s.len(),
        forall|i: int| 0 <= i < first_dot(s) ==> s[i] != 46,
        first_dot(s) < s.len() ==> s[first_dot(s)] == 46,
    decreases s.len(),
{
    if s.len() > 0 && s[0] != 46 {
        lemma_first_dot(s.drop_first());
        assert forall|i: int| 0 <= i < first_dot(s) implies s[i] != 46 by {
            if i > 0 {
                assert(s[i] == s.drop_first()[i - 1]);
            }
        }
    }
}

/// Reads the digits of `b[start..end]`; the result is `digits_value` of them
/// while it stays at most `INT_PART_CAP`, and above the cap otherwise.
fn read_digits(b: &[u8], start: usize, end: usize) -> (r: i128)
    requires
        start <= end <= b@.len(),
        all_digits(b@.subrange(start as int, end as int)),
    ensures
        digits_value(b@.subrange(start as int, end as int)) <= INT_PART_CAP ==> r == digits_value(
            b@.subrange(start as int, end as int),
        ),
        digits_value(b@.subrange(start as int, end as int)) > INT_PART_CAP ==> r > INT_PART_CAP,
{
    let mut acc: i128 = 0;
    let mut i: usize = start;
    assert(b@.subrange(start as int, start as int) =~= Seq::<u8>::empty());
    while i < end
        invariant
            start <= i <= end <= b@.len(),
            all_digits(b@.subrange(start as int, end as int)),
            0 <= acc <= 10 * INT_PART_CAP + 9,
            digits_value(b@.subrange(start as int, i as int)) <= INT_PART_CAP ==> acc
                == digits_value(b@.subrange(start as int, i as int)),
            digits_value(b@.subrange(start as int, i as int)) > INT_PART_CAP ==> acc > INT_PART_CAP,
        decreases end - i,
    {
        let ghost prev = b@.subrange(start as int, i as int);
        let ghost next = b@.subrange(start as int, i + 1);
        assert(next.drop_last() =~= prev);
        assert(b@.subrange(start as int, end as int)[i - start] == b@[i as int]);
        let d = (b[i] - 48u8) as i128;
        proof {
            assert(all_digits(prev)) by {
                assert forall|k: int| 0 <= k < prev.len() implies is_digit(#[trigger] prev[k]) by {
                    assert(prev[k] == b@.subrange(start as int, end as int)[k]);
                }
            }
            lemma_digits_value_nonneg(prev);
        }
        if acc <= INT_PART_CAP {
            acc = acc * 10 + d;
        }
        i += 1;
    }
    acc
}

/// Whether every byte of `b[from..to]` is a decimal digit.
fn digits_only(b: &[u8], from: usize, to: usize) -> (r: bool)
    requires
        from <= to <= b@.len(),
    ensures
        r == all_digits(b@.subrange(from as int, to as int)),
{
    let mut k: usize = from;
    while k < to
        invariant
            from <= k <= to <= b@.len(),
            forall|j: int| from <= j < k ==> is_digit(b@[j]),
        decreases to - k,
    {
        if b[k] < 48u8 || b[k] > 57u8 {
            assert(b@.subrange(from as int, to as int)[k - from] == b@[k as int]);
            return false;
        }
        k += 1;
    }
    assert forall|j: int| 0 <= j < to - from implies is_digit(
        #[trigger] b@.subrange(from as int, to as int)[j],
    ) by {
        assert(b@.subrange(from as int, to as int)[j] == b@[from + j]);
    }
    true
}

/// The position of the first `.` at or after `start`, or the length.
fn find_dot(b: &[u8], start: usize) -> (r: usize)
    requires
        start <= b@.len(),
    ensures
        start <= r <= b@.len(),
        r - start == first_dot(b@.skip(start as int)),
{
    let mut dot: usize = start;
    while dot < b.len() && b[dot] != 46u8
        invariant
            start <= dot <= b@.len(),
            forall|k: int| start <= k < dot ==> b@[k] != 46,
        decreases b@.len() - dot,
    {
        dot += 1;
    }
    proof {
        let body = b@.skip(start as int);
        lemma_first_dot(body);
        let d = first_dot(body);
        if d < dot - start {
            assert(body[d] == b@[start + d]);
        }
        if dot - start < d {
            assert(body[dot - start] == b@[dot as int]);
        }
    }
    dot
}

/// The value of at most three fraction digits, in thousandths.
proof fn lemma_fraction_small(f: Seq<u8>)
    requires
        all_digits(f),
        f.len() <= 3,
    ensures
        0 <= digits_value(f) < 1000,
{
    reveal_with_fuel(digits_value, 4);
    if f.len() >= 1 {
        assert(is_digit(f[0]));
    }
    if f.len() >= 2 {
        assert(is_digit(f[1]));
        assert(f.drop_last().drop_last() =~= f.take(f.len() - 2));
    }
    if f.len() >= 3 {
        assert(is_digit(f[2]));
    }
}

/// Reads a measurement in thousandths: `Some` exactly when the text is an
/// optional `-` or `+`, digits, and optionally a `.` followed by at most three
/// digits, with at least one digit in all, and the value fits `i64`.
pub fn parse_measurement(text: &str) -> (r: Option<i64>)
    ensures
        match r {
            Some(x) => measurement_of(text.spec_bytes()) == Some(x as int),
            None => measurement_of(text.spec_bytes()) is None,
        },
{
    let b = text.as_bytes();
    let n = b.len();
    let ghost s = b@;
    let neg = n > 0 && b[0] == 45u8;
    let start: usize = if n > 0 && (b[0] == 45u8 || b[0] == 43u8) {
        1
    } else {
        0
    };
    let ghost body = s.skip(start as int);
    assert(body =~= (if s.len() > 0 && (s[0] == 45 || s[0] == 43) {
        s.drop_first()
    } else {
        s
    }));
    let dot = find_dot(b, start);
    let frac_start: usize = if dot < n {
        dot + 1
    } else {
        n
    };
    let ghost ip = body.take(first_dot(body));
    let ghost fp = fraction_part(body);
    assert(ip =~= s.subrange(start as int, dot as int));
    assert(fp =~= s.subrange(frac_start as int, n as int));
    if !digits_only(b, start, dot) || !digits_only(b, frac_start, n) {
        return None;
    }
    let frac_len = n - frac_start;
    if frac_len > 3 || (dot - start) + frac_len == 0 {
        return None;
    }
    let whole = read_digits(b, start, dot);
    let frac = read_digits(b, frac_start, n);
    proof {
        lemma_digits_value_nonneg(ip);
        lemma_fraction_small(fp);
    }
    if whole > INT_PART_CAP {
        proof {
            assert(digits_value(ip) * 1000 > i64::MAX) by (nonlinear_arith)
                requires
                    digits_value(ip) > INT_PART_CAP,
            ;
        }
        return None;
    }
    let scale: i128 = if frac_len == 0 {
        1000
    } else if frac_len == 1 {
        100
    } else if frac_len == 2 {
        10
    } else {
        1
    };
    let v: i128 = whole * 1000 + frac * scale;
    let x: i128 = if neg {
        -v
    } else {
        v
    };
    if x < i64::MIN as i128 || x > i64::MAX as i128 {
        return None;
    }
    Some(x as i64)
}

} // verus!
