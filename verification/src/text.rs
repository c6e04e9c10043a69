//! Verified text codecs shared by the record model and the repository:
//! decimal digits, signed-integer rendering and parsing, decimal-number
//! validation, and plain string comparison.
use vstd::prelude::*;

verus! {

/// The character standing for a single decimal digit.
pub open spec fn digit_char(d: int) -> char {
    if d == 0 {
        '0'
    } else if d == 1 {
        '1'
    } else if d == 2 {
        '2'
    } else if d == 3 {
        '3'
    } else if d == 4 {
        '4'
    } else if d == 5 {
        '5'
    } else if d == 6 {
        '6'
    } else if d == 7 {
        '7'
    } else if d == 8 {
        '8'
    } else {
        '9'
    }
}

pub open spec fn is_digit_char(c: char) -> bool {
    c == '0' || c == '1' || c == '2' || c == '3' || c == '4' || c == '5' || c == '6' || c == '7'
        || c == '8' || c == '9'
}

/// The numeric value of a decimal digit character.
pub open spec fn digit_value(c: char) -> int {
    if c == '0' {
        0
    } else if c == '1' {
        1
    } else if c == '2' {
        2
    } else if c == '3' {
        3
    } else if c == '4' {
        4
    } else if c == '5' {
        5
    } else if c == '6' {
        6
    } else if c == '7' {
        7
    } else if c == '8' {
        8
    } else {
        9
    }
}

/// A digit character stands for exactly the digit it was made from.
pub proof fn lemma_digit_id(x: int)
    requires
        0 <= x <= 9,
    ensures
        is_digit_char(digit_char(x)),
        digit_value(digit_char(x)) == x,
{
}

pub fn char_to_digit(c: char) -> (r: Option<u32>)
    ensures
        match r {
            Some(d) => is_digit_char(c) && d == digit_value(c) && d <= 9,
            None => !is_digit_char(c),
        },
{
    match c {
        '0' => Some(0),
        '1' => Some(1),
        '2' => Some(2),
        '3' => Some(3),
        '4' => Some(4),
        '5' => Some(5),
        '6' => Some(6),
        '7' => Some(7),
        '8' => Some(8),
        '9' => Some(9),
        _ => None,
    }
}

pub fn digit_str(d: u32) -> (r: &'static str)
    requires
        d <= 9,
    ensures
        r@ =~= seq![digit_char(d as int)],
{
    proof {
        reveal_strlit("0");
        reveal_strlit("1");
        reveal_strlit("2");
        reveal_strlit("3");
        reveal_strlit("4");
        reveal_strlit("5");
        reveal_strlit("6");
        reveal_strlit("7");
        reveal_strlit("8");
        reveal_strlit("9");
    }
    match d {
        0 => "0",
        1 => "1",
        2 => "2",
        3 => "3",
        4 => "4",
        5 => "5",
        6 => "6",
        7 => "7",
        8 => "8",
        _ => "9",
    }
}

pub fn dash_str() -> (r: &'static str)
    ensures
        r@ =~= seq!['-'],
{
    proof {
        reveal_strlit("-");
    }
    "-"
}

/// Character-for-character string equality.
pub fn str_eq(a: &str, b: &str) -> (r: bool)
    ensures
        r == (a@ == b@),
{
    let n = a.unicode_len();
    let m = b.unicode_len();
    if n != m {
        return false;
    }
    let mut i: usize = 0;
    while i < n
        invariant
            0 <= i <= n,
            n == a@.len(),
            n == b@.len(),
            forall|j: int| 0 <= j < i ==> a@[j] == b@[j],
        decreases n - i,
    {
        if a.get_char(i) != b.get_char(i) {
            return false;
        }
        i += 1;
    }
    proof {
        assert(a@ =~= b@);
    }
    true
}

/// The decimal rendering of a non-negative integer, most significant
/// digit first, with no leading zero except for zero itself.
pub open spec fn nat_chars(n: int) -> Seq<char>
    decreases n,
{
    if n <= 9 {
        seq![digit_char(n)]
    } else {
        nat_chars(n / 10).push(digit_char(n % 10))
    }
}

/// The decimal rendering of an integer: a leading `-` for negatives.
pub open spec fn int_chars(v: int) -> Seq<char> {
    if v < 0 {
        seq!['-'] + nat_chars(-v)
    } else {
        nat_chars(v)
    }
}

pub open spec fn all_digit_chars(s: Seq<char>) -> bool {
    forall|i: int| 0 <= i < s.len() ==> is_digit_char(#[trigger] s[i])
}

/// The integer named by a sequence of digit characters.
pub open spec fn digits_value(s: Seq<char>) -> int
    decreases s.len(),
{
    if s.len() == 0 {
        0
    } else {
        digits_value(s.drop_last()) * 10 + digit_value(s.last())
    }
}

/// What parsing an integer string yields: an optional `-`, then one or
/// more digits, and the value must fit a 64-bit signed integer.
pub open spec fn parse_int_chars(s: Seq<char>) -> Option<int> {
    if s.len() >= 1 && s[0] == '-' {
        let ds = s.skip(1);
        if ds.len() >= 1 && all_digit_chars(ds) && -digits_value(ds) >= i64::MIN as int {
            Some(-digits_value(ds))
        } else {
            None
        }
    } else if s.len() >= 1 && all_digit_chars(s) && digits_value(s) <= i64::MAX as int {
        Some(digits_value(s))
    } else {
        None
    }
}

pub proof fn lemma_digits_value_nonneg(s: Seq<char>)
    requires
        all_digit_chars(s),
    ensures
        digits_value(s) >= 0,
    decreases s.len(),
{
    if s.len() > 0 {
        assert(all_digit_chars(s.drop_last()));
        lemma_digits_value_nonneg(s.drop_last());
        assert(is_digit_char(s.last()));
    }
}

/// A digit string's value only grows as more digits are appended.
pub proof fn lemma_digits_value_prefix_le(s: Seq<char>, k: int)
    requires
        all_digit_chars(s),
        0 <= k <= s.len(),
    ensures
        digits_value(s.take(k)) <= digits_value(s),
    decreases s.len() - k,
{
    if k < s.len() {
        assert(s.take(k + 1).drop_last() =~= s.take(k));
        assert(s.take(k + 1).last() == s[k]);
        assert(all_digit_chars(s.take(k)));
        lemma_digits_value_nonneg(s.take(k));
        assert(digits_value(s.take(k + 1)) == digits_value(s.take(k)) * 10 + digit_value(s[k]));
        assert(digits_value(s.take(k)) * 10 >= digits_value(s.take(k)));
        assert(digit_value(s[k]) >= 0);
        lemma_digits_value_prefix_le(s, k + 1);
    } else {
        assert(s.take(k) =~= s);
    }
}

/// The rendering of a non-negative integer is all digits and names that
/// same integer.
pub proof fn lemma_nat_chars_value(n: int)
    requires
        n >= 0,
    ensures
        all_digit_chars(nat_chars(n)),
        digits_value(nat_chars(n)) == n,
        nat_chars(n).len() >= 1,
        is_digit_char(nat_chars(n)[0]),
    decreases n,
{
    if n <= 9 {
        lemma_digit_id(n);
        let w = nat_chars(n);
        assert(w == seq![digit_char(n)]);
        assert(w.drop_last() =~= Seq::<char>::empty());
        assert(digits_value(w) == digits_value(w.drop_last()) * 10 + digit_value(w.last()));
        assert(digits_value(w) == n);
        assert forall|i: int| 0 <= i < w.len() implies is_digit_char(w[i]) by {
            assert(w[i] == digit_char(n));
        }
    } else {
        lemma_nat_chars_value(n / 10);
        lemma_digit_id(n % 10);
        let pre = nat_chars(n / 10);
        let w = nat_chars(n);
        assert(w == pre.push(digit_char(n % 10)));
        assert(w.drop_last() =~= pre);
        assert(w.last() == digit_char(n % 10));
        assert(digits_value(w) == digits_value(pre) * 10 + digit_value(digit_char(n % 10)));
        assert(digits_value(w) == (n / 10) * 10 + n % 10);
        assert forall|i: int| 0 <= i < w.len() implies is_digit_char(w[i]) by {
            if i < pre.len() {
                assert(w[i] == pre[i]);
            } else {
                assert(w[i] == digit_char(n % 10));
            }
        }
        assert(w[0] == pre[0]);
    }
}

/// Rendering any 64-bit integer and parsing the result gives it back.
pub proof fn lemma_int_chars_roundtrip(v: int)
    requires
        i64::MIN as int <= v <= i64::MAX as int,
    ensures
        parse_int_chars(int_chars(v)) == Some(v),
{
    if v >= 0 {
        lemma_nat_chars_value(v);
        let s = int_chars(v);
        assert(s == nat_chars(v));
        assert(s[0] != '-');
    } else {
        lemma_nat_chars_value(-v);
        let s = int_chars(v);
        assert(s[0] == '-');
        assert(s.skip(1) =~= nat_chars(-v));
    }
}

/// Two integers with the same rendering are the same integer.
pub proof fn lemma_int_chars_injective(a: int, b: int)
    requires
        i64::MIN as int <= a <= i64::MAX as int,
        i64::MIN as int <= b <= i64::MAX as int,
        int_chars(a) == int_chars(b),
    ensures
        a == b,
{
    lemma_int_chars_roundtrip(a);
    lemma_int_chars_roundtrip(b);
}

pub fn nat_to_string(n: u64) -> (r: String)
    ensures
        r@ == nat_chars(n as int),
    decreases n,
{
    if n <= 9 {
        let r = String::from_str(digit_str(n as u32));
        proof {
            assert(r@ =~= nat_chars(n as int));
        }
        r
    } else {
        let mut s = nat_to_string(n / 10);
        s.append(digit_str((n % 10) as u32));
        proof {
            assert(s@ =~= nat_chars(n as int));
        }
        s
    }
}

/// Renders a 64-bit integer in its canonical decimal form.
pub fn i64_to_string(v: i64) -> (r: String)
    ensures
        r@ == int_chars(v as int),
{
    if v >= 0 {
        nat_to_string(v as u64)
    } else {
        let mag: u64 = (-(v as i128)) as u64;
        let mut s = String::from_str(dash_str());
        let t = nat_to_string(mag);
        s.append(t.as_str());
        proof {
            assert(s@ =~= int_chars(v as int));
        }
        s
    }
}

/// Parses a 64-bit integer: an optional `-`, then one or more digits;
/// `None` on any other shape and on values out of range.
pub fn parse_i64(s: &str) -> (r: Option<i64>)
    ensures
        match r {
            Some(v) => parse_int_chars(s@) == Some(v as int),
            None => parse_int_chars(s@) is None,
        },
{
    let n = s.unicode_len();
    if n == 0 {
        return None;
    }
    let neg = s.get_char(0) == '-';
    let start: usize = if neg {
        1
    } else {
        0
    };
    if n == start {
        return None;
    }
    let limit: u64 = if neg {
        (i64::MAX as u64) + 1
    } else {
        i64::MAX as u64
    };
    let ghost ds = s@.skip(start as int);
    proof {
        if !neg {
            assert(ds =~= s@);
        }
    }
    let mut acc: u64 = 0;
    let mut i: usize = start;
    while i < n
        invariant
            start <= i <= n,
            n == s@.len(),
            start == (if neg { 1int } else { 0int }),
            neg <==> s@[0] == '-',
            ds == s@.skip(start as int),
            ds.len() == n - start,
            n - start >= 1,
            limit as int == (if neg { i64::MAX as int + 1 } else { i64::MAX as int }),
            all_digit_chars(ds.take(i - start)),
            acc == digits_value(ds.take(i - start)),
            acc <= limit,
        decreases n - i,
    {
        let c = s.get_char(i);
        proof {
            assert(ds[i - start] == s@[i as int]);
        }
        match char_to_digit(c) {
            None => {
                proof {
                    assert(!all_digit_chars(ds));
                }
                return None;
            },
            Some(d) => {
                let ghost j = i - start;
                proof {
                    assert(ds.take(j + 1).drop_last() =~= ds.take(j));
                    assert(ds.take(j + 1).last() == ds[j]);
                    assert(digits_value(ds.take(j + 1)) == acc * 10 + digit_value(ds[j]));
                    assert(all_digit_chars(ds.take(j + 1)));
                    assert(limit >= 10);
                    assert((limit / 10) * 10 + limit % 10 == limit);
                }
                if acc > limit / 10 || (acc == limit / 10 && (d as u64) > limit % 10) {
                    proof {
                        assert(acc * 10 >= (limit / 10 + 1) * 10 || acc * 10 + d as u64 > limit);
                        assert(digits_value(ds.take(j + 1)) > limit as int);
                        if all_digit_chars(ds) {
                            lemma_digits_value_prefix_le(ds, j + 1);
                            assert(digits_value(ds) > limit as int);
                        }
                        if neg {
                            assert(s@[0] == '-');
                            assert(s@.skip(1) == ds);
                            assert(parse_int_chars(s@) is None);
                        } else {
                            assert(s@[0] != '-');
                            assert(s@ == ds);
                            assert(parse_int_chars(s@) is None);
                        }
                    }
                    return None;
                }
                proof {
                    assert(acc * 10 + d as u64 <= (limit / 10) * 10 + limit % 10);
                }
                acc = acc * 10 + (d as u64);
            },
        }
        i += 1;
    }
    proof {
        assert(ds.take(n - start) =~= ds);
        assert(is_digit_char(ds[0]));
        if !neg {
            assert(s@[0] == ds[0]);
        }
    }
    if neg {
        if acc == (i64::MAX as u64) + 1 {
            Some(i64::MIN)
        } else {
            Some(-(acc as i64))
        }
    } else {
        Some(acc as i64)
    }
}

/// An unsigned decimal-number body: digits, optionally split by one
/// interior point with digits on both sides.
pub open spec fn decimal_body(b: Seq<char>) -> bool {
    (b.len() >= 1 && all_digit_chars(b)) || (exists|k: int|
        1 <= k <= b.len() - 2 && #[trigger] b[k] == '.' && all_digit_chars(b.take(k))
            && all_digit_chars(b.skip(k + 1)))
}

/// A decimal number: an optional leading `-`, then a decimal body.
pub open spec fn is_decimal_chars(s: Seq<char>) -> bool {
    if s.len() >= 1 && s[0] == '-' {
        decimal_body(s.skip(1))
    } else {
        decimal_body(s)
    }
}

/// Whether a string is a decimal number.
#[verifier::loop_isolation(false)]
pub fn check_decimal(s: &str) -> (r: bool)
    ensures
        r == is_decimal_chars(s@),
{
    let n = s.unicode_len();
    let start: usize = if n >= 1 && s.get_char(0) == '-' {
        1
    } else {
        0
    };
    let ghost b = s@.skip(start as int);
    proof {
        if start == 0 {
            assert(b =~= s@);
        }
    }
    if n == start {
        proof {
            assert(!decimal_body(b));
        }
        return false;
    }
    let mut i: usize = start;
    while i < n
        invariant
            start <= i <= n,
            n == s@.len(),
            start <= 1,
            b == s@.skip(start as int),
            b.len() == n - start,
            forall|t: int| 0 <= t < i - start ==> is_digit_char(#[trigger] b[t]),
        decreases n - i,
    {
        let c = s.get_char(i);
        proof {
            assert(b[i - start] == s@[i as int]);
        }
        if char_to_digit(c).is_none() {
            let ghost j0 = i - start;
            if c != '.' || i == start || i == n - 1 {
                proof {
                    lemma_decimal_body_refuted(b, j0);
                }
                return false;
            }
            let dot = i;
            let mut k: usize = i + 1;
            while k < n
                invariant
                    dot + 1 <= k <= n,
                    start <= dot <= n - 1,
                    n == s@.len(),
                    b == s@.skip(start as int),
                    b.len() == n - start,
                    forall|t: int| 0 <= t < dot - start ==> is_digit_char(#[trigger] b[t]),
                    b[dot - start] == '.',
                    !is_digit_char(b[dot - start]),
                    forall|t: int|
                        dot - start < t < k - start ==> is_digit_char(#[trigger] b[t]),
                decreases n - k,
            {
                let c2 = s.get_char(k);
                proof {
                    assert(b[k - start] == s@[k as int]);
                }
                if char_to_digit(c2).is_none() {
                    proof {
                        lemma_decimal_body_refuted(b, dot - start);
                    }
                    return false;
                }
                k += 1;
            }
            proof {
                let kk = dot - start;
                assert(1 <= kk <= b.len() - 2);
                assert(all_digit_chars(b.take(kk)));
                assert forall|t: int| 0 <= t < b.skip(kk + 1).len() implies is_digit_char(
                    #[trigger] b.skip(kk + 1)[t],
                ) by {
                    assert(b.skip(kk + 1)[t] == b[t + kk + 1]);
                }
                assert(decimal_body(b));
            }
            return true;
        }
        i += 1;
    }
    proof {
        assert(all_digit_chars(b));
    }
    true
}

/// If the first non-digit of a body is absent, at the edge, or not a
/// point — or a second non-digit follows the point — no split position
/// can satisfy the decimal-body shape.
proof fn lemma_decimal_body_refuted(b: Seq<char>, j0: int)
    requires
        0 <= j0 < b.len(),
        !is_digit_char(b[j0]),
        forall|t: int| 0 <= t < j0 ==> is_digit_char(#[trigger] b[t]),
        b[j0] != '.' || j0 == 0 || j0 == b.len() - 1 || (exists|q: int|
            j0 < q < b.len() && !is_digit_char(#[trigger] b[q])),
    ensures
        !decimal_body(b),
{
    assert(!all_digit_chars(b));
    if decimal_body(b) {
        let k = choose|k: int|
            1 <= k <= b.len() - 2 && #[trigger] b[k] == '.' && all_digit_chars(b.take(k))
                && all_digit_chars(b.skip(k + 1));
        if k < j0 {
            assert(is_digit_char(b[k]));
            assert(false);
        } else if k > j0 {
            assert(b.take(k)[j0] == b[j0]);
            assert(is_digit_char(b[j0]));
            assert(false);
        } else {
            assert(b[j0] == '.');
            assert(1 <= j0 <= b.len() - 2);
            let q = choose|q: int| j0 < q < b.len() && !is_digit_char(#[trigger] b[q]);
            assert(b.skip(k + 1)[q - k - 1] == b[q]);
            assert(is_digit_char(b[q]));
            assert(false);
        }
    }
}

} // verus!
