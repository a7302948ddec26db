//! The quantity codec: Kubernetes resource-quantity strings such as `"150m"`
//! or `"512Mi"`, decoded to whole millicores (CPU) or bytes (memory), and
//! formatted back from those numbers.

use vstd::prelude::*;

verus! {

/// A string-encoded resource amount with an optional unit suffix.
#[derive(Debug)]
pub struct Quantity(pub String);

impl View for Quantity {
    type V = Seq<char>;

    open spec fn view(&self) -> Seq<char> {
        self.0@
    }
}

/// Why a quantity string was rejected.
#[derive(Clone, Copy, Debug, PartialEq, Eq, Structural)]
pub enum QuantityParseError {
    /// The numeric portion is not a valid number of at most 25 digits.
    BadNumber,
    /// The unit suffix is not one this codec recognizes.
    BadSuffix,
    /// The amount is not a whole number of the result's unit.
    NotExact,
    /// The amount does not fit in a signed 64-bit result.
    OutOfRange,
}

pub open spec fn is_digit(c: char) -> bool {
    '0' as u32 <= c as u32 && c as u32 <= '9' as u32
}

pub open spec fn digit_val(c: char) -> int {
    c as u32 - '0' as u32
}

pub open spec fn all_digits(s: Seq<char>) -> bool {
    forall|i: int| 0 <= i < s.len() ==> is_digit(#[trigger] s[i])
}

/// The number a digit sequence denotes in base ten.
pub open spec fn digits_val(s: Seq<char>) -> int
    decreases s.len(),
{
    if s.len() == 0 {
        0
    } else {
        digits_val(s.drop_last()) * 10 + digit_val(s.last())
    }
}

pub open spec fn pow10(e: nat) -> int
    decreases e,
{
    if e == 0 {
        1
    } else {
        10 * pow10((e - 1) as nat)
    }
}

pub proof fn lemma_digits_val_bounds(s: Seq<char>)
    requires
        all_digits(s),
    ensures
        0 <= digits_val(s) < pow10(s.len()),
    decreases s.len(),
{
    if s.len() > 0 {
        assert(all_digits(s.drop_last())) by {
            assert(forall|i: int|
                0 <= i < s.len() - 1 ==> #[trigger] s.drop_last()[i] == s[i]);
        }
        lemma_digits_val_bounds(s.drop_last());
        assert(is_digit(s.last()));
    }
}

/// The end of the run of digits that starts at `i`.
pub open spec fn digits_end(s: Seq<char>, i: int) -> int
    decreases s.len() - i when 0 <= i <= s.len()
{
    if i < s.len() && is_digit(s[i]) {
        digits_end(s, i + 1)
    } else {
        i
    }
}

pub proof fn lemma_digits_end(s: Seq<char>, i: int)
    requires
        0 <= i <= s.len(),
    ensures
        i <= digits_end(s, i) <= s.len(),
        forall|j: int| i <= j < digits_end(s, i) ==> is_digit(#[trigger] s[j]),
        digits_end(s, i) < s.len() ==> !is_digit(s[digits_end(s, i)]),
    decreases s.len() - i,
{
    if i < s.len() && is_digit(s[i]) {
        lemma_digits_end(s, i + 1);
    }
}

/// A run of digits from `start` to `i`, with `i` at the end of the line or on
/// a non-digit, is exactly the run that `digits_end` names.
pub proof fn lemma_digits_end_is(s: Seq<char>, start: int, i: int)
    requires
        0 <= start <= i <= s.len(),
        forall|j: int| start <= j < i ==> is_digit(#[trigger] s[j]),
        i < s.len() ==> !is_digit(s[i]),
    ensures
        digits_end(s, start) == i,
    decreases i - start,
{
    if start < i {
        lemma_digits_end_is(s, start + 1, i);
    }
}

pub proof fn lemma_pow10_mono(a: nat, b: nat)
    requires
        a <= b,
    ensures
        1 <= pow10(a) <= pow10(b),
    decreases b,
{
    if b > 0 {
        if a == b {
            lemma_pow10_mono((a - 1) as nat, (b - 1) as nat);
        } else {
            lemma_pow10_mono(a, (b - 1) as nat);
        }
    }
}

pub proof fn lemma_pow10_adds(a: nat, b: nat)
    ensures
        pow10(a) * pow10(b) == pow10(a + b),
    decreases a,
{
    if a == 0 {
    } else {
        lemma_pow10_adds((a - 1) as nat, b);
        assert(pow10(a) * pow10(b) == 10 * (pow10((a - 1) as nat) * pow10(b)))
            by (nonlinear_arith)
            requires pow10(a) == 10 * pow10((a - 1) as nat),
        ;
    }
}

/// The concrete powers of ten that the overflow arguments below lean on.
pub proof fn lemma_pow10_fits()
    ensures
        pow10(13) == 10000000000000,
        pow10(38) == pow10(25) * pow10(13),
        pow10(38) < 0x100000000000000000000000000000000,
{
    reveal_with_fuel(pow10, 20);
    lemma_pow10_adds(25, 13);
    lemma_pow10_adds(19, 19);
    assert(pow10(19) * pow10(19) < 0x100000000000000000000000000000000) by (nonlinear_arith)
        requires pow10(19) == 10000000000000000000,
    ;
}

/// The numeric pieces of a quantity string: an optional minus sign, the
/// digits before and after the decimal point, and the unit suffix.
pub ghost struct QuantityParts {
    pub neg: bool,
    pub int_digits: Seq<char>,
    pub frac_digits: Seq<char>,
    pub suffix: Seq<char>,
}

/// Splits a quantity string into sign, digits and suffix; `None` when there
/// is not a single digit in the numeric portion.
pub open spec fn quantity_parts(s: Seq<char>) -> Option<QuantityParts> {
    let start: int = if s.len() > 0 && s[0] == '-' {
        1
    } else {
        0
    };
    let neg = start == 1;
    let int_end = digits_end(s, start);
    let int_digits = s.subrange(start, int_end);
    if int_end < s.len() && s[int_end] == '.' {
        let frac_end = digits_end(s, int_end + 1);
        let frac_digits = s.subrange(int_end + 1, frac_end);
        if int_digits.len() + frac_digits.len() == 0 {
            None
        } else {
            Some(QuantityParts { neg, int_digits, frac_digits, suffix: s.subrange(frac_end, s.len() as int) })
        }
    } else {
        if int_digits.len() == 0 {
            None
        } else {
            Some(QuantityParts { neg, int_digits, frac_digits: Seq::empty(), suffix: s.subrange(int_end, s.len() as int) })
        }
    }
}

/// Millicores per unit of a recognized CPU suffix.
pub open spec fn cpu_mult(sfx: Seq<char>) -> Option<int> {
    if sfx.len() == 0 {
        Some(1000)
    } else if sfx.len() == 1 && sfx[0] == 'm' {
        Some(1)
    } else {
        None
    }
}

/// Bytes per unit of a recognized memory suffix.
pub open spec fn memory_mult(sfx: Seq<char>) -> Option<int> {
    if sfx.len() == 0 {
        Some(1)
    } else if sfx.len() == 1 && sfx[0] == 'k' {
        Some(1000)
    } else if sfx.len() == 1 && sfx[0] == 'M' {
        Some(1000000)
    } else if sfx.len() == 1 && sfx[0] == 'G' {
        Some(1000000000)
    } else if sfx.len() == 1 && sfx[0] == 'T' {
        Some(1000000000000)
    } else if sfx.len() == 2 && sfx[0] == 'K' && sfx[1] == 'i' {
        Some(1024)
    } else if sfx.len() == 2 && sfx[0] == 'M' && sfx[1] == 'i' {
        Some(1048576)
    } else if sfx.len() == 2 && sfx[0] == 'G' && sfx[1] == 'i' {
        Some(1073741824)
    } else if sfx.len() == 2 && sfx[0] == 'T' && sfx[1] == 'i' {
        Some(1099511627776)
    } else {
        None
    }
}

/// The signed number of result units the parts denote under `mult` units per
/// whole: exact division only, and the result must fit in 64 signed bits.
pub open spec fn scaled_value(parts: QuantityParts, mult: int) -> Result<int, QuantityParseError> {
    let mant = digits_val(parts.int_digits + parts.frac_digits);
    let scale = parts.frac_digits.len();
    if (mant * mult) % pow10(scale) != 0 {
        Err(QuantityParseError::NotExact)
    } else {
        let mag = (mant * mult) / pow10(scale);
        let v: int = if parts.neg {
            -mag
        } else {
            mag
        };
        if v < -0x8000000000000000 || v > 0x7fffffffffffffff {
            Err(QuantityParseError::OutOfRange)
        } else {
            Ok(v)
        }
    }
}

/// What parsing a quantity string returns: millicores when `cpu`, bytes
/// otherwise, or the error naming the first reason the string is rejected.
pub open spec fn spec_parse_quantity(s: Seq<char>, cpu: bool) -> Result<int, QuantityParseError> {
    match quantity_parts(s) {
        None => Err(QuantityParseError::BadNumber),
        Some(p) => {
            if p.int_digits.len() + p.frac_digits.len() > 25 {
                Err(QuantityParseError::BadNumber)
            } else {
                let m = if cpu {
                    cpu_mult(p.suffix)
                } else {
                    memory_mult(p.suffix)
                };
                match m {
                    None => Err(QuantityParseError::BadSuffix),
                    Some(mult) => scaled_value(p, mult),
                }
            }
        },
    }
}

pub open spec fn spec_parse_cpu(s: Seq<char>) -> Result<int, QuantityParseError> {
    spec_parse_quantity(s, true)
}

pub open spec fn spec_parse_memory(s: Seq<char>) -> Result<int, QuantityParseError> {
    spec_parse_quantity(s, false)
}

/// Whether the character at `i` is a decimal digit, false past the end.
pub(crate) fn digit_at(s: &str, i: usize) -> (r: bool)
    ensures
        r == (i < s@.len() && is_digit(s@[i as int])),
{
    let n = s.unicode_len();
    if i < n {
        let c = s.get_char(i);
        '0' as u32 <= c as u32 && c as u32 <= '9' as u32
    } else {
        false
    }
}

pub(crate) fn pow10_u128(e: usize) -> (r: u128)
    requires
        e <= 38,
    ensures
        r == pow10(e as nat),
{
    proof {
        lemma_pow10_fits();
    }
    let mut r: u128 = 1;
    let mut k: usize = 0;
    while k < e
        invariant
            k <= e <= 38,
            r == pow10(k as nat),
        decreases e - k,
    {
        proof {
            lemma_pow10_fits();
            lemma_pow10_mono((k + 1) as nat, 38);
        }
        r = r * 10;
        k = k + 1;
    }
    r
}

/// Parses the numeric portion and suffix of a quantity string, returning the
/// amount in result units under the suffix table that `cpu` selects.
fn parse_quantity(s: &str, cpu: bool) -> (r: Result<i64, QuantityParseError>)
    ensures
        ({
            let sr = spec_parse_quantity(s@, cpu);
            match r {
                Ok(v) => sr == Ok::<int, QuantityParseError>(v as int),
                Err(e) => sr == Err::<int, QuantityParseError>(e),
            }
        }),
{
    let n = s.unicode_len();
    let ghost sv = s@;
    let mut i: usize = 0;
    let mut neg = false;
    if n > 0 {
        let c0 = s.get_char(0);
        if c0 == '-' {
            neg = true;
            i = 1;
        }
    }
    let start = i;
    let mut mant: u128 = 0;
    let mut ndigits: usize = 0;
    proof {
        assert(sv.subrange(start as int, start as int) =~= Seq::<char>::empty());
    }
    while digit_at(s, i)
        invariant
            sv == s@,
            neg <==> (sv.len() > 0 && sv[0] == '-'),
            start == if neg { 1int } else { 0int },
            start <= i <= n == sv.len(),
            ndigits == i - start,
            ndigits <= 25,
            forall|j: int| start <= j < i ==> is_digit(#[trigger] sv[j]),
            mant == digits_val(sv.subrange(start as int, i as int)),
            mant < pow10(ndigits as nat),
        decreases n - i,
    {
        if ndigits >= 25 {
            proof {
                lemma_digits_end(sv, start as int);
                let e = digits_end(sv, start as int);
                if e < i + 1 {
                    assert(is_digit(sv[e]));
                }
                assert(e >= i + 1);
                let p = quantity_parts(sv);
                assert(p matches Some(q) ==> q.int_digits.len() + q.frac_digits.len() > 25);
            }
            return Err(QuantityParseError::BadNumber);
        }
        let c = s.get_char(i);
        let d = (c as u32 - '0' as u32) as u128;
        proof {
            lemma_pow10_fits();
            lemma_pow10_mono((ndigits + 1) as nat, 38);
            assert(mant * 10 + d < pow10((ndigits + 1) as nat)) by (nonlinear_arith)
                requires
                    mant < pow10(ndigits as nat),
                    d < 10,
                    pow10((ndigits + 1) as nat) == 10 * pow10(ndigits as nat),
            ;
            let pre = sv.subrange(start as int, i as int);
            let post = sv.subrange(start as int, i + 1);
            assert(post.drop_last() =~= pre);
            assert(post.last() == sv[i as int]);
        }
        mant = mant * 10 + d;
        ndigits = ndigits + 1;
        i = i + 1;
    }
    proof {
        lemma_digits_end_is(sv, start as int, i as int);
    }
    let int_end = i;
    let ghost int_digits = sv.subrange(start as int, int_end as int);
    let mut scale: usize = 0;
    let ghost mut frac_digits = Seq::<char>::empty();
    if i < n && s.get_char(i) == '.' {
        i = i + 1;
        let fstart = i;
        proof {
            assert(int_digits + sv.subrange(fstart as int, fstart as int) =~= int_digits);
        }
        while digit_at(s, i)
            invariant
                sv == s@,
                neg <==> (sv.len() > 0 && sv[0] == '-'),
                start == if neg { 1int } else { 0int },
                ndigits <= 25,
                int_end < fstart <= i <= n == sv.len(),
                fstart == int_end + 1,
                scale == i - fstart,
                ndigits == (int_end - start) + scale,
                forall|j: int| fstart <= j < i ==> is_digit(#[trigger] sv[j]),
                int_digits == sv.subrange(start as int, int_end as int),
                start <= int_end,
                mant == digits_val(int_digits + sv.subrange(fstart as int, i as int)),
                mant < pow10(ndigits as nat),
                sv[int_end as int] == '.',
                forall|j: int| start <= j < int_end ==> is_digit(#[trigger] sv[j]),
                digits_end(sv, start as int) == int_end,
            decreases n - i,
        {
            if ndigits >= 25 {
                proof {
                    lemma_digits_end(sv, fstart as int);
                    let e = digits_end(sv, fstart as int);
                    if e < i + 1 {
                        assert(is_digit(sv[e]));
                    }
                    assert(e >= i + 1);
                }
                return Err(QuantityParseError::BadNumber);
            }
            let c = s.get_char(i);
            let d = (c as u32 - '0' as u32) as u128;
            proof {
                lemma_pow10_fits();
                lemma_pow10_mono((ndigits + 1) as nat, 38);
                assert(mant * 10 + d < pow10((ndigits + 1) as nat)) by (nonlinear_arith)
                    requires
                        mant < pow10(ndigits as nat),
                        d < 10,
                        pow10((ndigits + 1) as nat) == 10 * pow10(ndigits as nat),
                ;
                let pre = int_digits + sv.subrange(fstart as int, i as int);
                let post = int_digits + sv.subrange(fstart as int, i + 1);
                assert(post.drop_last() =~= pre);
                assert(post.last() == sv[i as int]);
            }
            mant = mant * 10 + d;
            ndigits = ndigits + 1;
            scale = scale + 1;
            i = i + 1;
        }
        proof {
            lemma_digits_end_is(sv, fstart as int, i as int);
            frac_digits = sv.subrange(fstart as int, i as int);
        }
    } else {
        proof {
            assert(int_digits + frac_digits =~= int_digits);
        }
    }
    if ndigits == 0 {
        return Err(QuantityParseError::BadNumber);
    }
    let ghost parts = quantity_parts(sv).unwrap();
    proof {
        assert(parts.neg == neg);
        assert(parts.int_digits == int_digits);
        assert(parts.frac_digits =~= frac_digits);
        assert(parts.suffix =~= sv.subrange(i as int, n as int));
        assert(parts.suffix.len() == n - i);
        assert(forall|k: int|
            0 <= k < parts.suffix.len() ==> #[trigger] parts.suffix[k] == sv[i + k]);
    }
    // The unit suffix is whatever follows the digits.
    let sfx_len = n - i;
    let mult: u128;
    if cpu {
        if sfx_len == 0 {
            mult = 1000;
        } else if sfx_len == 1 && s.get_char(i) == 'm' {
            mult = 1;
        } else {
            return Err(QuantityParseError::BadSuffix);
        }
        proof {
            assert(cpu_mult(parts.suffix) == Some(mult as int));
        }
    } else {
        if sfx_len == 0 {
            mult = 1;
        } else if sfx_len == 1 {
            let c = s.get_char(i);
            if c == 'k' {
                mult = 1000;
            } else if c == 'M' {
                mult = 1000000;
            } else if c == 'G' {
                mult = 1000000000;
            } else if c == 'T' {
                mult = 1000000000000;
            } else {
                return Err(QuantityParseError::BadSuffix);
            }
        } else if sfx_len == 2 && s.get_char(i + 1) == 'i' {
            let c = s.get_char(i);
            if c == 'K' {
                mult = 1024;
            } else if c == 'M' {
                mult = 1048576;
            } else if c == 'G' {
                mult = 1073741824;
            } else if c == 'T' {
                mult = 1099511627776;
            } else {
                return Err(QuantityParseError::BadSuffix);
            }
        } else {
            return Err(QuantityParseError::BadSuffix);
        }
        proof {
            assert(memory_mult(parts.suffix) == Some(mult as int));
        }
    }
    // mant < 10^25 and mult <= 2^40 < 10^13, so the product stays below 10^38.
    proof {
        lemma_pow10_fits();
        lemma_pow10_mono(ndigits as nat, 25);
        assert(mant * mult < pow10(38)) by (nonlinear_arith)
            requires
                0 <= mant < pow10(25),
                0 < mult <= 1099511627776,
                pow10(25) * pow10(13) == pow10(38),
                pow10(13) == 10000000000000,
        ;
    }
    let product = mant * mult;
    let p10 = pow10_u128(scale);
    proof {
        lemma_pow10_mono(scale as nat, 38);
        assert(p10 > 0);
    }
    if product % p10 != 0 {
        return Err(QuantityParseError::NotExact);
    }
    let mag = product / p10;
    if neg {
        if mag > 0x8000000000000000u128 {
            return Err(QuantityParseError::OutOfRange);
        }
        if mag == 0x8000000000000000u128 {
            return Ok(i64::MIN);
        }
        Ok(-(mag as i64))
    } else {
        if mag > 0x7fffffffffffffffu128 {
            return Err(QuantityParseError::OutOfRange);
        }
        Ok(mag as i64)
    }
}

pub open spec fn digit_char(d: int) -> char {
    if d == 0 {
        '0'
    } else if d == 1 {
        '1'
    } else if d == 2 {
        '2'
    } else if d == 3 {
        '3'
    } else if d == 4 {
        '4'
    } else if d == 5 {
        '5'
    } else if d == 6 {
        '6'
    } else if d == 7 {
        '7'
    } else if d == 8 {
        '8'
    } else {
        '9'
    }
}

/// The base-ten digit string of `n`, most significant digit first.
pub open spec fn spec_digits(n: nat) -> Seq<char>
    decreases n,
{
    if n < 10 {
        seq![digit_char(n as int)]
    } else {
        spec_digits(n / 10).push(digit_char((n % 10) as int))
    }
}

pub proof fn lemma_digit_char(d: int)
    requires
        0 <= d <= 9,
    ensures
        is_digit(digit_char(d)),
        digit_val(digit_char(d)) == d,
{
}

/// Formatting then reading digits is the identity: `spec_digits(n)` is all
/// digits and denotes `n`.
pub proof fn lemma_spec_digits(n: nat)
    ensures
        all_digits(spec_digits(n)),
        digits_val(spec_digits(n)) == n,
        1 <= spec_digits(n).len(),
        n < pow10(spec_digits(n).len()),
    decreases n,
{
    if n < 10 {
        lemma_digit_char(n as int);
        assert(digits_val(Seq::<char>::empty()) == 0);
        assert(pow10(0) == 1);
        assert(spec_digits(n).drop_last() =~= Seq::<char>::empty());
        assert(spec_digits(n).last() == digit_char(n as int));
    } else {
        lemma_spec_digits(n / 10);
        lemma_digit_char((n % 10) as int);
        let p = spec_digits(n / 10);
        let r = p.push(digit_char((n % 10) as int));
        assert(spec_digits(n) == r);
        assert(r.drop_last() =~= p);
        assert(r.last() == digit_char((n % 10) as int));
        assert(digits_val(r) == digits_val(p) * 10 + digit_val(r.last()));
        assert(digits_val(r) == (n / 10) * 10 + (n % 10));
        assert(r.len() == p.len() + 1);
        assert(pow10(r.len()) == 10 * pow10(p.len()));
        assert(n == 10 * (n / 10) + n % 10);
        assert(forall|i: int| 0 <= i < r.len() ==> is_digit(#[trigger] r[i])) by {
            assert(forall|i: int| 0 <= i < p.len() ==> #[trigger] r[i] == p[i]);
        }
        assert(n < 10 * pow10(p.len())) by (nonlinear_arith)
            requires
                n / 10 < pow10(p.len()),
                n == 10 * (n / 10) + n % 10,
                n % 10 < 10,
        ;
    }
}

pub proof fn lemma_spec_digits_len(n: nat, k: nat)
    requires
        n < pow10(k),
        1 <= k,
    ensures
        spec_digits(n).len() <= k,
    decreases n,
{
    if n < 10 {
    } else {
        if k == 1 {
            reveal_with_fuel(pow10, 2);
            assert(false);
        } else {
            assert(n / 10 < pow10((k - 1) as nat)) by (nonlinear_arith)
                requires
                    n < pow10(k),
                    pow10(k) == 10 * pow10((k - 1) as nat),
                    n >= 10,
            ;
            lemma_spec_digits_len(n / 10, (k - 1) as nat);
        }
    }
}

/// The single-character string that holds the digit `d`.
fn digit_str(d: u64) -> (r: &'static str)
    requires
        d < 10,
    ensures
        r@ =~= seq![digit_char(d as int)],
{
    let table = "0123456789";
    proof {
        reveal_strlit("0123456789");
        assert(table.is_ascii());
    }
    let r = table.substring_ascii(d as usize, d as usize + 1);
    proof {
        assert(r@ =~= seq![digit_char(d as int)]);
    }
    r
}

/// Writes `n` in base ten.
pub fn u64_to_string(n: u64) -> (r: String)
    ensures
        r@ == spec_digits(n as nat),
    decreases n,
{
    if n < 10 {
        String::from_str(digit_str(n))
    } else {
        let mut s = u64_to_string(n / 10);
        s.append(digit_str(n % 10));
        proof {
            assert(spec_digits((n / 10) as nat).push(digit_char((n % 10) as int)) =~= spec_digits(
                (n / 10) as nat,
            ) + seq![digit_char((n % 10) as int)]);
        }
        s
    }
}

/// Formats a whole number of millicores, as in `"150m"`.
pub fn format_cpu_millicores(mc: u64) -> (q: Quantity)
    ensures
        q@ == spec_digits(mc as nat).push('m'),
{
    let mut s = u64_to_string(mc);
    s.append("m");
    proof {
        reveal_strlit("m");
        assert(spec_digits(mc as nat) + "m"@ =~= spec_digits(mc as nat).push('m'));
    }
    Quantity(s)
}

/// The memory unit suffixes this codec writes.
#[derive(Clone, Copy, Debug, PartialEq, Eq, Structural)]
pub enum MemoryUnit {
    Bytes,
    Kilo,
    Mega,
    Giga,
    Tera,
    Kibi,
    Mebi,
    Gibi,
    Tebi,
}

pub open spec fn unit_suffix(u: MemoryUnit) -> Seq<char> {
    match u {
        MemoryUnit::Bytes => Seq::empty(),
        MemoryUnit::Kilo => seq!['k'],
        MemoryUnit::Mega => seq!['M'],
        MemoryUnit::Giga => seq!['G'],
        MemoryUnit::Tera => seq!['T'],
        MemoryUnit::Kibi => seq!['K', 'i'],
        MemoryUnit::Mebi => seq!['M', 'i'],
        MemoryUnit::Gibi => seq!['G', 'i'],
        MemoryUnit::Tebi => seq!['T', 'i'],
    }
}

pub open spec fn unit_mult(u: MemoryUnit) -> int {
    match u {
        MemoryUnit::Bytes => 1,
        MemoryUnit::Kilo => 1000,
        MemoryUnit::Mega => 1000000,
        MemoryUnit::Giga => 1000000000,
        MemoryUnit::Tera => 1000000000000,
        MemoryUnit::Kibi => 1024,
        MemoryUnit::Mebi => 1048576,
        MemoryUnit::Gibi => 1073741824,
        MemoryUnit::Tebi => 1099511627776,
    }
}

/// Formats a count of memory units, as in `"512Mi"`.
pub fn format_memory(n: u64, u: MemoryUnit) -> (q: Quantity)
    ensures
        q@ == spec_digits(n as nat) + unit_suffix(u),
{
    let mut s = u64_to_string(n);
    match u {
        MemoryUnit::Bytes => {
            proof {
                assert(s@ + unit_suffix(u) =~= s@);
            }
        },
        MemoryUnit::Kilo => {
            s.append("k");
            proof {
                reveal_strlit("k");
                assert("k"@ =~= unit_suffix(u));
            }
        },
        MemoryUnit::Mega => {
            s.append("M");
            proof {
                reveal_strlit("M");
                assert("M"@ =~= unit_suffix(u));
            }
        },
        MemoryUnit::Giga => {
            s.append("G");
            proof {
                reveal_strlit("G");
                assert("G"@ =~= unit_suffix(u));
            }
        },
        MemoryUnit::Tera => {
            s.append("T");
            proof {
                reveal_strlit("T");
                assert("T"@ =~= unit_suffix(u));
            }
        },
        MemoryUnit::Kibi => {
            s.append("Ki");
            proof {
                reveal_strlit("Ki");
                assert("Ki"@ =~= unit_suffix(u));
            }
        },
        MemoryUnit::Mebi => {
            s.append("Mi");
            proof {
                reveal_strlit("Mi");
                assert("Mi"@ =~= unit_suffix(u));
            }
        },
        MemoryUnit::Gibi => {
            s.append("Gi");
            proof {
                reveal_strlit("Gi");
                assert("Gi"@ =~= unit_suffix(u));
            }
        },
        MemoryUnit::Tebi => {
            s.append("Ti");
            proof {
                reveal_strlit("Ti");
                assert("Ti"@ =~= unit_suffix(u));
            }
        },
    }
    Quantity(s)
}

/// A digit string for a 64-bit number, followed by a suffix that opens with
/// neither a digit nor a decimal point, splits back into exactly those parts.
proof fn lemma_quantity_shape(nv: nat, sfx: Seq<char>)
    requires
        nv < 0x10000000000000000,
        sfx.len() > 0 ==> !is_digit(sfx[0]) && sfx[0] != '.',
    ensures
        quantity_parts(spec_digits(nv) + sfx) == Some(
            QuantityParts {
                neg: false,
                int_digits: spec_digits(nv),
                frac_digits: Seq::<char>::empty(),
                suffix: sfx,
            },
        ),
        1 <= spec_digits(nv).len() <= 20,
        digits_val(spec_digits(nv)) == nv,
        all_digits(spec_digits(nv)),
{
    reveal_with_fuel(pow10, 21);
    assert(pow10(20) == 100000000000000000000);
    lemma_spec_digits(nv);
    lemma_spec_digits_len(nv, 20);
    let d = spec_digits(nv);
    let s = d + sfx;
    assert(forall|j: int| 0 <= j < d.len() ==> #[trigger] s[j] == d[j]);
    assert(forall|j: int| d.len() <= j < s.len() ==> #[trigger] s[j] == sfx[j - d.len()]);
    assert(is_digit(s[0]));
    assert(s[0] != '-');
    assert(forall|j: int| 0 <= j < d.len() ==> is_digit(#[trigger] s[j]));
    if sfx.len() > 0 {
        assert(!is_digit(s[d.len() as int]));
    }
    lemma_digits_end_is(s, 0, d.len() as int);
    assert(s.subrange(0, d.len() as int) =~= d);
    assert(s.subrange(d.len() as int, s.len() as int) =~= sfx);
}

/// CPU round trip with the millicore unit: formatting a millicore count and
/// parsing it back returns the same count.
pub proof fn lemma_cpu_millicores_round_trip(mc: u64)
    requires
        mc <= 0x7fffffffffffffff,
    ensures
        spec_parse_cpu(spec_digits(mc as nat).push('m')) == Ok::<int, QuantityParseError>(
            mc as int,
        ),
{
    let d = spec_digits(mc as nat);
    assert(d.push('m') =~= d + seq!['m']);
    lemma_quantity_shape(mc as nat, seq!['m']);
    let p = quantity_parts(d + seq!['m']).unwrap();
    assert(cpu_mult(p.suffix) == Some(1int));
    assert(p.int_digits + p.frac_digits =~= d);
    assert(pow10(0) == 1);
    assert((digits_val(d) * 1) % 1 == 0);
}

/// CPU round trip with the whole-core unit: formatting a core count and
/// parsing it back returns a thousand millicores per core.
pub proof fn lemma_cpu_cores_round_trip(c: u64)
    requires
        c * 1000 <= 0x7fffffffffffffff,
    ensures
        spec_parse_cpu(spec_digits(c as nat)) == Ok::<int, QuantityParseError>(1000 * c),
{
    let d = spec_digits(c as nat);
    assert(d =~= d + Seq::<char>::empty());
    lemma_quantity_shape(c as nat, Seq::empty());
    let p = quantity_parts(d + Seq::<char>::empty()).unwrap();
    assert(cpu_mult(p.suffix) == Some(1000int));
    assert(p.int_digits + p.frac_digits =~= d);
    assert(pow10(0) == 1);
    assert((digits_val(d) * 1000) % 1 == 0);
}

/// Memory round trip: formatting a count of any recognized memory unit and
/// parsing it back returns exactly that count of the unit in bytes.
pub proof fn lemma_memory_round_trip(n: u64, u: MemoryUnit)
    requires
        n * unit_mult(u) <= 0x7fffffffffffffff,
    ensures
        spec_parse_memory(spec_digits(n as nat) + unit_suffix(u)) == Ok::<
            int,
            QuantityParseError,
        >(n * unit_mult(u)),
{
    let d = spec_digits(n as nat);
    let sfx = unit_suffix(u);
    lemma_quantity_shape(n as nat, sfx);
    let p = quantity_parts(d + sfx).unwrap();
    assert(memory_mult(p.suffix) == Some(unit_mult(u)));
    assert(p.int_digits + p.frac_digits =~= d);
    assert(pow10(0) == 1);
    assert((digits_val(d) * unit_mult(u)) % 1 == 0);
    assert(n * unit_mult(u) >= 0) by (nonlinear_arith)
        requires unit_mult(u) >= 1,
    ;
}

/// Decodes a CPU quantity to millicores: a bare number counts whole cores,
/// the `m` suffix counts millicores.
pub fn parse_cpu(q: &Quantity) -> (r: Result<i64, QuantityParseError>)
    ensures
        ({
            let sr = spec_parse_cpu(q@);
            match r {
                Ok(v) => sr == Ok::<int, QuantityParseError>(v as int),
                Err(e) => sr == Err::<int, QuantityParseError>(e),
            }
        }),
{
    parse_quantity(q.0.as_str(), true)
}

/// Decodes a memory quantity to bytes: a bare number counts bytes, `Ki`
/// through `Ti` count powers of 1024, `k` through `T` powers of 1000.
pub fn parse_memory(q: &Quantity) -> (r: Result<i64, QuantityParseError>)
    ensures
        ({
            let sr = spec_parse_memory(q@);
            match r {
                Ok(v) => sr == Ok::<int, QuantityParseError>(v as int),
                Err(e) => sr == Err::<int, QuantityParseError>(e),
            }
        }),
{
    parse_quantity(q.0.as_str(), false)
}

} // verus!
