//! Money handling: rendering cent amounts as `$X.YY` strings and parsing
//! decimal dollar amounts into integer cents.  All arithmetic is exact
//! integer arithmetic; values beyond the `i64` range are clamped.

use vstd::prelude::*;
use crate::text::{
    all_digits, chars_of_str, dec_int, dec_nat, digit_char, digit_val, digits_val, is_digit,
    lemma_dec_nat_digits, lemma_digit_char_val, push_dec_i64, string_from_chars, to_upper_char,
    upper_char,
};

verus! {

/// Clamps a mathematical integer into the `i64` range.
pub open spec fn sat_i64(x: int) -> int {
    if x > i64::MAX {
        i64::MAX as int
    } else if x < i64::MIN {
        i64::MIN as int
    } else {
        x
    }
}

/// Saturating addition on cent amounts.
pub fn sat_add_i64(a: i64, b: i64) -> (r: i64)
    ensures
        r as int == sat_i64(a + b),
{
    match a.checked_add(b) {
        Some(v) => v,
        None => {
            if b > 0 {
                i64::MAX
            } else {
                i64::MIN
            }
        }
    }
}

/// Saturating subtraction on cent amounts.
pub fn sat_sub_i64(a: i64, b: i64) -> (r: i64)
    ensures
        r as int == sat_i64(a - b),
{
    match a.checked_sub(b) {
        Some(v) => v,
        None => {
            if b < 0 {
                i64::MAX
            } else {
                i64::MIN
            }
        }
    }
}

/// Clamps a 128-bit value into the `i64` range.
pub fn clamp_i128_to_i64(x: i128) -> (r: i64)
    ensures
        r as int == sat_i64(x as int),
{
    if x > i64::MAX as i128 {
        i64::MAX
    } else if x < i64::MIN as i128 {
        i64::MIN
    } else {
        x as i64
    }
}

/// What `format_dollars` returns: the decimal rendering of the cent
/// amount, split so that the last two characters follow the point;
/// short renderings are padded with zeros.
pub open spec fn spec_format_dollars(c: int) -> Seq<char> {
    let s = dec_int(c);
    if s.len() >= 3 {
        seq!['$'] + s.take(s.len() - 2) + seq!['.'] + s.skip(s.len() - 2)
    } else if s.len() == 2 {
        seq!['$', '0', '.'] + s
    } else {
        seq!['$', '0', '.', '0'] + s
    }
}

/// Renders a cent amount as a dollar string, e.g. `1234` as `"$12.34"`.
pub fn format_dollars(cents: &i64) -> (r: String)
    ensures
        r@ == spec_format_dollars(*cents as int),
{
    let mut digits: Vec<char> = Vec::new();
    push_dec_i64(*cents, &mut digits);
    let mut out: Vec<char> = Vec::new();
    out.push('$');
    if digits.len() >= 3 {
        let mut i: usize = 0;
        let cut: usize = digits.len() - 2;
        while i < cut
            invariant
                cut == digits@.len() - 2,
                i <= cut,
                digits@ == dec_int(*cents as int),
                out@ == seq!['$'] + digits@.take(i as int),
            decreases cut - i,
        {
            out.push(digits[i]);
            proof {
                assert(out@ =~= seq!['$'] + digits@.take(i + 1));
            }
            i = i + 1;
        }
        out.push('.');
        out.push(digits[cut]);
        out.push(digits[cut + 1]);
        proof {
            assert(out@ =~= spec_format_dollars(*cents as int));
        }
    } else if digits.len() == 2 {
        out.push('0');
        out.push('.');
        out.push(digits[0]);
        out.push(digits[1]);
        proof {
            assert(out@ =~= spec_format_dollars(*cents as int));
        }
    } else {
        out.push('0');
        out.push('.');
        out.push('0');
        if digits.len() == 1 {
            out.push(digits[0]);
        }
        proof {
            lemma_dec_nat_digits((*cents) as nat);
            assert(dec_int(*cents as int).len() >= 1);
            assert(out@ =~= spec_format_dollars(*cents as int));
        }
    }
    string_from_chars(&out)
}

/// Index of the first `'.'` in the sequence, or its length if there is none.
pub open spec fn first_dot(u: Seq<char>) -> int
    decreases u.len(),
{
    if u.len() == 0 {
        0
    } else if u[0] == '.' {
        0
    } else {
        1 + first_dot(u.skip(1))
    }
}

pub proof fn lemma_first_dot_at(u: Seq<char>, k: int)
    requires
        0 <= k <= u.len(),
        forall|i: int| 0 <= i < k ==> u[i] != '.',
        k == u.len() || u[k] == '.',
    ensures
        first_dot(u) == k,
    decreases u.len(),
{
    if u.len() == 0 {
    } else if u[0] == '.' {
    } else {
        lemma_first_dot_at(u.skip(1), k - 1);
    }
}

/// The integer part of a decimal body: everything before the first dot.
pub open spec fn int_part(u: Seq<char>) -> Seq<char> {
    u.take(first_dot(u))
}

/// The fractional part of a decimal body: everything after the first dot.
pub open spec fn frac_part(u: Seq<char>) -> Seq<char> {
    if first_dot(u) < u.len() {
        u.skip(first_dot(u) + 1)
    } else {
        Seq::<char>::empty()
    }
}

/// A valid unsigned decimal body: digits around at most one dot, with
/// at least one digit overall.
pub open spec fn valid_decimal_body(u: Seq<char>) -> bool {
    &&& all_digits(int_part(u))
    &&& all_digits(frac_part(u))
    &&& int_part(u).len() + frac_part(u).len() > 0
}

/// Cents denoted by the first two fractional digits, missing digits
/// reading as zero; further digits are truncated away.
pub open spec fn frac_cents(f: Seq<char>) -> nat {
    if f.len() == 0 {
        0
    } else if f.len() == 1 {
        digit_val(f[0]) * 10
    } else {
        digit_val(f[0]) * 10 + digit_val(f[1])
    }
}

/// Exact cent value of an unsigned decimal body.
pub open spec fn decimal_body_cents(u: Seq<char>) -> int {
    digits_val(int_part(u)) * 100 + frac_cents(frac_part(u)) as int
}

/// Cent value of a signed decimal amount string, clamped to `i64`;
/// `None` when the text is not a decimal amount.
pub open spec fn spec_decimal_cents(t: Seq<char>) -> Option<int> {
    if t.len() == 0 {
        None
    } else {
        let u = if t[0] == '-' || t[0] == '+' {
            t.skip(1)
        } else {
            t
        };
        if valid_decimal_body(u) {
            if t[0] == '-' {
                Some(sat_i64(-decimal_body_cents(u)))
            } else {
                Some(sat_i64(decimal_body_cents(u)))
            }
        } else {
            None
        }
    }
}

/// Scans `v[lo..hi]`; the outer option is `None` when a non-digit occurs,
/// the inner option is `None` when the value exceeds `i64::MAX`.
pub fn scan_digits_val(v: &Vec<char>, lo: usize, hi: usize) -> (r: Option<Option<i64>>)
    requires
        lo <= hi <= v@.len(),
    ensures
        r is Some <==> all_digits(v@.subrange(lo as int, hi as int)),
        r matches Some(acc) ==> {
            let val = digits_val(v@.subrange(lo as int, hi as int));
            &&& (acc matches Some(x) ==> x == val && val <= i64::MAX)
            &&& (acc is None ==> val > i64::MAX)
        },
{
    let mut i: usize = lo;
    let mut acc: Option<i64> = Some(0i64);
    while i < hi
        invariant
            lo <= i <= hi <= v@.len(),
            all_digits(v@.subrange(lo as int, i as int)),
            acc matches Some(x) ==> x == digits_val(v@.subrange(lo as int, i as int))
                && digits_val(v@.subrange(lo as int, i as int)) <= i64::MAX,
            acc is None ==> digits_val(v@.subrange(lo as int, i as int)) > i64::MAX,
        decreases hi - i,
    {
        let c = v[i];
        let n: u32 = c as u32;
        if !(48 <= n && n <= 57) {
            proof {
                assert(v@.subrange(lo as int, hi as int)[i - lo] == c);
            }
            return None;
        }
        let d: i64 = (n - 48) as i64;
        proof {
            assert(v@.subrange(lo as int, i + 1).drop_last() =~= v@.subrange(
                lo as int,
                i as int,
            ));
            assert(v@.subrange(lo as int, i + 1).last() == c);
        }
        let ghost pre = digits_val(v@.subrange(lo as int, i as int));
        let ghost post = digits_val(v@.subrange(lo as int, i + 1));
        proof {
            assert(post == pre * 10 + digit_val(c));
        }
        acc = match acc {
            Some(x) => {
                match x.checked_mul(10) {
                    Some(y) => {
                        match y.checked_add(d) {
                            Some(z) => Some(z),
                            None => None,
                        }
                    }
                    None => None,
                }
            }
            None => {
                proof {
                    assert(pre * 10 + digit_val(c) > i64::MAX) by (nonlinear_arith)
                        requires
                            pre > i64::MAX,
                            digit_val(c) >= 0,
                    ;
                }
                None
            }
        };
        i = i + 1;
    }
    Some(acc)
}

/// Parses `v[from..]` as a signed decimal amount and returns its cent
/// value clamped to `i64`.
pub fn parse_decimal_chars(v: &Vec<char>, from: usize) -> (r: Option<i64>)
    requires
        from <= v@.len(),
    ensures
        r matches Some(x) ==> spec_decimal_cents(v@.skip(from as int)) == Some(x as int),
        r is None ==> spec_decimal_cents(v@.skip(from as int)) is None,
{
    let ghost t = v@.skip(from as int);
    if from == v.len() {
        return None;
    }
    let c0 = v[from];
    let neg = c0 == '-';
    let body: usize = if c0 == '-' || c0 == '+' {
        from + 1
    } else {
        from
    };
    let ghost u = v@.skip(body as int);
    proof {
        assert(t[0] == c0);
        if c0 == '-' || c0 == '+' {
            assert(t.skip(1) =~= u);
        }
    }
    // find the first dot inside the body
    let mut j: usize = body;
    while j < v.len() && v[j] != '.'
        invariant
            body <= j <= v@.len(),
            forall|i: int| body <= i < j ==> v@[i] != '.',
        decreases v@.len() - j,
    {
        j = j + 1;
    }
    proof {
        assert(forall|i: int| 0 <= i < j - body ==> u[i] != '.');
        if j < v@.len() {
            assert(u[j - body] == '.');
        }
        lemma_first_dot_at(u, j - body);
        assert(int_part(u) =~= v@.subrange(body as int, j as int));
    }
    let int_val = scan_digits_val(v, body, j);
    let Some(int_acc) = int_val else {
        return None;
    };
    // the fractional part, when a dot is present
    let flo: usize = if j < v.len() {
        j + 1
    } else {
        j
    };
    proof {
        assert(frac_part(u) =~= v@.subrange(flo as int, v@.len() as int));
    }
    let frac_ok = scan_digits_val(v, flo, v.len());
    if frac_ok.is_none() {
        return None;
    }
    let frac_len: usize = v.len() - flo;
    if j == body && frac_len == 0 {
        // no digits at all
        return None;
    }
    let ghost fp = frac_part(u);
    let f2: i64 = if frac_len == 0 {
        0
    } else if frac_len == 1 {
        let d0: i64 = (v[flo] as u32 - 48) as i64;
        proof {
            assert(fp[0] == v@[flo as int]);
            assert(is_digit(fp[0]));
        }
        d0 * 10
    } else {
        let d0: i64 = (v[flo] as u32 - 48) as i64;
        let d1: i64 = (v[flo + 1] as u32 - 48) as i64;
        proof {
            assert(fp[0] == v@[flo as int]);
            assert(fp[1] == v@[flo + 1]);
            assert(is_digit(fp[0]) && is_digit(fp[1]));
        }
        d0 * 10 + d1
    };
    proof {
        assert(f2 == frac_cents(fp));
        assert(valid_decimal_body(u));
    }
    let magnitude: Option<i64> = match int_acc {
        Some(x) => {
            match x.checked_mul(100) {
                Some(y) => y.checked_add(f2),
                None => None,
            }
        }
        None => {
            proof {
                assert(digits_val(int_part(u)) * 100 + frac_cents(fp) > i64::MAX)
                    by (nonlinear_arith)
                    requires
                        digits_val(int_part(u)) > i64::MAX,
                        frac_cents(fp) >= 0,
                ;
            }
            None
        }
    };
    if neg {
        match magnitude {
            Some(m) => {
                proof {
                    assert(sat_i64(-decimal_body_cents(u)) == -m as int);
                }
                Some(-m)
            }
            None => Some(i64::MIN),
        }
    } else {
        match magnitude {
            Some(m) => Some(m),
            None => Some(i64::MAX),
        }
    }
}

/// Parses a dollar amount string: an optional leading `'$'`, then a
/// signed decimal amount.  Returns the clamped cent value, or the error
/// code for an empty or non-numeric string.
pub fn parse_dollar_string(s: &str) -> (r: Result<i64, String>)
    ensures
        ({
            let cs = s@;
            let t = if cs.len() > 0 && cs[0] == '$' {
                cs.skip(1)
            } else {
                cs
            };
            if cs.len() == 0 {
                r matches Err(e) && e@ == "empty_dollar_string"@
            } else {
                match spec_decimal_cents(t) {
                    Some(x) => r matches Ok(v) && v as int == x,
                    None => r matches Err(e) && e@ == "not_a_number"@,
                }
            }
        }),
{
    let cs = chars_of_str(s);
    if cs.len() == 0 {
        return Err(String::from_str("empty_dollar_string"));
    }
    let start: usize = if cs[0] == '$' {
        1
    } else {
        0
    };
    proof {
        if cs@[0] == '$' {
            assert(cs@.skip(1) =~= s@.skip(1));
        } else {
            assert(cs@.skip(0) =~= s@);
        }
    }
    match parse_decimal_chars(&cs, start) {
        Some(v) => Ok(v),
        None => Err(String::from_str("not_a_number")),
    }
}

pub proof fn lemma_dec_nat_append_digit(n: nat, r: nat)
    requires
        n >= 1,
        r < 10,
    ensures
        dec_nat(n * 10 + r) == dec_nat(n) + seq![digit_char(r)],
{
    let m = n * 10 + r;
    assert(m >= 10 && m / 10 == n && m % 10 == r) by (nonlinear_arith)
        requires
            n >= 1,
            r < 10,
            m == n * 10 + r,
    ;
}

/// Law: parsing the conventional decimal rendering `D.FF` of a dollar
/// amount yields exactly `100 * D + FF` cents, and `format_dollars`
/// renders that cent amount back as `$D.FF`.  A bare integer amount
/// `D` parses to `100 * D` cents and renders as `$D.00`.
pub proof fn lemma_parse_format_dollars(d: nat, f: nat)
    requires
        f < 100,
        d * 100 + f <= i64::MAX,
    ensures
        spec_decimal_cents(dec_nat(d) + seq!['.', digit_char(f / 10), digit_char(f % 10)])
            == Some((d * 100 + f) as int),
        spec_decimal_cents(dec_nat(d)) == Some((d * 100) as int),
        spec_format_dollars(d * 100 + f as int) == seq!['$'] + dec_nat(d) + seq![
            '.',
            digit_char(f / 10),
            digit_char(f % 10),
        ],
{
    lemma_dec_nat_digits(d);
    lemma_digit_char_val(f / 10);
    lemma_digit_char_val(f % 10);
    let ds = dec_nat(d);
    let fr = seq![digit_char(f / 10), digit_char(f % 10)];
    assert(f / 10 * 10 + f % 10 == f) by (nonlinear_arith)
        requires
            f < 100,
    ;
    // the parse direction, with the fraction
    let input = ds + seq!['.', digit_char(f / 10), digit_char(f % 10)];
    assert(is_digit(input[0]) && input[0] != '-' && input[0] != '+' && input[0] != '$');
    assert(forall|i: int| 0 <= i < ds.len() ==> input[i] == ds[i] && is_digit(#[trigger] input[i]));
    assert(forall|i: int| 0 <= i < ds.len() ==> #[trigger] input[i] != '.');
    assert(input[ds.len() as int] == '.');
    lemma_first_dot_at(input, ds.len() as int);
    assert(int_part(input) =~= ds);
    assert(frac_part(input) =~= fr);
    assert(frac_cents(fr) == f);
    assert(decimal_body_cents(input) == d * 100 + f);
    assert(sat_i64(d * 100 + f as int) == d * 100 + f);
    // the parse direction, without a fraction
    assert(forall|i: int| 0 <= i < ds.len() ==> #[trigger] ds[i] != '.');
    lemma_first_dot_at(ds, ds.len() as int);
    assert(int_part(ds) =~= ds);
    assert(frac_part(ds) =~= Seq::<char>::empty());
    assert(decimal_body_cents(ds) == d * 100);
    assert(d * 100 <= d * 100 + f) by (nonlinear_arith)
        requires
            f >= 0,
    ;
    assert(sat_i64(d * 100 as int) == d * 100);
    // the format direction
    let c = (d * 100 + f) as int;
    assert(dec_int(c) == dec_nat((d * 100 + f) as nat));
    if d == 0 {
        if f >= 10 {
            assert(dec_nat(f) == dec_nat(f / 10) + seq![digit_char(f % 10)]);
            assert(dec_nat(f / 10) =~= seq![digit_char(f / 10)]);
            assert(dec_nat(f) =~= fr);
            assert(spec_format_dollars(c) =~= seq!['$'] + ds + seq![
                '.',
                digit_char(f / 10),
                digit_char(f % 10),
            ]);
        } else {
            assert(dec_nat(f) =~= seq![digit_char(f)]);
            assert(digit_char(f / 10) == '0');
            assert(spec_format_dollars(c) =~= seq!['$'] + ds + seq![
                '.',
                digit_char(f / 10),
                digit_char(f % 10),
            ]);
        }
    } else {
        let n1 = d * 10 + f / 10;
        assert(n1 * 10 + f % 10 == d * 100 + f) by (nonlinear_arith)
            requires
                n1 == d * 10 + f / 10,
                f / 10 * 10 + f % 10 == f,
        ;
        assert(n1 >= 1 && f % 10 < 10) by (nonlinear_arith)
            requires
                d >= 1,
                f < 100,
                n1 == d * 10 + f / 10,
        ;
        lemma_dec_nat_append_digit(n1, f % 10);
        assert(d >= 1 && f / 10 < 10);
        lemma_dec_nat_append_digit(d, f / 10);
        let s = dec_nat((d * 100 + f) as nat);
        assert(s == ds + seq![digit_char(f / 10)] + seq![digit_char(f % 10)]);
        assert(s.len() == ds.len() + 2);
        assert(s.take(s.len() - 2) =~= ds);
        assert(s.skip(s.len() - 2) =~= fr);
        assert(spec_format_dollars(c) =~= seq!['$'] + ds + seq![
            '.',
            digit_char(f / 10),
            digit_char(f % 10),
        ]);
    }
}

/// What `to_title_case` returns: the first character upper-cased, or the
/// second one when the string carries the automatic-payment `'*'` prefix.
pub open spec fn spec_title_case(s: Seq<char>) -> Seq<char> {
    if s.len() == 0 {
        s
    } else if s[0] == '*' {
        if s.len() >= 2 {
            s.update(1, upper_char(s[1]))
        } else {
            s
        }
    } else {
        s.update(0, upper_char(s[0]))
    }
}

/// Upper-cases the leading letter of a label, skipping over the
/// automatic-payment `'*'` prefix when present.
pub fn to_title_case(s: String) -> (r: String)
    ensures
        r@ == spec_title_case(s@),
{
    let mut cs = chars_of_str(s.as_str());
    if cs.len() == 0 {
        return s;
    }
    if cs[0] == '*' {
        if cs.len() >= 2 {
            let u = to_upper_char(cs[1]);
            cs.set(1, u);
        }
    } else {
        let u = to_upper_char(cs[0]);
        cs.set(0, u);
    }
    string_from_chars(&cs)
}

} // verus!
