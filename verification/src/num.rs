//! Executable decimal parsing and formatting for the integer fields of the
//! format, and the scanner for its numeric-token grammar, each proved
//! against the sequence-level definitions of `text`.
use vstd::prelude::*;
use vstd::string::*;

use crate::chars::push_char;
use crate::text::{all_digits, char_of_digit, dec_str, dec_val, digit_val, digits_len, int_str,
    int_val, is_digit, is_digits_token, is_frac_exp, is_int_token, is_numeric_token, is_exp,
    lemma_dec_val_take_le, lemma_digits_len_full, lemma_digits_len_run, lemma_digits_region,
    sign_len};

verus! {

/// What a decimal count field denotes, when it fits a `usize`.
pub open spec fn spec_parse_usize(s: Seq<char>) -> Option<usize> {
    if is_digits_token(s) && dec_val(s) <= usize::MAX {
        Some(dec_val(s) as usize)
    } else {
        None
    }
}

/// What a signed decimal field denotes, when it fits an `i64`.
pub open spec fn spec_parse_i64(s: Seq<char>) -> Option<i64> {
    if is_int_token(s) && i64::MIN <= int_val(s) <= i64::MAX {
        Some(int_val(s) as i64)
    } else {
        None
    }
}

/// Decimal digit check.
pub(crate) fn check_digit(c: char) -> (b: bool)
    ensures
        b == is_digit(c),
{
    c == '0' || c == '1' || c == '2' || c == '3' || c == '4' || c == '5' || c == '6' || c == '7'
        || c == '8' || c == '9'
}

/// The value of a digit character.
pub(crate) fn digit_value(c: char) -> (d: u8)
    requires
        is_digit(c),
    ensures
        d as nat == digit_val(c),
        d < 10,
{
    if c == '0' {
        0
    } else if c == '1' {
        1
    } else if c == '2' {
        2
    } else if c == '3' {
        3
    } else if c == '4' {
        4
    } else if c == '5' {
        5
    } else if c == '6' {
        6
    } else if c == '7' {
        7
    } else if c == '8' {
        8
    } else {
        9
    }
}

/// The digit character of a value below ten.
pub(crate) fn digit_char(d: u8) -> (c: char)
    requires
        d < 10,
    ensures
        c == char_of_digit(d as nat),
{
    if d == 0 {
        '0'
    } else if d == 1 {
        '1'
    } else if d == 2 {
        '2'
    } else if d == 3 {
        '3'
    } else if d == 4 {
        '4'
    } else if d == 5 {
        '5'
    } else if d == 6 {
        '6'
    } else if d == 7 {
        '7'
    } else if d == 8 {
        '8'
    } else {
        '9'
    }
}

/// Reads the digits of `v` from `from` to the end as a number, refusing a
/// value over `limit`, an empty run, and any character that is no digit.
fn parse_magnitude(v: &Vec<char>, from: usize, limit: u64) -> (r: Option<u64>)
    requires
        from <= v@.len(),
        limit >= 10,
    ensures
        ({
            let t = v@.skip(from as int);
            r == if t.len() > 0 && all_digits(t) && dec_val(t) <= limit as nat {
                Some(dec_val(t) as u64)
            } else {
                None::<u64>
            }
        }),
{
    let ghost t = v@.skip(from as int);
    if from == v.len() {
        return None;
    }
    let mut val: u64 = 0;
    let mut j: usize = from;
    while j < v.len()
        invariant
            from <= j <= v@.len(),
            limit >= 10,
            t == v@.skip(from as int),
            forall|k: int| 0 <= k < j - from ==> is_digit(t[k]),
            val as nat == dec_val(t.take(j - from)),
            val <= limit,
        decreases v@.len() - j,
    {
        let c = v[j];
        proof {
            assert(t[j - from] == v@[j as int]);
        }
        if !check_digit(c) {
            return None;
        }
        let d = digit_value(c);
        proof {
            let y = t.take(j - from + 1);
            assert(y.drop_last() =~= t.take(j - from));
            assert(y.last() == t[j - from]);
            assert(dec_val(y) == dec_val(t.take(j - from)) * 10 + digit_val(t[j - from]));
        }
        if val > (limit - d as u64) / 10 {
            proof {
                let q = ((limit - d) / 10) as int;
                assert(q * 10 + (limit - d) % 10 == limit - d);
                assert(val as int * 10 >= (q + 1) * 10) by (nonlinear_arith)
                    requires val as int >= q + 1;
                assert((q + 1) * 10 == q * 10 + 10);
                assert(val as nat * 10 + d as nat > limit);
                assert(dec_val(t.take(j - from + 1)) > limit);
                lemma_dec_val_take_le(t, j - from + 1);
            }
            return None;
        }
        proof {
            let q = ((limit - d) / 10) as int;
            assert(q * 10 + (limit - d) % 10 == limit - d);
            assert(val as int * 10 <= q * 10) by (nonlinear_arith)
                requires val as int <= q;
            assert(val as int * 10 + d <= limit);
        }
        val = val * 10 + d as u64;
        j += 1;
    }
    proof {
        assert(t.take(v@.len() - from) =~= t);
        assert(all_digits(t));
    }
    Some(val)
}

/// Reads a part count: digits only, fitting a `usize`.
pub(crate) fn parse_usize_token(v: &Vec<char>) -> (r: Option<usize>)
    ensures
        r == spec_parse_usize(v@),
{
    let m = parse_magnitude(v, 0, usize::MAX as u64);
    proof {
        assert(v@.skip(0) =~= v@);
    }
    match m {
        Some(m) => Some(m as usize),
        None => None,
    }
}

/// Reads a layer: an optional sign, then digits, fitting an `i64`.
pub(crate) fn parse_i64_token(v: &Vec<char>) -> (r: Option<i64>)
    ensures
        r == spec_parse_i64(v@),
{
    let ghost s = v@;
    if v.len() == 0 {
        proof {
            assert(s.skip(0) =~= s);
        }
        return None;
    }
    let neg = v[0] == '-';
    let plus = v[0] == '+';
    let from: usize = if neg || plus {
        1
    } else {
        0
    };
    proof {
        assert(from as nat == sign_len(s));
    }
    let ghost t = s.skip(from as int);
    let limit: u64 = if neg {
        9223372036854775808u64
    } else {
        9223372036854775807u64
    };
    proof {
        if t.len() > 0 && all_digits(t) {
            lemma_digits_len_full(t);
        } else {
            lemma_digits_region(t);
        }
    }
    match parse_magnitude(v, from, limit) {
        None => None,
        Some(m) => {
            if neg {
                if m == 9223372036854775808u64 {
                    Some(i64::MIN)
                } else {
                    Some(-(m as i64))
                }
            } else {
                Some(m as i64)
            }
        },
    }
}

/// The canonical decimal rendering of a part count or index.
pub(crate) fn format_usize(n: usize) -> (r: String)
    ensures
        r@ == dec_str(n as nat),
    decreases n,
{
    if n < 10 {
        let mut s = String::new();
        push_char(&mut s, digit_char(n as u8));
        proof {
            assert(Seq::<char>::empty().push(char_of_digit(n as nat)) =~= seq![
                char_of_digit(n as nat),
            ]);
        }
        s
    } else {
        let mut s = format_usize(n / 10);
        push_char(&mut s, digit_char((n % 10) as u8));
        s
    }
}

/// The canonical decimal rendering of an unsigned value.
pub(crate) fn format_u64(n: u64) -> (r: String)
    ensures
        r@ == dec_str(n as nat),
    decreases n,
{
    if n < 10 {
        let mut s = String::new();
        push_char(&mut s, digit_char(n as u8));
        proof {
            assert(Seq::<char>::empty().push(char_of_digit(n as nat)) =~= seq![
                char_of_digit(n as nat),
            ]);
        }
        s
    } else {
        let mut s = format_u64(n / 10);
        push_char(&mut s, digit_char((n % 10) as u8));
        s
    }
}

/// The canonical rendering of a layer: a minus sign for negatives, then
/// the decimal digits.
pub(crate) fn format_i64(n: i64) -> (r: String)
    ensures
        r@ == int_str(n as int),
{
    if n >= 0 {
        format_u64(n as u64)
    } else {
        let m: u64 = if n == i64::MIN {
            9223372036854775808u64
        } else {
            (-n) as u64
        };
        let mut s = String::new();
        push_char(&mut s, '-');
        let d = format_u64(m);
        s.append(d.as_str());
        proof {
            assert(Seq::<char>::empty().push('-') =~= seq!['-']);
        }
        s
    }
}

/// Length of the digit run of `v` that starts at `from`.
fn digits_run(v: &Vec<char>, from: usize) -> (d: usize)
    requires
        from <= v@.len(),
    ensures
        d as nat == digits_len(v@.skip(from as int)),
        from + d <= v@.len(),
{
    let ghost t = v@.skip(from as int);
    let mut j: usize = from;
    while j < v.len() && (v[j] == '0' || v[j] == '1' || v[j] == '2' || v[j] == '3' || v[j] == '4'
        || v[j] == '5' || v[j] == '6' || v[j] == '7' || v[j] == '8' || v[j] == '9')
        invariant
            from <= j <= v@.len(),
            t == v@.skip(from as int),
            forall|k: int| 0 <= k < j - from ==> is_digit(t[k]),
        decreases v@.len() - j,
    {
        proof {
            assert(t[j - from] == v@[j as int]);
        }
        j += 1;
    }
    proof {
        if j < v@.len() {
            assert(t[j - from] == v@[j as int]);
            assert(!is_digit(t[j - from]));
        }
        lemma_digits_len_run(t, j - from);
    }
    j - from
}

/// Whether the exponent part of the grammar starts at `q`.
fn check_exp(v: &Vec<char>, q: usize) -> (b: bool)
    requires
        q <= v@.len(),
    ensures
        b == is_exp(v@.skip(q as int)),
{
    let ghost u = v@.skip(q as int);
    if q == v.len() {
        return true;
    }
    proof {
        assert(u[0] == v@[q as int]);
    }
    if !(v[q] == 'e' || v[q] == 'E') {
        return false;
    }
    let ghost w = v@.skip(q + 1);
    proof {
        assert(u.skip(1) =~= w);
    }
    let sl: usize = if q + 1 < v.len() && (v[q + 1] == '+' || v[q + 1] == '-') {
        1
    } else {
        0
    };
    proof {
        if w.len() > 0 {
            assert(w[0] == v@[q + 1]);
        }
        assert(sl as nat == sign_len(w));
        assert(w.skip(sl as int) =~= v@.skip(q + 1 + sl));
    }
    let d = digits_run(v, q + 1 + sl);
    d > 0 && q + 1 + sl + d == v.len()
}

/// Whether the fraction-or-exponent tail of the grammar starts at `p`.
fn check_frac_exp(v: &Vec<char>, p: usize) -> (b: bool)
    requires
        p <= v@.len(),
    ensures
        b == is_frac_exp(v@.skip(p as int)),
{
    let ghost u = v@.skip(p as int);
    if p == v.len() {
        return true;
    }
    proof {
        assert(u[0] == v@[p as int]);
    }
    if v[p] == '.' {
        let ghost f = v@.skip(p + 1);
        proof {
            assert(u.skip(1) =~= f);
        }
        let d = digits_run(v, p + 1);
        proof {
            assert(f.skip(digits_len(f) as int) =~= v@.skip(p + 1 + d));
        }
        check_exp(v, p + 1 + d)
    } else {
        check_exp(v, p)
    }
}

/// Whether `v` is a numeric token of the format's grammar.
pub(crate) fn check_numeric(v: &Vec<char>) -> (b: bool)
    ensures
        b == is_numeric_token(v@),
{
    let ghost s = v@;
    let sl: usize = if v.len() > 0 && (v[0] == '+' || v[0] == '-') {
        1
    } else {
        0
    };
    proof {
        assert(sl as nat == sign_len(s));
    }
    let ghost t = s.skip(sl as int);
    let d = digits_run(v, sl);
    if d == 0 {
        return false;
    }
    proof {
        assert(t.skip(digits_len(t) as int) =~= s.skip(sl + d));
    }
    check_frac_exp(v, sl + d)
}

/// Whether the string `s` is a numeric token: the form the format accepts
/// in every coordinate and scale field.
pub fn is_numeric_str(s: &str) -> (b: bool)
    ensures
        b == is_numeric_token(s@),
{
    let v = crate::chars::chars_of(s);
    check_numeric(&v)
}

} // verus!
