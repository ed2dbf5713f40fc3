//! Character-level ground work for the line-oriented codec: decimal digits,
//! decimal rendering and parsing, separator-based splitting and joining, and
//! the token grammars used by the interchange format.
use vstd::prelude::*;

verus! {

/// Whether `c` is a decimal digit.
pub open spec fn is_digit(c: char) -> bool {
    c == '0' || c == '1' || c == '2' || c == '3' || c == '4' || c == '5' || c == '6' || c == '7'
        || c == '8' || c == '9'
}

/// Numeric value of a decimal digit (unspecified digits collapse to 9).
pub open spec fn digit_val(c: char) -> nat {
    if c == '0' {
        0
    } else if c == '1' {
        1
    } else if c == '2' {
        2
    } else if c == '3' {
        3
    } else if c == '4' {
        4
    } else if c == '5' {
        5
    } else if c == '6' {
        6
    } else if c == '7' {
        7
    } else if c == '8' {
        8
    } else {
        9
    }
}

/// The digit character for a value below ten.
pub open spec fn char_of_digit(d: nat) -> char {
    if d == 0 {
        '0'
    } else if d == 1 {
        '1'
    } else if d == 2 {
        '2'
    } else if d == 3 {
        '3'
    } else if d == 4 {
        '4'
    } else if d == 5 {
        '5'
    } else if d == 6 {
        '6'
    } else if d == 7 {
        '7'
    } else if d == 8 {
        '8'
    } else {
        '9'
    }
}

pub proof fn lemma_char_of_digit(d: nat)
    requires
        d < 10,
    ensures
        is_digit(char_of_digit(d)),
        digit_val(char_of_digit(d)) == d,
{
}

/// Whether every character of `s` is a decimal digit.
pub open spec fn all_digits(s: Seq<char>) -> bool {
    forall|i: int| 0 <= i < s.len() ==> is_digit(s[i])
}

/// The number denoted by a string of decimal digits, most significant first.
pub open spec fn dec_val(s: Seq<char>) -> nat
    decreases s.len(),
{
    if s.len() == 0 {
        0
    } else {
        dec_val(s.drop_last()) * 10 + digit_val(s.last())
    }
}

/// The canonical decimal rendering of `n`: no sign, no leading zero.
pub open spec fn dec_str(n: nat) -> Seq<char>
    decreases n,
{
    if n < 10 {
        seq![char_of_digit(n)]
    } else {
        dec_str(n / 10).push(char_of_digit(n % 10))
    }
}

pub proof fn lemma_dec_str(n: nat)
    ensures
        dec_str(n).len() >= 1,
        all_digits(dec_str(n)),
        dec_val(dec_str(n)) == n,
    decreases n,
{
    lemma_char_of_digit(n % 10);
    if n < 10 {
        assert(dec_str(n) =~= seq![char_of_digit(n)]);
        assert(dec_val(dec_str(n)) == dec_val(seq![char_of_digit(n)].drop_last()) * 10
            + digit_val(char_of_digit(n)));
        assert(seq![char_of_digit(n)].drop_last() =~= Seq::<char>::empty());
    } else {
        lemma_dec_str(n / 10);
        let s = dec_str(n / 10).push(char_of_digit(n % 10));
        assert(s.drop_last() =~= dec_str(n / 10));
        assert(s.last() == char_of_digit(n % 10));
        assert(dec_val(s) == (n / 10) * 10 + n % 10);
        assert(forall|i: int|
            0 <= i < s.len() ==> is_digit(#[trigger] s[i])) by {
            assert(forall|i: int|
                0 <= i < dec_str(n / 10).len() ==> is_digit(#[trigger] dec_str(n / 10)[i]));
        }
    }
}

/// A digit-string prefix never denotes more than the whole string.
pub proof fn lemma_dec_val_take_le(s: Seq<char>, i: int)
    requires
        0 <= i <= s.len(),
    ensures
        dec_val(s.take(i)) <= dec_val(s),
    decreases s.len(),
{
    if i < s.len() {
        assert(s.drop_last().take(i) =~= s.take(i));
        lemma_dec_val_take_le(s.drop_last(), i);
        assert(dec_val(s) == dec_val(s.drop_last()) * 10 + digit_val(s.last()));
        assert(dec_val(s.drop_last()) <= dec_val(s.drop_last()) * 10) by (nonlinear_arith);
    } else {
        assert(s.take(i) =~= s);
    }
}

/// Index of the first occurrence of `sep` in `s`, or the length of `s`.
pub open spec fn find_sep(s: Seq<char>, sep: char) -> nat
    decreases s.len(),
{
    if s.len() == 0 {
        0
    } else if s[0] == sep {
        0
    } else {
        1 + find_sep(s.drop_first(), sep)
    }
}

/// A separator-free run up to `i`, with the separator (or the end) at `i`,
/// pins the first occurrence down.
pub proof fn lemma_find_sep_run(s: Seq<char>, sep: char, i: int)
    requires
        0 <= i <= s.len(),
        forall|j: int| 0 <= j < i ==> s[j] != sep,
        i < s.len() ==> s[i] == sep,
    ensures
        find_sep(s, sep) == i,
    decreases s.len(),
{
    if s.len() == 0 || i == 0 {
    } else {
        assert(s[0] != sep);
        let df = s.drop_first();
        assert(forall|j: int| 0 <= j < df.len() ==> #[trigger] df[j] == s[j + 1]);
        lemma_find_sep_run(df, sep, i - 1);
    }
}

/// Where no character of `s` is the separator, nothing is found.
pub proof fn lemma_find_sep_absent(s: Seq<char>, sep: char)
    requires
        forall|k: int| 0 <= k < s.len() ==> s[k] != sep,
    ensures
        find_sep(s, sep) == s.len(),
    decreases s.len(),
{
    if s.len() > 0 {
        assert(forall|k: int|
            0 <= k < s.drop_first().len() ==> #[trigger] s.drop_first()[k] != sep);
        lemma_find_sep_absent(s.drop_first(), sep);
    }
}

/// The first separator of `a + b` stands right after `a` when `a` is
/// separator-free and `b` opens with the separator.
pub proof fn lemma_find_sep_concat(a: Seq<char>, b: Seq<char>, sep: char)
    requires
        forall|k: int| 0 <= k < a.len() ==> a[k] != sep,
        b.len() > 0,
        b[0] == sep,
    ensures
        find_sep(a + b, sep) == a.len(),
    decreases a.len(),
{
    if a.len() == 0 {
        assert(a + b =~= b);
    } else {
        assert((a + b)[0] == a[0]);
        assert((a + b).drop_first() =~= a.drop_first() + b);
        assert(forall|k: int|
            0 <= k < a.drop_first().len() ==> #[trigger] a.drop_first()[k] != sep);
        lemma_find_sep_concat(a.drop_first(), b, sep);
    }
}

/// The fields of `s`, split on every occurrence of `sep`; empty fields are
/// kept, and there is always at least one field.
pub open spec fn split_on(s: Seq<char>, sep: char) -> Seq<Seq<char>>
    decreases s.len(),
{
    let i = find_sep(s, sep);
    if i < s.len() {
        seq![s.take(i as int)] + split_on(s.skip(i as int + 1), sep)
    } else {
        seq![s]
    }
}

/// The fields joined back with `sep` between each pair.
pub open spec fn join_with(parts: Seq<Seq<char>>, sep: char) -> Seq<char>
    decreases parts.len(),
{
    if parts.len() == 0 {
        Seq::empty()
    } else if parts.len() == 1 {
        parts[0]
    } else {
        parts[0] + seq![sep] + join_with(parts.drop_first(), sep)
    }
}

/// Appending one more field extends the joined text by a separator and the
/// field (by the field alone when nothing was there).
pub proof fn lemma_join_push(parts: Seq<Seq<char>>, extra: Seq<char>, sep: char)
    ensures
        parts.len() == 0 ==> join_with(parts.push(extra), sep) == extra,
        parts.len() > 0 ==> join_with(parts.push(extra), sep) == join_with(parts, sep)
            + seq![sep] + extra,
    decreases parts.len(),
{
    let p = parts.push(extra);
    if parts.len() == 0 {
        assert(p.len() == 1);
        assert(p[0] == extra);
    } else if parts.len() == 1 {
        assert(p.len() == 2);
        assert(p[0] == parts[0]);
        assert(p.drop_first() =~= seq![extra]);
        assert(join_with(p.drop_first(), sep) == extra);
    } else {
        assert(p.drop_first() =~= parts.drop_first().push(extra));
        lemma_join_push(parts.drop_first(), extra, sep);
        assert(join_with(p, sep) == p[0] + seq![sep] + join_with(p.drop_first(), sep));
        assert(p[0] == parts[0]);
        assert(join_with(parts.drop_first().push(extra), sep) == join_with(
            parts.drop_first(),
            sep,
        ) + seq![sep] + extra);
        assert(parts[0] + seq![sep] + (join_with(parts.drop_first(), sep) + seq![sep] + extra)
            =~= (parts[0] + seq![sep] + join_with(parts.drop_first(), sep)) + seq![sep] + extra);
    }
}

/// Splitting undoes joining, as long as no field holds the separator.
pub proof fn lemma_split_join(parts: Seq<Seq<char>>, sep: char)
    requires
        parts.len() > 0,
        forall|i: int, k: int|
            0 <= i < parts.len() && 0 <= k < parts[i].len() ==> parts[i][k] != sep,
    ensures
        split_on(join_with(parts, sep), sep) == parts,
    decreases parts.len(),
{
    let s = join_with(parts, sep);
    if parts.len() == 1 {
        assert(s == parts[0]);
        assert(forall|k: int| 0 <= k < s.len() ==> s[k] != sep);
        lemma_find_sep_absent(s, sep);
        assert(split_on(s, sep) =~= parts);
    } else {
        let rest = join_with(parts.drop_first(), sep);
        assert(s == parts[0] + seq![sep] + rest);
        assert(s =~= parts[0] + (seq![sep] + rest));
        assert(forall|k: int| 0 <= k < parts[0].len() ==> #[trigger] parts[0][k] != sep);
        assert((seq![sep] + rest)[0] == sep);
        lemma_find_sep_concat(parts[0], seq![sep] + rest, sep);
        let i = find_sep(s, sep) as int;
        assert(i == parts[0].len());
        assert(s.take(i) =~= parts[0]);
        assert(s.skip(i + 1) =~= rest);
        assert(forall|i2: int, k: int|
            0 <= i2 < parts.drop_first().len() && 0 <= k < parts.drop_first()[i2].len()
                ==> #[trigger] parts.drop_first()[i2][k] != sep) by {
            assert(forall|i2: int|
                0 <= i2 < parts.drop_first().len() ==> #[trigger] parts.drop_first()[i2]
                    == parts[i2 + 1]);
        }
        lemma_split_join(parts.drop_first(), sep);
        assert(split_on(s, sep) =~= seq![parts[0]] + parts.drop_first());
        assert(seq![parts[0]] + parts.drop_first() =~= parts);
    }
}

/// The text of a sequence of lines, each closed by a newline.
pub open spec fn lines_text(lines: Seq<Seq<char>>) -> Seq<char>
    decreases lines.len(),
{
    if lines.len() == 0 {
        Seq::empty()
    } else {
        lines_text(lines.drop_last()) + lines.last() + seq!['\n']
    }
}

pub proof fn lemma_lines_text_push(lines: Seq<Seq<char>>, l: Seq<char>)
    ensures
        lines_text(lines.push(l)) == lines_text(lines) + l + seq!['\n'],
{
    assert(lines.push(l).drop_last() =~= lines);
    assert(lines.push(l).last() == l);
}

/// Newline-terminated lines are the newline-joined lines with one empty field
/// after the last terminator.
pub proof fn lemma_lines_text_join(lines: Seq<Seq<char>>)
    ensures
        lines_text(lines) == join_with(lines.push(Seq::empty()), '\n'),
    decreases lines.len(),
{
    if lines.len() == 0 {
        assert(lines.push(Seq::<char>::empty()).len() == 1);
        assert(join_with(lines.push(Seq::empty()), '\n') == Seq::<char>::empty());
        assert(lines_text(lines) =~= Seq::<char>::empty());
    } else {
        let prior = lines.drop_last();
        let a = lines.last();
        let nl = seq!['\n'];
        let emp = Seq::<char>::empty();
        lemma_lines_text_join(prior);
        assert(prior.push(a) =~= lines);
        assert(lines.push(emp) =~= prior.push(a).push(emp));
        // right side: peel the trailing empty field, then the last line
        lemma_join_push(prior.push(a), emp, '\n');
        lemma_join_push(prior, a, '\n');
        // left side: expand the induction hypothesis the same way
        lemma_join_push(prior, emp, '\n');
        if prior.len() == 0 {
            assert(lines_text(lines) =~= a + nl);
            assert(join_with(prior.push(a).push(emp), '\n') == join_with(prior.push(a), '\n')
                + nl + emp);
            assert(join_with(prior.push(a), '\n') == a);
            assert(a + nl + emp =~= a + nl);
        } else {
            let jp = join_with(prior, '\n');
            assert(lines_text(prior) == jp + nl + emp);
            assert(lines_text(lines) == lines_text(prior) + a + nl);
            assert(join_with(prior.push(a).push(emp), '\n') == (jp + nl + a) + nl + emp);
            assert((jp + nl + emp) + a + nl =~= (jp + nl + a) + nl + emp);
        }
    }
}

/// Splitting newline-terminated lines yields the lines and one empty field,
/// as long as no line holds a newline itself.
pub proof fn lemma_split_lines(lines: Seq<Seq<char>>)
    requires
        forall|i: int, k: int|
            0 <= i < lines.len() && 0 <= k < lines[i].len() ==> lines[i][k] != '\n',
    ensures
        split_on(lines_text(lines), '\n') == lines.push(Seq::<char>::empty()),
{
    lemma_lines_text_join(lines);
    let parts = lines.push(Seq::<char>::empty());
    assert(forall|i: int, k: int|
        0 <= i < parts.len() && 0 <= k < parts[i].len() ==> parts[i][k] != '\n') by {
        assert(forall|i: int|
            0 <= i < lines.len() ==> parts[i] == lines[i]);
        assert(parts[lines.len() as int].len() == 0);
    }
    lemma_split_join(parts, '\n');
}

/// Length of the run of decimal digits that opens `s`.
pub open spec fn digits_len(s: Seq<char>) -> nat
    decreases s.len(),
{
    if s.len() == 0 || !is_digit(s[0]) {
        0
    } else {
        1 + digits_len(s.drop_first())
    }
}

pub proof fn lemma_digits_region(s: Seq<char>)
    ensures
        digits_len(s) <= s.len(),
        forall|j: int| 0 <= j < digits_len(s) ==> is_digit(s[j]),
        digits_len(s) < s.len() ==> !is_digit(s[digits_len(s) as int]),
    decreases s.len(),
{
    if s.len() > 0 && is_digit(s[0]) {
        let df = s.drop_first();
        lemma_digits_region(df);
        assert(forall|j: int| 0 <= j < df.len() ==> #[trigger] df[j] == s[j + 1]);
        assert forall|j: int| 0 <= j < digits_len(s) implies is_digit(s[j]) by {
            if j > 0 {
                assert(df[j - 1] == s[j]);
            }
        }
    }
}

/// A digit-free boundary at `d` after an all-digit run pins `digits_len` down.
pub proof fn lemma_digits_len_run(s: Seq<char>, d: int)
    requires
        0 <= d <= s.len(),
        forall|j: int| 0 <= j < d ==> is_digit(s[j]),
        d < s.len() ==> !is_digit(s[d]),
    ensures
        digits_len(s) == d,
    decreases s.len(),
{
    if s.len() == 0 || d == 0 {
    } else {
        assert(is_digit(s[0]));
        let df = s.drop_first();
        assert(forall|j: int| 0 <= j < df.len() ==> #[trigger] df[j] == s[j + 1]);
        lemma_digits_len_run(df, d - 1);
    }
}

pub proof fn lemma_digits_len_full(s: Seq<char>)
    requires
        all_digits(s),
    ensures
        digits_len(s) == s.len(),
{
    lemma_digits_len_run(s, s.len() as int);
}

/// Length of a leading sign, one or zero.
pub open spec fn sign_len(s: Seq<char>) -> nat {
    if s.len() > 0 && (s[0] == '+' || s[0] == '-') {
        1
    } else {
        0
    }
}

/// The numeric-token grammar of the format's positional fields:
/// an optional sign, digits, an optional fraction (a dot with optional
/// digits), and an optional exponent (`e` or `E`, an optional sign, digits).
pub open spec fn is_numeric_token(s: Seq<char>) -> bool {
    let t = s.skip(sign_len(s) as int);
    digits_len(t) > 0 && is_frac_exp(t.skip(digits_len(t) as int))
}

/// What may follow the leading digits: nothing, a fraction, or an exponent.
pub open spec fn is_frac_exp(u: Seq<char>) -> bool {
    if u.len() == 0 {
        true
    } else if u[0] == '.' {
        let f = u.skip(1);
        is_exp(f.skip(digits_len(f) as int))
    } else {
        is_exp(u)
    }
}

/// An exponent part: nothing, or `e`/`E`, an optional sign, and digits.
pub open spec fn is_exp(v: Seq<char>) -> bool {
    if v.len() == 0 {
        true
    } else if v[0] == 'e' || v[0] == 'E' {
        let w = v.skip(1);
        let x = w.skip(sign_len(w) as int);
        x.len() > 0 && digits_len(x) == x.len()
    } else {
        false
    }
}

/// The characters a numeric token may hold.
pub open spec fn numeric_char(c: char) -> bool {
    is_digit(c) || c == '+' || c == '-' || c == '.' || c == 'e' || c == 'E'
}

pub proof fn lemma_exp_chars(v: Seq<char>)
    requires
        is_exp(v),
    ensures
        forall|i: int| 0 <= i < v.len() ==> numeric_char(v[i]),
{
    if v.len() > 0 {
        let w = v.skip(1);
        let sl = sign_len(w) as int;
        let x = w.skip(sl);
        lemma_digits_region(x);
        assert forall|i: int| 0 <= i < v.len() implies numeric_char(v[i]) by {
            if i == 0 {
            } else if i - 1 < sl {
                assert(w[0] == v[1]);
            } else {
                assert(x[i - 1 - sl] == v[i]);
                assert(is_digit(x[i - 1 - sl]));
            }
        }
    }
}

pub proof fn lemma_frac_exp_chars(u: Seq<char>)
    requires
        is_frac_exp(u),
    ensures
        forall|i: int| 0 <= i < u.len() ==> numeric_char(u[i]),
{
    if u.len() == 0 {
    } else if u[0] == '.' {
        let f = u.skip(1);
        let d = digits_len(f) as int;
        lemma_digits_region(f);
        lemma_exp_chars(f.skip(d));
        assert forall|i: int| 0 <= i < u.len() implies numeric_char(u[i]) by {
            if i == 0 {
            } else if i - 1 < d {
                assert(f[i - 1] == u[i]);
                assert(is_digit(f[i - 1]));
            } else {
                assert(f.skip(d)[i - 1 - d] == u[i]);
            }
        }
    } else {
        lemma_exp_chars(u);
    }
}

/// Every character of a numeric token is a digit, a sign, a dot, or an
/// exponent mark: in particular no separator, brace, comma or quote.
pub proof fn lemma_numeric_chars(s: Seq<char>)
    requires
        is_numeric_token(s),
    ensures
        forall|i: int| 0 <= i < s.len() ==> numeric_char(s[i]),
{
    let sl = sign_len(s) as int;
    let t = s.skip(sl);
    let d = digits_len(t) as int;
    lemma_digits_region(t);
    lemma_frac_exp_chars(t.skip(d));
    assert forall|i: int| 0 <= i < s.len() implies numeric_char(s[i]) by {
        if i < sl {
        } else if i - sl < d {
            assert(t[i - sl] == s[i]);
            assert(is_digit(t[i - sl]));
        } else {
            assert(t.skip(d)[i - sl - d] == t[i - sl]);
            assert(t[i - sl] == s[i]);
        }
    }
}

/// A non-empty string of digits: the part-count and part-index fields.
pub open spec fn is_digits_token(s: Seq<char>) -> bool {
    s.len() > 0 && all_digits(s)
}

/// A signed-integer token: an optional sign, then digits only.
pub open spec fn is_int_token(s: Seq<char>) -> bool {
    let t = s.skip(sign_len(s) as int);
    t.len() > 0 && digits_len(t) == t.len()
}

/// The integer a signed token denotes.
pub open spec fn int_val(s: Seq<char>) -> int {
    if s.len() > 0 && s[0] == '-' {
        -(dec_val(s.skip(1)) as int)
    } else {
        dec_val(s.skip(sign_len(s) as int)) as int
    }
}

/// The canonical rendering of an integer: a minus sign for negatives, then
/// the decimal digits.
pub open spec fn int_str(n: int) -> Seq<char> {
    if n < 0 {
        seq!['-'] + dec_str((-n) as nat)
    } else {
        dec_str(n as nat)
    }
}

pub proof fn lemma_int_str(n: int)
    ensures
        is_int_token(int_str(n)),
        int_val(int_str(n)) == n,
        forall|i: int| 0 <= i < int_str(n).len() ==> numeric_char(int_str(n)[i]),
{
    let s = int_str(n);
    if n < 0 {
        let ds = dec_str((-n) as nat);
        lemma_dec_str((-n) as nat);
        assert(s[0] == '-');
        assert(s.skip(1) =~= ds);
        lemma_digits_len_full(ds);
        assert(sign_len(s) == 1);
        assert(is_int_token(s));
        assert(int_val(s) == -(dec_val(ds) as int));
        assert forall|i: int| 0 <= i < s.len() implies numeric_char(s[i]) by {
            if i > 0 {
                assert(s[i] == ds[i - 1]);
                assert(is_digit(ds[i - 1]));
            }
        }
    } else {
        lemma_dec_str(n as nat);
        assert(is_digit(s[0]));
        assert(sign_len(s) == 0);
        assert(s.skip(0) =~= s);
        lemma_digits_len_full(s);
        assert(forall|i: int| 0 <= i < s.len() ==> is_digit(#[trigger] s[i]));
    }
}

pub proof fn lemma_dec_str_chars(n: nat)
    ensures
        is_digits_token(dec_str(n)),
        forall|i: int| 0 <= i < dec_str(n).len() ==> numeric_char(dec_str(n)[i]),
{
    lemma_dec_str(n);
    assert(forall|i: int|
        0 <= i < dec_str(n).len() ==> is_digit(#[trigger] dec_str(n)[i]));
}

} // verus!
