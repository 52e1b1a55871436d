//! Decimal text for the persisted formats: rendering and parsing of
//! unsigned and signed integers and of fixed-point thousandths, with
//! round-trip lemmas the scene-file codec builds on.

use vstd::prelude::*;

verus! {

/// The character of one decimal digit.
pub open spec fn digit_char(d: int) -> char
    recommends
        0 <= d < 10,
{
    if d == 0 {
        '0'
    } else if d == 1 {
        '1'
    } else if d == 2 {
        '2'
    } else if d == 3 {
        '3'
    } else if d == 4 {
        '4'
    } else if d == 5 {
        '5'
    } else if d == 6 {
        '6'
    } else if d == 7 {
        '7'
    } else if d == 8 {
        '8'
    } else {
        '9'
    }
}

/// Whether a character is a decimal digit.
pub open spec fn is_digit(c: char) -> bool {
    exists|d: int| 0 <= d < 10 && c == digit_char(d)
}

/// The value of a digit character.
pub open spec fn digit_val(c: char) -> int
    recommends
        is_digit(c),
{
    choose|d: int| 0 <= d < 10 && c == digit_char(d)
}

/// The decimal digits of a nonnegative integer, most significant first.
pub open spec fn dec_digits(n: int) -> Seq<char>
    recommends
        0 <= n,
    decreases n,
{
    if n < 10 {
        seq![digit_char(n)]
    } else {
        dec_digits(n / 10).push(digit_char(n % 10))
    }
}

/// Every character of a decimal rendering is a digit, and the rendering is
/// never empty.
pub proof fn lemma_dec_digits_shape(n: int)
    requires
        0 <= n,
    ensures
        dec_digits(n).len() >= 1,
        forall|i: int| 0 <= i < dec_digits(n).len() ==> is_digit(#[trigger] dec_digits(n)[i]),
    decreases n,
{
    if n < 10 {
        assert(digit_char(n) == digit_char(n));
        assert(is_digit(dec_digits(n)[0]));
    } else {
        lemma_dec_digits_shape(n / 10);
        vstd::arithmetic::div_mod::lemma_mod_division_less_than_divisor(n, 10);
        assert(is_digit(dec_digits(n).last()));
        assert forall|i: int| 0 <= i < dec_digits(n).len() implies is_digit(
            #[trigger] dec_digits(n)[i],
        ) by {
            if i < dec_digits(n).len() - 1 {
                assert(dec_digits(n)[i] == dec_digits(n / 10)[i]);
            }
        }
    }
}

/// Digit characters decode to their digit.
pub proof fn lemma_digit_char_val(d: int)
    requires
        0 <= d < 10,
    ensures
        is_digit(digit_char(d)),
        digit_val(digit_char(d)) == d,
{
    assert(is_digit(digit_char(d)));
    let d2 = digit_val(digit_char(d));
    assert(0 <= d2 < 10 && digit_char(d2) == digit_char(d));
    assert(d2 == d);
}

fn digit_to_char(d: u64) -> (c: char)
    requires
        d < 10,
    ensures
        c == digit_char(d as int),
{
    if d == 0 {
        '0'
    } else if d == 1 {
        '1'
    } else if d == 2 {
        '2'
    } else if d == 3 {
        '3'
    } else if d == 4 {
        '4'
    } else if d == 5 {
        '5'
    } else if d == 6 {
        '6'
    } else if d == 7 {
        '7'
    } else if d == 8 {
        '8'
    } else {
        '9'
    }
}

/// The digit a character stands for, if any.
fn char_to_digit(c: char) -> (r: Option<u64>)
    ensures
        r is Some <==> is_digit(c),
        r is Some ==> r.unwrap() == digit_val(c) && r.unwrap() < 10,
{
    let v: Option<u64> = match c {
        '0' => Some(0),
        '1' => Some(1),
        '2' => Some(2),
        '3' => Some(3),
        '4' => Some(4),
        '5' => Some(5),
        '6' => Some(6),
        '7' => Some(7),
        '8' => Some(8),
        '9' => Some(9),
        _ => None,
    };
    proof {
        match v {
            Some(d) => {
                lemma_digit_char_val(d as int);
            },
            None => {
                if is_digit(c) {
                    let d = digit_val(c);
                    assert(c == digit_char(d));
                }
            },
        }
    }
    v
}

/// Relies on std's `String::push`: appends exactly the one character.
#[verifier::external_body]
pub(crate) fn push_char(s: &mut String, c: char)
    ensures
        final(s)@ == old(s)@.push(c),
{
    s.push(c)
}

/// Append the decimal rendering of `n`.
pub fn render_u64_into(n: u64, out: &mut String)
    ensures
        final(out)@ == old(out)@ + dec_digits(n as int),
    decreases n,
{
    if n >= 10 {
        render_u64_into(n / 10, out);
    }
    push_char(out, digit_to_char(n % 10));
    proof {
        if n < 10 {
            assert(final(out)@ =~= old(out)@ + dec_digits(n as int));
        } else {
            assert(final(out)@ =~= old(out)@ + dec_digits(n as int));
        }
    }
}

/// Greedy digit run starting at `i`, folded into `acc`; yields the folded
/// value and the first position past the run.
pub open spec fn parse_digits(s: Seq<char>, i: int, acc: int) -> (int, int)
    decreases s.len() - i,
{
    if i < s.len() && is_digit(s[i]) {
        parse_digits(s, i + 1, acc * 10 + digit_val(s[i]))
    } else {
        (acc, i)
    }
}

/// The folded value never shrinks while digits are consumed.
pub proof fn lemma_parse_digits_monotone(s: Seq<char>, i: int, acc: int)
    requires
        0 <= acc,
        0 <= i,
    ensures
        parse_digits(s, i, acc).0 >= acc,
        parse_digits(s, i, acc).1 >= i,
    decreases s.len() - i,
{
    if i < s.len() && is_digit(s[i]) {
        let c = s[i];
        let d = digit_val(c);
        assert(0 <= d < 10);
        assert(acc * 10 + d >= acc) by (nonlinear_arith)
            requires
                acc >= 0,
                d >= 0,
        ;
        lemma_parse_digits_monotone(s, i + 1, acc * 10 + d);
    }
}

/// A parsed unsigned number: `None` when no digit starts at `i` or the run's
/// value does not fit.
pub open spec fn spec_parse_u64(s: Seq<char>, i: int) -> Option<(u64, int)> {
    if 0 <= i < s.len() && is_digit(s[i]) {
        let (v, j) = parse_digits(s, i, 0);
        if v <= u64::MAX {
            Some(((v as u64), j))
        } else {
            None
        }
    } else {
        None
    }
}

/// Read an unsigned decimal number from position `i`.
pub fn parse_u64(s: &str, i: usize) -> (r: Option<(u64, usize)>)
    requires
        i <= s@.len(),
        s@.len() <= usize::MAX,
    ensures
        match r {
            Some((v, j)) => spec_parse_u64(s@, i as int) == Some((v, j as int)) && i < j
                <= s@.len(),
            None => spec_parse_u64(s@, i as int) is None,
        },
{
    let n = s.unicode_len();
    if i >= n {
        return None;
    }
    let c0 = s.get_char(i);
    if char_to_digit(c0).is_none() {
        return None;
    }
    let mut acc: u64 = 0;
    let mut j: usize = i;
    while j < n && is_digit_at(s, j)
        invariant
            i <= j <= n,
            n == s@.len() <= usize::MAX,
            i < n && is_digit(s@[i as int]),
            parse_digits(s@, i as int, 0) == parse_digits(s@, j as int, acc as int),
        decreases n - j,
    {
        let c = s.get_char(j);
        let d = match char_to_digit(c) {
            Some(d) => d,
            None => {
                proof {
                    assert(false);
                }
                0
            },
        };
        let stepped = match acc.checked_mul(10) {
            Some(m) => m.checked_add(d),
            None => None,
        };
        match stepped {
            Some(a2) => {
                acc = a2;
                j += 1;
            },
            None => {
                proof {
                    lemma_parse_digits_overflow(s@, j as int, acc as int);
                }
                return None;
            },
        }
    }
    proof {
        assert(parse_digits(s@, j as int, acc as int) == (acc as int, j as int));
        if j == i {
            assert(is_digit(s@[i as int]));
            assert(false);
        }
    }
    Some((acc, j))
}

/// Whether the character at `j` is a decimal digit.
fn is_digit_at(s: &str, j: usize) -> (b: bool)
    requires
        j < s@.len(),
    ensures
        b == is_digit(s@[j as int]),
{
    char_to_digit(s.get_char(j)).is_some()
}

/// Once the next step would exceed `u64::MAX`, the whole run does.
proof fn lemma_parse_digits_overflow(s: Seq<char>, j: int, acc: int)
    requires
        0 <= j < s.len(),
        is_digit(s[j]),
        0 <= acc,
        acc * 10 + digit_val(s[j]) > u64::MAX,
    ensures
        parse_digits(s, j, acc).0 > u64::MAX,
{
    lemma_parse_digits_monotone(s, j + 1, acc * 10 + digit_val(s[j]));
}

/// The value of a digit string folded onto `acc` from the front.
pub open spec fn fold_digits(ds: Seq<char>, acc: int) -> int
    decreases ds.len(),
{
    if ds.len() == 0 {
        acc
    } else {
        fold_digits(ds.drop_first(), acc * 10 + digit_val(ds.first()))
    }
}

/// A greedy digit run whose extent is known parses to the fold of exactly
/// those digits.
proof fn lemma_parse_digits_seq(s: Seq<char>, i: int, m: int, acc: int)
    requires
        0 <= i <= m <= s.len(),
        forall|k: int| i <= k < m ==> is_digit(#[trigger] s[k]),
        m < s.len() ==> !is_digit(s[m]),
    ensures
        parse_digits(s, i, acc) == (fold_digits(s.subrange(i, m), acc), m),
    decreases m - i,
{
    if i == m {
        assert(s.subrange(i, m).len() == 0);
    } else {
        assert(is_digit(s[i]));
        let sub = s.subrange(i, m);
        assert(sub.first() == s[i]);
        assert(sub.drop_first() =~= s.subrange(i + 1, m));
        lemma_parse_digits_seq(s, i + 1, m, acc * 10 + digit_val(s[i]));
    }
}

/// Appending one digit multiplies the fold by ten and adds it.
proof fn lemma_fold_digits_push(ds: Seq<char>, c: char, acc: int)
    ensures
        fold_digits(ds.push(c), acc) == fold_digits(ds, acc) * 10 + digit_val(c),
    decreases ds.len(),
{
    if ds.len() == 0 {
        assert(ds.push(c).drop_first() =~= Seq::<char>::empty());
        assert(ds.push(c).first() == c);
        assert(fold_digits(ds.push(c), acc) == fold_digits(
            Seq::<char>::empty(),
            acc * 10 + digit_val(c),
        ));
        assert(fold_digits(Seq::<char>::empty(), acc * 10 + digit_val(c)) == acc * 10 + digit_val(
            c,
        ));
        assert(fold_digits(ds, acc) == acc);
    } else {
        assert(ds.push(c).first() == ds.first());
        assert(ds.push(c).drop_first() =~= ds.drop_first().push(c));
        assert(ds.push(c).len() == ds.len() + 1);
        assert(fold_digits(ds.push(c), acc) == fold_digits(
            ds.drop_first().push(c),
            acc * 10 + digit_val(ds.first()),
        ));
        lemma_fold_digits_push(ds.drop_first(), c, acc * 10 + digit_val(ds.first()));
        assert(fold_digits(ds, acc) == fold_digits(ds.drop_first(), acc * 10 + digit_val(
            ds.first(),
        )));
    }
}

/// The fold of a decimal rendering recovers the number.
proof fn lemma_fold_dec_digits(n: int, acc: int)
    requires
        0 <= n,
    ensures
        fold_digits(dec_digits(n), acc) == acc * vstd::arithmetic::power::pow(
            10,
            dec_digits(n).len(),
        ) + n,
    decreases n,
{
    vstd::arithmetic::power::lemma_pow1(10);
    if n < 10 {
        assert(dec_digits(n) =~= Seq::<char>::empty().push(digit_char(n)));
        lemma_fold_digits_push(Seq::<char>::empty(), digit_char(n), acc);
        lemma_digit_char_val(n);
    } else {
        let hi = n / 10;
        let lo = n % 10;
        vstd::arithmetic::div_mod::lemma_fundamental_div_mod(n, 10);
        vstd::arithmetic::div_mod::lemma_mod_division_less_than_divisor(n, 10);
        lemma_digit_char_val(lo);
        lemma_fold_digits_push(dec_digits(hi), digit_char(lo), acc);
        lemma_fold_dec_digits(hi, acc);
        let lh = dec_digits(hi).len();
        let p = vstd::arithmetic::power::pow(10, lh);
        vstd::arithmetic::power::lemma_pow_adds(10, lh, 1);
        assert((acc * p + hi) * 10 + lo == acc * (p * 10) + n) by (nonlinear_arith)
            requires
                n == 10 * hi + lo,
        ;
        assert(vstd::arithmetic::power::pow(10, lh + 1) == p * 10) by {
            assert(vstd::arithmetic::power::pow(10, lh + 1) == p * vstd::arithmetic::power::pow(
                10,
                1,
            ));
        }
    }
}

/// Parsing the rendering of `n`, with anything non-digit after it, yields
/// exactly `n` and stops right past the rendering.
pub proof fn lemma_parse_render_u64(n: u64, s: Seq<char>, i: int)
    requires
        0 <= i,
        i + dec_digits(n as int).len() <= s.len(),
        s.subrange(i, i + dec_digits(n as int).len() as int) == dec_digits(n as int),
        i + dec_digits(n as int).len() < s.len() ==> !is_digit(s[i + dec_digits(n as int).len()]),
    ensures
        spec_parse_u64(s, i) == Some((n, i + dec_digits(n as int).len())),
{
    let ds = dec_digits(n as int);
    lemma_dec_digits_shape(n as int);
    let m = i + ds.len() as int;
    assert forall|k: int| i <= k < m implies is_digit(#[trigger] s[k]) by {
        assert(s[k] == ds[k - i]);
    }
    assert(s[i] == ds[0]);
    lemma_parse_digits_seq(s, i, m, 0);
    lemma_fold_dec_digits(n as int, 0);
    assert(0 * vstd::arithmetic::power::pow(10, ds.len()) == 0) by (nonlinear_arith);
    assert(s.subrange(i, m) == ds);
}

/// The decimal rendering of a signed integer.
pub open spec fn i64_chars(v: int) -> Seq<char>
    recommends
        i64::MIN <= v <= i64::MAX,
{
    if v < 0 {
        seq!['-'] + dec_digits(-v)
    } else {
        dec_digits(v)
    }
}

/// A parsed signed number.
pub open spec fn spec_parse_i64(s: Seq<char>, i: int) -> Option<(i64, int)> {
    if 0 <= i < s.len() && s[i] == '-' {
        match spec_parse_u64(s, i + 1) {
            Some((v, j)) => if v <= i64::MAX as u64 + 1 {
                Some(((-(v as int)) as i64, j))
            } else {
                None
            },
            None => None,
        }
    } else {
        match spec_parse_u64(s, i) {
            Some((v, j)) => if v <= i64::MAX as u64 {
                Some((v as i64, j))
            } else {
                None
            },
            None => None,
        }
    }
}

/// Append the decimal rendering of a signed integer.
pub fn render_i64_into(v: i64, out: &mut String)
    ensures
        final(out)@ == old(out)@ + i64_chars(v as int),
{
    if v < 0 {
        push_char(out, '-');
        let m: u64 = if v == i64::MIN {
            9_223_372_036_854_775_808u64
        } else {
            (-v) as u64
        };
        render_u64_into(m, out);
        proof {
            assert(final(out)@ =~= old(out)@ + i64_chars(v as int));
        }
    } else {
        render_u64_into(v as u64, out);
    }
}

/// Read a signed decimal number from position `i`.
pub fn parse_i64(s: &str, i: usize) -> (r: Option<(i64, usize)>)
    requires
        i <= s@.len(),
        s@.len() <= usize::MAX,
    ensures
        match r {
            Some((v, j)) => spec_parse_i64(s@, i as int) == Some((v, j as int)) && i < j
                <= s@.len(),
            None => spec_parse_i64(s@, i as int) is None,
        },
{
    let n = s.unicode_len();
    if i < n && s.get_char(i) == '-' {
        match parse_u64(s, i + 1) {
            Some((v, j)) => {
                if v <= 9_223_372_036_854_775_808u64 {
                    let w: i64 = if v == 9_223_372_036_854_775_808u64 {
                        i64::MIN
                    } else {
                        -(v as i64)
                    };
                    Some((w, j))
                } else {
                    None
                }
            },
            None => None,
        }
    } else {
        match parse_u64(s, i) {
            Some((v, j)) => {
                if v <= i64::MAX as u64 {
                    Some((v as i64, j))
                } else {
                    None
                }
            },
            None => None,
        }
    }
}

/// Parsing the rendering of a signed integer recovers it.
pub proof fn lemma_parse_render_i64(v: i64, s: Seq<char>, i: int)
    requires
        0 <= i,
        i + i64_chars(v as int).len() <= s.len(),
        s.subrange(i, i + i64_chars(v as int).len() as int) == i64_chars(v as int),
        i + i64_chars(v as int).len() < s.len() ==> !is_digit(s[i + i64_chars(v as int).len()]),
    ensures
        spec_parse_i64(s, i) == Some((v, i + i64_chars(v as int).len())),
{
    let cs = i64_chars(v as int);
    if v < 0 {
        let ds = dec_digits(-(v as int));
        assert(s[i] == s.subrange(i, i + cs.len() as int)[0]);
        assert(s[i] == '-');
        assert(s.subrange(i + 1, i + 1 + ds.len() as int) =~= ds) by {
            assert forall|k: int| 0 <= k < ds.len() implies s.subrange(
                i + 1,
                i + 1 + ds.len() as int,
            )[k] == ds[k] by {
                assert(s[i + 1 + k] == cs[1 + k]);
            }
        }
        let m: u64 = (-(v as int)) as u64;
        lemma_parse_render_u64(m, s, i + 1);
    } else {
        lemma_dec_digits_shape(v as int);
        assert(s[i] == cs[0]);
        assert(s[i] != '-') by {
            assert(is_digit(cs[0]));
            let d = digit_val(cs[0]);
            assert(cs[0] == digit_char(d));
        }
        lemma_parse_render_u64(v as u64, s, i);
    }
}

/// The canonical decimal rendering of a nonnegative count of thousandths:
/// whole part, then a point and one to three fraction digits with trailing
/// zeros cut, or no point at all when the fraction is zero.
pub open spec fn milli_chars(m: int) -> Seq<char>
    recommends
        0 <= m,
{
    let whole = dec_digits(m / 1000);
    let f = m % 1000;
    if f == 0 {
        whole
    } else if f % 100 == 0 {
        whole + seq!['.', digit_char(f / 100)]
    } else if f % 10 == 0 {
        whole + seq!['.', digit_char(f / 100), digit_char((f / 10) % 10)]
    } else {
        whole + seq!['.', digit_char(f / 100), digit_char((f / 10) % 10), digit_char(f % 10)]
    }
}

/// Append the canonical decimal rendering of `m` thousandths.
pub fn render_milli_into(m: u64, out: &mut String)
    ensures
        final(out)@ == old(out)@ + milli_chars(m as int),
{
    render_u64_into(m / 1000, out);
    let f = m % 1000;
    proof {
        vstd::arithmetic::div_mod::lemma_mod_division_less_than_divisor(m as int, 1000);
    }
    if f != 0 {
        push_char(out, '.');
        push_char(out, digit_to_char(f / 100));
        if f % 100 != 0 {
            push_char(out, digit_to_char((f / 10) % 10));
            if f % 10 != 0 {
                push_char(out, digit_to_char(f % 10));
            }
        }
    }
    proof {
        assert(final(out)@ =~= old(out)@ + milli_chars(m as int));
    }
}

/// A parsed count of thousandths: a whole part and an optional point with
/// one to three fraction digits.
pub open spec fn spec_parse_milli(s: Seq<char>, i: int) -> Option<(u64, int)> {
    match spec_parse_u64(s, i) {
        Some((w, j)) => if w > (u64::MAX - 999) / 1000 {
            None
        } else if j < s.len() && s[j] == '.' {
            match spec_parse_u64(s, j + 1) {
                Some((fv, j2)) => {
                    let nd = j2 - (j + 1);
                    if nd == 1 {
                        Some(((w * 1000 + fv * 100) as u64, j2))
                    } else if nd == 2 {
                        Some(((w * 1000 + fv * 10) as u64, j2))
                    } else if nd == 3 {
                        Some(((w * 1000 + fv) as u64, j2))
                    } else {
                        None
                    }
                },
                None => None,
            }
        } else {
            Some(((w * 1000) as u64, j))
        },
        None => None,
    }
}

/// Read a count of thousandths from position `i`.
pub fn parse_milli(s: &str, i: usize) -> (r: Option<(u64, usize)>)
    requires
        i <= s@.len(),
        s@.len() <= usize::MAX,
    ensures
        match r {
            Some((v, j)) => spec_parse_milli(s@, i as int) == Some((v, j as int)) && i < j
                <= s@.len(),
            None => spec_parse_milli(s@, i as int) is None,
        },
{
    let n = s.unicode_len();
    match parse_u64(s, i) {
        Some((w, j)) => {
            if w > (u64::MAX - 999) / 1000 {
                return None;
            }
            if j < n && s.get_char(j) == '.' {
                match parse_u64(s, j + 1) {
                    Some((fv, j2)) => {
                        let nd = j2 - (j + 1);
                        proof {
                            lemma_parse_digits_monotone(s@, j as int + 1, 0);
                        }
                        if nd == 1 {
                            proof {
                                lemma_parse_digits_value_bound(s@, j as int + 1, j2 as int);
                            }
                            Some((w * 1000 + fv * 100, j2))
                        } else if nd == 2 {
                            proof {
                                lemma_parse_digits_value_bound(s@, j as int + 1, j2 as int);
                            }
                            Some((w * 1000 + fv * 10, j2))
                        } else if nd == 3 {
                            proof {
                                lemma_parse_digits_value_bound(s@, j as int + 1, j2 as int);
                            }
                            Some((w * 1000 + fv, j2))
                        } else {
                            None
                        }
                    },
                    None => None,
                }
            } else {
                Some((w * 1000, j))
            }
        },
        None => None,
    }
}

/// Character-wise string equality.
pub fn str_eq(a: &str, b: &str) -> (r: bool)
    ensures
        r == (a@ == b@),
{
    let n = a.unicode_len();
    let m = b.unicode_len();
    if n != m {
        return false;
    }
    let mut k: usize = 0;
    while k < n
        invariant
            k <= n,
            n == a@.len() == b@.len(),
            forall|t: int| 0 <= t < k ==> a@[t] == b@[t],
        decreases n - k,
    {
        if a.get_char(k) != b.get_char(k) {
            return false;
        }
        k += 1;
    }
    proof {
        assert(a@ =~= b@);
    }
    true
}

/// Whether `a` ends with `suffix`.
pub fn str_ends_with(a: &str, suffix: &str) -> (r: bool)
    ensures
        r == (a@.len() >= suffix@.len() && a@.subrange(
            a@.len() - suffix@.len(),
            a@.len() as int,
        ) == suffix@),
{
    let n = a.unicode_len();
    let m = suffix.unicode_len();
    if m > n {
        return false;
    }
    let off = n - m;
    let mut k: usize = 0;
    while k < m
        invariant
            k <= m,
            m <= n,
            off == n - m,
            n == a@.len(),
            m == suffix@.len(),
            forall|t: int| 0 <= t < k ==> a@[off + t] == suffix@[t],
        decreases m - k,
    {
        if a.get_char(off + k) != suffix.get_char(k) {
            proof {
                assert(a@.subrange(off as int, n as int)[k as int] != suffix@[k as int]);
            }
            return false;
        }
        k += 1;
    }
    proof {
        assert(a@.subrange(off as int, n as int) =~= suffix@);
    }
    true
}

/// A digit run of `k` characters folds, from zero, to less than `10 ^ k`.
proof fn lemma_parse_digits_value_bound(s: Seq<char>, i: int, j: int)
    requires
        0 <= i <= s.len(),
        parse_digits(s, i, 0).1 == j,
    ensures
        parse_digits(s, i, 0).0 < vstd::arithmetic::power::pow(10, (j - i) as nat),
        j - i == 1 ==> parse_digits(s, i, 0).0 < 10,
        j - i == 2 ==> parse_digits(s, i, 0).0 < 100,
        j - i == 3 ==> parse_digits(s, i, 0).0 < 1000,
{
    lemma_parse_digits_bound_rec(s, i, 0);
    vstd::arithmetic::power::lemma_pow1(10);
    vstd::arithmetic::power::lemma_pow_adds(10, 1, 1);
    vstd::arithmetic::power::lemma_pow_adds(10, 2, 1);
    assert(vstd::arithmetic::power::pow(10, 1) == 10);
    assert(vstd::arithmetic::power::pow(10, 2) == 100);
    assert(vstd::arithmetic::power::pow(10, 3) == 1000);
}

/// Folding from `acc` over the consumed run multiplies the bound by ten per
/// digit.
proof fn lemma_parse_digits_bound_rec(s: Seq<char>, i: int, acc: int)
    requires
        0 <= i <= s.len(),
        0 <= acc,
    ensures
        parse_digits(s, i, acc).0 < (acc + 1) * vstd::arithmetic::power::pow(
            10,
            (parse_digits(s, i, acc).1 - i) as nat,
        ),
        i <= parse_digits(s, i, acc).1 <= s.len(),
    decreases s.len() - i,
{
    vstd::arithmetic::power::lemma_pow1(10);
    if i < s.len() && is_digit(s[i]) {
        let d = digit_val(s[i]);
        lemma_parse_digits_bound_rec(s, i + 1, acc * 10 + d);
        let r = parse_digits(s, i, acc);
        let k1 = (r.1 - (i + 1)) as nat;
        let p1 = vstd::arithmetic::power::pow(10, k1);
        vstd::arithmetic::power::lemma_pow_adds(10, k1, 1);
        vstd::arithmetic::power::lemma_pow_positive(10, k1);
        assert((acc * 10 + d + 1) * p1 <= (acc + 1) * (p1 * 10)) by (nonlinear_arith)
            requires
                0 <= acc,
                0 <= d < 10,
                p1 >= 1,
        ;
        assert(vstd::arithmetic::power::pow(10, (r.1 - i) as nat) == p1 * 10) by {
            assert(vstd::arithmetic::power::pow(10, k1 + 1) == p1 * vstd::arithmetic::power::pow(
                10,
                1,
            ));
        }
    } else {
        vstd::arithmetic::power::lemma_pow0(10);
        assert(parse_digits(s, i, acc).0 == acc);
        assert((acc + 1) * 1 == acc + 1) by (nonlinear_arith);
    }
}

} // verus!
