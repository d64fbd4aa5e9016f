//! Characters, decimal numbers and strings.
use vstd::prelude::*;
use vstd::string::*;
use vstd::std_specs::iter::IteratorSpec;

use crate::identifier::{digit_run, digits_value, is_digit, lemma_digits_value_nonneg};
use crate::value::{from_wide, of_int, Value, SCALE};

verus! {

broadcast use vstd::string::group_string_axioms;

/// Relies on `String::push`: appends one character.
#[verifier::external_body]
fn push_char(s: &mut String, c: char)
    ensures
        final(s)@ == old(s)@.push(c),
{
    s.push(c)
}

/// The characters of `s`.
pub fn chars_of(s: &str) -> (r: Vec<char>)
    ensures
        r@ == s@,
{
    let mut it = s.chars();
    let mut out: Vec<char> = Vec::new();
    loop
        invariant
            it.obeys_prophetic_iter_laws(),
            out@ + it.remaining() == s@,
            it.decrease() is Some,
        ensures
            out@ == s@,
        decreases it.decrease()->0,
    {
        match it.next() {
            Some(c) => out.push(c),
            None => {
                proof {
                    assert(out@ + it.remaining() =~= out@);
                }
                break;
            },
        }
    }
    out
}

/// The character of the decimal digit `d`.
pub open spec fn digit_char(d: int) -> char {
    if d == 0 {
        '0'
    } else if d == 1 {
        '1'
    } else if d == 2 {
        '2'
    } else if d == 3 {
        '3'
    } else if d == 4 {
        '4'
    } else if d == 5 {
        '5'
    } else if d == 6 {
        '6'
    } else if d == 7 {
        '7'
    } else if d == 8 {
        '8'
    } else {
        '9'
    }
}

/// `n` in decimal, without leading zeros.
pub open spec fn decimal_nat(n: nat) -> Seq<char>
    decreases n,
{
    if n < 10 {
        seq![digit_char(n as int)]
    } else {
        decimal_nat(n / 10).push(digit_char((n % 10) as int))
    }
}

/// `x` in decimal, with a `-` when negative.
pub open spec fn decimal_int(x: int) -> Seq<char> {
    if x < 0 {
        seq!['-'] + decimal_nat((-x) as nat)
    } else {
        decimal_nat(x as nat)
    }
}

/// The last `width` decimal digits of `n`, with leading zeros.
pub open spec fn padded_digits(n: nat, width: nat) -> Seq<char>
    decreases width,
{
    if width == 0 {
        Seq::empty()
    } else {
        padded_digits(n / 10, (width - 1) as nat).push(digit_char((n % 10) as int))
    }
}

/// A fixed-point number `x` (in units of `1 / SCALE`) in decimal, with
/// nine fractional digits.
pub open spec fn fixed_text(x: int) -> Seq<char> {
    let a = if x < 0 {
        -x
    } else {
        x
    };
    let sign = if x < 0 {
        seq!['-']
    } else {
        Seq::empty()
    };
    sign + decimal_nat((a / (SCALE as int)) as nat) + seq!['.'] + padded_digits((a % (SCALE as int)) as nat, 9)
}

fn digit_char_exec(d: u64) -> (r: char)
    requires
        d < 10,
    ensures
        r == digit_char(d as int),
{
    if d == 0 {
        '0'
    } else if d == 1 {
        '1'
    } else if d == 2 {
        '2'
    } else if d == 3 {
        '3'
    } else if d == 4 {
        '4'
    } else if d == 5 {
        '5'
    } else if d == 6 {
        '6'
    } else if d == 7 {
        '7'
    } else if d == 8 {
        '8'
    } else {
        '9'
    }
}

/// Appends `n` in decimal.
pub fn push_decimal(s: &mut String, n: u64)
    ensures
        final(s)@ == old(s)@ + decimal_nat(n as nat),
    decreases n,
{
    if n >= 10 {
        push_decimal(s, n / 10);
    }
    push_char(s, digit_char_exec(n % 10));
    proof {
        if n >= 10 {
            assert(final(s)@ =~= old(s)@ + decimal_nat(n as nat));
        } else {
            assert(final(s)@ =~= old(s)@ + decimal_nat(n as nat));
        }
    }
}

/// Appends the last `width` digits of `n`, with leading zeros.
fn push_padded(s: &mut String, n: u64, width: u64)
    ensures
        final(s)@ == old(s)@ + padded_digits(n as nat, width as nat),
    decreases width,
{
    if width == 0 {
        proof {
            assert(final(s)@ =~= old(s)@ + padded_digits(n as nat, width as nat));
        }
        return;
    }
    push_padded(s, n / 10, width - 1);
    push_char(s, digit_char_exec(n % 10));
    proof {
        assert(final(s)@ =~= old(s)@ + padded_digits(n as nat, width as nat));
    }
}

/// `x` in decimal.
pub fn int_text(x: i64) -> (r: String)
    ensures
        r@ == decimal_int(x as int),
{
    let mut s = String::new();
    if x < 0 {
        push_char(&mut s, '-');
        let a: u64 = if x == i64::MIN {
            0x8000_0000_0000_0000
        } else {
            (-x) as u64
        };
        push_decimal(&mut s, a);
    } else {
        push_decimal(&mut s, x as u64);
    }
    proof {
        assert(s@ =~= decimal_int(x as int));
    }
    s
}

/// A fixed-point number in decimal with nine fractional digits (see
/// `fixed_text`).
pub fn fixed_to_text(x: i64) -> (r: String)
    ensures
        r@ == fixed_text(x as int),
{
    let mut s = String::new();
    let a: u64 = if x == i64::MIN {
        0x8000_0000_0000_0000
    } else if x < 0 {
        (-x) as u64
    } else {
        x as u64
    };
    if x < 0 {
        push_char(&mut s, '-');
    }
    push_decimal(&mut s, a / (SCALE as u64));
    push_char(&mut s, '.');
    push_padded(&mut s, a % (SCALE as u64), 9);
    proof {
        assert(s@ =~= fixed_text(x as int));
    }
    s
}

/// `v` as a string.
pub fn string_from(v: &Vec<char>) -> (r: String)
    ensures
        r@ == v@,
{
    let mut s = String::new();
    let mut i: usize = 0;
    while i < v.len()
        invariant
            i <= v@.len(),
            s@ == v@.subrange(0, i as int),
        decreases v@.len() - i,
    {
        push_char(&mut s, v[i]);
        proof {
            assert(s@ =~= v@.subrange(0, i + 1));
        }
        i = i + 1;
    }
    proof {
        assert(v@.subrange(0, v@.len() as int) =~= v@);
    }
    s
}

/// Whether `a` and `b` hold the same characters.
pub fn same_chars(a: &Vec<char>, b: &Vec<char>) -> (r: bool)
    ensures
        r == (a@ == b@),
{
    if a.len() != b.len() {
        return false;
    }
    let mut i: usize = 0;
    while i < a.len()
        invariant
            i <= a@.len(),
            a@.len() == b@.len(),
            forall|t: int| 0 <= t < i ==> a@[t] == b@[t],
        decreases a@.len() - i,
    {
        if a[i] != b[i] {
            return false;
        }
        i = i + 1;
    }
    proof {
        assert(a@ =~= b@);
    }
    true
}

/// The pieces of `s` between the separators `sep` (one more piece than
/// there are separators).
pub open spec fn split(s: Seq<char>, sep: char) -> Seq<Seq<char>>
    decreases s.len(),
{
    if s.len() == 0 {
        seq![Seq::<char>::empty()]
    } else {
        let p = split(s.drop_last(), sep);
        if s.last() == sep {
            p.push(Seq::empty())
        } else {
            p.update(p.len() - 1, p.last().push(s.last()))
        }
    }
}

pub proof fn lemma_split_nonempty(s: Seq<char>, sep: char)
    ensures
        split(s, sep).len() >= 1,
    decreases s.len(),
{
    if s.len() > 0 {
        lemma_split_nonempty(s.drop_last(), sep);
    }
}

pub open spec fn views_of(v: Seq<Vec<char>>) -> Seq<Seq<char>> {
    v.map_values(|x: Vec<char>| x@)
}

/// Splits `s` at each `sep` (see `split`).
pub fn split_chars(s: &Vec<char>, sep: char) -> (r: Vec<Vec<char>>)
    ensures
        views_of(r@) == split(s@, sep),
{
    let mut done: Vec<Vec<char>> = Vec::new();
    let mut cur: Vec<char> = Vec::new();
    let mut i: usize = 0;
    while i < s.len()
        invariant
            i <= s@.len(),
            views_of(done@).push(cur@) == split(s@.subrange(0, i as int), sep),
        decreases s@.len() - i,
    {
        let ghost before = views_of(done@).push(cur@);
        proof {
            assert(s@.subrange(0, i + 1).drop_last() =~= s@.subrange(0, i as int));
            lemma_split_nonempty(s@.subrange(0, i as int), sep);
        }
        let c = s[i];
        if c == sep {
            let piece = cur;
            done.push(piece);
            cur = Vec::new();
            proof {
                assert(views_of(done@).push(cur@) =~= before.push(Seq::empty()));
            }
        } else {
            cur.push(c);
            proof {
                assert(views_of(done@).push(cur@) =~= before.update(
                    before.len() - 1,
                    before.last().push(c),
                ));
            }
        }
        i = i + 1;
    }
    proof {
        assert(s@.subrange(0, s@.len() as int) =~= s@);
    }
    done.push(cur);
    proof {
        assert(views_of(done@) =~= split(s@, sep));
    }
    done
}

/// All characters of `s` are decimal digits.
pub open spec fn all_digits(s: Seq<char>) -> bool {
    forall|i: int| 0 <= i < s.len() ==> is_digit(#[trigger] s[i])
}

/// A cell read as a `u32`: one or more decimal digits whose value fits.
pub open spec fn spec_parse_u32(s: Seq<char>) -> Option<u32> {
    if s.len() > 0 && all_digits(s) && digits_value(s) <= u32::MAX {
        Some(digits_value(s) as u32)
    } else {
        None
    }
}

/// Length of the optional leading sign at `i`.
pub open spec fn sign_at(s: Seq<char>, i: int) -> int {
    if 0 <= i < s.len() && (s[i] == '-' || s[i] == '+') {
        1
    } else {
        0
    }
}

/// `10` to the power `p`.
pub open spec fn pow10(p: nat) -> int
    decreases p,
{
    if p == 0 {
        1
    } else {
        10 * pow10((p - 1) as nat)
    }
}

/// `p` zeros.
pub open spec fn zeros(p: nat) -> Seq<char> {
    Seq::new(p, |i: int| '0')
}

/// The digits `d` of an integer moved `p` places: `p` zeros appended when
/// `p >= 0`, else the last `-p` digits dropped.
pub open spec fn shift_digits(d: Seq<char>, p: int) -> Seq<char> {
    if p >= 0 {
        d + zeros(p as nat)
    } else if d.len() + p > 0 {
        d.subrange(0, d.len() + p)
    } else {
        Seq::empty()
    }
}

/// The parts of a number cell `[+-]digits[.digits][(e|E)[+-]digits]`: the
/// integer digits end at `int_end`, the fraction digits run over
/// `[frac_start, mant_end)`, the exponent digits over `[exp_start, end)`.
pub open spec fn int_end(s: Seq<char>) -> int {
    sign_at(s, 0) + digit_run(s, sign_at(s, 0))
}

pub open spec fn has_dot(s: Seq<char>) -> bool {
    int_end(s) < s.len() && s[int_end(s)] == '.'
}

pub open spec fn frac_start(s: Seq<char>) -> int {
    if has_dot(s) {
        int_end(s) + 1
    } else {
        int_end(s)
    }
}

pub open spec fn mant_end(s: Seq<char>) -> int {
    if has_dot(s) {
        frac_start(s) + digit_run(s, frac_start(s))
    } else {
        int_end(s)
    }
}

pub open spec fn has_exp(s: Seq<char>) -> bool {
    mant_end(s) < s.len() && (s[mant_end(s)] == 'e' || s[mant_end(s)] == 'E')
}

pub open spec fn exp_start(s: Seq<char>) -> int {
    mant_end(s) + 1 + sign_at(s, mant_end(s) + 1)
}

pub open spec fn num_end(s: Seq<char>) -> int {
    if has_exp(s) {
        exp_start(s) + digit_run(s, exp_start(s))
    } else {
        mant_end(s)
    }
}

/// The cell has the shape of a number.
pub open spec fn number_shape(s: Seq<char>) -> bool {
    &&& int_end(s) - sign_at(s, 0) + (mant_end(s) - frac_start(s)) > 0
    &&& num_end(s) == s.len()
    &&& (has_exp(s) ==> digit_run(s, exp_start(s)) > 0)
}

/// The mantissa digits, integer and fraction parts together.
pub open spec fn mantissa(s: Seq<char>) -> Seq<char> {
    s.subrange(sign_at(s, 0), int_end(s)) + s.subrange(frac_start(s), mant_end(s))
}

/// The exponent written in the cell (zero when there is none).
pub open spec fn exponent(s: Seq<char>) -> int {
    if has_exp(s) {
        let v = digits_value(s.subrange(exp_start(s), num_end(s)));
        if s[mant_end(s) + 1] == '-' {
            -v
        } else {
            v
        }
    } else {
        0
    }
}

/// The magnitude of a number cell in units of `1 / SCALE`, rounded towards
/// zero.
pub open spec fn cell_units(s: Seq<char>) -> int {
    digits_value(
        shift_digits(mantissa(s), 9 + exponent(s) - (mant_end(s) - frac_start(s))),
    )
}

/// The words that name an infinity or not-a-number.
pub open spec fn non_finite_word(w: Seq<char>) -> bool {
    w == "inf"@ || w == "Inf"@ || w == "INF"@ || w == "infinity"@ || w == "Infinity"@ || w
        == "nan"@ || w == "NaN"@ || w == "NAN"@
}

/// A cell read as a decimal number `[+-]digits[.digits][(e|E)[+-]digits]`
/// (at least one mantissa digit), in fixed point, rounded towards zero.
/// A signed or unsigned infinity or not-a-number word, or a number out of
/// range, is non-finite; anything else is missing.
pub open spec fn parse_decimal(s: Seq<char>) -> Value {
    if non_finite_word(s.subrange(sign_at(s, 0), s.len() as int)) {
        Value::NonFinite
    } else if number_shape(s) {
        of_int(
            if sign_at(s, 0) == 1 && s[0] == '-' {
                -cell_units(s)
            } else {
                cell_units(s)
            },
        )
    } else {
        Value::Missing
    }
}

proof fn lemma_digit_run_all(s: Seq<char>, from: int)
    requires
        0 <= from <= s.len(),
    ensures
        from + digit_run(s, from) <= s.len(),
        all_digits(s.subrange(from, from + digit_run(s, from))),
        from + digit_run(s, from) < s.len() ==> !is_digit(s[from + digit_run(s, from)]),
    decreases s.len() - from,
{
    if from < s.len() && is_digit(s[from]) {
        lemma_digit_run_all(s, from + 1);
        assert forall|i: int| 0 <= i < digit_run(s, from) implies is_digit(
            #[trigger] s.subrange(from, from + digit_run(s, from))[i],
        ) by {
            if i > 0 {
                assert(s.subrange(from, from + digit_run(s, from))[i] == s.subrange(
                    from + 1,
                    from + 1 + digit_run(s, from + 1),
                )[i - 1]);
            }
        }
    }
}

fn is_digit_char(c: char) -> (r: bool)
    ensures
        r == is_digit(c),
{
    '0' <= c && c <= '9'
}

/// Reads the digits of `c` from `from` on, up to the first non-digit: the
/// end of the run, and its value unless it exceeds `cap`.
fn read_run(c: &Vec<char>, from: usize, cap: u128) -> (r: (usize, Option<u128>))
    requires
        from <= c@.len(),
        cap <= 1_000_000_000_000_000_000_000_000_000_000_000_000,
    ensures
        r.0 == from + digit_run(c@, from as int),
        all_digits(c@.subrange(from as int, r.0 as int)),
        match r.1 {
            Some(v) => v == digits_value(c@.subrange(from as int, r.0 as int)) && v <= cap,
            None => digits_value(c@.subrange(from as int, r.0 as int)) > cap,
        },
{
    let ghost run = digit_run(c@, from as int);
    proof {
        lemma_digit_run_all(c@, from as int);
    }
    let mut j: usize = from;
    let mut v: u128 = 0;
    let mut over = false;
    while j < c.len() && is_digit_char(c[j])
        invariant
            from <= j <= c@.len(),
            cap <= 1_000_000_000_000_000_000_000_000_000_000_000_000,
            run == digit_run(c@, from as int),
            from + run <= c@.len(),
            all_digits(c@.subrange(from as int, from + run)),
            digit_run(c@, from as int) == (j - from) + digit_run(c@, j as int),
            !over ==> v == digits_value(c@.subrange(from as int, j as int)) && v <= cap,
            over ==> digits_value(c@.subrange(from as int, j as int)) > cap,
        decreases c@.len() - j,
    {
        let ghost prev = c@.subrange(from as int, j as int);
        proof {
            assert(c@.subrange(from as int, j + 1).drop_last() =~= prev);
            assert(all_digits(prev)) by {
                assert forall|i: int| 0 <= i < prev.len() implies is_digit(#[trigger] prev[i]) by {
                    assert(prev[i] == c@.subrange(from as int, from + run)[i]);
                }
            }
            lemma_digits_value_nonneg(prev);
        }
        if !over {
            let d = (c[j] as u32 - '0' as u32) as u128;
            v = v * 10 + d;
            if v > cap {
                over = true;
            }
        }
        j = j + 1;
    }
    proof {
        if j < c@.len() {
            assert(digit_run(c@, j as int) == 0);
        }
        assert(j - from == run);
    }
    if over {
        (j, None)
    } else {
        (j, Some(v))
    }
}

/// A cell read as a `u32` (see `spec_parse_u32`).
pub fn parse_u32(c: &Vec<char>) -> (r: Option<u32>)
    ensures
        r == spec_parse_u32(c@),
{
    let (end, v) = read_run(c, 0, u32::MAX as u128);
    proof {
        assert(c@.subrange(0, c@.len() as int) =~= c@);
    }
    if end != c.len() || end == 0 {
        proof {
            lemma_digit_run_all(c@, 0);
            if end != c@.len() {
                assert(!is_digit(c@[end as int]));
            }
        }
        return None;
    }
    match v {
        Some(x) => Some(x as u32),
        None => None,
    }
}

proof fn lemma_zeros_value(d: Seq<char>, j: nat)
    ensures
        digits_value(d + zeros(j)) == digits_value(d) * pow10(j),
    decreases j,
{
    if j == 0 {
        assert(d + zeros(0) =~= d);
    } else {
        lemma_zeros_value(d, (j - 1) as nat);
        assert((d + zeros(j)).drop_last() =~= d + zeros((j - 1) as nat));
        assert((d + zeros(j)).last() == '0');
        let x = digits_value(d);
        let q = pow10((j - 1) as nat);
        assert(x * q * 10 == x * (10 * q)) by (nonlinear_arith);
    }
}

proof fn lemma_pow10_grows(p: nat)
    ensures
        pow10(p) >= p + 1,
    decreases p,
{
    if p > 0 {
        lemma_pow10_grows((p - 1) as nat);
    }
}

proof fn lemma_pow10_mono(i: nat, j: nat)
    requires
        i <= j,
    ensures
        1 <= pow10(i) <= pow10(j),
    decreases j,
{
    lemma_pow10_grows(i);
    if i < j {
        lemma_pow10_mono(i, (j - 1) as nat);
    }
}

/// Bound on the units of a cell that is still finite.
pub const UNITS_CAP: u128 = 10_000_000_000_000_000_000;

/// The value of the first `len` mantissa digits, unless it exceeds `cap`.
fn mantissa_prefix(c: &Vec<char>, a: usize, i1: usize, f0: usize, m_end: usize, len: usize, cap: u128) -> (r: Option<u128>)
    requires
        a <= i1 <= f0 <= m_end <= c@.len(),
        all_digits(c@.subrange(a as int, i1 as int)),
        all_digits(c@.subrange(f0 as int, m_end as int)),
        len <= (i1 - a) + (m_end - f0),
        cap <= 1_000_000_000_000_000_000_000_000_000_000_000_000,
    ensures
        ({
            let m = c@.subrange(a as int, i1 as int) + c@.subrange(f0 as int, m_end as int);
            match r {
                Some(v) => v == digits_value(m.subrange(0, len as int)) && v <= cap,
                None => digits_value(m.subrange(0, len as int)) > cap,
            }
        }),
{
    let ghost m = c@.subrange(a as int, i1 as int) + c@.subrange(f0 as int, m_end as int);
    let n1 = i1 - a;
    let mut v: u128 = 0;
    let mut t: usize = 0;
    while t < len
        invariant
            a <= i1 <= f0 <= m_end <= c@.len(),
            n1 == i1 - a,
            len <= n1 + (m_end - f0),
            t <= len,
            m == c@.subrange(a as int, i1 as int) + c@.subrange(f0 as int, m_end as int),
            all_digits(c@.subrange(a as int, i1 as int)),
            all_digits(c@.subrange(f0 as int, m_end as int)),
            cap <= 1_000_000_000_000_000_000_000_000_000_000_000_000,
            v == digits_value(m.subrange(0, t as int)),
            v <= cap,
        decreases len - t,
    {
        let ch = if t < n1 {
            c[a + t]
        } else {
            c[f0 + (t - n1)]
        };
        proof {
            assert(m.subrange(0, t + 1).drop_last() =~= m.subrange(0, t as int));
            if t < n1 {
                assert(c@.subrange(a as int, i1 as int)[t as int] == ch);
            } else {
                assert(c@.subrange(f0 as int, m_end as int)[t - n1] == ch);
            }
            assert(m[t as int] == ch);
            assert(is_digit(ch));
        }
        v = v * 10 + (ch as u32 - '0' as u32) as u128;
        t = t + 1;
        if v > cap {
            proof {
                lemma_prefix_value_grows(m, t as int, len as int);
            }
            return None;
        }
    }
    Some(v)
}

proof fn lemma_prefix_value_grows(m: Seq<char>, i: int, j: int)
    requires
        0 <= i <= j <= m.len(),
        all_digits(m.subrange(0, j)),
    ensures
        digits_value(m.subrange(0, i)) <= digits_value(m.subrange(0, j)),
    decreases j - i,
{
    if i < j {
        lemma_prefix_value_grows(m, i, j - 1);
        assert(m.subrange(0, j).drop_last() =~= m.subrange(0, j - 1));
        assert(all_digits(m.subrange(0, j - 1))) by {
            assert forall|t: int| 0 <= t < j - 1 implies is_digit(#[trigger] m.subrange(0, j - 1)[t]) by {
                assert(m.subrange(0, j - 1)[t] == m.subrange(0, j)[t]);
            }
        }
        lemma_digits_value_nonneg(m.subrange(0, j - 1));
        assert(is_digit(m.subrange(0, j)[j - 1]));
    }
}

/// The units of a number cell (see `cell_units`), unless they exceed
/// `UNITS_CAP`.
fn cell_units_exec(
    c: &Vec<char>,
    a: usize,
    i1: usize,
    f0: usize,
    m_end: usize,
    e_neg: bool,
    e_abs: Option<u128>,
) -> (r: Option<u128>)
    requires
        a as int == sign_at(c@, 0),
        i1 as int == int_end(c@),
        f0 as int == frac_start(c@),
        m_end as int == mant_end(c@),
        a <= i1 <= f0 <= m_end <= c@.len(),
        all_digits(c@.subrange(a as int, i1 as int)),
        all_digits(c@.subrange(f0 as int, m_end as int)),
        match e_abs {
            Some(e) => e <= 1_000_000_000_000_000_000_000_000_000_000 && exponent(c@) == if e_neg {
                -(e as int)
            } else {
                e as int
            },
            None => if e_neg {
                exponent(c@) < -1_000_000_000_000_000_000_000_000_000_000
            } else {
                exponent(c@) > 1_000_000_000_000_000_000_000_000_000_000
            },
        },
    ensures
        match r {
            Some(u) => u == cell_units(c@) && u <= UNITS_CAP,
            None => cell_units(c@) > UNITS_CAP,
        },
{
    let ghost m = mantissa(c@);
    let n1 = i1 - a;
    let k = m_end - f0;
    let ghost p = 9 + exponent(c@) - k;
    proof {
        assert(m.len() == n1 + k);
        assert(all_digits(m)) by {
            assert forall|t: int| 0 <= t < m.len() implies is_digit(#[trigger] m[t]) by {
                if t < n1 {
                    assert(m[t] == c@.subrange(a as int, i1 as int)[t]);
                } else {
                    assert(m[t] == c@.subrange(f0 as int, m_end as int)[t - n1]);
                }
            }
        }
        assert(m.subrange(0, m.len() as int) =~= m);
        lemma_digits_value_nonneg(m);
    }
    match e_abs {
        None => {
            if e_neg {
                proof {
                    assert(m.len() + p <= 0);
                    assert(shift_digits(m, p) =~= Seq::<char>::empty());
                }
                return Some(0);
            }
            let whole = mantissa_prefix(c, a, i1, f0, m_end, n1 + k, UNITS_CAP);
            proof {
                assert(p >= 0);
                assert(shift_digits(m, p) == m + zeros(p as nat));
                assert(cell_units(c@) == digits_value(m + zeros(p as nat)));
                lemma_zeros_value(m, p as nat);
                lemma_pow10_grows(p as nat);
            }
            match whole {
                Some(0) => {
                    proof {
                        assert(m.subrange(0, (n1 + k) as int) =~= m);
                        assert(digits_value(m) == 0);
                        assert(digits_value(m) * pow10(p as nat) == 0) by (nonlinear_arith)
                            requires
                                digits_value(m) == 0,
                        ;
                    }
                    Some(0)
                },
                _ => {
                    proof {
                        assert(digits_value(m) >= 1);
                        assert(digits_value(m) * pow10(p as nat) >= pow10(p as nat)) by (nonlinear_arith)
                            requires
                                digits_value(m) >= 1,
                                pow10(p as nat) >= 1,
                        ;
                    }
                    None
                },
            }
        },
        Some(e) => {
            let pe: i128 = if e_neg {
                9 - (e as i128) - (k as i128)
            } else {
                9 + (e as i128) - (k as i128)
            };
            assert(pe == p);
            if pe < 0 {
                let cut: i128 = (n1 + k) as i128 + pe;
                if cut <= 0 {
                    proof {
                        assert(shift_digits(m, p) =~= Seq::<char>::empty());
                    }
                    return Some(0);
                }
                proof {
                    assert(shift_digits(m, p) == m.subrange(0, cut as int));
                }
                return mantissa_prefix(c, a, i1, f0, m_end, cut as usize, UNITS_CAP);
            }
            let whole = mantissa_prefix(c, a, i1, f0, m_end, n1 + k, UNITS_CAP);
            proof {
                assert(shift_digits(m, p) == m + zeros(p as nat));
                assert(cell_units(c@) == digits_value(m + zeros(p as nat)));
                lemma_zeros_value(m, p as nat);
                lemma_pow10_mono(0, p as nat);
            }
            match whole {
                None => {
                    proof {
                        assert(digits_value(m) * pow10(p as nat) >= digits_value(m)) by (nonlinear_arith)
                            requires
                                digits_value(m) >= 0,
                                pow10(p as nat) >= 1,
                        ;
                    }
                    None
                },
                Some(v0) => {
                    proof {
                        assert(m.subrange(0, (n1 + k) as int) =~= m);
                    }
                    if v0 == 0 {
                        proof {
                            assert(digits_value(m) * pow10(p as nat) == 0) by (nonlinear_arith)
                                requires
                                    digits_value(m) == 0,
                            ;
                        }
                        return Some(0);
                    }
                    let pu = pe as u128;
                    let mut v: u128 = v0;
                    let mut j: u128 = 0;
                    while j < pu
                        invariant
                            j <= pu,
                            pu == p,
                            v == digits_value(m) * pow10(j as nat),
                            v <= UNITS_CAP,
                            digits_value(m) >= 1,
                            digits_value(m + zeros(p as nat)) == digits_value(m) * pow10(p as nat),
                            cell_units(c@) == digits_value(m + zeros(p as nat)),
                        decreases pu - j,
                    {
                        v = v * 10;
                        j = j + 1;
                        proof {
                            let x = digits_value(m);
                            let q = pow10((j - 1) as nat);
                            assert(x * q * 10 == x * (10 * q)) by (nonlinear_arith);
                        }
                        if v > UNITS_CAP {
                            proof {
                                lemma_pow10_mono(j as nat, p as nat);
                                let x = digits_value(m);
                                assert(x * pow10(j as nat) <= x * pow10(p as nat)) by (nonlinear_arith)
                                    requires
                                        x >= 1,
                                        pow10(j as nat) <= pow10(p as nat),
                                ;
                            }
                            return None;
                        }
                    }
                    Some(v)
                },
            }
        },
    }
}

fn is_non_finite_word(c: &Vec<char>, a: usize) -> (r: bool)
    requires
        a <= c@.len(),
    ensures
        r == non_finite_word(c@.subrange(a as int, c@.len() as int)),
{
    let mut w: Vec<char> = Vec::new();
    let mut i: usize = a;
    while i < c.len()
        invariant
            a <= i <= c@.len(),
            w@ == c@.subrange(a as int, i as int),
        decreases c@.len() - i,
    {
        w.push(c[i]);
        i = i + 1;
        proof {
            assert(w@ =~= c@.subrange(a as int, i as int));
        }
    }
    same_chars(&w, &chars_of("inf")) || same_chars(&w, &chars_of("Inf")) || same_chars(
        &w,
        &chars_of("INF"),
    ) || same_chars(&w, &chars_of("infinity")) || same_chars(&w, &chars_of("Infinity"))
        || same_chars(&w, &chars_of("nan")) || same_chars(&w, &chars_of("NaN")) || same_chars(
        &w,
        &chars_of("NAN"),
    )
}

/// A cell read as a decimal number (see `parse_decimal`).
pub fn parse_value(c: &Vec<char>) -> (r: Value)
    ensures
        r == parse_decimal(c@),
{
    let n = c.len();
    let a: usize = if n > 0 && (c[0] == '-' || c[0] == '+') {
        1
    } else {
        0
    };
    let neg = a == 1 && c[0] == '-';
    if is_non_finite_word(c, a) {
        return Value::NonFinite;
    }
    proof {
        lemma_digit_run_all(c@, a as int);
    }
    let (i1, _) = read_run(c, a, 0);
    let dot = i1 < n && c[i1] == '.';
    let f0 = if dot {
        i1 + 1
    } else {
        i1
    };
    proof {
        lemma_digit_run_all(c@, f0 as int);
    }
    let m_end = if dot {
        read_run(c, f0, 0).0
    } else {
        i1
    };
    proof {
        if !dot {
            assert(c@.subrange(f0 as int, m_end as int) =~= Seq::<char>::empty());
        }
    }
    let exp = m_end < n && (c[m_end] == 'e' || c[m_end] == 'E');
    let mut e_neg = false;
    let mut e_abs: Option<u128> = Some(0);
    let mut end = m_end;
    if exp {
        let e1 = m_end + 1;
        let es: usize = if e1 < n && (c[e1] == '-' || c[e1] == '+') {
            1
        } else {
            0
        };
        e_neg = e1 < n && c[e1] == '-';
        let d0 = e1 + es;
        proof {
            lemma_digit_run_all(c@, d0 as int);
        }
        let (e2, ev) = read_run(c, d0, 1_000_000_000_000_000_000_000_000_000_000);
        if e2 == d0 {
            return Value::Missing;
        }
        end = e2;
        e_abs = ev;
    }
    if end != n || (i1 - a) + (m_end - f0) == 0 {
        return Value::Missing;
    }
    match cell_units_exec(c, a, i1, f0, m_end, e_neg, e_abs) {
        Some(u) => {
            if neg {
                from_wide(-(u as i128))
            } else {
                from_wide(u as i128)
            }
        },
        None => Value::NonFinite,
    }
}
} // verus!
