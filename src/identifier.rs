//! The run identifier grammar: a path such as `./U_4_u_1/ZnO_LR`, whose
//! number of `/` tells perturbed runs (three) from the others, and which
//! embeds the sweep value (`U_<digits>`) and the perturbation step
//! (`u_<digits>` or `alpha_<digits>`).
use vstd::prelude::*;
use vstd::string::*;

verus! {

pub open spec fn is_digit(c: char) -> bool {
    '0' <= c && c <= '9'
}

pub open spec fn digit_of(c: char) -> int {
    c as int - '0' as int
}

/// The number written by the decimal digits `d`.
pub open spec fn digits_value(d: Seq<char>) -> int
    decreases d.len(),
{
    if d.len() == 0 {
        0
    } else {
        digits_value(d.drop_last()) * 10 + digit_of(d.last())
    }
}

/// Number of `c` in `s`.
pub open spec fn count_char(s: Seq<char>, c: char) -> nat
    decreases s.len(),
{
    if s.len() == 0 {
        0
    } else {
        count_char(s.drop_last(), c) + if s.last() == c {
            1nat
        } else {
            0nat
        }
    }
}

/// The identifier names a perturbed run: it holds exactly three `/`.
pub open spec fn is_perturbed_id(s: Seq<char>) -> bool {
    count_char(s, '/') == 3
}

/// `tag` occurs at `i` and a digit follows it.
pub open spec fn tag_at(s: Seq<char>, tag: Seq<char>, i: int) -> bool {
    0 <= i && i + tag.len() < s.len() && s.subrange(i, i + tag.len()) == tag && is_digit(
        s[i + tag.len()],
    )
}

/// The leftmost position from `i` on where `tag` and a digit occur.
pub open spec fn first_tag_from(s: Seq<char>, tag: Seq<char>, i: int) -> Option<int>
    decreases s.len() - i,
{
    if i < 0 || i >= s.len() {
        None
    } else if tag_at(s, tag, i) {
        Some(i)
    } else {
        first_tag_from(s, tag, i + 1)
    }
}

/// Number of digits in `s` from position `i` on, up to the first non-digit.
pub open spec fn digit_run(s: Seq<char>, i: int) -> nat
    decreases s.len() - i,
{
    if i < 0 || i >= s.len() || !is_digit(s[i]) {
        0
    } else {
        1 + digit_run(s, i + 1)
    }
}

/// The number after the leftmost `tag` that a digit follows (the first
/// capture of the pattern `tag(\d+)`), as an `i32`; `None` when there is no
/// such `tag` or the number does not fit.
pub open spec fn tagged_number(s: Seq<char>, tag: Seq<char>) -> Option<i32> {
    match first_tag_from(s, tag, 0) {
        None => None,
        Some(i) => {
            let from = i + tag.len();
            let v = digits_value(s.subrange(from, from + digit_run(s, from)));
            if v <= i32::MAX {
                Some(v as i32)
            } else {
                None
            }
        },
    }
}

/// The tag before the sweep value.
pub open spec fn sweep_tag() -> Seq<char> {
    seq!['U', '_']
}

/// The sweep value of a run identifier (`U_<digits>`).
pub open spec fn spec_sweep_value(s: Seq<char>) -> Option<i32> {
    tagged_number(s, sweep_tag())
}

pub(crate) proof fn lemma_digits_value_nonneg(d: Seq<char>)
    requires
        forall|i: int| 0 <= i < d.len() ==> is_digit(#[trigger] d[i]),
    ensures
        digits_value(d) >= 0,
    decreases d.len(),
{
    if d.len() > 0 {
        lemma_digits_value_nonneg(d.drop_last());
    }
}

/// Number of `c` in `s`.
pub fn count_occurrences(s: &str, c: char) -> (r: usize)
    ensures
        r == count_char(s@, c),
{
    let n = s.unicode_len();
    let mut i: usize = 0;
    let mut k: usize = 0;
    while i < n
        invariant
            n == s@.len(),
            i <= n,
            k <= i,
            k == count_char(s@.subrange(0, i as int), c),
        decreases n - i,
    {
        proof {
            assert(s@.subrange(0, i + 1).drop_last() =~= s@.subrange(0, i as int));
        }
        if s.get_char(i) == c {
            k = k + 1;
        }
        i = i + 1;
    }
    proof {
        assert(s@.subrange(0, n as int) =~= s@);
    }
    k
}

/// Whether a run identifier names a perturbed run.
pub fn is_perturbed_run(s: &str) -> (r: bool)
    ensures
        r == is_perturbed_id(s@),
{
    count_occurrences(s, '/') == 3
}

fn tag_at_exec(s: &str, n: usize, tag: &str, m: usize, i: usize) -> (r: bool)
    requires
        n == s@.len(),
        m == tag@.len(),
    ensures
        r == tag_at(s@, tag@, i as int),
{
    if i >= n || m >= n - i {
        return false;
    }
    let mut j: usize = 0;
    while j < m
        invariant
            j <= m,
            n == s@.len(),
            m == tag@.len(),
            i + m < n,
            forall|t: int| 0 <= t < j ==> s@[i + t] == tag@[t],
        decreases m - j,
    {
        if s.get_char(i + j) != tag.get_char(j) {
            proof {
                assert(s@.subrange(i as int, i + m)[j as int] != tag@[j as int]);
            }
            return false;
        }
        j = j + 1;
    }
    proof {
        assert(s@.subrange(i as int, i + m) =~= tag@);
    }
    let c = s.get_char(i + m);
    '0' <= c && c <= '9'
}

/// The number after the leftmost `tag` that a digit follows, when it fits
/// in an `i32` (see `tagged_number`).
pub fn extract_tagged_number(s: &str, tag: &str) -> (r: Option<i32>)
    ensures
        r == tagged_number(s@, tag@),
{
    let n = s.unicode_len();
    let m = tag.unicode_len();
    let mut i: usize = 0;
    while i < n
        invariant
            n == s@.len(),
            m == tag@.len(),
            i <= n,
            first_tag_from(s@, tag@, 0) == first_tag_from(s@, tag@, i as int),
        decreases n - i,
    {
        if tag_at_exec(s, n, tag, m, i) {
            return read_digits(s, n, i + m, tag);
        }
        i = i + 1;
    }
    None
}

/// Reads the digit run that starts at `from` (the one after the leftmost tag).
fn read_digits(s: &str, n: usize, from: usize, tag: &str) -> (r: Option<i32>)
    requires
        n == s@.len(),
        from < n,
        first_tag_from(s@, tag@, 0) == Some(from - tag@.len()),
        from >= tag@.len(),
    ensures
        r == tagged_number(s@, tag@),
{
    let ghost run = digit_run(s@, from as int);
    let mut j: usize = from;
    let mut v: u64 = 0;
    let mut over = false;
    while j < n && '0' <= s.get_char(j) && s.get_char(j) <= '9'
        invariant
            n == s@.len(),
            from <= j <= n,
            run == digit_run(s@, from as int),
            j - from <= run,
            digit_run(s@, from as int) == (j - from) + digit_run(s@, j as int),
            forall|t: int| from <= t < j ==> is_digit(#[trigger] s@[t]),
            !over ==> v == digits_value(s@.subrange(from as int, j as int)),
            !over ==> v <= i32::MAX,
            over ==> digits_value(s@.subrange(from as int, j as int)) > i32::MAX,
        decreases n - j,
    {
        let c = s.get_char(j);
        let ghost prev = s@.subrange(from as int, j as int);
        proof {
            assert(s@.subrange(from as int, j + 1).drop_last() =~= prev);
            lemma_digits_value_nonneg(prev);
        }
        if !over {
            let d = (c as u32 - '0' as u32) as u64;
            v = v * 10 + d;
            if v > i32::MAX as u64 {
                over = true;
            }
        }
        j = j + 1;
    }
    proof {
        assert(j - from == run);
    }
    if over {
        None
    } else {
        Some(v as i32)
    }
}

/// The sweep value of a run identifier (`U_<digits>`).
pub fn sweep_value(s: &str) -> (r: Option<i32>)
    ensures
        r == spec_sweep_value(s@),
{
    proof {
        reveal_strlit("U_");
    }
    let r = extract_tagged_number(s, "U_");
    proof {
        assert("U_"@ =~= sweep_tag());
    }
    r
}

} // verus!
