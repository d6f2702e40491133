//! Byte-level scanning primitives shared by the textual codecs: digit runs,
//! decimal values, whitespace runs.

use vstd::prelude::*;

verus! {

pub open spec fn is_digit(b: u8) -> bool {
    48 <= b <= 57
}

pub open spec fn is_ws(b: u8) -> bool {
    b == 32 || b == 9 || b == 10 || b == 13
}

/// First index at or after `i` that does not hold a decimal digit.
pub open spec fn spec_digit_run_end(s: Seq<u8>, i: int) -> int
    decreases s.len() - i when 0 <= i <= s.len()
{
    if i < s.len() && is_digit(s[i]) {
        spec_digit_run_end(s, i + 1)
    } else {
        i
    }
}

pub proof fn lemma_digit_run_end(s: Seq<u8>, i: int)
    requires
        0 <= i <= s.len(),
    ensures
        i <= spec_digit_run_end(s, i) <= s.len(),
        forall|j: int| i <= j < spec_digit_run_end(s, i) ==> is_digit(#[trigger] s[j]),
        spec_digit_run_end(s, i) < s.len() ==> !is_digit(s[spec_digit_run_end(s, i)]),
    decreases s.len() - i,
{
    if i < s.len() && is_digit(s[i]) {
        lemma_digit_run_end(s, i + 1);
    }
}

/// First index at or after `i` that does not hold whitespace.
pub open spec fn spec_ws_run_end(s: Seq<u8>, i: int) -> int
    decreases s.len() - i when 0 <= i <= s.len()
{
    if i < s.len() && is_ws(s[i]) {
        spec_ws_run_end(s, i + 1)
    } else {
        i
    }
}

pub proof fn lemma_ws_run_end(s: Seq<u8>, i: int)
    requires
        0 <= i <= s.len(),
    ensures
        i <= spec_ws_run_end(s, i) <= s.len(),
        forall|j: int| i <= j < spec_ws_run_end(s, i) ==> is_ws(#[trigger] s[j]),
        spec_ws_run_end(s, i) < s.len() ==> !is_ws(s[spec_ws_run_end(s, i)]),
    decreases s.len() - i,
{
    if i < s.len() && is_ws(s[i]) {
        lemma_ws_run_end(s, i + 1);
    }
}

/// Numeric value of a run of decimal digit bytes.
pub open spec fn digits_value(s: Seq<u8>) -> int
    decreases s.len(),
{
    if s.len() == 0 {
        0
    } else {
        digits_value(s.drop_last()) * 10 + (s.last() - 48)
    }
}

pub fn digit_run_end(s: &[u8], i: usize) -> (r: usize)
    requires
        i <= s@.len(),
    ensures
        r == spec_digit_run_end(s@, i as int),
{
    let n = s.len();
    let mut j = i;
    while j < n && 48 <= s[j] && s[j] <= 57
        invariant
            i <= j <= n,
            n == s@.len(),
            spec_digit_run_end(s@, i as int) == spec_digit_run_end(s@, j as int),
        decreases n - j,
    {
        proof {
            assert(spec_digit_run_end(s@, j as int) == spec_digit_run_end(s@, j + 1));
        }
        j += 1;
    }
    j
}

pub fn ws_run_end(s: &[u8], i: usize) -> (r: usize)
    requires
        i <= s@.len(),
    ensures
        r == spec_ws_run_end(s@, i as int),
{
    let n = s.len();
    let mut j = i;
    while j < n && (s[j] == 32 || s[j] == 9 || s[j] == 10 || s[j] == 13)
        invariant
            i <= j <= n,
            n == s@.len(),
            spec_ws_run_end(s@, i as int) == spec_ws_run_end(s@, j as int),
        decreases n - j,
    {
        proof {
            assert(spec_ws_run_end(s@, j as int) == spec_ws_run_end(s@, j + 1));
        }
        j += 1;
    }
    j
}

/// Value of the digit run `s[i..j]`, provided it is short enough that no
/// overflow is possible.
pub fn digits_value_of(s: &[u8], i: usize, j: usize) -> (r: u32)
    requires
        0 <= i <= j <= s@.len(),
        j - i <= 5,
        forall|k: int| i <= k < j ==> is_digit(#[trigger] s@[k]),
    ensures
        r == digits_value(s@.subrange(i as int, j as int)),
        r < 100000,
    {
    let mut v: u32 = 0;
    let mut k = i;
    proof {
        assert(s@.subrange(i as int, i as int) =~= Seq::<u8>::empty());
    }
    while k < j
        invariant
            i <= k <= j <= s@.len(),
            j - i <= 5,
            forall|t: int| i <= t < j ==> is_digit(#[trigger] s@[t]),
            v == digits_value(s@.subrange(i as int, k as int)),
            v < pow10((k - i) as nat),
        decreases j - k,
    {
        proof {
            assert(s@.subrange(i as int, k + 1).drop_last() =~= s@.subrange(
                i as int,
                k as int,
            ));
            lemma_pow10_small();
            lemma_pow10_mono((k - i) as nat, 4);
            assert(pow10((k + 1 - i) as nat) == 10 * pow10((k - i) as nat));
        }
        v = v * 10 + ((s[k] - 48) as u32);
        k += 1;
    }
    proof {
        lemma_pow10_small();
        lemma_pow10_mono((j - i) as nat, 5);
    }
    v
}

pub open spec fn pow10(n: nat) -> nat
    decreases n,
{
    if n == 0 {
        1
    } else {
        10 * pow10((n - 1) as nat)
    }
}

pub proof fn lemma_pow10_small()
    ensures
        pow10(0) == 1,
        pow10(1) == 10,
        pow10(2) == 100,
        pow10(3) == 1000,
        pow10(4) == 10000,
        pow10(5) == 100000,
{
    reveal_with_fuel(pow10, 6);
}

pub proof fn lemma_pow10_mono(a: nat, b: nat)
    requires
        a <= b,
    ensures
        pow10(a) <= pow10(b),
    decreases b,
{
    if a < b {
        lemma_pow10_mono(a, (b - 1) as nat);
        assert(pow10(b) == 10 * pow10((b - 1) as nat));
    }
}

} // verus!
