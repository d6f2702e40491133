//! IPv4 addresses as the library models them: four octets, with the exact
//! dotted-decimal textual form used in every persisted artifact.

use vstd::prelude::*;
use crate::scan::{
    digit_run_end, digits_value, digits_value_of, is_digit, lemma_digit_run_end,
    spec_digit_run_end,
};

verus! {

/// An IPv4 address, held as its four octets.
#[derive(Clone, Copy, Debug, PartialEq, Eq, Structural)]
pub struct Ipv4 {
    pub a: u8,
    pub b: u8,
    pub c: u8,
    pub d: u8,
}

/// Decimal digits of `n`, most significant first, no leading zeros.
pub open spec fn spec_decimal(n: nat) -> Seq<u8>
    decreases n,
{
    if n < 10 {
        seq![(48 + n) as u8]
    } else {
        spec_decimal(n / 10) + seq![(48 + n % 10) as u8]
    }
}

/// The dotted-decimal text of an address.
pub open spec fn spec_ipv4_text(ip: Ipv4) -> Seq<u8> {
    spec_decimal(ip.a as nat) + seq![46u8] + spec_decimal(ip.b as nat) + seq![46u8]
        + spec_decimal(ip.c as nat) + seq![46u8] + spec_decimal(ip.d as nat)
}

/// Append the decimal digits of `n` to `out`.
pub fn push_decimal(out: &mut Vec<u8>, n: u16)
    ensures
        final(out)@ == old(out)@ + spec_decimal(n as nat),
    decreases n,
{
    if n < 10 {
        out.push(48 + (n as u8));
    } else {
        push_decimal(out, n / 10);
        out.push(48 + ((n % 10) as u8));
    }
    proof {
        assert(out@ =~= old(out)@ + spec_decimal(n as nat));
    }
}

impl Ipv4 {
    /// Append the dotted-decimal text of this address to `out`.
    pub fn push_text(&self, out: &mut Vec<u8>)
        ensures
            final(out)@ == old(out)@ + spec_ipv4_text(*self),
    {
        push_decimal(out, self.a as u16);
        out.push(46);
        push_decimal(out, self.b as u16);
        out.push(46);
        push_decimal(out, self.c as u16);
        out.push(46);
        push_decimal(out, self.d as u16);
        proof {
            assert(out@ =~= old(out)@ + spec_ipv4_text(*self));
        }
    }
}

/// Whether `s[i..j]` is a well-formed octet: one to three digits, no
/// leading zero unless it is exactly "0", value at most 255.
pub open spec fn valid_octet_run(s: Seq<u8>, i: int, j: int) -> bool {
    &&& 0 <= i < j <= s.len()
    &&& j == spec_digit_run_end(s, i)
    &&& 1 <= j - i <= 3
    &&& (s[i] == 48 ==> j == i + 1)
    &&& digits_value(s.subrange(i, j)) <= 255
}

/// The address a text denotes, or `None` where the text is not a strict
/// dotted-decimal IPv4 form.
pub open spec fn spec_parse_ipv4(s: Seq<u8>) -> Option<Ipv4> {
    let e1 = spec_digit_run_end(s, 0);
    let e2 = spec_digit_run_end(s, e1 + 1);
    let e3 = spec_digit_run_end(s, e2 + 1);
    let e4 = spec_digit_run_end(s, e3 + 1);
    if valid_octet_run(s, 0, e1) && e1 < s.len() && s[e1] == 46 && valid_octet_run(
        s,
        e1 + 1,
        e2,
    ) && e2 < s.len() && s[e2] == 46 && valid_octet_run(s, e2 + 1, e3) && e3 < s.len() && s[e3]
        == 46 && valid_octet_run(s, e3 + 1, e4) && e4 == s.len() {
        Some(
            Ipv4 {
                a: digits_value(s.subrange(0, e1)) as u8,
                b: digits_value(s.subrange(e1 + 1, e2)) as u8,
                c: digits_value(s.subrange(e2 + 1, e3)) as u8,
                d: digits_value(s.subrange(e3 + 1, e4)) as u8,
            },
        )
    } else {
        None
    }
}

/// The decimal digits of `n`: at least one, all digits, valued `n`, with
/// a zero first digit only for zero itself, and as few as the value
/// allows.
pub proof fn lemma_decimal_props(n: nat)
    ensures
        spec_decimal(n).len() >= 1,
        n < 10 ==> spec_decimal(n).len() == 1,
        n < 100 ==> spec_decimal(n).len() <= 2,
        n < 1000 ==> spec_decimal(n).len() <= 3,
        n < 10000 ==> spec_decimal(n).len() <= 4,
        n < 100000 ==> spec_decimal(n).len() <= 5,
        forall|i: int| 0 <= i < spec_decimal(n).len() ==> is_digit(#[trigger] spec_decimal(n)[i]),
        digits_value(spec_decimal(n)) == n,
        spec_decimal(n)[0] == 48 ==> n == 0,
        n == 0 ==> spec_decimal(n) == seq![48u8],
    decreases n,
{
    if n < 10 {
        let one = seq![(48 + n) as u8];
        assert(spec_decimal(n) == one);
        assert(one.drop_last() =~= Seq::<u8>::empty());
        assert(digits_value(Seq::<u8>::empty()) == 0);
        assert(digits_value(one) == digits_value(one.drop_last()) * 10 + (one.last() - 48));
        assert(digits_value(one) == n);
    } else {
        lemma_decimal_props(n / 10);
        let pre = spec_decimal(n / 10);
        let whole = spec_decimal(n);
        assert(whole == pre + seq![(48 + n % 10) as u8]);
        assert(whole.drop_last() =~= pre);
        assert(whole.last() == (48 + n % 10) as u8);
        assert(digits_value(whole) == digits_value(pre) * 10 + (n % 10));
        assert(whole[0] == pre[0]);
    }
}

/// Where a run of digits followed by a non-digit (or the end) ends.
pub proof fn lemma_digit_run_exact(s: Seq<u8>, i: int, j: int)
    requires
        0 <= i <= j <= s.len(),
        forall|k: int| i <= k < j ==> is_digit(#[trigger] s[k]),
        j < s.len() ==> !is_digit(s[j]),
    ensures
        spec_digit_run_end(s, i) == j,
    decreases j - i,
{
    if i < j {
        lemma_digit_run_exact(s, i + 1, j);
    }
}

/// Law: the dotted-decimal text of any address parses back to that same
/// address — addresses written into an artifact are re-read exactly.
pub proof fn lemma_ipv4_text_round_trip(ip: Ipv4)
    ensures
        spec_parse_ipv4(spec_ipv4_text(ip)) == Some(ip),
{
    let ta = spec_decimal(ip.a as nat);
    let tb = spec_decimal(ip.b as nat);
    let tc = spec_decimal(ip.c as nat);
    let td = spec_decimal(ip.d as nat);
    lemma_decimal_props(ip.a as nat);
    lemma_decimal_props(ip.b as nat);
    lemma_decimal_props(ip.c as nat);
    lemma_decimal_props(ip.d as nat);
    let la = ta.len() as int;
    let lb = tb.len() as int;
    let lc = tc.len() as int;
    let ld = td.len() as int;
    let s = spec_ipv4_text(ip);
    let p1 = la;
    let p2 = la + 1 + lb;
    let p3 = la + 1 + lb + 1 + lc;
    assert(s.len() == la + 1 + lb + 1 + lc + 1 + ld);
    assert(s[p1] == 46);
    assert(s[p2] == 46);
    assert(s[p3] == 46);
    assert(forall|k: int| 0 <= k < la ==> s[k] == ta[k]);
    assert(forall|k: int| 0 <= k < lb ==> s[p1 + 1 + k] == tb[k]);
    assert(forall|k: int| 0 <= k < lc ==> s[p2 + 1 + k] == tc[k]);
    assert(forall|k: int| 0 <= k < ld ==> s[p3 + 1 + k] == td[k]);
    lemma_digit_run_exact(s, 0, p1);
    lemma_digit_run_exact(s, p1 + 1, p2);
    lemma_digit_run_exact(s, p2 + 1, p3);
    lemma_digit_run_exact(s, p3 + 1, s.len() as int);
    assert(s.subrange(0, p1) =~= ta);
    assert(s.subrange(p1 + 1, p2) =~= tb);
    assert(s.subrange(p2 + 1, p3) =~= tc);
    assert(s.subrange(p3 + 1, s.len() as int) =~= td);
    assert(valid_octet_run(s, 0, p1));
    assert(valid_octet_run(s, p1 + 1, p2));
    assert(valid_octet_run(s, p2 + 1, p3));
    assert(valid_octet_run(s, p3 + 1, s.len() as int));
}

/// Parse a strict dotted-decimal IPv4 address.
pub fn parse_ipv4(s: &[u8]) -> (r: Option<Ipv4>)
    ensures
        r == spec_parse_ipv4(s@),
{
    let n = s.len();
    let e1 = digit_run_end(s, 0);
    proof {
        lemma_digit_run_end(s@, 0);
    }
    if !(e1 >= 1 && e1 <= 3 && (if s[0] == 48 { e1 == 1 } else { true })) {
        return None;
    }
    let a = digits_value_of(s, 0, e1);
    if a > 255 || e1 >= n || s[e1] != 46 {
        return None;
    }
    let e2 = digit_run_end(s, e1 + 1);
    proof {
        lemma_digit_run_end(s@, e1 + 1);
    }
    if !(e2 - (e1 + 1) >= 1 && e2 - (e1 + 1) <= 3 && (if s[e1 + 1] == 48 { e2 == e1 + 2 } else { true })) {
        return None;
    }
    let b = digits_value_of(s, e1 + 1, e2);
    if b > 255 || e2 >= n || s[e2] != 46 {
        return None;
    }
    let e3 = digit_run_end(s, e2 + 1);
    proof {
        lemma_digit_run_end(s@, e2 + 1);
    }
    if !(e3 - (e2 + 1) >= 1 && e3 - (e2 + 1) <= 3 && (if s[e2 + 1] == 48 { e3 == e2 + 2 } else { true })) {
        return None;
    }
    let c = digits_value_of(s, e2 + 1, e3);
    if c > 255 || e3 >= n || s[e3] != 46 {
        return None;
    }
    let e4 = digit_run_end(s, e3 + 1);
    proof {
        lemma_digit_run_end(s@, e3 + 1);
    }
    if !(e4 - (e3 + 1) >= 1 && e4 - (e3 + 1) <= 3 && (if s[e3 + 1] == 48 { e4 == e3 + 2 } else { true })) {
        return None;
    }
    let d = digits_value_of(s, e3 + 1, e4);
    if d > 255 || e4 != n {
        return None;
    }
    Some(Ipv4 { a: a as u8, b: b as u8, c: c as u8, d: d as u8 })
}

} // verus!
