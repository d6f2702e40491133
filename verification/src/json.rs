//! The byte-level codec for the persisted JSON artifacts. Parsing splits a
//! document into its top-level fields, keeping each value's raw bytes, so
//! fields this system does not model survive a read-modify-write cycle
//! byte for byte; serialization emits those raw bytes verbatim.

use vstd::prelude::*;
use crate::gossip::RawField;
use crate::scan::{is_ws, lemma_ws_run_end, spec_ws_run_end, ws_run_end};

verus! {

/// Whether two byte strings are equal.
pub fn bytes_eq(a: &[u8], b: &[u8]) -> (r: bool)
    ensures
        r == (a@ == b@),
{
    let n = a.len();
    if n != b.len() {
        return false;
    }
    let mut i: usize = 0;
    while i < n
        invariant
            i <= n,
            n == a@.len(),
            n == b@.len(),
            forall|j: int| 0 <= j < i ==> a@[j] == b@[j],
        decreases n - i,
    {
        if a[i] != b[i] {
            return false;
        }
        i += 1;
    }
    proof {
        assert(a@ =~= b@);
    }
    true
}

/// ASCII lowercase of one byte.
pub open spec fn lower_byte(b: u8) -> u8 {
    if 65 <= b <= 90 {
        (b + 32) as u8
    } else {
        b
    }
}

pub open spec fn lower_bytes(s: Seq<u8>) -> Seq<u8> {
    s.map_values(|b: u8| lower_byte(b))
}

/// Whether `a`, lowered byte by byte, equals `b` (`b` assumed already
/// lowercase).
pub fn bytes_eq_lowered(a: &[u8], b: &[u8]) -> (r: bool)
    ensures
        r == (lower_bytes(a@) == b@),
{
    let n = a.len();
    if n != b.len() {
        proof {
            assert(lower_bytes(a@).len() == a@.len());
        }
        return false;
    }
    let mut i: usize = 0;
    while i < n
        invariant
            i <= n,
            n == a@.len(),
            n == b@.len(),
            forall|j: int| 0 <= j < i ==> lower_bytes(a@)[j] == b@[j],
        decreases n - i,
    {
        let c = a[i];
        let low: u8 = if 65 <= c && c <= 90 {
            c + 32
        } else {
            c
        };
        if low != b[i] {
            proof {
                assert(lower_bytes(a@)[i as int] == lower_byte(a@[i as int]));
            }
            return false;
        }
        proof {
            assert(lower_bytes(a@)[i as int] == lower_byte(a@[i as int]));
        }
        i += 1;
    }
    proof {
        assert(lower_bytes(a@) =~= b@);
    }
    true
}

/// First index at or before `i` (scanning left) such that everything from
/// it up to `i` is whitespace.
pub open spec fn spec_rev_ws_start(s: Seq<u8>, i: int) -> int
    decreases i when 0 <= i <= s.len()
{
    if i > 0 && is_ws(s[i - 1]) {
        spec_rev_ws_start(s, i - 1)
    } else {
        i
    }
}

pub proof fn lemma_rev_ws_start(s: Seq<u8>, i: int)
    requires
        0 <= i <= s.len(),
    ensures
        0 <= spec_rev_ws_start(s, i) <= i,
    decreases i,
{
    if i > 0 && is_ws(s[i - 1]) {
        lemma_rev_ws_start(s, i - 1);
    }
}

pub fn rev_ws_start(s: &[u8], i: usize) -> (r: usize)
    requires
        i <= s@.len(),
    ensures
        r == spec_rev_ws_start(s@, i as int),
        r <= i,
{
    let mut j = i;
    while j > 0 && (s[j - 1] == 32 || s[j - 1] == 9 || s[j - 1] == 10 || s[j - 1] == 13)
        invariant
            j <= i <= s@.len(),
            spec_rev_ws_start(s@, i as int) == spec_rev_ws_start(s@, j as int),
        decreases j,
    {
        proof {
            assert(spec_rev_ws_start(s@, j as int) == spec_rev_ws_start(s@, j - 1));
        }
        j -= 1;
    }
    j
}

/// The bytes of `s` with leading and trailing whitespace removed.
pub open spec fn spec_trim_ws(s: Seq<u8>) -> Seq<u8> {
    let a = spec_ws_run_end(s, 0);
    let b = spec_rev_ws_start(s, s.len() as int);
    if a <= b {
        s.subrange(a, b)
    } else {
        Seq::empty()
    }
}

pub fn trim_ws(s: &[u8]) -> (r: (usize, usize))
    ensures
        spec_trim_ws(s@) == (if r.0 <= r.1 {
            s@.subrange(r.0 as int, r.1 as int)
        } else {
            Seq::<u8>::empty()
        }),
        r.0 <= s@.len(),
        r.1 <= s@.len(),
        r.0 == spec_ws_run_end(s@, 0),
        r.1 == spec_rev_ws_start(s@, s@.len() as int),
{
    proof {
        crate::scan::lemma_ws_run_end(s@, 0);
        lemma_rev_ws_start(s@, s@.len() as int);
    }
    let a = ws_run_end(s, 0);
    let b = rev_ws_start(s, s.len());
    (a, b)
}

/// End of a raw JSON value starting at `i` inside a container closed by
/// `closer` (a closing brace or bracket): the first position, outside any
/// string and at nesting depth zero, holding a comma or the closer. That
/// delimiter itself is not part of the value. `None` where the text ends
/// first or a stray closer of the other kind appears.
pub open spec fn spec_value_end(s: Seq<u8>, i: int, depth: int, in_str: bool, esc: bool, closer: u8) -> Option<
    int,
>
    decreases s.len() - i when 0 <= i <= s.len()
{
    if i >= s.len() {
        None
    } else {
        let b = s[i];
        if in_str {
            if esc {
                spec_value_end(s, i + 1, depth, true, false, closer)
            } else if b == 92 {
                spec_value_end(s, i + 1, depth, true, true, closer)
            } else if b == 34 {
                spec_value_end(s, i + 1, depth, false, false, closer)
            } else {
                spec_value_end(s, i + 1, depth, true, false, closer)
            }
        } else if depth == 0 && (b == 44 || b == closer) {
            Some(i)
        } else if b == 34 {
            spec_value_end(s, i + 1, depth, true, false, closer)
        } else if b == 123 || b == 91 {
            spec_value_end(s, i + 1, depth + 1, false, false, closer)
        } else if b == 125 || b == 93 {
            if depth > 0 {
                spec_value_end(s, i + 1, depth - 1, false, false, closer)
            } else {
                None
            }
        } else {
            spec_value_end(s, i + 1, depth, false, false, closer)
        }
    }
}

pub proof fn lemma_value_end_bounds(s: Seq<u8>, i: int, depth: int, in_str: bool, esc: bool, closer: u8)
    requires
        0 <= i <= s.len(),
    ensures
        match spec_value_end(s, i, depth, in_str, esc, closer) {
            Some(e) => i <= e < s.len(),
            None => true,
        },
    decreases s.len() - i,
{
    if i < s.len() {
        lemma_value_end_bounds(s, i + 1, depth, true, false, closer);
        lemma_value_end_bounds(s, i + 1, depth, true, true, closer);
        lemma_value_end_bounds(s, i + 1, depth, false, false, closer);
        lemma_value_end_bounds(s, i + 1, depth + 1, false, false, closer);
        lemma_value_end_bounds(s, i + 1, depth - 1, false, false, closer);
    }
}

/// Find the end of the raw value starting at `i` (see `spec_value_end`).
pub fn value_end(s: &[u8], i: usize, closer: u8) -> (r: Option<usize>)
    requires
        i <= s@.len(),
    ensures
        match r {
            Some(e) => spec_value_end(s@, i as int, 0, false, false, closer) == Some(e as int)
                && i <= e < s@.len(),
            None => spec_value_end(s@, i as int, 0, false, false, closer) is None,
        },
{
    let n = s.len();
    let mut j = i;
    let mut depth: usize = 0;
    let mut in_str = false;
    let mut esc = false;
    while j < n
        invariant
            i <= j <= n,
            n == s@.len(),
            spec_value_end(s@, i as int, 0, false, false, closer) == spec_value_end(
                s@,
                j as int,
                depth as int,
                in_str,
                esc,
                closer,
            ),
            esc ==> in_str,
            depth <= j - i,
        decreases n - j,
    {
        let b = s[j];
        if in_str {
            if esc {
                esc = false;
            } else if b == 92 {
                esc = true;
            } else if b == 34 {
                in_str = false;
            }
            j += 1;
        } else if depth == 0 && (b == 44 || b == closer) {
            proof {
                lemma_value_end_bounds(s@, i as int, 0, false, false, closer);
            }
            return Some(j);
        } else if b == 34 {
            in_str = true;
            j += 1;
        } else if b == 123 || b == 91 {
            depth += 1;
            j += 1;
        } else if b == 125 || b == 93 {
            if depth > 0 {
                depth -= 1;
                j += 1;
            } else {
                return None;
            }
        } else {
            j += 1;
        }
    }
    None
}

/// A copy of `s[a..b]`.
pub fn bytes_range(s: &[u8], a: usize, b: usize) -> (r: Vec<u8>)
    requires
        a <= b <= s@.len(),
    ensures
        r@ == s@.subrange(a as int, b as int),
{
    let mut out: Vec<u8> = Vec::new();
    let mut i = a;
    proof {
        assert(s@.subrange(a as int, a as int) =~= Seq::<u8>::empty());
    }
    while i < b
        invariant
            a <= i <= b <= s@.len(),
            out@ == s@.subrange(a as int, i as int),
        decreases b - i,
    {
        proof {
            assert(s@.subrange(a as int, i + 1) =~= s@.subrange(a as int, i as int).push(
                s@[i as int],
            ));
        }
        out.push(s[i]);
        i += 1;
    }
    out
}

/// End of an object key starting at `i` (just after its opening quote):
/// the position of the closing quote. A backslash makes the key
/// unparsable.
pub open spec fn spec_key_end(s: Seq<u8>, i: int) -> Option<int>
    decreases s.len() - i when 0 <= i <= s.len()
{
    if i >= s.len() {
        None
    } else if s[i] == 34 {
        Some(i)
    } else if s[i] == 92 {
        None
    } else {
        spec_key_end(s, i + 1)
    }
}

pub proof fn lemma_key_end_bounds(s: Seq<u8>, i: int)
    requires
        0 <= i <= s.len(),
    ensures
        match spec_key_end(s, i) {
            Some(e) => i <= e < s.len(),
            None => true,
        },
    decreases s.len() - i,
{
    if i < s.len() {
        lemma_key_end_bounds(s, i + 1);
    }
}

pub fn key_end(s: &[u8], i: usize) -> (r: Option<usize>)
    requires
        i <= s@.len(),
    ensures
        match r {
            Some(e) => spec_key_end(s@, i as int) == Some(e as int) && i <= e < s@.len(),
            None => spec_key_end(s@, i as int) is None,
        },
{
    let n = s.len();
    let mut j = i;
    while j < n
        invariant
            i <= j <= n,
            n == s@.len(),
            spec_key_end(s@, i as int) == spec_key_end(s@, j as int),
        decreases n - j,
    {
        let b = s[j];
        if b == 34 {
            return Some(j);
        }
        if b == 92 {
            return None;
        }
        j += 1;
    }
    None
}

/// The top-level fields of an object body starting at `i` (just after the
/// opening brace, or after a comma when `first` is false): each field's
/// key and raw value, and the index just past the closing brace. Raw
/// values keep their bytes verbatim, trailing whitespace included.
pub open spec fn spec_fields(s: Seq<u8>, i: int, first: bool) -> Option<
    (Seq<(Seq<u8>, Seq<u8>)>, int),
>
    decreases s.len() - i when 0 <= i <= s.len()
{
    let j = spec_ws_run_end(s, i);
    if !(i <= j < s.len()) {
        None
    } else if first && s[j] == 125 {
        Some((Seq::empty(), j + 1))
    } else if s[j] != 34 {
        None
    } else {
        match spec_key_end(s, j + 1) {
            None => None,
            Some(ke) => if !(j + 1 <= ke < s.len()) {
                None
            } else {
                let key = s.subrange(j + 1, ke);
                let c = spec_ws_run_end(s, ke + 1);
                if !(ke + 1 <= c < s.len()) || s[c] != 58 {
                    None
                } else {
                    let v0 = spec_ws_run_end(s, c + 1);
                    if !(c + 1 <= v0 <= s.len()) {
                        None
                    } else {
                        match spec_value_end(s, v0, 0, false, false, 125) {
                            None => None,
                            Some(ve) => if !(v0 <= ve < s.len()) || ve == v0 {
                                None
                            } else {
                                let raw = s.subrange(v0, ve);
                                if s[ve] == 44 {
                                    match spec_fields(s, ve + 1, false) {
                                        None => None,
                                        Some((fs, e)) => Some(
                                            (seq![(key, raw)] + fs, e),
                                        ),
                                    }
                                } else {
                                    Some((seq![(key, raw)], ve + 1))
                                }
                            },
                        }
                    }
                }
            },
        }
    }
}

/// The view of parsed fields: key bytes and raw value bytes.
pub open spec fn fields_view(fs: Seq<RawField>) -> Seq<(Seq<u8>, Seq<u8>)> {
    fs.map_values(|f: RawField| (f.key@, f.value@))
}

/// Parse the fields of an object body (see `spec_fields`).
pub fn parse_fields(s: &[u8], start: usize) -> (r: Option<(Vec<RawField>, usize)>)
    requires
        start <= s@.len(),
    ensures
        match r {
            Some((fs, e)) => spec_fields(s@, start as int, true) == Some(
                (fields_view(fs@), e as int),
            ) && e <= s@.len(),
            None => spec_fields(s@, start as int, true) is None,
        },
{
    let n = s.len();
    let mut acc: Vec<RawField> = Vec::new();
    let mut cur = start;
    let mut first = true;
    proof {
        assert(fields_view(acc@) =~= Seq::<(Seq<u8>, Seq<u8>)>::empty());
    }
    loop
        invariant
            cur <= n,
            n == s@.len(),
            ({
                let whole = spec_fields(s@, start as int, true);
                let rest = spec_fields(s@, cur as int, first);
                match rest {
                    None => whole is None,
                    Some((fs, e)) => whole == Some((fields_view(acc@) + fs, e)),
                }
            }),
        decreases n - cur,
    {
        proof {
            lemma_ws_run_end(s@, cur as int);
        }
        let j = ws_run_end(s, cur);
        if j >= n {
            return None;
        }
        if first && s[j] == 125 {
            proof {
                assert(fields_view(acc@) + Seq::<(Seq<u8>, Seq<u8>)>::empty() =~= fields_view(
                    acc@,
                ));
            }
            return Some((acc, j + 1));
        }
        if s[j] != 34 {
            return None;
        }
        let ke = match key_end(s, j + 1) {
            Some(ke) => ke,
            None => {
                return None;
            },
        };
        let key = bytes_range(s, j + 1, ke);
        proof {
            lemma_ws_run_end(s@, ke + 1);
        }
        let c = ws_run_end(s, ke + 1);
        if c >= n || s[c] != 58 {
            return None;
        }
        proof {
            lemma_ws_run_end(s@, c + 1);
        }
        let v0 = ws_run_end(s, c + 1);
        let ve = match value_end(s, v0, 125) {
            Some(ve) => ve,
            None => {
                return None;
            },
        };
        if ve == v0 {
            return None;
        }
        let raw = bytes_range(s, v0, ve);
        let ghost old_acc = acc@;
        let ghost key_v = key@;
        let ghost raw_v = raw@;
        acc.push(RawField { key, value: raw });
        proof {
            assert(fields_view(acc@) =~= fields_view(old_acc).push((key_v, raw_v)));
        }
        if s[ve] == 44 {
            proof {
                let rest_old = spec_fields(s@, cur as int, first);
                let rest_new = spec_fields(s@, ve + 1, false);
                match rest_new {
                    None => {
                        assert(rest_old is None);
                    },
                    Some((fs, e)) => {
                        assert(rest_old == Some((seq![(key_v, raw_v)] + fs, e)));
                        assert(fields_view(old_acc) + (seq![(key_v, raw_v)] + fs)
                            =~= fields_view(acc@) + fs);
                    },
                }
            }
            cur = ve + 1;
            first = false;
        } else {
            proof {
                assert(spec_fields(s@, cur as int, first) == Some(
                    (seq![(key_v, raw_v)], ve + 1),
                ));
                assert(fields_view(old_acc) + seq![(key_v, raw_v)] =~= fields_view(acc@));
            }
            return Some((acc, ve + 1));
        }
    }
}

/// The elements of an array body starting at `i` (just after the opening
/// bracket, or after a comma when `first` is false): each element's raw
/// bytes, and the index just past the closing bracket.
pub open spec fn spec_items(s: Seq<u8>, i: int, first: bool) -> Option<(Seq<Seq<u8>>, int)>
    decreases s.len() - i when 0 <= i <= s.len()
{
    let j = spec_ws_run_end(s, i);
    if !(i <= j < s.len()) {
        None
    } else if first && s[j] == 93 {
        Some((Seq::empty(), j + 1))
    } else {
        match spec_value_end(s, j, 0, false, false, 93) {
            None => None,
            Some(ve) => if !(j <= ve < s.len()) || ve == j {
                None
            } else {
                let raw = s.subrange(j, ve);
                if s[ve] == 44 {
                    match spec_items(s, ve + 1, false) {
                        None => None,
                        Some((vs, e)) => Some((seq![raw] + vs, e)),
                    }
                } else {
                    Some((seq![raw], ve + 1))
                }
            },
        }
    }
}

pub open spec fn items_view(vs: Seq<Vec<u8>>) -> Seq<Seq<u8>> {
    vs.map_values(|v: Vec<u8>| v@)
}

/// Parse the elements of an array body (see `spec_items`).
pub fn parse_items(s: &[u8], start: usize) -> (r: Option<(Vec<Vec<u8>>, usize)>)
    requires
        start <= s@.len(),
    ensures
        match r {
            Some((vs, e)) => spec_items(s@, start as int, true) == Some(
                (items_view(vs@), e as int),
            ) && e <= s@.len(),
            None => spec_items(s@, start as int, true) is None,
        },
{
    let n = s.len();
    let mut acc: Vec<Vec<u8>> = Vec::new();
    let mut cur = start;
    let mut first = true;
    proof {
        assert(items_view(acc@) =~= Seq::<Seq<u8>>::empty());
    }
    loop
        invariant
            cur <= n,
            n == s@.len(),
            ({
                let whole = spec_items(s@, start as int, true);
                let rest = spec_items(s@, cur as int, first);
                match rest {
                    None => whole is None,
                    Some((vs, e)) => whole == Some((items_view(acc@) + vs, e)),
                }
            }),
        decreases n - cur,
    {
        proof {
            lemma_ws_run_end(s@, cur as int);
        }
        let j = ws_run_end(s, cur);
        if j >= n {
            return None;
        }
        if first && s[j] == 93 {
            proof {
                assert(items_view(acc@) + Seq::<Seq<u8>>::empty() =~= items_view(acc@));
            }
            return Some((acc, j + 1));
        }
        let ve = match value_end(s, j, 93) {
            Some(ve) => ve,
            None => {
                return None;
            },
        };
        if ve == j {
            return None;
        }
        let raw = bytes_range(s, j, ve);
        let ghost old_acc = acc@;
        let ghost raw_v = raw@;
        acc.push(raw);
        proof {
            assert(items_view(acc@) =~= items_view(old_acc).push(raw_v));
        }
        if s[ve] == 44 {
            proof {
                let rest_new = spec_items(s@, ve + 1, false);
                match rest_new {
                    None => {},
                    Some((vs, e)) => {
                        assert(items_view(old_acc) + (seq![raw_v] + vs) =~= items_view(acc@)
                            + vs);
                    },
                }
            }
            cur = ve + 1;
            first = false;
        } else {
            proof {
                assert(items_view(old_acc) + seq![raw_v] =~= items_view(acc@));
            }
            return Some((acc, ve + 1));
        }
    }
}

/// A whole document that is one object: its fields, with nothing but
/// whitespace around the braces.
pub open spec fn spec_parse_object(s: Seq<u8>) -> Option<Seq<(Seq<u8>, Seq<u8>)>> {
    let j = spec_ws_run_end(s, 0);
    if !(0 <= j < s.len()) || s[j] != 123 {
        None
    } else {
        match spec_fields(s, j + 1, true) {
            None => None,
            Some((fs, e)) => if 0 <= e <= s.len() && spec_ws_run_end(s, e) == s.len() {
                Some(fs)
            } else {
                None
            },
        }
    }
}

/// Parse a whole document as one object (see `spec_parse_object`).
pub fn parse_object(s: &[u8]) -> (r: Option<Vec<RawField>>)
    ensures
        match r {
            Some(fs) => spec_parse_object(s@) == Some(fields_view(fs@)),
            None => spec_parse_object(s@) is None,
        },
{
    let n = s.len();
    proof {
        lemma_ws_run_end(s@, 0);
    }
    let j = ws_run_end(s, 0);
    if j >= n || s[j] != 123 {
        return None;
    }
    match parse_fields(s, j + 1) {
        None => None,
        Some((fs, e)) => {
            proof {
                lemma_ws_run_end(s@, e as int);
            }
            let t = ws_run_end(s, e);
            if t == n {
                Some(fs)
            } else {
                None
            }
        },
    }
}

/// A whole document that is one array: its elements' raw bytes, with
/// nothing but whitespace around the brackets.
pub open spec fn spec_parse_array(s: Seq<u8>) -> Option<Seq<Seq<u8>>> {
    let j = spec_ws_run_end(s, 0);
    if !(0 <= j < s.len()) || s[j] != 91 {
        None
    } else {
        match spec_items(s, j + 1, true) {
            None => None,
            Some((vs, e)) => if 0 <= e <= s.len() && spec_ws_run_end(s, e) == s.len() {
                Some(vs)
            } else {
                None
            },
        }
    }
}

/// Parse a whole document as one array (see `spec_parse_array`).
pub fn parse_array(s: &[u8]) -> (r: Option<Vec<Vec<u8>>>)
    ensures
        match r {
            Some(vs) => spec_parse_array(s@) == Some(items_view(vs@)),
            None => spec_parse_array(s@) is None,
        },
{
    let n = s.len();
    proof {
        lemma_ws_run_end(s@, 0);
    }
    let j = ws_run_end(s, 0);
    if j >= n || s[j] != 91 {
        return None;
    }
    match parse_items(s, j + 1) {
        None => None,
        Some((vs, e)) => {
            proof {
                lemma_ws_run_end(s@, e as int);
            }
            let t = ws_run_end(s, e);
            if t == n {
                Some(vs)
            } else {
                None
            }
        },
    }
}

} // verus!
