//! Character-level text utilities shared by the catalog, the inferencer and
//! the sanitizer: substring search, prefix tests, line splitting, trimming and
//! decimal parsing, each against an exact mathematical specification.

use vstd::prelude::*;
use vstd::slice::{slice_index_get, slice_subrange};
use vstd::string::StringExecFns;

verus! {

/// Index of the first occurrence of `c` in `s`, or `s.len()` if absent.
pub open spec fn first_ix(s: Seq<char>, c: char) -> int
    decreases s.len(),
{
    if s.len() == 0 {
        0
    } else if s[0] == c {
        0
    } else {
        1 + first_ix(s.skip(1), c)
    }
}

pub proof fn lemma_first_ix(s: Seq<char>, c: char)
    ensures
        0 <= first_ix(s, c) <= s.len(),
        forall|i: int| 0 <= i < first_ix(s, c) ==> s[i] != c,
        first_ix(s, c) < s.len() ==> s[first_ix(s, c)] == c,
    decreases s.len(),
{
    if s.len() > 0 && s[0] != c {
        lemma_first_ix(s.skip(1), c);
        assert forall|i: int| 0 <= i < first_ix(s, c) implies s[i] != c by {
            if i > 0 {
                assert(s.skip(1)[i - 1] != c);
            }
        }
    }
}

/// `first_ix` is pinned by the first-occurrence property.
pub proof fn lemma_first_ix_exact(s: Seq<char>, c: char, k: int)
    requires
        0 <= k <= s.len(),
        forall|i: int| 0 <= i < k ==> s[i] != c,
        k < s.len() ==> s[k] == c,
    ensures
        first_ix(s, c) == k,
    decreases s.len(),
{
    if s.len() > 0 && s[0] != c {
        assert forall|i: int| 0 <= i < k - 1 implies s.skip(1)[i] != c by {
            assert(s.skip(1)[i] == s[i + 1]);
        }
        lemma_first_ix_exact(s.skip(1), c, k - 1);
    }
}

/// The characters of `s`, one by one.
pub fn str_to_chars(s: &str) -> (v: Vec<char>)
    ensures
        v@ == s@,
{
    let n = s.unicode_len();
    let mut v: Vec<char> = Vec::new();
    let mut i: usize = 0;
    while i < n
        invariant
            i <= n,
            n == s@.len(),
            v@ == s@.take(i as int),
        decreases n - i,
    {
        v.push(s.get_char(i));
        proof {
            assert(v@ =~= s@.take(i + 1));
        }
        i += 1;
    }
    proof {
        assert(v@ =~= s@);
    }
    v
}

/// Index of the first occurrence of `c` in `s` at or after `from`,
/// or `s.len()` if there is none.
pub fn find_char_from(s: &[char], from: usize, c: char) -> (r: usize)
    requires
        from <= s@.len(),
    ensures
        from <= r <= s@.len(),
        r - from == first_ix(s@.skip(from as int), c),
        forall|i: int| from <= i < r ==> s@[i] != c,
        r < s@.len() ==> s@[r as int] == c,
{
    let n = s.len();
    let mut i: usize = from;
    while i < n
        invariant
            from <= i <= n,
            n == s@.len(),
            forall|k: int| from <= k < i ==> s@[k] != c,
        decreases n - i,
    {
        if *slice_index_get(s, i) == c {
            proof {
                assert forall|k: int| 0 <= k < i - from implies s@.skip(from as int)[k] != c by {
                    assert(s@.skip(from as int)[k] == s@[k + from]);
                }
                lemma_first_ix_exact(s@.skip(from as int), c, i - from);
            }
            return i;
        }
        i += 1;
    }
    proof {
        assert forall|k: int| 0 <= k < n - from implies s@.skip(from as int)[k] != c by {
            assert(s@.skip(from as int)[k] == s@[k + from]);
        }
        lemma_first_ix_exact(s@.skip(from as int), c, n - from);
    }
    n
}

/// `p` occurs in `s` starting at index `i`.
pub open spec fn contains_at(s: Seq<char>, p: Seq<char>, i: int) -> bool {
    0 <= i && i + p.len() <= s.len() && s.subrange(i, i + p.len() as int) == p
}

/// `p` occurs somewhere in `s`.
pub open spec fn contains_seq(s: Seq<char>, p: Seq<char>) -> bool {
    exists|i: int| contains_at(s, p, i)
}

/// `s` begins with `p`.
pub open spec fn starts_with_seq(s: Seq<char>, p: Seq<char>) -> bool {
    p.len() <= s.len() && s.subrange(0, p.len() as int) == p
}

fn match_at(s: &[char], p: &[char], i: usize) -> (r: bool)
    requires
        i + p@.len() <= s@.len(),
    ensures
        r == contains_at(s@, p@, i as int),
{
    let m = p.len();
    let n = s.len();
    let mut j: usize = 0;
    while j < m
        invariant
            j <= m,
            m == p@.len(),
            n == s@.len(),
            i + m <= n,
            forall|k: int| 0 <= k < j ==> s@[i + k] == p@[k],
        decreases m - j,
    {
        if *slice_index_get(s, i + j) != *slice_index_get(p, j) {
            proof {
                assert(s@.subrange(i as int, i + p@.len()) != p@) by {
                    assert(s@.subrange(i as int, i + p@.len())[j as int] == s@[i + j]);
                }
            }
            return false;
        }
        j += 1;
    }
    proof {
        assert(s@.subrange(i as int, i + p@.len()) =~= p@);
    }
    true
}

/// Substring search: does `p` occur anywhere in `s`?
pub fn contains_sub(s: &[char], p: &[char]) -> (r: bool)
    ensures
        r == contains_seq(s@, p@),
{
    let n = s.len();
    let m = p.len();
    if m > n {
        return false;
    }
    if m == 0 {
        proof {
            assert(contains_at(s@, p@, 0)) by {
                assert(s@.subrange(0, 0) =~= p@);
            }
        }
        return true;
    }
    let mut i: usize = 0;
    while i <= n - m
        invariant
            1 <= m <= n,
            n == s@.len(),
            m == p@.len(),
            i <= n - m + 1,
            forall|k: int| 0 <= k < i ==> !contains_at(s@, p@, k),
        decreases n + 1 - m - i,
    {
        if match_at(s, p, i) {
            return true;
        }
        i += 1;
    }
    proof {
        assert forall|k: int| !contains_at(s@, p@, k) by {
            if 0 <= k <= n - m {
                assert(!contains_at(s@, p@, k));
            }
        }
    }
    false
}

/// Prefix test: does `s` begin with `p`?
pub fn has_prefix(s: &[char], p: &[char]) -> (r: bool)
    ensures
        r == starts_with_seq(s@, p@),
{
    if p.len() > s.len() {
        return false;
    }
    let r = match_at(s, p, 0);
    proof {
        assert(contains_at(s@, p@, 0) == starts_with_seq(s@, p@));
    }
    r
}

/// `c` is one of the characters of `cs`.
pub open spec fn in_set(cs: Seq<char>, c: char) -> bool {
    exists|i: int| 0 <= i < cs.len() && cs[i] == c
}

/// Number of leading characters of `s` drawn from `cs`.
pub open spec fn strip_start_ix(s: Seq<char>, cs: Seq<char>) -> int
    decreases s.len(),
{
    if s.len() == 0 {
        0
    } else if in_set(cs, s[0]) {
        1 + strip_start_ix(s.skip(1), cs)
    } else {
        0
    }
}

/// Length of `s` once trailing characters drawn from `cs` are removed.
pub open spec fn strip_end_ix(s: Seq<char>, cs: Seq<char>) -> int
    decreases s.len(),
{
    if s.len() == 0 {
        0
    } else if in_set(cs, s.last()) {
        strip_end_ix(s.drop_last(), cs)
    } else {
        s.len() as int
    }
}

/// `s` with every leading and trailing character drawn from `cs` removed.
pub open spec fn strip_set(s: Seq<char>, cs: Seq<char>) -> Seq<char> {
    let lo = strip_start_ix(s, cs);
    let hi = strip_end_ix(s, cs);
    if lo <= hi {
        s.subrange(lo, hi)
    } else {
        Seq::empty()
    }
}

pub proof fn lemma_strip_start_exact(s: Seq<char>, cs: Seq<char>, k: int)
    requires
        0 <= k <= s.len(),
        forall|i: int| 0 <= i < k ==> in_set(cs, s[i]),
        k < s.len() ==> !in_set(cs, s[k]),
    ensures
        strip_start_ix(s, cs) == k,
    decreases s.len(),
{
    if s.len() > 0 && in_set(cs, s[0]) {
        assert forall|i: int| 0 <= i < k - 1 implies in_set(cs, s.skip(1)[i]) by {
            assert(s.skip(1)[i] == s[i + 1]);
        }
        assert(k >= 1);
        if k - 1 < s.len() - 1 {
            assert(s.skip(1)[k - 1] == s[k]);
        }
        lemma_strip_start_exact(s.skip(1), cs, k - 1);
    }
}

pub proof fn lemma_strip_end_exact(s: Seq<char>, cs: Seq<char>, k: int)
    requires
        0 <= k <= s.len(),
        forall|i: int| k <= i < s.len() ==> in_set(cs, s[i]),
        k > 0 ==> !in_set(cs, s[k - 1]),
    ensures
        strip_end_ix(s, cs) == k,
    decreases s.len(),
{
    if s.len() > 0 && in_set(cs, s.last()) {
        assert(k < s.len());
        assert forall|i: int| k <= i < s.len() - 1 implies in_set(cs, s.drop_last()[i]) by {
            assert(s.drop_last()[i] == s[i]);
        }
        if k > 0 {
            assert(s.drop_last()[k - 1] == s[k - 1]);
        }
        lemma_strip_end_exact(s.drop_last(), cs, k);
    }
}

/// Membership scan used by the strip operations.
pub fn set_has(cs: &[char], c: char) -> (r: bool)
    ensures
        r == in_set(cs@, c),
{
    let n = cs.len();
    let mut i: usize = 0;
    while i < n
        invariant
            i <= n,
            n == cs@.len(),
            forall|k: int| 0 <= k < i ==> cs@[k] != c,
        decreases n - i,
    {
        if *slice_index_get(cs, i) == c {
            return true;
        }
        i += 1;
    }
    false
}

/// `s` with leading and trailing characters from `cs` removed.
pub fn strip_set_slice<'a>(s: &'a [char], cs: &[char]) -> (r: &'a [char])
    ensures
        r@ == strip_set(s@, cs@),
{
    let n = s.len();
    let mut lo: usize = 0;
    while lo < n && set_has(cs, *slice_index_get(s, lo))
        invariant
            lo <= n,
            n == s@.len(),
            forall|k: int| 0 <= k < lo ==> in_set(cs@, s@[k]),
        decreases n - lo,
    {
        lo += 1;
    }
    proof {
        lemma_strip_start_exact(s@, cs@, lo as int);
    }
    let mut hi: usize = n;
    while hi > 0 && set_has(cs, *slice_index_get(s, hi - 1))
        invariant
            hi <= n,
            n == s@.len(),
            forall|k: int| hi <= k < n ==> in_set(cs@, s@[k]),
        decreases hi,
    {
        hi -= 1;
    }
    proof {
        lemma_strip_end_exact(s@, cs@, hi as int);
    }
    if lo <= hi {
        slice_subrange(s, lo, hi)
    } else {
        let r = slice_subrange(s, 0, 0);
        proof {
            assert(r@ =~= Seq::<char>::empty());
        }
        r
    }
}

/// The whitespace characters recognized by trimming.
pub open spec fn ws_chars() -> Seq<char> {
    " \t\r\n\u{b}\u{c}"@
}

fn ws_chars_vec() -> (v: Vec<char>)
    ensures
        v@ == ws_chars(),
{
    str_to_chars(" \t\r\n\u{b}\u{c}")
}

/// `s` with leading and trailing whitespace removed.
pub open spec fn spec_trim(s: Seq<char>) -> Seq<char> {
    strip_set(s, ws_chars())
}

/// Trim whitespace from both ends of `s`.
pub fn trim_slice<'a>(s: &'a [char]) -> (r: &'a [char])
    ensures
        r@ == spec_trim(s@),
{
    let ws = ws_chars_vec();
    strip_set_slice(s, ws.as_slice())
}

/// `base`, a separator, and `name`, in that order.
pub fn join_path(base: &str, name: &str) -> (r: String)
    ensures
        r@ == base@ + "/"@ + name@,
{
    let mut r = base.to_owned();
    r.append("/");
    r.append(name);
    r
}

/// A line with one trailing carriage return removed.
pub open spec fn strip_cr(l: Seq<char>) -> Seq<char> {
    if l.len() > 0 && l.last() == '\r' {
        l.drop_last()
    } else {
        l
    }
}

/// The lines of `s`: segments separated by `'\n'`, each with one trailing
/// `'\r'` removed, and with no final empty segment when `s` ends in `'\n'`.
pub open spec fn spec_lines(s: Seq<char>) -> Seq<Seq<char>>
    decreases s.len(),
    via spec_lines_dec
{
    if s.len() == 0 {
        Seq::empty()
    } else {
        let k = first_ix(s, '\n');
        if k == s.len() {
            seq![s]
        } else {
            seq![strip_cr(s.subrange(0, k))] + spec_lines(s.skip(k + 1))
        }
    }
}

#[via_fn]
proof fn spec_lines_dec(s: Seq<char>) {
    lemma_first_ix(s, '\n');
}

/// The lines joined back with `'\n'`.
pub open spec fn join_lines(ls: Seq<Seq<char>>) -> Seq<char>
    decreases ls.len(),
{
    if ls.len() == 0 {
        Seq::empty()
    } else if ls.len() == 1 {
        ls[0]
    } else {
        ls[0] + seq!['\n'] + join_lines(ls.skip(1))
    }
}

/// Boundary pair `i` of `r` marks out element `i` of `target` within `s`.
pub open spec fn line_range_ok(s: Seq<char>, target: Seq<Seq<char>>, r: Seq<(usize, usize)>, i: int) -> bool {
    r[i].0 <= r[i].1 <= s.len() && target[i] == s.subrange(r[i].0 as int, r[i].1 as int)
}

/// The line boundaries of `s`: `spec_lines(s@)[i]` is `s[r[i].0 .. r[i].1]`.
pub fn split_lines(s: &[char]) -> (r: Vec<(usize, usize)>)
    ensures
        r@.len() == spec_lines(s@).len(),
        forall|i: int| 0 <= i < r@.len() ==> #[trigger] line_range_ok(s@, spec_lines(s@), r@, i),
{
    let n = s.len();
    let mut out: Vec<(usize, usize)> = Vec::new();
    let mut pos: usize = 0;
    proof {
        assert(s@.skip(0) =~= s@);
        assert(spec_lines(s@).skip(0) =~= spec_lines(s@));
    }
    while pos < n
        invariant
            pos <= n,
            n == s@.len(),
            forall|i: int| 0 <= i < out@.len() ==> #[trigger] line_range_ok(s@, spec_lines(s@), out@, i),
            spec_lines(s@).skip(out@.len() as int) == spec_lines(s@.skip(pos as int)),
            out@.len() <= spec_lines(s@).len(),
        decreases n - pos,
    {
        let ghost rest = s@.skip(pos as int);
        let ghost m = out@.len() as int;
        let k = find_char_from(s, pos, '\n');
        proof {
            assert(rest.len() == n - pos);
            lemma_first_ix(rest, '\n');
            assert(first_ix(rest, '\n') == k - pos);
        }
        if k == n {
            proof {
                assert(first_ix(rest, '\n') == rest.len());
                assert(spec_lines(rest) =~= seq![rest]);
                assert(spec_lines(s@).skip(m).len() == 1);
                assert(spec_lines(s@).len() == m + 1);
                assert(rest =~= s@.subrange(pos as int, n as int));
                assert(spec_lines(s@)[m] == spec_lines(s@).skip(m)[0]);
                assert(spec_lines(s@)[m] == s@.subrange(pos as int, n as int));
            }
            let ghost out_old = out@;
            out.push((pos, n));
            proof {
                assert(out@ == out_old.push((pos, n)));
                assert(out@[m] == (pos, n));
                assert forall|i: int| 0 <= i < out@.len() implies #[trigger] line_range_ok(
                    s@,
                    spec_lines(s@),
                    out@,
                    i,
                ) by {
                    if i < m {
                        assert(line_range_ok(s@, spec_lines(s@), out_old, i));
                        assert(out@[i] == out_old[i]);
                    }
                }
                assert(s@.skip(n as int).len() == 0);
                assert(spec_lines(s@).skip(m + 1) =~= spec_lines(s@.skip(n as int)));
            }
            pos = n;
        } else {
            let ghost kk = k - pos;
            let end: usize = if k > pos && *slice_index_get(s, k - 1) == '\r' {
                k - 1
            } else {
                k
            };
            proof {
                assert(0 <= kk < rest.len());
                assert(rest.subrange(0, kk) =~= s@.subrange(pos as int, k as int));
                let line = strip_cr(rest.subrange(0, kk));
                if k > pos && s@[k - 1] == '\r' {
                    assert(rest.subrange(0, kk).len() == kk);
                    if kk > 0 {
                        assert(rest.subrange(0, kk).last() == s@[k - 1]);
                        assert(line =~= s@.subrange(pos as int, end as int));
                    } else {
                        assert(line =~= s@.subrange(pos as int, end as int));
                    }
                } else {
                    if kk > 0 {
                        assert(rest.subrange(0, kk).last() == s@[k - 1]);
                    }
                    assert(line =~= s@.subrange(pos as int, end as int));
                }
                assert(spec_lines(rest) == seq![line] + spec_lines(rest.skip(kk + 1)));
                assert(spec_lines(rest).len() >= 1);
                assert(spec_lines(s@).skip(m).len() == spec_lines(rest).len());
                assert(spec_lines(s@).len() == m + spec_lines(rest).len());
                assert(spec_lines(s@)[m] == spec_lines(s@).skip(m)[0]);
                assert(spec_lines(s@).skip(m)[0] == spec_lines(rest)[0]);
                assert(spec_lines(rest)[0] == line);
                assert(spec_lines(s@)[m] == s@.subrange(pos as int, end as int));
                assert(rest.skip(kk + 1) =~= s@.skip(k + 1));
                assert forall|j: int| 0 <= j < spec_lines(rest).len() - 1 implies #[trigger] spec_lines(
                    s@,
                ).skip(m + 1)[j] == spec_lines(rest.skip(kk + 1))[j] by {
                    assert(spec_lines(s@).skip(m + 1)[j] == spec_lines(s@)[m + 1 + j]);
                    assert(spec_lines(s@)[m + 1 + j] == spec_lines(s@).skip(m)[1 + j]);
                    assert(spec_lines(s@).skip(m)[1 + j] == spec_lines(rest)[1 + j]);
                    assert(spec_lines(rest)[1 + j] == (seq![line] + spec_lines(
                        rest.skip(kk + 1),
                    ))[1 + j]);
                }
                assert(spec_lines(s@).skip(m + 1) =~= spec_lines(s@.skip(k + 1)));
            }
            let ghost out_old = out@;
            out.push((pos, end));
            proof {
                assert(out@ == out_old.push((pos, end)));
                assert(out@[m] == (pos, end));
                assert(pos <= end);
                assert forall|i: int| 0 <= i < out@.len() implies #[trigger] line_range_ok(
                    s@,
                    spec_lines(s@),
                    out@,
                    i,
                ) by {
                    if i < m {
                        assert(line_range_ok(s@, spec_lines(s@), out_old, i));
                        assert(out@[i] == out_old[i]);
                    }
                }
            }
            pos = k + 1;
        }
    }
    proof {
        assert(s@.skip(pos as int).len() == 0);
        assert(spec_lines(s@).skip(out@.len() as int) =~= Seq::<Seq<char>>::empty());
        assert(spec_lines(s@).len() == out@.len());
    }
    out
}

/// A decimal digit (code points 48 through 57).
pub open spec fn is_digit(c: char) -> bool {
    '0' <= c && c <= '9'
}

pub open spec fn digit_val(c: char) -> int {
    c as int - 48
}

/// The numeric value of a decimal digit character.
pub fn digit_of(c: char) -> (r: u32)
    requires
        is_digit(c),
    ensures
        r == digit_val(c),
        r <= 9,
{
    match c {
        '0' => 0,
        '1' => 1,
        '2' => 2,
        '3' => 3,
        '4' => 4,
        '5' => 5,
        '6' => 6,
        '7' => 7,
        '8' => 8,
        _ => 9,
    }
}

/// A non-empty run of decimal digits.
pub open spec fn all_digits(s: Seq<char>) -> bool {
    s.len() > 0 && forall|i: int| 0 <= i < s.len() ==> is_digit(s[i])
}

/// The value of a run of decimal digits.
pub open spec fn digits_val(s: Seq<char>) -> int
    decreases s.len(),
{
    if s.len() == 0 {
        0
    } else {
        digits_val(s.drop_last()) * 10 + digit_val(s.last())
    }
}

/// What `str::parse::<u32>` accepts: an optional leading `'+'`, then digits
/// whose value fits in 32 bits.
pub open spec fn spec_parse_u32(s: Seq<char>) -> Option<u32> {
    let d = if s.len() >= 1 && s[0] == '+' {
        s.skip(1)
    } else {
        s
    };
    if all_digits(d) && digits_val(d) <= u32::MAX {
        Some(digits_val(d) as u32)
    } else {
        None
    }
}

proof fn lemma_digits_val_bounds(s: Seq<char>)
    requires
        forall|i: int| 0 <= i < s.len() ==> is_digit(s[i]),
    ensures
        0 <= digits_val(s),
        forall|i: int| 0 <= i <= s.len() ==> digits_val(s.take(i)) <= digits_val(s),
    decreases s.len(),
{
    if s.len() > 0 {
        lemma_digits_val_bounds(s.drop_last());
        assert(digit_val(s.last()) >= 0);
        assert forall|i: int| 0 <= i <= s.len() implies digits_val(s.take(i)) <= digits_val(s) by {
            if i < s.len() {
                assert(s.take(i) =~= s.drop_last().take(i));
            } else {
                assert(s.take(i) =~= s);
            }
        }
    }
}

fn parse_digits(d: &[char]) -> (r: Option<u32>)
    ensures
        r == (if all_digits(d@) && digits_val(d@) <= u32::MAX {
            Some(digits_val(d@) as u32)
        } else {
            None::<u32>
        }),
{
    let n = d.len();
    if n == 0 {
        return None;
    }
    let mut acc: u64 = 0;
    let mut i: usize = 0;
    while i < n
        invariant
            i <= n,
            n == d@.len(),
            n >= 1,
            forall|k: int| 0 <= k < i ==> is_digit(d@[k]),
            acc == digits_val(d@.take(i as int)),
            acc <= u32::MAX,
        decreases n - i,
    {
        let c = *slice_index_get(d, i);
        if !(c >= '0' && c <= '9') {
            proof {
                assert(!is_digit(d@[i as int]));
            }
            return None;
        }
        let v = digit_of(c);
        proof {
            assert(is_digit(d@[i as int]));
            assert(d@.take(i + 1).drop_last() =~= d@.take(i as int));
            assert(d@.take(i + 1).last() == d@[i as int]);
        }
        acc = acc * 10 + (v as u64);
        i += 1;
        if acc > u32::MAX as u64 {
            proof {
                if all_digits(d@) {
                    lemma_digits_val_bounds(d@);
                    assert(digits_val(d@.take(i as int)) <= digits_val(d@));
                }
            }
            return None;
        }
    }
    proof {
        assert(d@.take(n as int) =~= d@);
    }
    Some(acc as u32)
}

/// What `str::parse::<u32>` returns on the characters `s`.
pub fn parse_u32(s: &[char]) -> (r: Option<u32>)
    ensures
        r == spec_parse_u32(s@),
{
    if s.len() >= 1 && *slice_index_get(s, 0) == '+' {
        let d = slice_subrange(s, 1, s.len());
        proof {
            assert(d@ =~= s@.skip(1));
        }
        parse_digits(d)
    } else {
        parse_digits(s)
    }
}

} // verus!
