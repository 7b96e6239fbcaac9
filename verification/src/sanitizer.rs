//! The line-by-line configuration sanitizer: every line whose trimmed text
//! carries a trial or evaluation marker is removed, together with at most one
//! immediately following blank or lone-comma line; all other lines pass
//! through verbatim, in their original order.

use crate::text::{
    contains_seq, contains_sub, join_lines, line_range_ok, spec_lines, spec_trim, split_lines,
    str_to_chars, strip_cr, trim_slice,
};
use vstd::prelude::*;
use vstd::slice::slice_subrange;
use vstd::string::{StrSliceExecFns, StringExecFns};

verus! {

/// A line whose trimmed text carries a trial or evaluation marker.
pub open spec fn is_marker_line(l: Seq<char>) -> bool {
    let t = spec_trim(l);
    contains_seq(t, "evlsprt"@) || contains_seq(t, "trial.state"@) || (contains_seq(t, "trial."@)
        && contains_seq(t, "availability"@))
}

/// A blank line, or one holding a lone comma.
pub open spec fn is_sep_line(l: Seq<char>) -> bool {
    let t = spec_trim(l);
    t.len() == 0 || t == ","@
}

/// The kept lines, walked front to back; `skip_next` records that the
/// previous line was a marker line, so that one following separator line
/// is dropped with it.
pub open spec fn clean_lines(ls: Seq<Seq<char>>, skip_next: bool) -> Seq<Seq<char>>
    decreases ls.len(),
{
    if ls.len() == 0 {
        Seq::empty()
    } else if is_marker_line(ls[0]) {
        clean_lines(ls.skip(1), true)
    } else if skip_next && is_sep_line(ls[0]) {
        clean_lines(ls.skip(1), false)
    } else {
        seq![ls[0]] + clean_lines(ls.skip(1), false)
    }
}

/// The sanitized form of a whole text.
pub open spec fn spec_clean_xml(s: Seq<char>) -> Seq<char> {
    join_lines(clean_lines(spec_lines(s), false))
}

fn is_marker_line_exec(l: &[char]) -> (r: bool)
    ensures
        r == is_marker_line(l@),
{
    let t = trim_slice(l);
    contains_sub(t, str_to_chars("evlsprt").as_slice()) || contains_sub(
        t,
        str_to_chars("trial.state").as_slice(),
    ) || (contains_sub(t, str_to_chars("trial.").as_slice()) && contains_sub(
        t,
        str_to_chars("availability").as_slice(),
    ))
}

fn is_sep_line_exec(l: &[char]) -> (r: bool)
    ensures
        r == is_sep_line(l@),
{
    let t = trim_slice(l);
    proof {
        reveal_strlit(",");
    }
    if t.len() == 0 {
        true
    } else if t.len() == 1 && *vstd::slice::slice_index_get(t, 0) == ',' {
        proof {
            assert(t@ =~= ","@);
        }
        true
    } else {
        proof {
            if t@ == ","@ {
                assert(t@.len() == 1 && t@[0] == ',');
            }
        }
        false
    }
}

proof fn lemma_join_snoc(ls: Seq<Seq<char>>, x: Seq<char>)
    ensures
        join_lines(ls.push(x)) == if ls.len() == 0 {
            x
        } else {
            join_lines(ls) + seq!['\n'] + x
        },
    decreases ls.len(),
{
    if ls.len() == 0 {
        assert(ls.push(x).len() == 1);
        assert(ls.push(x)[0] == x);
    } else {
        assert(ls.push(x).skip(1) =~= ls.skip(1).push(x));
        lemma_join_snoc(ls.skip(1), x);
        assert(ls.push(x)[0] == ls[0]);
        if ls.len() == 1 {
            assert(join_lines(ls) == ls[0]);
            assert(join_lines(ls.push(x)) == ls[0] + seq!['\n'] + x);
        } else {
            assert(join_lines(ls.push(x)) == ls[0] + seq!['\n'] + (join_lines(ls.skip(1))
                + seq!['\n'] + x));
            assert(ls[0] + seq!['\n'] + (join_lines(ls.skip(1)) + seq!['\n'] + x) =~= (ls[0]
                + seq!['\n'] + join_lines(ls.skip(1))) + seq!['\n'] + x);
        }
    }
}

/// Rewrite a configuration text, dropping marker lines and their trailing
/// separator lines, and joining what is left with newlines.
pub fn clean_xml_content(content: &str) -> (r: String)
    ensures
        r@ == spec_clean_xml(content@),
{
    let chars = str_to_chars(content);
    let s = chars.as_slice();
    let ranges = split_lines(s);
    let ghost ls = spec_lines(content@);
    let ghost cl = clean_lines(ls, false);
    let n = ranges.len();

    let mut kept: Vec<(usize, usize)> = Vec::new();
    let mut skip_next = false;
    let mut i: usize = 0;
    proof {
        assert(ls.skip(0) =~= ls);
    }
    while i < n
        invariant
            i <= n,
            n == ls.len(),
            s@ == content@,
            ls == spec_lines(content@),
            cl == clean_lines(ls, false),
            ranges@.len() == n,
            forall|j: int| 0 <= j < n ==> #[trigger] line_range_ok(s@, ls, ranges@, j),
            forall|j: int| 0 <= j < kept@.len() ==> #[trigger] line_range_ok(s@, cl, kept@, j),
            kept@.len() <= cl.len(),
            cl.skip(kept@.len() as int) == clean_lines(ls.skip(i as int), skip_next),
        decreases n - i,
    {
        proof {
            assert(line_range_ok(s@, ls, ranges@, i as int));
        }
        let (a, b) = (ranges[i].0, ranges[i].1);
        let line = slice_subrange(s, a, b);
        proof {
            assert(line@ == ls[i as int]);
            assert(ls.skip(i as int)[0] == ls[i as int]);
            assert(ls.skip(i as int).skip(1) =~= ls.skip(i + 1));
        }
        if is_marker_line_exec(line) {
            skip_next = true;
        } else if skip_next && is_sep_line_exec(line) {
            skip_next = false;
        } else {
            let ghost m = kept@.len() as int;
            proof {
                assert(clean_lines(ls.skip(i as int), skip_next) == seq![ls[i as int]]
                    + clean_lines(ls.skip(i + 1), false));
                assert(cl.skip(m).len() >= 1);
                assert(cl.len() >= m + 1);
                assert(cl[m] == cl.skip(m)[0]);
                assert(cl[m] == ls[i as int]);
            }
            let ghost kept_old = kept@;
            kept.push((a, b));
            proof {
                assert(kept@ == kept_old.push((a, b)));
                assert(kept@[m] == (a, b));
                assert forall|j: int| 0 <= j < kept@.len() implies #[trigger] line_range_ok(
                    s@,
                    cl,
                    kept@,
                    j,
                ) by {
                    if j < m {
                        assert(line_range_ok(s@, cl, kept_old, j));
                        assert(kept@[j] == kept_old[j]);
                    }
                }
                let ghost tail = clean_lines(ls.skip(i + 1), false);
                assert(cl.skip(m).len() == 1 + tail.len());
                assert forall|q: int| 0 <= q < tail.len() implies #[trigger] cl.skip(m + 1)[q]
                    == tail[q] by {
                    assert(cl.skip(m + 1)[q] == cl[m + 1 + q]);
                    assert(cl[m + 1 + q] == cl.skip(m)[1 + q]);
                    assert(cl.skip(m)[1 + q] == (seq![ls[i as int]] + tail)[1 + q]);
                }
                assert(cl.skip(m + 1) =~= tail);
            }
            skip_next = false;
        }
        i += 1;
    }
    proof {
        assert(ls.skip(n as int).len() == 0);
        assert(cl.skip(kept@.len() as int) =~= Seq::<Seq<char>>::empty());
        assert(cl.len() == kept@.len());
    }

    let kn = kept.len();
    let mut out = String::new();
    let mut j: usize = 0;
    proof {
        assert(cl.take(0) =~= Seq::<Seq<char>>::empty());
    }
    while j < kn
        invariant
            j <= kn,
            kn == cl.len(),
            s@ == content@,
            forall|q: int| 0 <= q < kn ==> #[trigger] line_range_ok(s@, cl, kept@, q),
            kept@.len() == kn,
            out@ == join_lines(cl.take(j as int)),
        decreases kn - j,
    {
        proof {
            assert(line_range_ok(s@, cl, kept@, j as int));
        }
        let (a, b) = (kept[j].0, kept[j].1);
        let piece = content.substring_char(a, b);
        proof {
            assert(piece@ == cl[j as int]);
            assert(cl.take(j + 1) =~= cl.take(j as int).push(cl[j as int]));
            lemma_join_snoc(cl.take(j as int), cl[j as int]);
            reveal_strlit("\n");
        }
        if j > 0 {
            out.append("\n");
        } else {
            proof {
                assert(join_lines(cl.take(j + 1)) == cl[j as int]);
                assert(out@ + cl[j as int] =~= cl[j as int]);
            }
        }
        out.append(piece);
        j += 1;
    }
    proof {
        assert(cl.take(kn as int) =~= cl);
    }
    out
}

/// Line `i` survives the sanitizer: it is no marker line, and it is not a
/// separator line standing immediately after a marker line.
pub open spec fn line_kept(ls: Seq<Seq<char>>, i: int) -> bool {
    !is_marker_line(ls[i]) && !(is_sep_line(ls[i]) && i > 0 && is_marker_line(ls[i - 1]))
}

/// The subsequence of `ls` from position `i` on whose members satisfy
/// `line_kept`, in their original order.
pub open spec fn kept_from(ls: Seq<Seq<char>>, i: int) -> Seq<Seq<char>>
    decreases ls.len() - i when 0 <= i <= ls.len()
{
    if i >= ls.len() {
        Seq::empty()
    } else if line_kept(ls, i) {
        seq![ls[i]] + kept_from(ls, i + 1)
    } else {
        kept_from(ls, i + 1)
    }
}

proof fn lemma_clean_kept(ls: Seq<Seq<char>>, i: int, flag: bool)
    requires
        0 <= i <= ls.len(),
        flag == (i > 0 && is_marker_line(ls[i - 1])),
    ensures
        clean_lines(ls.skip(i), flag) == kept_from(ls, i),
    decreases ls.len() - i,
{
    let rest = ls.skip(i);
    if rest.len() == 0 {
        assert(clean_lines(rest, flag) =~= kept_from(ls, i));
    } else {
        assert(rest[0] == ls[i]);
        assert(rest.skip(1) =~= ls.skip(i + 1));
        if is_marker_line(ls[i]) {
            lemma_clean_kept(ls, i + 1, true);
            assert(!line_kept(ls, i));
        } else if flag && is_sep_line(ls[i]) {
            lemma_clean_kept(ls, i + 1, false);
            assert(!line_kept(ls, i));
        } else {
            lemma_clean_kept(ls, i + 1, false);
            assert(line_kept(ls, i));
            assert(clean_lines(rest, flag) == seq![ls[i]] + clean_lines(ls.skip(i + 1), false));
        }
    }
}

/// What the sanitizer keeps, in closed form: a line survives exactly when it
/// neither matches a trial/eval marker nor is a blank or lone-comma line
/// standing immediately after a marker line; surviving lines appear
/// verbatim, in their original relative order.
pub proof fn lemma_sanitizer_selection(ls: Seq<Seq<char>>)
    ensures
        clean_lines(ls, false) == kept_from(ls, 0),
{
    assert(ls.skip(0) =~= ls);
    lemma_clean_kept(ls, 0, false);
}

proof fn lemma_kept_from_no_marker(ls: Seq<Seq<char>>, i: int)
    requires
        0 <= i <= ls.len(),
    ensures
        forall|j: int|
            0 <= j < kept_from(ls, i).len() ==> !is_marker_line(#[trigger] kept_from(ls, i)[j]),
    decreases ls.len() - i,
{
    if i < ls.len() {
        lemma_kept_from_no_marker(ls, i + 1);
        if line_kept(ls, i) {
            assert forall|j: int| 0 <= j < kept_from(ls, i).len() implies !is_marker_line(
                #[trigger] kept_from(ls, i)[j],
            ) by {
                if j > 0 {
                    assert(kept_from(ls, i)[j] == kept_from(ls, i + 1)[j - 1]);
                }
            }
        }
    }
}

/// No marker line survives the sanitizer.
pub proof fn lemma_sanitizer_no_markers(ls: Seq<Seq<char>>)
    ensures
        forall|j: int|
            0 <= j < clean_lines(ls, false).len() ==> !is_marker_line(
                #[trigger] clean_lines(ls, false)[j],
            ),
{
    lemma_sanitizer_selection(ls);
    lemma_kept_from_no_marker(ls, 0);
}

/// A sequence free of newline characters.
pub open spec fn nl_free(l: Seq<char>) -> bool {
    forall|j: int| 0 <= j < l.len() ==> l[j] != '\n'
}

proof fn lemma_lines_nl_free(s: Seq<char>)
    ensures
        forall|i: int| 0 <= i < spec_lines(s).len() ==> nl_free(#[trigger] spec_lines(s)[i]),
    decreases s.len(),
{
    crate::text::lemma_first_ix(s, '\n');
    if s.len() > 0 {
        let k = crate::text::first_ix(s, '\n');
        if k == s.len() {
            assert(nl_free(s));
        } else {
            let head = strip_cr(s.subrange(0, k));
            assert(nl_free(head)) by {
                assert(forall|j: int|
                    0 <= j < s.subrange(0, k).len() ==> #[trigger] s.subrange(0, k)[j] != '\n');
            }
            lemma_lines_nl_free(s.skip(k + 1));
            assert forall|i: int| 0 <= i < spec_lines(s).len() implies nl_free(
                #[trigger] spec_lines(s)[i],
            ) by {
                if i > 0 {
                    assert(spec_lines(s)[i] == spec_lines(s.skip(k + 1))[i - 1]);
                }
            }
        }
    }
}

proof fn lemma_clean_preserves_nl_free(ls: Seq<Seq<char>>, flag: bool)
    requires
        forall|i: int| 0 <= i < ls.len() ==> nl_free(#[trigger] ls[i]),
    ensures
        forall|j: int|
            0 <= j < clean_lines(ls, flag).len() ==> nl_free(#[trigger] clean_lines(ls, flag)[j]),
    decreases ls.len(),
{
    if ls.len() > 0 {
        assert(forall|i: int| 0 <= i < ls.skip(1).len() ==> nl_free(#[trigger] ls.skip(1)[i]));
        if is_marker_line(ls[0]) {
            lemma_clean_preserves_nl_free(ls.skip(1), true);
            assert forall|j: int| 0 <= j < clean_lines(ls, flag).len() implies nl_free(
                #[trigger] clean_lines(ls, flag)[j],
            ) by {
                assert(clean_lines(ls, flag)[j] == clean_lines(ls.skip(1), true)[j]);
            }
        } else if flag && is_sep_line(ls[0]) {
            lemma_clean_preserves_nl_free(ls.skip(1), false);
            assert forall|j: int| 0 <= j < clean_lines(ls, flag).len() implies nl_free(
                #[trigger] clean_lines(ls, flag)[j],
            ) by {
                assert(clean_lines(ls, flag)[j] == clean_lines(ls.skip(1), false)[j]);
            }
        } else {
            lemma_clean_preserves_nl_free(ls.skip(1), false);
            assert forall|j: int| 0 <= j < clean_lines(ls, flag).len() implies nl_free(
                #[trigger] clean_lines(ls, flag)[j],
            ) by {
                if j > 0 {
                    assert(clean_lines(ls, flag)[j] == clean_lines(ls.skip(1), false)[j - 1]);
                }
            }
        }
    }
}

/// The joined lines split back into exactly these lines: no line may end in
/// a carriage return except the last, and the last must be non-empty.
pub open spec fn rejoins_exactly(ls: Seq<Seq<char>>) -> bool {
    ls.len() == 0 || (ls.last().len() > 0 && forall|i: int|
        0 <= i < ls.len() - 1 ==> ((#[trigger] ls[i]).len() == 0 || ls[i].last() != '\r'))
}

proof fn lemma_lines_of_join(ls: Seq<Seq<char>>)
    requires
        forall|i: int| 0 <= i < ls.len() ==> nl_free(#[trigger] ls[i]),
        rejoins_exactly(ls),
    ensures
        spec_lines(join_lines(ls)) == ls,
    decreases ls.len(),
{
    let j = join_lines(ls);
    if ls.len() == 0 {
        assert(spec_lines(j) =~= ls);
    } else if ls.len() == 1 {
        assert(j == ls[0]);
        assert(ls.last() == ls[0]);
        assert(j.len() > 0);
        crate::text::lemma_first_ix_exact(j, '\n', j.len() as int);
        assert(spec_lines(j) =~= ls);
    } else {
        let head = ls[0];
        let rest_join = join_lines(ls.skip(1));
        assert(j == head + seq!['\n'] + rest_join);
        let k = head.len() as int;
        assert forall|i: int| 0 <= i < k implies j[i] != '\n' by {
            assert(j[i] == head[i]);
        }
        assert(j[k] == '\n');
        crate::text::lemma_first_ix_exact(j, '\n', k);
        assert(j.subrange(0, k) =~= head);
        assert(strip_cr(head) == head) by {
            assert(ls[0].len() == 0 || ls[0].last() != '\r');
        }
        assert(j.skip(k + 1) =~= rest_join);
        assert(forall|i: int| 0 <= i < ls.skip(1).len() ==> nl_free(#[trigger] ls.skip(1)[i]));
        assert(rejoins_exactly(ls.skip(1))) by {
            assert(ls.skip(1).last() == ls.last());
            assert forall|i: int|
                0 <= i < ls.skip(1).len() - 1 implies ((#[trigger] ls.skip(1)[i]).len() == 0
                || ls.skip(1)[i].last() != '\r') by {
                assert(ls.skip(1)[i] == ls[i + 1]);
            }
        }
        lemma_lines_of_join(ls.skip(1));
        assert(spec_lines(j) == seq![head] + spec_lines(rest_join));
        assert(spec_lines(j) =~= ls);
    }
}

proof fn lemma_clean_id(ls: Seq<Seq<char>>)
    requires
        forall|i: int| 0 <= i < ls.len() ==> !is_marker_line(#[trigger] ls[i]),
    ensures
        clean_lines(ls, false) == ls,
    decreases ls.len(),
{
    if ls.len() > 0 {
        assert(!is_marker_line(ls[0]));
        assert(forall|i: int|
            0 <= i < ls.skip(1).len() ==> !is_marker_line(#[trigger] ls.skip(1)[i]));
        lemma_clean_id(ls.skip(1));
        assert(clean_lines(ls, false) == seq![ls[0]] + ls.skip(1));
        assert(seq![ls[0]] + ls.skip(1) =~= ls);
    }
}

/// Sanitizing a second time changes nothing: the first pass leaves no marker
/// line behind, so the second pass keeps every line. The premise rules out
/// the inputs on which joining with newlines loses the line structure
/// itself (a surviving final empty line, or a surviving line that still
/// ends in a carriage return).
pub proof fn lemma_sanitize_idempotent(s: Seq<char>)
    requires
        rejoins_exactly(clean_lines(spec_lines(s), false)),
    ensures
        spec_clean_xml(spec_clean_xml(s)) == spec_clean_xml(s),
{
    let ls = spec_lines(s);
    let cl = clean_lines(ls, false);
    lemma_lines_nl_free(s);
    lemma_clean_preserves_nl_free(ls, false);
    lemma_lines_of_join(cl);
    lemma_sanitizer_no_markers(ls);
    lemma_clean_id(cl);
}

/// Whether a configuration text still carries any trial or evaluation key.
pub fn check_has_eval_keys(content: &str) -> (r: bool)
    ensures
        r == (contains_seq(content@, "evlsprt"@) || contains_seq(content@, "trial.state"@)
            || contains_seq(content@, "trial.availability"@)),
{
    let chars = str_to_chars(content);
    let s = chars.as_slice();
    contains_sub(s, str_to_chars("evlsprt").as_slice()) || contains_sub(
        s,
        str_to_chars("trial.state").as_slice(),
    ) || contains_sub(s, str_to_chars("trial.availability").as_slice())
}

} // verus!
