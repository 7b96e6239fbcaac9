//! Trial-status inference: classify the text of an install's options file by
//! ordered marker precedence, and read the remaining-days counter out of an
//! evaluation key line.

use crate::product::TrialStatus;
use crate::text::{
    contains_seq, contains_sub, find_char_from, first_ix, line_range_ok, parse_u32, spec_lines,
    spec_parse_u32, spec_trim, split_lines, str_to_chars, strip_set, strip_set_slice, trim_slice,
};
use vstd::prelude::*;
use vstd::slice::slice_subrange;

verus! {

/// The day counter a single line yields: the text between the first and
/// second colon, trimmed of whitespace, then of quotes, then of commas,
/// read as a decimal number — provided the line mentions the counter key.
pub open spec fn spec_line_days(l: Seq<char>) -> Option<u32> {
    if contains_seq(l, "evlsprt3"@) {
        let k1 = first_ix(l, ':');
        if k1 == l.len() {
            None
        } else {
            let rest = l.skip(k1 + 1);
            let k2 = first_ix(rest, ':');
            let value = rest.take(k2);
            let clean = strip_set(strip_set(spec_trim(value), "\""@), ","@);
            spec_parse_u32(clean)
        }
    } else {
        None
    }
}

/// The first line that yields a day counter decides.
pub open spec fn days_from_lines(ls: Seq<Seq<char>>) -> Option<u32>
    decreases ls.len(),
{
    if ls.len() == 0 {
        None
    } else if spec_line_days(ls[0]) is Some {
        spec_line_days(ls[0])
    } else {
        days_from_lines(ls.skip(1))
    }
}

/// The remaining-days counter of a whole options text, with the fixed
/// fallback of 30 when no line yields one.
pub open spec fn spec_extract_trial_days(s: Seq<char>) -> u32 {
    match days_from_lines(spec_lines(s)) {
        Some(d) => d,
        None => 30u32,
    }
}

fn line_days(l: &[char]) -> (r: Option<u32>)
    ensures
        r == spec_line_days(l@),
{
    let pat = str_to_chars("evlsprt3");
    if !contains_sub(l, pat.as_slice()) {
        return None;
    }
    let n = l.len();
    let k1 = find_char_from(l, 0, ':');
    proof {
        assert(l@.skip(0) =~= l@);
    }
    if k1 == n {
        return None;
    }
    let k2 = find_char_from(l, k1 + 1, ':');
    let value = slice_subrange(l, k1 + 1, k2);
    proof {
        assert(k2 - (k1 + 1) == first_ix(l@.skip(k1 + 1), ':'));
        assert(value@ =~= l@.skip(k1 + 1).take(k2 - (k1 + 1)));
    }
    let v1 = trim_slice(value);
    let quote = str_to_chars("\"");
    let v2 = strip_set_slice(v1, quote.as_slice());
    let comma = str_to_chars(",");
    let v3 = strip_set_slice(v2, comma.as_slice());
    parse_u32(v3)
}

/// The remaining-days counter found in `content`, if any line carries one;
/// 30 otherwise.
pub fn extract_trial_days(content: &str) -> (r: Option<u32>)
    ensures
        r == Some(spec_extract_trial_days(content@)),
{
    let chars = str_to_chars(content);
    let s = chars.as_slice();
    let ranges = split_lines(s);
    let ghost ls = spec_lines(content@);
    let n = ranges.len();
    let mut i: usize = 0;
    proof {
        assert(ls.skip(0) =~= ls);
    }
    while i < n
        invariant
            i <= n,
            n == ls.len(),
            s@ == content@,
            ls == spec_lines(content@),
            ranges@.len() == n,
            forall|j: int| 0 <= j < n ==> #[trigger] line_range_ok(s@, ls, ranges@, j),
            days_from_lines(ls) == days_from_lines(ls.skip(i as int)),
        decreases n - i,
    {
        proof {
            assert(line_range_ok(s@, ls, ranges@, i as int));
        }
        let (a, b) = (ranges[i].0, ranges[i].1);
        let line = slice_subrange(s, a, b);
        proof {
            assert(line@ == ls[i as int]);
            assert(ls.skip(i as int)[0] == ls[i as int]);
        }
        let d = line_days(line);
        match d {
            Some(v) => {
                return Some(v);
            },
            None => {
                proof {
                    assert(ls.skip(i as int).skip(1) =~= ls.skip(i + 1));
                }
            },
        }
        i += 1;
    }
    proof {
        assert(ls.skip(n as int).len() == 0);
    }
    Some(30)
}

/// The classification of a whole options text, in strict precedence order:
/// a license marker wins; then an evaluation key, whose day counter decides
/// between expired and active; then an explicit trial state; else unknown.
pub open spec fn spec_detect_trial_status(s: Seq<char>) -> TrialStatus {
    if contains_seq(s, "license"@) || contains_seq(s, "Licensed"@) {
        TrialStatus::Licensed
    } else if contains_seq(s, "evlsprt"@) {
        let d = spec_extract_trial_days(s);
        if d == 0 {
            TrialStatus::Expired
        } else {
            TrialStatus::Active { days_remaining: d }
        }
    } else if contains_seq(s, "trial.state"@) {
        if contains_seq(s, "\"EXPIRED\""@) {
            TrialStatus::Expired
        } else if contains_seq(s, "\"ACTIVE\""@) {
            TrialStatus::Active { days_remaining: spec_extract_trial_days(s) }
        } else {
            TrialStatus::Unknown
        }
    } else {
        TrialStatus::Unknown
    }
}

/// Classify the text of an options file.
pub fn detect_trial_status(content: &str) -> (r: TrialStatus)
    ensures
        r == spec_detect_trial_status(content@),
{
    let chars = str_to_chars(content);
    let s = chars.as_slice();
    if contains_sub(s, str_to_chars("license").as_slice()) || contains_sub(
        s,
        str_to_chars("Licensed").as_slice(),
    ) {
        return TrialStatus::Licensed;
    }
    if contains_sub(s, str_to_chars("evlsprt").as_slice()) {
        let d = match extract_trial_days(content) {
            Some(v) => v,
            None => 0,
        };
        if d == 0 {
            return TrialStatus::Expired;
        } else {
            return TrialStatus::Active { days_remaining: d };
        }
    }
    if contains_sub(s, str_to_chars("trial.state").as_slice()) {
        if contains_sub(s, str_to_chars("\"EXPIRED\"").as_slice()) {
            return TrialStatus::Expired;
        } else if contains_sub(s, str_to_chars("\"ACTIVE\"").as_slice()) {
            let d = match extract_trial_days(content) {
                Some(v) => v,
                None => 30,
            };
            return TrialStatus::Active { days_remaining: d };
        }
    }
    TrialStatus::Unknown
}

/// A license marker takes precedence over every other marker: whatever else
/// the text contains, it classifies as licensed.
pub proof fn lemma_license_precedence(s: Seq<char>)
    ensures
        (contains_seq(s, "license"@) || contains_seq(s, "Licensed"@))
            ==> spec_detect_trial_status(s) == TrialStatus::Licensed,
{
}

} // verus!
