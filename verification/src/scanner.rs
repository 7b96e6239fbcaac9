//! Turning a configuration directory entry into a detected install: version
//! extraction from the directory name and assembly of the `ProductInstall`
//! record. Directory walking and file reading stay with the caller; this
//! module holds the part that decides.

use crate::product::{
    spec_from_dir_name, JetBrainsProduct, ProductInstall, ProductInstallView, TrialStatus,
};
use crate::text::{find_char_from, first_ix, is_digit, join_path, str_to_chars};
use crate::trial::{detect_trial_status, spec_detect_trial_status};
use vstd::prelude::*;
use vstd::string::StrSliceExecFns;

verus! {

/// The suffix of `s` that starts at its first decimal digit; empty when `s`
/// holds no digit.
pub open spec fn version_tail(s: Seq<char>) -> Seq<char>
    decreases s.len(),
{
    if s.len() == 0 {
        s
    } else if is_digit(s[0]) {
        s
    } else {
        version_tail(s.skip(1))
    }
}

proof fn lemma_version_tail_exact(s: Seq<char>, k: int)
    requires
        0 <= k <= s.len(),
        forall|i: int| 0 <= i < k ==> !is_digit(s[i]),
        k < s.len() ==> is_digit(s[k]),
    ensures
        version_tail(s) == s.skip(k),
    decreases s.len(),
{
    if s.len() == 0 {
        assert(s.skip(k) =~= s);
    } else if is_digit(s[0]) {
        assert(k == 0);
        assert(s.skip(0) =~= s);
    } else {
        assert(k >= 1);
        assert forall|i: int| 0 <= i < k - 1 implies !is_digit(s.skip(1)[i]) by {
            assert(s.skip(1)[i] == s[i + 1]);
        }
        if k - 1 < s.len() - 1 {
            assert(s.skip(1)[k - 1] == s[k]);
        }
        lemma_version_tail_exact(s.skip(1), k - 1);
        assert(s.skip(1).skip(k - 1) =~= s.skip(k));
    }
}

/// The dotted version carried by a directory name: the run from the first
/// digit onward, cut after its second dot-separated segment.
pub open spec fn spec_extract_version(s: Seq<char>) -> Seq<char> {
    let t = version_tail(s);
    let k1 = first_ix(t, '.');
    if k1 == t.len() {
        t
    } else {
        let rest = t.skip(k1 + 1);
        let k2 = first_ix(rest, '.');
        t.take(k1) + seq!['.'] + rest.take(k2)
    }
}

/// Extract the version token from a directory name, keeping at most the
/// first two dot-separated segments.
pub fn extract_version(dir_name: &str) -> (r: String)
    ensures
        r@ == spec_extract_version(dir_name@),
{
    let chars = str_to_chars(dir_name);
    let s = chars.as_slice();
    let n = s.len();
    let mut d0: usize = 0;
    while d0 < n && !(*vstd::slice::slice_index_get(s, d0) >= '0'
        && *vstd::slice::slice_index_get(s, d0) <= '9')
        invariant
            d0 <= n,
            n == s@.len(),
            s@ == dir_name@,
            forall|i: int| 0 <= i < d0 ==> !is_digit(s@[i]),
        decreases n - d0,
    {
        d0 += 1;
    }
    proof {
        lemma_version_tail_exact(dir_name@, d0 as int);
    }
    let ghost t = version_tail(dir_name@);
    let k1 = find_char_from(s, d0, '.');
    proof {
        assert(t == dir_name@.skip(d0 as int));
        assert(k1 - d0 == first_ix(t, '.'));
    }
    if k1 == n {
        let r = dir_name.substring_char(d0, n).to_owned();
        proof {
            assert(first_ix(t, '.') == t.len());
            assert(dir_name@.subrange(d0 as int, n as int) =~= t);
        }
        r
    } else {
        let k2 = find_char_from(s, k1 + 1, '.');
        let r = dir_name.substring_char(d0, k2).to_owned();
        proof {
            let ghost kk1 = k1 - d0;
            let ghost rest = t.skip(kk1 + 1);
            assert(rest =~= dir_name@.skip(k1 + 1));
            assert(k2 - (k1 + 1) == first_ix(rest, '.'));
            let ghost kk2 = k2 - (k1 + 1);
            let ghost lhs = dir_name@.subrange(d0 as int, k2 as int);
            let ghost rhs = t.take(kk1) + seq!['.'] + rest.take(kk2);
            assert forall|j: int| 0 <= j < lhs.len() implies lhs[j] == rhs[j] by {
                if j < kk1 {
                    assert(t.take(kk1)[j] == t[j]);
                    assert(t[j] == dir_name@[d0 + j]);
                } else if j == kk1 {
                    assert(dir_name@[k1 as int] == '.');
                } else {
                    assert(rest.take(kk2)[j - kk1 - 1] == rest[j - kk1 - 1]);
                    assert(rest[j - kk1 - 1] == dir_name@[k1 + 1 + (j - kk1 - 1)]);
                }
            }
            assert(lhs =~= rhs);
        }
        r
    }
}

/// The status an options file's presence and text imply: a missing file
/// means the trial was never started.
pub open spec fn spec_trial_of_content(c: Option<Seq<char>>) -> TrialStatus {
    match c {
        Option::None => TrialStatus::NotStarted,
        Option::Some(t) => spec_detect_trial_status(t),
    }
}

/// Assemble the install record for one configuration directory entry.
///
/// `config_base` and `data_base` are the vendor directories under the
/// platform config and data roots; `options_content` is the text of the
/// entry's options file, or nothing when that file does not exist. The
/// record exists exactly when the catalog recognizes the directory name.
pub fn build_install(
    dir_name: &str,
    config_base: &str,
    data_base: &str,
    options_content: Option<&str>,
) -> (r: Option<ProductInstall>)
    ensures
        match spec_from_dir_name(dir_name@) {
            Option::None => r is None,
            Option::Some(p) => r matches Some(inst) && inst@ == (ProductInstallView {
                product: p,
                version: spec_extract_version(dir_name@),
                config_path: config_base@ + "/"@ + dir_name@,
                data_path: data_base@ + "/"@ + dir_name@,
                trial_status: spec_trial_of_content(
                    match options_content {
                        Option::Some(c) => Option::Some(c@),
                        Option::None => Option::None,
                    },
                ),
            }),
        },
{
    let product = match JetBrainsProduct::from_dir_name(dir_name) {
        Some(p) => p,
        None => {
            return None;
        },
    };
    let version = extract_version(dir_name);
    let config_path = join_path(config_base, dir_name);
    let data_path = join_path(data_base, dir_name);
    let trial_status = match options_content {
        Some(c) => detect_trial_status(c),
        None => TrialStatus::NotStarted,
    };
    let inst = ProductInstall { product, version, config_path, data_path, trial_status };
    Some(inst)
}

} // verus!
