//! The closed catalog of supported products, the trial-status classification
//! attached to each detected install, and the per-install reset report.

use crate::text::{contains_seq, contains_sub, has_prefix, starts_with_seq, str_to_chars};
use vstd::prelude::*;

verus! {

/// The closed set of product identifiers this tool recognizes.
#[derive(Debug, Clone, Copy, PartialEq, Eq, Structural)]
pub enum JetBrainsProduct {
    IntelliJIdea,
    PyCharm,
    WebStorm,
    PhpStorm,
    CLion,
    GoLand,
    Rider,
    DataGrip,
    RubyMine,
    RustRover,
    AndroidStudio,
    Fleet,
}

/// Trial state inferred from the text of an install's options file.
#[derive(Debug, Clone, Copy, PartialEq, Eq, Structural)]
pub enum TrialStatus {
    Active { days_remaining: u32 },
    Expired,
    NotStarted,
    Licensed,
    Unknown,
}

/// Human-readable name of each product.
pub open spec fn spec_name(p: JetBrainsProduct) -> Seq<char> {
    match p {
        JetBrainsProduct::IntelliJIdea => "IntelliJ IDEA"@,
        JetBrainsProduct::PyCharm => "PyCharm"@,
        JetBrainsProduct::WebStorm => "WebStorm"@,
        JetBrainsProduct::PhpStorm => "PhpStorm"@,
        JetBrainsProduct::CLion => "CLion"@,
        JetBrainsProduct::GoLand => "GoLand"@,
        JetBrainsProduct::Rider => "Rider"@,
        JetBrainsProduct::DataGrip => "DataGrip"@,
        JetBrainsProduct::RubyMine => "RubyMine"@,
        JetBrainsProduct::RustRover => "RustRover"@,
        JetBrainsProduct::AndroidStudio => "Android Studio"@,
        JetBrainsProduct::Fleet => "Fleet"@,
    }
}

/// Display glyph of each product.
pub open spec fn spec_icon(p: JetBrainsProduct) -> Seq<char> {
    match p {
        JetBrainsProduct::IntelliJIdea => "🧠"@,
        JetBrainsProduct::PyCharm => "🐍"@,
        JetBrainsProduct::WebStorm => "🌐"@,
        JetBrainsProduct::PhpStorm => "🐘"@,
        JetBrainsProduct::CLion => "⚙️"@,
        JetBrainsProduct::GoLand => "🐹"@,
        JetBrainsProduct::Rider => "🎮"@,
        JetBrainsProduct::DataGrip => "🗄️"@,
        JetBrainsProduct::RubyMine => "💎"@,
        JetBrainsProduct::RustRover => "🦀"@,
        JetBrainsProduct::AndroidStudio => "🤖"@,
        JetBrainsProduct::Fleet => "🚀"@,
    }
}

/// Which product a configuration directory name denotes: the first of the
/// known prefixes that the name starts with, if any.
pub open spec fn spec_from_dir_name(s: Seq<char>) -> Option<JetBrainsProduct> {
    if starts_with_seq(s, "IntelliJIdea"@) {
        Some(JetBrainsProduct::IntelliJIdea)
    } else if starts_with_seq(s, "PyCharm"@) {
        Some(JetBrainsProduct::PyCharm)
    } else if starts_with_seq(s, "WebStorm"@) {
        Some(JetBrainsProduct::WebStorm)
    } else if starts_with_seq(s, "PhpStorm"@) {
        Some(JetBrainsProduct::PhpStorm)
    } else if starts_with_seq(s, "CLion"@) {
        Some(JetBrainsProduct::CLion)
    } else if starts_with_seq(s, "GoLand"@) {
        Some(JetBrainsProduct::GoLand)
    } else if starts_with_seq(s, "Rider"@) {
        Some(JetBrainsProduct::Rider)
    } else if starts_with_seq(s, "DataGrip"@) {
        Some(JetBrainsProduct::DataGrip)
    } else if starts_with_seq(s, "RubyMine"@) {
        Some(JetBrainsProduct::RubyMine)
    } else if starts_with_seq(s, "RustRover"@) {
        Some(JetBrainsProduct::RustRover)
    } else if starts_with_seq(s, "AndroidStudio"@) {
        Some(JetBrainsProduct::AndroidStudio)
    } else if starts_with_seq(s, "Fleet"@) {
        Some(JetBrainsProduct::Fleet)
    } else {
        None
    }
}

impl JetBrainsProduct {
    /// Identify a product from its configuration directory name.
    pub fn from_dir_name(name: &str) -> (r: Option<Self>)
        ensures
            r == spec_from_dir_name(name@),
    {
        let s = str_to_chars(name);
        if has_prefix(s.as_slice(), str_to_chars("IntelliJIdea").as_slice()) {
            Some(JetBrainsProduct::IntelliJIdea)
        } else if has_prefix(s.as_slice(), str_to_chars("PyCharm").as_slice()) {
            Some(JetBrainsProduct::PyCharm)
        } else if has_prefix(s.as_slice(), str_to_chars("WebStorm").as_slice()) {
            Some(JetBrainsProduct::WebStorm)
        } else if has_prefix(s.as_slice(), str_to_chars("PhpStorm").as_slice()) {
            Some(JetBrainsProduct::PhpStorm)
        } else if has_prefix(s.as_slice(), str_to_chars("CLion").as_slice()) {
            Some(JetBrainsProduct::CLion)
        } else if has_prefix(s.as_slice(), str_to_chars("GoLand").as_slice()) {
            Some(JetBrainsProduct::GoLand)
        } else if has_prefix(s.as_slice(), str_to_chars("Rider").as_slice()) {
            Some(JetBrainsProduct::Rider)
        } else if has_prefix(s.as_slice(), str_to_chars("DataGrip").as_slice()) {
            Some(JetBrainsProduct::DataGrip)
        } else if has_prefix(s.as_slice(), str_to_chars("RubyMine").as_slice()) {
            Some(JetBrainsProduct::RubyMine)
        } else if has_prefix(s.as_slice(), str_to_chars("RustRover").as_slice()) {
            Some(JetBrainsProduct::RustRover)
        } else if has_prefix(s.as_slice(), str_to_chars("AndroidStudio").as_slice()) {
            Some(JetBrainsProduct::AndroidStudio)
        } else if has_prefix(s.as_slice(), str_to_chars("Fleet").as_slice()) {
            Some(JetBrainsProduct::Fleet)
        } else {
            None
        }
    }

    pub fn icon(&self) -> (r: &'static str)
        ensures
            r@ == spec_icon(*self),
    {
        match self {
            JetBrainsProduct::IntelliJIdea => "🧠",
            JetBrainsProduct::PyCharm => "🐍",
            JetBrainsProduct::WebStorm => "🌐",
            JetBrainsProduct::PhpStorm => "🐘",
            JetBrainsProduct::CLion => "⚙️",
            JetBrainsProduct::GoLand => "🐹",
            JetBrainsProduct::Rider => "🎮",
            JetBrainsProduct::DataGrip => "🗄️",
            JetBrainsProduct::RubyMine => "💎",
            JetBrainsProduct::RustRover => "🦀",
            JetBrainsProduct::AndroidStudio => "🤖",
            JetBrainsProduct::Fleet => "🚀",
        }
    }

    pub fn name(&self) -> (r: &'static str)
        ensures
            r@ == spec_name(*self),
    {
        match self {
            JetBrainsProduct::IntelliJIdea => "IntelliJ IDEA",
            JetBrainsProduct::PyCharm => "PyCharm",
            JetBrainsProduct::WebStorm => "WebStorm",
            JetBrainsProduct::PhpStorm => "PhpStorm",
            JetBrainsProduct::CLion => "CLion",
            JetBrainsProduct::GoLand => "GoLand",
            JetBrainsProduct::Rider => "Rider",
            JetBrainsProduct::DataGrip => "DataGrip",
            JetBrainsProduct::RubyMine => "RubyMine",
            JetBrainsProduct::RustRover => "RustRover",
            JetBrainsProduct::AndroidStudio => "Android Studio",
            JetBrainsProduct::Fleet => "Fleet",
        }
    }
}

/// An ASCII capital letter mapped to its small form; any other character
/// unchanged.
pub open spec fn lower_char(c: char) -> char {
    match c {
        'A' => 'a',
        'B' => 'b',
        'C' => 'c',
        'D' => 'd',
        'E' => 'e',
        'F' => 'f',
        'G' => 'g',
        'H' => 'h',
        'I' => 'i',
        'J' => 'j',
        'K' => 'k',
        'L' => 'l',
        'M' => 'm',
        'N' => 'n',
        'O' => 'o',
        'P' => 'p',
        'Q' => 'q',
        'R' => 'r',
        'S' => 's',
        'T' => 't',
        'U' => 'u',
        'V' => 'v',
        'W' => 'w',
        'X' => 'x',
        'Y' => 'y',
        'Z' => 'z',
        _ => c,
    }
}

/// `s` lowercased character by character.
pub open spec fn lower_seq(s: Seq<char>) -> Seq<char> {
    s.map_values(|c: char| lower_char(c))
}

fn lower_char_exec(c: char) -> (r: char)
    ensures
        r == lower_char(c),
{
    match c {
        'A' => 'a',
        'B' => 'b',
        'C' => 'c',
        'D' => 'd',
        'E' => 'e',
        'F' => 'f',
        'G' => 'g',
        'H' => 'h',
        'I' => 'i',
        'J' => 'j',
        'K' => 'k',
        'L' => 'l',
        'M' => 'm',
        'N' => 'n',
        'O' => 'o',
        'P' => 'p',
        'Q' => 'q',
        'R' => 'r',
        'S' => 's',
        'T' => 't',
        'U' => 'u',
        'V' => 'v',
        'W' => 'w',
        'X' => 'x',
        'Y' => 'y',
        'Z' => 'z',
        _ => c,
    }
}

fn to_lower_chars(s: &[char]) -> (v: Vec<char>)
    ensures
        v@ == lower_seq(s@),
{
    let n = s.len();
    let mut v: Vec<char> = Vec::new();
    let mut i: usize = 0;
    proof {
        assert(v@ =~= lower_seq(s@.take(0)));
    }
    while i < n
        invariant
            i <= n,
            n == s@.len(),
            v@ == lower_seq(s@.take(i as int)),
        decreases n - i,
    {
        let c = lower_char_exec(*vstd::slice::slice_index_get(s, i));
        v.push(c);
        proof {
            assert(v@ =~= lower_seq(s@.take(i + 1)));
        }
        i += 1;
    }
    proof {
        assert(s@.take(n as int) =~= s@);
    }
    v
}

/// One detected product instance. Paths are plain strings; the caller that
/// walks the filesystem supplies and consumes them.
pub struct ProductInstall {
    pub product: JetBrainsProduct,
    pub version: String,
    pub config_path: String,
    pub data_path: String,
    pub trial_status: TrialStatus,
}

/// Mathematical image of a `ProductInstall`.
#[verifier::ext_equal]
pub struct ProductInstallView {
    pub product: JetBrainsProduct,
    pub version: Seq<char>,
    pub config_path: Seq<char>,
    pub data_path: Seq<char>,
    pub trial_status: TrialStatus,
}

impl View for ProductInstall {
    type V = ProductInstallView;

    open spec fn view(&self) -> ProductInstallView {
        ProductInstallView {
            product: self.product,
            version: self.version@,
            config_path: self.config_path@,
            data_path: self.data_path@,
            trial_status: self.trial_status,
        }
    }
}

impl Clone for ProductInstall {
    fn clone(&self) -> (r: Self)
        ensures
            r == *self,
    {
        ProductInstall {
            product: self.product,
            version: self.version.clone(),
            config_path: self.config_path.clone(),
            data_path: self.data_path.clone(),
            trial_status: self.trial_status,
        }
    }
}

/// Per-install outcome of a reset: what was backed up, touched and removed,
/// and whether the whole sequence of steps ran to completion.
pub struct ResetReport {
    pub product: ProductInstall,
    pub success: bool,
    pub backup_created: bool,
    pub backup_path: Option<String>,
    pub files_modified: Vec<String>,
    pub dirs_removed: Vec<String>,
    pub error: Option<String>,
}

/// Mathematical image of a `ResetReport`.
#[verifier::ext_equal]
pub struct ResetReportView {
    pub product: ProductInstallView,
    pub success: bool,
    pub backup_created: bool,
    pub backup_path: Option<Seq<char>>,
    pub files_modified: Seq<Seq<char>>,
    pub dirs_removed: Seq<Seq<char>>,
    pub error: Option<Seq<char>>,
}

impl View for ResetReport {
    type V = ResetReportView;

    open spec fn view(&self) -> ResetReportView {
        ResetReportView {
            product: self.product@,
            success: self.success,
            backup_created: self.backup_created,
            backup_path: match self.backup_path {
                Some(p) => Some(p@),
                None => None,
            },
            files_modified: self.files_modified@.map_values(|s: String| s@),
            dirs_removed: self.dirs_removed@.map_values(|s: String| s@),
            error: match self.error {
                Some(e) => Some(e@),
                None => None,
            },
        }
    }
}

/// The report an install starts out with: nothing done, nothing recorded.
pub open spec fn empty_report(p: ProductInstallView) -> ResetReportView {
    ResetReportView {
        product: p,
        success: false,
        backup_created: false,
        backup_path: None,
        files_modified: Seq::empty(),
        dirs_removed: Seq::empty(),
        error: None,
    }
}

impl ResetReport {
    pub fn new(product: ProductInstall) -> (r: Self)
        ensures
            r.product == product,
            r.success == false,
            r.backup_created == false,
            r.backup_path is None,
            r.files_modified@ == Seq::<String>::empty(),
            r.dirs_removed@ == Seq::<String>::empty(),
            r.error is None,
            r@ == empty_report(product@),
    {
        let r = ResetReport {
            product,
            success: false,
            backup_created: false,
            backup_path: None,
            files_modified: Vec::new(),
            dirs_removed: Vec::new(),
            error: None,
        };
        proof {
            assert(r@ =~= empty_report(r.product@));
        }
        r
    }
}

/// A filter name selects an install when the lowercased product name
/// contains the lowercased filter name.
pub open spec fn install_matches(p: ProductInstall, names: Seq<Seq<char>>) -> bool {
    exists|j: int|
        0 <= j < names.len() && contains_seq(lower_seq(spec_name(p.product)), lower_seq(names[j]))
}

/// The installs selected by a list of filter names, in their original order.
pub open spec fn spec_filter_products(
    ps: Seq<ProductInstall>,
    names: Seq<Seq<char>>,
) -> Seq<ProductInstall>
    decreases ps.len(),
{
    if ps.len() == 0 {
        Seq::empty()
    } else if install_matches(ps[0], names) {
        seq![ps[0]] + spec_filter_products(ps.skip(1), names)
    } else {
        spec_filter_products(ps.skip(1), names)
    }
}

fn matches_any(p: &ProductInstall, names: &Vec<String>) -> (r: bool)
    ensures
        r == install_matches(*p, names@.map_values(|s: String| s@)),
{
    let ghost nms = names@.map_values(|s: String| s@);
    let name_chars = str_to_chars(p.product.name());
    let lname = to_lower_chars(name_chars.as_slice());
    let k = names.len();
    let mut j: usize = 0;
    while j < k
        invariant
            j <= k,
            k == names@.len(),
            nms == names@.map_values(|s: String| s@),
            lname@ == lower_seq(spec_name(p.product)),
            forall|t: int|
                0 <= t < j ==> !contains_seq(lower_seq(spec_name(p.product)), lower_seq(nms[t])),
        decreases k - j,
    {
        let fchars = str_to_chars(names[j].as_str());
        let lf = to_lower_chars(fchars.as_slice());
        proof {
            assert(nms[j as int] == names@[j as int]@);
        }
        if contains_sub(lname.as_slice(), lf.as_slice()) {
            return true;
        }
        j += 1;
    }
    false
}

/// Keep the installs whose product name contains one of the given names,
/// compared without regard to letter case.
pub fn filter_products(all_products: &Vec<ProductInstall>, names: &Vec<String>) -> (r: Vec<
    ProductInstall,
>)
    ensures
        r@ == spec_filter_products(all_products@, names@.map_values(|s: String| s@)),
{
    let ghost nms = names@.map_values(|s: String| s@);
    let ghost whole = spec_filter_products(all_products@, nms);
    let n = all_products.len();
    let mut r: Vec<ProductInstall> = Vec::new();
    let mut i: usize = 0;
    proof {
        assert(all_products@.skip(0) =~= all_products@);
        assert(Seq::<ProductInstall>::empty() + whole =~= whole);
    }
    while i < n
        invariant
            i <= n,
            n == all_products@.len(),
            nms == names@.map_values(|s: String| s@),
            whole == spec_filter_products(all_products@, nms),
            whole == r@ + spec_filter_products(all_products@.skip(i as int), nms),
        decreases n - i,
    {
        let ghost rest = all_products@.skip(i as int);
        proof {
            assert(rest[0] == all_products@[i as int]);
            assert(rest.skip(1) =~= all_products@.skip(i + 1));
        }
        let p = &all_products[i];
        if matches_any(p, names) {
            r.push(p.clone());
            proof {
                assert(spec_filter_products(rest, nms) == seq![all_products@[i as int]]
                    + spec_filter_products(all_products@.skip(i + 1), nms));
                assert(r@ + spec_filter_products(all_products@.skip(i + 1), nms) =~= whole);
            }
        } else {
            proof {
                assert(spec_filter_products(rest, nms) == spec_filter_products(
                    all_products@.skip(i + 1),
                    nms,
                ));
            }
        }
        i += 1;
    }
    proof {
        assert(all_products@.skip(n as int).len() == 0);
        assert(r@ + spec_filter_products(all_products@.skip(n as int), nms) =~= r@);
    }
    r
}

} // verus!
