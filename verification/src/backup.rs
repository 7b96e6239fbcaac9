//! Backup bookkeeping: snapshot naming under the per-user backup root,
//! newest-first ordering of existing snapshots, and the selection rules that
//! say which parts of an install a snapshot carries and which parts a
//! restore brings back. Copying bytes on disk is the caller's part; what is
//! copied, and under which name, is decided here.

use crate::platform::{resolve_home, ConfigError};
use crate::text::{has_prefix, join_path, starts_with_seq, str_to_chars};
use vstd::multiset::Multiset;
use vstd::prelude::*;
use vstd::slice::slice_to_vec;
use vstd::string::StringExecFns;

verus! {

/// One existing snapshot: its directory, its name, and its creation time in
/// seconds.
pub struct BackupInfo {
    pub path: String,
    pub name: String,
    pub created: u64,
}

/// Knows where snapshots live.
pub struct BackupManager {
    pub backup_root: String,
}

/// Relies on chrono's `Local::now` and `DateTime::format`: the wall-clock
/// time rendered as `YYYYMMDD_HHMMSS`. The result depends on the clock and
/// the local time zone, so nothing is promised about it.
#[verifier::external_body]
fn now_timestamp() -> (r: String) {
    chrono::Local::now().format("%Y%m%d_%H%M%S").to_string()
}

impl BackupManager {
    /// The manager for a given home directory: snapshots live in a fixed
    /// dot-directory directly under it.
    pub fn from_home(home: &str) -> (m: Self)
        ensures
            m.backup_root@ == home@ + "/"@ + ".jetbrains-trial-backups"@,
    {
        BackupManager { backup_root: join_path(home, ".jetbrains-trial-backups") }
    }

    /// Resolve the backup root under the user's home directory. The caller
    /// creates the directory itself before first use.
    pub fn new() -> (r: Result<Self, ConfigError>)
        ensures
            r matches Ok(m) ==> exists|h: Seq<char>|
                m.backup_root@ == h + "/"@ + ".jetbrains-trial-backups"@,
            r matches Err(e) ==> e == ConfigError::NoHomeDir,
    {
        match resolve_home() {
            Ok(h) => Ok(Self::from_home(h.as_str())),
            Err(e) => Err(e),
        }
    }

    /// The snapshot directory for `label` at a given timestamp:
    /// `<root>/<label>_<timestamp>`.
    pub fn backup_path_for(&self, label: &str, timestamp: &str) -> (p: String)
        ensures
            p@ == self.backup_root@ + "/"@ + label@ + "_"@ + timestamp@,
    {
        let mut name = label.to_owned();
        name.append("_");
        name.append(timestamp);
        let p = join_path(self.backup_root.as_str(), name.as_str());
        proof {
            assert(p@ =~= self.backup_root@ + "/"@ + label@ + "_"@ + timestamp@);
        }
        p
    }

    /// The snapshot directory for `label` stamped with the current time.
    pub fn create_backup_path(&self, label: &str) -> (p: String)
        ensures
            exists|ts: Seq<char>| p@ == self.backup_root@ + "/"@ + label@ + "_"@ + ts,
    {
        let ts = now_timestamp();
        self.backup_path_for(label, ts.as_str())
    }
}

/// One file of an install's configuration tree, named by its path relative
/// to the install's configuration directory.
pub struct FileEntry {
    pub rel_path: String,
    pub content: Vec<u8>,
}

/// Mathematical image of a `FileEntry`.
#[verifier::ext_equal]
pub struct FileEntryView {
    pub rel_path: Seq<char>,
    pub content: Seq<u8>,
}

impl View for FileEntry {
    type V = FileEntryView;

    open spec fn view(&self) -> FileEntryView {
        FileEntryView { rel_path: self.rel_path@, content: self.content@ }
    }
}

/// The entries of a tree, as values.
pub open spec fn entries_view(es: Seq<FileEntry>) -> Seq<FileEntryView> {
    es.map_values(|e: FileEntry| e@)
}

/// An entry a snapshot carries: one under the options directory or under
/// the eval directory.
pub open spec fn in_snapshot(e: FileEntryView) -> bool {
    starts_with_seq(e.rel_path, "options/"@) || starts_with_seq(e.rel_path, "eval/"@)
}

/// An entry a restore brings back: one under the options directory.
pub open spec fn in_options(e: FileEntryView) -> bool {
    starts_with_seq(e.rel_path, "options/"@)
}

/// What a snapshot of a configuration tree holds: exactly the entries under
/// the two mutable directories, in order, byte for byte.
pub open spec fn snapshot_of(tree: Seq<FileEntryView>) -> Seq<FileEntryView>
    decreases tree.len(),
{
    if tree.len() == 0 {
        Seq::empty()
    } else if in_snapshot(tree[0]) {
        seq![tree[0]] + snapshot_of(tree.skip(1))
    } else {
        snapshot_of(tree.skip(1))
    }
}

/// The entries under the options directory, in order.
pub open spec fn options_entries(es: Seq<FileEntryView>) -> Seq<FileEntryView>
    decreases es.len(),
{
    if es.len() == 0 {
        Seq::empty()
    } else if in_options(es[0]) {
        seq![es[0]] + options_entries(es.skip(1))
    } else {
        options_entries(es.skip(1))
    }
}

/// The entries outside the options directory, in order.
pub open spec fn non_options_entries(es: Seq<FileEntryView>) -> Seq<FileEntryView>
    decreases es.len(),
{
    if es.len() == 0 {
        Seq::empty()
    } else if !in_options(es[0]) {
        seq![es[0]] + non_options_entries(es.skip(1))
    } else {
        non_options_entries(es.skip(1))
    }
}

/// What a restore leaves in a target tree: the target's entries outside the
/// options directory, followed by the snapshot's options entries, byte for
/// byte.
pub open spec fn restore_of(
    snapshot: Seq<FileEntryView>,
    target: Seq<FileEntryView>,
) -> Seq<FileEntryView> {
    non_options_entries(target) + options_entries(snapshot)
}

fn clone_entry(e: &FileEntry) -> (r: FileEntry)
    ensures
        r@ == e@,
{
    FileEntry { rel_path: e.rel_path.clone(), content: slice_to_vec(e.content.as_slice()) }
}

fn entry_in_options(e: &FileEntry) -> (r: bool)
    ensures
        r == in_options(e@),
{
    let chars = str_to_chars(e.rel_path.as_str());
    has_prefix(chars.as_slice(), str_to_chars("options/").as_slice())
}

fn entry_in_snapshot(e: &FileEntry) -> (r: bool)
    ensures
        r == in_snapshot(e@),
{
    let chars = str_to_chars(e.rel_path.as_str());
    has_prefix(chars.as_slice(), str_to_chars("options/").as_slice()) || has_prefix(
        chars.as_slice(),
        str_to_chars("eval/").as_slice(),
    )
}

/// The snapshot a backup takes of a configuration tree: the entries under
/// `options/` and `eval/`, copied byte for byte.
pub fn create_backup_plan(tree: &Vec<FileEntry>) -> (r: Vec<FileEntry>)
    ensures
        entries_view(r@) == snapshot_of(entries_view(tree@)),
{
    let ghost tv = entries_view(tree@);
    let ghost whole = snapshot_of(tv);
    let n = tree.len();
    let mut r: Vec<FileEntry> = Vec::new();
    let mut i: usize = 0;
    proof {
        assert(tv.skip(0) =~= tv);
        assert(entries_view(r@) + whole =~= whole);
    }
    while i < n
        invariant
            i <= n,
            n == tree@.len(),
            tv == entries_view(tree@),
            whole == snapshot_of(tv),
            whole == entries_view(r@) + snapshot_of(tv.skip(i as int)),
        decreases n - i,
    {
        let ghost rest = tv.skip(i as int);
        proof {
            assert(rest[0] == tv[i as int]);
            assert(tv[i as int] == tree@[i as int]@);
            assert(rest.skip(1) =~= tv.skip(i + 1));
        }
        let e = &tree[i];
        if entry_in_snapshot(e) {
            let c = clone_entry(e);
            r.push(c);
            proof {
                assert(snapshot_of(rest) == seq![tv[i as int]] + snapshot_of(tv.skip(i + 1)));
                assert(entries_view(r@) + snapshot_of(tv.skip(i + 1)) =~= whole);
            }
        } else {
            proof {
                assert(snapshot_of(rest) == snapshot_of(tv.skip(i + 1)));
            }
        }
        i += 1;
    }
    proof {
        assert(tv.skip(n as int).len() == 0);
        assert(entries_view(r@) + snapshot_of(tv.skip(n as int)) =~= entries_view(r@));
    }
    r
}

/// What a restore writes into a target tree: the target's entries outside
/// `options/` kept, then the snapshot's `options/` entries, byte for byte.
pub fn restore_plan(snapshot: &Vec<FileEntry>, target: &Vec<FileEntry>) -> (r: Vec<FileEntry>)
    ensures
        entries_view(r@) == restore_of(entries_view(snapshot@), entries_view(target@)),
{
    let ghost sv = entries_view(snapshot@);
    let ghost tv = entries_view(target@);
    let n = target.len();
    let mut r: Vec<FileEntry> = Vec::new();
    let mut i: usize = 0;
    proof {
        assert(tv.skip(0) =~= tv);
        assert(entries_view(r@) + non_options_entries(tv) =~= non_options_entries(tv));
    }
    while i < n
        invariant
            i <= n,
            n == target@.len(),
            tv == entries_view(target@),
            non_options_entries(tv) == entries_view(r@) + non_options_entries(tv.skip(i as int)),
        decreases n - i,
    {
        let ghost rest = tv.skip(i as int);
        proof {
            assert(rest[0] == tv[i as int]);
            assert(tv[i as int] == target@[i as int]@);
            assert(rest.skip(1) =~= tv.skip(i + 1));
        }
        let e = &target[i];
        if !entry_in_options(e) {
            let c = clone_entry(e);
            r.push(c);
            proof {
                assert(non_options_entries(rest) == seq![tv[i as int]] + non_options_entries(
                    tv.skip(i + 1),
                ));
                assert(entries_view(r@) + non_options_entries(tv.skip(i + 1))
                    =~= non_options_entries(tv));
            }
        } else {
            proof {
                assert(non_options_entries(rest) == non_options_entries(tv.skip(i + 1)));
            }
        }
        i += 1;
    }
    proof {
        assert(tv.skip(n as int).len() == 0);
        assert(entries_view(r@) + non_options_entries(tv.skip(n as int)) =~= entries_view(r@));
    }
    let ghost base = entries_view(r@);
    let ghost add = options_entries(sv);
    let m = snapshot.len();
    let mut j: usize = 0;
    let mut r2 = r;
    proof {
        assert(sv.skip(0) =~= sv);
        assert(entries_view(r2@) + add =~= base + add);
    }
    while j < m
        invariant
            j <= m,
            m == snapshot@.len(),
            sv == entries_view(snapshot@),
            base + add == entries_view(r2@) + options_entries(sv.skip(j as int)),
            add == options_entries(sv),
        decreases m - j,
    {
        let ghost rest = sv.skip(j as int);
        proof {
            assert(rest[0] == sv[j as int]);
            assert(sv[j as int] == snapshot@[j as int]@);
            assert(rest.skip(1) =~= sv.skip(j + 1));
        }
        let e = &snapshot[j];
        if entry_in_options(e) {
            let c = clone_entry(e);
            r2.push(c);
            proof {
                assert(options_entries(rest) == seq![sv[j as int]] + options_entries(
                    sv.skip(j + 1),
                ));
                assert(entries_view(r2@) + options_entries(sv.skip(j + 1)) =~= base + add);
            }
        } else {
            proof {
                assert(options_entries(rest) == options_entries(sv.skip(j + 1)));
            }
        }
        j += 1;
    }
    proof {
        assert(sv.skip(m as int).len() == 0);
        assert(entries_view(r2@) + options_entries(sv.skip(m as int)) =~= entries_view(r2@));
        assert(entries_view(r2@) =~= restore_of(sv, tv));
    }
    r2
}

/// The options entries of a snapshot are the source tree's own options
/// entries: taking the snapshot loses none of them and adds none.
proof fn lemma_options_of_snapshot(es: Seq<FileEntryView>)
    ensures
        options_entries(snapshot_of(es)) == options_entries(es),
    decreases es.len(),
{
    if es.len() > 0 {
        lemma_options_of_snapshot(es.skip(1));
        if in_snapshot(es[0]) {
            let inner = snapshot_of(es.skip(1));
            assert((seq![es[0]] + inner).skip(1) =~= inner);
        } else {
            assert(!in_options(es[0]));
        }
    }
}

/// Backup round trip: restoring the snapshot of a tree into an empty target
/// reproduces, byte for byte and in order, exactly the tree's entries under
/// the options directory.
pub proof fn lemma_backup_restore_round_trip(tree: Seq<FileEntryView>)
    ensures
        restore_of(snapshot_of(tree), Seq::empty()) == options_entries(tree),
{
    lemma_options_of_snapshot(tree);
    assert(non_options_entries(Seq::<FileEntryView>::empty()) =~= Seq::<FileEntryView>::empty());
    assert(Seq::<FileEntryView>::empty() + options_entries(tree) =~= options_entries(tree));
}

/// Order existing snapshots newest first: the result is a permutation of
/// the input whose creation times never increase.
pub fn sort_backups_newest_first(v: Vec<BackupInfo>) -> (r: Vec<BackupInfo>)
    ensures
        r@.len() == v@.len(),
        forall|i: int, j: int| 0 <= i <= j < r@.len() ==> r@[i].created >= r@[j].created,
        r@.to_multiset() == v@.to_multiset(),
{
    broadcast use vstd::multiset::group_multiset_axioms;
    broadcast use vstd::seq_lib::group_to_multiset_ensures;

    let mut src = v;
    let mut r: Vec<BackupInfo> = Vec::new();
    proof {
        assert(r@.to_multiset() =~= Multiset::<BackupInfo>::empty());
        assert(r@.to_multiset().add(src@.to_multiset()) =~= v@.to_multiset());
    }
    while src.len() > 0
        invariant
            r@.len() + src@.len() == v@.len(),
            r@.to_multiset().add(src@.to_multiset()) == v@.to_multiset(),
            forall|i: int, j: int| 0 <= i <= j < r@.len() ==> r@[i].created >= r@[j].created,
            forall|i: int, j: int|
                0 <= i < r@.len() && 0 <= j < src@.len() ==> r@[i].created >= src@[j].created,
        decreases src@.len(),
    {
        let n = src.len();
        let mut mx: usize = 0;
        let mut q: usize = 1;
        while q < n
            invariant
                n == src@.len(),
                1 <= q <= n,
                mx < q,
                forall|t: int| 0 <= t < q ==> src@[mx as int].created >= src@[t].created,
            decreases n - q,
        {
            if src[q].created > src[mx].created {
                mx = q;
            }
            q += 1;
        }
        let ghost src_old = src@;
        let ghost r_old = r@;
        let x = src.remove(mx);
        r.push(x);
        proof {
            src_old.to_multiset_ensures();
            r_old.to_multiset_ensures();
            assert(src@ == src_old.remove(mx as int));
            assert(src_old.remove(mx as int).to_multiset() =~= src_old.to_multiset().remove(
                src_old[mx as int],
            ));
            assert(r@ == r_old.push(x));
            assert(r_old.push(x).to_multiset() =~= r_old.to_multiset().insert(x));
            assert(src_old.contains(src_old[mx as int]));
            assert(src_old.to_multiset().count(x) > 0);
            assert(r@.to_multiset().add(src@.to_multiset()) =~= v@.to_multiset());
            assert forall|i: int, j: int|
                0 <= i < r@.len() && 0 <= j < src@.len() implies r@[i].created
                >= src@[j].created by {
                assert(src@[j] == if j < mx as int {
                    src_old[j]
                } else {
                    src_old[j + 1]
                });
                if i < r_old.len() {
                    assert(r@[i] == r_old[i]);
                } else {
                    assert(r@[i] == x);
                }
            }
        }
    }
    r
}

} // verus!
