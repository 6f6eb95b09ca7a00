//! Planning an install or update: the changes to the tree on disk, the
//! order in which chunks are written, and the memory budget.
use vstd::prelude::*;
use crate::delta::{chunk_entries, file_entries, find_by_name, lemma_lookup_found, lookup, unique_names};
use crate::error::InstallError;
use crate::manifest::{BuildManifestChunksRecord, BuildManifestRecord, ChangeTag, FileEntry};
use crate::MAX_CHUNK_SIZE;

verus! {

/// What to do to one path under the install root.
#[derive(Clone, Copy, Debug, PartialEq, Eq, Structural)]
pub enum FsActionKind {
    /// Delete the directory and all it holds, if it is there.
    RemoveDir,
    /// Delete the file, if it is there.
    RemoveFile,
    /// Create the directory, unless it is there.
    CreateDir,
    /// Create the file empty, truncating it if it is there.
    CreateFile,
}

/// One change to the tree on disk.
#[derive(Debug)]
pub struct FsAction {
    pub kind: FsActionKind,
    pub path: String,
}

impl View for FsAction {
    type V = (FsActionKind, Seq<char>);

    open spec fn view(&self) -> (FsActionKind, Seq<char>) {
        (self.kind, self.path@)
    }
}

/// The changes to the tree that one manifest row asks for.
pub open spec fn row_actions(e: FileEntry) -> Seq<(FsActionKind, Seq<char>)> {
    let removal = if e.tag == Some(ChangeTag::Modified) || e.tag == Some(ChangeTag::Removed) {
        seq![
            (if e.is_directory() {
                FsActionKind::RemoveDir
            } else {
                FsActionKind::RemoveFile
            }, e.file_name),
        ]
    } else {
        Seq::empty()
    };
    if e.tag == Some(ChangeTag::Removed) {
        removal
    } else if e.is_directory() {
        removal.push((FsActionKind::CreateDir, e.file_name))
    } else {
        removal.push((FsActionKind::CreateFile, e.file_name))
    }
}

/// The changes to the tree that a manifest asks for, row by row.
pub open spec fn tree_actions(fm: Seq<FileEntry>) -> Seq<(FsActionKind, Seq<char>)>
    decreases fm.len(),
{
    if fm.len() == 0 {
        Seq::empty()
    } else {
        tree_actions(fm.drop_last()) + row_actions(fm.last())
    }
}

/// Whether a row's file gets chunks written to it.
pub open spec fn is_fetched(e: FileEntry) -> bool {
    !e.is_directory() && !e.is_empty() && e.tag != Some(ChangeTag::Removed)
}

/// The rows whose files get chunks, in order.
pub open spec fn fetched_files(fm: Seq<FileEntry>) -> Seq<FileEntry>
    decreases fm.len(),
{
    if fm.len() == 0 {
        Seq::empty()
    } else if is_fetched(fm.last()) {
        fetched_files(fm.drop_last()).push(fm.last())
    } else {
        fetched_files(fm.drop_last())
    }
}

/// The bytes that the fetched files hold in all.
pub open spec fn total_size(fm: Seq<FileEntry>) -> nat
    decreases fm.len(),
{
    if fm.len() == 0 {
        0
    } else {
        total_size(fm.drop_last()) + if is_fetched(fm.last()) {
            fm.last().size_in_bytes as nat
        } else {
            0
        }
    }
}

/// The plan of the tree: what to do on disk, which files get chunks, and
/// how many bytes they hold in all.
pub struct TreePlan {
    pub actions: Vec<FsAction>,
    pub files: Vec<BuildManifestRecord>,
    pub total_bytes: u64,
}

/// What a sequence of actions holds.
pub open spec fn action_views(s: Seq<FsAction>) -> Seq<(FsActionKind, Seq<char>)> {
    s.map_values(|a: FsAction| a@)
}

/// Plans the tree for a (delta) file manifest: for each row, in order, the
/// removal of a Modified or Removed path, then, unless it is Removed, the
/// creation of its directory or of its file, empty; and the rows whose
/// files get chunks, with their total size.
pub fn plan_tree(manifest: &[BuildManifestRecord]) -> (r: TreePlan)
    requires
        total_size(file_entries(manifest@)) <= u64::MAX,
    ensures
        action_views(r.actions@) == tree_actions(file_entries(manifest@)),
        file_entries(r.files@) == fetched_files(file_entries(manifest@)),
        r.total_bytes == total_size(file_entries(manifest@)),
{
    let ghost fm = file_entries(manifest@);
    let mut actions: Vec<FsAction> = Vec::new();
    let mut files: Vec<BuildManifestRecord> = Vec::new();
    let mut total: u64 = 0;
    let mut i: usize = 0;
    while i < manifest.len()
        invariant
            fm == file_entries(manifest@),
            total_size(fm) <= u64::MAX,
            i <= manifest@.len(),
            action_views(actions@) == tree_actions(fm.subrange(0, i as int)),
            file_entries(files@) == fetched_files(fm.subrange(0, i as int)),
            total == total_size(fm.subrange(0, i as int)),
        decreases manifest@.len() - i,
    {
        let e = &manifest[i];
        let ghost p = fm.subrange(0, i + 1);
        let ghost before = actions@;
        proof {
            assert(p.drop_last() =~= fm.subrange(0, i as int));
            assert(p.last() == e@);
            lemma_total_size_prefix(fm, i + 1);
        }
        let modified = e.tag == Some(ChangeTag::Modified);
        let removed = e.tag == Some(ChangeTag::Removed);
        let is_dir = e.is_directory();
        if modified || removed {
            let kind = if is_dir {
                FsActionKind::RemoveDir
            } else {
                FsActionKind::RemoveFile
            };
            actions.push(FsAction { kind, path: e.file_name.clone() });
        }
        if !removed {
            let kind = if is_dir {
                FsActionKind::CreateDir
            } else {
                FsActionKind::CreateFile
            };
            actions.push(FsAction { kind, path: e.file_name.clone() });
            if !is_dir && !e.is_empty() {
                files.push(e.with_tag(e.tag));
                assert(e@.with_tag(e@.tag) == e@);
                total = total + e.size_in_bytes as u64;
            }
        }
        assert(action_views(actions@) =~= action_views(before) + row_actions(e@));
        assert(file_entries(files@) =~= fetched_files(p));
        i = i + 1;
    }
    assert(fm.subrange(0, fm.len() as int) =~= fm);
    TreePlan { actions, files, total_bytes: total }
}

/// The total size of a prefix is at most that of the whole.
proof fn lemma_total_size_prefix(fm: Seq<FileEntry>, k: int)
    requires
        0 <= k <= fm.len(),
    ensures
        total_size(fm.subrange(0, k)) <= total_size(fm),
    decreases fm.len() - k,
{
    if k < fm.len() {
        lemma_total_size_prefix(fm, k + 1);
        assert(fm.subrange(0, k + 1).drop_last() =~= fm.subrange(0, k));
    } else {
        assert(fm.subrange(0, k) =~= fm);
    }
}

/// Each row whose file gets chunks is a row of the manifest.
proof fn lemma_fetched_member(fm: Seq<FileEntry>, x: FileEntry)
    requires
        fetched_files(fm).contains(x),
    ensures
        exists|j: int| 0 <= j < fm.len() && #[trigger] fm[j] == x && is_fetched(x),
    decreases fm.len(),
{
    let t = fm.drop_last();
    let f = fetched_files(fm);
    let k = choose|k: int| 0 <= k < f.len() && f[k] == x;
    if is_fetched(fm.last()) && k == f.len() - 1 {
        assert(fm[fm.len() - 1] == x);
    } else {
        assert(fetched_files(t)[k] == x);
        lemma_fetched_member(t, x);
        let j = choose|j: int| 0 <= j < t.len() && #[trigger] t[j] == x && is_fetched(x);
        assert(fm[j] == x);
    }
}

/// The actions for a manifest include those of each of its rows.
proof fn lemma_tree_actions_member(fm: Seq<FileEntry>, i: int, a: (FsActionKind, Seq<char>))
    requires
        0 <= i < fm.len(),
        row_actions(fm[i]).contains(a),
    ensures
        tree_actions(fm).contains(a),
    decreases fm.len(),
{
    let t = fm.drop_last();
    let r = row_actions(fm.last());
    if i == fm.len() - 1 {
        let k = choose|k: int| 0 <= k < r.len() && r[k] == a;
        assert(tree_actions(fm)[tree_actions(t).len() + k] == a);
    } else {
        assert(t[i] == fm[i]);
        lemma_tree_actions_member(t, i, a);
        let k = choose|k: int| 0 <= k < tree_actions(t).len() && tree_actions(t)[k] == a;
        assert(tree_actions(fm)[k] == a);
    }
}

/// A file of no bytes is created empty and gets no chunks: in a manifest
/// with unique names, the plan of the tree creates it, and it is not among
/// the files that chunks may name.
pub proof fn lemma_empty_file_created_without_chunks(fm: Seq<FileEntry>, i: int)
    requires
        unique_names(fm),
        0 <= i < fm.len(),
        !fm[i].is_directory(),
        fm[i].is_empty(),
        fm[i].tag != Some(ChangeTag::Removed),
    ensures
        tree_actions(fm).contains((FsActionKind::CreateFile, fm[i].file_name)),
        lookup(fetched_files(fm), fm[i].file_name) is None,
{
    let r = row_actions(fm[i]);
    assert(r[r.len() - 1] == (FsActionKind::CreateFile, fm[i].file_name));
    lemma_tree_actions_member(fm, i, (FsActionKind::CreateFile, fm[i].file_name));
    let f = fetched_files(fm);
    lemma_lookup_found(f, fm[i].file_name);
    if lookup(f, fm[i].file_name) is Some {
        let e = lookup(f, fm[i].file_name)->0;
        let k = choose|k: int| 0 <= k < f.len() && #[trigger] f[k] == e && e.file_name == fm[i].file_name;
        assert(f.contains(e));
        lemma_fetched_member(fm, e);
        let j = choose|j: int| 0 <= j < fm.len() && #[trigger] fm[j] == e && is_fetched(e);
        assert(j == i);
    }
}

/// One step of the write plan: the chunk to append next, and whether it is
/// the last of its file.
#[derive(Debug)]
pub struct WriteStep {
    pub sha: String,
    pub id: u16,
    pub is_last: bool,
    pub file_path: String,
}

/// What a write step holds.
pub struct StepView {
    pub sha: Seq<char>,
    pub id: u16,
    pub is_last: bool,
    pub file_path: Seq<char>,
}

impl View for WriteStep {
    type V = StepView;

    open spec fn view(&self) -> StepView {
        StepView { sha: self.sha@, id: self.id, is_last: self.is_last, file_path: self.file_path@ }
    }
}

/// What a sequence of write steps holds.
pub open spec fn step_views(s: Seq<WriteStep>) -> Seq<StepView> {
    s.map_values(|w: WriteStep| w@)
}

/// Whether every chunk row names a file that gets chunks.
pub open spec fn all_chunks_known(files: Seq<FileEntry>, cm: Seq<crate::manifest::ChunkEntry>) -> bool {
    forall|i: int| 0 <= i < cm.len() ==> lookup(files, (#[trigger] cm[i]).file_path) is Some
}

/// The write plan of a chunk manifest: its rows in order, each flagged last
/// exactly when its id is one less than its file's chunk count.
pub open spec fn write_plan(files: Seq<FileEntry>, cm: Seq<crate::manifest::ChunkEntry>) -> Seq<StepView> {
    cm.map_values(
        |c: crate::manifest::ChunkEntry|
            StepView {
                sha: c.sha,
                id: c.id,
                is_last: lookup(files, c.file_path)->0.chunks == c.id + 1,
                file_path: c.file_path,
            },
    )
}

/// Builds the write plan of a chunk manifest against the files that get
/// chunks; fails with `ManifestDecode` exactly where a chunk row names no
/// such file.
pub fn build_write_plan(files: &[BuildManifestRecord], chunks: &[BuildManifestChunksRecord]) -> (r:
    Result<Vec<WriteStep>, InstallError>)
    ensures
        match r {
            Ok(plan) => all_chunks_known(file_entries(files@), chunk_entries(chunks@))
                && step_views(plan@) == write_plan(file_entries(files@), chunk_entries(chunks@)),
            Err(e) => e == InstallError::ManifestDecode && !all_chunks_known(
                file_entries(files@),
                chunk_entries(chunks@),
            ),
        },
{
    let ghost fs = file_entries(files@);
    let ghost cm = chunk_entries(chunks@);
    let mut plan: Vec<WriteStep> = Vec::new();
    let mut i: usize = 0;
    while i < chunks.len()
        invariant
            fs == file_entries(files@),
            cm == chunk_entries(chunks@),
            i <= chunks@.len(),
            plan@.len() == i,
            forall|j: int| 0 <= j < i ==> lookup(fs, (#[trigger] cm[j]).file_path) is Some,
            forall|j: int| 0 <= j < i ==> (#[trigger] plan@[j])@ == write_plan(fs, cm)[j],
        decreases chunks@.len() - i,
    {
        let c = &chunks[i];
        assert(cm[i as int] == c@);
        match find_by_name(files, &c.file_path) {
            None => {
                return Err(InstallError::ManifestDecode);
            },
            Some(k) => {
                let is_last = files[k].chunks == (c.id as usize) + 1;
                plan.push(
                    WriteStep {
                        sha: c.sha.clone(),
                        id: c.id,
                        is_last,
                        file_path: c.file_path.clone(),
                    },
                );
            },
        }
        i = i + 1;
    }
    assert(step_views(plan@) =~= write_plan(fs, cm));
    Ok(plan)
}

/// The bytes of the rows that an operation downloads: every row not
/// tagged Removed.
pub open spec fn download_size_of(fm: Seq<FileEntry>) -> nat
    decreases fm.len(),
{
    if fm.len() == 0 {
        0
    } else {
        download_size_of(fm.drop_last()) + if fm.last().tag == Some(ChangeTag::Removed) {
            0
        } else {
            fm.last().size_in_bytes as nat
        }
    }
}

/// The bytes of all rows.
pub open spec fn disk_size_of(fm: Seq<FileEntry>) -> nat
    decreases fm.len(),
{
    if fm.len() == 0 {
        0
    } else {
        disk_size_of(fm.drop_last()) + fm.last().size_in_bytes as nat
    }
}

/// A sum of at most `n` row sizes stays below `n` times the largest size.
proof fn lemma_sizes_bounded(fm: Seq<FileEntry>)
    ensures
        download_size_of(fm) <= disk_size_of(fm),
        disk_size_of(fm) <= fm.len() * (usize::MAX as nat),
    decreases fm.len(),
{
    if fm.len() > 0 {
        lemma_sizes_bounded(fm.drop_last());
        assert((fm.len() - 1) * (usize::MAX as nat) + usize::MAX as nat == fm.len() * (usize::MAX as nat))
            by (nonlinear_arith)
            requires
                fm.len() >= 1,
        ;
    }
}

/// The download size and the disk size of a (delta) file manifest: the
/// bytes of its rows not tagged Removed, and of all its rows.
pub fn manifest_sizes(manifest: &[BuildManifestRecord]) -> (r: (u128, u128))
    ensures
        r.0 == download_size_of(file_entries(manifest@)),
        r.1 == disk_size_of(file_entries(manifest@)),
{
    let ghost fm = file_entries(manifest@);
    let mut download: u128 = 0;
    let mut disk: u128 = 0;
    let mut i: usize = 0;
    while i < manifest.len()
        invariant
            fm == file_entries(manifest@),
            i <= manifest@.len(),
            download == download_size_of(fm.subrange(0, i as int)),
            disk == disk_size_of(fm.subrange(0, i as int)),
        decreases manifest@.len() - i,
    {
        let ghost p = fm.subrange(0, i + 1);
        proof {
            assert(p.drop_last() =~= fm.subrange(0, i as int));
            lemma_sizes_bounded(p);
            assert((i + 1) * (usize::MAX as nat) <= u128::MAX) by (nonlinear_arith)
                requires
                    i < usize::MAX,
            ;
        }
        let e = &manifest[i];
        assert(p.last() == e@);
        if e.tag != Some(ChangeTag::Removed) {
            download = download + e.size_in_bytes as u128;
        }
        disk = disk + e.size_in_bytes as u128;
        i = i + 1;
    }
    assert(fm.subrange(0, fm.len() as int) =~= fm);
    (download, disk)
}

/// A chunk that is the only one of its file is its file's last, whatever
/// its size.
pub proof fn lemma_single_chunk_is_last(files: Seq<FileEntry>, cm: Seq<crate::manifest::ChunkEntry>, i: int)
    requires
        0 <= i < cm.len(),
        cm[i].id == 0,
        lookup(files, cm[i].file_path) matches Some(e) && e.chunks == 1,
    ensures
        write_plan(files, cm)[i].is_last,
{
}

/// The positions of the rows whose files a verification hashes: every row
/// but the directories, in order.
pub open spec fn verify_targets(fm: Seq<FileEntry>) -> Seq<int>
    decreases fm.len(),
{
    if fm.len() == 0 {
        Seq::empty()
    } else if fm.last().is_directory() {
        verify_targets(fm.drop_last())
    } else {
        verify_targets(fm.drop_last()).push(fm.len() - 1)
    }
}

/// Lists the rows whose files a verification hashes.
pub fn files_to_verify(manifest: &[BuildManifestRecord]) -> (r: Vec<usize>)
    ensures
        r@.map_values(|i: usize| i as int) == verify_targets(file_entries(manifest@)),
{
    let ghost fm = file_entries(manifest@);
    let mut r: Vec<usize> = Vec::new();
    let mut i: usize = 0;
    while i < manifest.len()
        invariant
            fm == file_entries(manifest@),
            i <= manifest@.len(),
            r@.map_values(|i: usize| i as int) == verify_targets(fm.subrange(0, i as int)),
        decreases manifest@.len() - i,
    {
        let ghost p = fm.subrange(0, i + 1);
        assert(p.drop_last() =~= fm.subrange(0, i as int));
        assert(p.last() == manifest@[i as int]@);
        if !manifest[i].is_directory() {
            r.push(i);
        }
        assert(r@.map_values(|i: usize| i as int) =~= verify_targets(p));
        i = i + 1;
    }
    assert(fm.subrange(0, fm.len() as int) =~= fm);
    r
}

/// How many chunk buffers may be held in memory at once.
pub open spec fn permits_for(max_memory_usage: nat) -> nat {
    max_memory_usage / MAX_CHUNK_SIZE as nat
}

/// The number of memory permits for a memory budget in bytes: one per whole
/// chunk that the budget holds.
pub fn memory_permits(max_memory_usage: usize) -> (r: usize)
    ensures
        r == permits_for(max_memory_usage as nat),
        r * MAX_CHUNK_SIZE <= max_memory_usage,
{
    let r = max_memory_usage / MAX_CHUNK_SIZE;
    assert(r * MAX_CHUNK_SIZE <= max_memory_usage) by (nonlinear_arith)
        requires
            r == max_memory_usage / MAX_CHUNK_SIZE,
    ;
    r
}

/// The sum of a sequence of sizes.
pub open spec fn sum_sizes(s: Seq<nat>) -> nat
    decreases s.len(),
{
    if s.len() == 0 {
        0
    } else {
        sum_sizes(s.drop_last()) + s.last()
    }
}

/// Chunks held under memory permits never take more than the budget: as
/// many buffers as there are permits, each of at most one chunk's size, hold
/// at most `max_memory_usage` bytes.
pub proof fn lemma_buffered_bytes_bounded(sizes: Seq<nat>, max_memory_usage: nat)
    requires
        sizes.len() <= permits_for(max_memory_usage),
        forall|i: int| 0 <= i < sizes.len() ==> #[trigger] sizes[i] <= MAX_CHUNK_SIZE,
    ensures
        sum_sizes(sizes) <= max_memory_usage,
{
    lemma_sum_bounded(sizes);
    let n = sizes.len();
    let m = MAX_CHUNK_SIZE as nat;
    assert(n * m <= max_memory_usage) by (nonlinear_arith)
        requires
            n <= max_memory_usage / m,
            m > 0,
    ;
}

/// A sum of sizes of at most one chunk each is at most that many chunks.
proof fn lemma_sum_bounded(sizes: Seq<nat>)
    requires
        forall|i: int| 0 <= i < sizes.len() ==> #[trigger] sizes[i] <= MAX_CHUNK_SIZE,
    ensures
        sum_sizes(sizes) <= sizes.len() * MAX_CHUNK_SIZE,
    decreases sizes.len(),
{
    if sizes.len() > 0 {
        let t = sizes.drop_last();
        assert forall|i: int| 0 <= i < t.len() implies #[trigger] t[i] <= MAX_CHUNK_SIZE by {
            assert(t[i] == sizes[i]);
        }
        lemma_sum_bounded(t);
        assert(sizes.last() <= MAX_CHUNK_SIZE);
        assert((t.len() + 1) * MAX_CHUNK_SIZE == t.len() * MAX_CHUNK_SIZE + MAX_CHUNK_SIZE)
            by (nonlinear_arith);
    }
}

/// The default number of download workers on a machine with `cpus` CPUs:
/// twice as many, but at most sixteen.
pub fn default_max_download_workers(cpus: usize) -> (r: usize)
    ensures
        r == if 2 * cpus <= 16 {
            2 * cpus
        } else {
            16
        },
{
    if cpus <= 8 {
        2 * cpus
    } else {
        16
    }
}

} // verus!
