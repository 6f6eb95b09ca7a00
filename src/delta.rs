//! Deltas between two builds: which files changed, and which chunks an
//! update has to fetch.
use vstd::prelude::*;
use crate::manifest::{
    BuildManifestChunksRecord, BuildManifestRecord, ChangeTag, ChunkEntry, FileEntry,
};

verus! {

/// What a sequence of file manifest rows holds.
pub open spec fn file_entries(s: Seq<BuildManifestRecord>) -> Seq<FileEntry> {
    s.map_values(|r: BuildManifestRecord| r@)
}

/// What a sequence of chunk manifest rows holds.
pub open spec fn chunk_entries(s: Seq<BuildManifestChunksRecord>) -> Seq<ChunkEntry> {
    s.map_values(|r: BuildManifestChunksRecord| r@)
}

/// The first row of a manifest with the given name.
pub open spec fn lookup(fm: Seq<FileEntry>, name: Seq<char>) -> Option<FileEntry>
    decreases fm.len(),
{
    if fm.len() == 0 {
        None
    } else if fm[0].file_name == name {
        Some(fm[0])
    } else {
        lookup(fm.drop_first(), name)
    }
}

/// The delta row, if any, of one row of the new manifest.
pub open spec fn change_of(old: Seq<FileEntry>, e: FileEntry) -> Seq<FileEntry> {
    match lookup(old, e.file_name) {
        None => seq![e.with_tag(Some(ChangeTag::Added))],
        Some(o) => if o.sha != e.sha {
            seq![e.with_tag(Some(ChangeTag::Modified))]
        } else {
            Seq::empty()
        },
    }
}

/// The rows of the new manifest that are new or differ, tagged Added or
/// Modified, in the new manifest's order.
pub open spec fn changed_rows(old: Seq<FileEntry>, new: Seq<FileEntry>) -> Seq<FileEntry>
    decreases new.len(),
{
    if new.len() == 0 {
        Seq::empty()
    } else {
        changed_rows(old, new.drop_last()) + change_of(old, new.last())
    }
}

/// The rows of the old manifest whose name the new one lacks, tagged
/// Removed, in the old manifest's order.
pub open spec fn removed_rows(old: Seq<FileEntry>, new: Seq<FileEntry>) -> Seq<FileEntry>
    decreases old.len(),
{
    if old.len() == 0 {
        Seq::empty()
    } else {
        removed_rows(old.drop_last(), new) + if lookup(new, old.last().file_name) is None {
            seq![old.last().with_tag(Some(ChangeTag::Removed))]
        } else {
            Seq::empty()
        }
    }
}

/// The delta from one file manifest to another: Added and Modified rows
/// first, then Removed rows.
pub open spec fn file_delta(old: Seq<FileEntry>, new: Seq<FileEntry>) -> Seq<FileEntry> {
    changed_rows(old, new) + removed_rows(old, new)
}

/// Past rows that do not carry the name, the first match is unchanged.
proof fn lemma_lookup_skip(fm: Seq<FileEntry>, name: Seq<char>, k: int)
    requires
        0 <= k <= fm.len(),
        forall|j: int| 0 <= j < k ==> (#[trigger] fm[j]).file_name != name,
    ensures
        lookup(fm, name) == lookup(fm.subrange(k, fm.len() as int), name),
    decreases k,
{
    if k > 0 {
        let t = fm.drop_first();
        assert forall|j: int| 0 <= j < k - 1 implies (#[trigger] t[j]).file_name != name by {
            assert(t[j] == fm[j + 1]);
        }
        lemma_lookup_skip(t, name, k - 1);
        assert(t.subrange(k - 1, t.len() as int) =~= fm.subrange(k, fm.len() as int));
    } else {
        assert(fm.subrange(0, fm.len() as int) =~= fm);
    }
}

/// The position of the first row with the given name.
pub fn find_by_name(fm: &[BuildManifestRecord], name: &String) -> (r: Option<usize>)
    ensures
        r is None ==> lookup(file_entries(fm@), name@) is None,
        r matches Some(i) ==> i < fm@.len() && lookup(file_entries(fm@), name@) == Some(
            fm@[i as int]@,
        ),
{
    let ghost es = file_entries(fm@);
    let mut i: usize = 0;
    while i < fm.len()
        invariant
            es == file_entries(fm@),
            i <= fm@.len(),
            forall|j: int| 0 <= j < i ==> (#[trigger] es[j]).file_name != name@,
        decreases fm@.len() - i,
    {
        if fm[i].file_name == *name {
            proof {
                lemma_lookup_skip(es, name@, i as int);
                let t = es.subrange(i as int, es.len() as int);
                assert(t[0] == es[i as int]);
            }
            return Some(i);
        }
        i = i + 1;
    }
    proof {
        lemma_lookup_skip(es, name@, i as int);
        assert(es.subrange(i as int, es.len() as int) =~= Seq::<FileEntry>::empty());
    }
    None
}

/// The delta from `old` to `new`: each row of `new` whose name `old` lacks,
/// tagged Added, or whose hash differs from that of `old`'s first row of the
/// name, tagged Modified, in `new`'s order; then each row of `old` whose name
/// `new` lacks, tagged Removed, in `old`'s order.
pub fn compute_file_delta(old: &[BuildManifestRecord], new: &[BuildManifestRecord]) -> (r: Vec<
    BuildManifestRecord,
>)
    ensures
        file_entries(r@) == file_delta(file_entries(old@), file_entries(new@)),
{
    let ghost olds = file_entries(old@);
    let ghost news = file_entries(new@);
    let mut r: Vec<BuildManifestRecord> = Vec::new();
    let mut i: usize = 0;
    while i < new.len()
        invariant
            olds == file_entries(old@),
            news == file_entries(new@),
            i <= new@.len(),
            file_entries(r@) == changed_rows(olds, news.subrange(0, i as int)),
        decreases new@.len() - i,
    {
        let ghost before = r@;
        let e = &new[i];
        match find_by_name(old, &e.file_name) {
            None => {
                r.push(e.with_tag(Some(ChangeTag::Added)));
            },
            Some(j) => {
                if old[j].sha != e.sha {
                    r.push(e.with_tag(Some(ChangeTag::Modified)));
                }
            },
        }
        proof {
            let p = news.subrange(0, i + 1);
            assert(p.drop_last() =~= news.subrange(0, i as int));
            assert(p.last() == e@);
            assert(file_entries(r@) =~= file_entries(before) + change_of(olds, e@));
        }
        i = i + 1;
    }
    assert(news.subrange(0, news.len() as int) =~= news);
    let ghost changed = r@;
    let mut k: usize = 0;
    while k < old.len()
        invariant
            olds == file_entries(old@),
            news == file_entries(new@),
            k <= old@.len(),
            file_entries(r@) == changed_rows(olds, news) + removed_rows(
                olds.subrange(0, k as int),
                news,
            ),
        decreases old@.len() - k,
    {
        let ghost before = r@;
        let e = &old[k];
        if find_by_name(new, &e.file_name).is_none() {
            r.push(e.with_tag(Some(ChangeTag::Removed)));
        }
        proof {
            let p = olds.subrange(0, k + 1);
            assert(p.drop_last() =~= olds.subrange(0, k as int));
            assert(p.last() == e@);
            assert(file_entries(r@) =~= file_entries(before) + (if lookup(news, e@.file_name) is None {
                seq![e@.with_tag(Some(ChangeTag::Removed))]
            } else {
                Seq::empty()
            }));
        }
        k = k + 1;
    }
    assert(olds.subrange(0, olds.len() as int) =~= olds);
    r
}

/// Whether no two rows of a manifest share a name.
pub open spec fn unique_names(fm: Seq<FileEntry>) -> bool {
    forall|i: int, j: int|
        0 <= i < fm.len() && 0 <= j < fm.len() && i != j ==> (#[trigger] fm[i]).file_name
            != (#[trigger] fm[j]).file_name
}

/// In a manifest with unique names, a row is what its own name looks up.
proof fn lemma_lookup_unique(fm: Seq<FileEntry>, i: int)
    requires
        unique_names(fm),
        0 <= i < fm.len(),
    ensures
        lookup(fm, fm[i].file_name) == Some(fm[i]),
{
    assert forall|j: int| 0 <= j < i implies (#[trigger] fm[j]).file_name != fm[i].file_name by {}
    lemma_lookup_skip(fm, fm[i].file_name, i);
    let t = fm.subrange(i, fm.len() as int);
    assert(t[0] == fm[i]);
}

/// A row of `old` whose name no row of `new` is short of produces no change
/// row while `new` is a prefix of `old`.
proof fn lemma_changed_rows_self(fm: Seq<FileEntry>, k: int)
    requires
        unique_names(fm),
        0 <= k <= fm.len(),
    ensures
        changed_rows(fm, fm.subrange(0, k)) == Seq::<FileEntry>::empty(),
    decreases k,
{
    if k > 0 {
        let p = fm.subrange(0, k);
        assert(p.drop_last() =~= fm.subrange(0, k - 1));
        lemma_changed_rows_self(fm, k - 1);
        lemma_lookup_unique(fm, k - 1);
        assert(change_of(fm, p.last()) =~= Seq::<FileEntry>::empty());
        assert(changed_rows(fm, p) =~= Seq::<FileEntry>::empty());
    }
}

/// Every row of a prefix of `new` whose name `new` holds is not removed.
proof fn lemma_removed_rows_self(fm: Seq<FileEntry>, k: int)
    requires
        unique_names(fm),
        0 <= k <= fm.len(),
    ensures
        removed_rows(fm.subrange(0, k), fm) == Seq::<FileEntry>::empty(),
    decreases k,
{
    if k > 0 {
        let p = fm.subrange(0, k);
        assert(p.drop_last() =~= fm.subrange(0, k - 1));
        lemma_removed_rows_self(fm, k - 1);
        lemma_lookup_unique(fm, k - 1);
        assert(removed_rows(p, fm) =~= Seq::<FileEntry>::empty());
    }
}

/// The delta from a manifest whose names are unique to itself is empty.
pub proof fn lemma_delta_with_itself_is_empty(fm: Seq<FileEntry>)
    requires
        unique_names(fm),
    ensures
        file_delta(fm, fm) == Seq::<FileEntry>::empty(),
{
    lemma_changed_rows_self(fm, fm.len() as int);
    lemma_removed_rows_self(fm, fm.len() as int);
    assert(fm.subrange(0, fm.len() as int) =~= fm);
    assert(file_delta(fm, fm) =~= Seq::<FileEntry>::empty());
}

/// Whether a delta holds a row of the given name, tag and hash.
pub open spec fn has_row(d: Seq<FileEntry>, name: Seq<char>, tag: ChangeTag, sha: Seq<char>) -> bool {
    exists|k: int|
        0 <= k < d.len() && (#[trigger] d[k]).file_name == name && d[k].tag == Some(tag) && d[k].sha
            == sha
}

/// Whether a manifest holds a row of the given name and hash.
pub open spec fn has_file(fm: Seq<FileEntry>, name: Seq<char>, sha: Seq<char>) -> bool {
    exists|k: int| 0 <= k < fm.len() && (#[trigger] fm[k]).file_name == name && fm[k].sha == sha
}

/// Whether a manifest holds a row of the given name.
pub open spec fn has_name(fm: Seq<FileEntry>, name: Seq<char>) -> bool {
    exists|k: int| 0 <= k < fm.len() && (#[trigger] fm[k]).file_name == name
}

/// Looking a name up finds nothing exactly when no row carries it, and
/// else a row that carries it.
pub proof fn lemma_lookup_found(fm: Seq<FileEntry>, name: Seq<char>)
    ensures
        lookup(fm, name) is None <==> !has_name(fm, name),
        lookup(fm, name) matches Some(e) ==> exists|k: int|
            0 <= k < fm.len() && #[trigger] fm[k] == e && e.file_name == name,
    decreases fm.len(),
{
    if fm.len() > 0 {
        let t = fm.drop_first();
        lemma_lookup_found(t, name);
        if has_name(fm, name) && fm[0].file_name != name {
            let k = choose|k: int| 0 <= k < fm.len() && (#[trigger] fm[k]).file_name == name;
            assert(t[k - 1] == fm[k]);
        }
        if has_name(t, name) {
            let k = choose|k: int| 0 <= k < t.len() && (#[trigger] t[k]).file_name == name;
            assert(fm[k + 1] == t[k]);
        }
        if lookup(t, name) is Some && fm[0].file_name != name {
            let k = choose|k: int| 0 <= k < t.len() && #[trigger] t[k] == lookup(t, name)->0 && t[k].file_name == name;
            assert(fm[k + 1] == t[k]);
        }
    }
}

/// What the changed rows of a delta hold: one row per row of the new
/// manifest that the old one lacks or holds with another hash.
proof fn lemma_changed_rows_member(old: Seq<FileEntry>, new: Seq<FileEntry>, x: FileEntry)
    ensures
        changed_rows(old, new).contains(x) <==> exists|i: int|
            0 <= i < new.len() && (#[trigger] change_of(old, new[i])).contains(x),
    decreases new.len(),
{
    if new.len() > 0 {
        let t = new.drop_last();
        lemma_changed_rows_member(old, t, x);
        let c = change_of(old, new.last());
        assert(changed_rows(old, new) == changed_rows(old, t) + c);
        if changed_rows(old, new).contains(x) {
            let j = choose|j: int| 0 <= j < changed_rows(old, new).len() && changed_rows(old, new)[j] == x;
            if j < changed_rows(old, t).len() {
                assert(changed_rows(old, t)[j] == x);
                let i = choose|i: int| 0 <= i < t.len() && (#[trigger] change_of(old, t[i])).contains(x);
                assert(new[i] == t[i]);
            } else {
                assert(c[j - changed_rows(old, t).len()] == x);
                assert(change_of(old, new[new.len() - 1]).contains(x));
            }
        }
        if exists|i: int| 0 <= i < new.len() && (#[trigger] change_of(old, new[i])).contains(x) {
            let i = choose|i: int| 0 <= i < new.len() && (#[trigger] change_of(old, new[i])).contains(x);
            if i < t.len() {
                assert(t[i] == new[i]);
                assert(changed_rows(old, t).contains(x));
                let j = choose|j: int| 0 <= j < changed_rows(old, t).len() && changed_rows(old, t)[j] == x;
                assert(changed_rows(old, new)[j] == x);
            } else {
                let j = choose|j: int| 0 <= j < c.len() && c[j] == x;
                assert(changed_rows(old, new)[changed_rows(old, t).len() + j] == x);
            }
        }
    }
}

/// What the removed rows of a delta hold: the rows of the old manifest whose
/// name the new one lacks, tagged Removed.
proof fn lemma_removed_rows_member(old: Seq<FileEntry>, new: Seq<FileEntry>, x: FileEntry)
    ensures
        removed_rows(old, new).contains(x) <==> exists|i: int|
            0 <= i < old.len() && lookup(new, (#[trigger] old[i]).file_name) is None && x == old[i].with_tag(
                Some(ChangeTag::Removed),
            ),
    decreases old.len(),
{
    if old.len() > 0 {
        let t = old.drop_last();
        lemma_removed_rows_member(t, new, x);
        let c = if lookup(new, old.last().file_name) is None {
            seq![old.last().with_tag(Some(ChangeTag::Removed))]
        } else {
            Seq::<FileEntry>::empty()
        };
        assert(removed_rows(old, new) == removed_rows(t, new) + c);
        let r = removed_rows(old, new);
        let rt = removed_rows(t, new);
        if r.contains(x) {
            let j = choose|j: int| 0 <= j < r.len() && r[j] == x;
            if j < rt.len() {
                assert(rt[j] == x);
                let i = choose|i: int|
                    0 <= i < t.len() && lookup(new, (#[trigger] t[i]).file_name) is None && x == t[i].with_tag(
                        Some(ChangeTag::Removed),
                    );
                assert(old[i] == t[i]);
            } else {
                assert(c[j - rt.len()] == x);
                assert(old[old.len() - 1] == old.last());
            }
        }
        if exists|i: int|
            0 <= i < old.len() && lookup(new, (#[trigger] old[i]).file_name) is None && x == old[i].with_tag(
                Some(ChangeTag::Removed),
            ) {
            let i = choose|i: int|
                0 <= i < old.len() && lookup(new, (#[trigger] old[i]).file_name) is None && x == old[i].with_tag(
                    Some(ChangeTag::Removed),
                );
            if i < t.len() {
                assert(t[i] == old[i]);
                assert(rt.contains(x));
                let j = choose|j: int| 0 <= j < rt.len() && rt[j] == x;
                assert(r[j] == x);
            } else {
                assert(r[rt.len() as int] == x);
            }
        }
    }
}

/// Which rows a delta holds, by tag: Added rows are the new manifest's rows
/// whose name the old one lacks; Modified rows are the new manifest's rows
/// whose name the old one holds with another hash; Removed rows are the old
/// manifest's rows whose name the new one lacks.
pub proof fn lemma_delta_rows(old: Seq<FileEntry>, new: Seq<FileEntry>, name: Seq<char>, sha: Seq<char>)
    requires
        unique_names(old),
        unique_names(new),
    ensures
        has_row(file_delta(old, new), name, ChangeTag::Added, sha) <==> (has_file(new, name, sha)
            && !has_name(old, name)),
        has_row(file_delta(old, new), name, ChangeTag::Removed, sha) <==> (has_file(old, name, sha)
            && !has_name(new, name)),
        has_row(file_delta(old, new), name, ChangeTag::Modified, sha) <==> (has_file(new, name, sha)
            && has_name(old, name) && !has_file(old, name, sha)),
{
    let d = file_delta(old, new);
    let cr = changed_rows(old, new);
    let rr = removed_rows(old, new);
    lemma_lookup_found(old, name);
    lemma_lookup_found(new, name);
    assert forall|tag: ChangeTag| #[trigger] has_row(d, name, tag, sha) <==> (exists|x: FileEntry|
        (cr.contains(x) || rr.contains(x)) && x.file_name == name && x.tag == Some(tag) && x.sha == sha) by {
        if has_row(d, name, tag, sha) {
            let k = choose|k: int| 0 <= k < d.len() && (#[trigger] d[k]).file_name == name && d[k].tag == Some(tag) && d[k].sha == sha;
            let x = d[k];
            if k < cr.len() {
                assert(cr[k] == x);
                assert(cr.contains(x));
            } else {
                assert(rr[k - cr.len()] == x);
                assert(rr.contains(x));
            }
            assert((cr.contains(x) || rr.contains(x)) && x.file_name == name && x.tag == Some(tag) && x.sha == sha);
        }
        if exists|x: FileEntry| (cr.contains(x) || rr.contains(x)) && x.file_name == name && x.tag == Some(tag) && x.sha == sha {
            let x = choose|x: FileEntry| (cr.contains(x) || rr.contains(x)) && x.file_name == name && x.tag == Some(tag) && x.sha == sha;
            if cr.contains(x) {
                let j = choose|j: int| 0 <= j < cr.len() && cr[j] == x;
                assert(d[j] == x);
            } else {
                let j = choose|j: int| 0 <= j < rr.len() && rr[j] == x;
                assert(d[cr.len() + j] == x);
            }
            assert(has_row(d, name, tag, sha));
        }
    }
    // Added.
    if has_file(new, name, sha) && !has_name(old, name) {
        let i = choose|i: int| 0 <= i < new.len() && (#[trigger] new[i]).file_name == name && new[i].sha == sha;
        let x = new[i].with_tag(Some(ChangeTag::Added));
        assert(change_of(old, new[i]).contains(x)) by {
            assert(change_of(old, new[i])[0] == x);
        }
        lemma_changed_rows_member(old, new, x);
    }
    if has_row(d, name, ChangeTag::Added, sha) {
        let x = choose|x: FileEntry| (cr.contains(x) || rr.contains(x)) && x.file_name == name && x.tag == Some(ChangeTag::Added) && x.sha == sha;
        lemma_changed_rows_member(old, new, x);
        lemma_removed_rows_member(old, new, x);
        if cr.contains(x) {
            let i = choose|i: int| 0 <= i < new.len() && (#[trigger] change_of(old, new[i])).contains(x);
            lemma_lookup_found(old, new[i].file_name);
            if lookup(old, new[i].file_name) is Some {
                let o = lookup(old, new[i].file_name)->0;
                if o.sha != new[i].sha {
                    assert(change_of(old, new[i])[0].tag == Some(ChangeTag::Modified));
                }
            }
            assert(x == new[i].with_tag(Some(ChangeTag::Added)));
            assert(has_file(new, name, sha));
        }
    }
    // Removed.
    if has_file(old, name, sha) && !has_name(new, name) {
        let i = choose|i: int| 0 <= i < old.len() && (#[trigger] old[i]).file_name == name && old[i].sha == sha;
        let x = old[i].with_tag(Some(ChangeTag::Removed));
        lemma_removed_rows_member(old, new, x);
    }
    if has_row(d, name, ChangeTag::Removed, sha) {
        let x = choose|x: FileEntry| (cr.contains(x) || rr.contains(x)) && x.file_name == name && x.tag == Some(ChangeTag::Removed) && x.sha == sha;
        lemma_changed_rows_member(old, new, x);
        lemma_removed_rows_member(old, new, x);
        if cr.contains(x) {
            let i = choose|i: int| 0 <= i < new.len() && (#[trigger] change_of(old, new[i])).contains(x);
            if lookup(old, new[i].file_name) is Some {
                if lookup(old, new[i].file_name)->0.sha != new[i].sha {
                    assert(change_of(old, new[i])[0].tag == Some(ChangeTag::Modified));
                }
            }
        } else {
            let i = choose|i: int| 0 <= i < old.len() && lookup(new, (#[trigger] old[i]).file_name) is None && x == old[i].with_tag(Some(ChangeTag::Removed));
            lemma_lookup_found(new, old[i].file_name);
            assert(has_file(old, name, sha));
        }
    }
    // Modified.
    if has_file(new, name, sha) && has_name(old, name) && !has_file(old, name, sha) {
        let i = choose|i: int| 0 <= i < new.len() && (#[trigger] new[i]).file_name == name && new[i].sha == sha;
        let o = lookup(old, name)->0;
        let k = choose|k: int| 0 <= k < old.len() && #[trigger] old[k] == o && o.file_name == name;
        assert(o.sha != sha);
        let x = new[i].with_tag(Some(ChangeTag::Modified));
        assert(change_of(old, new[i])[0] == x);
        lemma_changed_rows_member(old, new, x);
    }
    if has_row(d, name, ChangeTag::Modified, sha) {
        let x = choose|x: FileEntry| (cr.contains(x) || rr.contains(x)) && x.file_name == name && x.tag == Some(ChangeTag::Modified) && x.sha == sha;
        lemma_changed_rows_member(old, new, x);
        lemma_removed_rows_member(old, new, x);
        if cr.contains(x) {
            let i = choose|i: int| 0 <= i < new.len() && (#[trigger] change_of(old, new[i])).contains(x);
            lemma_lookup_found(old, new[i].file_name);
            assert(lookup(old, new[i].file_name) is Some);
            let o = lookup(old, new[i].file_name)->0;
            assert(o.sha != new[i].sha);
            assert(x == new[i].with_tag(Some(ChangeTag::Modified)));
            assert(has_file(new, name, sha));
            let k = choose|k: int| 0 <= k < old.len() && #[trigger] old[k] == o && o.file_name == name;
            assert(has_name(old, name));
            if has_file(old, name, sha) {
                let m = choose|m: int| 0 <= m < old.len() && (#[trigger] old[m]).file_name == name && old[m].sha == sha;
                assert(m == k);
            }
        } else {
            let i = choose|i: int| 0 <= i < old.len() && lookup(new, (#[trigger] old[i]).file_name) is None && x == old[i].with_tag(Some(ChangeTag::Removed));
        }
    }
}

/// Reversing a delta swaps its tags: where the names of both manifests are
/// unique, a row Added from `a` to `b` is a row Removed from `b` to `a` with
/// the same hash, and a name Modified from `a` to `b` with `b`'s hash is
/// Modified from `b` to `a` with `a`'s hash.
pub proof fn lemma_reversed_delta(a: Seq<FileEntry>, b: Seq<FileEntry>, name: Seq<char>, sha: Seq<char>, other: Seq<char>)
    requires
        unique_names(a),
        unique_names(b),
    ensures
        has_row(file_delta(a, b), name, ChangeTag::Added, sha) <==> has_row(
            file_delta(b, a),
            name,
            ChangeTag::Removed,
            sha,
        ),
        has_row(file_delta(a, b), name, ChangeTag::Removed, sha) <==> has_row(
            file_delta(b, a),
            name,
            ChangeTag::Added,
            sha,
        ),
        (has_row(file_delta(a, b), name, ChangeTag::Modified, sha) && has_file(a, name, other))
            <==> (has_row(file_delta(b, a), name, ChangeTag::Modified, other) && has_file(b, name, sha)),
        has_row(file_delta(a, b), name, ChangeTag::Modified, sha) ==> !has_file(a, name, sha),
{
    lemma_delta_rows(a, b, name, sha);
    lemma_delta_rows(b, a, name, sha);
    lemma_delta_rows(b, a, name, other);
    lemma_delta_rows(a, b, name, other);
    if has_file(a, name, other) {
        assert(has_name(a, name));
    }
    if has_file(b, name, sha) {
        assert(has_name(b, name));
    }
    if has_file(a, name, sha) && has_file(a, name, other) {
        let i = choose|i: int| 0 <= i < a.len() && (#[trigger] a[i]).file_name == name && a[i].sha == sha;
        let j = choose|j: int| 0 <= j < a.len() && (#[trigger] a[j]).file_name == name && a[j].sha == other;
        assert(i == j);
    }
    if has_file(b, name, sha) && has_file(b, name, other) {
        let i = choose|i: int| 0 <= i < b.len() && (#[trigger] b[i]).file_name == name && b[i].sha == sha;
        let j = choose|j: int| 0 <= j < b.len() && (#[trigger] b[j]).file_name == name && b[j].sha == other;
        assert(i == j);
    }
}

/// Every changed row is tagged Added or Modified, and every removed row is
/// tagged Removed.
proof fn lemma_row_tags(old: Seq<FileEntry>, new: Seq<FileEntry>)
    ensures
        forall|i: int| 0 <= i < changed_rows(old, new).len() ==> (#[trigger] changed_rows(old, new)[i]).tag
            != Some(ChangeTag::Removed) && changed_rows(old, new)[i].tag is Some,
        forall|i: int| 0 <= i < removed_rows(old, new).len() ==> (#[trigger] removed_rows(old, new)[i]).tag
            == Some(ChangeTag::Removed),
{
    assert forall|i: int| 0 <= i < changed_rows(old, new).len() implies (#[trigger] changed_rows(old, new)[i]).tag
        != Some(ChangeTag::Removed) && changed_rows(old, new)[i].tag is Some by {
        let x = changed_rows(old, new)[i];
        lemma_changed_rows_member(old, new, x);
        let k = choose|k: int| 0 <= k < new.len() && (#[trigger] change_of(old, new[k])).contains(x);
        let c = change_of(old, new[k]);
        let j = choose|j: int| 0 <= j < c.len() && c[j] == x;
        assert(j == 0);
    }
    assert forall|i: int| 0 <= i < removed_rows(old, new).len() implies (#[trigger] removed_rows(old, new)[i]).tag
        == Some(ChangeTag::Removed) by {
        let x = removed_rows(old, new)[i];
        lemma_removed_rows_member(old, new, x);
    }
}

/// A delta is tagged throughout, and its Added and Modified rows all come
/// before its Removed rows.
pub proof fn lemma_delta_removed_rows_last(old: Seq<FileEntry>, new: Seq<FileEntry>)
    ensures
        forall|i: int| 0 <= i < file_delta(old, new).len() ==> (#[trigger] file_delta(old, new)[i]).tag is Some,
        forall|i: int, j: int|
            0 <= i < j < file_delta(old, new).len() && (#[trigger] file_delta(old, new)[i]).tag == Some(
                ChangeTag::Removed,
            ) ==> (#[trigger] file_delta(old, new)[j]).tag == Some(ChangeTag::Removed),
{
    lemma_row_tags(old, new);
    let c = changed_rows(old, new);
    let r = removed_rows(old, new);
    let d = file_delta(old, new);
    assert forall|i: int| 0 <= i < d.len() implies (#[trigger] d[i]).tag is Some by {
        if i < c.len() {
            assert(d[i] == c[i]);
        } else {
            assert(d[i] == r[i - c.len()]);
        }
    }
    assert forall|i: int, j: int|
        0 <= i < j < d.len() && (#[trigger] d[i]).tag == Some(ChangeTag::Removed) implies (#[trigger] d[j]).tag
            == Some(ChangeTag::Removed) by {
        if i < c.len() {
            assert(d[i] == c[i]);
        }
        assert(d[j] == r[j - c.len()]);
    }
}

/// The row that the cursor settles on past directories and empty files; it
/// stays on the last row where no other is left.
pub open spec fn skip_unfetched(d: Seq<FileEntry>, c: int) -> int
    decreases d.len() - c,
{
    if 0 <= c && c + 1 < d.len() && (d[c].is_directory() || d[c].is_empty()) {
        skip_unfetched(d, c + 1)
    } else {
        c
    }
}

/// The chunk rows of `cm` that an update fetches, with the cursor on row
/// `c` of the delta `d` (`None` once it is done). The cursor stops at the
/// first Removed row, passes directories and empty files, keeps each chunk
/// row of the file under it, and moves on after that file's last chunk.
pub open spec fn chunk_delta_from(d: Seq<FileEntry>, cm: Seq<ChunkEntry>, c: Option<int>) -> Seq<
    ChunkEntry,
>
    decreases cm.len(),
{
    if cm.len() == 0 {
        Seq::empty()
    } else {
        match c {
            None => Seq::empty(),
            Some(c) => if d[c].tag == Some(ChangeTag::Removed) {
                Seq::empty()
            } else {
                let f = skip_unfetched(d, c);
                if cm[0].file_path != d[f].file_name {
                    chunk_delta_from(d, cm.drop_first(), Some(f))
                } else if cm[0].id + 1 == d[f].chunks {
                    seq![cm[0]] + chunk_delta_from(
                        d,
                        cm.drop_first(),
                        if f + 1 < d.len() {
                            Some(f + 1)
                        } else {
                            None
                        },
                    )
                } else {
                    seq![cm[0]] + chunk_delta_from(d, cm.drop_first(), Some(f))
                }
            },
        }
    }
}

/// The chunk delta of a file delta `d` over the new chunk manifest `cm`.
pub open spec fn chunk_delta(d: Seq<FileEntry>, cm: Seq<ChunkEntry>) -> Seq<ChunkEntry> {
    chunk_delta_from(
        d,
        cm,
        if d.len() > 0 {
            Some(0)
        } else {
            None
        },
    )
}

/// Whether a delta row's file gets chunks: a file that holds bytes and is
/// not Removed.
pub open spec fn wanted(e: FileEntry) -> bool {
    !e.is_directory() && !e.is_empty() && e.tag != Some(ChangeTag::Removed)
}

/// Whether every Removed row comes after every other row.
pub open spec fn removed_last(d: Seq<FileEntry>) -> bool {
    forall|i: int, j: int|
        0 <= i < j < d.len() && (#[trigger] d[i]).tag == Some(ChangeTag::Removed) ==> (#[trigger] d[j]).tag
            == Some(ChangeTag::Removed)
}

/// Whether every row whose file gets chunks has at least one.
pub open spec fn wanted_have_chunks(d: Seq<FileEntry>) -> bool {
    forall|i: int| 0 <= i < d.len() && wanted(#[trigger] d[i]) ==> d[i].chunks >= 1
}

/// The chunk keys (file and id) of a file from id `k` on.
pub open spec fn chunk_block(e: FileEntry, k: int) -> Seq<(Seq<char>, int)> {
    Seq::new((e.chunks - k) as nat, |i: int| (e.file_name, k + i))
}

/// The chunk keys that the rows of the delta from row `c` on ask for: ids
/// 0 to count - 1 of each file that gets chunks, file after file.
pub open spec fn chunk_stream(d: Seq<FileEntry>, c: int) -> Seq<(Seq<char>, int)>
    decreases d.len() - c,
{
    if c < 0 || c >= d.len() {
        Seq::empty()
    } else {
        (if wanted(d[c]) {
            chunk_block(d[c], 0)
        } else {
            Seq::empty()
        }) + chunk_stream(d, c + 1)
    }
}

/// The chunk rows that name some row of the delta, in order.
pub open spec fn rows_naming(d: Seq<FileEntry>, cm: Seq<ChunkEntry>) -> Seq<ChunkEntry>
    decreases cm.len(),
{
    if cm.len() == 0 {
        Seq::empty()
    } else {
        (if has_name(d, cm[0].file_path) {
            seq![cm[0]]
        } else {
            Seq::empty()
        }) + rows_naming(d, cm.drop_first())
    }
}

/// The key (file and id) of each chunk row.
pub open spec fn chunk_keys(cm: Seq<ChunkEntry>) -> Seq<(Seq<char>, int)> {
    cm.map_values(|c: ChunkEntry| (c.file_path, c.id as int))
}

/// From a Removed row on, no row asks for chunks.
proof fn lemma_stream_after_removed(d: Seq<FileEntry>, c: int)
    requires
        removed_last(d),
        0 <= c < d.len(),
        d[c].tag == Some(ChangeTag::Removed),
    ensures
        chunk_stream(d, c) == Seq::<(Seq<char>, int)>::empty(),
        chunk_stream(d, c + 1) == Seq::<(Seq<char>, int)>::empty(),
    decreases d.len() - c,
{
    if c + 1 < d.len() {
        assert(d[c + 1].tag == Some(ChangeTag::Removed));
        lemma_stream_after_removed(d, c + 1);
    } else {
        assert(chunk_stream(d, c + 1) =~= Seq::<(Seq<char>, int)>::empty());
    }
    assert(chunk_stream(d, c) =~= Seq::<(Seq<char>, int)>::empty());
}

/// Whether the cursor on row `c`, `k` chunks into its file, is in step with
/// the chunk rows `cm` that remain.
pub open spec fn in_step(d: Seq<FileEntry>, cm: Seq<ChunkEntry>, c: int, k: int) -> bool {
    &&& 0 <= c < d.len()
    &&& (wanted(d[c]) ==> 0 <= k < d[c].chunks)
    &&& (!wanted(d[c]) ==> k == 0)
    &&& chunk_keys(rows_naming(d, cm)) == (if wanted(d[c]) {
        chunk_block(d[c], k)
    } else {
        Seq::empty()
    }) + chunk_stream(d, c + 1)
}

/// Passing directories and empty files keeps the cursor in step.
proof fn lemma_skip_in_step(d: Seq<FileEntry>, cm: Seq<ChunkEntry>, c: int, k: int)
    requires
        wanted_have_chunks(d),
        in_step(d, cm, c, k),
    ensures
        in_step(d, cm, skip_unfetched(d, c), if skip_unfetched(d, c) == c {
            k
        } else {
            0
        }),
        c <= skip_unfetched(d, c),
    decreases d.len() - c,
{
    if c + 1 < d.len() && (d[c].is_directory() || d[c].is_empty()) {
        let n = c + 1;
        assert(chunk_stream(d, n) == (if wanted(d[n]) {
            chunk_block(d[n], 0)
        } else {
            Seq::empty()
        }) + chunk_stream(d, n + 1));
        assert(chunk_keys(rows_naming(d, cm)) =~= (if wanted(d[n]) {
            chunk_block(d[n], 0)
        } else {
            Seq::empty()
        }) + chunk_stream(d, n + 1));
        lemma_skip_in_step(d, cm, n, 0);
    }
}

/// No keys, no rows.
proof fn lemma_no_keys(cm: Seq<ChunkEntry>)
    requires
        chunk_keys(cm).len() == 0,
    ensures
        cm == Seq::<ChunkEntry>::empty(),
{
    assert(cm =~= Seq::<ChunkEntry>::empty());
}

/// Whether some row of the delta whose file gets chunks has the name.
pub open spec fn names_wanted(d: Seq<FileEntry>, name: Seq<char>) -> bool {
    exists|j: int| 0 <= j < d.len() && wanted(#[trigger] d[j]) && d[j].file_name == name
}

/// Every key of the stream names a row whose file gets chunks.
proof fn lemma_stream_names_wanted(d: Seq<FileEntry>, c: int)
    ensures
        forall|i: int| 0 <= i < chunk_stream(d, c).len() ==> names_wanted(d, (#[trigger] chunk_stream(d, c)[i]).0),
    decreases d.len() - c,
{
    if 0 <= c < d.len() {
        lemma_stream_names_wanted(d, c + 1);
        let head = if wanted(d[c]) {
            chunk_block(d[c], 0)
        } else {
            Seq::empty()
        };
        let st = chunk_stream(d, c);
        assert(st == head + chunk_stream(d, c + 1));
        assert forall|i: int| 0 <= i < st.len() implies names_wanted(d, (#[trigger] st[i]).0) by {
            if i < head.len() {
                assert(st[i] == head[i]);
                assert(wanted(d[c]) && d[c].file_name == st[i].0);
            } else {
                assert(st[i] == chunk_stream(d, c + 1)[i - head.len()]);
            }
        }
    }
}

/// In step, the cursor keeps exactly the chunk rows that name a row of the
/// delta.
proof fn lemma_in_step_keeps_named(d: Seq<FileEntry>, cm: Seq<ChunkEntry>, c: int, k: int)
    requires
        removed_last(d),
        wanted_have_chunks(d),
        in_step(d, cm, c, k),
    ensures
        chunk_delta_from(d, cm, Some(c)) == rows_naming(d, cm),
    decreases cm.len(),
{
    if cm.len() == 0 {
        return;
    }
    let rest = cm.drop_first();
    let named = rows_naming(d, cm);
    assert(named == (if has_name(d, cm[0].file_path) {
        seq![cm[0]]
    } else {
        Seq::empty()
    }) + rows_naming(d, rest));
    if d[c].tag == Some(ChangeTag::Removed) {
        lemma_stream_after_removed(d, c);
        assert(chunk_keys(named) =~= Seq::<(Seq<char>, int)>::empty());
        lemma_no_keys(named);
        return;
    }
    let f = skip_unfetched(d, c);
    lemma_skip_in_range(d, c);
    lemma_skip_in_step(d, cm, c, k);
    let kf = if f == c {
        k
    } else {
        0
    };
    if wanted(d[f]) {
        let b = chunk_block(d[f], kf);
        assert(b[0] == (d[f].file_name, kf));
        if has_name(d, cm[0].file_path) {
            assert(chunk_keys(named)[0] == (cm[0].file_path, cm[0].id as int));
            assert(chunk_keys(named)[0] == b[0]);
            assert(chunk_keys(rows_naming(d, rest)) =~= chunk_keys(named).drop_first());
            if cm[0].id + 1 == d[f].chunks {
                assert(chunk_block(d[f], kf).drop_first() =~= Seq::<(Seq<char>, int)>::empty());
                assert(chunk_keys(rows_naming(d, rest)) =~= chunk_stream(d, f + 1));
                if f + 1 < d.len() {
                    let n = f + 1;
                    assert(chunk_stream(d, n) == (if wanted(d[n]) {
                        chunk_block(d[n], 0)
                    } else {
                        Seq::empty()
                    }) + chunk_stream(d, n + 1));
                    assert(chunk_keys(rows_naming(d, rest)) =~= (if wanted(d[n]) {
                        chunk_block(d[n], 0)
                    } else {
                        Seq::empty()
                    }) + chunk_stream(d, n + 1));
                    lemma_in_step_keeps_named(d, rest, n, 0);
                    assert(chunk_delta_from(d, cm, Some(c)) == seq![cm[0]] + chunk_delta_from(d, rest, Some(n)));
                } else {
                    lemma_no_keys(rows_naming(d, rest));
                    assert(chunk_delta_from(d, cm, Some(c)) == seq![cm[0]] + chunk_delta_from(d, rest, None));
                }
                assert(chunk_delta_from(d, cm, Some(c)) =~= named);
            } else {
                assert(chunk_block(d[f], kf).drop_first() =~= chunk_block(d[f], kf + 1));
                assert(chunk_keys(rows_naming(d, rest)) =~= chunk_block(d[f], kf + 1) + chunk_stream(
                    d,
                    f + 1,
                ));
                lemma_in_step_keeps_named(d, rest, f, kf + 1);
                assert(chunk_delta_from(d, cm, Some(c)) == seq![cm[0]] + chunk_delta_from(d, rest, Some(f)));
                assert(chunk_delta_from(d, cm, Some(c)) =~= named);
            }
        } else {
            if cm[0].file_path == d[f].file_name {
                assert(has_name(d, cm[0].file_path));
            }
            assert(named =~= rows_naming(d, rest));
            lemma_in_step_keeps_named(d, rest, f, kf);
            assert(chunk_delta_from(d, cm, Some(c)) == chunk_delta_from(d, rest, Some(f)));
        }
    } else {
        if f + 1 < d.len() {
            assert(d[f].tag == Some(ChangeTag::Removed));
            lemma_stream_after_removed(d, f);
        }
        assert(chunk_keys(named) =~= Seq::<(Seq<char>, int)>::empty());
        lemma_no_keys(named);
        if cm[0].file_path == d[f].file_name {
            assert(has_name(d, cm[0].file_path));
            assert(named.len() > 0);
        }
        assert(rows_naming(d, rest) =~= named);
        lemma_in_step_keeps_named(d, rest, f, 0);
        assert(chunk_delta_from(d, cm, Some(c)) == chunk_delta_from(d, rest, Some(f)));
    }
}

/// The chunk delta keeps the chunk rows of the Added and Modified files that
/// hold bytes, in the new chunk manifest's order: where Removed rows come
/// last in the delta, each such file has at least one chunk, and the chunk
/// rows that name a row of the delta are, in order, ids 0 to count - 1 of
/// each such file, file after file in the delta's order, the chunk delta is
/// exactly the chunk rows that name a row of the delta, and each of them
/// names a file that gets chunks (never a directory, an empty file or a
/// Removed file).
pub proof fn lemma_chunk_delta_keeps_delta_files(d: Seq<FileEntry>, cm: Seq<ChunkEntry>)
    requires
        removed_last(d),
        wanted_have_chunks(d),
        chunk_keys(rows_naming(d, cm)) == chunk_stream(d, 0),
    ensures
        chunk_delta(d, cm) == rows_naming(d, cm),
        forall|i: int| 0 <= i < chunk_delta(d, cm).len() ==> names_wanted(d, (#[trigger] chunk_delta(d, cm)[i]).file_path),
{
    lemma_stream_names_wanted(d, 0);
    let named = rows_naming(d, cm);
    assert forall|i: int| 0 <= i < named.len() implies names_wanted(d, (#[trigger] named[i]).file_path) by {
        assert(chunk_keys(named)[i] == (named[i].file_path, named[i].id as int));
        assert(chunk_stream(d, 0)[i] == chunk_keys(named)[i]);
    }
    if d.len() == 0 {
        assert(chunk_stream(d, 0) =~= Seq::<(Seq<char>, int)>::empty());
        lemma_no_keys(rows_naming(d, cm));
        if cm.len() > 0 {
            assert(chunk_delta(d, cm) == Seq::<ChunkEntry>::empty());
        }
    } else {
        assert(in_step(d, cm, 0, 0));
        lemma_in_step_keeps_named(d, cm, 0, 0);
    }
}

/// The cursor never leaves the delta.
proof fn lemma_skip_in_range(d: Seq<FileEntry>, c: int)
    requires
        0 <= c < d.len(),
    ensures
        c <= skip_unfetched(d, c) < d.len(),
        skip_unfetched(d, c) + 1 < d.len() ==> !(d[skip_unfetched(d, c)].is_directory()
            || d[skip_unfetched(d, c)].is_empty()),
    decreases d.len() - c,
{
    if c + 1 < d.len() && (d[c].is_directory() || d[c].is_empty()) {
        lemma_skip_in_range(d, c + 1);
    }
}

/// The chunk rows of the new chunk manifest `new_chunks` that the delta
/// `delta` asks for, in their order: those of the Added and Modified files
/// that hold bytes.
pub fn compute_chunk_delta(delta: &[BuildManifestRecord], new_chunks: &[BuildManifestChunksRecord]) -> (r: Vec<
    BuildManifestChunksRecord,
>)
    ensures
        chunk_entries(r@) == chunk_delta(file_entries(delta@), chunk_entries(new_chunks@)),
{
    let ghost d = file_entries(delta@);
    let ghost cm = chunk_entries(new_chunks@);
    let mut r: Vec<BuildManifestChunksRecord> = Vec::new();
    if delta.len() == 0 {
        return r;
    }
    let mut cur: usize = 0;
    let mut i: usize = 0;
    assert(cm.subrange(0, cm.len() as int) =~= cm);
    assert(chunk_entries(r@) =~= Seq::<ChunkEntry>::empty());
    assert(chunk_entries(r@) + chunk_delta(d, cm) =~= chunk_delta(d, cm));
    while i < new_chunks.len()
        invariant
            d == file_entries(delta@),
            cm == chunk_entries(new_chunks@),
            d.len() == delta@.len(),
            cm.len() == new_chunks@.len(),
            i <= cm.len(),
            cur < d.len(),
            chunk_entries(r@) + chunk_delta_from(d, cm.subrange(i as int, cm.len() as int), Some(cur as int))
                == chunk_delta(d, cm),
        decreases cm.len() - i,
    {
        let ghost rest = cm.subrange(i as int, cm.len() as int);
        assert(rest.drop_first() =~= cm.subrange(i + 1, cm.len() as int));
        assert(rest[0] == new_chunks@[i as int]@);
        if delta[cur].tag == Some(ChangeTag::Removed) {
            assert(chunk_entries(r@) =~= chunk_entries(r@) + Seq::<ChunkEntry>::empty());
            return r;
        }
        proof {
            lemma_skip_in_range(d, cur as int);
        }
        let ghost c0 = cur as int;
        while cur < delta.len() - 1 && (delta[cur].is_directory() || delta[cur].is_empty())
            invariant
                d == file_entries(delta@),
                d.len() == delta@.len(),
                cur < d.len(),
                skip_unfetched(d, cur as int) == skip_unfetched(d, c0),
            decreases d.len() - cur,
        {
            cur = cur + 1;
        }
        assert(skip_unfetched(d, cur as int) == cur);
        let rec = &new_chunks[i];
        let ghost before = r@;
        let ghost tail = cm.subrange(i + 1, cm.len() as int);
        if rec.file_path == delta[cur].file_name {
            r.push(rec.copied());
            assert(chunk_entries(r@) =~= chunk_entries(before).push(rec@));
            if (rec.id as usize) + 1 == delta[cur].chunks {
                if cur >= delta.len() - 1 {
                    assert(chunk_delta_from(d, tail, None) =~= Seq::<ChunkEntry>::empty());
                    assert(chunk_entries(r@) =~= chunk_entries(before) + (seq![rec@]
                        + chunk_delta_from(d, tail, None)));
                    return r;
                }
                cur = cur + 1;
            }
            assert(chunk_entries(r@) + chunk_delta_from(d, tail, Some(cur as int))
                =~= chunk_entries(before) + (seq![rec@] + chunk_delta_from(d, tail, Some(cur as int))));
        }
        i = i + 1;
    }
    assert(cm.subrange(i as int, cm.len() as int) =~= Seq::<ChunkEntry>::empty());
    assert(chunk_entries(r@) =~= chunk_entries(r@) + Seq::<ChunkEntry>::empty());
    r
}

} // verus!
