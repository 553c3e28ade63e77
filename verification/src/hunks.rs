//! The hunk picker's model of a working tree change, and which files a fold
//! takes from what the user picked.
use vstd::prelude::*;

verus! {

/// Where a hunk comes from: the index or the working tree.
#[derive(Debug, Clone, Copy, PartialEq, Eq, Structural)]
pub enum HunkOrigin {
    Staged,
    Unstaged,
}

/// One hunk of a diff: its text and the lines it modifies.
#[derive(Debug)]
pub struct DiffHunk {
    pub text: String,
    pub modified_lines: Vec<usize>,
}

/// A hunk as the picker lists it.
#[derive(Debug)]
pub struct HunkEntry {
    pub hunk: DiffHunk,
    pub selected: bool,
    pub origin: HunkOrigin,
}

/// A changed file as the picker lists it, with its hunks in order.
#[derive(Debug)]
pub struct FileEntry {
    pub path: String,
    pub hunks: Vec<HunkEntry>,
    pub index_status: char,
    pub worktree_status: char,
    pub binary: bool,
}

/// A file is picked when at least one of its hunks is selected, whatever the
/// hunk's origin.
pub open spec fn is_picked(entry: FileEntry) -> bool {
    exists|i: int| 0 <= i < entry.hunks@.len() && (#[trigger] entry.hunks@[i]).selected
}

/// The paths of the picked files, in listing order.
pub open spec fn picked_paths(entries: Seq<FileEntry>) -> Seq<Seq<char>>
    decreases entries.len(),
{
    if entries.len() == 0 {
        Seq::empty()
    } else {
        let rest = picked_paths(entries.drop_last());
        if is_picked(entries.last()) {
            rest.push(entries.last().path@)
        } else {
            rest
        }
    }
}

fn has_selected_hunk(entry: &FileEntry) -> (res: bool)
    ensures
        res == is_picked(*entry),
{
    let n = entry.hunks.len();
    let mut i: usize = 0;
    while i < n
        invariant
            n == entry.hunks@.len(),
            i <= n,
            forall|j: int| 0 <= j < i ==> !(#[trigger] entry.hunks@[j]).selected,
        decreases n - i,
    {
        if entry.hunks[i].selected {
            return true;
        }
        i = i + 1;
    }
    false
}

/// The paths a fold takes from the picker: every file with a selected hunk,
/// once, in the order the picker listed them.
pub fn selected_paths(entries: &[FileEntry]) -> (res: Vec<String>)
    ensures
        res.deep_view() == picked_paths(entries@),
{
    let mut res: Vec<String> = Vec::new();
    let n = entries.len();
    let mut i: usize = 0;
    while i < n
        invariant
            n == entries@.len(),
            i <= n,
            res.deep_view() == picked_paths(entries@.subrange(0, i as int)),
        decreases n - i,
    {
        let ghost before = res.deep_view();
        assert(entries@.subrange(0, i + 1).drop_last() =~= entries@.subrange(0, i as int));
        if has_selected_hunk(&entries[i]) {
            res.push(entries[i].path.clone());
            assert(res.deep_view() =~= before.push(entries@[i as int].path@));
        }
        i = i + 1;
    }
    assert(entries@.subrange(0, n as int) =~= entries@);
    res
}

/// `path` is the path of a picked file among `entries`.
pub open spec fn is_picked_path(entries: Seq<FileEntry>, path: Seq<char>) -> bool {
    exists|i: int| 0 <= i < entries.len() && is_picked(#[trigger] entries[i]) && entries[i].path@ == path
}

proof fn lemma_picked_paths_induct(entries: Seq<FileEntry>)
    ensures
        picked_paths(entries).len() <= entries.len(),
        forall|k: int|
            0 <= k < picked_paths(entries).len() ==> is_picked_path(
                entries,
                #[trigger] picked_paths(entries)[k],
            ),
        forall|i: int|
            0 <= i < entries.len() && is_picked(#[trigger] entries[i])
                ==> picked_paths(entries).contains(entries[i].path@),
    decreases entries.len(),
{
    if entries.len() > 0 {
        let init = entries.drop_last();
        lemma_picked_paths_induct(init);
        let p = picked_paths(entries);
        let q = picked_paths(init);
        assert forall|k: int| 0 <= k < p.len() implies is_picked_path(entries, #[trigger] p[k]) by {
            if k < q.len() {
                assert(p[k] == q[k]);
                assert(is_picked_path(init, q[k]));
                let i = choose|i: int|
                    0 <= i < init.len() && is_picked(#[trigger] init[i]) && init[i].path@ == q[k];
                assert(entries[i] == init[i]);
            } else {
                assert(p[k] == entries.last().path@);
                assert(entries[entries.len() - 1] == entries.last());
            }
        }
        assert forall|i: int| 0 <= i < entries.len() && is_picked(#[trigger] entries[i]) implies
            p.contains(entries[i].path@) by {
            if i < init.len() {
                assert(init[i] == entries[i]);
                let k = choose|k: int| 0 <= k < q.len() && q[k] == entries[i].path@;
                if is_picked(entries.last()) {
                    assert(p[k] == q[k]);
                }
            } else {
                assert(p[p.len() - 1] == entries.last().path@);
            }
        }
    }
}

/// A file is folded exactly when some hunk of it, at any position, is
/// selected: every picked path is the path of a listed file with a selected
/// hunk, every file with a selected hunk has its path picked, and no more
/// paths are picked than files are listed.
pub proof fn lemma_picked_paths_are_the_selected_files(entries: Seq<FileEntry>)
    ensures
        picked_paths(entries).len() <= entries.len(),
        forall|k: int|
            #![trigger picked_paths(entries)[k]]
            0 <= k < picked_paths(entries).len() ==> exists|i: int|
                0 <= i < entries.len() && (#[trigger] entries[i]).path@ == picked_paths(entries)[k]
                    && exists|h: int|
                    0 <= h < entries[i].hunks@.len() && (#[trigger] entries[i].hunks@[h]).selected,
        forall|i: int, h: int|
            0 <= i && i < entries.len() && 0 <= h && h < entries[i].hunks@.len() && (#[trigger] entries[i].hunks@[h]).selected
                ==> picked_paths(entries).contains(entries[i].path@),
{
    lemma_picked_paths_induct(entries);
    let p = picked_paths(entries);
    assert forall|k: int| #![trigger picked_paths(entries)[k]]
        0 <= k < picked_paths(entries).len() implies exists|i: int|
        0 <= i < entries.len() && (#[trigger] entries[i]).path@ == picked_paths(entries)[k]
            && exists|h: int|
            0 <= h < entries[i].hunks@.len() && (#[trigger] entries[i].hunks@[h]).selected by {
        assert(is_picked_path(entries, p[k]));
        let i = choose|i: int| 0 <= i < entries.len() && is_picked(#[trigger] entries[i]) && entries[i].path@ == p[k];
        assert(is_picked(entries[i]));
    }
    assert forall|i: int, h: int|
        0 <= i && i < entries.len() && 0 <= h && h < entries[i].hunks@.len() && (#[trigger] entries[i].hunks@[h]).selected
            implies p.contains(entries[i].path@) by {
        assert(is_picked(entries[i]));
    }
}

/// A change the picker can offer has at least one hunk; a change with none,
/// such as a mode-only one, never reaches the listing, so nobody can pick it
/// and a fold cannot name it.
pub open spec fn listable(entry: FileEntry) -> bool {
    entry.hunks@.len() > 0
}

/// The entries the picker lists, in order.
pub open spec fn listed(entries: Seq<FileEntry>) -> Seq<FileEntry>
    decreases entries.len(),
{
    if entries.len() == 0 {
        Seq::empty()
    } else if listable(entries.last()) {
        listed(entries.drop_last()).push(entries.last())
    } else {
        listed(entries.drop_last())
    }
}

/// Leaves out the changes the picker has no hunk for.
pub fn listed_entries(entries: Vec<FileEntry>) -> (res: Vec<FileEntry>)
    ensures
        res@ == listed(entries@),
{
    let ghost all = entries@;
    let n = entries.len();
    let mut rest = entries;
    let mut res: Vec<FileEntry> = Vec::new();
    let mut k: usize = 0;
    assert(all.subrange(0, 0) =~= Seq::<FileEntry>::empty());
    assert(all.subrange(0, n as int) =~= all);
    while rest.len() > 0
        invariant
            n == all.len(),
            k <= n,
            rest@ == all.subrange(k as int, n as int),
            res@ == listed(all.subrange(0, k as int)),
        decreases rest@.len(),
    {
        let e = rest.remove(0);
        let ghost sub = all.subrange(0, k + 1);
        assert(sub.drop_last() =~= all.subrange(0, k as int));
        assert(sub.last() == e);
        if e.hunks.len() > 0 {
            res.push(e);
        }
        assert(rest@ =~= all.subrange(k + 1, n as int));
        k = k + 1;
    }
    assert(all.subrange(0, n as int) =~= all);
    res
}

/// A hunk that replaces line one, with the given origin and selection.
pub fn hunk(origin: HunkOrigin, selected: bool) -> (res: HunkEntry)
    ensures
        res.origin == origin,
        res.selected == selected,
        res.hunk.text@ == "@@ -1 +1 @@\n-a\n+b\n"@,
        res.hunk.modified_lines@ == seq![1usize],
{
    let mut modified_lines: Vec<usize> = Vec::new();
    modified_lines.push(1);
    HunkEntry {
        hunk: DiffHunk { text: String::from_str("@@ -1 +1 @@\n-a\n+b\n"), modified_lines },
        selected,
        origin,
    }
}

/// A text file modified in both the index and the working tree.
pub fn entry(path: &str, hunks: Vec<HunkEntry>) -> (res: FileEntry)
    ensures
        res.path@ == path@,
        res.hunks@ == hunks@,
        res.index_status == 'M',
        res.worktree_status == 'M',
        !res.binary,
{
    FileEntry {
        path: String::from_str(path),
        hunks,
        index_status: 'M',
        worktree_status: 'M',
        binary: false,
    }
}

/// The picked paths of a listing are those of its parts, in order: a single
/// file gives its path exactly when some hunk of it is selected, and the
/// picked paths of two listings one after the other are the first's followed
/// by the second's.
pub proof fn lemma_picked_paths_compose(e1: Seq<FileEntry>, e2: Seq<FileEntry>, e: FileEntry)
    ensures
        picked_paths(e1 + e2) == picked_paths(e1) + picked_paths(e2),
        picked_paths(seq![e]) == if exists|h: int| 0 <= h < e.hunks@.len() && (#[trigger] e.hunks@[h]).selected {
            seq![e.path@]
        } else {
            Seq::<Seq<char>>::empty()
        },
    decreases e2.len(),
{
    assert(seq![e].drop_last() =~= Seq::<FileEntry>::empty());
    assert(seq![e].last() == e);
    assert(picked_paths(Seq::<FileEntry>::empty()).push(e.path@) =~= seq![e.path@]);
    if e2.len() == 0 {
        assert(e1 + e2 =~= e1);
        assert(picked_paths(e1) + picked_paths(e2) =~= picked_paths(e1));
    } else {
        lemma_picked_paths_compose(e1, e2.drop_last(), e);
        assert((e1 + e2).drop_last() =~= e1 + e2.drop_last());
        assert((e1 + e2).last() == e2.last());
        if is_picked(e2.last()) {
            assert(picked_paths(e1) + picked_paths(e2) =~= (picked_paths(e1) + picked_paths(e2.drop_last())).push(
                e2.last().path@,
            ));
        } else {
            assert(picked_paths(e1) + picked_paths(e2) =~= picked_paths(e1) + picked_paths(e2.drop_last()));
        }
    }
}

} // verus!
