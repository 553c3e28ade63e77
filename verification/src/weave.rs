//! The weave: the integration branch's history as loom rebuilds it, with one
//! section per feature branch and the integration line that merges them.
use vstd::prelude::*;
use crate::words::{contains_word, str_eq};

verus! {

/// A commit of the weave.
#[derive(Debug)]
pub struct WeaveCommit {
    pub oid: String,
    pub message: String,
    /// The commit's `git patch-id`.
    pub patch_id: String,
}

/// A feature branch's commits, oldest first, on top of its base.
#[derive(Debug)]
pub struct BranchSection {
    /// The branch name, which also labels the section in the rebase todo.
    pub label: String,
    /// The label of the section this branch is stacked on, or `None` when it
    /// starts from the upstream base.
    pub base: Option<String>,
    pub commits: Vec<WeaveCommit>,
}

/// A step of the integration line, oldest first.
#[derive(Debug)]
pub enum LineEntry {
    /// A commit made on the integration branch itself.
    Pick(WeaveCommit),
    /// The merge of a branch section: its label, and the merge commit whose
    /// message is kept.
    Merge { label: String, oid: String },
}

/// The integration branch above its upstream base.
#[derive(Debug)]
pub struct Weave {
    pub branch_sections: Vec<BranchSection>,
    pub integration_line: Vec<LineEntry>,
}

/// A commit as plain values.
pub struct CommitView {
    pub oid: Seq<char>,
    pub message: Seq<char>,
    pub patch_id: Seq<char>,
}

/// A section as plain values.
pub struct SectionView {
    pub label: Seq<char>,
    pub base: Option<Seq<char>>,
    pub commits: Seq<CommitView>,
}

/// A step of the integration line as plain values.
pub enum EntryView {
    Pick(CommitView),
    Merge { label: Seq<char>, oid: Seq<char> },
}

/// A weave as plain values.
pub struct WeaveView {
    pub sections: Seq<SectionView>,
    pub line: Seq<EntryView>,
}

/// The commits as plain values.
pub open spec fn commits_view(cs: Seq<WeaveCommit>) -> Seq<CommitView> {
    cs.map_values(|c: WeaveCommit| c@)
}

/// The integration line as plain values.
pub open spec fn line_view(es: Seq<LineEntry>) -> Seq<EntryView> {
    es.map_values(|e: LineEntry| e@)
}

/// The sections as plain values.
pub open spec fn sections_view(ss: Seq<BranchSection>) -> Seq<SectionView> {
    ss.map_values(|s: BranchSection| s@)
}

impl View for WeaveCommit {
    type V = CommitView;

    open spec fn view(&self) -> CommitView {
        CommitView { oid: self.oid@, message: self.message@, patch_id: self.patch_id@ }
    }
}

impl View for BranchSection {
    type V = SectionView;

    open spec fn view(&self) -> SectionView {
        SectionView { label: self.label@, base: self.base.deep_view(), commits: commits_view(self.commits@) }
    }
}

impl View for LineEntry {
    type V = EntryView;

    open spec fn view(&self) -> EntryView {
        match self {
            LineEntry::Pick(c) => EntryView::Pick(c@),
            LineEntry::Merge { label, oid } => EntryView::Merge { label: label@, oid: oid@ },
        }
    }
}

impl View for Weave {
    type V = WeaveView;

    open spec fn view(&self) -> WeaveView {
        WeaveView {
            sections: sections_view(self.branch_sections@),
            line: line_view(self.integration_line@),
        }
    }
}

// ---------------------------------------------------------------------------
// Finding a commit
// ---------------------------------------------------------------------------

/// The index of the first commit with `oid`, or -1.
pub open spec fn commit_index(cs: Seq<CommitView>, oid: Seq<char>) -> int
    decreases cs.len(),
{
    if cs.len() == 0 {
        -1
    } else if cs[0].oid == oid {
        0
    } else {
        let r = commit_index(cs.drop_first(), oid);
        if r < 0 {
            -1
        } else {
            r + 1
        }
    }
}

/// Whether a step of the integration line picks the commit `oid`.
pub open spec fn picks(e: EntryView, oid: Seq<char>) -> bool {
    match e {
        EntryView::Pick(c) => c.oid == oid,
        EntryView::Merge { .. } => false,
    }
}

/// The index of the first step of the integration line that picks `oid`, or -1.
pub open spec fn line_index(es: Seq<EntryView>, oid: Seq<char>) -> int
    decreases es.len(),
{
    if es.len() == 0 {
        -1
    } else if picks(es[0], oid) {
        0
    } else {
        let r = line_index(es.drop_first(), oid);
        if r < 0 {
            -1
        } else {
            r + 1
        }
    }
}

/// The index of the first section holding `oid`, or -1.
pub open spec fn section_index(ss: Seq<SectionView>, oid: Seq<char>) -> int
    decreases ss.len(),
{
    if ss.len() == 0 {
        -1
    } else if commit_index(ss[0].commits, oid) >= 0 {
        0
    } else {
        let r = section_index(ss.drop_first(), oid);
        if r < 0 {
            -1
        } else {
            r + 1
        }
    }
}

/// Where a commit stands in a weave.
pub enum Location {
    InSection(int, int),
    OnLine(int),
}

/// Where the commit `oid` stands: its first occurrence, sections first.
pub open spec fn locate(w: WeaveView, oid: Seq<char>) -> Option<Location> {
    let s = section_index(w.sections, oid);
    if s >= 0 {
        Some(Location::InSection(s, commit_index(w.sections[s].commits, oid)))
    } else {
        let k = line_index(w.line, oid);
        if k >= 0 {
            Some(Location::OnLine(k))
        } else {
            None
        }
    }
}

/// The exact place of a first occurrence in a sequence of commits.
pub proof fn lemma_commit_index(cs: Seq<CommitView>, oid: Seq<char>)
    ensures
        -1 <= commit_index(cs, oid) < cs.len(),
        commit_index(cs, oid) >= 0 ==> cs[commit_index(cs, oid)].oid == oid,
        forall|k: int|
            0 <= k < cs.len() && (commit_index(cs, oid) < 0 || k < commit_index(cs, oid))
                ==> (#[trigger] cs[k]).oid != oid,
    decreases cs.len(),
{
    if cs.len() > 0 && cs[0].oid != oid {
        let rest = cs.drop_first();
        lemma_commit_index(rest, oid);
        assert forall|k: int|
            0 <= k < cs.len() && (commit_index(cs, oid) < 0 || k < commit_index(cs, oid)) implies (
            #[trigger] cs[k]).oid != oid by {
            if k > 0 {
                assert(cs[k] == rest[k - 1]);
            }
        }
    }
}

/// The exact place of a first pick on the integration line.
pub proof fn lemma_line_index(es: Seq<EntryView>, oid: Seq<char>)
    ensures
        -1 <= line_index(es, oid) < es.len(),
        line_index(es, oid) >= 0 ==> picks(es[line_index(es, oid)], oid),
        forall|k: int|
            0 <= k < es.len() && (line_index(es, oid) < 0 || k < line_index(es, oid))
                ==> !picks(#[trigger] es[k], oid),
    decreases es.len(),
{
    if es.len() > 0 && !picks(es[0], oid) {
        let rest = es.drop_first();
        lemma_line_index(rest, oid);
        assert forall|k: int|
            0 <= k < es.len() && (line_index(es, oid) < 0 || k < line_index(es, oid)) implies !picks(
            #[trigger] es[k],
            oid,
        ) by {
            if k > 0 {
                assert(es[k] == rest[k - 1]);
            }
        }
    }
}

/// The exact place of the first section holding a commit.
pub proof fn lemma_section_index(ss: Seq<SectionView>, oid: Seq<char>)
    ensures
        -1 <= section_index(ss, oid) < ss.len(),
        section_index(ss, oid) >= 0 ==> commit_index(ss[section_index(ss, oid)].commits, oid) >= 0,
        forall|k: int|
            0 <= k < ss.len() && (section_index(ss, oid) < 0 || k < section_index(ss, oid))
                ==> commit_index((#[trigger] ss[k]).commits, oid) < 0,
    decreases ss.len(),
{
    if ss.len() > 0 && commit_index(ss[0].commits, oid) < 0 {
        let rest = ss.drop_first();
        lemma_section_index(rest, oid);
        assert forall|k: int|
            0 <= k < ss.len() && (section_index(ss, oid) < 0 || k < section_index(ss, oid)) implies commit_index(
            (#[trigger] ss[k]).commits,
            oid,
        ) < 0 by {
            if k > 0 {
                assert(ss[k] == rest[k - 1]);
            }
        }
    }
}

fn find_in_commits(cs: &Vec<WeaveCommit>, oid: &str) -> (res: Option<usize>)
    ensures
        ({
            let i = commit_index(commits_view(cs@), oid@);
            if i < 0 {
                res is None
            } else {
                res matches Some(j) && j as int == i
            }
        }),
{
    let ghost v = commits_view(cs@);
    let n = cs.len();
    let mut i: usize = 0;
    assert(v.subrange(0, n as int) =~= v);
    while i < n
        invariant
            n == cs@.len(),
            v == commits_view(cs@),
            i <= n,
            commit_index(v, oid@) == ({
                let r = commit_index(v.subrange(i as int, n as int), oid@);
                if r < 0 {
                    -1
                } else {
                    r + i
                }
            }),
        decreases n - i,
    {
        let ghost sub = v.subrange(i as int, n as int);
        assert(sub.drop_first() =~= v.subrange(i + 1, n as int));
        assert(sub[0] == cs@[i as int]@);
        if str_eq(cs[i].oid.as_str(), oid) {
            return Some(i);
        }
        i = i + 1;
    }
    None
}

fn find_on_line(es: &Vec<LineEntry>, oid: &str) -> (res: Option<usize>)
    ensures
        ({
            let i = line_index(line_view(es@), oid@);
            if i < 0 {
                res is None
            } else {
                res matches Some(j) && j as int == i
            }
        }),
{
    let ghost v = line_view(es@);
    let n = es.len();
    let mut i: usize = 0;
    assert(v.subrange(0, n as int) =~= v);
    while i < n
        invariant
            n == es@.len(),
            v == line_view(es@),
            i <= n,
            line_index(v, oid@) == ({
                let r = line_index(v.subrange(i as int, n as int), oid@);
                if r < 0 {
                    -1
                } else {
                    r + i
                }
            }),
        decreases n - i,
    {
        let ghost sub = v.subrange(i as int, n as int);
        assert(sub.drop_first() =~= v.subrange(i + 1, n as int));
        assert(sub[0] == es@[i as int]@);
        let hit = match &es[i] {
            LineEntry::Pick(c) => str_eq(c.oid.as_str(), oid),
            LineEntry::Merge { .. } => false,
        };
        if hit {
            return Some(i);
        }
        i = i + 1;
    }
    None
}

/// Where a commit stands, as indices.
#[derive(Debug, Clone, Copy, PartialEq, Eq, Structural)]
pub enum CommitLocation {
    /// Section index, then the index in its commits.
    Section(usize, usize),
    /// Index on the integration line.
    Line(usize),
}

/// A location as the spec's `Location`.
pub open spec fn location_view(l: CommitLocation) -> Location {
    match l {
        CommitLocation::Section(s, j) => Location::InSection(s as int, j as int),
        CommitLocation::Line(k) => Location::OnLine(k as int),
    }
}

/// Where the commit `oid` stands, as `locate` says.
pub fn locate_commit(weave: &Weave, oid: &str) -> (res: Option<CommitLocation>)
    ensures
        match locate(weave@, oid@) {
            None => res is None,
            Some(l) => res matches Some(r) && location_view(r) == l,
        },
{
    let ghost w = weave@;
    let n = weave.branch_sections.len();
    let mut s: usize = 0;
    assert(w.sections.subrange(0, n as int) =~= w.sections);
    while s < n
        invariant
            n == weave.branch_sections@.len(),
            w == weave@,
            s <= n,
            section_index(w.sections, oid@) == ({
                let r = section_index(w.sections.subrange(s as int, n as int), oid@);
                if r < 0 {
                    -1
                } else {
                    r + s
                }
            }),
        decreases n - s,
    {
        let ghost sub = w.sections.subrange(s as int, n as int);
        assert(sub.drop_first() =~= w.sections.subrange(s + 1, n as int));
        assert(sub[0] == weave.branch_sections@[s as int]@);
        assert(w.sections[s as int] == sub[0]);
        let commits = &weave.branch_sections[s].commits;
        assert(w.sections[s as int].commits == commits_view(commits@));
        match find_in_commits(commits, oid) {
            Some(j) => {
                assert(commit_index(sub[0].commits, oid@) >= 0);
                assert(section_index(sub, oid@) == 0);
                return Some(CommitLocation::Section(s, j));
            },
            None => {},
        }
        s = s + 1;
    }
    assert(w.sections.subrange(n as int, n as int) =~= Seq::<SectionView>::empty());
    match find_on_line(&weave.integration_line, oid) {
        Some(k) => Some(CommitLocation::Line(k)),
        None => None,
    }
}

// ---------------------------------------------------------------------------
// Swapping two commits
// ---------------------------------------------------------------------------

/// `s` with the elements at `i` and `j` exchanged.
pub open spec fn swap_seq<A>(s: Seq<A>, i: int, j: int) -> Seq<A> {
    s.update(i, s[j]).update(j, s[i])
}

/// Why a swap is refused.
pub enum SwapFailure {
    NotFound(Seq<char>),
    DifferentSections,
}

/// What swapping the commits `a` and `b` makes of a weave: they trade places
/// when both stand in one section, or both on the integration line.
pub open spec fn swap_result(w: WeaveView, a: Seq<char>, b: Seq<char>) -> Result<WeaveView, SwapFailure> {
    match (locate(w, a), locate(w, b)) {
        (None, _) => Err(SwapFailure::NotFound(a)),
        (Some(_), None) => Err(SwapFailure::NotFound(b)),
        (Some(Location::InSection(s1, j1)), Some(Location::InSection(s2, j2))) => if s1 == s2 {
            Ok(
                WeaveView {
                    sections: w.sections.update(
                        s1,
                        SectionView {
                            label: w.sections[s1].label,
                            base: w.sections[s1].base,
                            commits: swap_seq(w.sections[s1].commits, j1, j2),
                        },
                    ),
                    line: w.line,
                },
            )
        } else {
            Err(SwapFailure::DifferentSections)
        },
        (Some(Location::OnLine(k1)), Some(Location::OnLine(k2))) => Ok(
            WeaveView { sections: w.sections, line: swap_seq(w.line, k1, k2) },
        ),
        _ => Err(SwapFailure::DifferentSections),
    }
}

/// A swap that cannot be made.
#[derive(Debug)]
pub enum SwapError {
    /// No commit of the weave has this id.
    NotFound(String),
    /// The two commits stand in different sections.
    DifferentSections,
    /// A swapped commit replayed empty on its new base: it would vanish.
    Redundant(String),
}

impl SwapError {
    /// The message shown to the user.
    pub fn message(&self) -> (res: String)
        ensures
            match self {
                SwapError::NotFound(oid) => res@ == "commit `"@ + oid@
                    + "` is not part of the integration branch"@,
                SwapError::DifferentSections => res@
                    == "the two commits are in different sections; a swap stays within one branch or the integration line"@,
                SwapError::Redundant(oid) => res@ == "commit `"@ + oid@
                    + "` is redundant: it replays empty in its new place, so the swap would drop it"@,
            },
    {
        match self {
            SwapError::NotFound(oid) => {
                let mut msg = String::from_str("commit `");
                msg.append(oid.as_str());
                msg.append("` is not part of the integration branch");
                msg
            },
            SwapError::DifferentSections => String::from_str(
                "the two commits are in different sections; a swap stays within one branch or the integration line",
            ),
            SwapError::Redundant(oid) => {
                let mut msg = String::from_str("commit `");
                msg.append(oid.as_str());
                msg.append("` is redundant: it replays empty in its new place, so the swap would drop it");
                msg
            },
        }
    }
}

/// Exchanges two elements of a vector.
fn swap_vec<T>(v: &mut Vec<T>, i: usize, j: usize)
    requires
        i < old(v)@.len(),
        j < old(v)@.len(),
    ensures
        final(v)@ == swap_seq(old(v)@, i as int, j as int),
{
    let ghost start = v@;
    if i == j {
        assert(start =~= swap_seq(start, i as int, j as int));
        return;
    }
    let (lo, hi) = if i < j {
        (i, j)
    } else {
        (j, i)
    };
    let x_hi = v.remove(hi);
    let x_lo = v.remove(lo);
    v.insert(lo, x_hi);
    v.insert(hi, x_lo);
    assert(v@ =~= swap_seq(start, i as int, j as int));
}

/// Swaps the commits `a` and `b`, as `swap_result` says; on a refusal the
/// weave is left as it was.
pub fn swap_commits(weave: &mut Weave, a: &str, b: &str) -> (res: Result<(), SwapError>)
    ensures
        match swap_result(old(weave)@, a@, b@) {
            Ok(v) => res is Ok && final(weave)@ == v,
            Err(SwapFailure::NotFound(x)) => (res matches Err(SwapError::NotFound(s)) && s@ == x)
                && final(weave)@ == old(weave)@,
            Err(SwapFailure::DifferentSections) => (res matches Err(SwapError::DifferentSections))
                && final(weave)@ == old(weave)@,
        },
{
    let ghost w = weave@;
    let la = match locate_commit(weave, a) {
        None => {
            return Err(SwapError::NotFound(String::from_str(a)));
        },
        Some(l) => l,
    };
    let lb = match locate_commit(weave, b) {
        None => {
            return Err(SwapError::NotFound(String::from_str(b)));
        },
        Some(l) => l,
    };
    proof {
        lemma_section_index(w.sections, a@);
        lemma_section_index(w.sections, b@);
        lemma_line_index(w.line, a@);
        lemma_line_index(w.line, b@);
        if section_index(w.sections, a@) >= 0 {
            lemma_commit_index(w.sections[section_index(w.sections, a@)].commits, a@);
        }
        if section_index(w.sections, b@) >= 0 {
            lemma_commit_index(w.sections[section_index(w.sections, b@)].commits, b@);
        }
    }
    match (la, lb) {
        (CommitLocation::Section(s1, j1), CommitLocation::Section(s2, j2)) => {
            if s1 != s2 {
                return Err(SwapError::DifferentSections);
            }
            let ghost old_sections = weave.branch_sections@;
            let mut section = weave.branch_sections.remove(s1);
            assert(section@ == w.sections[s1 as int]);
            swap_vec(&mut section.commits, j1, j2);
            assert(commits_view(section.commits@) =~= swap_seq(
                w.sections[s1 as int].commits,
                j1 as int,
                j2 as int,
            ));
            weave.branch_sections.insert(s1, section);
            assert(weave.branch_sections@ =~= old_sections.update(s1 as int, section));
            assert(weave@.sections =~= w.sections.update(
                s1 as int,
                SectionView {
                    label: w.sections[s1 as int].label,
                    base: w.sections[s1 as int].base,
                    commits: swap_seq(w.sections[s1 as int].commits, j1 as int, j2 as int),
                },
            ));
            Ok(())
        },
        (CommitLocation::Line(k1), CommitLocation::Line(k2)) => {
            swap_vec(&mut weave.integration_line, k1, k2);
            assert(weave@.line =~= swap_seq(w.line, k1 as int, k2 as int));
            Ok(())
        },
        _ => Err(SwapError::DifferentSections),
    }
}

/// After the swap's rebase: both swapped commits are named in the success
/// message, so neither may vanish. A commit that replayed empty refuses the
/// swap (the first one, `a` before `b`), and the rebase is then taken back.
pub fn check_swap_replay(a: &str, a_replayed_empty: bool, b: &str, b_replayed_empty: bool) -> (res: Result<
    (),
    SwapError,
>)
    ensures
        a_replayed_empty ==> (res matches Err(SwapError::Redundant(s)) && s@ == a@),
        !a_replayed_empty && b_replayed_empty ==> (res matches Err(SwapError::Redundant(s)) && s@ == b@),
        !a_replayed_empty && !b_replayed_empty ==> res is Ok,
{
    if a_replayed_empty {
        Err(SwapError::Redundant(String::from_str(a)))
    } else if b_replayed_empty {
        Err(SwapError::Redundant(String::from_str(b)))
    } else {
        Ok(())
    }
}

// ---------------------------------------------------------------------------
// Dropping what upstream already has
// ---------------------------------------------------------------------------

/// What the new upstream already holds: the commits it descends from, and the
/// patch IDs of its new commits.
#[derive(Debug)]
pub struct Upstream {
    pub merged: Vec<String>,
    pub patch_ids: Vec<String>,
}

/// A commit landed upstream when upstream descends from it (a direct merge) or
/// a new upstream commit has its patch ID (a cherry-pick).
pub open spec fn landed(u: Upstream, c: CommitView) -> bool {
    u.merged.deep_view().contains(c.oid) || u.patch_ids.deep_view().contains(c.patch_id)
}

/// The commits that did not land, in order.
pub open spec fn unlanded(u: Upstream, cs: Seq<CommitView>) -> Seq<CommitView>
    decreases cs.len(),
{
    if cs.len() == 0 {
        Seq::empty()
    } else if landed(u, cs.last()) {
        unlanded(u, cs.drop_last())
    } else {
        unlanded(u, cs.drop_last()).push(cs.last())
    }
}

/// A section empties when every one of its commits landed upstream.
pub open spec fn emptied(u: Upstream, s: SectionView) -> bool {
    unlanded(u, s.commits).len() == 0
}

/// The index of the first of the sections `ss[..i]` labelled `l`, or -1.
pub open spec fn label_index(ss: Seq<SectionView>, l: Seq<char>, i: int) -> int
    decreases i,
{
    if i <= 0 {
        -1
    } else {
        let r = label_index(ss, l, i - 1);
        if r >= 0 {
            r
        } else if ss[i - 1].label == l {
            i - 1
        } else {
            -1
        }
    }
}

/// The base of section `i` once the emptied sections are gone: a branch
/// stacked on an emptied branch moves down to that branch's own base, as far
/// as needed.
pub open spec fn new_base(u: Upstream, ss: Seq<SectionView>, i: int) -> Option<Seq<char>>
    decreases i,
{
    match ss[i].base {
        None => None,
        Some(l) => {
            let j = label_index(ss, l, i);
            if 0 <= j < i && emptied(u, ss[j]) {
                new_base(u, ss, j)
            } else {
                Some(l)
            }
        },
    }
}

/// The first `i` sections with their unlanded commits and new bases, leaving
/// out those that emptied.
pub open spec fn kept_upto(u: Upstream, ss: Seq<SectionView>, i: int) -> Seq<SectionView>
    decreases i,
{
    if i <= 0 {
        Seq::empty()
    } else {
        let rest = kept_upto(u, ss, i - 1);
        if emptied(u, ss[i - 1]) {
            rest
        } else {
            rest.push(
                SectionView {
                    label: ss[i - 1].label,
                    base: new_base(u, ss, i - 1),
                    commits: unlanded(u, ss[i - 1].commits),
                },
            )
        }
    }
}

/// The sections that stay.
pub open spec fn kept_sections(u: Upstream, ss: Seq<SectionView>) -> Seq<SectionView> {
    kept_upto(u, ss, ss.len() as int)
}

/// The labels of the sections that emptied: branches fully merged upstream.
pub open spec fn emptied_labels(u: Upstream, ss: Seq<SectionView>) -> Seq<Seq<char>>
    decreases ss.len(),
{
    if ss.len() == 0 {
        Seq::empty()
    } else {
        let rest = emptied_labels(u, ss.drop_last());
        if unlanded(u, ss.last().commits).len() == 0 {
            rest.push(ss.last().label)
        } else {
            rest
        }
    }
}

/// Whether a step of the integration line stays: a pick of an unlanded commit,
/// or the merge of a section that did not empty.
pub open spec fn entry_kept(u: Upstream, gone: Seq<Seq<char>>, e: EntryView) -> bool {
    match e {
        EntryView::Pick(c) => !landed(u, c),
        EntryView::Merge { label, .. } => !gone.contains(label),
    }
}

/// The steps of the integration line that stay, in order.
pub open spec fn kept_entries(u: Upstream, gone: Seq<Seq<char>>, es: Seq<EntryView>) -> Seq<EntryView>
    decreases es.len(),
{
    if es.len() == 0 {
        Seq::empty()
    } else if entry_kept(u, gone, es.last()) {
        kept_entries(u, gone, es.drop_last()).push(es.last())
    } else {
        kept_entries(u, gone, es.drop_last())
    }
}

/// The weave without the commits that landed upstream: a section that
/// empties goes, and its merge with it.
pub open spec fn without_landed(u: Upstream, w: WeaveView) -> WeaveView {
    WeaveView {
        sections: kept_sections(u, w.sections),
        line: kept_entries(u, emptied_labels(u, w.sections), w.line),
    }
}

fn is_landed(u: &Upstream, c: &WeaveCommit) -> (res: bool)
    ensures
        res == landed(*u, c@),
{
    contains_word(u.merged.as_slice(), c.oid.as_str()) || contains_word(
        u.patch_ids.as_slice(),
        c.patch_id.as_str(),
    )
}

fn copy_commit(c: &WeaveCommit) -> (res: WeaveCommit)
    ensures
        res@ == c@,
{
    WeaveCommit { oid: c.oid.clone(), message: c.message.clone(), patch_id: c.patch_id.clone() }
}

fn unlanded_commits(u: &Upstream, cs: &Vec<WeaveCommit>) -> (res: Vec<WeaveCommit>)
    ensures
        commits_view(res@) == unlanded(*u, commits_view(cs@)),
{
    let ghost v = commits_view(cs@);
    let mut out: Vec<WeaveCommit> = Vec::new();
    let n = cs.len();
    let mut i: usize = 0;
    assert(v.subrange(0, 0) =~= Seq::<CommitView>::empty());
    assert(commits_view(out@) =~= Seq::<CommitView>::empty());
    while i < n
        invariant
            n == cs@.len(),
            v == commits_view(cs@),
            i <= n,
            commits_view(out@) == unlanded(*u, v.subrange(0, i as int)),
        decreases n - i,
    {
        let ghost sub = v.subrange(0, i + 1);
        assert(sub.drop_last() =~= v.subrange(0, i as int));
        assert(sub.last() == cs@[i as int]@);
        if !is_landed(u, &cs[i]) {
            let ghost before = out@;
            out.push(copy_commit(&cs[i]));
            assert(commits_view(out@) =~= commits_view(before).push(cs@[i as int]@));
        }
        i = i + 1;
    }
    assert(v.subrange(0, n as int) =~= v);
    out
}

fn copy_entry(e: &LineEntry) -> (res: LineEntry)
    ensures
        res@ == e@,
{
    match e {
        LineEntry::Pick(c) => LineEntry::Pick(copy_commit(c)),
        LineEntry::Merge { label, oid } => LineEntry::Merge { label: label.clone(), oid: oid.clone() },
    }
}

proof fn lemma_label_index(ss: Seq<SectionView>, l: Seq<char>, i: int)
    requires
        0 <= i <= ss.len(),
    ensures
        -1 <= label_index(ss, l, i) < i,
        label_index(ss, l, i) >= 0 ==> ss[label_index(ss, l, i)].label == l,
        label_index(ss, l, i) < 0 ==> forall|t: int| 0 <= t < i ==> (#[trigger] ss[t]).label != l,
    decreases i,
{
    if i > 0 {
        lemma_label_index(ss, l, i - 1);
    }
}

/// The index of the first of `sections[..i]` labelled `l`.
fn find_label(sections: &Vec<BranchSection>, l: &str, i: usize) -> (res: Option<usize>)
    requires
        i <= sections@.len(),
    ensures
        ({
            let j = label_index(sections_view(sections@), l@, i as int);
            if j < 0 {
                res is None
            } else {
                res matches Some(k) && k as int == j
            }
        }),
{
    let ghost ss = sections_view(sections@);
    let mut k: usize = 0;
    while k < i
        invariant
            i <= sections@.len(),
            ss == sections_view(sections@),
            k <= i,
            label_index(ss, l@, k as int) == -1,
        decreases i - k,
    {
        if str_eq(sections[k].label.as_str(), l) {
            proof {
                assert(ss[k as int].label == l@);
                assert(label_index(ss, l@, k + 1) == k);
                lemma_label_index_stable(ss, l@, k + 1, i as int);
            }
            return Some(k);
        }
        proof {
            assert(ss[k as int].label == sections@[k as int].label@);
        }
        k = k + 1;
    }
    None
}

proof fn lemma_label_index_stable(ss: Seq<SectionView>, l: Seq<char>, k: int, i: int)
    requires
        0 <= k <= i,
        label_index(ss, l, k) >= 0,
    ensures
        label_index(ss, l, i) == label_index(ss, l, k),
    decreases i - k,
{
    if i > k {
        lemma_label_index_stable(ss, l, k, i - 1);
    }
}

fn copy_label(l: &Option<String>) -> (res: Option<String>)
    ensures
        res.deep_view() == l.deep_view(),
{
    match l {
        Some(s) => Some(s.clone()),
        None => None,
    }
}

/// Drops the commits that landed upstream, as `without_landed` says, and
/// returns the labels of the branches that emptied: those fully merged
/// upstream, which are offered for removal after the rebase. A branch stacked
/// on an emptied branch is moved down to that branch's base.
pub fn drop_landed(weave: &Weave, upstream: &Upstream) -> (res: (Weave, Vec<String>))
    ensures
        res.0@ == without_landed(*upstream, weave@),
        res.1.deep_view() == emptied_labels(*upstream, weave@.sections),
{
    let ghost w = weave@;
    let mut sections: Vec<BranchSection> = Vec::new();
    let mut gone: Vec<String> = Vec::new();
    // The new base and the emptiness of every section seen so far.
    let mut bases: Vec<Option<String>> = Vec::new();
    let mut empties: Vec<bool> = Vec::new();
    let n = weave.branch_sections.len();
    let mut i: usize = 0;
    assert(w.sections.subrange(0, 0) =~= Seq::<SectionView>::empty());
    assert(sections_view(sections@) =~= Seq::<SectionView>::empty());
    assert(gone.deep_view() =~= Seq::<Seq<char>>::empty());
    while i < n
        invariant
            n == weave.branch_sections@.len(),
            w == weave@,
            w.sections.len() == n,
            i <= n,
            bases@.len() == i,
            empties@.len() == i,
            forall|t: int| 0 <= t < i ==> (#[trigger] bases@[t]).deep_view() == new_base(*upstream, w.sections, t),
            forall|t: int| 0 <= t < i ==> #[trigger] empties@[t] == emptied(*upstream, w.sections[t]),
            sections_view(sections@) == kept_upto(*upstream, w.sections, i as int),
            gone.deep_view() == emptied_labels(*upstream, w.sections.subrange(0, i as int)),
        decreases n - i,
    {
        let ghost sub = w.sections.subrange(0, i + 1);
        assert(sub.drop_last() =~= w.sections.subrange(0, i as int));
        assert(sub.last() == weave.branch_sections@[i as int]@);
        assert(w.sections[i as int] == weave.branch_sections@[i as int]@);
        let section = &weave.branch_sections[i];
        let base = match &section.base {
            None => None,
            Some(l) => {
                proof {
                    lemma_label_index(w.sections, l@, i as int);
                }
                match find_label(&weave.branch_sections, l.as_str(), i) {
                    Some(j) => if empties[j] {
                        copy_label(&bases[j])
                    } else {
                        Some(l.clone())
                    },
                    None => Some(l.clone()),
                }
            },
        };
        assert(base.deep_view() == new_base(*upstream, w.sections, i as int));
        let kept = unlanded_commits(upstream, &section.commits);
        let is_empty = kept.len() == 0;
        let ghost before_bases = bases@;
        let ghost before_empties = empties@;
        if is_empty {
            let ghost before = gone.deep_view();
            gone.push(section.label.clone());
            assert(gone.deep_view() =~= before.push(section.label@));
            bases.push(base);
        } else {
            let ghost before = sections@;
            let view_base = copy_label(&base);
            bases.push(base);
            sections.push(BranchSection { label: section.label.clone(), base: view_base, commits: kept });
            assert(sections_view(sections@) =~= sections_view(before).push(
                SectionView {
                    label: section.label@,
                    base: new_base(*upstream, w.sections, i as int),
                    commits: unlanded(*upstream, section@.commits),
                },
            ));
        }
        empties.push(is_empty);
        assert forall|t: int| 0 <= t < i + 1 implies (#[trigger] bases@[t]).deep_view() == new_base(*upstream, w.sections, t) by {
            if t < i {
                assert(bases@[t] == before_bases[t]);
            }
        }
        assert forall|t: int| 0 <= t < i + 1 implies #[trigger] empties@[t] == emptied(*upstream, w.sections[t]) by {
            if t < i {
                assert(empties@[t] == before_empties[t]);
            }
        }
        i = i + 1;
    }
    assert(w.sections.subrange(0, n as int) =~= w.sections);
    let ghost gone_view = gone.deep_view();
    let mut line: Vec<LineEntry> = Vec::new();
    let m = weave.integration_line.len();
    let mut k: usize = 0;
    assert(w.line.subrange(0, 0) =~= Seq::<EntryView>::empty());
    assert(line_view(line@) =~= Seq::<EntryView>::empty());
    while k < m
        invariant
            m == weave.integration_line@.len(),
            w == weave@,
            k <= m,
            gone_view == gone.deep_view(),
            line_view(line@) == kept_entries(*upstream, gone_view, w.line.subrange(0, k as int)),
        decreases m - k,
    {
        let ghost sub = w.line.subrange(0, k + 1);
        assert(sub.drop_last() =~= w.line.subrange(0, k as int));
        assert(sub.last() == weave.integration_line@[k as int]@);
        let entry = &weave.integration_line[k];
        let keep = match entry {
            LineEntry::Pick(c) => !is_landed(upstream, c),
            LineEntry::Merge { label, .. } => !contains_word(gone.as_slice(), label.as_str()),
        };
        if keep {
            let ghost before = line@;
            line.push(copy_entry(entry));
            assert(line_view(line@) =~= line_view(before).push(entry@));
        }
        k = k + 1;
    }
    assert(w.line.subrange(0, m as int) =~= w.line);
    (Weave { branch_sections: sections, integration_line: line }, gone)
}

// ---------------------------------------------------------------------------
// The rebase todo
// ---------------------------------------------------------------------------

/// `pick <oid>` for each commit, in order.
pub open spec fn pick_lines(cs: Seq<CommitView>) -> Seq<char>
    decreases cs.len(),
{
    if cs.len() == 0 {
        Seq::empty()
    } else {
        pick_lines(cs.drop_last()) + "pick "@ + cs.last().oid + "\n"@
    }
}

/// Where a section starts: the upstream base, or the section it is stacked on.
pub open spec fn base_label(base: Option<Seq<char>>) -> Seq<char> {
    match base {
        None => "onto"@,
        Some(l) => l,
    }
}

/// A section replays its commits from its base, labels its tip, and moves its
/// branch there.
pub open spec fn section_text(s: SectionView) -> Seq<char> {
    "reset "@ + base_label(s.base) + "\n"@ + pick_lines(s.commits) + "label "@ + s.label + "\n"@
        + "update-ref refs/heads/"@ + s.label + "\n\n"@
}

/// The sections' texts, in order.
pub open spec fn sections_text(ss: Seq<SectionView>) -> Seq<char>
    decreases ss.len(),
{
    if ss.len() == 0 {
        Seq::empty()
    } else {
        sections_text(ss.drop_last()) + section_text(ss.last())
    }
}

/// One step of the integration line: a pick, or a merge of a section's label
/// that keeps the original merge commit's message.
pub open spec fn entry_text(e: EntryView) -> Seq<char> {
    match e {
        EntryView::Pick(c) => "pick "@ + c.oid + "\n"@,
        EntryView::Merge { label, oid } => "merge -C "@ + oid + " "@ + label + "\n"@,
    }
}

/// The integration line's steps, in order.
pub open spec fn entries_text(es: Seq<EntryView>) -> Seq<char>
    decreases es.len(),
{
    if es.len() == 0 {
        Seq::empty()
    } else {
        entries_text(es.drop_last()) + entry_text(es.last())
    }
}

/// The whole todo: label the base, build each section on it, then replay the
/// integration line from the base.
pub open spec fn todo_text(w: WeaveView) -> Seq<char> {
    "label onto\n\n"@ + sections_text(w.sections) + "reset onto\n"@ + entries_text(w.line)
}

fn append_section(todo: &mut String, section: &BranchSection)
    ensures
        final(todo)@ == old(todo)@ + section_text(section@),
{
    let ghost start = todo@;
    todo.append("reset ");
    match &section.base {
        None => todo.append("onto"),
        Some(l) => todo.append(l.as_str()),
    }
    todo.append("\n");
    let ghost after_reset = todo@;
    let cs = &section.commits;
    let ghost v = commits_view(cs@);
    let mut i: usize = 0;
    assert(v.subrange(0, 0) =~= Seq::<CommitView>::empty());
    assert(after_reset + Seq::<char>::empty() =~= after_reset);
    while i < cs.len()
        invariant
            i <= cs@.len(),
            v == commits_view(cs@),
            todo@ == after_reset + pick_lines(v.subrange(0, i as int)),
        decreases cs@.len() - i,
    {
        todo.append("pick ");
        todo.append(cs[i].oid.as_str());
        todo.append("\n");
        proof {
            let sub = v.subrange(0, i + 1);
            assert(sub.drop_last() =~= v.subrange(0, i as int));
            assert(sub.last() == cs@[i as int]@);
            assert(todo@ =~= after_reset + pick_lines(sub));
        }
        i = i + 1;
    }
    assert(v.subrange(0, cs@.len() as int) =~= v);
    todo.append("label ");
    todo.append(section.label.as_str());
    todo.append("\n");
    todo.append("update-ref refs/heads/");
    todo.append(section.label.as_str());
    todo.append("\n\n");
    assert(todo@ =~= start + section_text(section@));
}

fn append_entry(todo: &mut String, entry: &LineEntry)
    ensures
        final(todo)@ == old(todo)@ + entry_text(entry@),
{
    let ghost start = todo@;
    match entry {
        LineEntry::Pick(c) => {
            todo.append("pick ");
            todo.append(c.oid.as_str());
            todo.append("\n");
        },
        LineEntry::Merge { label, oid } => {
            todo.append("merge -C ");
            todo.append(oid.as_str());
            todo.append(" ");
            todo.append(label.as_str());
            todo.append("\n");
        },
    }
    assert(todo@ =~= start + entry_text(entry@));
}

/// The rebase todo that rebuilds the weave, as `todo_text` says.
pub fn to_todo(weave: &Weave) -> (res: String)
    ensures
        res@ == todo_text(weave@),
{
    let ghost w = weave@;
    let mut todo = String::from_str("label onto\n\n");
    let ghost header = todo@;
    let mut i: usize = 0;
    assert(w.sections.subrange(0, 0) =~= Seq::<SectionView>::empty());
    assert(header + Seq::<char>::empty() =~= header);
    while i < weave.branch_sections.len()
        invariant
            i <= weave.branch_sections@.len(),
            w == weave@,
            header == "label onto\n\n"@,
            todo@ == header + sections_text(w.sections.subrange(0, i as int)),
        decreases weave.branch_sections@.len() - i,
    {
        append_section(&mut todo, &weave.branch_sections[i]);
        proof {
            let sub = w.sections.subrange(0, i + 1);
            assert(sub.drop_last() =~= w.sections.subrange(0, i as int));
            assert(sub.last() == weave.branch_sections@[i as int]@);
            assert(todo@ =~= header + sections_text(sub));
        }
        i = i + 1;
    }
    assert(w.sections.subrange(0, weave.branch_sections@.len() as int) =~= w.sections);
    todo.append("reset onto\n");
    let ghost mid = todo@;
    let mut k: usize = 0;
    assert(w.line.subrange(0, 0) =~= Seq::<EntryView>::empty());
    assert(mid + Seq::<char>::empty() =~= mid);
    while k < weave.integration_line.len()
        invariant
            k <= weave.integration_line@.len(),
            w == weave@,
            todo@ == mid + entries_text(w.line.subrange(0, k as int)),
        decreases weave.integration_line@.len() - k,
    {
        append_entry(&mut todo, &weave.integration_line[k]);
        proof {
            let sub = w.line.subrange(0, k + 1);
            assert(sub.drop_last() =~= w.line.subrange(0, k as int));
            assert(sub.last() == weave.integration_line@[k as int]@);
            assert(todo@ =~= mid + entries_text(sub));
        }
        k = k + 1;
    }
    assert(w.line.subrange(0, weave.integration_line@.len() as int) =~= w.line);
    assert(todo@ =~= todo_text(w));
    todo
}

// ---------------------------------------------------------------------------
// Laws
// ---------------------------------------------------------------------------

/// Every commit stands once in a weave: within a section, across sections, on
/// the integration line, and between the line and the sections.
pub open spec fn distinct_oids(w: WeaveView) -> bool {
    &&& forall|s: int, j1: int, j2: int|
        0 <= s < w.sections.len() && 0 <= j1 < w.sections[s].commits.len() && 0 <= j2
            < w.sections[s].commits.len() && j1 != j2 ==> (#[trigger] w.sections[s].commits[j1]).oid
            != (#[trigger] w.sections[s].commits[j2]).oid
    &&& forall|s1: int, s2: int, j1: int, j2: int|
        0 <= s1 < w.sections.len() && 0 <= s2 < w.sections.len() && s1 != s2 && 0 <= j1
            < w.sections[s1].commits.len() && 0 <= j2 < w.sections[s2].commits.len() ==> (
        #[trigger] w.sections[s1].commits[j1]).oid != (#[trigger] w.sections[s2].commits[j2]).oid
    &&& forall|k1: int, k2: int, oid: Seq<char>|
        0 <= k1 < w.line.len() && 0 <= k2 < w.line.len() && k1 != k2 && #[trigger] picks(
            w.line[k1],
            oid,
        ) ==> !#[trigger] picks(w.line[k2], oid)
    &&& forall|s: int, j: int, k: int|
        0 <= s < w.sections.len() && 0 <= j < w.sections[s].commits.len() && 0 <= k < w.line.len()
            ==> !picks(#[trigger] w.line[k], (#[trigger] w.sections[s].commits[j]).oid)
}

proof fn lemma_commit_index_at(cs: Seq<CommitView>, oid: Seq<char>, j: int)
    requires
        0 <= j < cs.len(),
        cs[j].oid == oid,
        forall|k: int| 0 <= k < j ==> (#[trigger] cs[k]).oid != oid,
    ensures
        commit_index(cs, oid) == j,
{
    lemma_commit_index(cs, oid);
    let r = commit_index(cs, oid);
    if r < 0 {
        assert(cs[j].oid != oid);
    } else if r < j {
        assert(cs[r].oid != oid);
    } else if r > j {
        assert(cs[j].oid != oid);
    }
}

proof fn lemma_line_index_at(es: Seq<EntryView>, oid: Seq<char>, k: int)
    requires
        0 <= k < es.len(),
        picks(es[k], oid),
        forall|i: int| 0 <= i < k ==> !picks(#[trigger] es[i], oid),
    ensures
        line_index(es, oid) == k,
{
    lemma_line_index(es, oid);
    let r = line_index(es, oid);
    if r < 0 {
        assert(!picks(es[k], oid));
    } else if r < k {
        assert(!picks(es[r], oid));
    } else if r > k {
        assert(!picks(es[k], oid));
    }
}

proof fn lemma_section_index_at(ss: Seq<SectionView>, oid: Seq<char>, s: int)
    requires
        0 <= s < ss.len(),
        commit_index(ss[s].commits, oid) >= 0,
        forall|t: int| 0 <= t < s ==> commit_index((#[trigger] ss[t]).commits, oid) < 0,
    ensures
        section_index(ss, oid) == s,
{
    lemma_section_index(ss, oid);
    let r = section_index(ss, oid);
    if r < 0 {
        assert(commit_index(ss[s].commits, oid) < 0);
    } else if r < s {
        assert(commit_index(ss[r].commits, oid) < 0);
    } else if r > s {
        assert(commit_index(ss[s].commits, oid) < 0);
    }
}

/// Where a commit moved by a swap within a section now stands.
proof fn lemma_locate_after_section_swap(w: WeaveView, w1: WeaveView, s: int, j1: int, j2: int, x: Seq<char>, from: int, to: int)
    requires
        distinct_oids(w),
        0 <= s < w.sections.len(),
        0 <= j1 < w.sections[s].commits.len(),
        0 <= j2 < w.sections[s].commits.len(),
        (from == j1 && to == j2) || (from == j2 && to == j1),
        w.sections[s].commits[from].oid == x,
        forall|t: int| 0 <= t < s ==> commit_index((#[trigger] w.sections[t]).commits, x) < 0,
        w1 == (WeaveView {
            sections: w.sections.update(
                s,
                SectionView {
                    label: w.sections[s].label,
                    base: w.sections[s].base,
                    commits: swap_seq(w.sections[s].commits, j1, j2),
                },
            ),
            line: w.line,
        }),
    ensures
        locate(w1, x) == Some(Location::InSection(s, to)),
{
    let cs = w.sections[s].commits;
    let cs1 = swap_seq(cs, j1, j2);
    assert(w1.sections[s].commits == cs1);
    assert(cs1[to] == cs[from]);
    assert forall|k: int| 0 <= k < to implies (#[trigger] cs1[k]).oid != x by {
        if k == j1 {
            assert(cs1[k] == cs[j2]);
        } else if k == j2 {
            assert(cs1[k] == cs[j1]);
        } else {
            assert(cs1[k] == cs[k]);
        }
        if k == from {
            assert(w.sections[s].commits[to].oid != w.sections[s].commits[from].oid);
        }
    }
    lemma_commit_index_at(cs1, x, to);
    assert forall|t: int| 0 <= t < s implies commit_index((#[trigger] w1.sections[t]).commits, x) < 0 by {
        assert(w1.sections[t] == w.sections[t]);
    }
    lemma_section_index_at(w1.sections, x, s);
}

/// Where a commit moved by a swap on the integration line now stands.
proof fn lemma_locate_after_line_swap(w: WeaveView, w1: WeaveView, k1: int, k2: int, x: Seq<char>, from: int, to: int)
    requires
        distinct_oids(w),
        0 <= k1 < w.line.len(),
        0 <= k2 < w.line.len(),
        (from == k1 && to == k2) || (from == k2 && to == k1),
        picks(w.line[from], x),
        section_index(w.sections, x) < 0,
        w1 == (WeaveView { sections: w.sections, line: swap_seq(w.line, k1, k2) }),
    ensures
        locate(w1, x) == Some(Location::OnLine(to)),
{
    let es = w.line;
    let es1 = swap_seq(es, k1, k2);
    assert(es1[to] == es[from]);
    assert forall|k: int| 0 <= k < to implies !picks(#[trigger] es1[k], x) by {
        if k == k1 {
            assert(es1[k] == es[k2]);
        } else if k == k2 {
            assert(es1[k] == es[k1]);
        } else {
            assert(es1[k] == es[k]);
        }
        if k == from {
            assert(picks(w.line[from], x));
            assert(!picks(w.line[to], x));
        }
    }
    lemma_line_index_at(es1, x, to);
}

/// Swapping the same two commits again undoes a swap.
pub proof fn lemma_swap_undone(w: WeaveView, a: Seq<char>, b: Seq<char>)
    requires
        distinct_oids(w),
        swap_result(w, a, b) is Ok,
    ensures
        swap_result(swap_result(w, a, b)->Ok_0, a, b) is Ok,
        swap_result(swap_result(w, a, b)->Ok_0, a, b)->Ok_0 == w,
{
    let w1 = swap_result(w, a, b)->Ok_0;
    lemma_section_index(w.sections, a);
    lemma_section_index(w.sections, b);
    lemma_line_index(w.line, a);
    lemma_line_index(w.line, b);
    match (locate(w, a), locate(w, b)) {
        (Some(Location::InSection(s, j1)), Some(Location::InSection(s2, j2))) => {
            assert(s == s2);
            lemma_commit_index(w.sections[s].commits, a);
            lemma_commit_index(w.sections[s].commits, b);
            lemma_locate_after_section_swap(w, w1, s, j1, j2, a, j1, j2);
            lemma_locate_after_section_swap(w, w1, s, j1, j2, b, j2, j1);
            let cs = w.sections[s].commits;
            let back = swap_seq(swap_seq(cs, j1, j2), j2, j1);
            assert(back =~= cs);
            let w2 = swap_result(w1, a, b)->Ok_0;
            assert(w1.sections[s].commits == swap_seq(cs, j1, j2));
            assert(w2.sections =~= w.sections);
        },
        (Some(Location::OnLine(k1)), Some(Location::OnLine(k2))) => {
            lemma_locate_after_line_swap(w, w1, k1, k2, a, k1, k2);
            lemma_locate_after_line_swap(w, w1, k1, k2, b, k2, k1);
            let back = swap_seq(swap_seq(w.line, k1, k2), k2, k1);
            assert(back =~= w.line);
        },
        _ => {},
    }
}

proof fn lemma_unlanded(u: Upstream, cs: Seq<CommitView>)
    ensures
        forall|i: int| 0 <= i < unlanded(u, cs).len() ==> !landed(u, #[trigger] unlanded(u, cs)[i]),
        (forall|i: int| 0 <= i < cs.len() ==> !landed(u, #[trigger] cs[i])) ==> unlanded(u, cs) == cs,
    decreases cs.len(),
{
    if cs.len() > 0 {
        let init = cs.drop_last();
        lemma_unlanded(u, init);
        let r = unlanded(u, cs);
        assert forall|i: int| 0 <= i < r.len() implies !landed(u, #[trigger] r[i]) by {
            if !landed(u, cs.last()) && i == r.len() - 1 {
                assert(r[i] == cs.last());
            } else {
                assert(r[i] == unlanded(u, init)[i]);
            }
        }
        if forall|i: int| 0 <= i < cs.len() ==> !landed(u, #[trigger] cs[i]) {
            assert forall|i: int| 0 <= i < init.len() implies !landed(u, #[trigger] init[i]) by {
                assert(init[i] == cs[i]);
            }
            assert(!landed(u, cs[cs.len() - 1]));
            assert(init.push(cs.last()) =~= cs);
        }
    } else {
        assert(cs =~= Seq::<CommitView>::empty());
    }
}

/// A section that stays has commits, and none of them landed.
pub open spec fn section_clean(u: Upstream, s: SectionView) -> bool {
    &&& s.commits.len() > 0
    &&& forall|j: int| 0 <= j < s.commits.len() ==> !landed(u, #[trigger] s.commits[j])
}

proof fn lemma_clean_not_emptied(u: Upstream, s: SectionView)
    requires
        section_clean(u, s),
    ensures
        !emptied(u, s),
        unlanded(u, s.commits) == s.commits,
{
    lemma_unlanded(u, s.commits);
}

proof fn lemma_kept_upto(u: Upstream, ss: Seq<SectionView>, i: int)
    requires
        0 <= i <= ss.len(),
    ensures
        forall|t: int| 0 <= t < kept_upto(u, ss, i).len() ==> section_clean(u, #[trigger] kept_upto(u, ss, i)[t]),
    decreases i,
{
    if i > 0 {
        lemma_kept_upto(u, ss, i - 1);
        lemma_unlanded(u, ss[i - 1].commits);
        let r = kept_upto(u, ss, i);
        let q = kept_upto(u, ss, i - 1);
        assert forall|t: int| 0 <= t < r.len() implies section_clean(u, #[trigger] r[t]) by {
            if t < q.len() {
                assert(r[t] == q[t]);
            }
        }
    }
}

proof fn lemma_new_base_clean(u: Upstream, ss: Seq<SectionView>, i: int)
    requires
        0 <= i < ss.len(),
        forall|t: int| 0 <= t < ss.len() ==> section_clean(u, #[trigger] ss[t]),
    ensures
        new_base(u, ss, i) == ss[i].base,
{
    match ss[i].base {
        None => {},
        Some(l) => {
            lemma_label_index(ss, l, i);
            let j = label_index(ss, l, i);
            if 0 <= j < i {
                lemma_clean_not_emptied(u, ss[j]);
            }
        },
    }
}

proof fn lemma_kept_upto_of_clean(u: Upstream, ss: Seq<SectionView>, i: int)
    requires
        0 <= i <= ss.len(),
        forall|t: int| 0 <= t < ss.len() ==> section_clean(u, #[trigger] ss[t]),
    ensures
        kept_upto(u, ss, i) == ss.subrange(0, i),
    decreases i,
{
    if i > 0 {
        lemma_kept_upto_of_clean(u, ss, i - 1);
        lemma_clean_not_emptied(u, ss[i - 1]);
        lemma_new_base_clean(u, ss, i - 1);
        assert(kept_upto(u, ss, i - 1).push(ss[i - 1]) =~= ss.subrange(0, i));
    } else {
        assert(ss.subrange(0, 0) =~= Seq::<SectionView>::empty());
    }
}

proof fn lemma_emptied_labels_of_clean(u: Upstream, ss: Seq<SectionView>)
    requires
        forall|t: int| 0 <= t < ss.len() ==> section_clean(u, #[trigger] ss[t]),
    ensures
        emptied_labels(u, ss) == Seq::<Seq<char>>::empty(),
    decreases ss.len(),
{
    if ss.len() > 0 {
        let init = ss.drop_last();
        assert forall|t: int| 0 <= t < init.len() implies section_clean(u, #[trigger] init[t]) by {
            assert(init[t] == ss[t]);
        }
        lemma_emptied_labels_of_clean(u, init);
        assert(section_clean(u, ss[ss.len() - 1]));
        lemma_clean_not_emptied(u, ss.last());
    }
}

proof fn lemma_kept_entries(u: Upstream, gone: Seq<Seq<char>>, es: Seq<EntryView>)
    ensures
        forall|k: int|
            0 <= k < kept_entries(u, gone, es).len() ==> entry_kept(
                u,
                gone,
                #[trigger] kept_entries(u, gone, es)[k],
            ),
        (forall|k: int| 0 <= k < es.len() ==> entry_kept(u, gone, #[trigger] es[k])) ==> kept_entries(
            u,
            gone,
            es,
        ) == es,
    decreases es.len(),
{
    if es.len() > 0 {
        let init = es.drop_last();
        lemma_kept_entries(u, gone, init);
        let r = kept_entries(u, gone, es);
        assert forall|k: int| 0 <= k < r.len() implies entry_kept(u, gone, #[trigger] r[k]) by {
            if entry_kept(u, gone, es.last()) && k == r.len() - 1 {
                assert(r[k] == es.last());
            } else {
                assert(r[k] == kept_entries(u, gone, init)[k]);
            }
        }
        if forall|k: int| 0 <= k < es.len() ==> entry_kept(u, gone, #[trigger] es[k]) {
            assert forall|k: int| 0 <= k < init.len() implies entry_kept(u, gone, #[trigger] init[k]) by {
                assert(init[k] == es[k]);
            }
            assert(entry_kept(u, gone, es[es.len() - 1]));
            assert(init.push(es.last()) =~= es);
        }
    } else {
        assert(es =~= Seq::<EntryView>::empty());
    }
}

/// After dropping what landed upstream, no remaining commit landed, no
/// section is empty, and dropping again changes nothing.
pub proof fn lemma_drop_landed_settles(u: Upstream, w: WeaveView)
    ensures
        forall|t: int|
            0 <= t < without_landed(u, w).sections.len() ==> section_clean(
                u,
                #[trigger] without_landed(u, w).sections[t],
            ),
        forall|k: int|
            0 <= k < without_landed(u, w).line.len() ==> match #[trigger] without_landed(u, w).line[k] {
                EntryView::Pick(c) => !landed(u, c),
                EntryView::Merge { .. } => true,
            },
        without_landed(u, without_landed(u, w)) == without_landed(u, w),
{
    let w1 = without_landed(u, w);
    let gone = emptied_labels(u, w.sections);
    lemma_kept_upto(u, w.sections, w.sections.len() as int);
    lemma_kept_upto_of_clean(u, w1.sections, w1.sections.len() as int);
    assert(w1.sections.subrange(0, w1.sections.len() as int) =~= w1.sections);
    lemma_emptied_labels_of_clean(u, w1.sections);
    lemma_kept_entries(u, gone, w.line);
    assert forall|k: int| 0 <= k < w1.line.len() implies match #[trigger] w1.line[k] {
        EntryView::Pick(c) => !landed(u, c),
        EntryView::Merge { .. } => true,
    } by {
        assert(entry_kept(u, gone, w1.line[k]));
    }
    let none = Seq::<Seq<char>>::empty();
    assert(emptied_labels(u, w1.sections) == none);
    assert forall|k: int| 0 <= k < w1.line.len() implies entry_kept(u, none, #[trigger] w1.line[k]) by {
        assert(entry_kept(u, gone, w1.line[k]));
        match w1.line[k] {
            EntryView::Pick(c) => {},
            EntryView::Merge { label, .. } => {
                assert(!none.contains(label));
            },
        }
    }
    lemma_kept_entries(u, none, w1.line);
}

proof fn lemma_unlanded_keeps(u: Upstream, cs: Seq<CommitView>)
    ensures
        forall|j: int|
            0 <= j < cs.len() && !(u.merged.deep_view().contains((#[trigger] cs[j]).oid)
                || u.patch_ids.deep_view().contains(cs[j].patch_id)) ==> unlanded(u, cs).contains(cs[j]),
    decreases cs.len(),
{
    if cs.len() > 0 {
        let init = cs.drop_last();
        lemma_unlanded_keeps(u, init);
        let r = unlanded(u, cs);
        let q = unlanded(u, init);
        assert forall|j: int|
            0 <= j < cs.len() && !(u.merged.deep_view().contains((#[trigger] cs[j]).oid)
                || u.patch_ids.deep_view().contains(cs[j].patch_id)) implies r.contains(cs[j]) by {
            if j < init.len() {
                assert(init[j] == cs[j]);
                let k = choose|k: int| 0 <= k < q.len() && q[k] == cs[j];
                if !landed(u, cs.last()) {
                    assert(r[k] == q[k]);
                }
            } else {
                assert(cs[j] == cs.last());
                assert(r[r.len() - 1] == cs.last());
            }
        }
    }
}

proof fn lemma_kept_upto_holds(u: Upstream, ss: Seq<SectionView>, i: int)
    requires
        0 <= i <= ss.len(),
    ensures
        forall|s: int|
            0 <= s < i && !emptied(u, #[trigger] ss[s]) ==> exists|t: int|
                0 <= t < kept_upto(u, ss, i).len() && (#[trigger] kept_upto(u, ss, i)[t]).label
                    == ss[s].label && kept_upto(u, ss, i)[t].commits == unlanded(u, ss[s].commits),
    decreases i,
{
    if i > 0 {
        lemma_kept_upto_holds(u, ss, i - 1);
        let r = kept_upto(u, ss, i);
        let q = kept_upto(u, ss, i - 1);
        assert forall|s: int| 0 <= s < i && !emptied(u, #[trigger] ss[s]) implies exists|t: int|
            0 <= t < r.len() && (#[trigger] r[t]).label == ss[s].label && r[t].commits == unlanded(
                u,
                ss[s].commits,
            ) by {
            if s < i - 1 {
                let t = choose|t: int|
                    0 <= t < q.len() && (#[trigger] q[t]).label == ss[s].label && q[t].commits
                        == unlanded(u, ss[s].commits);
                if !emptied(u, ss[i - 1]) {
                    assert(r[t] == q[t]);
                }
                assert(r[t] == q[t]);
            } else {
                assert(r[r.len() - 1].label == ss[s].label);
            }
        }
    }
}

/// No commit that did not land upstream is lost: every commit of a section
/// that is neither an ancestor of upstream nor matched by a new upstream
/// commit's patch ID stays, in a section with the same label. So a section
/// is dropped only when every one of its commits landed.
pub proof fn lemma_no_unlanded_commit_is_lost(u: Upstream, w: WeaveView)
    ensures
        forall|s: int, j: int|
            0 <= s < w.sections.len() && 0 <= j < w.sections[s].commits.len() && !(
            u.merged.deep_view().contains((#[trigger] w.sections[s].commits[j]).oid)
                || u.patch_ids.deep_view().contains(w.sections[s].commits[j].patch_id))
                ==> exists|t: int|
                0 <= t < without_landed(u, w).sections.len() && (#[trigger] without_landed(
                    u,
                    w,
                ).sections[t]).label == w.sections[s].label && without_landed(u, w).sections[t].commits.contains(
                    w.sections[s].commits[j],
                ),
{
    let ss = w.sections;
    lemma_kept_upto_holds(u, ss, ss.len() as int);
    assert forall|s: int, j: int|
        0 <= s < ss.len() && 0 <= j < ss[s].commits.len() && !(u.merged.deep_view().contains(
            (#[trigger] w.sections[s].commits[j]).oid,
        ) || u.patch_ids.deep_view().contains(w.sections[s].commits[j].patch_id)) implies exists|t: int|
        0 <= t < without_landed(u, w).sections.len() && (#[trigger] without_landed(u, w).sections[t]).label
            == w.sections[s].label && without_landed(u, w).sections[t].commits.contains(
            w.sections[s].commits[j],
        ) by {
        lemma_unlanded_keeps(u, ss[s].commits);
        assert(unlanded(u, ss[s].commits).contains(ss[s].commits[j]));
        assert(!emptied(u, ss[s]));
        let k = kept_upto(u, ss, ss.len() as int);
        let t = choose|t: int|
            0 <= t < k.len() && (#[trigger] k[t]).label == ss[s].label && k[t].commits == unlanded(
                u,
                ss[s].commits,
            );
        assert(without_landed(u, w).sections[t] == k[t]);
    }
}

/// A branch is reported fully merged only when it is the label of a section
/// every commit of which landed upstream, and every such section with commits
/// is reported.
pub proof fn lemma_emptied_means_fully_landed(u: Upstream, ss: Seq<SectionView>)
    ensures
        forall|k: int|
            #![trigger emptied_labels(u, ss)[k]]
            0 <= k < emptied_labels(u, ss).len() ==> exists|s: int|
                0 <= s < ss.len() && (#[trigger] ss[s]).label == emptied_labels(u, ss)[k] && forall|j: int|
                    0 <= j < ss[s].commits.len() ==> (u.merged.deep_view().contains(
                        (#[trigger] ss[s].commits[j]).oid,
                    ) || u.patch_ids.deep_view().contains(ss[s].commits[j].patch_id)),
        forall|s: int|
            0 <= s < ss.len() && (forall|j: int|
                0 <= j < (#[trigger] ss[s]).commits.len() ==> (u.merged.deep_view().contains(
                    (#[trigger] ss[s].commits[j]).oid,
                ) || u.patch_ids.deep_view().contains(ss[s].commits[j].patch_id)))
                ==> emptied_labels(u, ss).contains(ss[s].label),
    decreases ss.len(),
{
    if ss.len() > 0 {
        let init = ss.drop_last();
        lemma_emptied_means_fully_landed(u, init);
        let r = emptied_labels(u, ss);
        let q = emptied_labels(u, init);
        let last = ss.last();
        assert(ss[ss.len() - 1] == last);
        lemma_unlanded_keeps(u, last.commits);
        lemma_unlanded(u, last.commits);
        assert forall|k: int| #![trigger emptied_labels(u, ss)[k]]
            0 <= k < emptied_labels(u, ss).len() implies exists|s: int|
                0 <= s < ss.len() && (#[trigger] ss[s]).label == emptied_labels(u, ss)[k] && forall|j: int|
                    0 <= j < ss[s].commits.len() ==> (u.merged.deep_view().contains(
                        (#[trigger] ss[s].commits[j]).oid,
                    ) || u.patch_ids.deep_view().contains(ss[s].commits[j].patch_id)) by {
            if k < q.len() {
                assert(r[k] == q[k]);
                assert(q[k] == emptied_labels(u, init)[k]);
                let s = choose|s: int|
                    0 <= s < init.len() && (#[trigger] init[s]).label == emptied_labels(u, init)[k]
                        && forall|j: int|
                        0 <= j < init[s].commits.len() ==> (u.merged.deep_view().contains(
                            (#[trigger] init[s].commits[j]).oid,
                        ) || u.patch_ids.deep_view().contains(init[s].commits[j].patch_id));
                assert(ss[s] == init[s]);
            } else {
                assert(r[k] == last.label);
                assert forall|j: int| 0 <= j < last.commits.len() implies (u.merged.deep_view().contains(
                    (#[trigger] last.commits[j]).oid,
                ) || u.patch_ids.deep_view().contains(last.commits[j].patch_id)) by {
                    if !(u.merged.deep_view().contains(last.commits[j].oid)
                        || u.patch_ids.deep_view().contains(last.commits[j].patch_id)) {
                        assert(unlanded(u, last.commits).contains(last.commits[j]));
                    }
                }
            }
        }
        assert forall|s: int|
            0 <= s < ss.len() && (forall|j: int|
                0 <= j < (#[trigger] ss[s]).commits.len() ==> (u.merged.deep_view().contains(
                    (#[trigger] ss[s].commits[j]).oid,
                ) || u.patch_ids.deep_view().contains(ss[s].commits[j].patch_id)))
                implies r.contains(ss[s].label) by {
            if s < init.len() {
                assert(init[s] == ss[s]);
                assert forall|j: int| 0 <= j < init[s].commits.len() implies (u.merged.deep_view().contains(
                    (#[trigger] init[s].commits[j]).oid,
                ) || u.patch_ids.deep_view().contains(init[s].commits[j].patch_id)) by {
                    assert(ss[s].commits[j] == init[s].commits[j]);
                }
                assert(q.contains(ss[s].label));
                let k = choose|k: int| 0 <= k < q.len() && q[k] == ss[s].label;
                if unlanded(u, last.commits).len() == 0 {
                    assert(r[k] == q[k]);
                } else {
                    assert(r[k] == q[k]);
                }
            } else {
                let un = unlanded(u, last.commits);
                if un.len() > 0 {
                    assert(!landed(u, un[0]));
                    assert(false) by {
                        lemma_unlanded_members(u, last.commits);
                        let j = choose|j: int| 0 <= j < last.commits.len() && last.commits[j] == un[0];
                        assert(ss[s].commits[j] == last.commits[j]);
                    }
                }
                assert(r[r.len() - 1] == last.label);
            }
        }
    }
}

proof fn lemma_unlanded_members(u: Upstream, cs: Seq<CommitView>)
    ensures
        forall|k: int| 0 <= k < unlanded(u, cs).len() ==> cs.contains(#[trigger] unlanded(u, cs)[k]),
    decreases cs.len(),
{
    if cs.len() > 0 {
        let init = cs.drop_last();
        lemma_unlanded_members(u, init);
        let r = unlanded(u, cs);
        let q = unlanded(u, init);
        assert forall|k: int| 0 <= k < r.len() implies cs.contains(#[trigger] r[k]) by {
            if k < q.len() {
                assert(r[k] == q[k]);
                let j = choose|j: int| 0 <= j < init.len() && init[j] == q[k];
                assert(cs[j] == init[j]);
            } else {
                assert(r[k] == cs[cs.len() - 1]);
            }
        }
    }
}

/// `w1` differs from `w` only in that the commits `a` and `b` traded places:
/// every other commit keeps its index in its section, every other step of the
/// integration line keeps its index, labels and bases stay, and `a` stands
/// where `b` stood and `b` where `a` stood.
pub open spec fn moves_only(w: WeaveView, w1: WeaveView, a: Seq<char>, b: Seq<char>) -> bool {
    &&& w1.sections.len() == w.sections.len()
    &&& w1.line.len() == w.line.len()
    &&& forall|s: int|
        0 <= s < w.sections.len() ==> (#[trigger] w1.sections[s]).label == w.sections[s].label
            && w1.sections[s].base == w.sections[s].base && w1.sections[s].commits.len()
            == w.sections[s].commits.len()
    &&& forall|s: int, j: int|
        0 <= s < w.sections.len() && 0 <= j < w.sections[s].commits.len() && (
        #[trigger] w.sections[s].commits[j]).oid != a && w.sections[s].commits[j].oid != b
            ==> w1.sections[s].commits[j] == w.sections[s].commits[j]
    &&& forall|s: int, j: int|
        0 <= s < w.sections.len() && 0 <= j < w.sections[s].commits.len() && (
        #[trigger] w.sections[s].commits[j]).oid == a ==> exists|j2: int|
            0 <= j2 < w.sections[s].commits.len() && (#[trigger] w.sections[s].commits[j2]).oid == b
                && w1.sections[s].commits[j] == w.sections[s].commits[j2]
    &&& forall|s: int, j: int|
        0 <= s < w.sections.len() && 0 <= j < w.sections[s].commits.len() && (
        #[trigger] w.sections[s].commits[j]).oid == b ==> exists|j2: int|
            0 <= j2 < w.sections[s].commits.len() && (#[trigger] w.sections[s].commits[j2]).oid == a
                && w1.sections[s].commits[j] == w.sections[s].commits[j2]
    &&& forall|k: int|
        0 <= k < w.line.len() && !picks(#[trigger] w.line[k], a) && !picks(w.line[k], b)
            ==> w1.line[k] == w.line[k]
    &&& forall|k: int|
        0 <= k < w.line.len() && picks(#[trigger] w.line[k], a) ==> exists|k2: int|
            0 <= k2 < w.line.len() && picks(#[trigger] w.line[k2], b) && w1.line[k] == w.line[k2]
    &&& forall|k: int|
        0 <= k < w.line.len() && picks(#[trigger] w.line[k], b) ==> exists|k2: int|
            0 <= k2 < w.line.len() && picks(#[trigger] w.line[k2], a) && w1.line[k] == w.line[k2]
}

proof fn lemma_section_swap_shape(w: WeaveView, w1: WeaveView, a: Seq<char>, b: Seq<char>, s0: int, j1: int, j2: int)
    requires
        0 <= s0 < w.sections.len(),
        0 <= j1 < w.sections[s0].commits.len(),
        0 <= j2 < w.sections[s0].commits.len(),
        w.sections[s0].commits[j1].oid == a,
        w.sections[s0].commits[j2].oid == b,
        forall|j: int|
            0 <= j < w.sections[s0].commits.len() && (#[trigger] w.sections[s0].commits[j]).oid == a ==> j == j1,
        forall|j: int|
            0 <= j < w.sections[s0].commits.len() && (#[trigger] w.sections[s0].commits[j]).oid == b ==> j == j2,
        forall|s: int, j: int|
            0 <= s < w.sections.len() && s != s0 && 0 <= j < w.sections[s].commits.len() ==> (
            #[trigger] w.sections[s].commits[j]).oid != a && w.sections[s].commits[j].oid != b,
        forall|k: int| 0 <= k < w.line.len() ==> !picks(#[trigger] w.line[k], a) && !picks(w.line[k], b),
        w1 == (WeaveView {
            sections: w.sections.update(
                s0,
                SectionView {
                    label: w.sections[s0].label,
                    base: w.sections[s0].base,
                    commits: swap_seq(w.sections[s0].commits, j1, j2),
                },
            ),
            line: w.line,
        }),
    ensures
        moves_only(w, w1, a, b),
{
    assert forall|s: int, j: int|
        0 <= s < w.sections.len() && 0 <= j < w.sections[s].commits.len() && (
        #[trigger] w.sections[s].commits[j]).oid == a implies exists|j3: int|
            0 <= j3 < w.sections[s].commits.len() && (#[trigger] w.sections[s].commits[j3]).oid == b
                && w1.sections[s].commits[j] == w.sections[s].commits[j3] by {
        assert(s == s0);
        assert(j == j1);
        assert(w.sections[s].commits[j2].oid == b);
    }
    assert forall|s: int, j: int|
        0 <= s < w.sections.len() && 0 <= j < w.sections[s].commits.len() && (
        #[trigger] w.sections[s].commits[j]).oid == b implies exists|j3: int|
            0 <= j3 < w.sections[s].commits.len() && (#[trigger] w.sections[s].commits[j3]).oid == a
                && w1.sections[s].commits[j] == w.sections[s].commits[j3] by {
        assert(s == s0);
        assert(j == j2);
        assert(w.sections[s].commits[j1].oid == a);
    }
}

proof fn lemma_section_swap_moves_only(w: WeaveView, a: Seq<char>, b: Seq<char>, s0: int, j1: int, j2: int)
    requires
        distinct_oids(w),
        locate(w, a) == Some(Location::InSection(s0, j1)),
        locate(w, b) == Some(Location::InSection(s0, j2)),
    ensures
        moves_only(w, swap_result(w, a, b)->Ok_0, a, b),
{
    lemma_section_index(w.sections, a);
    lemma_section_index(w.sections, b);
    let cs = w.sections[s0].commits;
    lemma_commit_index(cs, a);
    lemma_commit_index(cs, b);
    assert(cs[j1].oid == a);
    assert(cs[j2].oid == b);
    assert forall|j: int| 0 <= j < cs.len() && (#[trigger] w.sections[s0].commits[j]).oid == a implies j == j1 by {
        if j != j1 {
            assert(w.sections[s0].commits[j].oid != w.sections[s0].commits[j1].oid);
        }
    }
    assert forall|j: int| 0 <= j < cs.len() && (#[trigger] w.sections[s0].commits[j]).oid == b implies j == j2 by {
        if j != j2 {
            assert(w.sections[s0].commits[j].oid != w.sections[s0].commits[j2].oid);
        }
    }
    assert forall|s: int, j: int|
        0 <= s < w.sections.len() && s != s0 && 0 <= j < w.sections[s].commits.len() implies (
        #[trigger] w.sections[s].commits[j]).oid != a && w.sections[s].commits[j].oid != b by {
        assert(w.sections[s].commits[j].oid != w.sections[s0].commits[j1].oid);
        assert(w.sections[s].commits[j].oid != w.sections[s0].commits[j2].oid);
    }
    assert forall|k: int| 0 <= k < w.line.len() implies !picks(#[trigger] w.line[k], a) && !picks(w.line[k], b) by {
        assert(!picks(w.line[k], w.sections[s0].commits[j1].oid));
        assert(!picks(w.line[k], w.sections[s0].commits[j2].oid));
    }
    lemma_section_swap_shape(w, swap_result(w, a, b)->Ok_0, a, b, s0, j1, j2);
}

#[verifier::rlimit(30)]
proof fn lemma_line_swap_moves_only(w: WeaveView, a: Seq<char>, b: Seq<char>, k1: int, k2: int)
    requires
        distinct_oids(w),
        locate(w, a) == Some(Location::OnLine(k1)),
        locate(w, b) == Some(Location::OnLine(k2)),
    ensures
        moves_only(w, swap_result(w, a, b)->Ok_0, a, b),
{
    let w1 = swap_result(w, a, b)->Ok_0;
    lemma_section_index(w.sections, a);
    lemma_section_index(w.sections, b);
    lemma_line_index(w.line, a);
    lemma_line_index(w.line, b);
    assert forall|s: int, j: int|
        0 <= s < w.sections.len() && 0 <= j < w.sections[s].commits.len() implies (
        #[trigger] w.sections[s].commits[j]).oid != a && w.sections[s].commits[j].oid != b by {
        lemma_commit_index(w.sections[s].commits, a);
        lemma_commit_index(w.sections[s].commits, b);
    }
    assert(picks(w.line[k1], a));
    assert(picks(w.line[k2], b));
    assert forall|k: int|
        0 <= k < w.line.len() && !picks(#[trigger] w.line[k], a) && !picks(w.line[k], b)
            implies w1.line[k] == w.line[k] by {
        assert(k != k1 && k != k2);
    }
    assert forall|k: int| 0 <= k < w.line.len() && picks(#[trigger] w.line[k], a) implies exists|k3: int|
        0 <= k3 < w.line.len() && picks(#[trigger] w.line[k3], b) && w1.line[k] == w.line[k3] by {
        if k != k1 {
            assert(!picks(w.line[k], a));
        }
        assert(picks(w.line[k2], b));
    }
    assert forall|k: int| 0 <= k < w.line.len() && picks(#[trigger] w.line[k], b) implies exists|k3: int|
        0 <= k3 < w.line.len() && picks(#[trigger] w.line[k3], a) && w1.line[k] == w.line[k3] by {
        if k != k2 {
            assert(!picks(w.line[k], b));
        }
        assert(picks(w.line[k1], a));
    }
}

/// A swap moves only the two named commits, as `moves_only` says.
pub proof fn lemma_swap_moves_only_the_two(w: WeaveView, a: Seq<char>, b: Seq<char>)
    requires
        distinct_oids(w),
        swap_result(w, a, b) is Ok,
    ensures
        moves_only(w, swap_result(w, a, b)->Ok_0, a, b),
{
    match (locate(w, a), locate(w, b)) {
        (Some(Location::InSection(s0, j1)), Some(Location::InSection(s2, j2))) => {
            lemma_section_swap_moves_only(w, a, b, s0, j1, j2);
        },
        (Some(Location::OnLine(k1)), Some(Location::OnLine(k2))) => {
            lemma_line_swap_moves_only(w, a, b, k1, k2);
        },
        _ => {},
    }
}

/// The commits that did not land are picked commit by commit, in order: one
/// commit stays exactly when upstream neither descends from it nor has its
/// patch ID, and two runs of commits one after the other give the first's
/// survivors followed by the second's.
pub proof fn lemma_unlanded_compose(u: Upstream, c1: Seq<CommitView>, c2: Seq<CommitView>, c: CommitView)
    ensures
        unlanded(u, c1 + c2) == unlanded(u, c1) + unlanded(u, c2),
        unlanded(u, seq![c]) == if u.merged.deep_view().contains(c.oid) || u.patch_ids.deep_view().contains(
            c.patch_id,
        ) {
            Seq::<CommitView>::empty()
        } else {
            seq![c]
        },
    decreases c2.len(),
{
    assert(seq![c].drop_last() =~= Seq::<CommitView>::empty());
    assert(seq![c].last() == c);
    assert(unlanded(u, Seq::<CommitView>::empty()).push(c) =~= seq![c]);
    if c2.len() == 0 {
        assert(c1 + c2 =~= c1);
        assert(unlanded(u, c1) + unlanded(u, c2) =~= unlanded(u, c1));
    } else {
        lemma_unlanded_compose(u, c1, c2.drop_last(), c);
        assert((c1 + c2).drop_last() =~= c1 + c2.drop_last());
        assert((c1 + c2).last() == c2.last());
        if landed(u, c2.last()) {
            assert(unlanded(u, c1) + unlanded(u, c2) =~= unlanded(u, c1) + unlanded(u, c2.drop_last()));
        } else {
            assert(unlanded(u, c1) + unlanded(u, c2) =~= (unlanded(u, c1) + unlanded(u, c2.drop_last())).push(
                c2.last(),
            ));
        }
    }
}

} // verus!
