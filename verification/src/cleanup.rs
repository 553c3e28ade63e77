//! After an update: offering to remove the branches that are fully merged
//! upstream or whose upstream is gone.
use vstd::prelude::*;
use crate::words::contains_word;

verus! {

/// The character of a decimal digit.
pub open spec fn digit_char(d: int) -> char {
    if d == 0 {
        '0'
    } else if d == 1 {
        '1'
    } else if d == 2 {
        '2'
    } else if d == 3 {
        '3'
    } else if d == 4 {
        '4'
    } else if d == 5 {
        '5'
    } else if d == 6 {
        '6'
    } else if d == 7 {
        '7'
    } else if d == 8 {
        '8'
    } else {
        '9'
    }
}

/// The decimal digits of `n`, most significant first, without leading zeros.
pub open spec fn decimal(n: nat) -> Seq<char>
    decreases n,
{
    if n < 10 {
        seq![digit_char(n as int)]
    } else {
        decimal(n / 10).push(digit_char((n % 10) as int))
    }
}

/// The value of a digit character.
pub open spec fn digit_value(c: char) -> int {
    if c == '0' {
        0
    } else if c == '1' {
        1
    } else if c == '2' {
        2
    } else if c == '3' {
        3
    } else if c == '4' {
        4
    } else if c == '5' {
        5
    } else if c == '6' {
        6
    } else if c == '7' {
        7
    } else if c == '8' {
        8
    } else {
        9
    }
}

/// The number a string of decimal digits reads as.
pub open spec fn decimal_value(s: Seq<char>) -> int
    decreases s.len(),
{
    if s.len() == 0 {
        0
    } else {
        decimal_value(s.drop_last()) * 10 + digit_value(s.last())
    }
}

/// Reading back the digits of `n` gives `n`.
pub proof fn lemma_decimal_reads_back(n: nat)
    ensures
        decimal_value(decimal(n)) == n,
        decimal(n).len() >= 1,
    decreases n,
{
    if n < 10 {
        assert(seq![digit_char(n as int)].drop_last() =~= Seq::<char>::empty());
        assert(digit_value(digit_char(n as int)) == n);
        assert(decimal_value(Seq::<char>::empty()) == 0);
    } else {
        lemma_decimal_reads_back(n / 10);
        let s = decimal(n);
        assert(s.drop_last() =~= decimal(n / 10));
        let d = (n % 10) as int;
        assert(0 <= d < 10);
        assert(digit_value(digit_char(d)) == d);
        assert(n == (n / 10) * 10 + d);
        assert(s.last() == digit_char(d));
        assert(decimal_value(s) == decimal_value(s.drop_last()) * 10 + digit_value(s.last()));
    }
}

fn digit_text(d: usize) -> (res: &'static str)
    requires
        d < 10,
    ensures
        res@ == seq![digit_char(d as int)],
{
    if d == 0 {
        proof { reveal_strlit("0"); }
        "0"
    } else if d == 1 {
        proof { reveal_strlit("1"); }
        "1"
    } else if d == 2 {
        proof { reveal_strlit("2"); }
        "2"
    } else if d == 3 {
        proof { reveal_strlit("3"); }
        "3"
    } else if d == 4 {
        proof { reveal_strlit("4"); }
        "4"
    } else if d == 5 {
        proof { reveal_strlit("5"); }
        "5"
    } else if d == 6 {
        proof { reveal_strlit("6"); }
        "6"
    } else if d == 7 {
        proof { reveal_strlit("7"); }
        "7"
    } else if d == 8 {
        proof { reveal_strlit("8"); }
        "8"
    } else {
        proof { reveal_strlit("9"); }
        "9"
    }
}

/// `n` in decimal.
pub fn decimal_text(n: usize) -> (res: String)
    ensures
        res@ == decimal(n as nat),
    decreases n,
{
    if n < 10 {
        String::from_str(digit_text(n))
    } else {
        let mut s = decimal_text(n / 10);
        s.append(digit_text(n % 10));
        s
    }
}

/// Why a branch is offered for removal.
#[derive(Debug, Clone, Copy, PartialEq, Eq, Structural)]
pub enum CleanupReason {
    /// Every commit was already upstream, so the update dropped it.
    FullyMerged,
    /// The branch's upstream tracking ref was pruned by the fetch.
    GoneUpstream,
}

/// The branches of `s` that are not in `excluded`, each once, in the order of
/// their first occurrence.
pub open spec fn keep_new(s: Seq<Seq<char>>, excluded: Seq<Seq<char>>) -> Seq<Seq<char>>
    decreases s.len(),
{
    if s.len() == 0 {
        Seq::empty()
    } else {
        let kept = keep_new(s.drop_last(), excluded);
        if excluded.contains(s.last()) || kept.contains(s.last()) {
            kept
        } else {
            kept.push(s.last())
        }
    }
}

/// The branches offered for removal after an update, listed under their
/// reason.
#[derive(Debug)]
pub struct RemovalOffer {
    /// Branches whose every commit was already upstream.
    pub merged: Vec<String>,
    /// Branches whose upstream is gone, and that are not fully merged.
    pub gone: Vec<String>,
}

/// The offer for the fully merged branches `merged` and the branches with a
/// gone upstream `gone`: each branch is listed once, under "fully merged"
/// where it is both.
pub fn removal_offer(merged: &Vec<String>, gone: &Vec<String>) -> (res: RemovalOffer)
    ensures
        res.merged.deep_view() == keep_new(merged.deep_view(), Seq::empty()),
        res.gone.deep_view() == keep_new(gone.deep_view(), merged.deep_view()),
{
    let nothing: Vec<String> = Vec::new();
    assert(nothing.deep_view() =~= Seq::<Seq<char>>::empty());
    let m = keep_new_of(merged, &nothing);
    let g = keep_new_of(gone, merged);
    RemovalOffer { merged: m, gone: g }
}

fn keep_new_of(s: &Vec<String>, excluded: &Vec<String>) -> (res: Vec<String>)
    ensures
        res.deep_view() == keep_new(s.deep_view(), excluded.deep_view()),
{
    let ghost all = s.deep_view();
    let mut kept: Vec<String> = Vec::new();
    let mut i: usize = 0;
    assert(all.subrange(0, 0) =~= Seq::<Seq<char>>::empty());
    assert(kept.deep_view() =~= Seq::<Seq<char>>::empty());
    while i < s.len()
        invariant
            i <= s@.len(),
            all == s.deep_view(),
            kept.deep_view() == keep_new(all.subrange(0, i as int), excluded.deep_view()),
        decreases s@.len() - i,
    {
        let ghost sub = all.subrange(0, i + 1);
        assert(sub.drop_last() =~= all.subrange(0, i as int));
        assert(sub.last() == s@[i as int]@);
        let name = s[i].as_str();
        if !contains_word(excluded.as_slice(), name) && !contains_word(kept.as_slice(), name) {
            let ghost before = kept.deep_view();
            kept.push(s[i].clone());
            assert(kept.deep_view() =~= before.push(s@[i as int]@));
        }
        i = i + 1;
    }
    assert(all.subrange(0, s@.len() as int) =~= all);
    kept
}

/// What `keep_new` keeps: every branch of `s` outside `excluded`, and nothing
/// else, each once.
pub proof fn lemma_keep_new(s: Seq<Seq<char>>, excluded: Seq<Seq<char>>)
    ensures
        forall|b: Seq<char>|
            #[trigger] keep_new(s, excluded).contains(b) <==> (s.contains(b) && !excluded.contains(
                b,
            )),
        keep_new(s, excluded).no_duplicates(),
    decreases s.len(),
{
    if s.len() > 0 {
        let init = s.drop_last();
        lemma_keep_new(init, excluded);
        let kept = keep_new(init, excluded);
        let k = keep_new(s, excluded);
        assert forall|b: Seq<char>| #[trigger] k.contains(b) <==> (s.contains(b) && !excluded.contains(b)) by {
            if s.contains(b) && !excluded.contains(b) {
                let i = choose|i: int| 0 <= i < s.len() && s[i] == b;
                if i < init.len() {
                    assert(init[i] == b);
                    assert(kept.contains(b));
                    let j = choose|j: int| 0 <= j < kept.len() && kept[j] == b;
                    if !(excluded.contains(s.last()) || kept.contains(s.last())) {
                        assert(k[j] == b);
                    }
                } else {
                    if !kept.contains(s.last()) {
                        assert(k[k.len() - 1] == b);
                    }
                }
            }
            if k.contains(b) {
                let j = choose|j: int| 0 <= j < k.len() && k[j] == b;
                if j < kept.len() {
                    assert(kept[j] == b);
                    assert(kept.contains(b));
                    let i = choose|i: int| 0 <= i < init.len() && init[i] == b;
                    assert(s[i] == b);
                } else {
                    assert(s[s.len() - 1] == b);
                }
            }
        }
    }
}

/// Each branch offered for removal is listed once, under one reason; every
/// fully merged branch is offered as such, and every branch with a gone
/// upstream is offered under one reason or the other.
pub proof fn lemma_each_branch_offered_once(merged: Seq<Seq<char>>, gone: Seq<Seq<char>>)
    ensures
        (keep_new(merged, Seq::empty()) + keep_new(gone, merged)).no_duplicates(),
        forall|b: Seq<char>|
            #[trigger] keep_new(merged, Seq::empty()).contains(b) <==> merged.contains(b),
        forall|b: Seq<char>|
            #[trigger] keep_new(gone, merged).contains(b) <==> (gone.contains(b)
                && !merged.contains(b)),
{
    lemma_keep_new(merged, Seq::empty());
    lemma_keep_new(gone, merged);
    let a = keep_new(merged, Seq::empty());
    let g = keep_new(gone, merged);
    let both = a + g;
    assert forall|i: int, j: int| 0 <= i < both.len() && 0 <= j < both.len() && i != j implies both[i]
        != both[j] by {
        if i < a.len() && j >= a.len() {
            assert(a.contains(both[i]));
            assert(g.contains(both[j]));
        } else if j < a.len() && i >= a.len() {
            assert(a.contains(both[j]));
            assert(g.contains(both[i]));
        } else if i >= a.len() && j >= a.len() {
            assert(both[i] == g[i - a.len()]);
            assert(both[j] == g[j - a.len()]);
        }
    }
}

/// `branch` or `branches`, as the count needs.
pub open spec fn branch_noun(count: nat) -> Seq<char> {
    if count == 1 {
        "branch"@
    } else {
        "branches"@
    }
}

/// The end of the heading for each reason.
pub open spec fn reason_text(reason: CleanupReason) -> Seq<char> {
    match reason {
        CleanupReason::FullyMerged => " fully merged upstream:"@,
        CleanupReason::GoneUpstream => " with a gone upstream:"@,
    }
}

/// The heading above the listed branches, such as
/// `2 local branches with a gone upstream:`.
pub fn cleanup_heading(count: usize, reason: CleanupReason) -> (res: String)
    ensures
        res@ == decimal(count as nat) + " local "@ + branch_noun(count as nat) + reason_text(reason),
{
    let mut s = decimal_text(count);
    s.append(" local ");
    if count == 1 {
        s.append("branch");
    } else {
        s.append("branches");
    }
    match reason {
        CleanupReason::FullyMerged => s.append(" fully merged upstream:"),
        CleanupReason::GoneUpstream => s.append(" with a gone upstream:"),
    }
    s
}

/// The one question asked before removing the listed branches.
pub fn removal_question(count: usize) -> (res: String)
    ensures
        res@ == if count == 1 {
            "Remove it? [y/N]"@
        } else {
            "Remove them? [y/N]"@
        },
{
    if count == 1 {
        String::from_str("Remove it? [y/N]")
    } else {
        String::from_str("Remove them? [y/N]")
    }
}

/// The branches are removed without asking when `-y` is given or
/// `loom.pruneGoneBranches` is `true`.
pub fn removes_without_prompt(yes: bool, prune_config: Option<bool>) -> (res: bool)
    ensures
        res == (yes || prune_config == Some(true)),
{
    yes || match prune_config {
        Some(v) => v,
        None => false,
    }
}

/// The report of a removed branch: it shows the tip the branch had, so the
/// branch can be revived.
pub fn removed_message(branch: &str, tip: &str) -> (res: String)
    ensures
        res@ == "Removed branch `"@ + branch@ + "` (was "@ + tip@ + ")"@,
{
    let mut s = String::from_str("Removed branch `");
    s.append(branch);
    s.append("` (was ");
    s.append(tip);
    s.append(")");
    s
}

/// The warning for a branch that could not be deleted, which is skipped rather
/// than ending the cleanup.
pub fn skipped_message(branch: &str) -> (res: String)
    ensures
        res@ == "Skipped branch `"@ + branch@
            + "` \u{2014} could not delete it (run `loom trace` for the git error)"@,
{
    let mut s = String::from_str("Skipped branch `");
    s.append(branch);
    s.append("` \u{2014} could not delete it (run `loom trace` for the git error)");
    s
}

} // verus!
