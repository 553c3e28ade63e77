//! What a history-rewriting command does around its rebase: putting the
//! user's staging back, taking back a commit that did not happen, and what it
//! says when it pauses or is aborted.
use vstd::prelude::*;
use crate::cleanup::{decimal, decimal_text};
use crate::commit::CommitError;

verus! {

/// What becomes of the staged changes saved before the rebase, once the
/// autostash has been popped.
#[derive(Debug)]
pub enum StagedRestore {
    /// Nothing was staged.
    Nothing,
    /// Apply the saved patch to the index again: the pop put the changes back
    /// unstaged.
    Reapply,
    /// The pop conflicted: the merge is the user's to resolve and git keeps
    /// the stash, so the staged side is parked as a patch under this name.
    Park(String),
}

/// The name of the `n`th parked patch.
pub open spec fn parked_patch_name(n: nat) -> Seq<char> {
    "unrestored-staged-"@ + decimal(n) + ".patch"@
}

/// Decides what becomes of the staged changes: `free_index` is the first
/// number not yet taken by a parked patch.
pub fn staged_restore(has_staged_patch: bool, pop_conflicted: bool, free_index: usize) -> (res: StagedRestore)
    ensures
        !has_staged_patch ==> res is Nothing,
        has_staged_patch && !pop_conflicted ==> res is Reapply,
        has_staged_patch && pop_conflicted ==> (res matches StagedRestore::Park(name) && name@
            == parked_patch_name(free_index as nat)),
{
    if !has_staged_patch {
        StagedRestore::Nothing
    } else if !pop_conflicted {
        StagedRestore::Reapply
    } else {
        let mut name = String::from_str("unrestored-staged-");
        let number = decimal_text(free_index);
        name.append(number.as_str());
        name.append(".patch");
        StagedRestore::Park(name)
    }
}

/// One step of taking back a fold's commit attempt.
#[derive(Debug)]
pub enum UndoStep {
    /// Move HEAD back to the commit it was on.
    ResetHead(String),
    /// Take loom's own staging out of the index.
    UnstageFold,
    /// Put back the user's other staged files, moved out for the commit.
    RestoreOtherStaging,
}

/// The whole of taking back a commit attempt: HEAD, loom's staging, the
/// user's other staged files, in that order.
pub open spec fn undo_steps_for(head_before: Seq<char>, steps: Seq<UndoStep>) -> bool {
    &&& steps.len() == 3
    &&& steps[0] matches UndoStep::ResetHead(h) && h@ == head_before
    &&& steps[1] is UnstageFold
    &&& steps[2] is RestoreOtherStaging
}

/// How a fold's commit attempt ends: the steps to run, then the result to
/// report.
#[derive(Debug)]
pub struct FoldFinish {
    pub undo: Vec<UndoStep>,
    pub result: Result<(), CommitError>,
}

/// After a fold's commit was judged (`check_amend` or `check_fixup_commit`): a
/// commit that did not happen is taken back whole before its error is
/// reported; one that did needs nothing.
pub fn finish_fold_commit(check: Result<(), CommitError>, head_before: &str) -> (res: FoldFinish)
    ensures
        res.result == check,
        check is Ok ==> res.undo@.len() == 0,
        check is Err ==> undo_steps_for(head_before@, res.undo@),
{
    if check.is_ok() {
        FoldFinish { undo: Vec::new(), result: check }
    } else {
        let mut undo: Vec<UndoStep> = Vec::new();
        undo.push(UndoStep::ResetHead(String::from_str(head_before)));
        undo.push(UndoStep::UnstageFold);
        undo.push(UndoStep::RestoreOtherStaging);
        FoldFinish { undo, result: check }
    }
}

/// What a command says when its rebase paused on conflicts.
pub open spec fn pause_text(command: Seq<char>) -> Seq<char> {
    "Conflicts detected \u{2014} resolve them with git, then run:\n  loom continue   to complete the "@
        + command + "\n  loom abort      to cancel and restore original state"@
}

/// What `loom abort` says once it cancelled a paused command.
pub open spec fn aborted_text(command: Seq<char>) -> Seq<char> {
    "Aborted `loom "@ + command + "` and restored original state"@
}

/// What a command says when its rebase paused on conflicts: resolve with git,
/// then continue or abort.
pub fn conflict_pause_message(command: &str) -> (res: String)
    ensures
        res@ == pause_text(command@),
{
    let mut s = String::from_str(
        "Conflicts detected \u{2014} resolve them with git, then run:\n  loom continue   to complete the ",
    );
    s.append(command);
    s.append("\n  loom abort      to cancel and restore original state");
    s
}

/// What `loom abort` says once it cancelled a paused command.
pub fn aborted_message(command: &str) -> (res: String)
    ensures
        res@ == aborted_text(command@),
{
    let mut s = String::from_str("Aborted `loom ");
    s.append(command);
    s.append("` and restored original state");
    s
}

// ---------------------------------------------------------------------------
// The transaction as a state machine: the caller performs each action and
// hands back what came of it as the next event.

/// Where a history-rewriting command stands.
#[derive(Debug, Clone, Copy, PartialEq, Eq, Structural)]
pub enum TxPhase {
    /// Nothing started yet.
    Idle,
    /// Its rebase runs.
    Rebasing,
    /// Its rebase stopped on conflicts; loom's state is kept for `loom
    /// continue` and `loom abort`.
    Paused,
    /// It ended, one way or the other.
    Finished,
}

/// A command's transaction: its phase, the command's name (`swap`, `update`,
/// ...), and whether staged changes were saved before its rebase.
#[derive(Debug)]
pub struct Transaction {
    pub phase: TxPhase,
    pub command: String,
    pub has_staged: bool,
}

/// A transaction as plain values.
pub struct TransactionView {
    pub phase: TxPhase,
    pub command: Seq<char>,
    pub has_staged: bool,
}

impl View for Transaction {
    type V = TransactionView;

    open spec fn view(&self) -> TransactionView {
        TransactionView { phase: self.phase, command: self.command@, has_staged: self.has_staged }
    }
}

/// What happened: the user's request, or what came of the last action.
#[derive(Debug)]
pub enum TxEvent {
    /// The command starts; `has_staged` says whether anything is staged.
    Start { has_staged: bool },
    /// The rebase finished. `pop_conflicted` says whether git's autostash pop
    /// conflicted, and `free_index` is the first number not yet taken by a
    /// parked patch.
    Completed { pop_conflicted: bool, free_index: usize },
    /// The rebase stopped on conflicts.
    Conflicted,
    /// The rebase failed, or a check refused what it made, with this
    /// message; the rebase is still in progress.
    Refused(String),
    /// `loom continue`.
    ContinueRequested,
    /// `loom abort`.
    AbortRequested,
}

/// An event as plain values.
pub enum TxEventView {
    Start(bool),
    Completed(bool, nat),
    Conflicted,
    Refused(Seq<char>),
    ContinueRequested,
    AbortRequested,
}

impl View for TxEvent {
    type V = TxEventView;

    open spec fn view(&self) -> TxEventView {
        match self {
            TxEvent::Start { has_staged } => TxEventView::Start(*has_staged),
            TxEvent::Completed { pop_conflicted, free_index } => TxEventView::Completed(
                *pop_conflicted,
                *free_index as nat,
            ),
            TxEvent::Conflicted => TxEventView::Conflicted,
            TxEvent::Refused(m) => TxEventView::Refused(m@),
            TxEvent::ContinueRequested => TxEventView::ContinueRequested,
            TxEvent::AbortRequested => TxEventView::AbortRequested,
        }
    }
}

/// What the caller is to do, in order.
#[derive(Debug, PartialEq, Eq)]
pub enum TxAction {
    /// Save the staged changes as a patch.
    SaveStagedPatch,
    /// Save loom's state, so that a paused command can be continued or
    /// aborted.
    SaveState,
    /// Run the command's rebase, with autostash.
    RunRebase,
    /// `git rebase --continue`.
    ContinueRebase,
    /// `git rebase --abort`, which puts the working tree back.
    AbortRebase,
    /// Remove loom's saved state.
    RemoveState,
    /// Apply the saved staged patch to the index again.
    ReapplyStaged,
    /// Park the saved staged patch under this name.
    ParkStaged(String),
    /// Tell the user the command paused, with this message.
    ReportPaused(String),
    /// Report the command's success.
    ReportDone,
    /// Tell the user the command was aborted, with this message.
    ReportAborted(String),
    /// Report the command's failure, with this message.
    ReportError(String),
}

/// An action as plain values.
pub enum TxActionView {
    SaveStagedPatch,
    SaveState,
    RunRebase,
    ContinueRebase,
    AbortRebase,
    RemoveState,
    ReapplyStaged,
    ParkStaged(Seq<char>),
    ReportPaused(Seq<char>),
    ReportDone,
    ReportAborted(Seq<char>),
    ReportError(Seq<char>),
}

impl View for TxAction {
    type V = TxActionView;

    open spec fn view(&self) -> TxActionView {
        match self {
            TxAction::SaveStagedPatch => TxActionView::SaveStagedPatch,
            TxAction::SaveState => TxActionView::SaveState,
            TxAction::RunRebase => TxActionView::RunRebase,
            TxAction::ContinueRebase => TxActionView::ContinueRebase,
            TxAction::AbortRebase => TxActionView::AbortRebase,
            TxAction::RemoveState => TxActionView::RemoveState,
            TxAction::ReapplyStaged => TxActionView::ReapplyStaged,
            TxAction::ParkStaged(n) => TxActionView::ParkStaged(n@),
            TxAction::ReportPaused(m) => TxActionView::ReportPaused(m@),
            TxAction::ReportDone => TxActionView::ReportDone,
            TxAction::ReportAborted(m) => TxActionView::ReportAborted(m@),
            TxAction::ReportError(m) => TxActionView::ReportError(m@),
        }
    }
}

/// The actions as plain values.
pub open spec fn actions_view(acts: Seq<TxAction>) -> Seq<TxActionView> {
    acts.map_values(|a: TxAction| a@)
}

/// Putting the saved staging back, as `staged_restore` decides it.
pub open spec fn restore_actions(has_staged: bool, pop_conflicted: bool, free_index: nat) -> Seq<
    TxActionView,
> {
    if !has_staged {
        Seq::empty()
    } else if !pop_conflicted {
        seq![TxActionView::ReapplyStaged]
    } else {
        seq![TxActionView::ParkStaged(parked_patch_name(free_index))]
    }
}

/// The transaction with another phase.
pub open spec fn in_phase(t: TransactionView, phase: TxPhase) -> TransactionView {
    TransactionView { phase, command: t.command, has_staged: t.has_staged }
}

/// One step: the next transaction and the actions to perform, or `None` when
/// the event does not apply in the transaction's phase. Starting saves the
/// staging and loom's state before the rebase runs; a finished rebase removes
/// the state and puts the staging back; conflicts pause with the state kept;
/// `loom continue` resumes the rebase; a refusal and `loom abort` abort the
/// rebase, remove the state and put the staging back, which `git rebase
/// --abort` left unstaged. The report comes last.
pub open spec fn tx_step(t: TransactionView, e: TxEventView) -> Option<
    (TransactionView, Seq<TxActionView>),
> {
    match t.phase {
        TxPhase::Idle => match e {
            TxEventView::Start(staged) => Some(
                (
                    TransactionView { phase: TxPhase::Rebasing, command: t.command, has_staged: staged },
                    (if staged {
                        seq![TxActionView::SaveStagedPatch]
                    } else {
                        Seq::empty()
                    }) + seq![TxActionView::SaveState, TxActionView::RunRebase],
                ),
            ),
            _ => None,
        },
        TxPhase::Rebasing => match e {
            TxEventView::Completed(pop_conflicted, free_index) => Some(
                (
                    in_phase(t, TxPhase::Finished),
                    seq![TxActionView::RemoveState] + restore_actions(
                        t.has_staged,
                        pop_conflicted,
                        free_index,
                    ) + seq![TxActionView::ReportDone],
                ),
            ),
            TxEventView::Conflicted => Some(
                (in_phase(t, TxPhase::Paused), seq![TxActionView::ReportPaused(pause_text(t.command))]),
            ),
            TxEventView::Refused(m) => Some(
                (
                    in_phase(t, TxPhase::Finished),
                    seq![TxActionView::AbortRebase, TxActionView::RemoveState] + restore_actions(
                        t.has_staged,
                        false,
                        0,
                    ) + seq![TxActionView::ReportError(m)],
                ),
            ),
            _ => None,
        },
        TxPhase::Paused => match e {
            TxEventView::ContinueRequested => Some(
                (in_phase(t, TxPhase::Rebasing), seq![TxActionView::ContinueRebase]),
            ),
            TxEventView::AbortRequested => Some(
                (
                    in_phase(t, TxPhase::Finished),
                    seq![TxActionView::AbortRebase, TxActionView::RemoveState] + restore_actions(
                        t.has_staged,
                        false,
                        0,
                    ) + seq![TxActionView::ReportAborted(aborted_text(t.command))],
                ),
            ),
            _ => None,
        },
        TxPhase::Finished => None,
    }
}

/// A step's outcome: the next transaction and the actions to perform.
#[derive(Debug)]
pub struct TxStep {
    pub next: Transaction,
    pub actions: Vec<TxAction>,
}

fn push_restore(acts: &mut Vec<TxAction>, has_staged: bool, pop_conflicted: bool, free_index: usize)
    ensures
        actions_view(final(acts)@) == actions_view(old(acts)@) + restore_actions(
            has_staged,
            pop_conflicted,
            free_index as nat,
        ),
{
    let ghost before = acts@;
    match staged_restore(has_staged, pop_conflicted, free_index) {
        StagedRestore::Nothing => {
            assert(actions_view(acts@) =~= actions_view(before) + restore_actions(
                has_staged,
                pop_conflicted,
                free_index as nat,
            ));
        },
        StagedRestore::Reapply => {
            acts.push(TxAction::ReapplyStaged);
            assert(actions_view(acts@) =~= actions_view(before) + restore_actions(
                has_staged,
                pop_conflicted,
                free_index as nat,
            ));
        },
        StagedRestore::Park(name) => {
            acts.push(TxAction::ParkStaged(name));
            assert(actions_view(acts@) =~= actions_view(before) + restore_actions(
                has_staged,
                pop_conflicted,
                free_index as nat,
            ));
        },
    }
}

/// Performs one step of the transaction, as `tx_step` says.
pub fn step(t: &Transaction, e: &TxEvent) -> (res: Option<TxStep>)
    ensures
        match tx_step(t@, e@) {
            None => res is None,
            Some((next, acts)) => res matches Some(s) && s.next@ == next && actions_view(s.actions@)
                == acts,
        },
{
    let mut acts: Vec<TxAction> = Vec::new();
    let next_phase;
    let mut has_staged = t.has_staged;
    match t.phase {
        TxPhase::Idle => match e {
            TxEvent::Start { has_staged: staged } => {
                has_staged = *staged;
                if *staged {
                    acts.push(TxAction::SaveStagedPatch);
                }
                acts.push(TxAction::SaveState);
                acts.push(TxAction::RunRebase);
                proof { assert(actions_view(acts@) =~= tx_step(t@, e@)->Some_0.1); }
                next_phase = TxPhase::Rebasing;
            },
            _ => {
                return None;
            },
        },
        TxPhase::Rebasing => match e {
            TxEvent::Completed { pop_conflicted, free_index } => {
                acts.push(TxAction::RemoveState);
                push_restore(&mut acts, t.has_staged, *pop_conflicted, *free_index);
                let ghost mid = acts@;
                acts.push(TxAction::ReportDone);
                assert(actions_view(acts@) =~= actions_view(mid).push(TxActionView::ReportDone));
                proof { assert(actions_view(acts@) =~= tx_step(t@, e@)->Some_0.1); }
                next_phase = TxPhase::Finished;
            },
            TxEvent::Conflicted => {
                acts.push(TxAction::ReportPaused(conflict_pause_message(t.command.as_str())));
                proof { assert(actions_view(acts@) =~= tx_step(t@, e@)->Some_0.1); }
                next_phase = TxPhase::Paused;
            },
            TxEvent::Refused(m) => {
                acts.push(TxAction::AbortRebase);
                acts.push(TxAction::RemoveState);
                push_restore(&mut acts, t.has_staged, false, 0);
                let ghost mid = acts@;
                acts.push(TxAction::ReportError(m.clone()));
                assert(actions_view(acts@) =~= actions_view(mid).push(acts@.last()@));
                proof { assert(actions_view(acts@) =~= tx_step(t@, e@)->Some_0.1); }
                next_phase = TxPhase::Finished;
            },
            _ => {
                return None;
            },
        },
        TxPhase::Paused => match e {
            TxEvent::ContinueRequested => {
                acts.push(TxAction::ContinueRebase);
                proof { assert(actions_view(acts@) =~= tx_step(t@, e@)->Some_0.1); }
                next_phase = TxPhase::Rebasing;
            },
            TxEvent::AbortRequested => {
                acts.push(TxAction::AbortRebase);
                acts.push(TxAction::RemoveState);
                push_restore(&mut acts, t.has_staged, false, 0);
                let ghost mid = acts@;
                acts.push(TxAction::ReportAborted(aborted_message(t.command.as_str())));
                assert(actions_view(acts@) =~= actions_view(mid).push(acts@.last()@));
                proof { assert(actions_view(acts@) =~= tx_step(t@, e@)->Some_0.1); }
                next_phase = TxPhase::Finished;
            },
            _ => {
                return None;
            },
        },
        TxPhase::Finished => {
            return None;
        },
    }
    let next = Transaction { phase: next_phase, command: t.command.clone(), has_staged };
    Some(TxStep { next, actions: acts })
}

/// Whether an action puts the saved staging back.
pub open spec fn restores_staging(a: TxActionView) -> bool {
    a is ReapplyStaged || a is ParkStaged
}

/// Whether an action is a report to the user.
pub open spec fn is_report(a: TxActionView) -> bool {
    a is ReportPaused || a is ReportDone || a is ReportAborted || a is ReportError
}

/// However a command that began its rebase ends (its rebase completed, or was
/// refused, or the user aborted it), loom's state is removed, the staging
/// saved before the rebase is put back, and the report comes last, after all
/// else was done.
pub proof fn lemma_every_ending_cleans_up(t: TransactionView, e: TxEventView)
    ensures
        tx_step(t, e) matches Some((next, acts)) ==> (next.phase == TxPhase::Finished ==> {
            &&& acts.contains(TxActionView::RemoveState)
            &&& t.has_staged ==> exists|i: int| 0 <= i < acts.len() && restores_staging(#[trigger] acts[i])
            &&& acts.len() > 0 && is_report(acts.last())
            &&& forall|i: int| 0 <= i < acts.len() - 1 ==> !is_report(#[trigger] acts[i])
        }),
{
    if let Some((next, acts)) = tx_step(t, e) {
        if next.phase == TxPhase::Finished {
            let head = if t.phase == TxPhase::Rebasing && e is Completed {
                seq![TxActionView::RemoveState]
            } else {
                seq![TxActionView::AbortRebase, TxActionView::RemoveState]
            };
            let r = if e is Completed {
                restore_actions(t.has_staged, e->Completed_0, e->Completed_1)
            } else {
                restore_actions(t.has_staged, false, 0)
            };
            assert(acts.subrange(0, head.len() as int) =~= head);
            assert(acts[head.len() - 1] == TxActionView::RemoveState);
            if t.has_staged {
                assert(acts[head.len() as int] == r[0]);
            }
            assert forall|i: int| 0 <= i < acts.len() - 1 implies !is_report(#[trigger] acts[i]) by {
                if i < head.len() {
                    assert(acts[i] == head[i]);
                } else {
                    assert(acts[i] == r[i - head.len()]);
                }
            }
        }
    }
}

/// A paused command keeps loom's state, for `loom continue` and `loom abort`,
/// and says how to go on; a finished one takes no further event.
pub proof fn lemma_pause_keeps_state(t: TransactionView, e: TxEventView)
    ensures
        tx_step(t, e) matches Some((next, acts)) ==> (next.phase == TxPhase::Paused ==> acts
            == seq![TxActionView::ReportPaused(pause_text(t.command))]),
        t.phase == TxPhase::Finished ==> tx_step(t, e) is None,
{
}

/// Starting saves the staged changes and loom's state before the rebase runs.
pub proof fn lemma_state_saved_before_rebase(t: TransactionView, has_staged: bool)
    requires
        t.phase == TxPhase::Idle,
    ensures
        tx_step(t, TxEventView::Start(has_staged)) matches Some((next, acts)) && next.phase
            == TxPhase::Rebasing && next.has_staged == has_staged && acts.last()
            == TxActionView::RunRebase && acts.contains(TxActionView::SaveState) && (has_staged
            ==> acts[0] == TxActionView::SaveStagedPatch),
{
    let acts = tx_step(t, TxEventView::Start(has_staged))->Some_0.1;
    assert(acts[acts.len() - 2] == TxActionView::SaveState);
}

/// Cancelling runs `git rebase --abort` first, whatever was staged: `loom
/// abort` of a paused command and a refusal during the rebase both begin with
/// it, so the repository never stays mid-rebase once the command ends. A
/// rebase that completed is not aborted, and resuming a pause only continues
/// it.
pub proof fn lemma_cancelling_aborts_the_rebase(t: TransactionView, e: TxEventView)
    ensures
        t.phase == TxPhase::Paused && e is AbortRequested ==> (tx_step(t, e) matches Some((next, acts))
            && next.phase == TxPhase::Finished && acts.len() > 0 && acts[0] == TxActionView::AbortRebase),
        t.phase == TxPhase::Rebasing && e is Refused ==> (tx_step(t, e) matches Some((next, acts))
            && next.phase == TxPhase::Finished && acts.len() > 0 && acts[0] == TxActionView::AbortRebase),
        t.phase == TxPhase::Rebasing && e is Completed ==> (tx_step(t, e) matches Some((next, acts))
            && !acts.contains(TxActionView::AbortRebase)),
        t.phase == TxPhase::Paused && e is ContinueRequested ==> (tx_step(t, e) matches Some((next, acts))
            && next.phase == TxPhase::Rebasing && acts == seq![TxActionView::ContinueRebase]),
{
    if t.phase == TxPhase::Rebasing && e is Completed {
        let acts = tx_step(t, e)->Some_0.1;
        let r = restore_actions(t.has_staged, e->Completed_0, e->Completed_1);
        assert forall|i: int| 0 <= i < acts.len() implies acts[i] != TxActionView::AbortRebase by {
            if i == 0 {
            } else if i < 1 + r.len() {
                assert(acts[i] == r[i - 1]);
            }
        }
    }
}

} // verus!
