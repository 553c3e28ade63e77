//! Arguments after `--` are handed to the git command a loom command wraps,
//! verbatim and in order.
use vstd::prelude::*;
use crate::words::{command, push_all, push_word};

verus! {

/// The separator between loom's arguments and git's.
pub open spec fn separator() -> Seq<char> {
    "--"@
}

/// The index of the first separator in `args`, or `args.len()` when there is
/// none.
pub open spec fn first_separator(args: Seq<Seq<char>>) -> int
    decreases args.len(),
{
    if args.len() == 0 {
        0
    } else if args[0] == separator() {
        0
    } else {
        1 + first_separator(args.drop_first())
    }
}

proof fn lemma_first_separator(args: Seq<Seq<char>>)
    ensures
        0 <= first_separator(args) <= args.len(),
        first_separator(args) < args.len() ==> args[first_separator(args)] == separator(),
        forall|j: int| 0 <= j < first_separator(args) ==> args[j] != separator(),
    decreases args.len(),
{
    if args.len() > 0 && args[0] != separator() {
        let rest = args.drop_first();
        lemma_first_separator(rest);
        assert forall|j: int| 0 <= j < first_separator(args) implies args[j] != separator() by {
            if j > 0 {
                assert(args[j] == rest[j - 1]);
            }
        }
    }
}

/// A command line split at its first `--`: loom's arguments before it, and,
/// when there is a separator, every token after it.
#[derive(Debug)]
pub struct SplitArgs {
    pub loom: Vec<String>,
    pub forwarded: Option<Vec<String>>,
}

/// Splits at the first `--`. The tokens after it are kept verbatim, a later
/// `--` among them too.
pub fn split_forwarded(args: &[String]) -> (res: SplitArgs)
    ensures
        ({
            let a = args.deep_view();
            let p = first_separator(a);
            &&& res.loom.deep_view() == a.subrange(0, p)
            &&& if p < a.len() {
                res.forwarded matches Some(f) && f.deep_view() == a.subrange(p + 1, a.len() as int)
            } else {
                res.forwarded is None
            }
        }),
{
    let ghost a = args.deep_view();
    proof {
        lemma_first_separator(a);
    }
    let sep = String::from_str("--");
    let mut p: usize = 0;
    while p < args.len() && args[p] != sep
        invariant
            p <= args@.len(),
            a == args.deep_view(),
            sep@ == separator(),
            forall|j: int| 0 <= j < p ==> a[j] != separator(),
            0 <= first_separator(a) <= a.len(),
            first_separator(a) < a.len() ==> a[first_separator(a)] == separator(),
            forall|j: int| 0 <= j < first_separator(a) ==> a[j] != separator(),
        decreases args@.len() - p,
    {
        assert(a[p as int] == args@[p as int]@);
        p = p + 1;
    }
    proof {
        if p < args@.len() {
            assert(a[p as int] == args@[p as int]@);
        }
        assert(p == first_separator(a));
    }
    let mut loom: Vec<String> = Vec::new();
    let mut i: usize = 0;
    while i < p
        invariant
            i <= p <= args@.len(),
            a == args.deep_view(),
            loom.deep_view() == a.subrange(0, i as int),
        decreases p - i,
    {
        let ghost before = loom.deep_view();
        loom.push(args[i].clone());
        assert(a[i as int] == args@[i as int]@);
        assert(loom.deep_view() =~= before.push(args@[i as int]@));
        assert(loom.deep_view() =~= a.subrange(0, i + 1));
        i = i + 1;
    }
    if p < args.len() {
        let mut fwd: Vec<String> = Vec::new();
        let mut k: usize = p + 1;
        assert(a.subrange(p + 1, p + 1) =~= Seq::<Seq<char>>::empty());
        while k < args.len()
            invariant
                p < k <= args@.len(),
                a == args.deep_view(),
                fwd.deep_view() == a.subrange(p + 1, k as int),
            decreases args@.len() - k,
        {
            let ghost before = fwd.deep_view();
            fwd.push(args[k].clone());
            assert(a[k as int] == args@[k as int]@);
            assert(fwd.deep_view() =~= before.push(args@[k as int]@));
            assert(fwd.deep_view() =~= a.subrange(p + 1, k + 1));
            k = k + 1;
        }
        SplitArgs { loom, forwarded: Some(fwd) }
    } else {
        SplitArgs { loom, forwarded: None }
    }
}

/// Putting a split back together gives the command line it came from, and no
/// separator stands among loom's own arguments.
pub proof fn lemma_split_reassembles(args: Seq<Seq<char>>)
    ensures
        ({
            let p = first_separator(args);
            &&& forall|j: int| 0 <= j < p ==> args[j] != separator()
            &&& p < args.len() ==> args =~= args.subrange(0, p) + seq![separator()]
                + args.subrange(p + 1, args.len() as int)
            &&& p == args.len() ==> args =~= args.subrange(0, p)
        }),
{
    lemma_first_separator(args);
}

/// `git show <revisions> <forwarded>`.
pub fn show_args(revisions: &[String], forwarded: &[String]) -> (res: Vec<String>)
    ensures
        res.deep_view() == seq!["show"@] + revisions.deep_view() + forwarded.deep_view(),
{
    let mut v = command("show");
    push_all(&mut v, revisions);
    push_all(&mut v, forwarded);
    v
}

/// `git diff <revisions> <forwarded>`, then `-- <paths>` when file targets
/// were named.
pub fn diff_args(revisions: &[String], forwarded: &[String], paths: &[String]) -> (res: Vec<String>)
    ensures
        res.deep_view() == seq!["diff"@] + revisions.deep_view() + forwarded.deep_view() + (if paths@.len() == 0 {
            Seq::<Seq<char>>::empty()
        } else {
            seq![separator()] + paths.deep_view()
        }),
{
    let mut v = command("diff");
    push_all(&mut v, revisions);
    push_all(&mut v, forwarded);
    let ghost mid = v.deep_view();
    if paths.len() == 0 {
        assert(mid + Seq::<Seq<char>>::empty() =~= mid);
    } else {
        push_word(&mut v, "--");
        push_all(&mut v, paths);
        assert(v.deep_view() =~= mid + (seq![separator()] + paths.deep_view()));
    }
    v
}

/// `git commit <forwarded> <loom's own arguments>`: loom's come last, so an
/// option git resolves last-wins keeps the value loom asked for.
pub fn commit_args(forwarded: &[String], own: &[String]) -> (res: Vec<String>)
    ensures
        res.deep_view() == seq!["commit"@] + forwarded.deep_view() + own.deep_view(),
{
    let mut v = command("commit");
    push_all(&mut v, forwarded);
    push_all(&mut v, own);
    v
}

/// `git add <forwarded> -- <paths>`.
pub fn add_args(forwarded: &[String], paths: &[String]) -> (res: Vec<String>)
    ensures
        res.deep_view() == seq!["add"@] + forwarded.deep_view() + seq![separator()]
            + paths.deep_view(),
{
    let mut v = command("add");
    push_all(&mut v, forwarded);
    push_word(&mut v, "--");
    push_all(&mut v, paths);
    v
}

/// The forwarded tokens reach git as one block, verbatim and in order: after
/// the revisions loom resolved and before any `--` it builds for `diff` and
/// `add`; before loom's own arguments for `commit`.
pub proof fn lemma_forwarded_block(
    revisions: Seq<Seq<char>>,
    forwarded: Seq<Seq<char>>,
    own: Seq<Seq<char>>,
    paths: Seq<Seq<char>>,
)
    ensures
        ({
            let show = seq!["show"@] + revisions + forwarded;
            let r = revisions.len() as int;
            let f = forwarded.len() as int;
            show.subrange(1 + r, 1 + r + f) == forwarded
        }),
        ({
            let diff = seq!["diff"@] + revisions + forwarded + (if paths.len() == 0 {
                Seq::<Seq<char>>::empty()
            } else {
                seq![separator()] + paths
            });
            let r = revisions.len() as int;
            let f = forwarded.len() as int;
            &&& diff.subrange(1 + r, 1 + r + f) == forwarded
            &&& paths.len() > 0 ==> diff[1 + r + f] == separator()
                && diff.subrange(2 + r + f, diff.len() as int) == paths
        }),
        ({
            let commit = seq!["commit"@] + forwarded + own;
            let f = forwarded.len() as int;
            &&& commit.subrange(1, 1 + f) == forwarded
            &&& commit.subrange(1 + f, commit.len() as int) == own
        }),
        ({
            let add = seq!["add"@] + forwarded + seq![separator()] + paths;
            let f = forwarded.len() as int;
            &&& add.subrange(1, 1 + f) == forwarded
            &&& add[1 + f] == separator()
            &&& add.subrange(2 + f, add.len() as int) == paths
        }),
{
    let r = revisions.len() as int;
    let f = forwarded.len() as int;
    let show = seq!["show"@] + revisions + forwarded;
    assert(show.subrange(1 + r, 1 + r + f) =~= forwarded);
    let tail = if paths.len() == 0 {
        Seq::<Seq<char>>::empty()
    } else {
        seq![separator()] + paths
    };
    let diff = seq!["diff"@] + revisions + forwarded + tail;
    assert(diff.subrange(1 + r, 1 + r + f) =~= forwarded);
    if paths.len() > 0 {
        assert(diff[1 + r + f] == tail[0]);
        assert(diff.subrange(2 + r + f, diff.len() as int) =~= paths);
    }
    let commit = seq!["commit"@] + forwarded + own;
    assert(commit.subrange(1, 1 + f) =~= forwarded);
    assert(commit.subrange(1 + f, commit.len() as int) =~= own);
    let add = seq!["add"@] + forwarded + seq![separator()] + paths;
    assert(add.subrange(1, 1 + f) =~= forwarded);
    assert(add.subrange(2 + f, add.len() as int) =~= paths);
}

/// The loom commands that can forward arguments.
#[derive(Debug, Clone, Copy, PartialEq, Eq, Structural)]
pub enum ForwardingCommand {
    Show,
    Diff,
    Commit,
    Add,
    Fold,
}

/// Whether the git command runs captured, its output going to the trace log:
/// `show` and `diff` exist to display and never are; `fold` reads what git did
/// and always is; `add` and `commit` step back once they carry forwarded
/// arguments, except in agent mode, where nobody could close an editor.
pub open spec fn captured(cmd: ForwardingCommand, has_forwarded: bool, agent_mode: bool) -> bool {
    match cmd {
        ForwardingCommand::Show | ForwardingCommand::Diff => false,
        ForwardingCommand::Fold => true,
        ForwardingCommand::Commit | ForwardingCommand::Add => !has_forwarded || agent_mode,
    }
}

/// Decides, as `captured` says, whether the git command runs captured.
pub fn runs_captured(cmd: ForwardingCommand, has_forwarded: bool, agent_mode: bool) -> (res: bool)
    ensures
        res == captured(cmd, has_forwarded, agent_mode),
{
    match cmd {
        ForwardingCommand::Show | ForwardingCommand::Diff => false,
        ForwardingCommand::Fold => true,
        ForwardingCommand::Commit | ForwardingCommand::Add => !has_forwarded || agent_mode,
    }
}

/// `add` prints its own "Staged N file(s)" line only without forwarded
/// arguments: with them, what was staged is the forwarded option's business.
pub fn add_reports_staged_count(has_forwarded: bool) -> (res: bool)
    ensures
        res == !has_forwarded,
{
    !has_forwarded
}

/// What a fold does.
#[derive(Debug, Clone, Copy, PartialEq, Eq, Structural)]
pub enum FoldOperation {
    /// Amend files into a commit.
    AmendFiles,
    /// Amend the staged changes into a commit.
    AmendStaged,
    /// Amend every change (`zz`) into a commit.
    AmendEverything,
    /// Move a file's changes from one commit to another.
    MoveFileChanges,
    /// Move a file's changes back to the working tree.
    UncommitFile,
    /// Any `-p` form: amend the picked hunks.
    Hunks,
    /// Fixup one commit into another.
    Fixup,
    /// Move a commit to another branch.
    MoveCommit,
    /// Turn a commit back into working tree changes.
    Uncommit,
    /// `-c`: fold into a new commit.
    CreateCommit,
    /// `--above` or `--below`: place a commit next to another.
    Place,
}

/// Whether the operation makes a commit of its own, and so runs `git commit`.
pub open spec fn makes_commit(op: FoldOperation) -> bool {
    match op {
        FoldOperation::AmendFiles | FoldOperation::AmendStaged | FoldOperation::AmendEverything
        | FoldOperation::MoveFileChanges | FoldOperation::UncommitFile | FoldOperation::Hunks => true,
        _ => false,
    }
}

/// The name a refusal gives a whole-commit operation.
pub open spec fn operation_name(op: FoldOperation) -> Seq<char> {
    match op {
        FoldOperation::Fixup => "a fixup"@,
        FoldOperation::MoveCommit => "moving a commit"@,
        FoldOperation::Uncommit => "an uncommit"@,
        FoldOperation::CreateCommit => "`-c`"@,
        FoldOperation::Place => "`--above`/`--below`"@,
        _ => "a fold"@,
    }
}

/// Forwarded arguments given where no git command can take them.
#[derive(Debug)]
pub enum ForwardError {
    /// A whole-commit fold only rebases.
    NoCommitToForwardTo(FoldOperation),
    /// Interactive `add` stages by applying a patch; no `git add` runs.
    InteractiveAdd,
    /// An option loom does not define, given before the separator.
    UnexpectedOption(String),
    /// An argument loom does not take, given before the separator.
    UnexpectedArgument(String),
}

impl ForwardError {
    /// The message shown to the user.
    pub fn message(&self) -> (res: String)
        ensures
            res@ == match self {
                ForwardError::NoCommitToForwardTo(op) => operation_name(*op)
                    + " runs no `git commit`, so it takes no arguments after `--`"@,
                ForwardError::InteractiveAdd => "staging hunks interactively takes no `git add` arguments after `--`"@,
                ForwardError::UnexpectedOption(o) => "unexpected option `"@ + o@
                    + "`\ntip: to pass it to git, put it after `--`"@,
                ForwardError::UnexpectedArgument(a) => "unexpected argument `"@ + a@ + "`"@,
            },
    {
        match self {
            ForwardError::NoCommitToForwardTo(op) => {
                let mut msg = match op {
                    FoldOperation::Fixup => String::from_str("a fixup"),
                    FoldOperation::MoveCommit => String::from_str("moving a commit"),
                    FoldOperation::Uncommit => String::from_str("an uncommit"),
                    FoldOperation::CreateCommit => String::from_str("`-c`"),
                    FoldOperation::Place => String::from_str("`--above`/`--below`"),
                    _ => String::from_str("a fold"),
                };
                msg.append(" runs no `git commit`, so it takes no arguments after `--`");
                msg
            },
            ForwardError::InteractiveAdd => String::from_str(
                "staging hunks interactively takes no `git add` arguments after `--`",
            ),
            ForwardError::UnexpectedOption(o) => {
                let mut msg = String::from_str("unexpected option `");
                msg.append(o.as_str());
                msg.append("`\ntip: to pass it to git, put it after `--`");
                msg
            },
            ForwardError::UnexpectedArgument(a) => {
                let mut msg = String::from_str("unexpected argument `");
                msg.append(a.as_str());
                msg.append("`");
                msg
            },
        }
    }
}

/// Whether a token before the separator is an option.
pub open spec fn is_option(arg: Seq<char>) -> bool {
    arg.len() > 0 && arg[0] == '-'
}

/// The first option among `args`, if any.
pub open spec fn first_option(args: Seq<Seq<char>>) -> Option<Seq<char>>
    decreases args.len(),
{
    if args.len() == 0 {
        None
    } else if is_option(args[0]) {
        Some(args[0])
    } else {
        first_option(args.drop_first())
    }
}

/// Loom parses strictly before the separator: where `args` are to hold no
/// option, the first option among them is refused, named.
pub fn check_no_options(args: &[String]) -> (res: Result<(), ForwardError>)
    ensures
        match first_option(args.deep_view()) {
            None => res is Ok,
            Some(o) => res matches Err(ForwardError::UnexpectedOption(s)) && s@ == o,
        },
{
    let ghost all = args.deep_view();
    let n = args.len();
    let mut i: usize = 0;
    assert(all.subrange(0, n as int) =~= all);
    while i < n
        invariant
            n == args@.len(),
            i <= n,
            all == args.deep_view(),
            first_option(all.subrange(i as int, n as int)) == first_option(all),
        decreases n - i,
    {
        let ghost rest = all.subrange(i as int, n as int);
        assert(rest[0] == args@[i as int]@);
        let a = args[i].as_str();
        if a.unicode_len() > 0 && a.get_char(0) == '-' {
            return Err(ForwardError::UnexpectedOption(args[i].clone()));
        }
        assert(rest.drop_first() =~= all.subrange(i + 1, n as int));
        i = i + 1;
    }
    assert(all.subrange(n as int, n as int) =~= Seq::<Seq<char>>::empty());
    Ok(())
}

/// Whether an `add` argument asks for the hunk picker.
pub open spec fn is_patch_flag(arg: Seq<char>) -> bool {
    arg == "-p"@ || arg == "--patch"@
}

/// The `add` arguments other than `-p` and `--patch`, in order.
pub open spec fn without_patch_flags(args: Seq<Seq<char>>) -> Seq<Seq<char>>
    decreases args.len(),
{
    if args.len() == 0 {
        Seq::empty()
    } else if is_patch_flag(args.last()) {
        without_patch_flags(args.drop_last())
    } else {
        without_patch_flags(args.drop_last()).push(args.last())
    }
}

/// What `add` makes of its own arguments.
#[derive(Debug)]
pub struct AddArgs {
    /// `-p` or `--patch` was given.
    pub patch: bool,
    /// The other arguments: the files to stage.
    pub files: Vec<String>,
}

/// Splits `add`'s own arguments into the picker flag and the files.
pub fn parse_add_args(args: &[String]) -> (res: AddArgs)
    ensures
        res.patch == exists|i: int| 0 <= i < args@.len() && #[trigger] is_patch_flag(args@[i]@),
        res.files.deep_view() == without_patch_flags(args.deep_view()),
{
    let ghost all = args.deep_view();
    let n = args.len();
    let short = String::from_str("-p");
    let long = String::from_str("--patch");
    let mut patch = false;
    let mut files: Vec<String> = Vec::new();
    let mut k: usize = 0;
    assert(all.subrange(0, 0) =~= Seq::<Seq<char>>::empty());
    assert(files.deep_view() =~= Seq::<Seq<char>>::empty());
    while k < n
        invariant
            n == args@.len(),
            k <= n,
            all == args.deep_view(),
            short@ == "-p"@,
            long@ == "--patch"@,
            patch == exists|i: int| 0 <= i < k && #[trigger] is_patch_flag(args@[i]@),
            files.deep_view() == without_patch_flags(all.subrange(0, k as int)),
        decreases n - k,
    {
        let ghost sub = all.subrange(0, k + 1);
        assert(sub.drop_last() =~= all.subrange(0, k as int));
        assert(sub.last() == args@[k as int]@);
        let flag = args[k] == short || args[k] == long;
        assert(flag == is_patch_flag(args@[k as int]@));
        if flag {
            patch = true;
        } else {
            let ghost before = files.deep_view();
            files.push(args[k].clone());
            assert(files.deep_view() =~= before.push(args@[k as int]@));
        }
        proof {
            if patch {
                if !flag {
                    let i = choose|i: int| 0 <= i < k && #[trigger] is_patch_flag(args@[i]@);
                    assert(0 <= i < k + 1 && is_patch_flag(args@[i]@));
                }
            } else {
                assert forall|i: int| 0 <= i < k + 1 implies !#[trigger] is_patch_flag(args@[i]@) by {
                    if i == k {
                        assert(!flag);
                    }
                }
            }
        }
        k = k + 1;
    }
    assert(all.subrange(0, n as int) =~= all);
    AddArgs { patch, files }
}

/// `commit`'s own arguments in the one form it takes: `-m` or `--message`
/// and the message.
pub open spec fn is_message_form(args: Seq<Seq<char>>) -> bool {
    args.len() == 2 && (args[0] == "-m"@ || args[0] == "--message"@)
}

/// Reads `commit`'s own arguments: nothing, or a message, which reaches git
/// as `-m <message>`. Anything else is refused: its first option, or else its
/// first argument.
pub fn commit_own_args(args: &[String]) -> (res: Result<Vec<String>, ForwardError>)
    ensures
        args@.len() == 0 ==> (res matches Ok(v) && v.deep_view() == Seq::<Seq<char>>::empty()),
        is_message_form(args.deep_view()) ==> (res matches Ok(v) && v.deep_view() == seq![
            "-m"@,
            args@[1]@,
        ]),
        args@.len() > 0 && !is_message_form(args.deep_view()) ==> match first_option(
            args.deep_view(),
        ) {
            Some(o) => res matches Err(ForwardError::UnexpectedOption(s)) && s@ == o,
            None => res matches Err(ForwardError::UnexpectedArgument(s)) && s@ == args@[0]@,
        },
{
    let n = args.len();
    if n == 0 {
        let v: Vec<String> = Vec::new();
        assert(v.deep_view() =~= Seq::<Seq<char>>::empty());
        return Ok(v);
    }
    let short = String::from_str("-m");
    let long = String::from_str("--message");
    if n == 2 && (args[0] == short || args[0] == long) {
        let mut v = command("-m");
        push_word(&mut v, args[1].as_str());
        assert(v.deep_view() =~= seq!["-m"@, args@[1]@]);
        return Ok(v);
    }
    match check_no_options(args) {
        Err(e) => Err(e),
        Ok(()) => Err(ForwardError::UnexpectedArgument(args[0].clone())),
    }
}

/// A fold takes forwarded arguments only when it makes a commit.
pub fn check_fold_forwarding(op: FoldOperation, has_forwarded: bool) -> (res: Result<(), ForwardError>)
    ensures
        res is Ok <==> (!has_forwarded || makes_commit(op)),
        res matches Err(e) ==> e == ForwardError::NoCommitToForwardTo(op),
{
    if !has_forwarded {
        return Ok(());
    }
    match op {
        FoldOperation::AmendFiles | FoldOperation::AmendStaged | FoldOperation::AmendEverything
        | FoldOperation::MoveFileChanges | FoldOperation::UncommitFile | FoldOperation::Hunks => Ok(()),
        _ => Err(ForwardError::NoCommitToForwardTo(op)),
    }
}

/// How `add` stages.
#[derive(Debug, Clone, Copy, PartialEq, Eq, Structural)]
pub enum AddMode {
    /// `git add` of the named files.
    Files,
    /// The hunk picker: `-p`, or no files named.
    Interactive,
}

/// `add -p`, and `add` with no files, open the picker; the picker runs no
/// `git add`, so forwarded arguments are refused there.
pub fn add_mode(patch: bool, file_count: usize, has_forwarded: bool) -> (res: Result<AddMode, ForwardError>)
    ensures
        (patch || file_count == 0) ==> (if has_forwarded {
            res matches Err(e) && e == ForwardError::InteractiveAdd
        } else {
            res == Ok::<AddMode, ForwardError>(AddMode::Interactive)
        }),
        !(patch || file_count == 0) ==> res == Ok::<AddMode, ForwardError>(AddMode::Files),
{
    if patch || file_count == 0 {
        if has_forwarded {
            Err(ForwardError::InteractiveAdd)
        } else {
            Ok(AddMode::Interactive)
        }
    } else {
        Ok(AddMode::Files)
    }
}

} // verus!
