//! Which files a fold takes from its path arguments.
use vstd::prelude::*;

verus! {

/// The short ID that the status display shows for a changed file.
#[derive(Debug)]
pub struct FileId {
    pub short_id: String,
    pub path: String,
}

/// What is changed in the working tree now: the changed paths, and the short
/// IDs of the changed files.
#[derive(Debug)]
pub struct ChangedFiles {
    pub paths: Vec<String>,
    pub ids: Vec<FileId>,
}

/// Arguments that name neither a changed path nor a changed file's short ID.
#[derive(Debug)]
pub enum TargetError {
    /// Every such argument, in the order given.
    NamesNothing(Vec<String>),
}

/// The path that the first short ID equal to `arg` names, searching `ids`
/// from the front.
pub open spec fn id_target(ids: Seq<FileId>, arg: Seq<char>) -> Option<Seq<char>>
    decreases ids.len(),
{
    if ids.len() == 0 {
        None
    } else if ids[0].short_id@ == arg {
        Some(ids[0].path@)
    } else {
        id_target(ids.drop_first(), arg)
    }
}

/// What one argument stands for: a changed path stands for itself, and
/// otherwise a short ID stands for the file it names. A path that is not
/// changed names nothing, even where such a file exists: a fold has nothing of
/// it to take, so it is refused like any other argument that names nothing.
pub open spec fn arg_target(changes: ChangedFiles, arg: Seq<char>) -> Option<Seq<char>> {
    if changes.paths.deep_view().contains(arg) {
        Some(arg)
    } else {
        id_target(changes.ids@, arg)
    }
}

/// What the arguments name, in order, skipping those that name nothing.
pub open spec fn named_targets(changes: ChangedFiles, args: Seq<Seq<char>>) -> Seq<Seq<char>>
    decreases args.len(),
{
    if args.len() == 0 {
        Seq::empty()
    } else {
        match arg_target(changes, args.last()) {
            Some(t) => named_targets(changes, args.drop_last()).push(t),
            None => named_targets(changes, args.drop_last()),
        }
    }
}

/// The arguments that name nothing, in order.
pub open spec fn unnamed_args(changes: ChangedFiles, args: Seq<Seq<char>>) -> Seq<Seq<char>>
    decreases args.len(),
{
    if args.len() == 0 {
        Seq::empty()
    } else {
        match arg_target(changes, args.last()) {
            Some(_) => unnamed_args(changes, args.drop_last()),
            None => unnamed_args(changes, args.drop_last()).push(args.last()),
        }
    }
}

/// The argument that means every change.
pub open spec fn every_change_arg() -> Seq<char> {
    "zz"@
}

/// `Ok(None)`: every change; `Ok(Some(paths))`: those paths; `Err(args)`:
/// every argument that names nothing.
pub open spec fn filter_spec(changes: ChangedFiles, args: Seq<Seq<char>>) -> Result<
    Option<Seq<Seq<char>>>,
    Seq<Seq<char>>,
> {
    if args.len() == 0 || args.contains(every_change_arg()) {
        Ok(None)
    } else if unnamed_args(changes, args).len() > 0 {
        Err(unnamed_args(changes, args))
    } else {
        Ok(Some(named_targets(changes, args)))
    }
}

/// The result of `filter_paths` agrees with `filter_spec`.
pub open spec fn filter_result_matches(
    changes: ChangedFiles,
    args: Seq<Seq<char>>,
    res: Result<Option<Vec<String>>, TargetError>,
) -> bool {
    match filter_spec(changes, args) {
        Ok(None) => res matches Ok(None),
        Ok(Some(paths)) => res matches Ok(Some(v)) && v.deep_view() == paths,
        Err(a) => res matches Err(TargetError::NamesNothing(v)) && v.deep_view() == a,
    }
}

/// The arguments in backquotes, separated by commas.
pub open spec fn quoted_list(args: Seq<Seq<char>>) -> Seq<char>
    decreases args.len(),
{
    if args.len() == 0 {
        Seq::empty()
    } else if args.len() == 1 {
        "`"@ + args[0] + "`"@
    } else {
        quoted_list(args.drop_last()) + ", `"@ + args.last() + "`"@
    }
}

impl TargetError {
    /// The message shown to the user; it names every argument that names
    /// nothing.
    pub fn message(&self) -> (res: String)
        ensures
            match self {
                TargetError::NamesNothing(args) => res@ == quoted_list(args.deep_view()) + if args@.len() == 1 {
                    " is neither a changed file nor the short ID of one"@
                } else {
                    " are neither changed files nor short IDs of them"@
                },
            },
    {
        match self {
            TargetError::NamesNothing(args) => {
                let ghost all = args.deep_view();
                let mut msg = String::new();
                let mut i: usize = 0;
                assert(all.subrange(0, 0) =~= Seq::<Seq<char>>::empty());
                while i < args.len()
                    invariant
                        i <= args@.len(),
                        all == args.deep_view(),
                        msg@ == quoted_list(all.subrange(0, i as int)),
                    decreases args@.len() - i,
                {
                    let ghost sub = all.subrange(0, i + 1);
                    assert(sub.drop_last() =~= all.subrange(0, i as int));
                    assert(sub.last() == args@[i as int]@);
                    if i == 0 {
                        msg.append("`");
                        assert(sub[0] == args@[0]@);
                    } else {
                        msg.append(", `");
                    }
                    msg.append(args[i].as_str());
                    msg.append("`");
                    proof {
                        if i == 0 {
                            assert(msg@ =~= quoted_list(sub));
                        } else {
                            assert(msg@ =~= quoted_list(sub));
                        }
                    }
                    i = i + 1;
                }
                assert(all.subrange(0, args@.len() as int) =~= all);
                if args.len() == 1 {
                    msg.append(" is neither a changed file nor the short ID of one");
                } else {
                    msg.append(" are neither changed files nor short IDs of them");
                }
                msg
            },
        }
    }
}

fn is_changed_path(paths: &Vec<String>, arg: &String) -> (res: bool)
    ensures
        res == paths.deep_view().contains(arg@),
{
    let n = paths.len();
    let mut i: usize = 0;
    while i < n
        invariant
            n == paths@.len(),
            i <= n,
            forall|j: int| 0 <= j < i ==> (#[trigger] paths@[j])@ != arg@,
        decreases n - i,
    {
        if paths[i] == *arg {
            assert(paths.deep_view()[i as int] == arg@);
            return true;
        }
        i = i + 1;
    }
    assert forall|j: int| 0 <= j < paths.deep_view().len() implies paths.deep_view()[j] != arg@ by {
        assert(paths.deep_view()[j] == paths@[j]@);
    }
    false
}

fn find_id(ids: &Vec<FileId>, arg: &String) -> (res: Option<String>)
    ensures
        match id_target(ids@, arg@) {
            None => res is None,
            Some(p) => res matches Some(s) && s@ == p,
        },
{
    let n = ids.len();
    let mut i: usize = 0;
    assert(ids@.subrange(0, n as int) =~= ids@);
    while i < n
        invariant
            n == ids@.len(),
            i <= n,
            id_target(ids@, arg@) == id_target(ids@.subrange(i as int, n as int), arg@),
        decreases n - i,
    {
        assert(ids@.subrange(i as int, n as int).drop_first() =~= ids@.subrange(i + 1, n as int));
        if ids[i].short_id == *arg {
            return Some(ids[i].path.clone());
        }
        i = i + 1;
    }
    None
}

fn resolve_arg(changes: &ChangedFiles, arg: &String) -> (res: Option<String>)
    ensures
        match arg_target(*changes, arg@) {
            None => res is None,
            Some(p) => res matches Some(s) && s@ == p,
        },
{
    if is_changed_path(&changes.paths, arg) {
        Some(arg.clone())
    } else {
        find_id(&changes.ids, arg)
    }
}

/// The files a fold takes from its arguments: `None` for every change (no
/// arguments, or `zz` among them); otherwise what each argument names, in
/// order. Arguments naming nothing are refused, all of them named.
pub fn filter_paths(changes: &ChangedFiles, args: &Vec<String>) -> (res: Result<
    Option<Vec<String>>,
    TargetError,
>)
    ensures
        filter_result_matches(*changes, args.deep_view(), res),
{
    let n = args.len();
    if n == 0 {
        return Ok(None);
    }
    let zz = String::from_str("zz");
    let mut i: usize = 0;
    while i < n
        invariant
            n == args@.len(),
            i <= n,
            zz@ == every_change_arg(),
            forall|j: int| 0 <= j < i ==> (#[trigger] args@[j])@ != every_change_arg(),
        decreases n - i,
    {
        if args[i] == zz {
            assert(args.deep_view()[i as int] == every_change_arg());
            return Ok(None);
        }
        i = i + 1;
    }
    assert(!args.deep_view().contains(every_change_arg())) by {
        assert forall|j: int| 0 <= j < args.deep_view().len() implies args.deep_view()[j] != every_change_arg() by {
            assert(args.deep_view()[j] == args@[j]@);
        }
    }
    let ghost all = args.deep_view();
    let mut paths: Vec<String> = Vec::new();
    let mut missing: Vec<String> = Vec::new();
    let mut k: usize = 0;
    assert(all.subrange(0, 0) =~= Seq::<Seq<char>>::empty());
    assert(paths.deep_view() =~= Seq::<Seq<char>>::empty());
    assert(missing.deep_view() =~= Seq::<Seq<char>>::empty());
    while k < n
        invariant
            n == args@.len(),
            k <= n,
            all == args.deep_view(),
            paths.deep_view() == named_targets(*changes, all.subrange(0, k as int)),
            missing.deep_view() == unnamed_args(*changes, all.subrange(0, k as int)),
        decreases n - k,
    {
        let ghost sub = all.subrange(0, k + 1);
        assert(sub.drop_last() =~= all.subrange(0, k as int));
        assert(sub.last() == args@[k as int]@);
        match resolve_arg(changes, &args[k]) {
            None => {
                let ghost before = missing.deep_view();
                missing.push(args[k].clone());
                assert(missing.deep_view() =~= before.push(args@[k as int]@));
            },
            Some(p) => {
                let ghost before = paths.deep_view();
                paths.push(p);
                assert(paths.deep_view() =~= before.push(arg_target(*changes, all[k as int])->Some_0));
            },
        }
        k = k + 1;
    }
    assert(all.subrange(0, n as int) =~= all);
    if missing.len() > 0 {
        Err(TargetError::NamesNothing(missing))
    } else {
        Ok(Some(paths))
    }
}

/// `filter_paths` on arguments given as string slices.
pub fn filter(changes: &ChangedFiles, args: &[&str]) -> (res: Result<
    Option<Vec<String>>,
    TargetError,
>)
    ensures
        filter_result_matches(*changes, Seq::new(args@.len(), |i: int| args@[i]@), res),
{
    let mut owned: Vec<String> = Vec::new();
    let mut i: usize = 0;
    while i < args.len()
        invariant
            i <= args@.len(),
            owned@.len() == i,
            forall|j: int| 0 <= j < i ==> (#[trigger] owned@[j])@ == args@[j]@,
        decreases args@.len() - i,
    {
        owned.push(String::from_str(args[i]));
        i = i + 1;
    }
    assert(owned.deep_view() =~= Seq::new(args@.len(), |i: int| args@[i]@));
    filter_paths(changes, &owned)
}

/// Whether a `diff` argument is a file target (`zz`, a changed path or a
/// changed file's short ID) rather than a revision.
pub open spec fn is_file_target(changes: ChangedFiles, arg: Seq<char>) -> bool {
    arg == every_change_arg() || arg_target(changes, arg) is Some
}

/// The `diff` arguments that are revisions, in order.
pub open spec fn diff_revisions(changes: ChangedFiles, args: Seq<Seq<char>>) -> Seq<Seq<char>>
    decreases args.len(),
{
    if args.len() == 0 {
        Seq::empty()
    } else if is_file_target(changes, args.last()) {
        diff_revisions(changes, args.drop_last())
    } else {
        diff_revisions(changes, args.drop_last()).push(args.last())
    }
}

/// The paths a `diff` is limited to: every changed path for `zz`, else what
/// the file targets name, in order (none when there are none).
pub open spec fn diff_paths(changes: ChangedFiles, args: Seq<Seq<char>>) -> Seq<Seq<char>> {
    if args.contains(every_change_arg()) {
        changes.paths.deep_view()
    } else {
        named_targets(changes, args)
    }
}

/// What `diff` makes of its own arguments.
#[derive(Debug)]
pub struct DiffSelection {
    /// The revisions to compare, in order.
    pub revisions: Vec<String>,
    /// The paths to limit the diff to; none limits nothing.
    pub paths: Vec<String>,
}

/// `diff` arguments that are file targets limit the diff to the files they
/// name; all the others are revisions.
pub fn diff_selection(changes: &ChangedFiles, args: &Vec<String>) -> (res: DiffSelection)
    ensures
        res.revisions.deep_view() == diff_revisions(*changes, args.deep_view()),
        res.paths.deep_view() == diff_paths(*changes, args.deep_view()),
{
    let ghost all = args.deep_view();
    let n = args.len();
    let zz = String::from_str("zz");
    let mut every = false;
    let mut revisions: Vec<String> = Vec::new();
    let mut paths: Vec<String> = Vec::new();
    let mut k: usize = 0;
    assert(all.subrange(0, 0) =~= Seq::<Seq<char>>::empty());
    assert(paths.deep_view() =~= Seq::<Seq<char>>::empty());
    assert(revisions.deep_view() =~= Seq::<Seq<char>>::empty());
    while k < n
        invariant
            n == args@.len(),
            k <= n,
            all == args.deep_view(),
            zz@ == every_change_arg(),
            every == all.subrange(0, k as int).contains(every_change_arg()),
            paths.deep_view() == named_targets(*changes, all.subrange(0, k as int)),
            revisions.deep_view() == diff_revisions(*changes, all.subrange(0, k as int)),
        decreases n - k,
    {
        let ghost sub = all.subrange(0, k + 1);
        assert(sub.drop_last() =~= all.subrange(0, k as int));
        assert(sub.last() == args@[k as int]@);
        let is_zz = args[k] == zz;
        proof {
            if is_zz {
                assert(sub[k as int] == every_change_arg());
            } else if sub.contains(every_change_arg()) {
                let i = choose|i: int| 0 <= i < sub.len() && sub[i] == every_change_arg();
                assert(i < k);
                assert(all.subrange(0, k as int)[i] == every_change_arg());
            } else {
                assert forall|i: int| 0 <= i < k implies all.subrange(0, k as int)[i] != every_change_arg() by {
                    assert(sub[i] == all.subrange(0, k as int)[i]);
                }
            }
        }
        every = every || is_zz;
        match resolve_arg(changes, &args[k]) {
            None => {
                if !is_zz {
                    let ghost before = revisions.deep_view();
                    revisions.push(args[k].clone());
                    assert(revisions.deep_view() =~= before.push(args@[k as int]@));
                }
            },
            Some(p) => {
                let ghost before = paths.deep_view();
                paths.push(p);
                assert(paths.deep_view() =~= before.push(arg_target(*changes, all[k as int])->Some_0));
            },
        }
        k = k + 1;
    }
    assert(all.subrange(0, n as int) =~= all);
    if every {
        let mut everything: Vec<String> = Vec::new();
        let mut i: usize = 0;
        while i < changes.paths.len()
            invariant
                i <= changes.paths@.len(),
                everything@.len() == i,
                forall|j: int| 0 <= j < i ==> (#[trigger] everything@[j])@ == changes.paths@[j]@,
            decreases changes.paths@.len() - i,
        {
            everything.push(changes.paths[i].clone());
            i = i + 1;
        }
        assert(everything.deep_view() =~= changes.paths.deep_view());
        DiffSelection { revisions, paths: everything }
    } else {
        DiffSelection { revisions, paths }
    }
}

/// Changed paths name themselves: arguments that are all changed paths come
/// back as they were given, in order.
pub proof fn lemma_changed_paths_name_themselves(changes: ChangedFiles, args: Seq<Seq<char>>)
    requires
        forall|i: int| 0 <= i < args.len() ==> changes.paths.deep_view().contains(#[trigger] args[i]),
    ensures
        named_targets(changes, args) == args,
        unnamed_args(changes, args).len() == 0,
        args.len() > 0 && !args.contains(every_change_arg()) ==> filter_spec(changes, args)
            == Ok::<Option<Seq<Seq<char>>>, Seq<Seq<char>>>(Some(args)),
    decreases args.len(),
{
    if args.len() > 0 {
        let init = args.drop_last();
        assert forall|i: int| 0 <= i < init.len() implies changes.paths.deep_view().contains(
            #[trigger] init[i],
        ) by {
            assert(init[i] == args[i]);
        }
        lemma_changed_paths_name_themselves(changes, init);
        assert(changes.paths.deep_view().contains(args[args.len() - 1]));
        assert(init.push(args.last()) =~= args);
    } else {
        assert(args =~= Seq::<Seq<char>>::empty());
    }
}

/// Every argument that names nothing is reported, in order, and only those.
pub proof fn lemma_every_unnamed_arg_is_reported(changes: ChangedFiles, args: Seq<Seq<char>>)
    ensures
        forall|i: int|
            0 <= i < args.len() && arg_target(changes, #[trigger] args[i]) is None
                ==> unnamed_args(changes, args).contains(args[i]),
        forall|k: int|
            0 <= k < unnamed_args(changes, args).len() ==> arg_target(
                changes,
                #[trigger] unnamed_args(changes, args)[k],
            ) is None,
    decreases args.len(),
{
    if args.len() > 0 {
        let init = args.drop_last();
        lemma_every_unnamed_arg_is_reported(changes, init);
        let u = unnamed_args(changes, args);
        let v = unnamed_args(changes, init);
        assert forall|i: int| 0 <= i < args.len() && arg_target(changes, #[trigger] args[i]) is None implies u.contains(args[i]) by {
            if i < init.len() {
                assert(init[i] == args[i]);
                let k = choose|k: int| 0 <= k < v.len() && v[k] == init[i];
                if arg_target(changes, args.last()) is None {
                    assert(u[k] == v[k]);
                }
            } else {
                assert(u[u.len() - 1] == args.last());
            }
        }
        assert forall|k: int| 0 <= k < u.len() implies arg_target(changes, #[trigger] u[k]) is None by {
            if k < v.len() {
                assert(u[k] == v[k]);
            }
        }
    }
}

/// Every short ID names a changed path, as the IDs that the status display
/// hands out for changed files do.
pub open spec fn ids_name_changes(changes: ChangedFiles) -> bool {
    forall|i: int|
        0 <= i < changes.ids@.len() ==> changes.paths.deep_view().contains(
            #[trigger] changes.ids@[i].path@,
        )
}

proof fn lemma_id_target_is_an_id_path(ids: Seq<FileId>, arg: Seq<char>)
    ensures
        id_target(ids, arg) matches Some(p) ==> exists|i: int|
            0 <= i < ids.len() && #[trigger] ids[i].path@ == p,
    decreases ids.len(),
{
    if ids.len() > 0 && ids[0].short_id@ != arg {
        lemma_id_target_is_an_id_path(ids.drop_first(), arg);
        if let Some(p) = id_target(ids, arg) {
            let i = choose|i: int| 0 <= i < ids.drop_first().len() && #[trigger] ids.drop_first()[i].path@ == p;
            assert(ids[i + 1].path@ == p);
        }
    } else if ids.len() > 0 {
        assert(ids[0].path@ == id_target(ids, arg)->Some_0);
    }
}

proof fn lemma_named_targets_are_changed(changes: ChangedFiles, args: Seq<Seq<char>>)
    requires
        ids_name_changes(changes),
    ensures
        forall|k: int|
            0 <= k < named_targets(changes, args).len() ==> changes.paths.deep_view().contains(
                #[trigger] named_targets(changes, args)[k],
            ),
    decreases args.len(),
{
    if args.len() > 0 {
        let init = args.drop_last();
        lemma_named_targets_are_changed(changes, init);
        let n = named_targets(changes, args);
        let m = named_targets(changes, init);
        if let Some(t) = arg_target(changes, args.last()) {
            if !changes.paths.deep_view().contains(args.last()) {
                lemma_id_target_is_an_id_path(changes.ids@, args.last());
                let i = choose|i: int| 0 <= i < changes.ids@.len() && #[trigger] changes.ids@[i].path@ == t;
                assert(changes.paths.deep_view().contains(changes.ids@[i].path@));
            }
            assert forall|k: int| 0 <= k < n.len() implies changes.paths.deep_view().contains(#[trigger] n[k]) by {
                if k < m.len() {
                    assert(n[k] == m[k]);
                }
            }
        }
    }
}

/// A fold takes only changed files: where every short ID names a changed
/// path, every path that the arguments name is a changed one.
pub proof fn lemma_only_changes_are_taken(changes: ChangedFiles, args: Seq<Seq<char>>)
    requires
        ids_name_changes(changes),
    ensures
        filter_spec(changes, args) matches Ok(Some(v)) ==> forall|k: int|
            0 <= k < v.len() ==> changes.paths.deep_view().contains(#[trigger] v[k]),
{
    lemma_named_targets_are_changed(changes, args);
}

/// `zz` means every change, whatever else is named beside it.
pub proof fn lemma_zz_means_every_change(changes: ChangedFiles, args: Seq<Seq<char>>)
    requires
        args.contains(every_change_arg()),
    ensures
        filter_spec(changes, args) == Ok::<Option<Seq<Seq<char>>>, Seq<Seq<char>>>(None),
{
}

} // verus!
