//! Reading the changed paths out of `git status --porcelain=v1 -z`.
use vstd::prelude::*;

verus! {

/// The non-empty records of `s[i..]`, where records are separated by NUL and
/// the record under way began at `start`.
pub open spec fn records_from(s: Seq<char>, i: int, start: int) -> Seq<Seq<char>>
    decreases s.len() - i,
{
    if i >= s.len() {
        if start < s.len() {
            seq![s.subrange(start, s.len() as int)]
        } else {
            Seq::empty()
        }
    } else if s[i] == '\0' {
        if start < i {
            seq![s.subrange(start, i)] + records_from(s, i + 1, i + 1)
        } else {
            records_from(s, i + 1, i + 1)
        }
    } else {
        records_from(s, i + 1, start)
    }
}

/// The non-empty NUL-separated records of `s`, in order.
pub open spec fn records(s: Seq<char>) -> Seq<Seq<char>> {
    records_from(s, 0, 0)
}

/// Whether a status record is a rename or a copy, which the next record
/// follows with the source path.
pub open spec fn has_source_record(r: Seq<char>) -> bool {
    r[0] == 'R' || r[0] == 'C'
}

/// The paths that the records name: each record of at least four characters
/// is a two-letter status, a space and the path; a rename's or copy's source
/// path, in the record after it, is no changed path of its own. Shorter
/// records are passed over.
pub open spec fn record_paths(recs: Seq<Seq<char>>) -> Seq<Seq<char>>
    decreases recs.len(),
{
    if recs.len() == 0 {
        Seq::empty()
    } else if recs[0].len() < 4 {
        record_paths(recs.drop_first())
    } else if has_source_record(recs[0]) && recs.len() >= 2 {
        seq![recs[0].subrange(3, recs[0].len() as int)] + record_paths(recs.subrange(2, recs.len() as int))
    } else {
        seq![recs[0].subrange(3, recs[0].len() as int)] + record_paths(recs.drop_first())
    }
}

/// The changed paths that a `git status --porcelain=v1 -z` output lists.
pub open spec fn status_paths_spec(status: Seq<char>) -> Seq<Seq<char>> {
    record_paths(records(status))
}

fn split_records(s: &str) -> (res: Vec<String>)
    ensures
        res.deep_view() == records(s@),
{
    let n = s.unicode_len();
    let mut out: Vec<String> = Vec::new();
    let mut i: usize = 0;
    let mut start: usize = 0;
    assert(out.deep_view() =~= Seq::<Seq<char>>::empty());
    assert(Seq::<Seq<char>>::empty() + records_from(s@, 0, 0) =~= records_from(s@, 0, 0));
    while i < n
        invariant
            n == s@.len(),
            start <= i <= n,
            out.deep_view() + records_from(s@, i as int, start as int) == records(s@),
        decreases n - i,
    {
        if s.get_char(i) == '\0' {
            if start < i {
                let ghost before = out.deep_view();
                let rec = s.substring_char(start, i);
                out.push(String::from_str(rec));
                assert(out.deep_view() =~= before.push(s@.subrange(start as int, i as int)));
                assert(before + (seq![s@.subrange(start as int, i as int)] + records_from(
                    s@,
                    i + 1,
                    i + 1,
                )) =~= out.deep_view() + records_from(s@, i + 1, i + 1));
            }
            i = i + 1;
            start = i;
        } else {
            i = i + 1;
        }
    }
    if start < n {
        let ghost before = out.deep_view();
        out.push(String::from_str(s.substring_char(start, n)));
        assert(out.deep_view() =~= before + seq![s@.subrange(start as int, n as int)]);
    } else {
        assert(out.deep_view() + Seq::<Seq<char>>::empty() =~= out.deep_view());
    }
    out
}

/// The changed paths that `status`, the output of
/// `git status --porcelain=v1 -z`, lists, in order.
pub fn status_paths(status: &str) -> (res: Vec<String>)
    ensures
        res.deep_view() == status_paths_spec(status@),
{
    let recs = split_records(status);
    let ghost all = recs.deep_view();
    let n = recs.len();
    let mut out: Vec<String> = Vec::new();
    let mut j: usize = 0;
    assert(out.deep_view() =~= Seq::<Seq<char>>::empty());
    assert(all.subrange(0, n as int) =~= all);
    assert(Seq::<Seq<char>>::empty() + record_paths(all) =~= record_paths(all));
    while j < n
        invariant
            n == recs@.len(),
            j <= n,
            all == recs.deep_view(),
            out.deep_view() + record_paths(all.subrange(j as int, n as int)) == record_paths(all),
        decreases n - j,
    {
        let ghost rest = all.subrange(j as int, n as int);
        let rec = recs[j].as_str();
        let len = rec.unicode_len();
        assert(rest[0] == rec@);
        if len < 4 {
            assert(rest.drop_first() =~= all.subrange(j + 1, n as int));
            j = j + 1;
        } else {
            let ghost before = out.deep_view();
            let path = rec.substring_char(3, len);
            out.push(String::from_str(path));
            assert(out.deep_view() =~= before.push(rec@.subrange(3, len as int)));
            let c = rec.get_char(0);
            if (c == 'R' || c == 'C') && j + 1 < n {
                assert(rest.subrange(2, rest.len() as int) =~= all.subrange(j + 2, n as int));
                assert(before + (seq![rec@.subrange(3, len as int)] + record_paths(
                    all.subrange(j + 2, n as int),
                )) =~= out.deep_view() + record_paths(all.subrange(j + 2, n as int)));
                j = j + 2;
            } else {
                assert(rest.drop_first() =~= all.subrange(j + 1, n as int));
                assert(before + (seq![rec@.subrange(3, len as int)] + record_paths(
                    all.subrange(j + 1, n as int),
                )) =~= out.deep_view() + record_paths(all.subrange(j + 1, n as int)));
                j = j + 1;
            }
        }
    }
    assert(all.subrange(n as int, n as int) =~= Seq::<Seq<char>>::empty());
    assert(out.deep_view() + Seq::<Seq<char>>::empty() =~= out.deep_view());
    out
}

} // verus!
