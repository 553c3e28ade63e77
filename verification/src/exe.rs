//! Which `git-loom` executable to hand to git as the rebase sequence editor.
use vstd::prelude::*;

verus! {

/// Whether `c` separates path components: `/` everywhere, and `\` as well on
/// Windows.
pub open spec fn is_sep(c: char, windows: bool) -> bool {
    c == '/' || (windows && c == '\\')
}

/// `s` without its trailing separators.
pub open spec fn trim_seps(s: Seq<char>, windows: bool) -> Seq<char>
    decreases s.len(),
{
    if s.len() > 0 && is_sep(s.last(), windows) {
        trim_seps(s.drop_last(), windows)
    } else {
        s
    }
}

/// The index of the last separator in `s`, or -1 when there is none.
pub open spec fn last_sep(s: Seq<char>, windows: bool) -> int
    decreases s.len(),
{
    if s.len() == 0 {
        -1
    } else if is_sep(s.last(), windows) {
        s.len() - 1
    } else {
        last_sep(s.drop_last(), windows)
    }
}

/// The name of the directory that holds cargo's test harnesses.
pub open spec fn deps_name() -> Seq<char> {
    seq!['d', 'e', 'p', 's']
}

/// Where the built binary stands when `exe` is a test harness: a harness sits
/// in a `deps` directory, and the binary `git-loom` (with the platform's
/// executable suffix) one level above it. `None` when `exe` is no harness:
/// nothing above it is a `deps` directory, or there is no directory above it
/// at all (a root, or a bare name).
pub open spec fn built_binary(exe: Seq<char>, suffix: Seq<char>, windows: bool) -> Option<
    Seq<char>,
> {
    let t = trim_seps(exe, windows);
    let k = last_sep(t, windows);
    if k < 0 {
        None
    } else {
        let dir = trim_seps(t.subrange(0, k), windows);
        let j = last_sep(dir, windows);
        if dir.len() > 0 && dir.subrange(j + 1, dir.len() as int) == deps_name() {
            Some(dir.subrange(0, j + 1) + "git-loom"@ + suffix)
        } else {
            None
        }
    }
}

/// A test harness stands where the built binary should be, and the binary is
/// missing.
#[derive(Debug)]
pub enum ExeError {
    MissingBuild(String),
}

impl ExeError {
    /// The message shown to the user: it names the binary to build and how.
    pub fn message(&self) -> (res: String)
        ensures
            match self {
                ExeError::MissingBuild(path) => res@ == "the `git-loom` binary is missing at `"@
                    + path@ + "`; run `cargo build` first"@,
            },
    {
        match self {
            ExeError::MissingBuild(path) => {
                let mut msg = String::from_str("the `git-loom` binary is missing at `");
                msg.append(path.as_str());
                msg.append("`; run `cargo build` first");
                msg
            },
        }
    }
}

proof fn lemma_trim_step(s: Seq<char>, e: int, windows: bool)
    requires
        0 < e <= s.len(),
        is_sep(s[e - 1], windows),
    ensures
        trim_seps(s.subrange(0, e), windows) == trim_seps(s.subrange(0, e - 1), windows),
{
    assert(s.subrange(0, e).drop_last() =~= s.subrange(0, e - 1));
}

proof fn lemma_last_sep_step(s: Seq<char>, e: int, windows: bool)
    requires
        0 < e <= s.len(),
        !is_sep(s[e - 1], windows),
    ensures
        last_sep(s.subrange(0, e), windows) == last_sep(s.subrange(0, e - 1), windows),
{
    assert(s.subrange(0, e).drop_last() =~= s.subrange(0, e - 1));
}

proof fn lemma_last_sep_range(s: Seq<char>, windows: bool)
    ensures
        -1 <= last_sep(s, windows) < s.len(),
        last_sep(s, windows) >= 0 ==> is_sep(s[last_sep(s, windows)], windows),
    decreases s.len(),
{
    if s.len() > 0 && !is_sep(s.last(), windows) {
        lemma_last_sep_range(s.drop_last(), windows);
    }
}

/// Whether `c` separates path components, as `is_sep` says.
fn is_separator(c: char, windows: bool) -> (r: bool)
    ensures
        r == is_sep(c, windows),
{
    c == '/' || (windows && c == '\\')
}

/// The length of `s[..end]` without its trailing separators.
fn trim_end(s: &str, end: usize, windows: bool) -> (r: usize)
    requires
        end <= s@.len(),
    ensures
        r <= end,
        trim_seps(s@.subrange(0, end as int), windows) == s@.subrange(0, r as int),
{
    let mut e = end;
    while e > 0 && is_separator(s.get_char(e - 1), windows)
        invariant
            e <= end <= s@.len(),
            trim_seps(s@.subrange(0, end as int), windows) == trim_seps(
                s@.subrange(0, e as int),
                windows,
            ),
        decreases e,
    {
        proof {
            lemma_trim_step(s@, e as int, windows);
        }
        e = e - 1;
    }
    proof {
        if e > 0 {
            assert(s@.subrange(0, e as int).last() == s@[e - 1]);
        }
    }
    e
}

/// The index of the last separator in `s[..end]`.
fn find_last_sep(s: &str, end: usize, windows: bool) -> (r: Option<usize>)
    requires
        end <= s@.len(),
    ensures
        match r {
            None => last_sep(s@.subrange(0, end as int), windows) == -1,
            Some(k) => last_sep(s@.subrange(0, end as int), windows) == k && k < end,
        },
{
    let mut e = end;
    while e > 0 && !is_separator(s.get_char(e - 1), windows)
        invariant
            e <= end <= s@.len(),
            last_sep(s@.subrange(0, end as int), windows) == last_sep(
                s@.subrange(0, e as int),
                windows,
            ),
        decreases e,
    {
        proof {
            lemma_last_sep_step(s@, e as int, windows);
        }
        e = e - 1;
    }
    if e == 0 {
        None
    } else {
        assert(s@.subrange(0, e as int).last() == s@[e - 1]);
        Some(e - 1)
    }
}

/// Where the built binary stands when `exe` is a test harness, as
/// `built_binary` says. `windows` says whether `\` separates path
/// components too, as it does on Windows.
#[verifier::rlimit(40)]
pub fn built_binary_for(exe: &str, exe_suffix: &str, windows: bool) -> (res: Option<String>)
    ensures
        match built_binary(exe@, exe_suffix@, windows) {
            None => res is None,
            Some(b) => res matches Some(s) && s@ == b,
        },
{
    let n = exe.unicode_len();
    let t_end = trim_end(exe, n, windows);
    let ghost t = exe@.subrange(0, t_end as int);
    assert(exe@.subrange(0, n as int) =~= exe@);
    match find_last_sep(exe, t_end, windows) {
        None => None,
        Some(k) => {
            proof {
                lemma_last_sep_range(t, windows);
                assert(t.subrange(0, k as int) =~= exe@.subrange(0, k as int));
            }
            let d_end = trim_end(exe, k, windows);
            let ghost dir = exe@.subrange(0, d_end as int);
            if d_end == 0 {
                return None;
            }
            let (name_start, prefix_end) = match find_last_sep(exe, d_end, windows) {
                None => (0, 0),
                Some(j) => (j + 1, j + 1),
            };
            proof {
                lemma_last_sep_range(dir, windows);
                assert(name_start == last_sep(dir, windows) + 1);
            }
            let is_deps = d_end - name_start == 4 && exe.get_char(name_start) == 'd'
                && exe.get_char(name_start + 1) == 'e' && exe.get_char(name_start + 2) == 'p'
                && exe.get_char(name_start + 3) == 's';
            proof {
                let name = dir.subrange(name_start as int, d_end as int);
                if is_deps {
                    assert(name =~= deps_name());
                } else if name.len() == 4 {
                    assert(name[0] == exe@[name_start as int]);
                    assert(name[1] == exe@[name_start + 1]);
                    assert(name[2] == exe@[name_start + 2]);
                    assert(name[3] == exe@[name_start + 3]);
                    assert(name != deps_name());
                } else {
                    assert(name.len() != deps_name().len());
                }
            }
            if is_deps {
                let mut built = String::from_str(exe.substring_char(0, prefix_end));
                built.append("git-loom");
                built.append(exe_suffix);
                assert(dir.subrange(0, prefix_end as int) =~= exe@.subrange(0, prefix_end as int));
                Some(built)
            } else {
                None
            }
        },
    }
}

/// The executable to hand to git: `exe` itself unless it is a test harness;
/// for a harness the built binary above it, which must exist (the harness
/// would be run as the sequence editor and get an argument parser instead).
/// `built_exists` says whether the binary that `built_binary_for` names exists;
/// `windows` whether `\` separates path components too.
pub fn resolve_loom_exe(exe: &str, exe_suffix: &str, windows: bool, built_exists: bool) -> (res:
    Result<String, ExeError>)
    ensures
        match built_binary(exe@, exe_suffix@, windows) {
            None => res matches Ok(s) && s@ == exe@,
            Some(b) => if built_exists {
                res matches Ok(s) && s@ == b
            } else {
                res matches Err(ExeError::MissingBuild(s)) && s@ == b
            },
        },
{
    match built_binary_for(exe, exe_suffix, windows) {
        None => Ok(String::from_str(exe)),
        Some(built) => if built_exists {
            Ok(built)
        } else {
            Err(ExeError::MissingBuild(built))
        },
    }
}

} // verus!
