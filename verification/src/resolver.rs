//! Resolution of an external command name against a colon-separated
//! search path.
//!
//! The search-path value is split on `:` preserving order; empty
//! segments are skipped.  For each directory in order the candidate
//! `directory/name` is probed for existence and executable permission,
//! and the first hit wins.  The probes ask the filesystem, so what they
//! answer depends on the state of the disk; the contracts state what
//! holds of every outcome.

use vstd::prelude::*;

use crate::command::Commands;

verus! {

/// Position of the first colon in `s`, or `s.len()` if there is none.
pub open spec fn first_colon(s: Seq<char>) -> int
    decreases s.len(),
{
    if s.len() == 0 {
        0
    } else if s[0] == ':' {
        0
    } else {
        1 + first_colon(s.drop_first())
    }
}

/// The segments of `s` split on `:`, in order, empty segments included.
pub open spec fn spec_split_colon(s: Seq<char>) -> Seq<Seq<char>>
    decreases s.len(),
{
    let i = first_colon(s);
    if 0 <= i < s.len() {
        seq![s.subrange(0, i)] + spec_split_colon(s.subrange(i + 1, s.len() as int))
    } else {
        seq![s]
    }
}

/// The candidate path for `name` in the directory `dir`.
pub open spec fn spec_candidate(dir: Seq<char>, name: Seq<char>) -> Seq<char> {
    dir + "/"@ + name
}

/// Whether `p` is the candidate for `name` in one of the non-empty
/// segments of the search-path value `path_var`.
pub open spec fn is_candidate_path(p: Seq<char>, name: Seq<char>, path_var: Seq<char>) -> bool {
    exists|i: int|
        0 <= i < spec_split_colon(path_var).len() && #[trigger] spec_split_colon(path_var)[i].len()
            > 0 && p == spec_candidate(spec_split_colon(path_var)[i], name)
}

/// A position with no colon before it and a colon (or the end) at it is
/// exactly where the first colon is.
proof fn lemma_first_colon_is(s: Seq<char>, k: int)
    requires
        0 <= k <= s.len(),
        forall|j: int| 0 <= j < k ==> s[j] != ':',
        k < s.len() ==> s[k] == ':',
    ensures
        first_colon(s) == k,
    decreases s.len(),
{
    if s.len() == 0 {
    } else if k == 0 {
    } else {
        assert(s[0] != ':');
        assert(forall|j: int| 0 <= j < k - 1 ==> s.drop_first()[j] == s[j + 1]);
        lemma_first_colon_is(s.drop_first(), k - 1);
    }
}

/// Splits `s` on `:` into all its segments, in order, empty ones kept.
pub fn split_colon(s: &str) -> (segs: Vec<String>)
    ensures
        segs.deep_view() == spec_split_colon(s@),
{
    let n = s.unicode_len();
    let mut segs: Vec<String> = Vec::new();
    let mut j: usize = 0;
    proof {
        assert(s@.subrange(0, n as int) =~= s@);
    }
    loop
        invariant_except_break
            spec_split_colon(s@) == segs.deep_view() + spec_split_colon(
                s@.subrange(j as int, n as int),
            ),
        invariant
            j <= n,
            n == s@.len(),
        ensures
            segs.deep_view() == spec_split_colon(s@),
        decreases n - j,
    {
        let mut k: usize = j;
        loop
            invariant
                j <= k <= n,
                n == s@.len(),
                forall|t: int| j <= t < k ==> s@[t] != ':',
            ensures
                j <= k <= n,
                n == s@.len(),
                forall|t: int| j <= t < k ==> s@[t] != ':',
                k < n ==> s@[k as int] == ':',
            decreases n - k,
        {
            if k == n {
                break;
            }
            if s.get_char(k) == ':' {
                break;
            }
            k = k + 1;
        }
        let ghost rest = s@.subrange(j as int, n as int);
        let ghost pre = segs.deep_view();
        proof {
            assert(forall|t: int| 0 <= t < k - j ==> rest[t] == s@[j + t] && rest[t] != ':');
            if k < n {
                assert(rest[k - j] == s@[k as int]);
            }
            lemma_first_colon_is(rest, k - j);
            assert(rest.subrange(0, k - j) =~= s@.subrange(j as int, k as int));
        }
        let seg = String::from_str(s.substring_char(j, k));
        segs.push(seg);
        proof {
            assert(segs.deep_view() =~= pre.push(s@.subrange(j as int, k as int)));
        }
        if k == n {
            proof {
                assert(spec_split_colon(rest) == seq![rest]);
                assert(rest =~= s@.subrange(j as int, k as int));
                assert(pre + seq![rest] =~= segs.deep_view());
            }
            break;
        }
        proof {
            assert(rest.subrange(k - j + 1, rest.len() as int) =~= s@.subrange(
                k + 1,
                n as int,
            ));
            assert(spec_split_colon(rest) == seq![s@.subrange(j as int, k as int)]
                + spec_split_colon(s@.subrange(k + 1, n as int)));
            assert(pre + (seq![s@.subrange(j as int, k as int)] + spec_split_colon(
                s@.subrange(k + 1, n as int),
            )) =~= segs.deep_view() + spec_split_colon(s@.subrange(k + 1, n as int)));
        }
        j = k + 1;
    }
    segs
}

/// Relies on std::path::Path::exists: whether some filesystem object is
/// at the path now.  The answer depends on the state of the disk, so
/// nothing is promised of it.
#[verifier::external_body]
fn path_exists(path: &String) -> bool {
    std::path::Path::new(path.as_str()).exists()
}

/// Relies on is_executable::is_executable: whether a file is at the path
/// and the filesystem's permission model marks it executable.  The
/// answer depends on the state of the disk, so nothing is promised of it.
#[verifier::external_body]
fn path_is_executable(path: &String) -> bool {
    is_executable::is_executable(path.as_str())
}

impl Commands {
    /// Searches the directories of the colon-separated `path_var`, in
    /// order, for an executable file named `name`.  Empty segments never
    /// match; the first directory whose candidate `directory/name`
    /// exists and is executable wins and the search stops.  Whether a
    /// candidate wins depends on the disk, so the contract pins down
    /// where any returned path comes from: it is always the candidate of
    /// one of the non-empty search-path directories.
    pub fn find_cmd(name: &str, path_var: &str) -> (r: Option<String>)
        ensures
            r matches Some(p) ==> is_candidate_path(p@, name@, path_var@),
    {
        let dirs = split_colon(path_var);
        let mut idx: usize = 0;
        while idx < dirs.len()
            invariant
                idx <= dirs.len(),
                dirs.deep_view() == spec_split_colon(path_var@),
            decreases dirs.len() - idx,
        {
            if !dirs[idx].as_str().is_empty() {
                let full = dirs[idx].clone().concat("/").concat(name);
                proof {
                    assert(dirs.deep_view()[idx as int] == dirs@[idx as int]@);
                    assert(full@ == spec_candidate(dirs.deep_view()[idx as int], name@));
                }
                if path_exists(&full) && path_is_executable(&full) {
                    proof {
                        assert(spec_split_colon(path_var@)[idx as int].len() > 0
                            && full@ == spec_candidate(
                            spec_split_colon(path_var@)[idx as int],
                            name@,
                        ));
                    }
                    return Some(full);
                }
            }
            idx = idx + 1;
        }
        None
    }
}

} // verus!
