use vstd::prelude::*;

use crate::error::SyncError;
use crate::text::{chars_of, find_chars, find_from, string_of, trim, trim_chars};
use crate::types::SyncStatusInfo;

verus! {

/// What a git run comes to: its standard output, trimmed, when it succeeded;
/// otherwise its exit code (-1 when it has none) and its standard error.
pub fn git_result(success: bool, code: Option<i32>, stdout: &str, stderr: String) -> (r: Result<
    String,
    SyncError,
>)
    ensures
        success ==> (r matches Ok(out) && out@ == trim(stdout@)),
        !success ==> (r matches Err(SyncError::Git { code: c, stderr: e }) && c == match code {
            Some(k) => k,
            None => -1i32,
        } && e@ == stderr@),
{
    if success {
        let cs = chars_of(stdout);
        let t = trim_chars(&cs);
        Ok(string_of(&t))
    } else {
        let c = match code {
            Some(k) => k,
            None => -1,
        };
        Err(SyncError::Git { code: c, stderr })
    }
}

/// The index of the first line break at or after `k`, or the end.
pub open spec fn line_end(cs: Seq<char>, k: int) -> int
    decreases cs.len() - k,
{
    if k >= cs.len() || k < 0 {
        cs.len() as int
    } else if cs[k] == '\n' {
        k
    } else {
        line_end(cs, k + 1)
    }
}

/// The lines of `cs[k..]` as `str::lines` yields them: split at line breaks,
/// a `\r` before a line break dropped, no line after a final line break.
pub open spec fn lines_from(cs: Seq<char>, k: int) -> Seq<Seq<char>>
    decreases cs.len() + 1 - k,
{
    if k < 0 || k >= cs.len() {
        seq![]
    } else {
        proof {
            lemma_line_end(cs, k);
        }
        let e = line_end(cs, k);
        let line = cs.subrange(k, e);
        let line = if e < cs.len() && line.len() > 0 && line.last() == '\r' {
            line.drop_last()
        } else {
            line
        };
        seq![line] + lines_from(cs, e + 1)
    }
}

/// A line ends at or after its start, within the text, at a line break or the end.
pub proof fn lemma_line_end(cs: Seq<char>, k: int)
    requires
        0 <= k <= cs.len(),
    ensures
        k <= line_end(cs, k) <= cs.len(),
        forall|i: int| k <= i < line_end(cs, k) ==> cs[i] != '\n',
        line_end(cs, k) < cs.len() ==> cs[line_end(cs, k)] == '\n',
    decreases cs.len() - k,
{
    if k < cs.len() && cs[k] != '\n' {
        lemma_line_end(cs, k + 1);
    }
}

/// A `git status --short` line that reports an unmerged path: `U` in either
/// of its two status columns.
pub open spec fn unmerged_line(line: Seq<char>) -> bool {
    (line.len() > 0 && line[0] == 'U') || (line.len() > 1 && line[1] == 'U')
}

/// Some line of `status` reports an unmerged path.
pub open spec fn has_conflicts(status: Seq<char>) -> bool {
    exists|i: int| 0 <= i < lines_from(status, 0).len() && unmerged_line(
        #[trigger] lines_from(status, 0)[i],
    )
}

/// Whether `git status --short` output reports a conflict: a line with `U`
/// in its first or second column (an unmerged path).
pub fn check_conflicts(status: &str) -> (b: bool)
    ensures
        b == has_conflicts(status@),
{
    let cs = chars_of(status);
    let mut k: usize = 0;
    let mut found = false;
    let ghost all = lines_from(cs@, 0);
    let ghost mut seen: int = 0;
    while k < cs.len()
        invariant
            k <= cs@.len(),
            all == lines_from(cs@, 0),
            0 <= seen <= all.len(),
            all.skip(seen) == lines_from(cs@, k as int),
            found == exists|i: int| 0 <= i < seen && unmerged_line(#[trigger] all[i]),
        decreases cs.len() - k,
    {
        let mut e = k;
        while e < cs.len() && cs[e] != '\n'
            invariant
                k <= e <= cs@.len(),
                line_end(cs@, e as int) == line_end(cs@, k as int),
            decreases cs.len() - e,
        {
            e = e + 1;
        }
        proof {
            lemma_line_end(cs@, k as int);
        }
        let mut len = e - k;
        if e < cs.len() && len > 0 && cs[e - 1] == '\r' {
            len = len - 1;
        }
        let hit = (len > 0 && cs[k] == 'U') || (len > 1 && cs[k + 1] == 'U');
        proof {
            let raw0 = cs@.subrange(k as int, e as int);
            let line0 = if e < cs@.len() && raw0.len() > 0 && raw0.last() == '\r' {
                raw0.drop_last()
            } else {
                raw0
            };
            assert(lines_from(cs@, k as int) == seq![line0] + lines_from(cs@, e + 1));
            assert(all.skip(seen).len() > 0);
            let l = all[seen];
            assert(all.skip(seen)[0] == l);
            assert(lines_from(cs@, k as int)[0] == l);
            let raw = cs@.subrange(k as int, e as int);
            if e < cs@.len() && raw.len() > 0 && raw.last() == '\r' {
                assert(l == raw.drop_last());
            } else {
                assert(l == raw);
            }
            assert(l.len() == len);
            if len > 0 {
                assert(l[0] == cs@[k as int]);
            }
            if len > 1 {
                assert(l[1] == cs@[k + 1]);
            }
            assert(hit == unmerged_line(l));
            assert(all.skip(seen + 1) =~= all.skip(seen).drop_first());
            assert(lines_from(cs@, k as int).drop_first() =~= lines_from(cs@, e + 1));
            if found || hit {
                if hit {
                    assert(unmerged_line(all[seen]));
                }
            } else {
                assert forall|i: int| 0 <= i < seen + 1 implies !unmerged_line(#[trigger] all[i]) by {
                    if i == seen {
                    }
                }
            }
            seen = seen + 1;
        }
        found = found || hit;
        if e < cs.len() {
            k = e + 1;
        } else {
            k = e;
        }
    }
    proof {
        assert(lines_from(cs@, k as int) =~= Seq::<Seq<char>>::empty());
        assert(all.skip(seen).len() == 0);
        assert(seen == all.len());
    }
    found
}

/// Git's standard error says there was nothing to commit.
pub open spec fn nothing_to_commit(stderr: Seq<char>) -> bool {
    find_from(stderr, "nothing to commit"@, 0) is Some || find_from(stderr, "working tree clean"@, 0)
        is Some
}

/// What `commit_all` reports for the result of `git commit`: success, also
/// when git failed only because there was nothing to commit.
pub fn commit_all_outcome(commit: Result<String, SyncError>) -> (r: Result<(), SyncError>)
    ensures
        commit is Ok ==> r is Ok,
        commit matches Err(SyncError::Git { stderr, .. }) ==> (r is Ok <==> nothing_to_commit(
            stderr@,
        )),
        commit is Err ==> (r is Err ==> r->Err_0 == commit->Err_0),
        commit is Err && !(commit->Err_0 is Git) ==> r is Err,
{
    match commit {
        Ok(_) => Ok(()),
        Err(SyncError::Git { code, stderr }) => {
            let cs = chars_of(stderr.as_str());
            let p1 = chars_of("nothing to commit");
            let p2 = chars_of("working tree clean");
            if find_chars(&cs, &p1, 0).is_some() || find_chars(&cs, &p2, 0).is_some() {
                Ok(())
            } else {
                Err(SyncError::Git { code, stderr })
            }
        },
        Err(e) => Err(e),
    }
}

/// The git state of a vault from `git status --short`: clean when the output
/// is empty; conflicted only when not clean and `conflicts` (what
/// `check_conflicts` found) holds.
pub fn status(output: String, conflicts: bool) -> (r: SyncStatusInfo)
    ensures
        r.clean == (output@.len() == 0),
        r.conflicts == (output@.len() != 0 && conflicts),
        r.status@ == output@,
{
    let clean = output.as_str().is_empty();
    let conflicts = if clean {
        false
    } else {
        conflicts
    };
    SyncStatusInfo { clean, conflicts, status: output }
}

} // verus!
