use vstd::prelude::*;

use crate::error::SyncError;
use crate::sync::{check_conflicts as has_unmerged, commit_all_outcome, has_conflicts, nothing_to_commit};
use crate::types::SyncStatusInfo;

verus! {

/// A git operation on a vault, driven one git run at a time.
#[derive(Clone, Debug)]
pub enum GitOp {
    /// Is the vault inside a git work tree?
    IsRepo,
    /// `git status --short`.
    Status,
    /// `git add .` then `git commit -m <message>`.
    Commit(String),
    /// `git pull --rebase`.
    Pull,
    /// `git push`.
    Push,
    /// Does `git status --short` report unmerged paths?
    Conflicts,
    /// The vault's status with its conflict flag, as the vault layer reports it.
    VaultStatus,
}

/// What a finished operation yields.
#[derive(Clone, Debug)]
pub enum GitValue {
    Flag(bool),
    Output(String),
    Committed,
    Status(SyncStatusInfo),
}

/// What the driver must do next: run git with these arguments in the vault
/// and report the outcome, or stop with the operation's result.
#[derive(Debug)]
pub enum GitAction {
    Run(Vec<String>),
    Finish(Result<GitValue, SyncError>),
}

/// An operation in progress: which one, how far it has got (the number of
/// git runs started), and the status text it keeps for later.
#[derive(Clone, Debug)]
pub struct GitSession {
    pub op: GitOp,
    pub stage: u32,
    pub saved: String,
}

/// The action runs git with `args`.
pub open spec fn runs(a: GitAction, args: Seq<Seq<char>>) -> bool {
    a matches GitAction::Run(v) && v@.map_values(|s: String| s@) == args
}

/// `git rev-parse --is-inside-work-tree`: is the vault in a work tree?
pub open spec fn rev_parse_args() -> Seq<Seq<char>> {
    seq!["rev-parse"@, "--is-inside-work-tree"@]
}

/// `git status --short`.
pub open spec fn status_args() -> Seq<Seq<char>> {
    seq!["status"@, "--short"@]
}

/// `git add .`: stage everything.
pub open spec fn add_args() -> Seq<Seq<char>> {
    seq!["add"@, "."@]
}

/// `git commit -m <message>`.
pub open spec fn commit_args(message: Seq<char>) -> Seq<Seq<char>> {
    seq!["commit"@, "-m"@, message]
}

/// `git pull --rebase`.
pub open spec fn pull_args() -> Seq<Seq<char>> {
    seq!["pull"@, "--rebase"@]
}

/// `git push`.
pub open spec fn push_args() -> Seq<Seq<char>> {
    seq!["push"@]
}

/// The number of git runs the operation may make.
pub open spec fn last_stage(op: GitOp) -> u32 {
    match op {
        GitOp::IsRepo => 1,
        GitOp::Status => 2,
        GitOp::Commit(_) => 3,
        GitOp::Pull => 2,
        GitOp::Push => 2,
        GitOp::Conflicts => 3,
        GitOp::VaultStatus => 5,
    }
}

impl GitSession {
    /// A git run has been started and its outcome is awaited.
    pub open spec fn awaiting(self) -> bool {
        1 <= self.stage <= last_stage(self.op)
    }

    /// Whether the session is waiting for the outcome of a git run.
    pub fn is_awaiting(&self) -> (b: bool)
        ensures
            b == self.awaiting(),
    {
        1 <= self.stage && self.stage <= last_stage_of(&self.op)
    }
}

fn args1(a: &str) -> (r: Vec<String>)
    ensures
        r@.map_values(|s: String| s@) == seq![a@],
{
    let mut v: Vec<String> = Vec::new();
    v.push(String::from_str(a));
    assert(v@.map_values(|s: String| s@) =~= seq![a@]);
    v
}

fn args2(a: &str, b: &str) -> (r: Vec<String>)
    ensures
        r@.map_values(|s: String| s@) == seq![a@, b@],
{
    let mut v: Vec<String> = Vec::new();
    v.push(String::from_str(a));
    v.push(String::from_str(b));
    assert(v@.map_values(|s: String| s@) =~= seq![a@, b@]);
    v
}

fn rev_parse() -> (r: GitAction)
    ensures
        runs(r, rev_parse_args()),
{
    GitAction::Run(args2("rev-parse", "--is-inside-work-tree"))
}

fn git_status() -> (r: GitAction)
    ensures
        runs(r, status_args()),
{
    GitAction::Run(args2("status", "--short"))
}

fn begin(op: GitOp) -> (r: (GitSession, GitAction))
    ensures
        r.0.op == op,
        r.0.stage == 1,
        runs(r.1, rev_parse_args()),
{
    (GitSession { op, stage: 1, saved: String::new() }, rev_parse())
}

/// Starts asking whether the vault is a git work tree.
pub fn is_git_repo() -> (r: (GitSession, GitAction))
    ensures
        r.0.op == GitOp::IsRepo,
        r.0.stage == 1,
        runs(r.1, rev_parse_args()),
{
    begin(GitOp::IsRepo)
}

/// Starts `git status --short` (after checking for a work tree).
pub fn sync_status() -> (r: (GitSession, GitAction))
    ensures
        r.0.op == GitOp::Status,
        r.0.stage == 1,
        runs(r.1, rev_parse_args()),
{
    begin(GitOp::Status)
}

/// Starts staging and committing everything with `message`.
pub fn commit_all(message: String) -> (r: (GitSession, GitAction))
    ensures
        r.0.op matches GitOp::Commit(m) && m@ == message@,
        r.0.stage == 1,
        runs(r.1, rev_parse_args()),
{
    begin(GitOp::Commit(message))
}

/// Starts `git pull --rebase`.
pub fn pull() -> (r: (GitSession, GitAction))
    ensures
        r.0.op == GitOp::Pull,
        r.0.stage == 1,
        runs(r.1, rev_parse_args()),
{
    begin(GitOp::Pull)
}

/// Starts `git push`.
pub fn push() -> (r: (GitSession, GitAction))
    ensures
        r.0.op == GitOp::Push,
        r.0.stage == 1,
        runs(r.1, rev_parse_args()),
{
    begin(GitOp::Push)
}

/// Starts looking for unmerged paths.
pub fn check_conflicts() -> (r: (GitSession, GitAction))
    ensures
        r.0.op == GitOp::Conflicts,
        r.0.stage == 1,
        runs(r.1, rev_parse_args()),
{
    begin(GitOp::Conflicts)
}

/// Starts reading the vault's git status and conflict flag.
pub fn status() -> (r: (GitSession, GitAction))
    ensures
        r.0.op == GitOp::VaultStatus,
        r.0.stage == 1,
        runs(r.1, rev_parse_args()),
{
    begin(GitOp::VaultStatus)
}

/// The action that ends an operation with `r`.
pub open spec fn finishes(a: GitAction, r: Result<GitValue, SyncError>) -> bool {
    a == GitAction::Finish(r)
}

/// The outcome is a failure other than a git error reporting nothing to commit.
pub open spec fn commit_failed(o: Result<String, SyncError>) -> bool {
    match o {
        Ok(_) => false,
        Err(SyncError::Git { stderr, .. }) => !nothing_to_commit(stderr@),
        Err(_) => true,
    }
}

impl GitSession {
    /// Takes the outcome of the git run the session is waiting for (its
    /// standard output, trimmed, or the failure) and decides what comes next.
    ///
    /// Every operation but `IsRepo` first checks for a work tree and fails with
    /// `NotARepo` when the check fails; `Conflicts` checks twice (once more
    /// for the status it reads); `VaultStatus` reads the status and, when it is
    /// not empty, checks for conflicts the same way. A failed run stops the
    /// operation with its error, except that a commit with nothing to commit
    /// succeeds.
    pub fn resume(&mut self, outcome: Result<String, SyncError>) -> (a: GitAction)
        requires
            old(self).awaiting(),
        ensures
            final(self).op == old(self).op,
            final(self).awaiting() ==> final(self).stage == old(self).stage + 1,
            // the work-tree check
            old(self).stage == 1 && old(self).op == GitOp::IsRepo ==> finishes(
                a,
                Ok(GitValue::Flag(outcome is Ok)),
            ) && !final(self).awaiting(),
            old(self).stage == 1 && old(self).op != GitOp::IsRepo && outcome is Err ==> finishes(
                a,
                Err(SyncError::NotARepo),
            ) && !final(self).awaiting(),
            old(self).stage == 1 && outcome is Ok ==> (match old(self).op {
                GitOp::IsRepo => true,
                GitOp::Status => runs(a, status_args()),
                GitOp::Commit(_) => runs(a, add_args()),
                GitOp::Pull => runs(a, pull_args()),
                GitOp::Push => runs(a, push_args()),
                GitOp::Conflicts => runs(a, rev_parse_args()),
                GitOp::VaultStatus => runs(a, status_args()),
            }) && (old(self).op != GitOp::IsRepo ==> final(self).awaiting()),
            // the second run
            old(self).stage == 2 ==> match old(self).op {
                GitOp::Status | GitOp::Pull | GitOp::Push => finishes(
                    a,
                    match outcome {
                        Ok(s) => Ok(GitValue::Output(s)),
                        Err(e) => Err(e),
                    },
                ) && !final(self).awaiting(),
                GitOp::Commit(m) => match outcome {
                    Ok(_) => runs(a, commit_args(m@)) && final(self).awaiting(),
                    Err(e) => finishes(a, Err(e)) && !final(self).awaiting(),
                },
                GitOp::Conflicts => match outcome {
                    Ok(_) => runs(a, status_args()) && final(self).awaiting(),
                    Err(_) => finishes(a, Err(SyncError::NotARepo)) && !final(self).awaiting(),
                },
                GitOp::VaultStatus => match outcome {
                    Ok(s) => if s@.len() == 0 {
                        a matches GitAction::Finish(Ok(GitValue::Status(info))) && info.clean
                            && !info.conflicts && info.status@ == s@ && !final(self).awaiting()
                    } else {
                        runs(a, rev_parse_args()) && final(self).saved@ == s@
                            && final(self).awaiting()
                    },
                    Err(e) => finishes(a, Err(e)) && !final(self).awaiting(),
                },
                _ => true,
            },
            // the third run
            old(self).stage == 3 ==> match old(self).op {
                GitOp::Commit(_) => (if commit_failed(outcome) {
                    finishes(a, Err(outcome->Err_0))
                } else {
                    finishes(a, Ok(GitValue::Committed))
                }) && !final(self).awaiting(),
                GitOp::Conflicts => (match outcome {
                    Ok(s) => finishes(a, Ok(GitValue::Flag(has_conflicts(s@)))),
                    Err(e) => finishes(a, Err(e)),
                }) && !final(self).awaiting(),
                GitOp::VaultStatus => (match outcome {
                    Ok(_) => runs(a, rev_parse_args()) && final(self).awaiting(),
                    Err(_) => finishes(a, Err(SyncError::NotARepo)) && !final(self).awaiting(),
                }) && final(self).saved@ == old(self).saved@,
                _ => true,
            },
            // the status read for the conflict check
            old(self).stage == 4 ==> (match outcome {
                Ok(_) => runs(a, status_args()) && final(self).awaiting(),
                Err(_) => finishes(a, Err(SyncError::NotARepo)) && !final(self).awaiting(),
            }) && final(self).saved@ == old(self).saved@,
            old(self).stage == 5 ==> (match outcome {
                Ok(s) => a matches GitAction::Finish(Ok(GitValue::Status(info))) && !info.clean
                    && info.conflicts == has_conflicts(s@) && info.status@ == old(self).saved@,
                Err(e) => finishes(a, Err(e)),
            }) && !final(self).awaiting(),
    {
        let stage = self.stage;
        let done = last_stage_of(&self.op) + 1;
        if stage == 1 {
            if let GitOp::IsRepo = self.op {
                self.stage = done;
                return GitAction::Finish(Ok(GitValue::Flag(outcome.is_ok())));
            }
            if outcome.is_err() {
                self.stage = done;
                return GitAction::Finish(Err(SyncError::NotARepo));
            }
            self.stage = 2;
            return match &self.op {
                GitOp::IsRepo => rev_parse(),
                GitOp::Status => git_status(),
                GitOp::Commit(_) => GitAction::Run(args2("add", ".")),
                GitOp::Pull => GitAction::Run(args2("pull", "--rebase")),
                GitOp::Push => GitAction::Run(args1("push")),
                GitOp::Conflicts => rev_parse(),
                GitOp::VaultStatus => git_status(),
            };
        }
        if stage == 2 {
            match &self.op {
                GitOp::Commit(m) => {
                    match outcome {
                        Ok(_) => {
                            let mut v = args2("commit", "-m");
                            let ghost before = v@.map_values(|s: String| s@);
                            v.push(m.clone());
                            assert(v@.map_values(|s: String| s@) =~= before.push(m@));
                            assert(v@.map_values(|s: String| s@) =~= commit_args(m@));
                            self.stage = 3;
                            return GitAction::Run(v);
                        },
                        Err(e) => {
                            self.stage = done;
                            return GitAction::Finish(Err(e));
                        },
                    }
                },
                GitOp::Conflicts => {
                    if outcome.is_ok() {
                        self.stage = 3;
                        return git_status();
                    } else {
                        self.stage = done;
                        return GitAction::Finish(Err(SyncError::NotARepo));
                    }
                },
                GitOp::VaultStatus => {
                    match outcome {
                        Ok(s) => {
                            if s.as_str().is_empty() {
                                self.stage = done;
                                return GitAction::Finish(
                                    Ok(
                                        GitValue::Status(
                                            SyncStatusInfo { clean: true, conflicts: false, status: s },
                                        ),
                                    ),
                                );
                            }
                            self.saved = s;
                            self.stage = 3;
                            return rev_parse();
                        },
                        Err(e) => {
                            self.stage = done;
                            return GitAction::Finish(Err(e));
                        },
                    }
                },
                _ => {
                    self.stage = done;
                    return GitAction::Finish(
                        match outcome {
                            Ok(s) => Ok(GitValue::Output(s)),
                            Err(e) => Err(e),
                        },
                    );
                },
            }
        }
        if stage == 3 {
            match &self.op {
                GitOp::Commit(_) => {
                    self.stage = done;
                    return match commit_all_outcome(outcome) {
                        Ok(()) => GitAction::Finish(Ok(GitValue::Committed)),
                        Err(e) => GitAction::Finish(Err(e)),
                    };
                },
                GitOp::Conflicts => {
                    self.stage = done;
                    return match outcome {
                        Ok(s) => GitAction::Finish(Ok(GitValue::Flag(has_unmerged(s.as_str())))),
                        Err(e) => GitAction::Finish(Err(e)),
                    };
                },
                _ => {
                    if outcome.is_ok() {
                        self.stage = 4;
                        return rev_parse();
                    } else {
                        self.stage = done;
                        return GitAction::Finish(Err(SyncError::NotARepo));
                    }
                },
            }
        }
        if stage == 4 {
            if outcome.is_ok() {
                self.stage = 5;
                return git_status();
            } else {
                self.stage = done;
                return GitAction::Finish(Err(SyncError::NotARepo));
            }
        }
        self.stage = done;
        match outcome {
            Ok(s) => {
                let conflicts = has_unmerged(s.as_str());
                let saved = self.saved.clone();
                GitAction::Finish(
                    Ok(GitValue::Status(SyncStatusInfo { clean: false, conflicts, status: saved })),
                )
            },
            Err(e) => GitAction::Finish(Err(e)),
        }
    }
}

fn last_stage_of(op: &GitOp) -> (r: u32)
    ensures
        r == last_stage(*op),
{
    match op {
        GitOp::IsRepo => 1,
        GitOp::Status => 2,
        GitOp::Commit(_) => 3,
        GitOp::Pull => 2,
        GitOp::Push => 2,
        GitOp::Conflicts => 3,
        GitOp::VaultStatus => 5,
    }
}

} // verus!
