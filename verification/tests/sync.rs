use mem_core::error::{ConfigError, CoreError, IndexError, StorageError, SyncError, VaultError};
use mem_core::git::{self, GitAction, GitSession, GitValue};
use mem_core::sync::{check_conflicts, commit_all_outcome, git_result, status};

fn args(a: &GitAction) -> Vec<String> {
    match a {
        GitAction::Run(v) => v.clone(),
        GitAction::Finish(r) => panic!("finished early: {:?}", r),
    }
}

fn git_failure(stderr: &str) -> SyncError {
    SyncError::Git { code: 1, stderr: stderr.into() }
}

/// Drives a session, answering each git run with the next outcome; returns
/// the argument lists it ran and how it finished.
fn drive(
    start: (GitSession, GitAction),
    outcomes: Vec<Result<String, SyncError>>,
) -> (Vec<Vec<String>>, Result<GitValue, SyncError>) {
    let (mut session, mut action) = start;
    let mut ran = Vec::new();
    let mut outcomes = outcomes.into_iter();
    loop {
        match action {
            GitAction::Finish(r) => return (ran, r),
            GitAction::Run(v) => {
                ran.push(v);
                action = session.resume(outcomes.next().expect("more runs than outcomes"));
            }
        }
    }
}

#[test]
fn git_runs_report_trimmed_output_or_the_failure() {
    assert_eq!(git_result(true, Some(0), "  M a.md\n", String::new()).unwrap(), "M a.md");
    match git_result(false, None, "", "fatal: boom".into()) {
        Err(SyncError::Git { code, stderr }) => {
            assert_eq!(code, -1);
            assert_eq!(stderr, "fatal: boom");
        }
        other => panic!("{:?}", other),
    }
    match git_result(false, Some(128), "ignored", "e".into()) {
        Err(SyncError::Git { code, .. }) => assert_eq!(code, 128),
        other => panic!("{:?}", other),
    }
}

#[test]
fn conflicts_are_unmerged_lines() {
    assert!(!check_conflicts(""));
    assert!(!check_conflicts(" M notes/a.md\n?? b.md"));
    assert!(check_conflicts("UU notes/a.md"));
    assert!(check_conflicts(" M x\nAU notes/b.md\n"));
    assert!(check_conflicts("DU y"));
    assert!(!check_conflicts("A  U.md"));
}

#[test]
fn nothing_to_commit_is_success() {
    assert!(commit_all_outcome(Ok("done".into())).is_ok());
    assert!(commit_all_outcome(Err(git_failure("On branch main\nnothing to commit, working tree clean"))).is_ok());
    assert!(commit_all_outcome(Err(git_failure("your working tree clean"))).is_ok());
    assert!(matches!(
        commit_all_outcome(Err(git_failure("error: pathspec"))),
        Err(SyncError::Git { .. })
    ));
    assert!(matches!(commit_all_outcome(Err(SyncError::NotARepo)), Err(SyncError::NotARepo)));
}

#[test]
fn vault_status_is_clean_when_empty() {
    let s = status(String::new(), true);
    assert!(s.clean && !s.conflicts);
    let s = status("UU a".into(), true);
    assert!(!s.clean && s.conflicts);
    assert_eq!(s.status, "UU a");
}

#[test]
fn every_operation_first_checks_for_a_work_tree() {
    let (s, a) = git::pull();
    assert_eq!(args(&a), vec!["rev-parse", "--is-inside-work-tree"]);
    assert_eq!(s.stage, 1);
    let (_, r) = drive(git::push(), vec![Err(git_failure("not a repo"))]);
    assert!(matches!(r, Err(SyncError::NotARepo)));
    let (_, r) = drive(git::is_git_repo(), vec![Err(git_failure("no"))]);
    assert!(matches!(r, Ok(GitValue::Flag(false))));
    let (_, r) = drive(git::is_git_repo(), vec![Ok("true".into())]);
    assert!(matches!(r, Ok(GitValue::Flag(true))));
}

#[test]
fn pull_and_push_report_output() {
    let (ran, r) = drive(git::pull(), vec![Ok("true".into()), Ok("Already up to date.".into())]);
    assert_eq!(ran[1], vec!["pull", "--rebase"]);
    match r {
        Ok(GitValue::Output(o)) => assert_eq!(o, "Already up to date."),
        other => panic!("{:?}", other),
    }
    let (ran, r) = drive(git::push(), vec![Ok("true".into()), Err(git_failure("rejected"))]);
    assert_eq!(ran[1], vec!["push"]);
    assert!(matches!(r, Err(SyncError::Git { .. })));
}

#[test]
fn commit_stages_then_commits() {
    let (ran, r) = drive(
        git::commit_all("update notes".into()),
        vec![Ok("true".into()), Ok(String::new()), Ok("[main 1a2b] update notes".into())],
    );
    assert_eq!(ran, vec![
        vec!["rev-parse".to_string(), "--is-inside-work-tree".into()],
        vec!["add".to_string(), ".".into()],
        vec!["commit".to_string(), "-m".into(), "update notes".into()],
    ]);
    assert!(matches!(r, Ok(GitValue::Committed)));
    let (_, r) = drive(
        git::commit_all("m".into()),
        vec![Ok("true".into()), Ok(String::new()), Err(git_failure("nothing to commit"))],
    );
    assert!(matches!(r, Ok(GitValue::Committed)));
    let (_, r) = drive(
        git::commit_all("m".into()),
        vec![Ok("true".into()), Err(git_failure("add failed"))],
    );
    assert!(matches!(r, Err(SyncError::Git { .. })));
}

#[test]
fn conflict_check_reads_the_status() {
    let (ran, r) = drive(
        git::check_conflicts(),
        vec![Ok("true".into()), Ok("true".into()), Ok("UU a.md".into())],
    );
    assert_eq!(ran.len(), 3);
    assert_eq!(ran[2], vec!["status", "--short"]);
    assert!(matches!(r, Ok(GitValue::Flag(true))));
}

#[test]
fn vault_status_checks_conflicts_only_when_dirty() {
    let (ran, r) = drive(git::status(), vec![Ok("true".into()), Ok(String::new())]);
    assert_eq!(ran.len(), 2);
    match r {
        Ok(GitValue::Status(s)) => assert!(s.clean && !s.conflicts && s.status.is_empty()),
        other => panic!("{:?}", other),
    }
    let (ran, r) = drive(
        git::status(),
        vec![
            Ok("true".into()),
            Ok("AU x.md".into()),
            Ok("true".into()),
            Ok("true".into()),
            Ok("AU x.md".into()),
        ],
    );
    assert_eq!(ran.len(), 5);
    match r {
        Ok(GitValue::Status(s)) => {
            assert!(!s.clean && s.conflicts);
            assert_eq!(s.status, "AU x.md");
        }
        other => panic!("{:?}", other),
    }
}

#[test]
fn error_messages() {
    assert_eq!(CoreError::NoteNotFound("nope".into()).message(), "Note not found: nope");
    assert_eq!(
        CoreError::NoVault.message(),
        "No vault configured. Set MEM_VAULT env or pass vault_path."
    );
    assert_eq!(CoreError::InvalidInput("x".into()).message(), "Invalid input: x");
    assert_eq!(CoreError::NotAVault("/tmp/v".into()).message(), "Not a mem vault at /tmp/v");
    assert_eq!(
        CoreError::Sync(SyncError::Git { code: -1, stderr: "boom".into() }).message(),
        "Sync error: Git error (-1): boom"
    );
    assert_eq!(
        CoreError::Sync(SyncError::Git { code: 128, stderr: "x".into() }).message(),
        "Sync error: Git error (128): x"
    );
    assert_eq!(CoreError::Sync(SyncError::NotARepo).message(), "Sync error: Not a git repository");
    assert_eq!(
        CoreError::Index(IndexError::Migration { current: 3, target: 12 }).message(),
        "Index error: Migration error. Current: 3, Target: 12"
    );
    assert_eq!(
        CoreError::Vault(VaultError::Config(ConfigError::NotFound("/v/mem.json".into()))).message(),
        "Vault error: Config Error: Config file not found: /v/mem.json"
    );
    assert_eq!(
        CoreError::Vault(VaultError::AlreadyInitialized("/v".into())).message(),
        "Vault error: Vault already initialized at /v"
    );
    assert_eq!(
        CoreError::Storage(StorageError::InvalidPath("/a.md".into())).message(),
        "Storage error: Invalid Path: /a.md"
    );
    assert_eq!(CoreError::Sqlite("locked".into()).message(), "SQLite error: locked");
    assert_eq!(CoreError::Io("denied".into()).message(), "IO error: denied");
    assert_eq!(
        CoreError::Config(ConfigError::Parse("bad".into())).message(),
        "Config error: Parse Error: bad"
    );
    assert_eq!(SyncError::Io("no git".into()).message(), "Git command IO failed: no git");
}
