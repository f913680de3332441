use mem_core::domain::{NoteId, VaultConfig};
use mem_core::error::{CoreError, SyncError};
use mem_core::mcp::{
    tool_error_kind, ListResponse, NoteListArgs, NoteRelatedArgs, NoteShowArgs, NoteUpdateArgs,
    SearchArgs, ToolErrorKind, VaultRef,
};
use mem_core::schema::pending_migrations;
use mem_core::search::{limit_hits, MatchKind, SearchResult};
use mem_core::vault::{
    init_config, pick_vault, vault_info, vault_layout, vault_prompt, vault_step, Place, VaultPrompt,
    VaultStep,
};
use mem_core::watch::{Debounce, WatchAction, WatchEvent};

#[test]
fn tool_arguments_become_requests() {
    let p = NoteListArgs { tag: Some("rust".into()), limit: Some(5), ..Default::default() }
        .list_params();
    assert!(!p.include_archived && !p.only_archived);
    assert_eq!(p.tag.as_deref(), Some("rust"));
    assert_eq!(p.limit, Some(5));

    let r = NoteRelatedArgs { id_or_slug: "a".into(), limit: None, vault_path: None }
        .related_params();
    assert_eq!(r.id_or_slug, "a");
    assert_eq!(r.limit, None);

    let s = NoteShowArgs { id_or_slug: "b".into(), raw: true, vault_path: None }.show_params();
    assert!(s.raw);

    let u = NoteUpdateArgs {
        id_or_slug: "c".into(),
        title: None,
        body: Some("new".into()),
        append: None,
        archive: true,
        unarchive: false,
        vault_path: Some("/v".into()),
    }
    .update_params();
    assert_eq!(u.body.as_deref(), Some("new"));
    assert!(u.archive && !u.unarchive);

    let q = SearchArgs { query: "#go".into(), limit: Some(2), vault_path: None }.search_params();
    assert_eq!(q.query, "#go");
    assert_eq!(q.limit, Some(2));
    assert!(VaultRef::default().vault_path.is_none());
    assert_eq!(ListResponse::new(vec![1, 2]).items, vec![1, 2]);
}

#[test]
fn tool_errors_blame_the_caller_only_for_bad_requests() {
    assert_eq!(tool_error_kind(&CoreError::NoteNotFound("x".into())), ToolErrorKind::InvalidParams);
    assert_eq!(tool_error_kind(&CoreError::InvalidInput("x".into())), ToolErrorKind::InvalidParams);
    assert_eq!(tool_error_kind(&CoreError::NoVault), ToolErrorKind::InvalidParams);
    assert_eq!(tool_error_kind(&CoreError::NotAVault("/v".into())), ToolErrorKind::InvalidParams);
    assert_eq!(tool_error_kind(&CoreError::Sync(SyncError::NotARepo)), ToolErrorKind::Internal);
    assert_eq!(tool_error_kind(&CoreError::Io("e".into())), ToolErrorKind::Internal);
}

#[test]
fn migrations_resume_from_the_current_version() {
    assert_eq!(pending_migrations(0, 2), vec![0, 1]);
    assert_eq!(pending_migrations(1, 2), vec![1]);
    assert!(pending_migrations(2, 2).is_empty());
    assert!(pending_migrations(7, 2).is_empty());
    assert!(pending_migrations(-1, 2).is_empty());
}

#[test]
fn changes_are_announced_once_after_a_quiet_spell() {
    let mut d = Debounce::new();
    assert_eq!(d.step(WatchEvent::Quiet { now_ms: 1000 }), WatchAction::Listen);
    assert_eq!(d.step(WatchEvent::Changed { now_ms: 1000 }), WatchAction::Listen);
    assert_eq!(d.step(WatchEvent::Quiet { now_ms: 1200 }), WatchAction::Listen);
    assert_eq!(d.step(WatchEvent::Changed { now_ms: 1250 }), WatchAction::Listen);
    assert_eq!(d.step(WatchEvent::Quiet { now_ms: 1500 }), WatchAction::Listen);
    assert_eq!(d.step(WatchEvent::Quiet { now_ms: 1550 }), WatchAction::Announce);
    assert_eq!(d.step(WatchEvent::Quiet { now_ms: 9000 }), WatchAction::Listen);
    assert_eq!(d.step(WatchEvent::Closed), WatchAction::Stop);
}

fn hit(id: &str) -> SearchResult {
    SearchResult {
        note_id: NoteId(id.into()),
        title: id.into(),
        excerpt: String::new(),
        match_kind: MatchKind::Title,
        score_halves: 4,
    }
}

#[test]
fn hits_are_cut_to_the_limit() {
    let hits = vec![hit("a"), hit("b"), hit("c")];
    assert_eq!(limit_hits(hits.clone(), Some(2)).len(), 2);
    assert_eq!(limit_hits(hits.clone(), Some(2))[1].note_id.0, "b");
    assert_eq!(limit_hits(hits.clone(), Some(9)).len(), 3);
    assert_eq!(limit_hits(hits.clone(), None).len(), 3);
    assert!(limit_hits(hits, Some(0)).is_empty());
}

#[test]
fn new_vault_config_and_layout() {
    let c = init_config(Some("work".into()));
    assert_eq!(c.vault_name, "work");
    assert_eq!(c.notes_dir, "notes");
    assert_eq!(c.version, 1);
    let d = init_config(None);
    assert_eq!(d.vault_name, "personal");
    assert_eq!(d, VaultConfig::default());
    let g = d.git.clone().unwrap();
    assert!(g.enabled && !g.auto_commit);
    assert_eq!(g.default_branch, "main");

    let l = vault_layout("/home/me/.mem-vault", &d);
    assert_eq!(l.config_file, "/home/me/.mem-vault/mem.json");
    assert_eq!(l.notes_dir, "/home/me/.mem-vault/notes");
    assert_eq!(l.internal_dir, "/home/me/.mem-vault/.mem");
    assert_eq!(l.inbox_dir, "/home/me/.mem-vault/notes/inbox");
    assert_eq!(l.journal_dir, "/home/me/.mem-vault/notes/journal");
    assert_eq!(l.index_db, "/home/me/.mem-vault/.mem/index.sqlite");

    let info = vault_info(&c, "/v");
    assert_eq!(info.vault_name, "work");
    assert_eq!(info.path, "/v");
}

fn spot(path: &str, valid: bool) -> mem_core::vault::VaultSpot {
    mem_core::vault::VaultSpot { path: path.into(), valid }
}

#[test]
fn resolve_vault_from_cwd_and_env() {
    let explicit = pick_vault(Some(spot("/v", true)), None, None, spot("/g", false)).unwrap();
    assert_eq!(explicit, "/v");
    let err = pick_vault(Some(spot("/missing", false)), None, None, spot("/g", true)).unwrap_err();
    assert!(matches!(err, CoreError::NotAVault(_)));
}

#[test]
fn vaults_are_picked_in_order() {
    let cwd = pick_vault(None, Some(spot("/cwd", true)), Some(spot("/env", true)), spot("/g", true));
    assert_eq!(cwd.unwrap(), "/cwd");
    let env = pick_vault(None, Some(spot("/cwd", false)), Some(spot("/env", true)), spot("/g", true));
    assert_eq!(env.unwrap(), "/env");
    // an invalid MEM_VAULT is passed over for the global vault
    assert_eq!(pick_vault(None, None, Some(spot("/env", false)), spot("/g", true)).unwrap(), "/g");
    assert!(matches!(
        pick_vault(None, None, Some(spot("/env", false)), spot("/g", false)),
        Err(CoreError::NoVault)
    ));
    assert_eq!(pick_vault(None, None, None, spot("/g", true)).unwrap(), "/g");
    assert!(matches!(pick_vault(None, None, None, spot("/g", false)), Err(CoreError::NoVault)));
}

#[test]
fn the_vault_question_depends_on_what_exists() {
    assert_eq!(vault_prompt(true, false), VaultPrompt::UseHere);
    assert_eq!(vault_prompt(true, true), VaultPrompt::UseHere);
    assert_eq!(vault_prompt(false, true), VaultPrompt::UseGlobalOrCreateHere);
    assert_eq!(vault_prompt(false, false), VaultPrompt::CreateHereOrGlobal);
}

#[test]
fn answers_to_the_vault_question() {
    assert_eq!(vault_step(VaultPrompt::UseHere, 0), VaultStep::Use(Place::Here));
    assert_eq!(vault_step(VaultPrompt::UseGlobalOrCreateHere, 0), VaultStep::Use(Place::Global));
    assert_eq!(vault_step(VaultPrompt::UseGlobalOrCreateHere, 1), VaultStep::Create(Place::Here));
    assert_eq!(vault_step(VaultPrompt::CreateHereOrGlobal, 0), VaultStep::Create(Place::Here));
    assert_eq!(vault_step(VaultPrompt::CreateHereOrGlobal, 1), VaultStep::Create(Place::Global));
}
