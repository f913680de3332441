use vstd::prelude::*;

use crate::domain::VaultConfig;
use crate::storage::{join_path, path_join};
use crate::error::CoreError;
use crate::types::VaultInfo;

verus! {

/// The config a new vault starts with: the defaults, named `name` when one is given.
pub fn init_config(name: Option<String>) -> (r: VaultConfig)
    ensures
        r.version == 1,
        r.vault_name@ == match name {
            Some(n) => n@,
            None => "personal"@,
        },
        r.notes_dir@ == "notes"@,
        r.index_db_path@ == ".mem/index.sqlite"@,
        r.default_editor_mode@ == "rich"@,
        r.git matches Some(g) && g.enabled && !g.auto_commit && g.default_branch@ == "main"@,
{
    let mut cfg = VaultConfig::default();
    if let Some(n) = name {
        cfg.vault_name = n;
    }
    cfg
}

/// The files and directories of a vault at a path.
#[derive(Clone, Debug)]
pub struct VaultLayout {
    /// `mem.json`.
    pub config_file: String,
    /// The notes directory named by the config.
    pub notes_dir: String,
    /// `.mem`, the vault's internal directory.
    pub internal_dir: String,
    /// `inbox` under the notes directory.
    pub inbox_dir: String,
    /// `journal` under the notes directory.
    pub journal_dir: String,
    /// `.mem/index.sqlite`, the index database.
    pub index_db: String,
}

/// Where the parts of the vault at `path` live, the notes directory being the config's.
pub fn vault_layout(path: &str, config: &VaultConfig) -> (r: VaultLayout)
    ensures
        r.config_file@ == path_join(path@, "mem.json"@),
        r.notes_dir@ == path_join(path@, config.notes_dir@),
        r.internal_dir@ == path_join(path@, ".mem"@),
        r.inbox_dir@ == path_join(path_join(path@, config.notes_dir@), "inbox"@),
        r.journal_dir@ == path_join(path_join(path@, config.notes_dir@), "journal"@),
        r.index_db@ == path_join(path_join(path@, ".mem"@), "index.sqlite"@),
{
    let notes_dir = join_path(path, config.notes_dir.as_str());
    let internal_dir = join_path(path, ".mem");
    VaultLayout {
        config_file: join_path(path, "mem.json"),
        inbox_dir: join_path(notes_dir.as_str(), "inbox"),
        journal_dir: join_path(notes_dir.as_str(), "journal"),
        index_db: join_path(internal_dir.as_str(), "index.sqlite"),
        notes_dir,
        internal_dir,
    }
}

/// What `init` reports of a new vault: its name and location.
pub fn vault_info(config: &VaultConfig, path: &str) -> (r: VaultInfo)
    ensures
        r.vault_name@ == config.vault_name@,
        r.path@ == path@,
{
    VaultInfo { vault_name: config.vault_name.clone(), path: String::from_str(path) }
}

/// A place where a vault may be, and whether a valid vault is there.
#[derive(Clone, Debug)]
pub struct VaultSpot {
    pub path: String,
    pub valid: bool,
}

/// Picks the vault to work on, without asking: an explicitly given path must
/// hold a vault; otherwise the current directory if it holds one, then the
/// `MEM_VAULT` path if it holds one, then the global vault if it holds one;
/// with none of them, there is no vault.
pub fn pick_vault(
    explicit: Option<VaultSpot>,
    cwd: Option<VaultSpot>,
    env: Option<VaultSpot>,
    global: VaultSpot,
) -> (r: Result<String, CoreError>)
    ensures
        match explicit {
            Some(e) => if e.valid {
                r == Ok::<String, CoreError>(e.path)
            } else {
                r matches Err(CoreError::NotAVault(p)) && p == e.path
            },
            None => if cwd matches Some(c) && c.valid {
                r == Ok::<String, CoreError>(cwd->0.path)
            } else {
                if env matches Some(e) && e.valid {
                    r == Ok::<String, CoreError>(env->0.path)
                } else if global.valid {
                    r == Ok::<String, CoreError>(global.path)
                } else {
                    r matches Err(CoreError::NoVault)
                }
            },
        },
{
    if let Some(e) = explicit {
        if e.valid {
            return Ok(e.path);
        }
        return Err(CoreError::NotAVault(e.path));
    }
    if let Some(c) = cwd {
        if c.valid {
            return Ok(c.path);
        }
    }
    if let Some(e) = env {
        if e.valid {
            return Ok(e.path);
        }
    }
    if global.valid {
        return Ok(global.path);
    }
    Err(CoreError::NoVault)
}

/// Which of two places a vault question is about.
#[derive(Clone, Copy, Debug, PartialEq, Eq, Structural)]
pub enum Place {
    /// The current directory.
    Here,
    /// The global vault.
    Global,
}

/// What the command line does when it needs a vault: use the one in the
/// current directory, or ask the user, offering either to use the global vault
/// or to create one here (when a global vault exists), or where to create one
/// (when none exists).
#[derive(Clone, Copy, Debug, PartialEq, Eq, Structural)]
pub enum VaultPrompt {
    UseHere,
    UseGlobalOrCreateHere,
    CreateHereOrGlobal,
}

/// What an answer to the vault question asks for.
#[derive(Clone, Copy, Debug, PartialEq, Eq, Structural)]
pub enum VaultStep {
    /// Work in the existing vault there.
    Use(Place),
    /// Create a vault there and work in it.
    Create(Place),
}

/// Decides whether to ask, and what: nothing when the current directory holds
/// a vault; otherwise the question depends on whether the global vault exists.
pub fn vault_prompt(here_valid: bool, global_valid: bool) -> (r: VaultPrompt)
    ensures
        r == (if here_valid {
            VaultPrompt::UseHere
        } else if global_valid {
            VaultPrompt::UseGlobalOrCreateHere
        } else {
            VaultPrompt::CreateHereOrGlobal
        }),
{
    if here_valid {
        VaultPrompt::UseHere
    } else if global_valid {
        VaultPrompt::UseGlobalOrCreateHere
    } else {
        VaultPrompt::CreateHereOrGlobal
    }
}

/// What the user's choice (the index of the offered item, first item first)
/// asks for.
pub fn vault_step(prompt: VaultPrompt, choice: usize) -> (r: VaultStep)
    requires
        prompt != VaultPrompt::UseHere ==> choice < 2,
    ensures
        r == match prompt {
            VaultPrompt::UseHere => VaultStep::Use(Place::Here),
            VaultPrompt::UseGlobalOrCreateHere => if choice == 0 {
                VaultStep::Use(Place::Global)
            } else {
                VaultStep::Create(Place::Here)
            },
            VaultPrompt::CreateHereOrGlobal => if choice == 0 {
                VaultStep::Create(Place::Here)
            } else {
                VaultStep::Create(Place::Global)
            },
        },
{
    match prompt {
        VaultPrompt::UseHere => VaultStep::Use(Place::Here),
        VaultPrompt::UseGlobalOrCreateHere => if choice == 0 {
            VaultStep::Use(Place::Global)
        } else {
            VaultStep::Create(Place::Here)
        },
        VaultPrompt::CreateHereOrGlobal => if choice == 0 {
            VaultStep::Create(Place::Here)
        } else {
            VaultStep::Create(Place::Global)
        },
    }
}

} // verus!
