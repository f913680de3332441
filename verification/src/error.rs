use vstd::prelude::*;

use crate::text::{decimal, decimal_string, signed_decimal, signed_decimal_string};

verus! {

/// Failures of reading and writing note files.
#[derive(Clone, Debug)]
pub enum StorageError {
    /// An I/O error, with its message.
    Io(String),
    /// A note file that does not exist.
    InvalidPath(String),
}

/// Failures of reading and writing a vault's `mem.json`.
#[derive(Clone, Debug)]
pub enum ConfigError {
    /// An I/O error, with its message.
    Io(String),
    /// The file is not a valid config, with the parser's message.
    Parse(String),
    /// There is no config file at this path.
    NotFound(String),
}

/// Failures of creating a vault.
#[derive(Clone, Debug)]
pub enum VaultError {
    /// An I/O error, with its message.
    Io(String),
    /// The config could not be written.
    Config(ConfigError),
    /// `mem.json` already exists at the path.
    AlreadyInitialized(String),
}

/// Failures of the index database.
#[derive(Clone, Debug)]
pub enum IndexError {
    /// SQLite reported an error, with its message.
    Sqlite(String),
    /// An I/O error, with its message.
    Io(String),
    /// The schema could not be brought from one version to another.
    Migration { current: usize, target: usize },
}

/// Failures of git synchronisation.
#[derive(Clone, Debug)]
pub enum SyncError {
    /// git could not be run, with the I/O error's message.
    Io(String),
    /// git ran and failed: its exit code (-1 when killed) and its standard error.
    Git { code: i32, stderr: String },
    /// The vault is not inside a git work tree.
    NotARepo,
}

/// Failures of the vault operations.
#[derive(Clone, Debug)]
pub enum CoreError {
    Storage(StorageError),
    Vault(VaultError),
    Config(ConfigError),
    Index(IndexError),
    Sync(SyncError),
    /// A query of the index failed, with SQLite's message.
    Sqlite(String),
    /// An I/O error, with its message.
    Io(String),
    /// No note has this id or slug.
    NoteNotFound(String),
    /// The path is not a mem vault.
    NotAVault(String),
    /// No vault was given or found.
    NoVault,
    /// The request is malformed, with the reason.
    InvalidInput(String),
}

impl StorageError {
    /// The message shown for the error.
    pub open spec fn text(self) -> Seq<char> {
        match self {
            StorageError::Io(m) => "IO Error: "@ + m@,
            StorageError::InvalidPath(p) => "Invalid Path: "@ + p@,
        }
    }

    /// The message shown for the error.
    pub fn message(&self) -> (r: String)
        ensures
            r@ == self.text(),
    {
        let (mut r, tail) = match self {
            StorageError::Io(m) => (String::from_str("IO Error: "), m),
            StorageError::InvalidPath(p) => (String::from_str("Invalid Path: "), p),
        };
        r.append(tail.as_str());
        r
    }
}

impl ConfigError {
    /// The message shown for the error.
    pub open spec fn text(self) -> Seq<char> {
        match self {
            ConfigError::Io(m) => "IO Error: "@ + m@,
            ConfigError::Parse(m) => "Parse Error: "@ + m@,
            ConfigError::NotFound(p) => "Config file not found: "@ + p@,
        }
    }

    /// The message shown for the error.
    pub fn message(&self) -> (r: String)
        ensures
            r@ == self.text(),
    {
        let (mut r, tail) = match self {
            ConfigError::Io(m) => (String::from_str("IO Error: "), m),
            ConfigError::Parse(m) => (String::from_str("Parse Error: "), m),
            ConfigError::NotFound(p) => (String::from_str("Config file not found: "), p),
        };
        r.append(tail.as_str());
        r
    }
}

impl VaultError {
    /// The message shown for the error.
    pub open spec fn text(self) -> Seq<char> {
        match self {
            VaultError::Io(m) => "IO Error: "@ + m@,
            VaultError::Config(e) => "Config Error: "@ + e.text(),
            VaultError::AlreadyInitialized(p) => "Vault already initialized at "@ + p@,
        }
    }

    /// The message shown for the error.
    pub fn message(&self) -> (r: String)
        ensures
            r@ == self.text(),
    {
        let (mut r, tail) = match self {
            VaultError::Io(m) => (String::from_str("IO Error: "), m.clone()),
            VaultError::Config(e) => (String::from_str("Config Error: "), e.message()),
            VaultError::AlreadyInitialized(p) => (
                String::from_str("Vault already initialized at "),
                p.clone(),
            ),
        };
        r.append(tail.as_str());
        r
    }
}

impl IndexError {
    /// The message shown for the error.
    pub open spec fn text(self) -> Seq<char> {
        match self {
            IndexError::Sqlite(m) => "Database error: "@ + m@,
            IndexError::Io(m) => "IO error: "@ + m@,
            IndexError::Migration { current, target } => "Migration error. Current: "@ + decimal(
                current as nat,
            ) + ", Target: "@ + decimal(target as nat),
        }
    }

    /// The message shown for the error.
    pub fn message(&self) -> (r: String)
        ensures
            r@ == self.text(),
    {
        match self {
            IndexError::Sqlite(m) => {
                let mut r = String::from_str("Database error: ");
                r.append(m.as_str());
                r
            },
            IndexError::Io(m) => {
                let mut r = String::from_str("IO error: ");
                r.append(m.as_str());
                r
            },
            IndexError::Migration { current, target } => {
                let mut r = String::from_str("Migration error. Current: ");
                let c = decimal_string(*current as u64);
                r.append(c.as_str());
                r.append(", Target: ");
                let t = decimal_string(*target as u64);
                r.append(t.as_str());
                r
            },
        }
    }
}

impl SyncError {
    /// The message shown for the error.
    pub open spec fn text(self) -> Seq<char> {
        match self {
            SyncError::Io(m) => "Git command IO failed: "@ + m@,
            SyncError::Git { code, stderr } => "Git error ("@ + signed_decimal(code as int) + "): "@
                + stderr@,
            SyncError::NotARepo => "Not a git repository"@,
        }
    }

    /// The message shown for the error.
    pub fn message(&self) -> (r: String)
        ensures
            r@ == self.text(),
    {
        match self {
            SyncError::Io(m) => {
                let mut r = String::from_str("Git command IO failed: ");
                r.append(m.as_str());
                r
            },
            SyncError::Git { code, stderr } => {
                let mut r = String::from_str("Git error (");
                let c = signed_decimal_string(*code);
                r.append(c.as_str());
                r.append("): ");
                r.append(stderr.as_str());
                r
            },
            SyncError::NotARepo => String::from_str("Not a git repository"),
        }
    }
}

impl CoreError {
    /// The message shown for the error.
    pub open spec fn text(self) -> Seq<char> {
        match self {
            CoreError::Storage(e) => "Storage error: "@ + e.text(),
            CoreError::Vault(e) => "Vault error: "@ + e.text(),
            CoreError::Config(e) => "Config error: "@ + e.text(),
            CoreError::Index(e) => "Index error: "@ + e.text(),
            CoreError::Sync(e) => "Sync error: "@ + e.text(),
            CoreError::Sqlite(m) => "SQLite error: "@ + m@,
            CoreError::Io(m) => "IO error: "@ + m@,
            CoreError::NoteNotFound(k) => "Note not found: "@ + k@,
            CoreError::NotAVault(p) => "Not a mem vault at "@ + p@,
            CoreError::NoVault => "No vault configured. Set MEM_VAULT env or pass vault_path."@,
            CoreError::InvalidInput(m) => "Invalid input: "@ + m@,
        }
    }

    /// The message shown for the error.
    pub fn message(&self) -> (r: String)
        ensures
            r@ == self.text(),
    {
        let (mut r, tail) = match self {
            CoreError::Storage(e) => (String::from_str("Storage error: "), e.message()),
            CoreError::Vault(e) => (String::from_str("Vault error: "), e.message()),
            CoreError::Config(e) => (String::from_str("Config error: "), e.message()),
            CoreError::Index(e) => (String::from_str("Index error: "), e.message()),
            CoreError::Sync(e) => (String::from_str("Sync error: "), e.message()),
            CoreError::Sqlite(m) => (String::from_str("SQLite error: "), m.clone()),
            CoreError::Io(m) => (String::from_str("IO error: "), m.clone()),
            CoreError::NoteNotFound(k) => (String::from_str("Note not found: "), k.clone()),
            CoreError::NotAVault(p) => (String::from_str("Not a mem vault at "), p.clone()),
            CoreError::NoVault => (
                String::from_str("No vault configured. Set MEM_VAULT env or pass vault_path."),
                String::new(),
            ),
            CoreError::InvalidInput(m) => (String::from_str("Invalid input: "), m.clone()),
        };
        r.append(tail.as_str());
        r
    }
}

} // verus!
