use vstd::prelude::*;

use crate::stamp::Timestamp;

verus! {

/// A note's stable identifier (a ULID).
#[derive(Clone, Debug, PartialEq, Eq, Hash)]
pub struct NoteId(pub String);

/// A digit of Crockford's base 32, the alphabet ULIDs are written in.
pub open spec fn ulid_digit(c: char) -> bool {
    ('0' <= c && c <= '9') || ('A' <= c && c <= 'Z' && c != 'I' && c != 'L' && c != 'O' && c
        != 'U')
}

/// Calls `ulid::Ulid::new` and renders the value with `Ulid::to_string`. Claimed:
/// the text is 26 digits of Crockford's base 32, as `ulid::base32::encode` writes
/// them. Which ULID comes out depends on the clock and a random source, and is
/// not stated.
#[verifier::external_body]
fn new_ulid_text() -> (r: String)
    ensures
        r@.len() == 26,
        forall|i: int| 0 <= i < 26 ==> ulid_digit(#[trigger] r@[i]),
{
    ulid::Ulid::new().to_string()
}

impl Default for NoteId {
    /// A fresh identifier: a new ULID in its 26-character text form.
    fn default() -> (r: NoteId)
        ensures
            r.0@.len() == 26,
            forall|i: int| 0 <= i < 26 ==> ulid_digit(#[trigger] r.0@[i]),
    {
        NoteId(new_ulid_text())
    }
}

/// A note as the index knows it.
#[derive(Clone, Debug, PartialEq, Eq)]
pub struct Note {
    pub id: NoteId,
    pub title: String,
    pub slug: String,
    pub path: String,
    pub created_at: Timestamp,
    pub updated_at: Timestamp,
    pub tags: Vec<String>,
    pub outgoing_links: Vec<String>,
    pub content_hash: String,
    pub archived: bool,
}

/// A tag with the number of notes that carry it.
#[derive(Clone, Debug, PartialEq, Eq)]
pub struct Tag {
    pub normalized_name: String,
    pub display_name: String,
    pub note_count: usize,
}

/// A wiki link from one note to a title.
#[derive(Clone, Debug, PartialEq, Eq)]
pub struct Link {
    pub source_id: NoteId,
    pub target_title: String,
}

/// Git settings of a vault.
#[derive(Clone, Debug, PartialEq, Eq)]
pub struct GitConfig {
    pub enabled: bool,
    pub auto_commit: bool,
    pub default_branch: String,
}

/// The vault's `mem.json`.
#[derive(Clone, Debug, PartialEq, Eq)]
pub struct VaultConfig {
    pub version: u32,
    pub vault_name: String,
    pub notes_dir: String,
    pub index_db_path: String,
    pub default_editor_mode: String,
    pub git: Option<GitConfig>,
}

impl Default for VaultConfig {
    /// Version 1, vault `personal`, notes under `notes`, index at
    /// `.mem/index.sqlite`, rich editor, git enabled on `main` without auto-commit.
    fn default() -> (r: VaultConfig)
        ensures
            r.version == 1,
            r.vault_name@ == "personal"@,
            r.notes_dir@ == "notes"@,
            r.index_db_path@ == ".mem/index.sqlite"@,
            r.default_editor_mode@ == "rich"@,
            r.git matches Some(g) && g.enabled && !g.auto_commit && g.default_branch@ == "main"@,
    {
        VaultConfig {
            version: 1,
            vault_name: String::from_str("personal"),
            notes_dir: String::from_str("notes"),
            index_db_path: String::from_str(".mem/index.sqlite"),
            default_editor_mode: String::from_str("rich"),
            git: Some(
                GitConfig {
                    enabled: true,
                    auto_commit: false,
                    default_branch: String::from_str("main"),
                },
            ),
        }
    }
}

} // verus!
