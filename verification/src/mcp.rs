use vstd::prelude::*;

use crate::error::CoreError;
use crate::types::{ListParams, RelatedParams, SearchParams, ShowParams, UpdateParams};

verus! {

/// The `{ "ok": true }` answer of a tool that only signals success.
#[derive(Clone, Debug)]
pub struct OkResponse {
    pub ok: bool,
}

/// The answer of a tool that reports a command's output.
#[derive(Clone, Debug)]
pub struct OutputResponse {
    pub output: String,
}

/// A list answer: tool outputs must be objects, so a list goes under `items`.
#[derive(Clone, Debug)]
pub struct ListResponse<T> {
    pub items: Vec<T>,
}

impl<T> ListResponse<T> {
    /// Wraps a list.
    pub fn new(items: Vec<T>) -> (r: ListResponse<T>)
        ensures
            r.items@ == items@,
    {
        ListResponse { items }
    }
}

/// Arguments of `note_new`. Every tool that works on a vault takes an optional
/// `vault_path`; without one the server resolves the vault itself.
#[derive(Clone, Debug)]
pub struct NoteNewArgs {
    /// Title of the new note.
    pub title: String,
    /// Optional initial body; the H1 with the title is put in front of it.
    pub body: Option<String>,
    pub vault_path: Option<String>,
}

/// Arguments of `note_list`.
#[derive(Clone, Debug)]
pub struct NoteListArgs {
    /// Include archived notes.
    pub include_archived: bool,
    /// Only archived notes.
    pub only_archived: bool,
    /// Only notes carrying this tag (without `#`, case-insensitive).
    pub tag: Option<String>,
    /// At most this many notes.
    pub limit: Option<u32>,
    pub vault_path: Option<String>,
}

impl Default for NoteListArgs {
    /// Unarchived notes of the resolved vault, unfiltered and unlimited.
    fn default() -> (r: NoteListArgs)
        ensures
            !r.include_archived,
            !r.only_archived,
            r.tag is None,
            r.limit is None,
            r.vault_path is None,
    {
        NoteListArgs {
            include_archived: false,
            only_archived: false,
            tag: None,
            limit: None,
            vault_path: None,
        }
    }
}

/// Arguments of `note_related`.
#[derive(Clone, Debug)]
pub struct NoteRelatedArgs {
    /// Note id or slug.
    pub id_or_slug: String,
    /// At most this many notes (20 by default).
    pub limit: Option<u32>,
    pub vault_path: Option<String>,
}

/// Arguments of `note_show`.
#[derive(Clone, Debug)]
pub struct NoteShowArgs {
    /// Note id or slug.
    pub id_or_slug: String,
    /// Return the file with its frontmatter instead of the body.
    pub raw: bool,
    pub vault_path: Option<String>,
}

/// Arguments of `note_update`.
#[derive(Clone, Debug)]
pub struct NoteUpdateArgs {
    pub id_or_slug: String,
    pub title: Option<String>,
    /// Replaces the body (the H1 line is kept).
    pub body: Option<String>,
    /// Appended at the end.
    pub append: Option<String>,
    pub archive: bool,
    pub unarchive: bool,
    pub vault_path: Option<String>,
}

/// Arguments of `note_delete`.
#[derive(Clone, Debug)]
pub struct NoteDeleteArgs {
    pub id_or_slug: String,
    pub vault_path: Option<String>,
}

/// Arguments of `search`.
#[derive(Clone, Debug)]
pub struct SearchArgs {
    /// Free text; a leading `#` asks for an exact tag.
    pub query: String,
    pub limit: Option<u32>,
    pub vault_path: Option<String>,
}

/// Arguments of the tools that only need a vault.
#[derive(Clone, Debug)]
pub struct VaultRef {
    pub vault_path: Option<String>,
}

impl Default for VaultRef {
    /// The vault the server resolves.
    fn default() -> (r: VaultRef)
        ensures
            r.vault_path is None,
    {
        VaultRef { vault_path: None }
    }
}

/// Arguments of `vault_init`.
#[derive(Clone, Debug)]
pub struct VaultInitArgs {
    /// Where to create the vault.
    pub path: String,
    pub name: Option<String>,
}

/// Arguments of `sync_commit`.
#[derive(Clone, Debug)]
pub struct SyncCommitArgs {
    pub message: String,
    pub vault_path: Option<String>,
}

impl NoteListArgs {
    /// The listing these arguments ask for.
    pub fn list_params(self) -> (r: ListParams)
        ensures
            r.include_archived == self.include_archived,
            r.only_archived == self.only_archived,
            r.tag == self.tag,
            r.limit == self.limit,
    {
        ListParams {
            include_archived: self.include_archived,
            only_archived: self.only_archived,
            tag: self.tag,
            limit: self.limit,
        }
    }
}

impl NoteRelatedArgs {
    /// The related-notes request these arguments ask for.
    pub fn related_params(self) -> (r: RelatedParams)
        ensures
            r.id_or_slug == self.id_or_slug,
            r.limit == self.limit,
    {
        RelatedParams { id_or_slug: self.id_or_slug, limit: self.limit }
    }
}

impl NoteShowArgs {
    /// The note these arguments ask to show.
    pub fn show_params(self) -> (r: ShowParams)
        ensures
            r.id_or_slug == self.id_or_slug,
            r.raw == self.raw,
    {
        ShowParams { id_or_slug: self.id_or_slug, raw: self.raw }
    }
}

impl NoteUpdateArgs {
    /// The update these arguments ask for.
    pub fn update_params(self) -> (r: UpdateParams)
        ensures
            r.id_or_slug == self.id_or_slug,
            r.title == self.title,
            r.body == self.body,
            r.append == self.append,
            r.archive == self.archive,
            r.unarchive == self.unarchive,
    {
        UpdateParams {
            id_or_slug: self.id_or_slug,
            title: self.title,
            body: self.body,
            append: self.append,
            archive: self.archive,
            unarchive: self.unarchive,
        }
    }
}

impl SearchArgs {
    /// The search these arguments ask for.
    pub fn search_params(self) -> (r: SearchParams)
        ensures
            r.query == self.query,
            r.limit == self.limit,
    {
        SearchParams { query: self.query, limit: self.limit }
    }
}

/// How a failed tool call is reported to the client.
#[derive(Clone, Copy, Debug, PartialEq, Eq, Structural)]
pub enum ToolErrorKind {
    /// The request was at fault: an unknown note, bad input, no vault.
    InvalidParams,
    /// Anything else went wrong.
    Internal,
}

/// The caller is at fault for the error.
pub open spec fn caller_fault(e: CoreError) -> bool {
    ||| e is NoteNotFound
    ||| e is InvalidInput
    ||| e is NoVault
    ||| e is NotAVault
}

/// Classifies a failed tool call: unknown notes, invalid input and a missing
/// vault are the caller's fault; every other error is internal.
pub fn tool_error_kind(e: &CoreError) -> (r: ToolErrorKind)
    ensures
        r == (if caller_fault(*e) {
            ToolErrorKind::InvalidParams
        } else {
            ToolErrorKind::Internal
        }),
{
    match e {
        CoreError::NoteNotFound(_) | CoreError::InvalidInput(_) => ToolErrorKind::InvalidParams,
        CoreError::NoVault | CoreError::NotAVault(_) => ToolErrorKind::InvalidParams,
        _ => ToolErrorKind::Internal,
    }
}

} // verus!
