use vstd::prelude::*;

use crate::domain::Note;
use crate::stamp::{format_rfc3339, rfc3339, Timestamp};

verus! {

/// A vault's name and location.
#[derive(Clone, Debug)]
pub struct VaultInfo {
    pub vault_name: String,
    pub path: String,
}

/// A note as listings show it.
#[derive(Clone, Debug)]
pub struct NoteRef {
    pub id: String,
    pub slug: String,
    pub title: String,
    pub path: String,
    pub updated_at: Timestamp,
    pub archived: bool,
    pub tags: Vec<String>,
}

/// A note with its text.
#[derive(Clone, Debug)]
pub struct NoteView {
    pub id: String,
    pub slug: String,
    pub title: String,
    pub path: String,
    pub created_at: Timestamp,
    pub updated_at: Timestamp,
    pub archived: bool,
    pub tags: Vec<String>,
    pub outgoing_links: Vec<String>,
    /// The body without frontmatter; `None` when the raw file was asked for.
    pub body: Option<String>,
    /// The file's text with frontmatter; set only when it was asked for.
    pub raw: Option<String>,
}

/// What a listing shows.
#[derive(Clone, Debug)]
pub struct ListParams {
    /// Include archived notes.
    pub include_archived: bool,
    /// Show only archived notes.
    pub only_archived: bool,
    /// Only notes carrying this tag (case-insensitive, `#` optional).
    pub tag: Option<String>,
    /// At most this many notes.
    pub limit: Option<u32>,
}

impl Default for ListParams {
    /// Unarchived notes, no tag filter, no limit.
    fn default() -> (r: ListParams)
        ensures
            !r.include_archived,
            !r.only_archived,
            r.tag is None,
            r.limit is None,
    {
        ListParams { include_archived: false, only_archived: false, tag: None, limit: None }
    }
}

/// A new note's title and optional body.
#[derive(Clone, Debug)]
pub struct NewParams {
    pub title: String,
    pub body: Option<String>,
}

/// Which note to find relatives of, and how many.
#[derive(Clone, Debug)]
pub struct RelatedParams {
    pub id_or_slug: String,
    pub limit: Option<u32>,
}

/// A tag and the number of notes carrying it.
#[derive(Clone, Debug)]
pub struct TagInfo {
    pub name: String,
    pub note_count: i64,
}

/// Which note to show, and whether as the raw file.
#[derive(Clone, Debug)]
pub struct ShowParams {
    pub id_or_slug: String,
    pub raw: bool,
}

/// The changes to make to a note.
#[derive(Clone, Debug)]
pub struct UpdateParams {
    /// Note id or slug.
    pub id_or_slug: String,
    /// A new title.
    pub title: Option<String>,
    /// A new body (the H1 line is kept).
    pub body: Option<String>,
    /// Text to append at the end.
    pub append: Option<String>,
    /// Archive the note.
    pub archive: bool,
    /// Unarchive the note.
    pub unarchive: bool,
}

impl Default for UpdateParams {
    /// No id, no change.
    fn default() -> (r: UpdateParams)
        ensures
            r.id_or_slug@ == Seq::<char>::empty(),
            r.title is None,
            r.body is None,
            r.append is None,
            !r.archive,
            !r.unarchive,
    {
        UpdateParams {
            id_or_slug: String::new(),
            title: None,
            body: None,
            append: None,
            archive: false,
            unarchive: false,
        }
    }
}

/// A search query and how many hits to return.
#[derive(Clone, Debug)]
pub struct SearchParams {
    /// Free text; a leading `#` asks for an exact tag.
    pub query: String,
    pub limit: Option<u32>,
}

/// The git state of a vault.
#[derive(Clone, Debug)]
pub struct SyncStatusInfo {
    pub clean: bool,
    pub conflicts: bool,
    pub status: String,
}

/// How a listing shows a note.
pub fn note_ref(note: &Note) -> (r: NoteRef)
    ensures
        r.id@ == note.id.0@,
        r.slug@ == note.slug@,
        r.title@ == note.title@,
        r.path@ == note.path@,
        r.updated_at == note.updated_at,
        r.archived == note.archived,
        r.tags@.map_values(|t: String| t@) == note.tags@.map_values(|t: String| t@),
{
    NoteRef {
        id: note.id.0.clone(),
        slug: note.slug.clone(),
        title: note.title.clone(),
        path: note.path.clone(),
        updated_at: note.updated_at,
        archived: note.archived,
        tags: clone_strings(&note.tags),
    }
}

/// A copy of a list of strings.
pub fn clone_strings(v: &Vec<String>) -> (r: Vec<String>)
    ensures
        r@.map_values(|t: String| t@) == v@.map_values(|t: String| t@),
{
    let mut r: Vec<String> = Vec::new();
    let mut i: usize = 0;
    while i < v.len()
        invariant
            i <= v@.len(),
            r@.map_values(|t: String| t@) == v@.map_values(|t: String| t@).take(i as int),
        decreases v.len() - i,
    {
        let ghost before = r@.map_values(|t: String| t@);
        r.push(v[i].clone());
        assert(r@.map_values(|t: String| t@) =~= before.push(v@[i as int]@));
        i = i + 1;
        assert(v@.map_values(|t: String| t@).take(i as int) =~= v@.map_values(|t: String| t@).take(
            (i - 1) as int,
        ).push(v@[i - 1]@));
    }
    assert(v@.map_values(|t: String| t@).take(i as int) =~= v@.map_values(|t: String| t@));
    r
}


/// A note as the desktop app lists it, its update time in RFC 3339.
#[derive(Clone, Debug)]
pub struct NoteWithTags {
    pub id: String,
    pub title: String,
    pub slug: String,
    pub tags: Vec<String>,
    pub updated_at: String,
}

impl NoteWithTags {
    /// The desktop app's form of a listed note.
    pub fn from_ref(r: NoteRef) -> (n: NoteWithTags)
        requires
            r.updated_at.valid(),
        ensures
            n.id@ == r.id@,
            n.title@ == r.title@,
            n.slug@ == r.slug@,
            n.tags@ == r.tags@,
            n.updated_at@ == rfc3339(r.updated_at.secs, r.updated_at.nanos),
    {
        let updated_at = format_rfc3339(&r.updated_at);
        NoteWithTags { id: r.id, title: r.title, slug: r.slug, tags: r.tags, updated_at }
    }
}

/// The tag graph the desktop app draws.
#[derive(Clone, Debug)]
pub struct TagGraphData {
    pub nodes: Vec<TagNode>,
    pub edges: Vec<TagEdge>,
}

/// A tag and how many notes carry it.
#[derive(Clone, Debug)]
pub struct TagNode {
    pub name: String,
    pub count: i64,
}

/// Two tags and how many notes carry both.
#[derive(Clone, Debug)]
pub struct TagEdge {
    pub source: String,
    pub target: String,
    pub weight: i64,
}

} // verus!
