use vstd::prelude::*;

use crate::domain::{ulid_digit, Note, NoteId};
use crate::error::CoreError;
use crate::parser::{extract_links, extract_tags, fold_free, lemma_tags_single_line, link_set, tag_set};
use crate::stamp::{clock, clock_error_message, Timestamp};
use crate::storage::{
    closing_fence, fence_free, fields_fence_free, lemma_no_newline_free, same_but_write, skip_newlines,
    strip_frontmatter, stripped,
};
use crate::text::{
    chars_of, decimal, decimal_string, find_chars, find_from, join_seq, lemma_find_from_first,
    lemma_find_from_result, lowered, occurs_at, push_char, push_range, string_of, strictly_sorted,
    to_lowercase, trim, trim_chars,
};
use crate::types::{ListParams, NoteView, RelatedParams, UpdateParams};
use crate::util::{generate_slug, slug};

verus! {

/// The text opens with an H1 marker `# `.
pub open spec fn starts_h1(content: Seq<char>) -> bool {
    content.len() >= 2 && content[0] == '#' && content[1] == ' '
}

/// The index of the first line break of `content`.
pub open spec fn first_newline(content: Seq<char>) -> Option<int> {
    find_from(content, seq!['\n'], 0)
}

/// `content` with its H1 title line replaced by `# <title>`; content without
/// an H1 line is left as it is. A one-line note becomes `# <title>` and a blank line.
pub open spec fn h1_replaced(content: Seq<char>, title: Seq<char>) -> Seq<char> {
    if starts_h1(content) {
        match first_newline(content) {
            Some(i) => "# "@ + title + content.skip(i),
            None => "# "@ + title + "\n\n"@,
        }
    } else {
        content
    }
}

/// `content`'s H1 line (all of it when no line break follows the heading), a
/// blank line, then `body`; just `body` when the content has no H1 line.
pub open spec fn body_replaced(content: Seq<char>, body: Seq<char>) -> Seq<char> {
    if starts_h1(content) {
        match first_newline(content) {
            Some(i) => content.take(i) + "\n\n"@ + body,
            None => content + "\n\n"@ + body,
        }
    } else {
        body
    }
}

fn newline_index(cs: &Vec<char>) -> (r: Option<usize>)
    ensures
        r matches Some(i) ==> first_newline(cs@) == Some(i as int) && i < cs@.len(),
        r is None ==> first_newline(cs@) is None,
{
    let nl: Vec<char> = vec!['\n'];
    assert(nl@ =~= seq!['\n']);
    let r = find_chars(cs, &nl, 0);
    proof {
        lemma_find_from_result(cs@, seq!['\n'], 0);
    }
    r
}

/// Retitling then replacing the body of a note that opens with an H1 line
/// leaves exactly `# <title>`, a blank line and the new body, provided the
/// title is a single line.
pub proof fn lemma_retitle_then_rebody(content: Seq<char>, title: Seq<char>, body: Seq<char>)
    requires
        starts_h1(content),
        forall|i: int| 0 <= i < title.len() ==> title[i] != '\n',
    ensures
        body_replaced(h1_replaced(content, title), body) == "# "@ + title + "\n\n"@ + body,
{
    reveal_strlit("# ");
    reveal_strlit("\n\n");
    let nl = seq!['\n'];
    let head = "# "@ + title;
    let tail = match first_newline(content) {
        Some(i) => content.skip(i),
        None => "\n\n"@,
    };
    lemma_find_from_result(content, nl, 0);
    if let Some(i) = first_newline(content) {
        assert(content.subrange(i, i + 1) =~= nl);
        assert(content.subrange(i, i + 1)[0] == content[i]);
        assert(content[i] == '\n');
        assert(tail[0] == '\n');
    }
    let x = h1_replaced(content, title);
    assert(x =~= head + tail);
    let k = head.len() as int;
    assert(x.subrange(k, k + 1) =~= nl);
    assert forall|j: int| 0 <= j < k implies !occurs_at(x, nl, j) by {
        assert(x.subrange(j, j + 1)[0] == x[j]);
        if j >= 2 {
            assert(x[j] == title[j - 2]);
        }
    }
    lemma_find_from_first(x, nl, 0, k);
    assert(x.take(k) =~= head);
}

/// Replaces the H1 title line of a note's content.
pub fn replace_h1(content: &str, new_title: &str) -> (r: String)
    ensures
        r@ == h1_replaced(content@, new_title@),
{
    let cs = chars_of(content);
    if !(cs.len() >= 2 && cs[0] == '#' && cs[1] == ' ') {
        let mut r = String::new();
        push_range(&mut r, &cs, 0, cs.len());
        assert(cs@.subrange(0, cs@.len() as int) =~= cs@);
        return r;
    }
    let mut r = String::new();
    r.append("# ");
    r.append(new_title);
    match newline_index(&cs) {
        Some(i) => {
            push_range(&mut r, &cs, i, cs.len());
            assert(cs@.subrange(i as int, cs@.len() as int) =~= cs@.skip(i as int));
        },
        None => {
            r.append("\n\n");
        },
    }
    r
}

/// Replaces the body of a note's content, keeping its H1 line.
pub fn replace_body_keep_h1(content: &str, new_body: &str) -> (r: String)
    ensures
        r@ == body_replaced(content@, new_body@),
{
    let cs = chars_of(content);
    if cs.len() >= 2 && cs[0] == '#' && cs[1] == ' ' {
        if let Some(i) = newline_index(&cs) {
            let mut r = String::new();
            push_range(&mut r, &cs, 0, i);
            assert(cs@.subrange(0, i as int) =~= cs@.take(i as int));
            r.append("\n\n");
            r.append(new_body);
            return r;
        }
        let mut r = String::new();
        push_range(&mut r, &cs, 0, cs.len());
        assert(cs@.subrange(0, cs@.len() as int) =~= cs@);
        r.append("\n\n");
        r.append(new_body);
        return r;
    }
    let mut r = String::new();
    r.append(new_body);
    assert(r@ =~= new_body@);
    r
}

/// The content of a new note: `# <title>`, a blank line, then the body (if any).
pub open spec fn new_note_content(title: Seq<char>, body: Option<Seq<char>>) -> Seq<char> {
    "# "@ + title + "\n\n"@ + match body {
        Some(b) => b,
        None => seq![],
    }
}

/// A created note reads back whole. Once drafted from a title without line
/// breaks (and a text holding neither `ſ` nor the Kelvin sign) and then stamped
/// for writing, no field of its frontmatter holds a line that starts with
/// `---`, and its content opens with `#`: so the file that `prepare_note_write`
/// renders, with its frontmatter taken off (as `show` does), is exactly
/// `# <title>`, a blank line and the body.
pub proof fn lemma_created_note_reads_back(
    title: Seq<char>,
    body: Option<Seq<char>>,
    note: Note,
    written: Note,
)
    requires
        forall|k: int| 0 <= k < title.len() ==> title[k] != '\n',
        fold_free(new_note_content(title, body)),
        drafted(note, new_note_content(title, body), title, note.id.0@, note.created_at, note.updated_at),
        fence_free(note.id.0@),
        same_but_write(note, written),
    ensures
        fields_fence_free(written),
        skip_newlines(new_note_content(title, body)) == new_note_content(title, body),
{
    let c = new_note_content(title, body);
    lemma_no_newline_free(title);
    let tags = note.tags@.map_values(|t: String| t@);
    assert forall|i: int| 0 <= i < written.tags@.len() implies fence_free(#[trigger] written.tags@[i]@) by {
        assert(tags[i] == written.tags@[i]@);
        assert(tags.to_set().contains(tags[i]));
        lemma_tags_single_line(c, tags[i]);
        lemma_no_newline_free(tags[i]);
    }
    reveal_strlit("# ");
    assert(c[0] == '#');
}

/// The reason a new note is refused: its title is empty or only whitespace.
pub open spec fn empty_title_message() -> Seq<char> {
    "title must not be empty"@
}

/// The note that a title and body make, before it is given a file: its id and
/// times, the title's slug, the tags and links of its content, not archived.
pub open spec fn drafted(
    note: Note,
    content: Seq<char>,
    title: Seq<char>,
    id: Seq<char>,
    created: Timestamp,
    updated: Timestamp,
) -> bool {
    &&& note.id.0@ == id
    &&& note.title@ == title
    &&& note.slug@ == slug(title)
    &&& note.path@.len() == 0
    &&& note.created_at == created
    &&& note.updated_at == updated
    &&& strictly_sorted(note.tags@.map_values(|t: String| t@))
    &&& note.tags@.map_values(|t: String| t@).to_set() == tag_set(content)
    &&& strictly_sorted(note.outgoing_links@.map_values(|t: String| t@))
    &&& note.outgoing_links@.map_values(|t: String| t@).to_set() == link_set(content)
    &&& note.content_hash@ == "empty"@
    &&& !note.archived
}

/// Drafts a new note from its title and optional body, with the given id,
/// creation and update times. A title that is empty after trimming is refused.
pub fn compose_new_note(
    title: &str,
    body: Option<&str>,
    id: NoteId,
    created: Timestamp,
    updated: Timestamp,
) -> (r: Result<
    (Note, String),
    CoreError,
>)
    ensures
        trim(title@).len() == 0 <==> r is Err,
        r matches Err(e) ==> (e matches CoreError::InvalidInput(m) && m@ == empty_title_message()),
        r matches Ok((note, content)) ==> {
            let c = new_note_content(title@, match body {
                Some(b) => Some(b@),
                None => None,
            });
            &&& content@ == c
            &&& drafted(note, c, title@, id.0@, created, updated)
        },
{
    let tcs = chars_of(title);
    let trimmed = trim_chars(&tcs);
    if trimmed.len() == 0 {
        return Err(CoreError::InvalidInput(String::from_str("title must not be empty")));
    }
    let mut content = String::new();
    content.append("# ");
    content.append(title);
    content.append("\n\n");
    match body {
        Some(b) => {
            content.append(b);
        },
        None => {
            assert(content@ =~= content@ + Seq::<char>::empty());
        },
    }
    let tags = extract_tags(content.as_str());
    let links = extract_links(content.as_str());
    let note = Note {
        id,
        title: String::from_str(title),
        slug: generate_slug(title),
        path: String::new(),
        created_at: created,
        updated_at: updated,
        tags,
        outgoing_links: links,
        content_hash: String::from_str("empty"),
        archived: false,
    };
    Ok((note, content))
}

/// A ULID's text holds no line break, so no line of it starts with `---`.
proof fn lemma_ulid_fence_free(id: Seq<char>)
    requires
        id.len() == 26,
        forall|i: int| 0 <= i < 26 ==> ulid_digit(#[trigger] id[i]),
    ensures
        fence_free(id),
{
    assert forall|j: int| !occurs_at(id, closing_fence(), j) by {
        if occurs_at(id, closing_fence(), j) {
            assert(id.subrange(j, j + 4)[0] == id[j]);
            assert(ulid_digit(id[j]));
        }
    }
}

/// Drafts a new note with a fresh ULID, created (and updated) now. A blank
/// title is refused; so is drafting while the clock cannot be read.
pub fn draft_new_note(title: &str, body: Option<&str>) -> (r: Result<(Note, String), CoreError>)
    ensures
        trim(title@).len() == 0 ==> (r matches Err(e) && (e matches CoreError::InvalidInput(m)
            && m@ == empty_title_message())),
        trim(title@).len() != 0 && r is Err ==> (r->Err_0 matches CoreError::Io(m) && m@
            == clock_error_message()),
        r matches Ok((note, content)) ==> {
            let c = new_note_content(title@, match body {
                Some(b) => Some(b@),
                None => None,
            });
            &&& content@ == c
            &&& drafted(note, c, title@, note.id.0@, note.created_at, note.updated_at)
            &&& note.id.0@.len() == 26
            &&& forall|i: int| 0 <= i < 26 ==> ulid_digit(#[trigger] note.id.0@[i])
            &&& fence_free(note.id.0@)
            &&& note.created_at.valid()
            &&& note.updated_at.valid()
        },
{
    let tcs = chars_of(title);
    let trimmed = trim_chars(&tcs);
    if trimmed.len() == 0 {
        return Err(CoreError::InvalidInput(String::from_str("title must not be empty")));
    }
    let id = NoteId::default();
    proof {
        lemma_ulid_fence_free(id.0@);
    }
    let created = clock()?;
    let updated = clock()?;
    compose_new_note(title, body, id, created, updated)
}

/// The reason an update that changes nothing is refused.
pub open spec fn nothing_to_update_message() -> Seq<char> {
    "nothing to update: provide at least one of title, body, append, archive, unarchive"@
}

/// The reason an update that both archives and unarchives is refused.
pub open spec fn exclusive_archive_message() -> Seq<char> {
    "archive and unarchive are mutually exclusive"@
}

/// The update asks for no change at all.
pub open spec fn asks_nothing(p: UpdateParams) -> bool {
    p.title is None && p.body is None && p.append is None && !p.archive && !p.unarchive
}

/// Checks that an update asks for something, and not for both archiving and
/// unarchiving.
pub fn validate_update(params: &UpdateParams) -> (r: Result<(), CoreError>)
    ensures
        asks_nothing(*params) ==> (r matches Err(CoreError::InvalidInput(m)) && m@
            == nothing_to_update_message()),
        !asks_nothing(*params) && params.archive && params.unarchive ==> (r matches Err(
            CoreError::InvalidInput(m),
        ) && m@ == exclusive_archive_message()),
        !asks_nothing(*params) && !(params.archive && params.unarchive) ==> r is Ok,
{
    if params.title.is_none() && params.body.is_none() && params.append.is_none()
        && !params.archive && !params.unarchive {
        return Err(
            CoreError::InvalidInput(
                String::from_str(
                    "nothing to update: provide at least one of title, body, append, archive, unarchive",
                ),
            ),
        );
    }
    if params.archive && params.unarchive {
        return Err(
            CoreError::InvalidInput(
                String::from_str("archive and unarchive are mutually exclusive"),
            ),
        );
    }
    Ok(())
}

/// The content after an update: the title replaces the H1 line, then the body
/// replaces the body, then the appended text goes on a line of its own at the
/// end, followed by a line break.
pub open spec fn updated_content(content: Seq<char>, p: UpdateParams) -> Seq<char> {
    let c1 = match p.title {
        Some(t) => h1_replaced(content, t@),
        None => content,
    };
    let c2 = match p.body {
        Some(b) => body_replaced(c1, b@),
        None => c1,
    };
    match p.append {
        Some(x) => {
            let c3 = if c2.len() > 0 && c2.last() == '\n' {
                c2
            } else {
                c2.push('\n')
            };
            c3 + x@ + seq!['\n']
        },
        None => c2,
    }
}

/// Applies a validated update to a note and its content. Returns the new note
/// (title, slug, archive flag, tags and links of the new content; the path
/// cleared when the slug changed, so that the note is written to its new
/// canonical file), the new content, and whether the slug changed.
pub fn apply_update(note: Note, content: String, params: UpdateParams) -> (r: (Note, String, bool))
    ensures
        r.1@ == updated_content(content@, params),
        r.2 == (params.title is Some && slug(params.title->0@) != note.slug@),
        r.0.id.0@ == note.id.0@,
        r.0.title@ == match params.title {
            Some(t) => t@,
            None => note.title@,
        },
        r.0.slug@ == match params.title {
            Some(t) => slug(t@),
            None => note.slug@,
        },
        r.0.path@ == if r.2 {
            Seq::<char>::empty()
        } else {
            note.path@
        },
        r.0.created_at == note.created_at,
        r.0.updated_at == note.updated_at,
        r.0.archived == (if params.unarchive {
            false
        } else {
            params.archive || note.archived
        }),
        r.0.content_hash@ == note.content_hash@,
        strictly_sorted(r.0.tags@.map_values(|t: String| t@)),
        r.0.tags@.map_values(|t: String| t@).to_set() == tag_set(r.1@),
        strictly_sorted(r.0.outgoing_links@.map_values(|t: String| t@)),
        r.0.outgoing_links@.map_values(|t: String| t@).to_set() == link_set(r.1@),
{
    let mut note = note;
    let mut content = content;
    let mut slug_changed = false;
    if let Some(new_title) = &params.title {
        let new_slug = generate_slug(new_title.as_str());
        if new_slug != note.slug {
            slug_changed = true;
        }
        note.title = new_title.clone();
        note.slug = new_slug;
        content = replace_h1(content.as_str(), new_title.as_str());
    }
    if let Some(new_body) = &params.body {
        content = replace_body_keep_h1(content.as_str(), new_body.as_str());
    }
    if let Some(extra) = &params.append {
        let cs = chars_of(content.as_str());
        if !(cs.len() > 0 && cs[cs.len() - 1] == '\n') {
            crate::text::push_char(&mut content, '\n');
        }
        content.append(extra.as_str());
        crate::text::push_char(&mut content, '\n');
    }
    if params.archive {
        note.archived = true;
    }
    if params.unarchive {
        note.archived = false;
    }
    note.tags = extract_tags(content.as_str());
    note.outgoing_links = extract_links(content.as_str());
    if slug_changed {
        note.path = String::new();
    }
    (note, content, slug_changed)
}


/// The listing query up to its `WHERE` clause.
pub open spec fn list_select() -> Seq<char> {
    "SELECT n.id, n.slug, n.title, n.path, n.updated_at, n.archived,\n                IFNULL(GROUP_CONCAT(nt.tag_name, ','), '')\n         FROM notes n\n         LEFT JOIN note_tags nt ON n.id = nt.note_id"@
}

/// The condition that keeps notes carrying the tag bound to `?1`.
pub open spec fn tag_condition() -> Seq<char> {
    "n.id IN (SELECT note_id FROM note_tags WHERE LOWER(tag_name) = ?1)"@
}

/// The conditions of a listing: archived notes only, or unarchived ones unless
/// archived are included; then the tag filter when one is given.
pub open spec fn list_conditions(p: ListParams) -> Seq<Seq<char>> {
    (if p.only_archived {
        seq!["n.archived = 1"@]
    } else if !p.include_archived {
        seq!["n.archived = 0"@]
    } else {
        seq![]
    }) + (if p.tag is Some {
        seq![tag_condition()]
    } else {
        seq![]
    })
}

/// The SQL of a listing: the select, the conditions joined by `AND`, grouped
/// per note, newest first, and the limit when one is given.
pub open spec fn list_sql(p: ListParams) -> Seq<char> {
    let conds = list_conditions(p);
    list_select() + (if conds.len() > 0 {
        " WHERE "@ + join_seq(conds, " AND "@)
    } else {
        seq![]
    }) + " GROUP BY n.id ORDER BY n.updated_at DESC"@ + match p.limit {
        Some(l) => " LIMIT "@ + decimal(l as nat),
        None => seq![],
    }
}

/// `s` without its leading `#` characters.
pub open spec fn without_hashes(s: Seq<char>) -> Seq<char>
    decreases s.len(),
{
    if s.len() > 0 && s[0] == '#' {
        without_hashes(s.drop_first())
    } else {
        s
    }
}

/// The tag a listing filters by: `#` prefixes dropped, lowercased.
pub open spec fn tag_filter(tag: Seq<char>) -> Seq<char> {
    lowered(without_hashes(tag))
}

/// The SQL of a listing and the tag it binds to `?1`, if any.
pub fn list_query(params: &ListParams) -> (r: (String, Option<String>))
    ensures
        r.0@ == list_sql(*params),
        match params.tag {
            Some(t) => r.1 matches Some(f) && f@ == tag_filter(t@),
            None => r.1 is None,
        },
{
    let mut sql = String::from_str(
        "SELECT n.id, n.slug, n.title, n.path, n.updated_at, n.archived,\n                IFNULL(GROUP_CONCAT(nt.tag_name, ','), '')\n         FROM notes n\n         LEFT JOIN note_tags nt ON n.id = nt.note_id",
    );
    let ghost conds = list_conditions(*params);
    let mut n: usize = 0;
    if params.only_archived {
        sql.append(" WHERE ");
        sql.append("n.archived = 1");
        n = 1;
    } else if !params.include_archived {
        sql.append(" WHERE ");
        sql.append("n.archived = 0");
        n = 1;
    }
    proof {
        if n == 1 {
            assert(conds.take(1) =~= seq![conds[0]]);
            assert(join_seq(conds.take(1), " AND "@) == conds[0]);
        }
    }
    if params.tag.is_some() {
        if n == 0 {
            sql.append(" WHERE ");
        } else {
            sql.append(" AND ");
        }
        sql.append("n.id IN (SELECT note_id FROM note_tags WHERE LOWER(tag_name) = ?1)");
        proof {
            if n == 0 {
                assert(conds =~= seq![tag_condition()]);
            } else {
                assert(conds.drop_last() =~= conds.take(1));
            }
        }
    }
    proof {
        if conds.len() == 1 {
            assert(join_seq(conds, " AND "@) == conds[0]);
        }
        if conds.len() == 2 {
            assert(conds.drop_last().len() == 1);
            assert(join_seq(conds.drop_last(), " AND "@) == conds[0]);
        }
    }
    sql.append(" GROUP BY n.id ORDER BY n.updated_at DESC");
    if let Some(lim) = params.limit {
        sql.append(" LIMIT ");
        let d = decimal_string(lim as u64);
        sql.append(d.as_str());
    }
    let tag = match &params.tag {
        Some(t) => {
            let cs = chars_of(t.as_str());
            let mut k: usize = 0;
            assert(cs@.skip(0) =~= cs@);
            while k < cs.len() && cs[k] == '#'
                invariant
                    k <= cs@.len(),
                    without_hashes(cs@.skip(k as int)) == without_hashes(cs@),
                decreases cs.len() - k,
            {
                assert(cs@.skip(k as int).drop_first() =~= cs@.skip(k + 1));
                k = k + 1;
            }
            let rest = crate::text::sub_chars(&cs, k, cs.len());
            assert(rest@ =~= cs@.skip(k as int));
            let rest_s = string_of(&rest);
            Some(to_lowercase(rest_s.as_str()))
        },
        None => None,
    };
    (sql, tag)
}

/// The pieces of `s` between commas, as `str::split(',')` yields them.
pub open spec fn comma_pieces(s: Seq<char>, k: int) -> Seq<Seq<char>>
    decreases s.len() + 1 - k,
{
    if k < 0 || k > s.len() {
        seq![]
    } else {
        match find_from(s, seq![','], k) {
            Some(j) => {
                proof {
                    lemma_find_from_result(s, seq![','], k);
                }
                seq![s.subrange(k, j)] + comma_pieces(s, j + 1)
            },
            None => seq![s.skip(k)],
        }
    }
}

/// The tags of a listing row, stored comma-separated: none for an empty field.
pub open spec fn tag_list(s: Seq<char>) -> Seq<Seq<char>> {
    if s.len() == 0 {
        seq![]
    } else {
        comma_pieces(s, 0)
    }
}

/// Splits a comma-separated tag field into its tags (none when it is empty).
pub fn split_tag_list(s: &str) -> (r: Vec<String>)
    ensures
        r@.map_values(|t: String| t@) == tag_list(s@),
{
    let cs = chars_of(s);
    let mut r: Vec<String> = Vec::new();
    if cs.len() == 0 {
        assert(r@.map_values(|t: String| t@) =~= Seq::<Seq<char>>::empty());
        return r;
    }
    let comma: Vec<char> = vec![','];
    assert(comma@ =~= seq![',']);
    let mut k: usize = 0;
    loop
        invariant
            k <= cs@.len(),
            comma@ == seq![','],
            cs@.len() > 0,
            cs@ == s@,
            r@.map_values(|t: String| t@) + comma_pieces(cs@, k as int) == comma_pieces(cs@, 0),
        decreases cs@.len() + 1 - k,
    {
        let ghost before = r@.map_values(|t: String| t@);
        proof {
            lemma_find_from_result(cs@, seq![','], k as int);
        }
        match find_chars(&cs, &comma, k) {
            Some(j) => {
                assert(occurs_at(cs@, seq![','], j as int));
                assert(j < cs@.len());
                assert(j < cs.len());
                let piece = crate::text::sub_chars(&cs, k, j);
                r.push(string_of(&piece));
                assert(r@.map_values(|t: String| t@) =~= before.push(cs@.subrange(k as int, j as int)));
                assert(before + comma_pieces(cs@, k as int) =~= r@.map_values(|t: String| t@)
                    + comma_pieces(cs@, j + 1));
                k = j + 1;
            },
            None => {
                let piece = crate::text::sub_chars(&cs, k, cs.len());
                r.push(string_of(&piece));
                assert(piece@ =~= cs@.skip(k as int));
                assert(comma_pieces(cs@, k as int) == seq![cs@.skip(k as int)]);
                assert(r@.map_values(|t: String| t@) =~= before + comma_pieces(cs@, k as int));
                return r;
            },
        }
    }
}

/// How many related notes to return: the asked limit, 20 by default.
pub fn related_limit(params: &RelatedParams) -> (r: i64)
    ensures
        r == match params.limit {
            Some(l) => l as int,
            None => 20,
        },
{
    match params.limit {
        Some(l) => l as i64,
        None => 20,
    }
}

/// What `show` reports of a note, given the note as the index has it, its
/// tags and its file's text: the raw file when `raw` is asked for, otherwise
/// the body with the frontmatter taken off.
pub fn note_view(note: Note, tags: Vec<String>, raw: bool, file_text: String) -> (r: NoteView)
    ensures
        r.id@ == note.id.0@,
        r.slug@ == note.slug@,
        r.title@ == note.title@,
        r.path@ == note.path@,
        r.created_at == note.created_at,
        r.updated_at == note.updated_at,
        r.archived == note.archived,
        r.tags@ == tags@,
        r.outgoing_links@ == note.outgoing_links@,
        raw ==> (r.body is None && r.raw == Some(file_text)),
        !raw ==> (r.raw is None && (r.body matches Some(b) && b@ == stripped(file_text@))),
{
    let (body, raw_text) = if raw {
        (None, Some(file_text))
    } else {
        (Some(strip_frontmatter(file_text.as_str())), None)
    };
    NoteView {
        id: note.id.0,
        slug: note.slug,
        title: note.title,
        path: note.path,
        created_at: note.created_at,
        updated_at: note.updated_at,
        archived: note.archived,
        tags,
        outgoing_links: note.outgoing_links,
        body,
        raw: raw_text,
    }
}

/// The tail of every listing: grouped per note, newest first, then the limit.
pub open spec fn listing_tail(limit: Option<u32>) -> Seq<char> {
    " GROUP BY n.id ORDER BY n.updated_at DESC"@ + match limit {
        Some(l) => " LIMIT "@ + decimal(l as nat),
        None => seq![],
    }
}

/// What a listing selects, case by case. Only archived notes, or (unless
/// archived ones are included) only unarchived notes; and when a tag is given,
/// only notes that carry it, both at once: the archive condition and the tag
/// condition are joined by `AND`, so a note without the tag is never listed.
pub proof fn lemma_list_sql_conditions(p: ListParams)
    ensures
        p.tag is Some && p.only_archived ==> list_sql(p) == list_select()
            + " WHERE n.archived = 1 AND n.id IN (SELECT note_id FROM note_tags WHERE LOWER(tag_name) = ?1)"@ + listing_tail(p.limit),
        p.tag is Some && !p.only_archived && !p.include_archived ==> list_sql(p) == list_select()
            + " WHERE n.archived = 0 AND n.id IN (SELECT note_id FROM note_tags WHERE LOWER(tag_name) = ?1)"@ + listing_tail(p.limit),
        p.tag is Some && !p.only_archived && p.include_archived ==> list_sql(p) == list_select()
            + " WHERE n.id IN (SELECT note_id FROM note_tags WHERE LOWER(tag_name) = ?1)"@ + listing_tail(p.limit),
        p.tag is None && p.only_archived ==> list_sql(p) == list_select()
            + " WHERE n.archived = 1"@ + listing_tail(p.limit),
        p.tag is None && !p.only_archived && !p.include_archived ==> list_sql(p) == list_select()
            + " WHERE n.archived = 0"@ + listing_tail(p.limit),
        p.tag is None && !p.only_archived && p.include_archived ==> list_sql(p) == list_select()
            + listing_tail(p.limit),
{
    let conds = list_conditions(p);
    reveal_strlit(" WHERE ");
    reveal_strlit(" AND ");
    reveal_strlit(" WHERE n.archived = 1 AND ");
    reveal_strlit(" WHERE n.archived = 0 AND ");
    reveal_strlit(" WHERE n.archived = 1");
    reveal_strlit(" WHERE n.archived = 0");
    reveal_strlit("n.archived = 1");
    reveal_strlit("n.archived = 0");
    if conds.len() == 2 {
        assert(conds.drop_last() =~= seq![conds[0]]);
        assert(join_seq(conds.drop_last(), " AND "@) == conds[0]);
        assert(join_seq(conds, " AND "@) == conds[0] + " AND "@ + conds[1]);
    } else if conds.len() == 1 {
        assert(join_seq(conds, " AND "@) == conds[0]);
    }
    reveal_strlit("n.id IN (SELECT note_id FROM note_tags WHERE LOWER(tag_name) = ?1)");
    reveal_strlit(" WHERE n.archived = 1 AND n.id IN (SELECT note_id FROM note_tags WHERE LOWER(tag_name) = ?1)");
    reveal_strlit(" WHERE n.archived = 0 AND n.id IN (SELECT note_id FROM note_tags WHERE LOWER(tag_name) = ?1)");
    reveal_strlit(" WHERE n.id IN (SELECT note_id FROM note_tags WHERE LOWER(tag_name) = ?1)");
    if p.tag is Some && p.only_archived {
        assert(conds =~= seq!["n.archived = 1"@, tag_condition()]);
        assert(" WHERE "@ + ("n.archived = 1"@ + " AND "@ + tag_condition()) =~= " WHERE n.archived = 1 AND n.id IN (SELECT note_id FROM note_tags WHERE LOWER(tag_name) = ?1)"@);
    } else if p.tag is Some && !p.include_archived {
        assert(conds =~= seq!["n.archived = 0"@, tag_condition()]);
        assert(" WHERE "@ + ("n.archived = 0"@ + " AND "@ + tag_condition()) =~= " WHERE n.archived = 0 AND n.id IN (SELECT note_id FROM note_tags WHERE LOWER(tag_name) = ?1)"@);
    } else if p.tag is Some {
        assert(conds =~= seq![tag_condition()]);
        assert(" WHERE "@ + tag_condition() =~= " WHERE n.id IN (SELECT note_id FROM note_tags WHERE LOWER(tag_name) = ?1)"@);
    } else if p.only_archived {
        assert(conds =~= seq!["n.archived = 1"@]);
        assert(" WHERE "@ + "n.archived = 1"@ =~= " WHERE n.archived = 1"@);
    } else if !p.include_archived {
        assert(conds =~= seq!["n.archived = 0"@]);
        assert(" WHERE "@ + "n.archived = 0"@ =~= " WHERE n.archived = 0"@);
    } else {
        assert(conds =~= Seq::<Seq<char>>::empty());
    }
    assert(list_sql(p) =~= list_select() + (if conds.len() > 0 {
        " WHERE "@ + join_seq(conds, " AND "@)
    } else {
        seq![]
    }) + listing_tail(p.limit));
}

} // verus!
