use vstd::prelude::*;

use crate::domain::{Note, VaultConfig};
use crate::error::CoreError;
use crate::stamp::{clock, clock_error_message, format_rfc3339, format_with, rfc3339, strftime};
use crate::text::{
    chars_of, find_chars, find_from, free_of, join_seq,
    lemma_find_from_first, lemma_find_from_result, occurs_at, string_of,
};

verus! {

/// `---`, which opens a frontmatter block.
pub open spec fn fence() -> Seq<char> {
    seq!['-', '-', '-']
}

/// `\n---`, which closes a frontmatter block.
pub open spec fn closing_fence() -> Seq<char> {
    seq!['\n', '-', '-', '-']
}

/// `s` without its leading line breaks.
pub open spec fn skip_newlines(s: Seq<char>) -> Seq<char>
    decreases s.len(),
{
    if s.len() > 0 && s[0] == '\n' {
        skip_newlines(s.drop_first())
    } else {
        s
    }
}

/// A file's text with its frontmatter taken off: when it opens with `---` and a
/// later line starts with `---`, what follows that line's `---`, leading line
/// breaks removed; otherwise the text as it is.
pub open spec fn stripped(content: Seq<char>) -> Seq<char> {
    if content.len() >= 3 && content.take(3) == fence() {
        match find_from(content, closing_fence(), 3) {
            Some(j) => skip_newlines(content.skip(j + 4)),
            None => content,
        }
    } else {
        content
    }
}

/// Strips YAML frontmatter (`--- ... ---`) from a note file's text.
pub fn strip_frontmatter(content: &str) -> (r: String)
    ensures
        r@ == stripped(content@),
{
    let cs = chars_of(content);
    if !(cs.len() >= 3 && cs[0] == '-' && cs[1] == '-' && cs[2] == '-') {
        proof {
            if cs@.len() >= 3 {
                if cs@.take(3) == fence() {
                    assert(cs@.take(3)[0] == '-' && cs@.take(3)[1] == '-' && cs@.take(3)[2] == '-');
                }
            }
        }
        return string_of(&cs);
    }
    assert(cs@.take(3) =~= fence());
    let pat: Vec<char> = vec!['\n', '-', '-', '-'];
    assert(pat@ =~= closing_fence());
    match find_chars(&cs, &pat, 3) {
        Some(j) => {
            proof {
                lemma_find_from_result(cs@, closing_fence(), 3);
            }
            let mut k = j + 4;
            while k < cs.len() && cs[k] == '\n'
                invariant
                    j + 4 <= k <= cs.len(),
                    skip_newlines(cs@.skip(k as int)) == skip_newlines(cs@.skip(j + 4)),
                decreases cs.len() - k,
            {
                assert(cs@.skip(k as int).drop_first() =~= cs@.skip(k + 1));
                k = k + 1;
            }
            let mut rest: Vec<char> = Vec::new();
            let mut i = k;
            while i < cs.len()
                invariant
                    k <= i <= cs.len(),
                    rest@ == cs@.subrange(k as int, i as int),
                decreases cs.len() - i,
            {
                rest.push(cs[i]);
                i = i + 1;
                assert(rest@ =~= cs@.subrange(k as int, i as int));
            }
            assert(rest@ =~= cs@.skip(k as int));
            string_of(&rest)
        },
        None => string_of(&cs),
    }
}

/// The frontmatter written in front of a note's content.
pub open spec fn frontmatter(
    id: Seq<char>,
    title: Seq<char>,
    created: Seq<char>,
    updated: Seq<char>,
    tags: Seq<Seq<char>>,
) -> Seq<char> {
    "---\nid: "@ + id + "\ntitle: "@ + title + "\ncreated_at: "@ + created + "\nupdated_at: "@
        + updated + "\ntags: ["@ + join_seq(tags, ", "@) + "]\n---\n\n"@
}

/// The text of the file that holds `note` with the markdown `content`.
pub open spec fn note_file(note: Note, content: Seq<char>) -> Seq<char> {
    frontmatter(
        note.id.0@,
        note.title@,
        rfc3339(note.created_at.secs, note.created_at.nanos),
        rfc3339(note.updated_at.secs, note.updated_at.nanos),
        note.tags@.map_values(|t: String| t@),
    ) + content
}

/// No line of `s` starts with `---` after a line break: `s` holds no `\n---`.
pub open spec fn fence_free(s: Seq<char>) -> bool {
    free_of(s, closing_fence())
}

/// The id, title and tags of `note` hold no `\n---`.
pub open spec fn fields_fence_free(note: Note) -> bool {
    &&& fence_free(note.id.0@)
    &&& fence_free(note.title@)
    &&& forall|i: int| 0 <= i < note.tags@.len() ==> fence_free(#[trigger] note.tags@[i]@)
}

/// Text without line breaks holds no line that starts with `---`.
pub proof fn lemma_no_newline_free(s: Seq<char>)
    requires
        forall|i: int| 0 <= i < s.len() ==> s[i] != '\n',
    ensures
        fence_free(s),
{
    assert forall|j: int| !occurs_at(s, closing_fence(), j) by {
        if occurs_at(s, closing_fence(), j) {
            assert(s.subrange(j, j + 4)[0] == s[j]);
        }
    }
}

/// Renders the file of a note: frontmatter with id, title, timestamps and tags,
/// a blank line, then the markdown content. Reading the file back with
/// `strip_frontmatter` gives the content (less leading line breaks) whenever no
/// field of the note holds a line that starts with `---`.
pub fn render_note_file(note: &Note, content: &str) -> (r: String)
    requires
        note.created_at.valid(),
        note.updated_at.valid(),
    ensures
        r@ == note_file(*note, content@),
        fields_fence_free(*note) ==> stripped(r@) == skip_newlines(content@),
{
    let created = format_rfc3339(&note.created_at);
    let updated = format_rfc3339(&note.updated_at);
    proof {
        lemma_no_newline_free(created@);
        lemma_no_newline_free(updated@);
        if fields_fence_free(*note) {
            let tags = note.tags@.map_values(|t: String| t@);
            assert forall|i: int| 0 <= i < tags.len() implies free_of(
                #[trigger] tags[i],
                closing_fence(),
            ) by {
                assert(fence_free(note.tags@[i]@));
            }
            lemma_read_back_written_note(
                note.id.0@,
                note.title@,
                created@,
                updated@,
                tags,
                content@,
            );
        }
    }
    let ghost tags = note.tags@.map_values(|t: String| t@);
    let mut r = String::new();
    r.append("---\nid: ");
    r.append(note.id.0.as_str());
    r.append("\ntitle: ");
    r.append(note.title.as_str());
    r.append("\ncreated_at: ");
    r.append(created.as_str());
    r.append("\nupdated_at: ");
    r.append(updated.as_str());
    r.append("\ntags: [");
    let ghost head = r@;
    let mut i: usize = 0;
    while i < note.tags.len()
        invariant
            i <= note.tags.len(),
            tags == note.tags@.map_values(|t: String| t@),
            r@ == head + join_seq(tags.take(i as int), ", "@),
        decreases note.tags.len() - i,
    {
        if i > 0 {
            r.append(", ");
        }
        r.append(note.tags[i].as_str());
        proof {
            let t = tags.take(i + 1);
            assert(t.drop_last() =~= tags.take(i as int));
            assert(t.last() == note.tags@[i as int]@);
            if i == 0 {
                assert(tags.take(0) =~= Seq::<Seq<char>>::empty());
                assert(join_seq(tags.take(0), ", "@) =~= Seq::<char>::empty());
                assert(r@ =~= head + join_seq(t, ", "@));
            } else {
                assert(r@ =~= head + join_seq(t, ", "@));
            }
        }
        i = i + 1;
    }
    assert(tags.take(i as int) =~= tags);
    r.append("]\n---\n\n");
    r.append(content);
    r
}


/// `s` ends in a line break followed by fewer than three dashes, so that a
/// closing fence could start in `s` and run on into what follows.
pub open spec fn ends_open(s: Seq<char>) -> bool {
    ||| (s.len() >= 1 && s[s.len() - 1] == '\n')
    ||| (s.len() >= 2 && s[s.len() - 2] == '\n' && s[s.len() - 1] == '-')
    ||| (s.len() >= 3 && s[s.len() - 3] == '\n' && s[s.len() - 2] == '-' && s[s.len() - 1] == '-')
}

proof fn lemma_concat_free(a: Seq<char>, b: Seq<char>)
    requires
        free_of(a, closing_fence()),
        free_of(b, closing_fence()),
        !ends_open(a) || (b.len() > 0 && b[0] != '-'),
    ensures
        free_of(a + b, closing_fence()),
{
    let cf = closing_fence();
    let ab = a + b;
    assert forall|j: int| !occurs_at(ab, cf, j) by {
        if occurs_at(ab, cf, j) {
            let w = ab.subrange(j, j + 4);
            assert(w[0] == ab[j] && w[1] == ab[j + 1] && w[2] == ab[j + 2] && w[3] == ab[j + 3]);
            if j + 4 <= a.len() {
                assert(a.subrange(j, j + 4) =~= w);
                assert(occurs_at(a, cf, j));
            } else if j >= a.len() {
                assert(b.subrange(j - a.len(), j - a.len() + 4) =~= w);
                assert(occurs_at(b, cf, j - a.len()));
            } else {
                assert(ab[a.len() as int] == b[0]);
                assert(ends_open(a));
            }
        }
    }
}

proof fn lemma_literal_free(l: Seq<char>)
    requires
        forall|k: int| 0 <= k < l.len() - 1 && #[trigger] l[k] == '\n' ==> l[k + 1] != '-',
    ensures
        free_of(l, closing_fence()),
{
    let cf = closing_fence();
    assert forall|j: int| !occurs_at(l, cf, j) by {
        if occurs_at(l, cf, j) {
            let w = l.subrange(j, j + 4);
            assert(w[0] == l[j] && w[1] == l[j + 1]);
        }
    }
}

proof fn lemma_join_free(parts: Seq<Seq<char>>)
    requires
        forall|i: int| 0 <= i < parts.len() ==> free_of(#[trigger] parts[i], closing_fence()),
    ensures
        free_of(join_seq(parts, ", "@), closing_fence()),
    decreases parts.len(),
{
    reveal_strlit(", ");
    if parts.len() == 0 {
        assert forall|j: int| !occurs_at(Seq::<char>::empty(), closing_fence(), j) by {}
    } else if parts.len() == 1 {
        assert(free_of(parts[0], closing_fence()));
    } else {
        let init = parts.drop_last();
        assert forall|i: int| 0 <= i < init.len() implies free_of(
            #[trigger] init[i],
            closing_fence(),
        ) by {
            assert(init[i] == parts[i]);
        }
        lemma_join_free(init);
        lemma_literal_free(", "@);
        lemma_concat_free(join_seq(init, ", "@), ", "@);
        assert(free_of(parts[parts.len() - 1], closing_fence()));
        lemma_concat_free(join_seq(init, ", "@) + ", "@, parts.last());
    }
}

proof fn lemma_skip_newlines_prefix(s: Seq<char>)
    ensures
        skip_newlines(seq!['\n', '\n'] + s) == skip_newlines(s),
{
    let t = seq!['\n', '\n'] + s;
    let u = seq!['\n'] + s;
    assert(t.drop_first() =~= u);
    assert(u.drop_first() =~= s);
    assert(t[0] == '\n');
    assert(u[0] == '\n');
    assert(skip_newlines(t) == skip_newlines(u));
    assert(skip_newlines(u) == skip_newlines(s));
}

/// What a read gives back of a write: taking the frontmatter off a rendered
/// note file yields the note's content (less any leading line breaks),
/// provided no field of the frontmatter holds a line that starts with `---`.
pub proof fn lemma_read_back_written_note(
    id: Seq<char>,
    title: Seq<char>,
    created: Seq<char>,
    updated: Seq<char>,
    tags: Seq<Seq<char>>,
    content: Seq<char>,
)
    requires
        free_of(id, closing_fence()),
        free_of(title, closing_fence()),
        free_of(created, closing_fence()),
        free_of(updated, closing_fence()),
        forall|i: int| 0 <= i < tags.len() ==> free_of(#[trigger] tags[i], closing_fence()),
    ensures
        stripped(frontmatter(id, title, created, updated, tags) + content) == skip_newlines(
            content,
        ),
{
    reveal_strlit("---\nid: ");
    reveal_strlit("\ntitle: ");
    reveal_strlit("\ncreated_at: ");
    reveal_strlit("\nupdated_at: ");
    reveal_strlit("\ntags: [");
    reveal_strlit("]\n---\n\n");
    let cf = closing_fence();
    let l1 = "---\nid: "@;
    let l2 = "\ntitle: "@;
    let l3 = "\ncreated_at: "@;
    let l4 = "\nupdated_at: "@;
    let l5 = "\ntags: ["@;
    let l6 = "]\n---\n\n"@;
    let joined = join_seq(tags, ", "@);
    lemma_literal_free(l1);
    lemma_literal_free(l2);
    lemma_literal_free(l3);
    lemma_literal_free(l4);
    lemma_literal_free(l5);
    lemma_join_free(tags);
    let w1 = l1 + id;
    lemma_concat_free(l1, id);
    lemma_concat_free(w1, l2);
    let w2 = w1 + l2 + title;
    lemma_concat_free(w1 + l2, title);
    lemma_concat_free(w2, l3);
    let w3 = w2 + l3 + created;
    lemma_concat_free(w2 + l3, created);
    lemma_concat_free(w3, l4);
    let w4 = w3 + l4 + updated;
    lemma_concat_free(w3 + l4, updated);
    lemma_concat_free(w4, l5);
    let w5 = w4 + l5 + joined;
    lemma_concat_free(w4 + l5, joined);
    let bracket = seq![']'];
    lemma_literal_free(bracket);
    lemma_concat_free(w5, bracket);
    let w = w5 + bracket;
    let full = frontmatter(id, title, created, updated, tags) + content;
    assert(l6 =~= bracket + (cf + seq!['\n', '\n']));
    assert(full =~= w + cf + seq!['\n', '\n'] + content);
    let k = w.len() as int;
    assert(full.subrange(k, k + 4) =~= cf);
    assert forall|j: int| 3 <= j < k implies !occurs_at(full, cf, j) by {
        if occurs_at(full, cf, j) {
            let s = full.subrange(j, j + 4);
            if j + 4 <= k {
                assert(w.subrange(j, j + 4) =~= s);
                assert(occurs_at(w, cf, j));
            } else {
                assert(full[k] == '\n');
                assert(s[k - j] == full[k]);
            }
        }
    }
    assert(full.take(3) =~= fence());
    lemma_find_from_first(full, cf, 3, k);
    assert(full.skip(k + 4) =~= seq!['\n', '\n'] + content);
    lemma_skip_newlines_prefix(content);
}


/// Taking the frontmatter off gives back the body, for any frontmatter block:
/// a file `---`, line break, `fm`, `\n---`, a blank line, then `body` strips to
/// `body`, provided no line of `fm` starts with `---` and `body` does not start
/// with a line break.
pub proof fn lemma_strip_any_frontmatter(fm: Seq<char>, body: Seq<char>)
    requires
        free_of(seq!['\n'] + fm, closing_fence()),
        body.len() == 0 || body[0] != '\n',
    ensures
        stripped("---\n"@ + fm + "\n---\n\n"@ + body) == body,
{
    reveal_strlit("---\n");
    reveal_strlit("\n---\n\n");
    let cf = closing_fence();
    let head = seq!['\n'] + fm;
    let full = "---\n"@ + fm + "\n---\n\n"@ + body;
    assert(full =~= fence() + head + cf + seq!['\n', '\n'] + body);
    let k: int = 3 + head.len() as int;
    assert(full.subrange(k, k + 4) =~= cf);
    assert forall|j: int| 3 <= j < k implies !occurs_at(full, cf, j) by {
        if occurs_at(full, cf, j) {
            let w = full.subrange(j, j + 4);
            if j + 4 <= k {
                assert(head.subrange(j - 3, j + 1) =~= w);
                assert(occurs_at(head, cf, j - 3));
            } else {
                assert(full[k] == '\n');
                assert(w[k - j] == full[k]);
            }
        }
    }
    assert(full.take(3) =~= fence());
    lemma_find_from_first(full, cf, 3, k);
    assert(full.skip(k + 4) =~= seq!['\n', '\n'] + body);
    lemma_skip_newlines_prefix(body);
}

/// `base` joined with `p` as `Path::join` does on Unix: an absolute `p`
/// replaces `base`; otherwise a `/` separates them unless `base` is empty or
/// already ends in one.
pub open spec fn path_join(base: Seq<char>, p: Seq<char>) -> Seq<char> {
    if p.len() > 0 && p[0] == '/' {
        p
    } else if base.len() > 0 && base.last() != '/' {
        base + seq!['/'] + p
    } else {
        base + p
    }
}

/// Joins two paths with `/`, as `Path::join` does on Unix.
pub fn join_path(base: &str, p: &str) -> (r: String)
    ensures
        r@ == path_join(base@, p@),
{
    let pc = chars_of(p);
    if pc.len() > 0 && pc[0] == '/' {
        return string_of(&pc);
    }
    let bc = chars_of(base);
    let mut r = string_of(&bc);
    if bc.len() > 0 && bc[bc.len() - 1] != '/' {
        crate::text::push_char(&mut r, '/');
    }
    r.append(p);
    r
}

/// Where a new note's file goes: `<vault>/<notes_dir>/<YYYY>/<YYYY-MM-DD>-<slug>.md`,
/// dated by the note's creation time.
pub open spec fn canonical_note_path(vault: Seq<char>, notes_dir: Seq<char>, note: Note) -> Seq<char> {
    let year = strftime(note.created_at.secs, note.created_at.nanos, "%Y"@);
    let date = strftime(note.created_at.secs, note.created_at.nanos, "%Y-%m-%d"@);
    path_join(path_join(path_join(vault, notes_dir), year), date + "-"@ + note.slug@ + ".md"@)
}

/// The canonical path of a note's file, under the vault's notes directory.
/// It depends on the creation date and the slug alone: a second note with the
/// same title created on the same day is given the same path.
pub fn get_note_path(vault: &str, config: &VaultConfig, note: &Note) -> (r: String)
    requires
        note.created_at.valid(),
    ensures
        r@ == canonical_note_path(vault@, config.notes_dir@, *note),
{
    let year = format_with(&note.created_at, "%Y");
    let date = format_with(&note.created_at, "%Y-%m-%d");
    let mut filename = date;
    filename.append("-");
    filename.append(note.slug.as_str());
    filename.append(".md");
    let a = join_path(vault, config.notes_dir.as_str());
    let b = join_path(a.as_str(), year.as_str());
    join_path(b.as_str(), filename.as_str())
}

/// The file a note is written to: the path it already has, or its canonical
/// path when it has none yet.
pub fn note_write_path(vault: &str, config: &VaultConfig, note: &Note) -> (r: String)
    requires
        note.created_at.valid(),
    ensures
        r@ == if note.path@.len() == 0 {
            canonical_note_path(vault@, config.notes_dir@, *note)
        } else {
            note.path@
        },
{
    if note.path.as_str().is_empty() {
        get_note_path(vault, config, note)
    } else {
        note.path.clone()
    }
}

/// Everything of `b` but its update time and path is that of `a`.
pub open spec fn same_but_write(a: Note, b: Note) -> bool {
    &&& b.id.0@ == a.id.0@
    &&& b.title@ == a.title@
    &&& b.slug@ == a.slug@
    &&& b.created_at == a.created_at
    &&& b.tags@ == a.tags@
    &&& b.outgoing_links@ == a.outgoing_links@
    &&& b.content_hash@ == a.content_hash@
    &&& b.archived == a.archived
}

/// Prepares writing a note: stamps its update time with the current time,
/// gives it its canonical path when it has none (whether or not a file is
/// already there), and renders the file text. Returns the path to write to and
/// the text to write there; when the clock cannot be read, the note is left as
/// it is and the error comes back.
pub fn prepare_note_write(vault: &str, config: &VaultConfig, note: &mut Note, content: &str) -> (r: Result<
    (String, String),
    CoreError,
>)
    requires
        old(note).created_at.valid(),
    ensures
        r is Err ==> *final(note) == *old(note) && (r->Err_0 matches CoreError::Io(m) && m@
            == clock_error_message()),
        r matches Ok((path, text)) ==> {
            &&& same_but_write(*old(note), *final(note))
            &&& final(note).updated_at.valid()
            &&& final(note).path@ == if old(note).path@.len() == 0 {
                canonical_note_path(vault@, config.notes_dir@, *old(note))
            } else {
                old(note).path@
            }
            &&& path@ == final(note).path@
            &&& text@ == note_file(*final(note), content@)
            &&& fields_fence_free(*final(note)) ==> stripped(text@) == skip_newlines(content@)
        },
{
    let at = clock()?;
    let path = note_write_path(vault, config, note);
    note.updated_at = at;
    if note.path.as_str().is_empty() {
        note.path = path.clone();
    }
    let text = render_note_file(note, content);
    Ok((path, text))
}

/// The file of a note, line by line: the frontmatter opens with `---`, then
/// `id:`, `title:`, `created_at:` with the creation time and `updated_at:` with
/// the time of the last update (both in RFC 3339), the tags in brackets, a
/// closing `---` and a blank line; the content follows.
pub proof fn lemma_note_file_layout(note: Note, content: Seq<char>)
    ensures
        note_file(note, content) == "---\nid: "@ + note.id.0@ + "\ntitle: "@ + note.title@
            + "\ncreated_at: "@ + rfc3339(note.created_at.secs, note.created_at.nanos)
            + "\nupdated_at: "@ + rfc3339(note.updated_at.secs, note.updated_at.nanos)
            + "\ntags: ["@ + join_seq(note.tags@.map_values(|t: String| t@), ", "@)
            + "]\n---\n\n"@ + content,
{
}

/// A note's canonical path is dated by its creation: under
/// `<vault>/<notes_dir>/<year created>/`, the file `<date created>-<slug>.md`.
/// Its update time plays no part: notes with the same slug created at the same
/// instant have the same path, however else they differ.
pub proof fn lemma_note_path_by_creation(vault: Seq<char>, notes_dir: Seq<char>, a: Note, b: Note)
    requires
        a.slug@ == b.slug@,
        a.created_at == b.created_at,
    ensures
        canonical_note_path(vault, notes_dir, a) == canonical_note_path(vault, notes_dir, b),
        canonical_note_path(vault, notes_dir, a) == path_join(
            path_join(path_join(vault, notes_dir), strftime(a.created_at.secs, a.created_at.nanos, "%Y"@)),
            strftime(a.created_at.secs, a.created_at.nanos, "%Y-%m-%d"@) + "-"@ + a.slug@ + ".md"@,
        ),
{
}

} // verus!
