use mem_core::search::{
    assemble_results, plan_search, tag_search_results, Candidate, MatchKind, SearchPlan,
};
use mem_core::domain::{Note, NoteId, VaultConfig};
use mem_core::error::CoreError;
use mem_core::note::{
    apply_update, compose_new_note, draft_new_note, list_query, note_view, related_limit,
    replace_body_keep_h1, replace_h1, split_tag_list, validate_update,
};
use mem_core::stamp::{parse_ts, Timestamp};
use mem_core::storage::{
    get_note_path, note_write_path, prepare_note_write, render_note_file, strip_frontmatter,
};
use mem_core::types::{note_ref, ListParams, NoteWithTags, RelatedParams, UpdateParams};

// 2026-03-11T10:00:00Z
const MARCH_11: i64 = 1773223200;

fn at(secs: i64) -> Timestamp {
    Timestamp { secs, nanos: 0 }
}

fn sample_note() -> Note {
    Note {
        id: NoteId("01HZX0000000000000000000AB".into()),
        title: "My Note".into(),
        slug: "my-note".into(),
        path: String::new(),
        created_at: at(MARCH_11),
        updated_at: at(MARCH_11),
        tags: vec!["alpha".into(), "beta".into()],
        outgoing_links: vec![],
        content_hash: "empty".into(),
        archived: false,
    }
}

#[test]
fn update_requires_something() {
    let err = validate_update(&UpdateParams { id_or_slug: "x".into(), ..Default::default() })
        .unwrap_err();
    assert!(matches!(err, CoreError::InvalidInput(_)));
}

#[test]
fn archive_and_unarchive_mutually_exclusive() {
    let err = validate_update(&UpdateParams {
        id_or_slug: "x".into(),
        archive: true,
        unarchive: true,
        ..Default::default()
    })
    .unwrap_err();
    assert!(matches!(err, CoreError::InvalidInput(_)));
}

#[test]
fn update_messages_name_the_problem() {
    match validate_update(&UpdateParams::default()) {
        Err(CoreError::InvalidInput(m)) => assert_eq!(
            m,
            "nothing to update: provide at least one of title, body, append, archive, unarchive"
        ),
        other => panic!("{:?}", other),
    }
    match validate_update(&UpdateParams { archive: true, unarchive: true, ..Default::default() }) {
        Err(CoreError::InvalidInput(m)) => {
            assert_eq!(m, "archive and unarchive are mutually exclusive")
        }
        other => panic!("{:?}", other),
    }
    assert!(validate_update(&UpdateParams { archive: true, ..Default::default() }).is_ok());
    assert!(validate_update(&UpdateParams { append: Some(String::new()), ..Default::default() })
        .is_ok());
}

#[test]
fn new_note_content_and_fields() {
    let (note, content) = compose_new_note(
        "Hello World",
        Some("Initial text #rust and [[Other]]"),
        NoteId("ID".into()),
        at(MARCH_11),
        at(MARCH_11 + 1),
    )
    .unwrap();
    assert_eq!(content, "# Hello World\n\nInitial text #rust and [[Other]]");
    assert_eq!(note.slug, "hello-world");
    assert_eq!(note.title, "Hello World");
    assert_eq!(note.tags, vec!["rust".to_string()]);
    assert_eq!(note.outgoing_links, vec!["Other".to_string()]);
    assert_eq!(note.created_at, at(MARCH_11));
    assert_eq!(note.updated_at, at(MARCH_11 + 1));
    assert_eq!(note.path, "");
    assert_eq!(note.content_hash, "empty");
    assert!(!note.archived);

    let (_, bare) = compose_new_note("T", None, NoteId("ID".into()), at(0), at(0)).unwrap();
    assert_eq!(bare, "# T\n\n");
}

#[test]
fn blank_titles_are_refused() {
    for t in ["", "   ", "\t\n"] {
        match compose_new_note(t, None, NoteId("ID".into()), at(0), at(0)) {
            Err(CoreError::InvalidInput(m)) => assert_eq!(m, "title must not be empty"),
            other => panic!("{:?}", other),
        }
        match draft_new_note(t, None) {
            Err(CoreError::InvalidInput(m)) => assert_eq!(m, "title must not be empty"),
            other => panic!("{:?}", other),
        }
    }
}

#[test]
fn drafted_notes_get_a_fresh_ulid() {
    let (a, _) = draft_new_note("One", None).unwrap();
    let (b, _) = draft_new_note("Two", None).unwrap();
    assert_eq!(a.id.0.len(), 26);
    assert!(a.id.0.chars().all(|c| c.is_ascii_digit() || c.is_ascii_uppercase()));
    assert_ne!(a.id, b.id);
    let id = NoteId::default();
    assert_eq!(id.0.len(), 26);
    assert!(id.0.chars().all(|c| c.is_ascii_digit() || "ABCDEFGHJKMNPQRSTVWXYZ".contains(c)));
}

#[test]
fn note_paths_are_dated_by_creation() {
    let cfg = VaultConfig::default();
    let note = sample_note();
    assert_eq!(
        get_note_path("/v", &cfg, &note),
        "/v/notes/2026/2026-03-11-my-note.md"
    );
    let mut placed = sample_note();
    placed.path = "/elsewhere/x.md".into();
    assert_eq!(note_write_path("/v", &cfg, &placed), "/elsewhere/x.md");
    assert_eq!(note_write_path("/v/", &cfg, &note), "/v/notes/2026/2026-03-11-my-note.md");
}

#[test]
fn rendered_file_has_frontmatter_then_content() {
    let note = sample_note();
    let text = render_note_file(&note, "# My Note\n\nbody");
    assert_eq!(
        text,
        "---\nid: 01HZX0000000000000000000AB\ntitle: My Note\ncreated_at: 2026-03-11T10:00:00+00:00\nupdated_at: 2026-03-11T10:00:00+00:00\ntags: [alpha, beta]\n---\n\n# My Note\n\nbody"
    );
}

#[test]
fn written_notes_read_back() {
    let note = sample_note();
    for content in ["# My Note\n\nbody", "plain", "", "\n\nafter blank lines", "a\n---\nb"] {
        let text = render_note_file(&note, content);
        assert_eq!(strip_frontmatter(&text), content.trim_start_matches('\n'));
    }
}

#[test]
fn a_new_note_reads_back_whole() {
    let (mut note, content) = draft_new_note("Hello World", None).unwrap();
    let (path, text) = prepare_note_write("/vault", &VaultConfig::default(), &mut note, &content).unwrap();
    assert!(path.starts_with("/vault/notes/"));
    assert!(path.ends_with("-hello-world.md"));
    assert_eq!(note.path, path);
    assert!(text.starts_with("---"));
    assert_eq!(strip_frontmatter(&text), content);
    assert!(strip_frontmatter(&text).starts_with("# Hello World"));
}

#[test]
fn a_new_note_with_tags_reads_back_whole() {
    let (mut note, content) = draft_new_note("With Body", Some("Initial text #Rust and #go-lang")).unwrap();
    assert_eq!(note.tags, vec!["go-lang".to_string(), "rust".to_string()]);
    let (_, text) = prepare_note_write("/vault", &VaultConfig::default(), &mut note, &content).unwrap();
    assert_eq!(strip_frontmatter(&text), "# With Body\n\nInitial text #Rust and #go-lang");
}

#[test]
fn preparing_a_write_keeps_an_existing_path() {
    let mut note = sample_note();
    note.path = "/v/notes/2020/2020-01-01-my-note.md".into();
    let before = note.updated_at;
    let (path, _) = prepare_note_write("/v", &VaultConfig::default(), &mut note, "x").unwrap();
    assert_eq!(path, "/v/notes/2020/2020-01-01-my-note.md");
    assert!(note.updated_at.secs >= before.secs);
    assert_eq!(note.created_at, at(MARCH_11));
}

#[test]
fn timestamps_parse_or_fall_back_to_now() {
    assert_eq!(parse_ts("2026-03-11T10:00:00+00:00").unwrap(), at(MARCH_11));
    assert_eq!(parse_ts("2026-03-11T12:00:00+02:00").unwrap(), at(MARCH_11));
    assert_eq!(parse_ts("1999-12-31T23:59:59.5Z").unwrap(), Timestamp { secs: 946684799, nanos: 500_000_000 });
    let fallback = parse_ts("not a time").unwrap();
    assert!(fallback.secs > MARCH_11 - 86400 * 365 * 10);
}

#[test]
fn listed_notes_show_rfc3339_times() {
    let r = note_ref(&sample_note());
    assert_eq!(r.slug, "my-note");
    assert_eq!(r.tags, vec!["alpha".to_string(), "beta".to_string()]);
    let w = NoteWithTags::from_ref(r);
    assert_eq!(w.updated_at, "2026-03-11T10:00:00+00:00");
    assert_eq!(w.title, "My Note");
}

#[test]
fn h1_replacement() {
    assert_eq!(replace_h1("# Old\n\nbody", "New"), "# New\n\nbody");
    assert_eq!(replace_h1("# Old", "New"), "# New\n\n");
    assert_eq!(replace_h1("no heading\n", "New"), "no heading\n");
    assert_eq!(replace_h1("#Old\n", "New"), "#Old\n");
}

#[test]
fn body_replacement_keeps_the_heading() {
    assert_eq!(replace_body_keep_h1("# T\n\nold body", "new"), "# T\n\nnew");
    assert_eq!(replace_body_keep_h1("# T", "new"), "# T\n\nnew");
    assert_eq!(replace_body_keep_h1("# Title", "X"), "# Title\n\nX");
    assert_eq!(replace_body_keep_h1("plain\ntext", "new"), "new");
}

#[test]
fn updates_rename_replace_append_and_archive() {
    let mut note = sample_note();
    note.path = "/v/notes/2026/2026-03-11-my-note.md".into();
    let (n, c, moved) = apply_update(
        note,
        "# My Note\n\nold #alpha".into(),
        UpdateParams {
            id_or_slug: "my-note".into(),
            title: Some("Renamed".into()),
            body: Some("Fresh body #rust with [[Link]]".into()),
            ..Default::default()
        },
    );
    assert!(moved);
    assert_eq!(n.title, "Renamed");
    assert_eq!(n.slug, "renamed");
    assert_eq!(n.path, "");
    assert_eq!(c, "# Renamed\n\nFresh body #rust with [[Link]]");
    assert_eq!(n.tags, vec!["rust".to_string()]);
    assert_eq!(n.outgoing_links, vec!["Link".to_string()]);

    let (n2, c2, moved2) = apply_update(
        n,
        c,
        UpdateParams { append: Some("extra line".into()), archive: true, ..Default::default() },
    );
    assert!(!moved2);
    assert!(n2.archived);
    assert_eq!(c2, "# Renamed\n\nFresh body #rust with [[Link]]\nextra line\n");

    let (n3, _, _) =
        apply_update(n2, c2, UpdateParams { unarchive: true, ..Default::default() });
    assert!(!n3.archived);
}

#[test]
fn retitling_to_the_same_slug_keeps_the_file() {
    let mut note = sample_note();
    note.path = "/p.md".into();
    let (n, c, moved) = apply_update(
        note,
        "# My Note\n".into(),
        UpdateParams { title: Some("my  note!".into()), ..Default::default() },
    );
    assert!(!moved);
    assert_eq!(n.path, "/p.md");
    assert_eq!(n.title, "my  note!");
    assert_eq!(c, "# my  note!\n");
}

#[test]
fn appending_adds_a_line_break_only_when_missing() {
    let (_, c, _) = apply_update(
        sample_note(),
        "# T\n".into(),
        UpdateParams { append: Some("x".into()), ..Default::default() },
    );
    assert_eq!(c, "# T\nx\n");
}

#[test]
fn list_queries() {
    let (sql, tag) = list_query(&ListParams::default());
    assert!(tag.is_none());
    assert!(sql.contains(" WHERE n.archived = 0 GROUP BY n.id ORDER BY n.updated_at DESC"));
    assert!(!sql.contains("LIMIT"));

    let (sql, tag) = list_query(&ListParams {
        include_archived: true,
        tag: Some("#Rust".into()),
        limit: Some(7),
        ..Default::default()
    });
    assert_eq!(tag.as_deref(), Some("rust"));
    assert!(sql.ends_with(
        " WHERE n.id IN (SELECT note_id FROM note_tags WHERE LOWER(tag_name) = ?1) GROUP BY n.id ORDER BY n.updated_at DESC LIMIT 7"
    ));

    let (sql, _) = list_query(&ListParams { only_archived: true, ..Default::default() });
    assert!(sql.contains(" WHERE n.archived = 1 GROUP BY"));

    let (sql, _) = list_query(&ListParams { include_archived: true, ..Default::default() });
    assert!(sql.ends_with("LEFT JOIN note_tags nt ON n.id = nt.note_id GROUP BY n.id ORDER BY n.updated_at DESC"));
}

#[test]
fn tag_lists_split_on_commas() {
    assert!(split_tag_list("").is_empty());
    assert_eq!(split_tag_list("a"), vec!["a".to_string()]);
    assert_eq!(split_tag_list("a,b,,c"), vec!["a", "b", "", "c"]);
}

#[test]
fn related_limit_defaults_to_twenty() {
    assert_eq!(related_limit(&RelatedParams { id_or_slug: "x".into(), limit: None }), 20);
    assert_eq!(related_limit(&RelatedParams { id_or_slug: "x".into(), limit: Some(3) }), 3);
}

#[test]
fn shown_notes_carry_body_or_raw() {
    let file = render_note_file(&sample_note(), "# My Note\n\nbody");
    let v = note_view(sample_note(), vec!["alpha".into()], false, file.clone());
    assert_eq!(v.body.as_deref(), Some("# My Note\n\nbody"));
    assert!(v.raw.is_none());
    assert_eq!(v.tags, vec!["alpha".to_string()]);
    let raw = note_view(sample_note(), vec![], true, file.clone());
    assert!(raw.body.is_none());
    assert_eq!(raw.raw.as_deref(), Some(file.as_str()));
    assert!(raw.raw.unwrap().starts_with("---"));
}

#[test]
fn representable_instants() {
    assert!(at(0).is_valid());
    assert!(at(MARCH_11).is_valid());
    assert!(Timestamp { secs: 59, nanos: 1_500_000_000 }.is_valid());
    assert!(!Timestamp { secs: 58, nanos: 1_500_000_000 }.is_valid());
    assert!(Timestamp { secs: -1, nanos: 1_000_000_000 }.is_valid());
    assert!(!Timestamp { secs: -2, nanos: 1_000_000_000 }.is_valid());
    assert!(!Timestamp { secs: 0, nanos: 2_000_000_000 }.is_valid());
    assert!(!at(i64::MAX).is_valid());
    assert!(!at(i64::MIN).is_valid());
    assert!(at(mem_core::stamp::MIN_SECS).is_valid());
    assert!(at(mem_core::stamp::MAX_SECS).is_valid());
    assert!(!at(mem_core::stamp::MAX_SECS + 1).is_valid());
}

#[test]
fn stamps_are_written_in_rfc3339() {
    assert_eq!(mem_core::stamp::stamp_text(&at(MARCH_11)), "2026-03-11T10:00:00+00:00");
    assert_eq!(
        mem_core::stamp::stamp_text(&Timestamp { secs: 946684799, nanos: 500_000_000 }),
        "1999-12-31T23:59:59.500+00:00"
    );
    assert_eq!(mem_core::stamp::stamp_text(&at(0)), "1970-01-01T00:00:00+00:00");
    assert_eq!(
        mem_core::stamp::stamp_text(&at(mem_core::stamp::MIN_SECS)),
        "-262143-01-01T00:00:00+00:00"
    );
    assert_eq!(
        mem_core::stamp::stamp_text(&at(mem_core::stamp::MAX_SECS)),
        "+262142-12-31T23:59:59+00:00"
    );
}

/// Creates a note as `new` does, placed in `/vault`, returning it, its content
/// and its file text.
fn created(title: &str, body: Option<&str>) -> (mem_core::domain::Note, String, String) {
    let (mut note, content) = draft_new_note(title, body).unwrap();
    let (_, file) = prepare_note_write("/vault", &VaultConfig::default(), &mut note, &content).unwrap();
    (note, content, file)
}

#[test]
fn update_title_body_append_archive() {
    let (note, _, file) = created("Original", None);
    assert_eq!(note.slug, "original");

    let (r, content, _) = apply_update(
        note,
        strip_frontmatter(&file),
        UpdateParams {
            id_or_slug: "original".into(),
            title: Some("Renamed".into()),
            body: Some("Fresh body #rust with [[Link]]".into()),
            ..Default::default()
        },
    );
    assert_eq!(r.title, "Renamed");
    assert_eq!(r.slug, "renamed");
    assert!(r.tags.contains(&"rust".to_string()));

    let mut r = r;
    let (_, file) = prepare_note_write("/vault", &VaultConfig::default(), &mut r, &content).unwrap();
    let (r, content, _) = apply_update(
        r,
        strip_frontmatter(&file),
        UpdateParams {
            id_or_slug: "renamed".into(),
            append: Some("extra line".into()),
            ..Default::default()
        },
    );
    let mut r = r;
    let (_, file) = prepare_note_write("/vault", &VaultConfig::default(), &mut r, &content).unwrap();
    let view = note_view(r.clone(), vec![], false, file);
    let body = view.body.unwrap();
    assert!(body.contains("Fresh body"));
    assert!(body.contains("extra line"));
    assert!(body.starts_with("# Renamed"));

    let (r, _, _) = apply_update(
        r,
        body,
        UpdateParams { id_or_slug: "renamed".into(), archive: true, ..Default::default() },
    );
    assert!(r.archived);
    let (default_sql, _) = list_query(&ListParams::default());
    assert!(default_sql.contains("n.archived = 0"));
    let (archived_sql, _) =
        list_query(&ListParams { only_archived: true, ..Default::default() });
    assert!(archived_sql.contains("n.archived = 1"));
}

#[test]
fn new_with_body_inlines_content() {
    let (note, _, file) = created("With Body", Some("Initial text #rust"));
    assert!(note.tags.contains(&"rust".to_string()));
    let view = note_view(note, vec![], false, file);
    let body = view.body.unwrap();
    assert!(body.starts_with("# With Body"));
    assert!(body.contains("Initial text #rust"));
}

#[test]
fn update_renames_file_on_slug_change() {
    let (note, content, _) = created("Old Title", None);
    let old_path = note.path.clone();
    assert_eq!(note.slug, "old-title");
    assert!(old_path.ends_with("-old-title.md"));

    let (renamed, content, slug_changed) = apply_update(
        note,
        content,
        UpdateParams {
            id_or_slug: "old-title".into(),
            title: Some("Brand New".into()),
            ..Default::default()
        },
    );
    assert!(slug_changed);
    let mut renamed = renamed;
    let (path, _) = prepare_note_write("/vault", &VaultConfig::default(), &mut renamed, &content).unwrap();
    assert_eq!(renamed.slug, "brand-new");
    assert_ne!(renamed.path, old_path);
    assert_eq!(path, renamed.path);
    assert!(path.ends_with("-brand-new.md"));
}

#[test]
fn search_finds_by_title_and_tag() {
    let (note, content, _) = created("Rust Notes", None);
    let (note, content, _) = apply_update(
        note,
        content,
        UpdateParams {
            id_or_slug: "rust-notes".into(),
            body: Some("Learning #rust today".into()),
            ..Default::default()
        },
    );
    // The rows the index returns for this note: its title, its content, its tag.
    let rows = |kind: MatchKind, text: &str| Candidate {
        id: note.id.0.clone(),
        title: note.title.clone(),
        kind,
        text: text.into(),
    };
    let hits = match plan_search("Rust") {
        SearchPlan::Substring { query, pattern } => {
            assert_eq!(pattern, "%Rust%");
            let cands = vec![
                rows(MatchKind::Title, &note.title),
                rows(MatchKind::Content, &content),
                rows(MatchKind::Tag, &note.tags[0]),
            ];
            assemble_results(&query, &cands).unwrap()
        }
        other => panic!("{:?}", other),
    };
    assert!(!hits.is_empty());
    assert_eq!(hits.len(), 1);
    assert_eq!(hits[0].excerpt, "<m>Rust</m> Notes");

    let tag_hits = match plan_search("#rust") {
        SearchPlan::ExactTag(tag) => {
            assert_eq!(tag, "rust");
            tag_search_results(&vec![rows(MatchKind::Tag, &note.tags[0])])
        }
        other => panic!("{:?}", other),
    };
    assert!(!tag_hits.is_empty());
}

#[test]
fn retitling_then_replacing_the_body() {
    for content in ["# Old\n\nold body", "# Old", "# Old\nfirst line\nsecond"] {
        let retitled = replace_h1(content, "New");
        assert_eq!(replace_body_keep_h1(&retitled, "b"), "# New\n\nb");
    }
}

#[test]
fn a_second_note_of_the_same_name_and_day_takes_the_same_path() {
    let cfg = VaultConfig::default();
    let first = "/v/notes/2026/2026-03-11-my-note.md".to_string();
    let mut second = sample_note();
    let (path, _) = prepare_note_write("/v", &cfg, &mut second, "# My Note\n").unwrap();
    assert_eq!(path, first);
    assert_eq!(second.path, first);
}

#[test]
fn any_frontmatter_block_strips_to_the_body() {
    assert_eq!(strip_frontmatter("---\nfoo: bar\nx: y\n---\n\nthe body"), "the body");
    assert_eq!(strip_frontmatter("---\n\n---\n\n# T\n"), "# T\n");
    assert_eq!(strip_frontmatter("---\nk: --x\n---\n\n"), "");
}
