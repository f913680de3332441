use mem_core::search::{
    assemble_results, extract_snippet, plan_search, snap_char, tag_search_results, trim_to_words,
    try_extract_snippet, try_highlight_match, Candidate, MatchKind, SearchPlan,
};
use mem_core::storage::{join_path, strip_frontmatter};
use mem_core::util::{generate_slug, slug_from_lowercase};

#[test]
fn slug_drops_punctuation_and_edges() {
    assert_eq!(generate_slug("--Hello, World!--"), "hello-world");
    assert_eq!(generate_slug("!!!"), "");
    assert_eq!(generate_slug("a__b"), "a-b");
}

#[test]
fn slug_of_a_slug_is_itself() {
    let s = generate_slug("Rust: Ownership & Borrowing (2024)");
    assert_eq!(s, "rust-ownership-borrowing-2024");
    assert_eq!(generate_slug(&s), s);
}

#[test]
fn frontmatter_is_stripped() {
    let raw = "---\nid: X\ntitle: T\n---\n\n\n# T\n\nbody";
    assert_eq!(strip_frontmatter(raw), "# T\n\nbody");
}

#[test]
fn text_without_frontmatter_is_kept() {
    assert_eq!(strip_frontmatter("# T\n---\nx"), "# T\n---\nx");
    assert_eq!(strip_frontmatter("---\nno end"), "---\nno end");
    assert_eq!(strip_frontmatter("--"), "--");
}

#[test]
fn closing_fence_may_end_the_file() {
    assert_eq!(strip_frontmatter("---\na: b\n---"), "");
    assert_eq!(strip_frontmatter("------x"), "------x");
}

#[test]
fn paths_join_like_std() {
    assert_eq!(join_path("/v", "notes"), "/v/notes");
    assert_eq!(join_path("/v/", "notes"), "/v/notes");
    assert_eq!(join_path("/v", "/abs"), "/abs");
    assert_eq!(join_path("", "rel"), "rel");
    for (a, b) in [("/v", "notes"), ("/v/", "x"), ("/v", "/abs"), ("", "rel"), ("a", "")] {
        let expect = std::path::Path::new(a).join(b).to_string_lossy().to_string();
        assert_eq!(join_path(a, b), expect);
    }
}

#[test]
fn highlight_keeps_original_case() {
    assert_eq!(highlight_match_opt("ABC abc", "bc"), Some("A<m>BC</m> abc".to_string()));
}

fn highlight_match_opt(t: &str, q: &str) -> Option<String> {
    try_highlight_match(t, q)
}

#[test]
fn highlight_refuses_shifted_matches() {
    // "İ" lowercases to two characters, so byte positions drift.
    assert_eq!(try_highlight_match("İx", "x"), None);
}

#[test]
fn highlight_applies_lowercased_byte_positions_to_the_text() {
    // The match of "y" lies at byte 4 of "i̇xyz"; byte 4 of "İxyz" starts "z".
    assert_eq!(try_highlight_match("İxyz", "y"), Some("İxy<m>z</m>".to_string()));
}

#[test]
fn snippet_cuts_at_words_and_marks_cuts() {
    let content = "alpha beta gamma delta SQL epsilon zeta eta theta";
    let s = try_extract_snippet(content, "sql", 12).unwrap();
    assert_eq!(s, "…delta <m>SQL</m> epsilon…");
}

#[test]
fn snippet_without_match_is_empty() {
    assert_eq!(try_extract_snippet("hello", "xyz", 10).unwrap(), "");
}

#[test]
fn snippet_turns_line_breaks_into_spaces() {
    let s = try_extract_snippet("a\nSQL\nb", "sql", 60).unwrap();
    assert_eq!(s, "a <m>SQL</m> b");
}

#[test]
fn snap_finds_boundaries() {
    let s = "aé b";
    assert_eq!(snap_char(s, 2, false), 1);
    assert_eq!(snap_char(s, 2, true), 3);
    assert_eq!(snap_char(s, 1, true), 1);
    assert_eq!(snap_char(s, 99, false), 5);
}

#[test]
fn words_are_trimmed_at_cut_edges() {
    assert_eq!(trim_to_words("ta beta gam", true, true), ("beta".to_string(), 3));
    assert_eq!(trim_to_words("ta beta gam", false, false), ("ta beta gam".to_string(), 0));
    assert_eq!(trim_to_words("nospace", true, true), ("nospace".to_string(), 0));
}

#[test]
fn search_plans() {
    assert!(matches!(plan_search(" a "), SearchPlan::Nothing));
    match plan_search("  #Rust ") {
        SearchPlan::ExactTag(t) => assert_eq!(t, "rust"),
        other => panic!("{:?}", other),
    }
    match plan_search("50%_off") {
        SearchPlan::Substring { query, pattern } => {
            assert_eq!(query, "50%_off");
            assert_eq!(pattern, "%50\\%\\_off%");
        }
        other => panic!("{:?}", other),
    }
    // a lone "#" followed by nothing is a plain query
    assert!(matches!(plan_search("# "), SearchPlan::Nothing));
    assert!(matches!(plan_search("é"), SearchPlan::Substring { .. }));
}

fn cand(id: &str, title: &str, kind: MatchKind, text: &str) -> Candidate {
    Candidate { id: id.into(), title: title.into(), kind, text: text.into() }
}

#[test]
fn results_keep_first_match_per_note_and_rank_by_score() {
    let cands = vec![
        cand("2", "Other", MatchKind::Content, "about Rust here"),
        cand("1", "Rust Notes", MatchKind::Title, "Rust Notes"),
        cand("1", "Rust Notes", MatchKind::Content, "rust"),
        cand("3", "Third", MatchKind::Tag, "rust"),
    ];
    let hits = assemble_results("rust", &cands).unwrap();
    let ids: Vec<&str> = hits.iter().map(|h| h.note_id.0.as_str()).collect();
    assert_eq!(ids, vec!["1", "2", "3"]);
    assert_eq!(hits[0].excerpt, "<m>Rust</m> Notes");
    assert_eq!(hits[0].score_halves, 4);
    assert_eq!(hits[1].excerpt, "about <m>Rust</m> here");
    assert_eq!(hits[1].score_halves, 2);
    assert_eq!(hits[2].excerpt, "<m>#rust</m>");
    assert_eq!(hits[2].score_halves, 1);
}

#[test]
fn results_stop_at_fifty() {
    let cands: Vec<Candidate> =
        (0..60).map(|i| cand(&i.to_string(), "t", MatchKind::Tag, "x")).collect();
    assert_eq!(assemble_results("xx", &cands).unwrap().len(), 50);
}

#[test]
fn exact_tag_hits_score_one() {
    let hits = tag_search_results(&vec![cand("9", "N", MatchKind::Tag, "go")]);
    assert_eq!(hits.len(), 1);
    assert_eq!(hits[0].excerpt, "<m>#go</m>");
    assert_eq!(hits[0].score_halves, 2);
    assert_eq!(hits[0].match_kind.label(), "tag");
}

#[test]
fn the_match_survives_word_trimming() {
    let s = extract_snippet("xxxxxSQL a b c", "sql", 3);
    assert!(s.contains("<m>SQL</m>"), "{}", s);
    let s = extract_snippet("aaaa bbbb ccccSQLdddd eeee ffff", "sql", 4);
    assert!(s.contains("<m>SQL</m>"), "{}", s);
}

#[test]
fn slugs_are_stable() {
    use_slug("Hello World");
    use_slug("  Multi  -- Spaces  ");
    use_slug("Тест 123");
    use_slug("a-b--c");
}

fn use_slug(title: &str) {
    let once = generate_slug(title);
    assert_eq!(slug_from_lowercase(&once), once);
    assert_eq!(generate_slug(&once), once);
}

#[test]
fn short_snippets_are_the_highlighted_text() {
    let content = "Hello\nWorld sql";
    assert_eq!(extract_snippet(content, "sql", 60), "Hello World <m>sql</m>");
    assert_eq!(
        extract_snippet(content, "sql", 60),
        try_highlight_match(content, "sql").unwrap().replace('\n', " ")
    );
}

#[test]
fn ascii_slugs_are_stable() {
    for title in ["Hello World", "  Multi  -- Spaces  ", "C++ & Rust: 2024!", "a-b--c", ""] {
        let once = generate_slug(title);
        assert_eq!(generate_slug(&once), once);
    }
}
