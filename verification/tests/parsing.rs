use mem_core::parser::{extract_links, extract_tags};
use regex::Regex;

/// The tag extraction written with the regular expression it is defined by.
fn tags_by_regex(text: &str) -> Vec<String> {
    let re = Regex::new(r"(?i)(?:^|[^a-zA-Z0-9_])#([a-z_][a-z0-9_-]+)").unwrap();
    let mut tags: Vec<String> = re
        .captures_iter(text)
        .filter_map(|cap| cap.get(1).map(|m| m.as_str().to_lowercase()))
        .collect();
    tags.sort();
    tags.dedup();
    tags
}

/// The link extraction written with the regular expression it is defined by.
fn links_by_regex(text: &str) -> Vec<String> {
    let re = Regex::new(r"\[\[(.*?)\]\]").unwrap();
    let mut links: Vec<String> = re
        .captures_iter(text)
        .filter_map(|cap| cap.get(1).map(|m| m.as_str().trim().to_string()))
        .filter(|s| !s.is_empty())
        .collect();
    links.sort();
    links.dedup();
    links
}

const SAMPLES: &[&str] = &[
    "",
    "#",
    "#a",
    "#ab",
    "#a#bb",
    "##ab",
    "#ab-#cd",
    "#ab #cd",
    "#ab##cd",
    "x#ab",
    "x #ab",
    "_#ab",
    "1#ab",
    "-#ab",
    "#1ab",
    "#_1",
    "#Ab-C_d9",
    "über#ab",
    "é#ab",
    "#ſt #\u{212A}elvin",
    "x\u{212A}#ab",
    "xſ#ab y#cd",
    "Hello #world and #rust_lang, also check out #World again.",
    "#rust #shared",
    "a\n#b1\n#c-\n#_x",
    "Learning #rust today",
    "[[a]] [[ b ]] [[]] [[ ]] [[c\nd]] [[e]]]",
    "[[[x]]",
    "[[a]b]]",
    "[[x]] [[x]]",
    "[[x\u{3000}]]",
    "[[\u{00A0}y]]",
    "See [[My Note]] and [[Other-Note]] or [[ My Note ]]",
];

#[test]
fn tags_agree_with_their_regular_expression() {
    for s in SAMPLES {
        assert_eq!(extract_tags(s), tags_by_regex(s), "text {:?}", s);
    }
}

#[test]
fn links_agree_with_their_regular_expression() {
    for s in SAMPLES {
        assert_eq!(extract_links(s), links_by_regex(s), "text {:?}", s);
    }
}

#[test]
fn whitespace_agrees_with_std() {
    for u in 0u32..=0x10FFFF {
        if let Some(c) = char::from_u32(u) {
            assert_eq!(mem_core::text::is_whitespace(c), c.is_whitespace(), "{:?}", c);
        }
    }
}

#[test]
fn tags_are_lowercased_sorted_and_unique() {
    assert_eq!(extract_tags("#Zeta #alpha #ALPHA #mid"), vec!["alpha", "mid", "zeta"]);
}

#[test]
fn tags_need_two_characters_and_a_leading_letter() {
    assert!(extract_tags("#a #1 #12 and #9ab").is_empty());
    assert_eq!(extract_tags("#a_ #_b"), vec!["_b", "a_"]);
}

#[test]
fn tags_after_word_characters_are_not_tags() {
    assert_eq!(extract_tags("email me at a#bc or x_#yz, not #ok"), vec!["ok"]);
}

#[test]
fn links_are_trimmed_sorted_and_unique() {
    assert_eq!(extract_links("[[ b ]] [[a]] [[b]] [[  ]]"), vec!["a", "b"]);
}

#[test]
fn links_do_not_cross_lines() {
    assert_eq!(extract_links("[[one\ntwo]] [[three]]"), vec!["three"]);
}

#[test]
fn tags_of_joined_texts() {
    let a = "Start #alpha and #Beta-1";
    let b = "#gamma at once, then #alpha";
    let mut both = extract_tags(a);
    both.extend(extract_tags(b));
    both.sort();
    both.dedup();
    assert_eq!(extract_tags(&format!("{} {}", a, b)), both);
    assert_eq!(extract_tags(&format!("{} {}", "ends with #ab", "#cd")), vec!["ab", "cd"]);
}
