use memedb::tags::{clean_tag_names, parse_search_tags};
use memedb::text::{same_text, trim};
use memedb::handlers::{add_tags, search_terms, TagRequestAction};
use memedb::models::{AddTagsRequest, SearchParams};

fn strings(v: &[&str]) -> Vec<String> {
    v.iter().map(|s| s.to_string()).collect()
}

#[test]
fn trim_drops_unicode_whitespace_at_both_ends() {
    assert_eq!(trim("  cat  "), "cat");
    assert_eq!(trim("\t\n cat meme \r"), "cat meme");
    assert_eq!(trim("\u{3000}cat\u{a0}\u{2003}"), "cat");
    assert_eq!(trim("   "), "");
    assert_eq!(trim(""), "");
    assert_eq!(trim("a b"), "a b");
}

#[test]
fn trim_agrees_with_std() {
    for s in ["", " ", "x", " x ", "\u{85}x\u{2028}", "\u{200b}x\u{200b}", "é ", " 猫 "] {
        assert_eq!(trim(s), s.trim());
    }
}

#[test]
fn trim_is_idempotent() {
    for s in [" a ", "\u{3000} b\t", "c"] {
        let once = trim(s);
        assert_eq!(trim(&once), once);
    }
}

#[test]
fn search_tags_are_split_trimmed_and_filtered() {
    assert_eq!(parse_search_tags("cat,happy"), strings(&["cat", "happy"]));
    assert_eq!(parse_search_tags(" cat , , funny ,"), strings(&["cat", "funny"]));
    assert_eq!(parse_search_tags(""), Vec::<String>::new());
    assert_eq!(parse_search_tags(",,,"), Vec::<String>::new());
    assert_eq!(parse_search_tags("cat"), strings(&["cat"]));
    assert_eq!(parse_search_tags("cat,cat"), strings(&["cat", "cat"]));
}

#[test]
fn search_tags_agree_with_the_std_pipeline() {
    for raw in ["cat,happy", " a ,b,, c ", "", " , ", "x,\u{3000}y\u{3000}"] {
        let expected: Vec<String> = raw
            .split(',')
            .map(|s| s.trim().to_string())
            .filter(|s| !s.is_empty())
            .collect();
        assert_eq!(parse_search_tags(raw), expected);
    }
}

#[test]
fn search_terms_read_a_missing_query_as_empty() {
    assert_eq!(search_terms(&SearchParams { tags: None }), Vec::<String>::new());
    assert_eq!(
        search_terms(&SearchParams { tags: Some("cat, meme".to_string()) }),
        strings(&["cat", "meme"])
    );
}

#[test]
fn tag_names_are_trimmed_and_empty_ones_skipped() {
    let raw = strings(&[" cat ", "", "   ", "meme", "\tfunny\n"]);
    assert_eq!(clean_tag_names(&raw), strings(&["cat", "meme", "funny"]));
    let payload = AddTagsRequest { tags: raw };
    let (request, action) = add_tags(2, &payload);
    assert_eq!(request.names, strings(&["cat", "meme", "funny"]));
    assert!(matches!(action, TagRequestAction::TagName { image_id: 2, ref name } if name == "cat"));
}

#[test]
fn cleaning_tags_twice_changes_nothing() {
    let raw = strings(&[" a", "b ", " ", "c"]);
    let once = clean_tag_names(&raw);
    assert_eq!(clean_tag_names(&once), once);
}

#[test]
fn same_text_compares_characters() {
    assert!(same_text("file", "file"));
    assert!(!same_text("file", "files"));
    assert!(!same_text("File", "file"));
    assert!(same_text("", ""));
}
