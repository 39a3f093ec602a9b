use findreplace::{
    apply, apply_to_matches, process_contents, rewrite_token, search_and_replace,
    search_and_replace_with_map, MappingFormat, Substitute,
};

fn chars(s: &str) -> Vec<char> {
    s.chars().collect()
}

fn text(v: &[char]) -> String {
    v.iter().collect()
}

fn pairs(ps: &[(&str, &str)]) -> Vec<(Vec<char>, Vec<char>)> {
    ps.iter().map(|(k, v)| (chars(k), chars(v))).collect()
}

#[test]
fn literal_substitution_replaces_every_occurrence() {
    let r = apply(&chars("foo foo bar"), &chars("foo"), &Substitute::Literal(chars("baz")));
    assert_eq!(text(&r.unwrap()), "baz baz bar");
}

#[test]
fn literal_substitution_keeps_unmatched_text_verbatim() {
    let r = search_and_replace(&chars("xayaz"), &chars("a"), &chars("bb"));
    assert_eq!(text(&r), "xbbybbz");
    let r = search_and_replace(&chars("abc"), &chars("xyz"), &chars("q"));
    assert_eq!(text(&r), "abc");
}

#[test]
fn literal_substitution_with_empty_pattern_interleaves() {
    let r = search_and_replace(&chars("fo"), &chars(""), &chars("-"));
    assert_eq!(text(&r), "fo".replace("", "-"));
    assert_eq!(text(&r), "-f-o-");
}

#[test]
fn literal_occurrences_do_not_overlap() {
    let r = search_and_replace(&chars("aaa"), &chars("aa"), &chars("b"));
    assert_eq!(text(&r), "ba");
}

#[test]
fn mapping_substitution_rewrites_the_matched_token() {
    let r = process_contents(
        &chars("hello world"),
        &chars("hello world"),
        &chars("{\"hello\":\"hi\",\"world\":\"earth\"}"),
    );
    let (revised, substitute) = r.unwrap();
    assert_eq!(text(&revised), "hi earth");
    assert!(matches!(substitute, Substitute::Mapping(MappingFormat::Json, _)));
}

#[test]
fn mapping_substitution_rewrites_repeated_matches_identically() {
    let r = search_and_replace_with_map(
        &chars("hello world and hello world"),
        &chars("hello world"),
        &pairs(&[("hello", "hi"), ("world", "earth")]),
    );
    assert_eq!(text(&r.unwrap()), "hi earth and hi earth");
}

#[test]
fn mapping_substitution_with_regex_pattern() {
    let r = search_and_replace_with_map(
        &chars("see {name} and {name}."),
        &chars("\\{[a-z]+\\}"),
        &pairs(&[("{", ""), ("}", ""), ("name", "Ada")]),
    );
    assert_eq!(text(&r.unwrap()), "see Ada and Ada.");
}

#[test]
fn mapping_substitution_without_matches_keeps_contents() {
    let r = search_and_replace_with_map(
        &chars("nothing here"),
        &chars("xyz"),
        &pairs(&[("x", "y")]),
    );
    assert_eq!(text(&r.unwrap()), "nothing here");
}

#[test]
fn invalid_pattern_fails_only_the_mapping_path() {
    let bad = search_and_replace_with_map(&chars("abc"), &chars("["), &pairs(&[("a", "b")]));
    assert!(bad.is_err());

    let with_mapping = process_contents(&chars("abc"), &chars("["), &chars("a:b;c:d"));
    assert!(with_mapping.is_err());

    // A literal substitute never compiles the pattern, so the same pattern
    // passes through as a plain substring.
    let with_literal = process_contents(&chars("a[c"), &chars("["), &chars("plain"));
    assert_eq!(text(&with_literal.unwrap().0), "aplainc");
}

#[test]
fn apply_with_mapping_substitute_uses_the_regex_path() {
    let r = apply(
        &chars("ab ab"),
        &chars("ab"),
        &Substitute::Mapping(MappingFormat::Cson, pairs(&[("a", "x")])),
    );
    assert_eq!(text(&r.unwrap()), "xb xb");
}

#[test]
fn rewrite_token_applies_entries_in_order() {
    let r = rewrite_token(&chars("hello world"), &pairs(&[("hello", "hi"), ("world", "earth")]));
    assert_eq!(text(&r), "hi earth");
}

#[test]
fn rewrite_token_does_not_reprocess_replacement_values() {
    // "a" becomes "b" in one pass; the later entry for "b" only rewrites
    // what the token held when that entry's pass ran.
    let r = rewrite_token(&chars("a"), &pairs(&[("a", "b"), ("b", "c")]));
    assert_eq!(text(&r), "c");
    let r = rewrite_token(&chars("a"), &pairs(&[("b", "c"), ("a", "b")]));
    assert_eq!(text(&r), "b");
}

#[test]
fn apply_to_matches_replaces_across_the_whole_result() {
    let r = apply_to_matches(
        &chars("aa bb aa"),
        &vec![chars("aa")],
        &pairs(&[("a", "c")]),
    );
    assert_eq!(text(&r), "cc bb cc");
}

#[test]
fn mapping_entry_with_empty_value_deletes_its_key() {
    let r = search_and_replace_with_map(
        &chars("one, two"),
        &chars("one"),
        &pairs(&[("ne", "")]),
    );
    assert_eq!(text(&r.unwrap()), "o, two");
}
