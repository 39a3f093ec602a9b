use findreplace::{cson_to_hashmap, interpret, is_valid_cson, MappingFormat, Substitute};

fn chars(s: &str) -> Vec<char> {
    s.chars().collect()
}

fn pairs(ps: &[(&str, &str)]) -> Vec<(Vec<char>, Vec<char>)> {
    ps.iter().map(|(k, v)| (chars(k), chars(v))).collect()
}

#[test]
fn plain_text_is_literal() {
    assert_eq!(interpret(&chars("hello")), Substitute::Literal(chars("hello")));
}

#[test]
fn text_without_separator_or_structure_is_literal() {
    assert_eq!(interpret(&chars("baz")), Substitute::Literal(chars("baz")));
    assert_eq!(
        interpret(&chars("no separators here")),
        Substitute::Literal(chars("no separators here"))
    );
}

#[test]
fn json_object_of_strings_is_json_mapping() {
    assert_eq!(
        interpret(&chars("{\"hello\":\"hi\",\"world\":\"earth\"}")),
        Substitute::Mapping(MappingFormat::Json, pairs(&[("hello", "hi"), ("world", "earth")]))
    );
}

#[test]
fn json_with_non_string_value_is_not_json_mapping() {
    let r = interpret(&chars("{\"a\": 1}"));
    assert!(!matches!(r, Substitute::Mapping(MappingFormat::Json, _)));
}

#[test]
fn yaml_flow_mapping_is_yaml_mapping() {
    assert_eq!(
        interpret(&chars("{hello: hi, world: earth}")),
        Substitute::Mapping(MappingFormat::Yaml, pairs(&[("hello", "hi"), ("world", "earth")]))
    );
}

#[test]
fn yaml_block_mapping_is_yaml_mapping() {
    assert_eq!(
        interpret(&chars("hello: hi\nworld: earth")),
        Substitute::Mapping(MappingFormat::Yaml, pairs(&[("hello", "hi"), ("world", "earth")]))
    );
}

#[test]
fn delimited_semicolon_pairs_are_cson_mapping() {
    assert_eq!(
        interpret(&chars("a:1;b:2")),
        Substitute::Mapping(MappingFormat::Cson, pairs(&[("a", "1"), ("b", "2")]))
    );
}

#[test]
fn every_separator_character_is_accepted() {
    for sep in [',', '|', '/', '~'] {
        let raw = format!("a:1{}b:2", sep);
        assert_eq!(
            interpret(&chars(&raw)),
            Substitute::Mapping(MappingFormat::Cson, pairs(&[("a", "1"), ("b", "2")])),
        );
    }
}

#[test]
fn pair_without_colon_falls_back_to_literal() {
    assert_eq!(interpret(&chars("a:1;b")), Substitute::Literal(chars("a:1;b")));
}

#[test]
fn pair_with_two_colons_falls_back_to_literal() {
    assert_eq!(interpret(&chars("a:1:9;b:2")), Substitute::Literal(chars("a:1:9;b:2")));
}

#[test]
fn duplicate_cson_key_keeps_last_value() {
    assert_eq!(
        interpret(&chars("a:1;a:2")),
        Substitute::Mapping(MappingFormat::Cson, pairs(&[("a", "2")]))
    );
}

#[test]
fn first_separator_found_wins() {
    // ',' comes first in the string, so the split runs on ',' alone; the
    // piece "a" holds no colon, so the pair list is invalid.
    assert_eq!(interpret(&chars("a,b;c")), Substitute::Literal(chars("a,b;c")));
}

#[test]
fn valid_cson_recognizer_accepts_pair_lists() {
    assert!(is_valid_cson(&chars("a:1;b:2")));
    assert!(is_valid_cson(&chars("x:y,z:w")));
    assert!(is_valid_cson(&chars(":1;b:2")));
}

#[test]
fn valid_cson_recognizer_rejects_bad_shapes() {
    assert!(!is_valid_cson(&chars("no separator")));
    assert!(!is_valid_cson(&chars("a:1;b")));
    assert!(!is_valid_cson(&chars("a:1:9;b:2")));
    assert!(!is_valid_cson(&chars(";")));
    assert!(!is_valid_cson(&chars("a:1;")));
}

#[test]
fn cson_to_hashmap_returns_pairs_in_first_occurrence_order() {
    let r = cson_to_hashmap(&chars("b:2;a:1;b:3")).unwrap();
    assert_eq!(r, pairs(&[("b", "3"), ("a", "1")]));
}

#[test]
fn cson_to_hashmap_rejects_invalid_input() {
    assert!(cson_to_hashmap(&chars("plain")).is_err());
    assert!(cson_to_hashmap(&chars("a:1;b")).is_err());
}
