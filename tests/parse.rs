use jp2tw_captioner::parse::{
    clean_single_reply, extract_first_json_object, json_candidate, parse_translations,
    texts_of, try_parse_translations_json,
};

#[test]
fn test_json_helpers() {
    // Plain JSON
    let s = r#"{"translations":["a","b"]}"#;
    let v = try_parse_translations_json(s).unwrap();
    assert_eq!(v, vec!["a", "b"]);

    // Fenced JSON
    let s2 = "```json\n{\n  \"translations\":[\"x\",\"y\"]\n}\n```";
    let v2 = try_parse_translations_json(s2).unwrap();
    assert_eq!(v2, vec!["x", "y"]);

    // Embedded JSON
    let s3 = "Here is your result:\n{\"translations\":[\"m\",\"n\"]}\nThanks";
    let obj = extract_first_json_object(s3).unwrap();
    let v3 = try_parse_translations_json(&obj).unwrap();
    assert_eq!(v3, vec!["m", "n"]);
}

#[test]
fn three_reply_forms_give_one_array() {
    let content = "{\"translations\":[\"早安\",\"你好\"]}";
    let clean = parse_translations(content).unwrap();
    let fenced = parse_translations(&format!("```json\n{}\n```", content)).unwrap();
    let prose = parse_translations(&format!("Sure! Here you go:\n{}\nEnjoy.", content)).unwrap();
    assert_eq!(clean, vec!["早安", "你好"]);
    assert_eq!(fenced, clean);
    assert_eq!(prose, clean);
}

#[test]
fn fence_without_tag_and_upper_tag() {
    let bare = "```\n{\"translations\":[\"a\"]}\n```";
    assert_eq!(try_parse_translations_json(bare).unwrap(), vec!["a"]);
    let upper = "  ```JSON\n{\"translations\":[\"b\"]}```  ";
    assert_eq!(try_parse_translations_json(upper).unwrap(), vec!["b"]);
}

#[test]
fn non_string_elements_become_empty() {
    let s = r#"{"translations":["a", 7, null, {"x":1}, "e"]}"#;
    assert_eq!(try_parse_translations_json(s).unwrap(), vec!["a", "", "", "", "e"]);
}

#[test]
fn missing_or_wrong_member_is_unreadable() {
    assert_eq!(try_parse_translations_json(r#"{"items":["a"]}"#), None);
    assert_eq!(try_parse_translations_json(r#"{"translations":"a"}"#), None);
    assert_eq!(try_parse_translations_json("not json"), None);
    assert_eq!(parse_translations("no braces at all"), None);
    assert_eq!(parse_translations("text {\"other\":[1]} text"), None);
}

#[test]
fn extract_takes_first_balanced_block() {
    assert_eq!(
        extract_first_json_object("a {b {c} d} e {f}").as_deref(),
        Some("{b {c} d}")
    );
    assert_eq!(extract_first_json_object("} {x}"), None);
    assert_eq!(extract_first_json_object("{}} {x}").as_deref(), Some("{}"));
    assert_eq!(extract_first_json_object("}{}").as_deref(), None);
    assert_eq!(extract_first_json_object("{ never closed"), None);
    assert_eq!(extract_first_json_object(""), None);
    assert_eq!(extract_first_json_object("前{\"k\":\"値\"}後").as_deref(), Some("{\"k\":\"値\"}"));
}

#[test]
fn prose_with_braces_inside_reply() {
    let raw = "Result: {\"translations\":[\"a{b}\",\"c\"]} done";
    assert_eq!(parse_translations(raw).unwrap(), vec!["a{b}", "c"]);
}

#[test]
fn single_reply_is_trimmed_and_unquoted() {
    assert_eq!(clean_single_reply("  \"早安\"\n").as_deref(), Some("早安"));
    assert_eq!(clean_single_reply("你好").as_deref(), Some("你好"));
    assert_eq!(clean_single_reply("\"\"a\"\""), Some("a".to_string()));
    assert_eq!(clean_single_reply("   "), None);
    assert_eq!(clean_single_reply("\"\""), None);
}

#[test]
fn candidate_unfences_and_trims() {
    assert_eq!(json_candidate("  {\"a\":1}\n"), "{\"a\":1}");
    assert_eq!(json_candidate("```json\n{\"a\":1}\n```"), "{\"a\":1}");
    assert_eq!(json_candidate("```json```json\n{}```"), "{}");
    assert_eq!(json_candidate("``"), "``");
    assert_eq!(json_candidate("text ```json {} ```"), "text ```json {} ```");
    assert_eq!(json_candidate(""), "");
}

#[test]
fn texts_of_turns_missing_strings_empty() {
    let items = vec![Some("a".to_string()), None, Some(String::new()), Some("d".to_string())];
    assert_eq!(texts_of(&items), vec!["a", "", "", "d"]);
    assert_eq!(texts_of(&vec![]), Vec::<String>::new());
}
