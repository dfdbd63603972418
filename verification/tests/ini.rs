use llama_preset_proxy::ini::{copy_texts, extend_texts, parse_ini_str, IniError};
use llama_preset_proxy::table::Table;

fn ini(content: &str) -> Table<Table<String>> {
    parse_ini_str(content).expect("parse_ini_str failed")
}

fn value<'a>(r: &'a Table<Table<String>>, section: &str, key: &str) -> &'a str {
    r.get(section).unwrap().get(key).unwrap()
}

#[test]
fn ini_basic_key_value() {
    let r = ini("[section]\nkey = value\n");
    assert_eq!(value(&r, "section", "key"), "value");
}

#[test]
fn ini_global_star_section() {
    let r = ini("[*]\ntemp = 0.7\n");
    assert_eq!(value(&r, "*", "temp"), "0.7");
}

#[test]
fn ini_multiple_sections() {
    let r = ini("[a]\nx = 1\n[b]\ny = 2\n");
    assert_eq!(value(&r, "a", "x"), "1");
    assert_eq!(value(&r, "b", "y"), "2");
}

#[test]
fn ini_inline_semicolon_comment_stripped() {
    let r = ini("[s]\nkey = hello ; world\n");
    assert_eq!(value(&r, "s", "key"), "hello");
}

#[test]
fn ini_inline_hash_comment_stripped() {
    let r = ini("[s]\nkey = hello # world\n");
    assert_eq!(value(&r, "s", "key"), "hello");
}

#[test]
fn ini_full_line_comment_skipped() {
    let r = ini("[s]\n; this is a comment\nkey = val\n");
    assert_eq!(value(&r, "s", "key"), "val");
    assert!(!r.get("s").unwrap().contains_key("; this is a comment"));
}

#[test]
fn ini_equals_in_value() {
    let r = ini("[s]\nkey = a=b=c\n");
    assert_eq!(value(&r, "s", "key"), "a=b=c");
}

#[test]
fn ini_duplicate_keys_last_wins() {
    let r = ini("[s]\nkey = first\nkey = second\n");
    assert_eq!(value(&r, "s", "key"), "second");
}

#[test]
fn ini_keys_before_any_section_go_to_default() {
    let r = ini("orphan = value\n[s]\nkey = val\n");
    assert_eq!(value(&r, "default", "orphan"), "value");
    assert_eq!(value(&r, "s", "key"), "val");
}

#[test]
fn ini_section_name_with_special_chars() {
    let r = ini("[bartowski/model:Q4_K_M]\nx = 1\n");
    assert_eq!(value(&r, "bartowski/model:Q4_K_M", "x"), "1");
}

#[test]
fn ini_empty_section_name_is_error() {
    assert!(parse_ini_str("[real]\na = 1\n[]\nb = 2\n").is_err());
}

#[test]
fn ini_section_header_with_no_closing_bracket_is_error() {
    assert!(parse_ini_str("[good]\na = 1\n[unclosed\nb = 2\n").is_err());
}

#[test]
fn ini_empty_value() {
    let r = ini("[s]\nkey =\n");
    assert_eq!(value(&r, "s", "key"), "");
}

#[test]
fn ini_invalid_key_with_space_is_error() {
    assert!(parse_ini_str("[s]\nbad key = val\n").is_err());
}

#[test]
fn ini_crlf_line_endings() {
    let r = ini("[s]\r\nkey = val\r\n");
    assert_eq!(value(&r, "s", "key"), "val");
}

#[test]
fn ini_section_name_surrounding_whitespace_trimmed() {
    let r = ini("[ * ]\ntemp = 0.5\n[ alias ]\nhf-repo = org/m:Q4\n");
    assert_eq!(value(&r, "*", "temp"), "0.5");
    assert_eq!(value(&r, "alias", "hf-repo"), "org/m:Q4");
    assert!(!r.contains_key("* "));
    assert!(!r.contains_key("alias "));
}

#[test]
fn ini_error_says_where_the_bad_line_starts() {
    assert_eq!(
        parse_ini_str("[s]\nbad key = val\n"),
        Err(IniError { at: 4 })
    );
    assert_eq!(parse_ini_str("= v\n"), Err(IniError { at: 0 }));
}

#[test]
fn ini_errors_have_messages() {
    for text in [
        "[real]\na = 1\n[]\nb = 2\n",
        "[good]\na = 1\n[unclosed\nb = 2\n",
        "[s]\nbad key = val\n",
    ] {
        let e = parse_ini_str(text).unwrap_err();
        assert!(e.message().starts_with("INI parse error: "), "{text:?}");
    }
    assert_eq!(
        parse_ini_str("[real]\na = 1\n[]\nb = 2\n")
            .unwrap_err()
            .message(),
        "INI parse error: no line of the grammar at character 13"
    );
    assert_eq!(
        IniError { at: 0 }.message(),
        "INI parse error: no line of the grammar at character 0"
    );
}

#[test]
fn ini_empty_document_has_the_default_section() {
    let r = ini("");
    assert_eq!(r.len(), 1);
    assert!(r.get("default").unwrap().is_empty());
}

#[test]
fn ini_blanks_comments_and_breaks_make_no_difference() {
    let plain = ini("[s]\nkey = a b\nother = 1\n");
    let dressed = ini("\n# top\n[ \ts ]  ; head\r\nkey\t=a b \t# note\r\n\n  ; x\nother=1");
    assert_eq!(plain, dressed);
}

#[test]
fn ini_section_opened_twice_goes_on() {
    let r = ini("[s]\na = 1\n[t]\nb = 2\n[s]\nc = 3\na = 4\n");
    assert_eq!(value(&r, "s", "a"), "4");
    assert_eq!(value(&r, "s", "c"), "3");
    assert_eq!(r.get("s").unwrap().len(), 2);
}

#[test]
fn ini_keys_and_values_are_tidy() {
    let r = ini("_k.1-x =  two words\t \n");
    assert_eq!(value(&r, "default", "_k.1-x"), "two words");
}

#[test]
fn ini_header_with_rubbish_after_it_is_error() {
    assert_eq!(parse_ini_str("[s] x\n"), Err(IniError { at: 0 }));
}

#[test]
fn texts_are_copied_and_extended() {
    let mut kv = Table::new();
    kv.insert("a".to_string(), "1".to_string());
    kv.insert("b".to_string(), "2".to_string());
    let mut more = Table::new();
    more.insert("b".to_string(), "3".to_string());
    more.insert("c".to_string(), "4".to_string());
    let twin = copy_texts(&kv);
    extend_texts(&mut kv, &more);
    assert_eq!(kv.get("a"), Some(&"1".to_string()));
    assert_eq!(kv.get("b"), Some(&"3".to_string()));
    assert_eq!(kv.get("c"), Some(&"4".to_string()));
    assert_eq!(twin.get("b"), Some(&"2".to_string()));
    assert_eq!(twin.len(), 2);
}
