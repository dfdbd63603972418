use llama_preset_proxy::identity::compute_model_id;
use llama_preset_proxy::ini::parse_ini_str;
use llama_preset_proxy::keys::is_truthy;
use llama_preset_proxy::table::Table;
use llama_preset_proxy::text::{
    chars_of, decimal_text, joined, same_text, slice_text, text_order, without_prefix, without_suffix, TextOrder,
};

#[test]
fn texts_are_ordered_by_code_points() {
    assert_eq!(text_order("a", "b"), TextOrder::Before);
    assert_eq!(text_order("hf", "hf-repo"), TextOrder::Before);
    assert_eq!(text_order("hfr", "hf-repo"), TextOrder::After);
    assert_eq!(text_order("", ""), TextOrder::Same);
    assert_eq!(text_order("é", "z"), TextOrder::After);
    assert!(same_text("model", "model"));
    assert!(!same_text("model", "models"));
}

#[test]
fn texts_are_cut_and_joined() {
    let chars = chars_of("añb");
    assert_eq!(chars, vec!['a', 'ñ', 'b']);
    assert_eq!(slice_text(&chars, 1, 3), "ñb");
    assert_eq!(slice_text(&chars, 2, 2), "");
    assert_eq!(joined("a", "b"), "ab");
    assert_eq!(without_prefix("/v1/x", "/v1"), Some("/x".to_string()));
    assert_eq!(without_prefix("/v", "/v1"), None);
    assert_eq!(without_suffix("x/v1", "/v1"), Some("x".to_string()));
    assert_eq!(without_suffix("x/v2", "/v1"), None);
}

#[test]
fn numbers_are_written_in_decimal() {
    assert_eq!(decimal_text(0), "0");
    assert_eq!(decimal_text(9), "9");
    assert_eq!(decimal_text(10), "10");
    assert_eq!(decimal_text(1090), "1090");
    assert_eq!(decimal_text(usize::MAX), usize::MAX.to_string());
}

#[test]
fn all_white_space_is_trimmed() {
    let spaces = [
        '\u{9}', '\u{a}', '\u{b}', '\u{c}', '\u{d}', '\u{20}', '\u{85}', '\u{a0}', '\u{1680}',
        '\u{2000}', '\u{2001}', '\u{2002}', '\u{2003}', '\u{2004}', '\u{2005}', '\u{2006}',
        '\u{2007}', '\u{2008}', '\u{2009}', '\u{200a}', '\u{2028}', '\u{2029}', '\u{202f}',
        '\u{205f}', '\u{3000}',
    ];
    for c in spaces {
        let mut kv = Table::new();
        kv.insert("m".to_string(), format!("{c}x {c}y{c}{c}"));
        assert_eq!(compute_model_id(&kv), format!("model=x {c}y"));
        if c != '\u{a}' && c != '\u{d}' {
            let r = parse_ini_str(&format!("[{c}x{c}]\n")).unwrap();
            assert!(r.contains_key("x"));
        }
    }
    for c in ['\u{0}', '\u{200b}', '\u{feff}', '\u{180e}', 'x'] {
        let mut kv = Table::new();
        kv.insert("m".to_string(), format!("{c}"));
        assert_eq!(compute_model_id(&kv), format!("model={c}"));
    }
}

#[test]
fn case_is_ignored_beyond_ascii() {
    assert!(is_truthy("oN"));
    assert!(!is_truthy("ÓN"));
    assert!(!is_truthy("TRUÉ"));
}

#[test]
fn tables_keep_one_value_per_key_in_order() {
    let mut t: Table<u8> = Table::new();
    assert!(t.is_empty());
    t.insert("b".to_string(), 1);
    t.insert("a".to_string(), 2);
    t.insert("c".to_string(), 3);
    t.insert("b".to_string(), 4);
    assert_eq!(t.len(), 3);
    assert_eq!(t.key_at(0), "a");
    assert_eq!(*t.value_at(1), 4);
    assert_eq!(t.remove("a"), Some(2));
    assert_eq!(t.remove("a"), None);
    assert!(!t.contains_key("a"));
    assert_eq!(
        t.into_entries(),
        vec![("b".to_string(), 4), ("c".to_string(), 3)]
    );
}
