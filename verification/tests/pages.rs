use google_img_translate::codec::{decode_image, encode_image, eval_str, string_or_json};
use google_img_translate::lang::{choose_lang, source_langs, target_langs, TARGET_LANGS};
use google_img_translate::page::{
    page_url, read_extraction, upload_script, wait_for_input, Extracted, InputWait, EXTRACT_JS,
    INPUT_PRESENT_JS, UPLOAD_HEAD, UPLOAD_MIDDLE, UPLOAD_TAIL,
};
use google_img_translate::text::{chain, decimal_text, same_text, starts_with, strip_prefix, trim};

#[test]
fn numbers_are_written_in_decimal() {
    assert_eq!(decimal_text(0), "0");
    assert_eq!(decimal_text(7), "7");
    assert_eq!(decimal_text(10), "10");
    assert_eq!(decimal_text(1024), "1024");
    assert_eq!(decimal_text(usize::MAX), usize::MAX.to_string());
}

#[test]
fn prefixes_are_found_and_removed() {
    assert!(starts_with("OK:1", "OK"));
    assert!(starts_with("OK", ""));
    assert!(!starts_with("O", "OK"));
    assert_eq!(strip_prefix("B64:图", "B64:"), Some("图".to_string()));
    assert_eq!(strip_prefix("B64", "B64:"), None);
    assert!(same_text("YES", "YES") && !same_text("YES", "YES ") && !same_text("NO", "YES"));
    assert_eq!(chain("a", "b"), "ab");
}

#[test]
fn blanks_are_the_white_space_of_unicode() {
    let blanks = [
        0x9, 0xa, 0xb, 0xc, 0xd, 0x20, 0x85, 0xa0, 0x1680, 0x2000, 0x2001, 0x2002, 0x2003, 0x2004,
        0x2005, 0x2006, 0x2007, 0x2008, 0x2009, 0x200a, 0x2028, 0x2029, 0x202f, 0x205f, 0x3000,
    ];
    let found: Vec<u32> = (0..0x3400u32)
        .chain([0xfeff, 0x1f600, 0x10ffff])
        .filter(|u| trim(&char::from_u32(*u).unwrap().to_string()).is_empty())
        .collect();
    assert_eq!(found, blanks);
}

#[test]
fn blanks_are_trimmed_at_both_ends() {
    assert_eq!(trim("  a b \t\n"), "a b");
    assert_eq!(trim("\u{3000}路径\u{00A0}"), "路径");
    assert_eq!(trim(" \t "), "");
    assert_eq!(trim(""), "");
}

#[test]
fn base64_is_the_standard_notation() {
    assert_eq!(encode_image(&b"hello world~".to_vec()), "aGVsbG8gd29ybGR+");
    assert_eq!(encode_image(&vec![0xff]), "/w==");
    assert_eq!(encode_image(&Vec::new()), "");
    assert_eq!(decode_image("aGVsbG8gd29ybGR+"), Some(b"hello world~".to_vec()));
    assert_eq!(decode_image("/w=="), Some(vec![0xff]));
}

#[test]
fn what_is_no_base64_is_refused() {
    assert_eq!(decode_image("/w"), None);
    assert_eq!(decode_image("a b c"), None);
    assert_eq!(decode_image("图片"), None);
    assert_eq!(decode_image("/x=="), None);
}

#[test]
fn base64_reads_back_as_the_same_bytes() {
    for len in 0..300usize {
        let bytes: Vec<u8> = (0..len).map(|i| (i * 37 % 256) as u8).collect();
        let text = encode_image(&bytes);
        assert!(text.chars().all(|c| c.is_ascii_alphanumeric() || "+/=".contains(c)));
        assert_eq!(decode_image(&text), Some(bytes));
    }
}

#[test]
fn a_json_string_stands_for_what_it_holds() {
    assert_eq!(eval_str(&Some("\"YES\"".to_string())), "YES");
    assert_eq!(eval_str(&Some("\"a\\n\\u56fe\"".to_string())), "a\n图");
    assert_eq!(eval_str(&Some("\"\"".to_string())), "");
}

#[test]
fn other_json_stands_for_itself() {
    assert_eq!(eval_str(&Some("123".to_string())), "123");
    assert_eq!(eval_str(&Some("{\"a\":\"b\"}".to_string())), "{\"a\":\"b\"}");
    assert_eq!(eval_str(&Some("null".to_string())), "null");
    assert_eq!(eval_str(&Some("\"open".to_string())), "\"open");
    assert_eq!(eval_str(&None), "");
    assert_eq!(string_or_json(None, "1"), "1");
    assert_eq!(string_or_json(Some("x".to_string()), "\"x\""), "x");
}

#[test]
fn json_written_by_serde_json_reads_back() {
    for text in ["", "YES", "B64:aGk=", "line\nbreak \"quoted\" \\ 图\u{1}"] {
        let json = serde_json::Value::String(text.to_string()).to_string();
        assert_eq!(eval_str(&Some(json)), text);
    }
}

#[test]
fn the_page_address_carries_the_languages() {
    assert_eq!(
        page_url("auto", "zh-CN"),
        "https://translate.google.com/?sl=auto&tl=zh-CN&op=images"
    );
}

#[test]
fn the_upload_script_carries_the_image_and_its_type() {
    let script = upload_script("aGk=", "image/png");
    assert!(script.contains("const b64 = \"aGk=\";\n"));
    assert!(script.contains("new File([arr], \"image\", {type:\"image/png\"});"));
    assert!(script.starts_with("(async () => {") && script.ends_with("})()"));
    assert_eq!(
        script,
        format!("{}aGk={}image/png{}", UPLOAD_HEAD, UPLOAD_MIDDLE, UPLOAD_TAIL)
    );
}

#[test]
fn the_scripts_are_complete() {
    assert!(EXTRACT_JS.contains("'[[\"wrb.fr\",\"WqWDPb\"'"));
    assert!(EXTRACT_JS.contains("if(c==='\\\\'){esc=true;continue;}"));
    assert_eq!(
        INPUT_PRESENT_JS,
        "(document.querySelector('input[type=file][accept*=\"image\"]') ? 'YES' : 'NO')"
    );
}

#[test]
fn replies_of_the_extraction_are_told_apart() {
    assert!(matches!(read_extraction("B64:aGk="), Extracted::Image(s) if s == "aGk="));
    assert!(matches!(read_extraction("PENDING"), Extracted::Pending));
    assert!(matches!(read_extraction("EMPTY"), Extracted::Empty));
    assert!(matches!(read_extraction("ERRX:boom"), Extracted::ScriptError(s) if s == "ERRX:boom"));
    assert!(matches!(read_extraction("PENDING!"), Extracted::Unknown(s) if s == "PENDING!"));
    assert!(matches!(read_extraction(""), Extracted::Unknown(s) if s.is_empty()));
}

#[test]
fn the_file_input_is_waited_for_until_the_time_is_up() {
    assert!(wait_for_input("YES", 99, 10) == InputWait::Present);
    assert!(wait_for_input("NO", 9, 10) == InputWait::Again);
    assert!(wait_for_input("NO", 10, 10) == InputWait::TimedOut);
    assert!(wait_for_input("", 11, 10) == InputWait::TimedOut);
}

#[test]
fn source_languages_are_auto_and_the_targets() {
    let sources = source_langs();
    assert_eq!(sources.len(), 17);
    assert_eq!(sources[0], ("auto", "自动检测 Auto"));
    assert_eq!(sources[1..], TARGET_LANGS[..]);
    assert_eq!(target_langs(), TARGET_LANGS.to_vec());
    assert_eq!(TARGET_LANGS[3], ("zh-CN", "简体中文"));
    assert_eq!(TARGET_LANGS[15], ("hi", "印地语 Hindi"));
}

#[test]
fn languages_are_chosen_by_code() {
    assert_eq!(choose_lang(&target_langs(), &Some("ja".to_string())), 1);
    assert_eq!(choose_lang(&source_langs(), &Some("ja".to_string())), 2);
    assert_eq!(choose_lang(&target_langs(), &Some("xx".to_string())), 0);
    assert_eq!(choose_lang(&target_langs(), &None), 0);
}
