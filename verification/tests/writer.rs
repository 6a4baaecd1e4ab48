use std::fmt::Write;
use tracing_microjson::{escape_json, escape_json_into, Double, JsonWriter};

fn written(jw: JsonWriter) -> String {
    String::from_utf8(jw.into_vec()).expect("utf-8")
}

fn double(v: f64) -> Double {
    Double::new(v.to_bits(), &format!("{v}")).expect("number text")
}

fn double_token(v: f64) -> String {
    let mut jw = JsonWriter::new();
    jw.val_f64(&double(v));
    written(jw)
}

fn string_token(s: &str) -> String {
    let mut jw = JsonWriter::new();
    jw.val_str(s);
    written(jw)
}

#[test]
fn strings_read_back_unchanged() {
    let mut cases: Vec<String> = vec![
        String::new(),
        "hello".to_string(),
        "say \"hi\"".to_string(),
        "back\\slash".to_string(),
        "a/b".to_string(),
        "line\nbreak\r\ttab".to_string(),
        "café 日本語 \u{1F600}".to_string(),
        "\u{7f}\u{80}\u{7ff}\u{800}\u{ffff}\u{10000}\u{10ffff}".to_string(),
        "\\u0041 is not an escape here".to_string(),
    ];
    for code in 0u8..0x80 {
        cases.push((code as char).to_string());
        cases.push(format!("x{}y", code as char));
    }
    for s in cases {
        let token = string_token(&s);
        let parsed: String = serde_json::from_str(&token).expect("a JSON string");
        assert_eq!(parsed, s, "token: {token}");
    }
}

#[test]
fn plain_characters_pass_unchanged() {
    for c in [' ', '!', '#', '[', ']', '~', '\u{7f}', '\u{80}', 'é', '\u{7ff}', '\u{800}', '日',
        '\u{ffff}', '\u{10000}', '\u{1F600}', '\u{10ffff}']
    {
        let s = c.to_string();
        assert_eq!(escape_json(&s), s);
    }
    assert_eq!(escape_json("café"), "café");
    assert_eq!(escape_json("日本語"), "日本語");
}

#[test]
fn every_escape_has_its_form() {
    assert_eq!(escape_json("\""), "\\\"");
    assert_eq!(escape_json("\\"), "\\\\");
    assert_eq!(escape_json("\u{8}"), "\\b");
    assert_eq!(escape_json("\u{c}"), "\\f");
    assert_eq!(escape_json("\n"), "\\n");
    assert_eq!(escape_json("\r"), "\\r");
    assert_eq!(escape_json("\t"), "\\t");
    assert_eq!(escape_json("\u{0}"), "\\u0000");
    assert_eq!(escape_json("\u{b}"), "\\u000b");
    assert_eq!(escape_json("\u{e}"), "\\u000e");
    assert_eq!(escape_json("\u{10}"), "\\u0010");
    assert_eq!(escape_json("\u{1a}"), "\\u001a");
    assert_eq!(escape_json("\u{1f}"), "\\u001f");
    assert_eq!(escape_json("/"), "/");
}

#[test]
fn escapes_between_plain_runs() {
    assert_eq!(escape_json("ab\"cd\\ef\ngh"), "ab\\\"cd\\\\ef\\ngh");
    assert_eq!(escape_json("\"\""), "\\\"\\\"");
    assert_eq!(escape_json("\"end"), "\\\"end");
    assert_eq!(escape_json("start\""), "start\\\"");
    assert_eq!(escape_json("é\té"), "é\\té");
}

#[test]
fn escape_into_appends() {
    let mut buf = b"x=".to_vec();
    escape_json_into("a\"b", &mut buf);
    assert_eq!(buf, b"x=a\\\"b");
    escape_json_into("", &mut buf);
    assert_eq!(buf, b"x=a\\\"b");
}

#[test]
fn non_finite_doubles_are_null() {
    assert_eq!(double_token(f64::NAN), "null");
    assert_eq!(double_token(-f64::NAN), "null");
    assert_eq!(double_token(f64::INFINITY), "null");
    assert_eq!(double_token(f64::NEG_INFINITY), "null");
}

#[test]
fn finite_doubles_are_numbers_with_a_point() {
    assert_eq!(double_token(-0.0), "-0.0");
    assert_eq!(double_token(0.0), "0.0");
    assert_eq!(double_token(1.0), "1.0");
    assert_eq!(double_token(1.5), "1.5");
    assert_eq!(double_token(-42.0), "-42.0");
    assert_eq!(double_token(3.14), "3.14");
    assert_eq!(double_token(0.1), "0.1");
    assert_eq!(double_token(1e21), "1000000000000000000000.0");
    assert_eq!(double_token(f64::MIN_POSITIVE), format!("{}", f64::MIN_POSITIVE));
    for v in [-0.0, 0.1, 1.0, 2.5e-8, 1e21, 123456.789e3] {
        let token = double_token(v);
        let parsed: f64 = serde_json::from_str(&token).expect("a JSON number");
        assert_eq!(parsed.to_bits(), v.to_bits(), "token: {token}");
    }
    for v in [f64::MAX, f64::MIN, f64::MIN_POSITIVE, f64::EPSILON] {
        let token = double_token(v);
        assert!(token.contains('.'), "token: {token}");
        let parsed: f64 = token.parse().expect("a number");
        assert_eq!(parsed.to_bits(), v.to_bits(), "token: {token}");
    }
}

#[test]
fn double_text_with_an_exponent_is_kept() {
    let d = Double::new(1e21f64.to_bits(), "1e21").expect("number text");
    let mut jw = JsonWriter::new();
    jw.val_f64(&d);
    assert_eq!(written(jw), "1e21");

    let d = Double::new(1e21f64.to_bits(), "1E21").expect("number text");
    let mut jw = JsonWriter::new();
    jw.val_f64(&d);
    assert_eq!(written(jw), "1E21");
}

#[test]
fn double_takes_number_text_only() {
    assert!(Double::new(1.5f64.to_bits(), "1.5").is_some());
    assert!(Double::new(1.5f64.to_bits(), "").is_none());
    assert!(Double::new(1.5f64.to_bits(), "1.5,").is_none());
    assert!(Double::new(1.5f64.to_bits(), "one").is_none());
    assert!(Double::new(1.5f64.to_bits(), "1.5 ").is_none());
    assert!(Double::new(f64::NAN.to_bits(), "NaN").is_some());
    assert!(Double::new(f64::INFINITY.to_bits(), "inf").is_some());
    assert!(Double::new(f64::NEG_INFINITY.to_bits(), "").is_some());
    assert!(double(1.5).is_finite());
    assert!(double(-0.0).is_finite());
    assert!(!double(f64::NAN).is_finite());
    assert!(!double(f64::INFINITY).is_finite());
}

#[test]
fn integers_in_decimal() {
    let mut jw = JsonWriter::new();
    jw.val_u64(0);
    jw.comma();
    jw.val_u64(7);
    jw.comma();
    jw.val_u64(10);
    jw.comma();
    jw.val_u64(u64::MAX);
    jw.comma();
    jw.val_i64(0);
    jw.comma();
    jw.val_i64(-1);
    jw.comma();
    jw.val_i64(i64::MAX);
    jw.comma();
    jw.val_i64(i64::MIN);
    assert_eq!(
        written(jw),
        "0,7,10,18446744073709551615,0,-1,9223372036854775807,-9223372036854775808"
    );
}

#[test]
fn wide_integers_are_quoted() {
    let mut jw = JsonWriter::new();
    jw.val_i128(-170_141_183_460_469_231_731_687_303_715_884_105_728i128);
    assert_eq!(written(jw), "\"-170141183460469231731687303715884105728\"");

    let mut jw = JsonWriter::new();
    jw.val_i128(i128::MAX);
    assert_eq!(written(jw), "\"170141183460469231731687303715884105727\"");

    let mut jw = JsonWriter::new();
    jw.val_u128(u128::MAX);
    assert_eq!(written(jw), "\"340282366920938463463374607431768211455\"");

    let mut jw = JsonWriter::new();
    jw.val_u128(0);
    jw.val_i128(0);
    jw.val_i128(-5);
    assert_eq!(written(jw), "\"0\"\"0\"\"-5\"");
}

#[test]
fn structure_tokens() {
    let mut jw = JsonWriter::new();
    jw.obj_start();
    jw.key("a");
    jw.arr_start();
    jw.val_bool(true);
    jw.comma();
    jw.val_bool(false);
    jw.comma();
    jw.val_null();
    jw.arr_end();
    jw.comma();
    jw.raw(b"\"b\":1");
    jw.obj_end();
    jw.finish_line();
    assert_eq!(jw.as_bytes(), b"{\"a\":[true,false,null],\"b\":1}\n");
    assert_eq!(jw.len(), 30);
}

#[test]
fn keys_are_written_as_they_are() {
    let mut jw = JsonWriter::new();
    jw.key("plain");
    jw.key("with\"quote");
    jw.key("");
    assert_eq!(written(jw), "\"plain\":\"with\"quote\":\"\":");
}

#[test]
fn writers_start_from_what_they_are_given() {
    assert_eq!(JsonWriter::new().into_vec(), Vec::<u8>::new());
    assert_eq!(JsonWriter::default().into_vec(), Vec::<u8>::new());
    assert_eq!(JsonWriter::from_vec(b"abc".to_vec()).into_vec(), b"abc");
    let mut jw = JsonWriter::continuing(b"\"a\":1");
    jw.comma();
    jw.key("b");
    jw.val_u64(2);
    assert_eq!(jw.as_bytes(), b"\"a\":1,\"b\":2");
}

#[test]
fn truncate_cuts_the_tail() {
    let mut jw = JsonWriter::from_vec(b"abcdef".to_vec());
    jw.truncate(10);
    assert_eq!(jw.as_bytes(), b"abcdef");
    jw.truncate(6);
    assert_eq!(jw.as_bytes(), b"abcdef");
    jw.truncate(2);
    assert_eq!(jw.as_bytes(), b"ab");
    jw.push_byte(b'!');
    assert_eq!(jw.as_bytes(), b"ab!");
    jw.truncate(0);
    assert_eq!(jw.len(), 0);
}

#[test]
fn formatted_values_are_escaped_strings() {
    #[derive(Debug)]
    #[allow(dead_code)]
    struct Point {
        x: i32,
        label: &'static str,
    }

    let mut jw = JsonWriter::new();
    jw.val_debug(&Point { x: 1, label: "a\"b" });
    assert_eq!(written(jw), "\"Point { x: 1, label: \\\"a\\\\\\\"b\\\" }\"");

    let mut jw = JsonWriter::new();
    jw.val_display(&"two\nlines");
    assert_eq!(written(jw), "\"two\\nlines\"");

    let mut jw = JsonWriter::new();
    jw.val_display(&12.5f64);
    assert_eq!(written(jw), "\"12.5\"");

    let mut jw = JsonWriter::new();
    jw.val_debug(&"日本語");
    assert_eq!(written(jw), "\"\\\"日本語\\\"\"");
}

#[test]
fn a_formatter_that_fails_leaves_what_it_wrote() {
    struct Broken;
    impl std::fmt::Display for Broken {
        fn fmt(&self, f: &mut std::fmt::Formatter<'_>) -> std::fmt::Result {
            f.write_str("so far")?;
            Err(std::fmt::Error)
        }
    }

    let mut jw = JsonWriter::new();
    jw.val_display(&Broken);
    assert_eq!(written(jw), "\"so far\"");
}

#[test]
fn the_writer_is_a_text_sink() {
    let mut jw = JsonWriter::new();
    jw.write_str("a\"b").unwrap();
    jw.write_char('-').unwrap();
    jw.write_str("日本").unwrap();
    assert_eq!(written(jw), "a\"b-日本");
}
