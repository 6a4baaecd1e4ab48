use std::time::{Duration, SystemTime};
use tracing_microjson::{escape_json, format_timestamp, Double, JsonWriter};

fn double(v: f64) -> Double {
    Double::new(v.to_bits(), &format!("{v}")).expect("number text")
}

fn finish(jw: JsonWriter) -> String {
    String::from_utf8(jw.into_vec()).expect("utf-8")
}

#[test]
fn test_escape_json_basic() {
    assert_eq!(escape_json("hello"), "hello");
    assert_eq!(escape_json("say \"hi\""), r#"say \"hi\""#);
    assert_eq!(escape_json("back\\slash"), r#"back\\slash"#);
    assert_eq!(escape_json(""), "");
}

#[test]
fn test_escape_json_control_chars() {
    assert_eq!(escape_json("\n"), r"\n");
    assert_eq!(escape_json("\r"), r"\r");
    assert_eq!(escape_json("\t"), r"\t");
    assert_eq!(escape_json("\x08"), r"\b");
    assert_eq!(escape_json("\x0C"), r"\f");
    assert_eq!(escape_json("\x01"), r"\u0001");
    assert_eq!(escape_json("\x1F"), r"\u001f");
}

#[test]
fn test_escape_json_unicode_passthrough() {
    assert_eq!(escape_json("café"), "café");
    assert_eq!(escape_json("日本語"), "日本語");
}

#[test]
fn test_f64_edge_cases() {
    let mut jw = JsonWriter::new();
    jw.val_f64(&double(f64::NAN));
    assert_eq!(finish(jw), "null");

    let mut jw = JsonWriter::new();
    jw.val_f64(&double(f64::INFINITY));
    assert_eq!(finish(jw), "null");

    let mut jw = JsonWriter::new();
    jw.val_f64(&double(f64::NEG_INFINITY));
    assert_eq!(finish(jw), "null");

    let mut jw = JsonWriter::new();
    jw.val_f64(&double(-0.0_f64));
    let s = finish(jw);
    assert!(s == "-0" || s == "0" || s == "-0.0" || s == "0.0", "got: {s}");

    let mut jw = JsonWriter::new();
    jw.val_f64(&double(3.14));
    let s = finish(jw);
    assert!(s.contains("3.14"), "got: {s}");
}

#[test]
fn test_timestamp_format() {
    let epoch = SystemTime::UNIX_EPOCH;
    let s = format_timestamp(epoch);
    assert_eq!(s, "1970-01-01T00:00:00.000000Z");

    let t = SystemTime::UNIX_EPOCH + Duration::from_secs(1771588800);
    let s = format_timestamp(t);
    assert_eq!(s, "2026-02-20T12:00:00.000000Z");
}

#[test]
fn test_timestamp_microsecond_precision() {
    let t = SystemTime::UNIX_EPOCH + Duration::from_micros(1_771_588_800 * 1_000_000 + 123_456);
    let s = format_timestamp(t);
    assert_eq!(s, "2026-02-20T12:00:00.123456Z");

    let t = SystemTime::UNIX_EPOCH + Duration::from_micros(1);
    let s = format_timestamp(t);
    assert_eq!(s, "1970-01-01T00:00:00.000001Z");

    let t = SystemTime::UNIX_EPOCH + Duration::from_micros(999_999);
    let s = format_timestamp(t);
    assert_eq!(s, "1970-01-01T00:00:00.999999Z");
}
