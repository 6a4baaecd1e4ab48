use std::io::Write;
use std::sync::{Arc, Mutex};
use tracing_microjson::{ClockReading, Double, Event, Field, FieldValue, JsonLayer, Scope};

/// A thread-safe in-memory writer for capturing output in tests.
#[derive(Clone, Default)]
struct TestWriter(Arc<Mutex<Vec<u8>>>);

impl TestWriter {
    fn new() -> Self {
        Self::default()
    }

    fn output(&self) -> String {
        String::from_utf8(self.0.lock().unwrap().clone()).unwrap()
    }
}

impl std::io::Write for TestWriter {
    fn write(&mut self, buf: &[u8]) -> std::io::Result<usize> {
        self.0.lock().unwrap().extend_from_slice(buf);
        Ok(buf.len())
    }

    fn flush(&mut self) -> std::io::Result<()> {
        Ok(())
    }
}

fn parse_line(s: &str) -> serde_json::Value {
    serde_json::from_str(s.trim()).expect("valid JSON")
}

fn field(name: &str, value: FieldValue) -> Field {
    Field { name: name.to_string(), value }
}

fn text(s: &str) -> FieldValue {
    FieldValue::Str(s.to_string())
}

fn double(v: f64) -> FieldValue {
    FieldValue::Float(Double::new(v.to_bits(), &format!("{v}")).expect("number text"))
}

/// An event with the given level and message; the message is the first
/// field, and comes as formatted text.
fn event(level: &str, message: &str, fields: Vec<Field>) -> Event {
    let mut all = vec![field("message", FieldValue::Formatted(message.to_string()))];
    all.extend(fields);
    Event {
        level: level.to_string(),
        fields: all,
        target: "integration".to_string(),
        file: Some("src/main.rs".to_string()),
        line: Some(42),
        thread_id: "ThreadId(1)".to_string(),
        thread_name: Some("main".to_string()),
    }
}

fn info(message: &str, fields: Vec<Field>) -> Event {
    event("INFO", message, fields)
}

/// A span with the given name and the fields it was opened with.
fn span(layer: &JsonLayer<TestWriter>, name: &str, fields: Vec<Field>) -> Scope {
    Scope { name: name.to_string(), fields: layer.on_new_span(&fields) }
}

/// Formats the event and hands the line to the layer's sink in one write.
fn emit_at(layer: &JsonLayer<TestWriter>, clock: &ClockReading, event: &Event, scopes: &[Scope]) {
    let line = layer.on_event(clock, event, scopes);
    let mut sink = layer.make_writer().clone();
    let _ = sink.write_all(&line);
}

fn emit(layer: &JsonLayer<TestWriter>, event: &Event, scopes: &[Scope]) {
    emit_at(layer, &ClockReading::now(), event, scopes);
}

#[test]
fn integration_test_test_event_no_fields() {
    let w = TestWriter::new();
    let layer = JsonLayer::new(w.clone());
    emit(&layer, &info("hello", vec![]), &[]);
    let out = w.output();
    let line = out.trim();
    let v = parse_line(line);
    assert_eq!(v["level"], "INFO");
    assert_eq!(v["fields"]["message"], "hello");
    assert!(v["timestamp"].is_string());
    assert!(v["target"].is_string());
}

#[test]
fn integration_test_test_event_mixed_type_fields() {
    let w = TestWriter::new();
    let layer = JsonLayer::new(w.clone());
    emit(
        &layer,
        &info(
            "msg",
            vec![
                field("count", FieldValue::U64(42u64)),
                field("flag", FieldValue::Bool(true)),
                field("ratio", double(1.5f64)),
                field("name", text("Alice")),
            ],
        ),
        &[],
    );
    let out = w.output();
    let v = parse_line(out.trim());
    assert_eq!(v["fields"]["count"], 42);
    assert_eq!(v["fields"]["flag"], true);
    assert_eq!(v["fields"]["ratio"], 1.5);
    assert_eq!(v["fields"]["name"], "Alice");
    assert_eq!(v["fields"]["message"], "msg");
}

#[test]
fn integration_test_test_flatten_event() {
    let w = TestWriter::new();
    let layer = JsonLayer::new(w.clone()).flatten_event(true);
    emit(&layer, &info("invoke", vec![field("request_id", text("abc-123"))]), &[]);
    let out = w.output();
    let v = parse_line(out.trim());
    // Fields are at top level, not nested under "fields"
    assert_eq!(v["message"], "invoke");
    assert_eq!(v["request_id"], "abc-123");
    assert!(v.get("fields").is_none(), "fields key should not exist");
}

#[test]
fn integration_test_test_event_inside_nested_spans() {
    let w = TestWriter::new();
    let layer = JsonLayer::new(w.clone());
    let outer = span(&layer, "outer", vec![field("req", text("r1"))]);
    let inner = span(&layer, "inner", vec![field("step", FieldValue::U64(2u64))]);
    emit(&layer, &info("processing", vec![]), &[inner, outer]);
    let out = w.output();
    let v = parse_line(out.trim());

    // "span" should be the innermost span
    assert_eq!(v["span"]["name"], "inner");
    assert_eq!(v["span"]["step"], 2);

    // "spans" should list from root to leaf
    let spans = v["spans"].as_array().expect("spans array");
    assert_eq!(spans.len(), 2);
    assert_eq!(spans[0]["name"], "outer");
    assert_eq!(spans[0]["req"], "r1");
    assert_eq!(spans[1]["name"], "inner");
    assert_eq!(spans[1]["step"], 2);
}

#[test]
fn integration_test_test_on_record_span_fields_updated() {
    let w = TestWriter::new();
    let layer = JsonLayer::new(w.clone());
    let mut my_span = span(&layer, "my_span", vec![field("initial", text("yes"))]);
    // Record additional fields after span creation
    layer.on_record(&mut my_span.fields, &[field("extra", text("value"))]);
    emit(&layer, &info("event", vec![]), &[my_span]);
    let out = w.output();
    let v = parse_line(out.trim());
    assert_eq!(v["span"]["name"], "my_span");
    assert_eq!(v["span"]["initial"], "yes");
    assert_eq!(v["span"]["extra"], "value");
}

#[test]
fn integration_test_test_optional_fields_filename_line() {
    let w = TestWriter::new();
    let layer = JsonLayer::new(w.clone()).with_file(true).with_line_number(true);
    emit(&layer, &info("with location", vec![]), &[]);
    let out = w.output();
    let v = parse_line(out.trim());
    assert!(v["filename"].is_string(), "filename field should be present");
    assert!(v["line_number"].is_number(), "line_number field should be present");
}

#[test]
fn integration_test_test_target_hidden() {
    let w = TestWriter::new();
    let layer = JsonLayer::new(w.clone()).with_target(false);
    emit(&layer, &info("no target", vec![]), &[]);
    let out = w.output();
    let v = parse_line(out.trim());
    assert!(v.get("target").is_none(), "target should be absent");
}

#[test]
fn integration_test_test_thread_id_present() {
    let w = TestWriter::new();
    let layer = JsonLayer::new(w.clone()).with_thread_ids(true);
    emit(&layer, &info("with thread id", vec![]), &[]);
    let v = parse_line(w.output().trim());
    assert!(
        v["threadId"].is_string(),
        "threadId should be a string, got: {}",
        v["threadId"]
    );
    let tid = v["threadId"].as_str().unwrap();
    assert!(
        tid.starts_with("ThreadId("),
        "threadId should start with 'ThreadId(', got: {tid}"
    );
}

#[test]
fn integration_test_test_thread_name_present() {
    let w = TestWriter::new();
    let layer = JsonLayer::new(w.clone()).with_thread_names(true);
    emit(&layer, &info("with thread name", vec![]), &[]);
    let v = parse_line(w.output().trim());
    assert!(
        v["threadName"].is_string(),
        "threadName should be a string, got: {}",
        v["threadName"]
    );
}

#[test]
fn integration_test_test_thread_fields_absent_by_default() {
    let w = TestWriter::new();
    let layer = JsonLayer::new(w.clone());
    emit(&layer, &info("default config", vec![]), &[]);
    let v = parse_line(w.output().trim());
    assert!(v.get("threadId").is_none(), "threadId should be absent by default");
    assert!(v.get("threadName").is_none(), "threadName should be absent by default");
}

#[test]
fn integration_test_test_thread_id_and_name_together() {
    let w = TestWriter::new();
    let layer = JsonLayer::new(w.clone()).with_thread_ids(true).with_thread_names(true);
    emit(&layer, &info("both", vec![]), &[]);
    let v = parse_line(w.output().trim());
    assert!(v["threadId"].is_string());
    assert!(v["threadName"].is_string());
}

#[test]
fn integration_test_test_all_log_levels() {
    let cases: &[(&str, Event)] = &[
        ("TRACE", event("TRACE", "msg", vec![])),
        ("DEBUG", event("DEBUG", "msg", vec![])),
        ("INFO", event("INFO", "msg", vec![])),
        ("WARN", event("WARN", "msg", vec![])),
        ("ERROR", event("ERROR", "msg", vec![])),
    ];
    for (expected_level, emitted) in cases {
        let w = TestWriter::new();
        let layer = JsonLayer::new(w.clone());
        emit(&layer, emitted, &[]);
        let out = w.output();
        let v = parse_line(out.trim());
        assert_eq!(v["level"], *expected_level, "level mismatch for {expected_level}");
    }
}

#[test]
fn integration_test_test_i64_negative_field() {
    let w = TestWriter::new();
    let layer = JsonLayer::new(w.clone());
    emit(&layer, &info("negative int", vec![field("offset", FieldValue::I64(-42i64))]), &[]);
    let v = parse_line(w.output().trim());
    assert_eq!(v["fields"]["offset"], -42);
    assert_eq!(v["fields"]["message"], "negative int");
}

#[test]
fn integration_test_test_record_u128_field() {
    let w = TestWriter::new();
    let layer = JsonLayer::new(w.clone());
    emit(
        &layer,
        &info(
            "u128 max",
            vec![field(
                "big",
                FieldValue::U128(340_282_366_920_938_463_463_374_607_431_768_211_455u128),
            )],
        ),
        &[],
    );
    let v = parse_line(w.output().trim());
    // u128 values are emitted as JSON strings since JSON numbers can't represent the full range
    assert_eq!(v["fields"]["big"], "340282366920938463463374607431768211455");
    assert_eq!(v["fields"]["message"], "u128 max");
}

#[test]
fn integration_test_test_record_i128_field() {
    let w = TestWriter::new();
    let layer = JsonLayer::new(w.clone());
    emit(
        &layer,
        &info(
            "i128 min",
            vec![field(
                "neg",
                FieldValue::I128(-170_141_183_460_469_231_731_687_303_715_884_105_728i128),
            )],
        ),
        &[],
    );
    let v = parse_line(w.output().trim());
    assert_eq!(v["fields"]["neg"], "-170141183460469231731687303715884105728");
    assert_eq!(v["fields"]["message"], "i128 min");
}

#[test]
fn integration_test_test_record_debug_field() {
    #[derive(Debug)]
    #[allow(dead_code)]
    struct Point {
        x: i32,
        y: i32,
    }

    let w = TestWriter::new();
    let layer = JsonLayer::new(w.clone());
    let p = Point { x: 1, y: 2 };
    emit(
        &layer,
        &info("debug field", vec![field("point", FieldValue::Formatted(format!("{:?}", p)))]),
        &[],
    );
    let v = parse_line(w.output().trim());
    assert_eq!(v["fields"]["point"], "Point { x: 1, y: 2 }");
    assert_eq!(v["fields"]["message"], "debug field");
}

#[test]
fn integration_test_test_record_error_field() {
    #[derive(Debug)]
    struct MyError(String);
    impl std::fmt::Display for MyError {
        fn fmt(&self, f: &mut std::fmt::Formatter<'_>) -> std::fmt::Result {
            f.write_str(&self.0)
        }
    }
    impl std::error::Error for MyError {}

    let w = TestWriter::new();
    let layer = JsonLayer::new(w.clone());
    let err = MyError("something failed".to_string());
    let as_error = &err as &dyn std::error::Error;
    emit(
        &layer,
        &event(
            "ERROR",
            "failure",
            vec![field("err", FieldValue::Formatted(as_error.to_string()))],
        ),
        &[],
    );
    let v = parse_line(w.output().trim());
    assert_eq!(v["fields"]["err"], "something failed");
    assert_eq!(v["fields"]["message"], "failure");
    assert_eq!(v["level"], "ERROR");
}

#[test]
fn integration_test_test_event_outside_span_has_no_span_fields() {
    let w = TestWriter::new();
    let layer = JsonLayer::new(w.clone());
    emit(&layer, &info("no span context", vec![]), &[]);
    let v = parse_line(w.output().trim());
    assert!(v.get("span").is_none(), "span key must be absent outside any span");
    assert!(v.get("spans").is_none(), "spans key must be absent outside any span");
}

#[test]
fn integration_test_test_flatten_event_with_span() {
    let w = TestWriter::new();
    let layer = JsonLayer::new(w.clone()).flatten_event(true);
    let my_span = span(&layer, "my_span", vec![field("req_id", text("xyz"))]);
    emit(&layer, &info("flat with span", vec![field("extra", text("val"))]), &[my_span]);
    let v = parse_line(w.output().trim());
    // Event fields must be at top level
    assert_eq!(v["message"], "flat with span");
    assert_eq!(v["extra"], "val");
    assert!(v.get("fields").is_none(), "fields key must not exist when flattened");
    // Span context must still be present
    assert_eq!(v["span"]["name"], "my_span");
    assert_eq!(v["span"]["req_id"], "xyz");
    let spans = v["spans"].as_array().expect("spans array");
    assert_eq!(spans.len(), 1);
    assert_eq!(spans[0]["name"], "my_span");
    assert_eq!(spans[0]["req_id"], "xyz");
}

#[test]
fn integration_test_test_single_span() {
    let w = TestWriter::new();
    let layer = JsonLayer::new(w.clone());
    let solo = span(&layer, "solo", vec![field("key", text("v"))]);
    emit(&layer, &info("inside single span", vec![]), &[solo]);
    let v = parse_line(w.output().trim());
    assert_eq!(v["span"]["name"], "solo");
    assert_eq!(v["span"]["key"], "v");
    let spans = v["spans"].as_array().expect("spans array");
    assert_eq!(spans.len(), 1, "spans must have exactly one entry");
    assert_eq!(spans[0]["name"], "solo");
    assert_eq!(spans[0]["key"], "v");
}

#[test]
fn integration_test_test_span_with_no_fields() {
    let w = TestWriter::new();
    let layer = JsonLayer::new(w.clone());
    let empty_span = span(&layer, "empty_span", vec![]);
    emit(&layer, &info("inside no-field span", vec![]), &[empty_span]);
    let v = parse_line(w.output().trim());
    // span object should have only "name": no extra keys from an empty field fragment
    let span_obj = v["span"].as_object().expect("span object");
    assert_eq!(span_obj.len(), 1, "span object must have only 'name'");
    assert_eq!(v["span"]["name"], "empty_span");
    let spans = v["spans"].as_array().expect("spans array");
    let span0_obj = spans[0].as_object().expect("spans[0] object");
    assert_eq!(span0_obj.len(), 1, "spans[0] must have only 'name'");
    assert_eq!(spans[0]["name"], "empty_span");
}

#[test]
fn integration_test_test_without_time_no_timestamp_field() {
    let w = TestWriter::new();
    let layer = JsonLayer::new(w.clone());
    emit_at(&layer, &ClockReading::Disabled, &info("no timestamp", vec![]), &[]);
    let v = parse_line(w.output().trim());
    assert!(v.get("timestamp").is_none(), "timestamp should be absent with without_time()");
    assert_eq!(v["level"], "INFO");
    assert_eq!(v["fields"]["message"], "no timestamp");
}

#[test]
fn integration_test_test_custom_timer() {
    let fixed_time = ClockReading::Custom("2020-01-01T00:00:00Z".to_string());

    let w = TestWriter::new();
    let layer = JsonLayer::new(w.clone());
    emit_at(&layer, &fixed_time, &info("fixed", vec![]), &[]);
    let v = parse_line(w.output().trim());
    assert_eq!(v["timestamp"], "2020-01-01T00:00:00Z");
    assert_eq!(v["fields"]["message"], "fixed");
}

#[test]
fn integration_test_test_with_timer_unit_is_without_time() {
    let w = TestWriter::new();
    let layer = JsonLayer::new(w.clone());
    emit_at(&layer, &ClockReading::Disabled, &info("unit timer", vec![]), &[]);
    let v = parse_line(w.output().trim());
    assert!(v.get("timestamp").is_none(), "with_timer(()) should omit timestamp");
    assert_eq!(v["level"], "INFO");
    assert_eq!(v["fields"]["message"], "unit timer");
}

#[test]
fn integration_test_test_builder_chaining_with_timer() {
    let fixed_time = ClockReading::Custom("FIXED".to_string());

    let w = TestWriter::new();
    let layer = JsonLayer::new(w.clone()).with_target(false).with_file(false).flatten_event(true);
    emit_at(&layer, &fixed_time, &info("chained", vec![]), &[]);
    let v = parse_line(w.output().trim());
    assert_eq!(v["timestamp"], "FIXED");
    assert_eq!(v["message"], "chained");
    assert!(v.get("target").is_none());
    assert!(v.get("fields").is_none());
}

#[test]
fn integration_test_test_default_timer_produces_rfc3339() {
    let w = TestWriter::new();
    let layer = JsonLayer::new(w.clone());
    emit(&layer, &info("default timer", vec![]), &[]);
    let v = parse_line(w.output().trim());
    let ts = v["timestamp"].as_str().expect("timestamp should be a string");
    // RFC 3339 with microsecond precision: YYYY-MM-DDTHH:MM:SS.xxxxxxZ
    assert!(ts.ends_with('Z'), "timestamp should end with Z, got: {ts}");
    assert_eq!(ts.len(), 27, "timestamp should be 27 chars, got: {ts}");
    assert_eq!(&ts[10..11], "T", "timestamp should have T separator");
}

#[test]
fn integration_test_test_without_time_valid_json_flat() {
    let w = TestWriter::new();
    let layer = JsonLayer::new(w.clone()).flatten_event(true);
    emit_at(&layer, &ClockReading::Disabled, &info("flat no time", vec![field("key", text("val"))]), &[]);
    let v = parse_line(w.output().trim());
    assert!(v.get("timestamp").is_none());
    assert_eq!(v["level"], "INFO");
    assert_eq!(v["message"], "flat no time");
    assert_eq!(v["key"], "val");
}
