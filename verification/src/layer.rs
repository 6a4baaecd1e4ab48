//! The assembler: one JSON object per event, one event per line.
//!
//! A [`JsonLayer`] holds the options and the sink. An event reaches it as
//! plain values, together with the reading of the clock and the chain of
//! spans that enclose it; what comes back is the finished line.

use crate::ascii::{CLOSE_BRACE, CLOSE_BRACKET, LINE_FEED, OPEN_BRACE, OPEN_BRACKET};
use crate::clock::{format_unix_time, ClockReading};
use crate::decimal::decimal;
use crate::span::{is_fragment, spliced, SpanFields};
use crate::visitor::{
    appended, joined, lemma_joined_concat, members, separator, Field, JsonVisitor,
};
use crate::writer::{key_token, string_token, JsonWriter};
use vstd::prelude::*;
use vstd::string::StringSliceAdditionalSpecFns;
use vstd::utf8::encode_utf8;

verus! {

/// What a layer writes beside level and fields, and how it lays the
/// fields out.
#[derive(Clone, Copy)]
pub struct Options {
    /// Write the `target` member.
    pub target: bool,
    /// Write the `filename` member, where the event has a file name.
    pub file: bool,
    /// Write the `line_number` member, where the event has a line number.
    pub line_number: bool,
    /// Write the fields as members of the record itself, not of an object
    /// under `fields`.
    pub flatten_event: bool,
    /// Write the `threadId` member.
    pub thread_ids: bool,
    /// Write the `threadName` member.
    pub thread_names: bool,
}

/// An event, as the assembler takes it.
pub struct Event {
    /// The label of the severity level.
    pub level: String,
    /// The fields, in the order in which they are written.
    pub fields: Vec<Field>,
    /// The name of the module or component that the event comes from.
    pub target: String,
    /// The source file, where known.
    pub file: Option<String>,
    /// The line in the source file, where known.
    pub line: Option<u32>,
    /// The identifier of the thread, as text.
    pub thread_id: String,
    /// The name of the thread, if it has one.
    pub thread_name: Option<String>,
}

impl Event {
    /// The name that the thread is written under: its own, or, for a
    /// thread without a name, the text of its identifier.
    pub open spec fn thread_label(self) -> Seq<char> {
        match self.thread_name {
            Some(name) => name@,
            None => self.thread_id@,
        }
    }
}

/// One span of the chain that encloses an event.
pub struct Scope {
    /// The name of the span.
    pub name: String,
    /// The fields recorded on the span.
    pub fields: SpanFields,
}

/// A member with the given key: the key token, then the value token.
pub open spec fn named(key: Seq<char>, token: Seq<u8>) -> Seq<u8> {
    key_token(encode_utf8(key)) + token
}

/// No part or one, by a condition.
pub open spec fn optional(present: bool, part: Seq<u8>) -> Seq<Seq<u8>> {
    if present {
        seq![part]
    } else {
        Seq::empty()
    }
}

/// The object of a span: its name, then its fields.
pub open spec fn span_object(scope: Scope) -> Seq<u8> {
    seq![OPEN_BRACE] + named("name"@, string_token(encode_utf8(scope.name@))) + spliced(
        true,
        scope.fields@,
    ) + seq![CLOSE_BRACE]
}

/// The objects of the first `n` spans of a chain read from its far end:
/// the chain comes nearest span first, the objects go root first.
pub open spec fn span_objects(scopes: Seq<Scope>, n: int) -> Seq<Seq<u8>> {
    Seq::new(n as nat, |i: int| span_object(scopes[scopes.len() - 1 - i]))
}

/// The array of all spans of a chain, root first.
pub open spec fn span_list(scopes: Seq<Scope>) -> Seq<u8> {
    seq![OPEN_BRACKET] + joined(span_objects(scopes, scopes.len() as int)) + seq![CLOSE_BRACKET]
}

/// The fields of an event as parts of the record: each a member of its
/// own when flattened, else one `fields` member that holds them all.
pub open spec fn field_parts(flatten: bool, fields: Seq<Field>) -> Seq<Seq<u8>> {
    if flatten {
        members(fields)
    } else {
        seq![named("fields"@, seq![OPEN_BRACE] + joined(members(fields)) + seq![CLOSE_BRACE])]
    }
}

/// The timestamp of a record: none when the clock is off.
pub open spec fn timestamp_parts(clock: ClockReading) -> Seq<Seq<u8>> {
    optional(clock.text() is Some, named("timestamp"@, string_token(clock.text().unwrap())))
}

/// The members that every record starts with: the timestamp, unless the
/// clock is off, the level, and the fields.
pub open spec fn leading_parts(options: Options, clock: ClockReading, event: Event) -> Seq<
    Seq<u8>,
> {
    timestamp_parts(clock) + seq![named("level"@, string_token(encode_utf8(event.level@)))]
        + field_parts(options.flatten_event, event.fields@)
}

/// The members that the options switch on and off: `target`, `filename`,
/// `line_number`, `threadId` and `threadName`, in this order. File name
/// and line number are written only where the event has them; a thread
/// without a name is written under the text of its identifier.
pub open spec fn attribute_parts(options: Options, event: Event) -> Seq<Seq<u8>> {
    optional(options.target, named("target"@, string_token(encode_utf8(event.target@))))
        + optional(
        options.file && event.file is Some,
        named("filename"@, string_token(encode_utf8(event.file.unwrap()@))),
    ) + optional(
        options.line_number && event.line is Some,
        named("line_number"@, decimal(event.line.unwrap() as nat)),
    ) + optional(
        options.thread_ids,
        named("threadId"@, string_token(encode_utf8(event.thread_id@))),
    ) + optional(
        options.thread_names,
        named("threadName"@, string_token(encode_utf8(event.thread_label()))),
    )
}

/// The members for the enclosing spans: none outside any span; inside,
/// `span` with the innermost span and `spans` with all of them.
pub open spec fn span_parts(scopes: Seq<Scope>) -> Seq<Seq<u8>> {
    if scopes.len() == 0 {
        Seq::empty()
    } else {
        seq![named("span"@, span_object(scopes[0])), named("spans"@, span_list(scopes))]
    }
}

/// The members of the record of an event, in the order in which they are
/// written.
pub open spec fn event_members(
    options: Options,
    clock: ClockReading,
    event: Event,
    scopes: Seq<Scope>,
) -> Seq<Seq<u8>> {
    leading_parts(options, clock, event) + attribute_parts(options, event) + span_parts(scopes)
}

/// The line of an event: one object with the members of the record,
/// comma-joined, and a line feed.
pub open spec fn event_line(
    options: Options,
    clock: ClockReading,
    event: Event,
    scopes: Seq<Scope>,
) -> Seq<u8> {
    seq![OPEN_BRACE] + joined(event_members(options, clock, event, scopes)) + seq![
        CLOSE_BRACE,
        LINE_FEED,
    ]
}

/// Writing `parts` and then `more` is writing `parts + more`.
proof fn lemma_appended_concat(has_member: bool, parts: Seq<Seq<u8>>, more: Seq<Seq<u8>>)
    ensures
        appended(has_member, parts + more) == appended(has_member, parts) + appended(
            has_member || parts.len() > 0,
            more,
        ),
{
    lemma_joined_concat(parts, more);
    if parts.len() == 0 {
        assert(parts + more =~= more);
    } else if more.len() == 0 {
        assert(parts + more =~= parts);
    }
    assert(appended(has_member, parts + more) =~= appended(has_member, parts) + appended(
        has_member || parts.len() > 0,
        more,
    ));
}

/// One step of writing an object: if `before` is `base` with `parts`
/// written, and `after` is `before` with `more` written, then `after` is
/// `base` with `parts + more` written.
proof fn lemma_written_more(
    base: Seq<u8>,
    has_member: bool,
    parts: Seq<Seq<u8>>,
    more: Seq<Seq<u8>>,
    before: Seq<u8>,
    after: Seq<u8>,
)
    requires
        before == base + appended(has_member, parts),
        after == before + appended(has_member || parts.len() > 0, more),
    ensures
        after == base + appended(has_member, parts + more),
{
    lemma_appended_concat(has_member, parts, more);
    assert(after =~= base + appended(has_member, parts + more));
}

/// Writing one part is a comma, if one is due, and the part.
proof fn lemma_appended_one(has_member: bool, part: Seq<u8>)
    ensures
        appended(has_member, seq![part]) == separator(has_member) + part,
{
    let one = seq![part];
    assert(one.drop_last() =~= Seq::<Seq<u8>>::empty());
    assert(joined(one.drop_last()) =~= Seq::<u8>::empty());
    assert(joined(one) =~= part);
}

/// Writes a comma, if one is due, and a key.
fn write_key(jw: &mut JsonWriter, has_members: bool, name: &str)
    ensures
        final(jw)@ == old(jw)@ + separator(has_members) + key_token(name.spec_bytes()),
{
    if has_members {
        jw.comma();
    }
    jw.key(name);
    assert(jw@ =~= old(jw)@ + separator(has_members) + key_token(name.spec_bytes()));
}

/// Writes a member whose value is a string.
fn write_string_member(jw: &mut JsonWriter, has_members: bool, name: &str, text: &str)
    ensures
        final(jw)@ == old(jw)@ + appended(
            has_members,
            seq![named(name@, string_token(text.spec_bytes()))],
        ),
{
    write_key(jw, has_members, name);
    jw.val_str(text);
    proof {
        let part = named(name@, string_token(text.spec_bytes()));
        lemma_appended_one(has_members, part);
        assert(jw@ =~= old(jw)@ + (separator(has_members) + part));
    }
}

/// Writes the object of one span.
fn write_span_object(jw: &mut JsonWriter, scope: &Scope)
    ensures
        final(jw)@ == old(jw)@ + span_object(*scope),
{
    jw.obj_start();
    jw.key("name");
    jw.val_str(scope.name.as_str());
    scope.fields.splice_into(jw, true);
    jw.obj_end();
    assert(jw@ =~= old(jw)@ + span_object(*scope));
}

/// Writes the array of all spans of a chain, root first.
fn write_span_list(jw: &mut JsonWriter, scopes: &[Scope])
    ensures
        final(jw)@ == old(jw)@ + span_list(scopes@),
{
    jw.arr_start();
    let n = scopes.len();
    let mut i: usize = 0;
    assert(joined(span_objects(scopes@, 0)) =~= Seq::<u8>::empty());
    while i < n
        invariant
            n == scopes@.len(),
            i <= n,
            jw@ == old(jw)@ + seq![OPEN_BRACKET] + joined(span_objects(scopes@, i as int)),
        decreases n - i,
    {
        if i > 0 {
            jw.comma();
        }
        write_span_object(jw, &scopes[n - 1 - i]);
        proof {
            let before = span_objects(scopes@, i as int);
            let after = span_objects(scopes@, i + 1);
            assert(after.drop_last() =~= before);
            assert(after.last() == span_object(scopes@[n - 1 - i]));
            assert(jw@ =~= old(jw)@ + seq![OPEN_BRACKET] + joined(after));
        }
        i += 1;
    }
    jw.arr_end();
    assert(jw@ =~= old(jw)@ + span_list(scopes@));
}

/// Writes the fields of an event: as members of the record itself when
/// flattened, else as one `fields` member.
fn write_fields(jw: &mut JsonWriter, has_members: bool, flatten: bool, fields: &[Field])
    ensures
        final(jw)@ == old(jw)@ + appended(has_members, field_parts(flatten, fields@)),
{
    if flatten {
        let mut visitor = if has_members {
            JsonVisitor::continuing(jw)
        } else {
            JsonVisitor::new(jw)
        };
        visitor.record_all(fields);
    } else {
        write_key(jw, has_members, "fields");
        jw.obj_start();
        let mut visitor = JsonVisitor::new(jw);
        visitor.record_all(fields);
        jw.obj_end();
        proof {
            let part = named(
                "fields"@,
                seq![OPEN_BRACE] + joined(members(fields@)) + seq![CLOSE_BRACE],
            );
            lemma_appended_one(has_members, part);
            assert(jw@ =~= old(jw)@ + (separator(has_members) + part));
        }
    }
}

/// Writes the timestamp member, unless the clock is off.
fn write_timestamp_member(jw: &mut JsonWriter, has_members: bool, clock: &ClockReading)
    ensures
        final(jw)@ == old(jw)@ + appended(has_members, timestamp_parts(*clock)),
{
    match clock {
        ClockReading::Disabled => {
            assert(jw@ =~= old(jw)@ + appended(has_members, timestamp_parts(*clock)));
        },
        ClockReading::Unix { secs, micros } => {
            let text = format_unix_time(*secs, *micros);
            write_string_member(jw, has_members, "timestamp", text.as_str());
        },
        ClockReading::Custom(text) => {
            write_string_member(jw, has_members, "timestamp", text.as_str());
        },
    }
}

/// Writes a string member if `present`, and nothing otherwise.
fn write_optional_string(
    jw: &mut JsonWriter,
    has_members: bool,
    present: bool,
    name: &str,
    text: &str,
)
    ensures
        final(jw)@ == old(jw)@ + appended(
            has_members,
            optional(present, named(name@, string_token(text.spec_bytes()))),
        ),
{
    if present {
        write_string_member(jw, has_members, name, text);
    } else {
        assert(jw@ =~= old(jw)@ + appended(
            has_members,
            optional(present, named(name@, string_token(text.spec_bytes()))),
        ));
    }
}

/// Writes the `filename` member, where asked for and known.
fn write_filename(jw: &mut JsonWriter, has_members: bool, enabled: bool, file: &Option<String>)
    ensures
        final(jw)@ == old(jw)@ + appended(
            has_members,
            optional(
                enabled && file is Some,
                named("filename"@, string_token(encode_utf8(file.unwrap()@))),
            ),
        ),
{
    match file {
        Some(name) => {
            write_optional_string(jw, has_members, enabled, "filename", name.as_str());
        },
        None => {
            assert(jw@ =~= old(jw)@ + appended(
                has_members,
                optional(
                    enabled && file is Some,
                    named("filename"@, string_token(encode_utf8(file.unwrap()@))),
                ),
            ));
        },
    }
}

/// Writes the `line_number` member, where asked for and known.
fn write_line_number(jw: &mut JsonWriter, has_members: bool, enabled: bool, line: Option<u32>)
    ensures
        final(jw)@ == old(jw)@ + appended(
            has_members,
            optional(
                enabled && line is Some,
                named("line_number"@, decimal(line.unwrap() as nat)),
            ),
        ),
{
    let ghost parts = optional(
        enabled && line is Some,
        named("line_number"@, decimal(line.unwrap() as nat)),
    );
    match line {
        Some(number) => {
            if enabled {
                write_key(jw, has_members, "line_number");
                jw.val_u64(number as u64);
                proof {
                    lemma_appended_one(has_members, named("line_number"@, decimal(number as nat)));
                }
            }
            assert(jw@ =~= old(jw)@ + appended(has_members, parts));
        },
        None => {
            assert(jw@ =~= old(jw)@ + appended(has_members, parts));
        },
    }
}

/// Writes the members that every record starts with.
fn write_leading(
    jw: &mut JsonWriter,
    options: &Options,
    clock: &ClockReading,
    event: &Event,
)
    ensures
        final(jw)@ == old(jw)@ + appended(false, leading_parts(*options, *clock, *event)),
{
    let ghost base = jw@;
    let ghost first = timestamp_parts(*clock);
    let ghost second = seq![named("level"@, string_token(encode_utf8(event.level@)))];
    let ghost third = field_parts(options.flatten_event, event.fields@);

    write_timestamp_member(jw, false, clock);
    let has_timestamp = match clock {
        ClockReading::Disabled => false,
        _ => true,
    };
    let ghost after_first = jw@;

    write_string_member(jw, has_timestamp, "level", event.level.as_str());
    let ghost after_second = jw@;
    proof {
        lemma_written_more(base, false, first, second, after_first, after_second);
    }

    write_fields(jw, true, options.flatten_event, event.fields.as_slice());
    proof {
        lemma_written_more(base, false, first + second, third, after_second, jw@);
    }
}

/// Writes the members that the options switch on and off.
fn write_attributes(jw: &mut JsonWriter, options: &Options, event: &Event)
    ensures
        final(jw)@ == old(jw)@ + appended(true, attribute_parts(*options, *event)),
{
    let ghost base = jw@;
    let ghost target = optional(
        options.target,
        named("target"@, string_token(encode_utf8(event.target@))),
    );
    let ghost file = optional(
        options.file && event.file is Some,
        named("filename"@, string_token(encode_utf8(event.file.unwrap()@))),
    );
    let ghost line = optional(
        options.line_number && event.line is Some,
        named("line_number"@, decimal(event.line.unwrap() as nat)),
    );
    let ghost thread_id = optional(
        options.thread_ids,
        named("threadId"@, string_token(encode_utf8(event.thread_id@))),
    );
    let ghost thread_name = optional(
        options.thread_names,
        named("threadName"@, string_token(encode_utf8(event.thread_label()))),
    );

    write_optional_string(jw, true, options.target, "target", event.target.as_str());
    let ghost after_target = jw@;

    write_filename(jw, true, options.file, &event.file);
    let ghost after_file = jw@;
    proof {
        lemma_written_more(base, true, target, file, after_target, after_file);
    }

    write_line_number(jw, true, options.line_number, event.line);
    let ghost after_line = jw@;
    proof {
        lemma_written_more(base, true, target + file, line, after_file, after_line);
    }

    write_optional_string(jw, true, options.thread_ids, "threadId", event.thread_id.as_str());
    let ghost after_thread_id = jw@;
    proof {
        lemma_written_more(
            base,
            true,
            target + file + line,
            thread_id,
            after_line,
            after_thread_id,
        );
    }

    let thread_label = match &event.thread_name {
        Some(name) => name.as_str(),
        None => event.thread_id.as_str(),
    };
    write_optional_string(jw, true, options.thread_names, "threadName", thread_label);
    proof {
        lemma_written_more(
            base,
            true,
            target + file + line + thread_id,
            thread_name,
            after_thread_id,
            jw@,
        );
    }
}

/// Writes the members for the enclosing spans, if there are any.
fn write_spans(jw: &mut JsonWriter, scopes: &[Scope])
    ensures
        final(jw)@ == old(jw)@ + appended(true, span_parts(scopes@)),
{
    if scopes.len() > 0 {
        let ghost base = jw@;
        let ghost current = seq![named("span"@, span_object(scopes@[0]))];
        let ghost list = seq![named("spans"@, span_list(scopes@))];
        write_key(jw, true, "span");
        write_span_object(jw, &scopes[0]);
        let ghost after_current = jw@;
        proof {
            lemma_appended_one(true, named("span"@, span_object(scopes@[0])));
            assert(after_current =~= base + appended(true, current));
        }
        write_key(jw, true, "spans");
        write_span_list(jw, scopes);
        proof {
            lemma_appended_one(true, named("spans"@, span_list(scopes@)));
            assert(jw@ =~= after_current + appended(true, list));
            lemma_written_more(base, true, current, list, after_current, jw@);
            assert(current + list =~= span_parts(scopes@));
        }
    } else {
        assert(jw@ =~= old(jw)@ + appended(true, span_parts(scopes@)));
    }
}

/// Formats events as JSON lines.
///
/// The layer keeps the sink that the lines are meant for, and hands it
/// back on request; it never writes to it.
pub struct JsonLayer<W> {
    make_writer: W,
    options: Options,
}

impl<W> View for JsonLayer<W> {
    type V = Options;

    /// The options of the layer.
    closed spec fn view(&self) -> Options {
        self.options
    }
}

impl<W> JsonLayer<W> {
    /// A layer for the given sink that writes the target and nothing else
    /// that can be switched off, with the fields under `fields`.
    pub fn new(make_writer: W) -> (layer: Self)
        ensures
            layer@ == (Options {
                target: true,
                file: false,
                line_number: false,
                flatten_event: false,
                thread_ids: false,
                thread_names: false,
            }),
            layer.sink() == make_writer,
    {
        JsonLayer {
            make_writer,
            options: Options {
                target: true,
                file: false,
                line_number: false,
                flatten_event: false,
                thread_ids: false,
                thread_names: false,
            },
        }
    }

    /// The sink that the layer was made for.
    pub closed spec fn sink(&self) -> W {
        self.make_writer
    }

    /// Whether to write the `target` member. On by default.
    pub fn with_target(self, display_target: bool) -> (layer: Self)
        ensures
            layer@ == (Options { target: display_target, ..self@ }),
            layer.sink() == self.sink(),
    {
        let mut layer = self;
        layer.options.target = display_target;
        layer
    }

    /// Whether to write the `filename` member. Off by default.
    pub fn with_file(self, display_filename: bool) -> (layer: Self)
        ensures
            layer@ == (Options { file: display_filename, ..self@ }),
            layer.sink() == self.sink(),
    {
        let mut layer = self;
        layer.options.file = display_filename;
        layer
    }

    /// Whether to write the `line_number` member. Off by default.
    pub fn with_line_number(self, display_line: bool) -> (layer: Self)
        ensures
            layer@ == (Options { line_number: display_line, ..self@ }),
            layer.sink() == self.sink(),
    {
        let mut layer = self;
        layer.options.line_number = display_line;
        layer
    }

    /// Whether to write the fields as members of the record itself, not
    /// under `fields`. Off by default.
    pub fn flatten_event(self, flatten: bool) -> (layer: Self)
        ensures
            layer@ == (Options { flatten_event: flatten, ..self@ }),
            layer.sink() == self.sink(),
    {
        let mut layer = self;
        layer.options.flatten_event = flatten;
        layer
    }

    /// Whether to write the `threadId` member. Off by default.
    pub fn with_thread_ids(self, display_thread_ids: bool) -> (layer: Self)
        ensures
            layer@ == (Options { thread_ids: display_thread_ids, ..self@ }),
            layer.sink() == self.sink(),
    {
        let mut layer = self;
        layer.options.thread_ids = display_thread_ids;
        layer
    }

    /// Whether to write the `threadName` member. Off by default.
    pub fn with_thread_names(self, display_thread_names: bool) -> (layer: Self)
        ensures
            layer@ == (Options { thread_names: display_thread_names, ..self@ }),
            layer.sink() == self.sink(),
    {
        let mut layer = self;
        layer.options.thread_names = display_thread_names;
        layer
    }

    /// The options of the layer.
    pub fn options(&self) -> (options: Options)
        ensures
            options == self@,
    {
        self.options
    }

    /// The sink that the layer was made for.
    pub fn make_writer(&self) -> (sink: &W)
        ensures
            *sink == self.sink(),
    {
        &self.make_writer
    }

    /// The fragment of a span that starts with the given fields.
    pub fn on_new_span(&self, fields: &[Field]) -> (span: SpanFields)
        ensures
            span@ == joined(members(fields@)),
            span@.len() == 0 <==> fields@.len() == 0,
            is_fragment(span@),
    {
        SpanFields::create(fields)
    }

    /// Adds fields recorded later to the fragment of their span.
    pub fn on_record(&self, span: &mut SpanFields, fields: &[Field])
        ensures
            final(span)@ == old(span)@ + appended(old(span)@.len() > 0, members(fields@)),
            final(span)@.len() == 0 <==> old(span)@.len() == 0 && fields@.len() == 0,
            is_fragment(final(span)@),
    {
        span.extend(fields);
    }

    /// The line of an event.
    ///
    /// The members come in a fixed order: `timestamp`, unless the clock is
    /// off; `level`; the fields; then, each only where the options ask for
    /// it, `target`, `filename`, `line_number`, `threadId` and
    /// `threadName`; then, inside a span, `span` with the innermost span
    /// and `spans` with all of them, root first. `scopes` is the chain of
    /// enclosing spans, nearest first.
    pub fn on_event(&self, clock: &ClockReading, event: &Event, scopes: &[Scope]) -> (line: Vec<u8>)
        ensures
            line@ == event_line(self@, *clock, *event, scopes@),
    {
        let ghost first = leading_parts(self@, *clock, *event);
        let ghost second = attribute_parts(self@, *event);
        let ghost third = span_parts(scopes@);
        let mut jw = JsonWriter::new();
        jw.obj_start();
        let ghost base = jw@;
        write_leading(&mut jw, &self.options, clock, event);
        let ghost after_leading = jw@;
        write_attributes(&mut jw, &self.options, event);
        let ghost after_attributes = jw@;
        proof {
            assert(first.len() > 0);
            lemma_written_more(base, false, first, second, after_leading, after_attributes);
        }
        write_spans(&mut jw, scopes);
        let ghost after_spans = jw@;
        proof {
            lemma_written_more(
                base,
                false,
                first + second,
                third,
                after_attributes,
                after_spans,
            );
            let all = event_members(self@, *clock, *event, scopes@);
            assert(all == first + second + third);
            assert(all.len() > 0);
            assert(appended(false, all) =~= joined(all));
            assert(base =~= seq![OPEN_BRACE]);
            assert(after_spans == seq![OPEN_BRACE] + joined(all));
        }
        jw.obj_end();
        jw.finish_line();
        assert(jw@ =~= after_spans + seq![CLOSE_BRACE, LINE_FEED]);
        jw.into_vec()
    }
}

} // verus!
