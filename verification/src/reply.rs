//! A reply as it streams in: server-sent events, each with a piece of the reply
//! as JSON.
use crate::text::{same_text, strip_prefix};
use vstd::prelude::*;

verus! {

/// Seconds without a byte after which a reply that has not begun is given up.
pub const STREAM_STALL_SECS: u64 = 30;

/// Seconds without a byte after which a reply that has begun is given up.
pub const STREAM_IDLE_SECS: u64 = 8;

/// The event that reports the progress of a tool.
pub const TOOL_EVENT: &'static str = "hermes.tool.progress";

// ---------- JSON ----------
/// What a JSON value holds, as far as it is read here.
pub enum Json {
    Null,
    Bool(bool),
    Number,
    Text(Seq<char>),
    List(Seq<Json>),
    Object(Map<Seq<char>, Json>),
}

/// `serde_json::Value`: a parsed JSON document or a part of one.
#[verifier::external_type_specification]
#[verifier::external_body]
pub struct ExValue(serde_json::Value);

/// What a `serde_json::Value` holds.
pub uninterp spec fn json_value(v: serde_json::Value) -> Json;

/// What `serde_json::from_str` makes of a text.
pub uninterp spec fn json_text(text: Seq<char>) -> Option<Json>;

/// The member of an object under a key.
pub open spec fn member_of(j: Json, key: Seq<char>) -> Option<Json> {
    match j {
        Json::Object(members) => if members.dom().contains(key) {
            Some(members[key])
        } else {
            None
        },
        _ => None,
    }
}

/// The element of a list at a place.
pub open spec fn element_of(j: Json, i: int) -> Option<Json> {
    match j {
        Json::List(elements) => if 0 <= i < elements.len() {
            Some(elements[i])
        } else {
            None
        },
        _ => None,
    }
}

/// The text that a JSON value is.
pub open spec fn text_in(j: Json) -> Option<Seq<char>> {
    match j {
        Json::Text(s) => Some(s),
        _ => None,
    }
}

/// `serde_json::from_str`: the value that a text denotes, or nothing if it is not
/// JSON. What it holds has the name `json_text`.
#[verifier::external_body]
fn parse_json(text: &str) -> (r: Option<serde_json::Value>)
    ensures
        match r {
            Some(v) => json_text(text@) == Some(json_value(v)),
            None => json_text(text@) is None,
        },
{
    serde_json::from_str::<serde_json::Value>(text).ok()
}

/// `Value::get` with a key: the member of an object under that key; nothing if
/// it has none, or is no object.
#[verifier::external_body]
fn json_member<'a>(v: &'a serde_json::Value, key: &str) -> (r: Option<&'a serde_json::Value>)
    ensures
        match r {
            Some(m) => member_of(json_value(*v), key@) == Some(json_value(*m)),
            None => member_of(json_value(*v), key@) is None,
        },
{
    v.get(key)
}

/// `Value::get` with a place: the element of a list at that place; nothing if it
/// has none, or is no list.
#[verifier::external_body]
fn json_element<'a>(v: &'a serde_json::Value, i: usize) -> (r: Option<&'a serde_json::Value>)
    ensures
        match r {
            Some(e) => element_of(json_value(*v), i as int) == Some(json_value(*e)),
            None => element_of(json_value(*v), i as int) is None,
        },
{
    v.get(i)
}

/// `Value::as_str`: the text of a string; nothing for anything else.
#[verifier::external_body]
fn json_string<'a>(v: &'a serde_json::Value) -> (r: Option<&'a str>)
    ensures
        match r {
            Some(s) => text_in(json_value(*v)) == Some(s@),
            None => text_in(json_value(*v)) is None,
        },
{
    v.as_str()
}

/// The text under a key of an object, if there is one.
pub open spec fn text_under(j: Json, key: Seq<char>) -> Option<Seq<char>> {
    match member_of(j, key) {
        Some(m) => text_in(m),
        None => None,
    }
}

/// What an optional text says.
pub open spec fn said(t: Option<String>) -> Option<Seq<char>> {
    match t {
        Some(s) => Some(s@),
        None => None,
    }
}

/// The text under a key of an object, if there is one.
fn read_text(v: &serde_json::Value, key: &str) -> (r: Option<String>)
    ensures
        said(r) == text_under(json_value(*v), key@),
{
    match json_member(v, key) {
        Some(m) => match json_string(m) {
            Some(s) => Some(s.to_owned()),
            None => None,
        },
        None => None,
    }
}

// ---------- What one event says ----------
/// A piece of a reply: more of its text, and why it ended, if it did.
pub struct Delta<T> {
    pub content: Option<T>,
    pub finish_reason: Option<T>,
}

/// The progress of a tool.
pub struct Progress<T> {
    pub status: Option<T>,
    pub label: Option<T>,
    pub tool: Option<T>,
    pub emoji: Option<T>,
}

impl Delta<String> {
    pub open spec fn facts(self) -> Delta<Seq<char>> {
        Delta { content: said(self.content), finish_reason: said(self.finish_reason) }
    }
}

impl Progress<String> {
    pub open spec fn facts(self) -> Progress<Seq<char>> {
        Progress {
            status: said(self.status),
            label: said(self.label),
            tool: said(self.tool),
            emoji: said(self.emoji),
        }
    }
}

/// The first of the choices in a piece of a reply.
pub open spec fn choice_in(j: Json) -> Option<Json> {
    match member_of(j, "choices"@) {
        Some(choices) => element_of(choices, 0),
        None => None,
    }
}

/// The piece of a reply that a JSON value is: the content of the first choice's
/// delta, and the first choice's reason to finish. What the model thinks to
/// itself stands elsewhere in the value, and is not part of the reply.
pub open spec fn delta_in(j: Json) -> Delta<Seq<char>> {
    match choice_in(j) {
        Some(choice) => Delta {
            content: match member_of(choice, "delta"@) {
                Some(delta) => text_under(delta, "content"@),
                None => None,
            },
            finish_reason: text_under(choice, "finish_reason"@),
        },
        None => Delta { content: None, finish_reason: None },
    }
}

/// The progress of a tool that a JSON value reports.
pub open spec fn progress_in(j: Json) -> Progress<Seq<char>> {
    Progress {
        status: text_under(j, "status"@),
        label: text_under(j, "label"@),
        tool: text_under(j, "tool"@),
        emoji: text_under(j, "emoji"@),
    }
}

/// Reads a piece of a reply.
fn read_delta(v: &serde_json::Value) -> (d: Delta<String>)
    ensures
        d.facts() == delta_in(json_value(*v)),
{
    match json_member(v, "choices") {
        Some(choices) => match json_element(choices, 0) {
            Some(choice) => {
                let content = match json_member(choice, "delta") {
                    Some(delta) => read_text(delta, "content"),
                    None => None,
                };
                Delta { content, finish_reason: read_text(choice, "finish_reason") }
            },
            None => Delta { content: None, finish_reason: None },
        },
        None => Delta { content: None, finish_reason: None },
    }
}

/// Reads the progress of a tool.
fn read_progress(v: &serde_json::Value) -> (p: Progress<String>)
    ensures
        p.facts() == progress_in(json_value(*v)),
{
    Progress {
        status: read_text(v, "status"),
        label: read_text(v, "label"),
        tool: read_text(v, "tool"),
        emoji: read_text(v, "emoji"),
    }
}

// ---------- The stream ----------
/// A reply in progress.
pub struct ReplyStream {
    /// What has arrived of the line in progress.
    pub line: String,
    /// The event that the next data belongs to.
    pub event: Option<String>,
    /// The reply so far.
    pub text: String,
    /// What the tool in progress is called.
    pub tool_label: Option<String>,
    /// Why the reply ended.
    pub finish_reason: Option<String>,
    /// Whether any data came.
    pub started: bool,
    /// Whether the reply is over, as the protocol has it.
    pub done: bool,
}

/// What is known of a reply in progress.
pub struct ReplyFacts {
    pub line: Seq<char>,
    pub event: Option<Seq<char>>,
    pub text: Seq<char>,
    pub tool_label: Option<Seq<char>>,
    pub finish_reason: Option<Seq<char>>,
    pub started: bool,
    pub done: bool,
}

/// With a piece of the reply.
pub open spec fn with_delta(f: ReplyFacts, d: Delta<Seq<char>>) -> ReplyFacts {
    ReplyFacts {
        text: match d.content {
            Some(more) => f.text + more,
            None => f.text,
        },
        finish_reason: if d.finish_reason is Some {
            d.finish_reason
        } else {
            f.finish_reason
        },
        done: f.done || d.finish_reason is Some,
        ..f
    }
}

/// What a tool is called: its emoji, and its label, or else its name, or else
/// that it is working.
pub open spec fn tool_name(p: Progress<Seq<char>>) -> Seq<char> {
    (match p.emoji {
        Some(e) => e,
        None => Seq::empty(),
    }) + " "@ + (match p.label {
        Some(label) => label,
        None => match p.tool {
            Some(tool) => tool,
            None => "working"@,
        },
    })
}

/// With the progress of a tool: it is named while it runs.
pub open spec fn with_progress(f: ReplyFacts, p: Progress<Seq<char>>) -> ReplyFacts {
    if p.status == Some("running"@) {
        ReplyFacts { tool_label: Some(tool_name(p)), ..f }
    } else {
        f
    }
}

/// With a line of data, and what it is as JSON.
pub open spec fn with_data(f: ReplyFacts, data: Seq<char>, parsed: Option<Json>) -> ReplyFacts {
    let g = ReplyFacts { started: true, ..f };
    if data == "[DONE]"@ {
        ReplyFacts { done: true, ..g }
    } else {
        let h = match parsed {
            Some(j) => if f.event == Some(TOOL_EVENT@) {
                with_progress(g, progress_in(j))
            } else {
                with_delta(g, delta_in(j))
            },
            None => g,
        };
        ReplyFacts { event: None, ..h }
    }
}

/// With a whole line: the name of an event, a line of data, or neither. An empty
/// line ends an event.
pub open spec fn with_line(f: ReplyFacts, line: Seq<char>) -> ReplyFacts {
    if line.len() == 0 {
        ReplyFacts { event: None, ..f }
    } else if crate::text::begins_with(line, "event: "@) {
        ReplyFacts { event: Some(line.skip("event: "@.len() as int)), ..f }
    } else if crate::text::begins_with(line, "data: "@) {
        let data = line.skip("data: "@.len() as int);
        with_data(f, data, json_text(data))
    } else {
        f
    }
}

/// With one more byte: a line feed ends the line, a carriage return is skipped.
pub open spec fn with_byte(f: ReplyFacts, b: u8) -> ReplyFacts {
    if b == 10 {
        ReplyFacts { line: Seq::empty(), ..with_line(f, f.line) }
    } else if b == 13 {
        f
    } else {
        ReplyFacts { line: f.line.push(b as char), ..f }
    }
}

/// With more bytes.
pub open spec fn with_bytes(f: ReplyFacts, bytes: Seq<u8>) -> ReplyFacts
    decreases bytes.len(),
{
    if bytes.len() == 0 {
        f
    } else {
        with_byte(with_bytes(f, bytes.drop_last()), bytes.last())
    }
}

impl ReplyStream {
    pub open spec fn facts(self) -> ReplyFacts {
        ReplyFacts {
            line: self.line@,
            event: said(self.event),
            text: self.text@,
            tool_label: said(self.tool_label),
            finish_reason: said(self.finish_reason),
            started: self.started,
            done: self.done,
        }
    }

    /// A reply about to begin.
    pub fn new() -> (s: ReplyStream)
        ensures
            s.facts() == (ReplyFacts {
                line: Seq::empty(),
                event: None,
                text: Seq::empty(),
                tool_label: None,
                finish_reason: None,
                started: false,
                done: false,
            }),
    {
        ReplyStream {
            line: String::new(),
            event: None,
            text: String::new(),
            tool_label: None,
            finish_reason: None,
            started: false,
            done: false,
        }
    }

    /// How long to wait for more: patient until the first data, impatient after
    /// it.
    pub fn patience_secs(&self) -> (secs: u64)
        ensures
            secs == (if self.started {
                STREAM_IDLE_SECS
            } else {
                STREAM_STALL_SECS
            }),
    {
        if self.started {
            STREAM_IDLE_SECS
        } else {
            STREAM_STALL_SECS
        }
    }

    /// Takes in a piece of the reply.
    pub fn on_delta(&mut self, delta: Delta<String>)
        ensures
            final(self).facts() == with_delta(old(self).facts(), delta.facts()),
    {
        if let Some(content) = &delta.content {
            self.text.append(content);
        }
        if delta.finish_reason.is_some() {
            self.finish_reason = delta.finish_reason;
            self.done = true;
        }
    }

    /// Takes in the progress of a tool.
    pub fn on_progress(&mut self, progress: &Progress<String>)
        ensures
            final(self).facts() == with_progress(old(self).facts(), progress.facts()),
    {
        let running = match &progress.status {
            Some(status) => same_text(status, "running"),
            None => false,
        };
        if running {
            let mut name = match &progress.emoji {
                Some(emoji) => emoji.clone(),
                None => String::new(),
            };
            name.append(" ");
            match &progress.label {
                Some(label) => {
                    name.append(label);
                },
                None => match &progress.tool {
                    Some(tool) => {
                        name.append(tool);
                    },
                    None => {
                        name.append("working");
                    },
                },
            }
            assert(name@ =~= tool_name(progress.facts()));
            self.tool_label = Some(name);
        }
    }

    /// Takes in a line of data.
    pub fn on_data(&mut self, data: &str)
        ensures
            final(self).facts() == with_data(old(self).facts(), data@, json_text(data@)),
    {
        self.started = true;
        if same_text(data, "[DONE]") {
            self.done = true;
            return ;
        }
        let tool_event = match &self.event {
            Some(event) => same_text(event, TOOL_EVENT),
            None => false,
        };
        if let Some(v) = parse_json(data) {
            if tool_event {
                self.on_progress(&read_progress(&v));
            } else {
                self.on_delta(read_delta(&v));
            }
        }
        self.event = None;
    }

    /// Takes in a whole line.
    pub fn on_line(&mut self, line: &str)
        ensures
            final(self).facts() == with_line(old(self).facts(), line@),
    {
        if line.is_empty() {
            self.event = None;
            return ;
        }
        if let Some(event) = strip_prefix(line, "event: ") {
            self.event = Some(event);
        } else if let Some(data) = strip_prefix(line, "data: ") {
            self.on_data(&data);
        }
    }

    /// Takes in what was read from the stream.
    pub fn feed(&mut self, bytes: &[u8])
        ensures
            final(self).facts() == with_bytes(old(self).facts(), bytes@),
    {
        let mut i: usize = 0;
        assert(bytes@.take(0) =~= Seq::<u8>::empty());
        while i < bytes.len()
            invariant
                i <= bytes@.len(),
                self.facts() == with_bytes(old(self).facts(), bytes@.take(i as int)),
            decreases bytes@.len() - i,
        {
            let ghost before = self.facts();
            let b: u8 = bytes[i];
            assert(bytes@.take(i + 1).drop_last() =~= bytes@.take(i as int));
            if b == 10 {
                let line = self.line.clone();
                self.on_line(&line);
                self.line = String::new();
            } else if b != 13 {
                self.line.push(b as char);
            }
            assert(self.facts() == with_byte(before, b));
            i += 1;
        }
        assert(bytes@.take(bytes@.len() as int) =~= bytes@);
    }
}

/// How a stream is cut into reads makes no difference.
pub proof fn reads_can_be_cut_anywhere(f: ReplyFacts, a: Seq<u8>, b: Seq<u8>)
    ensures
        with_bytes(f, a + b) == with_bytes(with_bytes(f, a), b),
    decreases b.len(),
{
    if b.len() == 0 {
        assert(a + b =~= a);
    } else {
        reads_can_be_cut_anywhere(f, a, b.drop_last());
        assert((a + b).drop_last() =~= a + b.drop_last());
    }
}

/// The text of a reply only grows, and a reply that is over stays so.
pub proof fn replies_only_grow(f: ReplyFacts, bytes: Seq<u8>)
    ensures
        f.text.is_prefix_of(with_bytes(f, bytes).text),
        f.done ==> with_bytes(f, bytes).done,
        f.started ==> with_bytes(f, bytes).started,
    decreases bytes.len(),
{
    if bytes.len() > 0 {
        replies_only_grow(f, bytes.drop_last());
        let g = with_bytes(f, bytes.drop_last());
        let h = with_byte(g, bytes.last());
        assert(g.text.is_prefix_of(h.text));
        assert(h.text.take(f.text.len() as int) =~= g.text.take(f.text.len() as int));
    }
}

// ---------- What a stream says ----------
/// The characters of a line, one for each byte.
pub open spec fn line_text(line: Seq<u8>) -> Seq<char> {
    Seq::new(line.len(), |i: int| line[i] as char)
}

/// Some lines as they come in, each with a line feed behind it.
pub open spec fn stream_of(lines: Seq<Seq<u8>>) -> Seq<u8>
    decreases lines.len(),
{
    if lines.len() == 0 {
        Seq::empty()
    } else {
        stream_of(lines.drop_last()) + lines.last().push(10)
    }
}

/// Whether no line has a line feed or a carriage return in it.
pub open spec fn are_lines(lines: Seq<Seq<u8>>) -> bool {
    forall|k: int, i: int|
        0 <= k < lines.len() && 0 <= i < lines[k].len() ==> #[trigger] lines[k][i] != 10
            && lines[k][i] != 13
}

/// What stands behind a prefix, if a line begins with it.
pub open spec fn behind_prefix(line: Seq<char>, prefix: Seq<char>) -> Option<Seq<char>> {
    if exists|rest: Seq<char>| line == #[trigger] (prefix + rest) {
        Some(choose|rest: Seq<char>| line == #[trigger] (prefix + rest))
    } else {
        None
    }
}

/// The event that is in force behind some lines: the last one that was named,
/// unless an empty line or a piece of data came since. The end mark is no piece
/// of data.
pub open spec fn event_behind(lines: Seq<Seq<u8>>) -> Option<Seq<char>>
    decreases lines.len(),
{
    if lines.len() == 0 {
        None
    } else {
        let line = line_text(lines.last());
        let before = event_behind(lines.drop_last());
        match (behind_prefix(line, "event: "@), behind_prefix(line, "data: "@)) {
            (Some(name), _) => Some(name),
            (None, Some(data)) => if data == "[DONE]"@ {
                before
            } else {
                None
            },
            (None, None) => if line.len() == 0 {
                None
            } else {
                before
            },
        }
    }
}

/// The content of the first choice's delta, if a JSON value has one.
pub open spec fn first_content(j: Json) -> Option<Seq<char>> {
    match member_of(j, "choices"@) {
        Some(choices) => match element_of(choices, 0) {
            Some(choice) => match member_of(choice, "delta"@) {
                Some(delta) => match member_of(delta, "content"@) {
                    Some(content) => text_in(content),
                    None => None,
                },
                None => None,
            },
            None => None,
        },
        None => None,
    }
}

/// What the last of some lines adds to a reply: the content of the first choice's
/// delta, if it is a line of data that reports no tool.
pub open spec fn last_piece(lines: Seq<Seq<u8>>) -> Seq<char> {
    let event = event_behind(lines.drop_last());
    match behind_prefix(line_text(lines.last()), "data: "@) {
        Some(data) => if data == "[DONE]"@ || event == Some("hermes.tool.progress"@) {
            Seq::empty()
        } else {
            match json_text(data) {
                Some(j) => match first_content(j) {
                    Some(content) => content,
                    None => Seq::empty(),
                },
                None => Seq::empty(),
            }
        },
        None => Seq::empty(),
    }
}

/// All that some lines add to a reply, piece by piece.
pub open spec fn pieces(lines: Seq<Seq<u8>>) -> Seq<char>
    decreases lines.len(),
{
    if lines.len() == 0 {
        Seq::empty()
    } else {
        pieces(lines.drop_last()) + last_piece(lines)
    }
}

proof fn lemma_behind_prefix(line: Seq<char>, prefix: Seq<char>)
    ensures
        behind_prefix(line, prefix) == (if crate::text::begins_with(line, prefix) {
            Some(line.skip(prefix.len() as int))
        } else {
            None
        }),
{
    if crate::text::begins_with(line, prefix) {
        assert(line =~= prefix + line.skip(prefix.len() as int));
        let rest = choose|rest: Seq<char>| line == #[trigger] (prefix + rest);
        assert(rest =~= line.skip(prefix.len() as int));
    } else if exists|rest: Seq<char>| line == #[trigger] (prefix + rest) {
        let rest = choose|rest: Seq<char>| line == #[trigger] (prefix + rest);
        assert(line.subrange(0, prefix.len() as int) =~= prefix);
    }
}

/// Bytes that end no line are added to the line.
proof fn lemma_line_grows(f: ReplyFacts, bytes: Seq<u8>)
    requires
        forall|i: int| 0 <= i < bytes.len() ==> #[trigger] bytes[i] != 10 && bytes[i] != 13,
    ensures
        with_bytes(f, bytes) == (ReplyFacts { line: f.line + line_text(bytes), ..f }),
    decreases bytes.len(),
{
    if bytes.len() == 0 {
        assert(f.line + line_text(bytes) =~= f.line);
    } else {
        let t = bytes.drop_last();
        assert forall|i: int| 0 <= i < t.len() implies #[trigger] t[i] != 10 && t[i] != 13 by {
            assert(t[i] == bytes[i]);
        }
        lemma_line_grows(f, t);
        assert(bytes[bytes.len() - 1] == bytes.last());
        assert((f.line + line_text(t)).push(bytes.last() as char) =~= f.line + line_text(bytes));
    }
}

proof fn lemma_prefixes()
    ensures
        "event: "@.len() > 0,
        "data: "@.len() > 0,
        forall|line: Seq<char>|
            #![trigger crate::text::begins_with(line, "event: "@)]
            crate::text::begins_with(line, "event: "@) ==> !crate::text::begins_with(
                line,
                "data: "@,
            ),
{
    reveal_strlit("event: ");
    reveal_strlit("data: ");
    assert forall|line: Seq<char>|
        #![trigger crate::text::begins_with(line, "event: "@)]
        crate::text::begins_with(line, "event: "@) implies !crate::text::begins_with(
        line,
        "data: "@,
    ) by {
        assert(line.subrange(0, "event: "@.len() as int)[0] == 'e');
        if crate::text::begins_with(line, "data: "@) {
            assert(line.subrange(0, "data: "@.len() as int)[0] == 'd');
        }
    }
}

/// A reply is put together whole: after any lines, its text is what it was,
/// followed by the contents of the first choices' deltas of all the lines of
/// data, in order. Nothing is added, dropped or altered, and what tools report is
/// no part of it.
pub proof fn replies_are_put_together_whole(f: ReplyFacts, lines: Seq<Seq<u8>>)
    requires
        f.line.len() == 0,
        f.event is None,
        are_lines(lines),
    ensures
        with_bytes(f, stream_of(lines)).text == f.text + pieces(lines),
        with_bytes(f, stream_of(lines)).event == event_behind(lines),
        with_bytes(f, stream_of(lines)).line.len() == 0,
    decreases lines.len(),
{
    if lines.len() == 0 {
        assert(f.text + pieces(lines) =~= f.text);
    } else {
        let before = lines.drop_last();
        let last = lines.last();
        assert forall|k: int, i: int|
            0 <= k < before.len() && 0 <= i < before[k].len() implies #[trigger] before[k][i] != 10
            && before[k][i] != 13 by {
            assert(before[k][i] == lines[k][i]);
        }
        replies_are_put_together_whole(f, before);
        let g = with_bytes(f, stream_of(before));
        reads_can_be_cut_anywhere(f, stream_of(before), last.push(10));
        let n = lines.len() - 1;
        assert forall|i: int| 0 <= i < last.len() implies #[trigger] last[i] != 10 && last[i]
            != 13 by {
            assert(lines[n][i] != 10);
        }
        lemma_line_grows(g, last);
        assert(last.push(10).drop_last() =~= last);
        let line = line_text(last);
        assert(g.line + line =~= line);
        let h = ReplyFacts { line, ..g };
        assert(with_bytes(g, last.push(10)) == with_byte(h, 10));
        lemma_prefixes();
        lemma_behind_prefix(line, "event: "@);
        lemma_behind_prefix(line, "data: "@);
        let end = with_line(h, line);
        assert(end.text =~= g.text + last_piece(lines));
        assert(f.text + pieces(lines) =~= f.text + pieces(before) + last_piece(lines));
    }
}

/// Carriage returns make no difference, wherever they stand.
pub proof fn carriage_returns_are_skipped(f: ReplyFacts, a: Seq<u8>, b: Seq<u8>)
    ensures
        with_bytes(f, a.push(13) + b) == with_bytes(f, a + b),
{
    reads_can_be_cut_anywhere(f, a.push(13), b);
    reads_can_be_cut_anywhere(f, a, b);
    assert(a.push(13).drop_last() =~= a);
}

/// What a line of data says of a reply as a whole: that it has begun; that it is
/// over, if it is the end mark or gives a reason to finish; and that reason. A
/// tool is named by its emoji and its label, or else its name, or else as
/// working, while it runs.
pub proof fn lines_of_data_say_how_a_reply_stands(f: ReplyFacts, data: Seq<char>)
    ensures
        ({
            let g = with_line(f, "data: "@ + data);
            &&& g.started
            &&& data == "[DONE]"@ ==> g.done && g.text == f.text && g.finish_reason
                == f.finish_reason && g.tool_label == f.tool_label
            &&& data != "[DONE]"@ && json_text(data) is None ==> g.done == f.done && g.text == f.text
                && g.finish_reason == f.finish_reason && g.tool_label == f.tool_label
        }),
        data != "[DONE]"@ && json_text(data) is Some && f.event != Some("hermes.tool.progress"@)
            ==> ({
            let g = with_line(f, "data: "@ + data);
            let j = json_text(data)->0;
            let reason = match member_of(j, "choices"@) {
                Some(choices) => match element_of(choices, 0) {
                    Some(choice) => match member_of(choice, "finish_reason"@) {
                        Some(r) => text_in(r),
                        None => None,
                    },
                    None => None,
                },
                None => None,
            };
            &&& g.tool_label == f.tool_label
            &&& reason is Some ==> g.done && g.finish_reason == reason
            &&& reason is None ==> g.done == f.done && g.finish_reason == f.finish_reason
        }),
        data != "[DONE]"@ && json_text(data) is Some && f.event == Some("hermes.tool.progress"@)
            ==> ({
            let g = with_line(f, "data: "@ + data);
            let j = json_text(data)->0;
            let emoji = match text_under(j, "emoji"@) {
                Some(e) => e,
                None => Seq::empty(),
            };
            &&& g.text == f.text && g.done == f.done && g.finish_reason == f.finish_reason
            &&& text_under(j, "status"@) != Some("running"@) ==> g.tool_label == f.tool_label
            &&& text_under(j, "status"@) == Some("running"@) ==> match (
                text_under(j, "label"@),
                text_under(j, "tool"@),
            ) {
                (Some(label), _) => g.tool_label == Some(emoji + " "@ + label),
                (None, Some(tool)) => g.tool_label == Some(emoji + " "@ + tool),
                (None, None) => g.tool_label == Some(emoji + " "@ + "working"@),
            }
        }),
{
    let line = "data: "@ + data;
    lemma_prefixes();
    assert(line.subrange(0, "data: "@.len() as int) =~= "data: "@);
    assert(line.skip("data: "@.len() as int) =~= data);
    assert(crate::text::begins_with(line, "data: "@));
    assert(!crate::text::begins_with(line, "event: "@));
}

} // verus!
