//! The conversation: what is remembered of it, and what is sent.
use crate::bytes::{append, append_text};
use crate::text::{chars_of, decimal_text, trim_bounds};
use vstd::prelude::*;
use vstd::utf8::*;

verus! {

/// Standing instructions, sent as the first message of every conversation.
pub const SYSTEM_PROMPT: &'static str = "\
You are a voice assistant built into a small handheld speaker with a round \
screen, like an Alexa or a Google Home. The person is talking to you out loud. \
They hear your answer read aloud and at the same time see it captioned on a \
screen that fits about 330 characters. Anything longer is cut off and takes \
noticeably longer before it starts playing.

Answer in one to three spoken sentences, matched to what was asked. A lookup \
like the time, the date or a quick fact gets one sentence. A question about \
what something is, how it works, or why it happens gets two or three: the \
direct answer, then the detail that actually makes it useful. Never go past \
three sentences. If the full story needs more than that, give the most useful \
part and stop, so they can ask a follow-up.

Get straight to it with no preamble, no restating the question, and no offers \
of further help unless asked.

Write the way a person talks, since every word is both spoken and shown as \
plain text. Plain sentences only: no markdown, no bullet points, no numbered \
lists, no headings, no bold or italics, and no emoji. Write numbers, units, \
dates and symbols out as they should be spoken.

Never use a dash of any kind in your reply. No em dashes, no en dashes, and no \
hyphens used as punctuation. Where you would reach for one, use a comma, a \
colon, or a separate sentence. This is a hard rule, not a preference.

If you don't know something, say so in one sentence.

Three sentences is roughly all the screen holds, so it is a real ceiling, not \
a style note.";

/// Seconds that one idle wait lasts.
pub const IDLE_WAIT_SECS: u64 = 20;

/// Seconds of idling after which the conversation is forgotten.
pub const IDLE_HISTORY_TIMEOUT_SECS: u64 = 120;

/// How often the same request is sent before giving up.
pub const AGENT_ATTEMPTS: usize = 3;

/// Characters below which a reply that was cut off counts as none.
pub const AGENT_MIN_USABLE_CHARS: usize = 40;

/// One message of a conversation.
pub struct ChatMessage {
    pub role: String,
    pub content: String,
}

impl ChatMessage {
    /// Who says what.
    pub open spec fn said(self) -> (Seq<char>, Seq<char>) {
        (self.role@, self.content@)
    }
}

/// Who says what, message by message.
pub open spec fn heard(messages: Seq<ChatMessage>) -> Seq<(Seq<char>, Seq<char>)> {
    Seq::new(messages.len(), |i: int| messages[i].said())
}

impl Clone for ChatMessage {
    fn clone(&self) -> (m: ChatMessage)
        ensures
            m.said() == self.said(),
    {
        ChatMessage { role: self.role.clone(), content: self.content.clone() }
    }
}

/// The standing instructions as a message.
pub fn system_message() -> (m: ChatMessage)
    ensures
        m.said() == ("system"@, SYSTEM_PROMPT@),
{
    ChatMessage { role: "system".to_owned(), content: SYSTEM_PROMPT.to_owned() }
}

/// Pairs of a question and an answer in a history whose first message is the
/// standing instructions. A question that was never answered counts as one.
pub open spec fn exchanges_in(messages: nat) -> nat {
    if messages == 0 {
        0
    } else {
        let said = (messages - 1) as nat;
        (said + 1) / 2
    }
}

/// Pairs of a question and an answer in a history.
pub fn exchange_count(history: &[ChatMessage]) -> (n: usize)
    ensures
        n == exchanges_in(history@.len()),
{
    let messages: usize = history.len();
    if messages == 0 {
        0
    } else {
        messages / 2
    }
}

/// Whether a text is nothing but whitespace.
pub open spec fn blank(s: Seq<char>) -> bool {
    crate::text::trimmed(s).len() == 0
}

/// Whether a text is nothing but whitespace.
pub fn is_blank(s: &str) -> (r: bool)
    ensures
        r == blank(s@),
{
    let chars = chars_of(s);
    assert(chars@.subrange(0, chars@.len() as int) =~= s@);
    let (lo, hi) = trim_bounds(&chars, 0, chars.len());
    lo == hi
}

/// A conversation in progress.
pub struct Conversation {
    pub messages: Vec<ChatMessage>,
    /// Seconds of idling since it was last used.
    pub idle_secs: u64,
}

/// How a turn ended.
#[derive(Debug, Clone, Copy, PartialEq, Eq, Structural)]
pub enum TurnEnd {
    /// The reply is remembered.
    Kept,
    /// The turn was abandoned before anything came back.
    Dropped,
    /// Nothing came back.
    NoResponse,
}

/// A history with a question, unless there is nothing in it.
pub open spec fn asked(
    history: Seq<(Seq<char>, Seq<char>)>,
    question: Option<Seq<char>>,
) -> Seq<(Seq<char>, Seq<char>)> {
    match question {
        Some(text) => if blank(text) {
            history
        } else {
            history.push(("user"@, text))
        },
        None => history,
    }
}

/// How a turn ends: a reply counts even if the turn was cut short.
pub open spec fn ending(reply: Seq<char>, cancelled: bool, got_response: bool) -> TurnEnd {
    if !blank(reply) && (cancelled || got_response) {
        TurnEnd::Kept
    } else if cancelled {
        TurnEnd::Dropped
    } else {
        TurnEnd::NoResponse
    }
}

/// A history that ends in a question, once its turn has ended: with the reply;
/// without the question, if the turn was abandoned before anything came back; as
/// it was, if nothing came back.
pub open spec fn after_turn(
    history: Seq<(Seq<char>, Seq<char>)>,
    reply: Seq<char>,
    cancelled: bool,
    got_response: bool,
) -> Seq<(Seq<char>, Seq<char>)> {
    match ending(reply, cancelled, got_response) {
        TurnEnd::Kept => history.push(("assistant"@, reply)),
        TurnEnd::Dropped => history.drop_last(),
        TurnEnd::NoResponse => history,
    }
}

impl Conversation {
    /// The standing instructions are always there, as the first message.
    pub open spec fn valid(self) -> bool {
        self.messages@.len() > 0 && self.messages@[0].said() == ("system"@, SYSTEM_PROMPT@)
    }

    /// Nothing but the standing instructions.
    pub open spec fn fresh(self) -> bool {
        self.valid() && self.messages@.len() == 1
    }

    /// A fresh conversation.
    pub fn new() -> (c: Conversation)
        ensures
            c.fresh(),
            c.idle_secs == 0,
    {
        let mut messages: Vec<ChatMessage> = Vec::new();
        messages.push(system_message());
        Conversation { messages, idle_secs: 0 }
    }

    /// Pairs of a question and an answer that are remembered.
    pub fn exchanges(&self) -> (n: usize)
        ensures
            n == exchanges_in(self.messages@.len()),
    {
        exchange_count(&self.messages)
    }

    /// Forgets everything but the standing instructions. Returns how many
    /// exchanges were forgotten.
    pub fn clear(&mut self) -> (had: usize)
        requires
            old(self).valid(),
        ensures
            final(self).fresh(),
            final(self).idle_secs == 0,
            final(self).messages@ == old(self).messages@.take(1),
            had == exchanges_in(old(self).messages@.len()),
    {
        let had: usize = self.exchanges();
        self.messages.truncate(1);
        self.idle_secs = 0;
        assert(self.messages@ =~= old(self).messages@.take(1));
        had
    }

    /// One more idle wait has passed. After enough of them the conversation is
    /// forgotten, but for the standing instructions. Returns whether it was.
    pub fn on_idle(&mut self) -> (forgot: bool)
        requires
            old(self).valid(),
            old(self).idle_secs + IDLE_WAIT_SECS <= u64::MAX,
        ensures
            final(self).valid(),
            final(self).idle_secs == old(self).idle_secs + IDLE_WAIT_SECS,
            forgot == (old(self).idle_secs + IDLE_WAIT_SECS >= IDLE_HISTORY_TIMEOUT_SECS && old(
                self,
            ).messages@.len() > 1),
            final(self).messages@ == (if forgot {
                old(self).messages@.take(1)
            } else {
                old(self).messages@
            }),
    {
        self.idle_secs += IDLE_WAIT_SECS;
        if self.idle_secs >= IDLE_HISTORY_TIMEOUT_SECS && self.messages.len() > 1 {
            self.messages.truncate(1);
            assert(self.messages@ =~= old(self).messages@.take(1));
            return true;
        }
        false
    }

    /// A turn begins: idling is over.
    pub fn on_turn(&mut self)
        ensures
            final(self).idle_secs == 0,
            final(self).messages@ == old(self).messages@,
    {
        self.idle_secs = 0;
    }

    /// Remembers what was transcribed as the next question, unless there is
    /// nothing to remember. Returns whether there was.
    pub fn ask(&mut self, transcript: Option<String>) -> (new: bool)
        requires
            old(self).valid(),
        ensures
            final(self).valid(),
            final(self).idle_secs == old(self).idle_secs,
            new == (transcript matches Some(t) && !blank(t@)),
            heard(final(self).messages@) == asked(
                heard(old(self).messages@),
                crate::reply::said(transcript),
            ),
    {
        match transcript {
            Some(text) => {
                if is_blank(&text) {
                    return false;
                }
                self.messages.push(ChatMessage { role: "user".to_owned(), content: text });
                assert(heard(self.messages@) =~= heard(old(self).messages@).push(
                    ("user"@, text@),
                ));
                true
            },
            None => false,
        }
    }

    /// Ends a turn, given the speakable reply. A reply is remembered even if the
    /// turn was cut short; a question that was abandoned before anything came
    /// back is forgotten, so that it is no context for the next one.
    pub fn end_turn(&mut self, reply: String, cancelled: bool, got_response: bool) -> (end: TurnEnd)
        requires
            old(self).valid(),
            old(self).messages@.len() > 1,
        ensures
            final(self).valid(),
            final(self).idle_secs == old(self).idle_secs,
            end == ending(reply@, cancelled, got_response),
            heard(final(self).messages@) == after_turn(
                heard(old(self).messages@),
                reply@,
                cancelled,
                got_response,
            ),
    {
        let blank = is_blank(&reply);
        if cancelled && blank {
            self.messages.truncate(self.messages.len() - 1);
            assert(heard(self.messages@) =~= heard(old(self).messages@).drop_last());
            return TurnEnd::Dropped;
        }
        if !blank && (cancelled || got_response) {
            self.messages.push(ChatMessage { role: "assistant".to_owned(), content: reply });
            assert(heard(self.messages@) =~= heard(old(self).messages@).push(
                ("assistant"@, reply@),
            ));
            return TurnEnd::Kept;
        }
        TurnEnd::NoResponse
    }
}

/// An abandoned turn that brought nothing back leaves the conversation as it
/// was: the question is forgotten with it.
pub proof fn dropped_turn_leaves_no_trace(
    history: Seq<(Seq<char>, Seq<char>)>,
    question: Seq<char>,
    reply: Seq<char>,
    got_response: bool,
)
    requires
        !blank(question),
        blank(reply),
    ensures
        after_turn(asked(history, Some(question)), reply, true, got_response) == history,
{
    assert(asked(history, Some(question)).drop_last() =~= history);
}

/// A question and its reply are one exchange more, whatever stood before them,
/// and whether the reply was cut short or not.
pub proof fn answered_question_is_one_exchange(
    history: Seq<(Seq<char>, Seq<char>)>,
    question: Seq<char>,
    reply: Seq<char>,
    cancelled: bool,
)
    requires
        history.len() > 0,
        !blank(question),
        !blank(reply),
    ensures
        exchanges_in(after_turn(asked(history, Some(question)), reply, cancelled, true).len())
            == exchanges_in(history.len()) + 1,
{
}

/// The standing instructions stay, whatever is asked and however a turn ends.
pub proof fn standing_instructions_stay(
    history: Seq<(Seq<char>, Seq<char>)>,
    question: Seq<char>,
    reply: Seq<char>,
    cancelled: bool,
    got_response: bool,
)
    requires
        history.len() > 0,
        !blank(question),
    ensures
        after_turn(asked(history, Some(question)), reply, cancelled, got_response)[0] == history[0],
{
}

/// What a cleared conversation is announced with.
pub fn cleared_text(had: usize) -> (s: String)
    ensures
        s@ == (if had == 0 {
            "already empty"@
        } else {
            crate::text::decimal(had as nat) + " exchanges cleared"@
        }),
{
    if had == 0 {
        return "already empty".to_owned();
    }
    let mut s = decimal_text(had as u64);
    s.append(" exchanges cleared");
    s
}

// ---------- Replies that were cut off ----------
/// How long a reply is, in characters, without the whitespace around it.
pub open spec fn usable_chars(reply: Seq<char>) -> nat {
    crate::text::trimmed(reply).len()
}

/// Whether the request is not to be sent again: the turn was abandoned, the
/// reply ended as it should, there is enough of it to speak, or it was the last
/// attempt.
pub fn reply_settled(reply: &str, cancelled: bool, ended_well: bool, attempt: usize) -> (r: bool)
    ensures
        r == (cancelled || ended_well || usable_chars(reply@) >= AGENT_MIN_USABLE_CHARS || attempt
            + 1 >= AGENT_ATTEMPTS),
{
    if cancelled || ended_well || attempt >= AGENT_ATTEMPTS - 1 {
        return true;
    }
    let chars = chars_of(reply);
    assert(chars@.subrange(0, chars@.len() as int) =~= reply@);
    let (lo, hi) = trim_bounds(&chars, 0, chars.len());
    assert(chars@.subrange(lo as int, hi as int).len() == hi - lo);
    hi - lo >= AGENT_MIN_USABLE_CHARS
}

// ---------- Uploading a recording ----------
/// What separates the parts of an upload.
pub const BOUNDARY: &'static str = "----esp32s3-voice-assistant-boundary";

/// The line ahead of a part.
pub open spec fn part_line() -> Seq<char> {
    "--"@ + BOUNDARY@ + "\r\n"@
}

/// The body of a transcription request: the model, then the recording.
pub open spec fn upload(model: Seq<char>, wav: Seq<u8>) -> Seq<u8> {
    encode_utf8(part_line()) + encode_utf8(
        "Content-Disposition: form-data; name=\"model\"\r\n\r\n"@,
    ) + encode_utf8(model) + encode_utf8("\r\n"@) + encode_utf8(part_line()) + encode_utf8(
        "Content-Disposition: form-data; name=\"file\"; filename=\"audio.wav\"\r\nContent-Type: audio/wav\r\n\r\n"@,
    ) + wav + encode_utf8("\r\n"@) + encode_utf8("--"@ + BOUNDARY@ + "--\r\n"@)
}

/// The content type of a transcription request.
pub fn upload_content_type() -> (s: String)
    ensures
        s@ == "multipart/form-data; boundary="@ + BOUNDARY@,
{
    let mut s = "multipart/form-data; boundary=".to_owned();
    s.append(BOUNDARY);
    s
}

/// The body of a transcription request.
pub fn upload_body(model: &str, wav: &[u8]) -> (body: Vec<u8>)
    ensures
        body@ == upload(model@, wav@),
{
    let mut line = "--".to_owned();
    line.append(BOUNDARY);
    let mut last = line.clone();
    line.append("\r\n");
    last.append("--\r\n");
    let mut body: Vec<u8> = Vec::new();
    append_text(&mut body, &line);
    append_text(&mut body, "Content-Disposition: form-data; name=\"model\"\r\n\r\n");
    append_text(&mut body, model);
    append_text(&mut body, "\r\n");
    append_text(&mut body, &line);
    append_text(
        &mut body,
        "Content-Disposition: form-data; name=\"file\"; filename=\"audio.wav\"\r\nContent-Type: audio/wav\r\n\r\n",
    );
    append(&mut body, wav);
    append_text(&mut body, "\r\n");
    append_text(&mut body, &last);
    assert(body@ =~= upload(model@, wav@));
    body
}

/// A text is blank exactly if it is nothing but whitespace.
pub proof fn blank_is_nothing_but_whitespace(s: Seq<char>)
    ensures
        blank(s) <==> forall|i: int| 0 <= i < s.len() ==> crate::text::is_white(#[trigger] s[i]),
{
    let t = crate::text::trimmed(s);
    crate::text::trimming_takes_whitespace_off_the_ends(s);
    let lo = choose|lo: int| #[trigger] crate::text::trims_to(s, t, lo);
    if t.len() > 0 {
        assert(t[0] == s[lo]);
    }
}

/// A turn that went well is remembered as it was said: the question, then the
/// reply, behind all that was said before. One that was cut short is too, if
/// anything came back.
pub proof fn turns_are_remembered_as_said(
    history: Seq<(Seq<char>, Seq<char>)>,
    question: Seq<char>,
    reply: Seq<char>,
    cancelled: bool,
    got_response: bool,
)
    requires
        exists|i: int| 0 <= i < question.len() && !crate::text::is_white(#[trigger] question[i]),
        exists|i: int| 0 <= i < reply.len() && !crate::text::is_white(#[trigger] reply[i]),
        cancelled || got_response,
    ensures
        after_turn(asked(history, Some(question)), reply, cancelled, got_response) == history + seq![
            ("user"@, question),
            ("assistant"@, reply),
        ],
        ending(reply, cancelled, got_response) is Kept,
{
    blank_is_nothing_but_whitespace(question);
    blank_is_nothing_but_whitespace(reply);
    assert(history.push(("user"@, question)).push(("assistant"@, reply)) =~= history + seq![
        ("user"@, question),
        ("assistant"@, reply),
    ]);
}

/// A turn that brought nothing back adds no reply: its question is forgotten if it
/// was abandoned, and stays otherwise. What is no question is not remembered.
pub proof fn turns_without_reply_add_none(
    history: Seq<(Seq<char>, Seq<char>)>,
    question: Seq<char>,
    reply: Seq<char>,
    got_response: bool,
)
    requires
        forall|i: int| 0 <= i < reply.len() ==> crate::text::is_white(#[trigger] reply[i]),
    ensures
        history.len() > 0 ==> after_turn(history, reply, true, got_response) == history.drop_last(),
        after_turn(history, reply, false, got_response) == history,
        ending(reply, true, got_response) is Dropped,
        ending(reply, false, got_response) is NoResponse,
        asked(history, None) == history,
        asked(history, Some(reply)) == history,
{
    blank_is_nothing_but_whitespace(reply);
}

/// Exchanges are counted in pairs behind the standing instructions, and a question
/// that is still open is one.
pub proof fn exchanges_are_pairs(k: nat)
    ensures
        exchanges_in(1 + 2 * k) == k,
        exchanges_in(2 + 2 * k) == k + 1,
        exchanges_in(0) == 0,
{
}

/// What is usable of a reply reaches from its first character that is no
/// whitespace to its last.
pub proof fn usable_part_leaves_out_the_ends(reply: Seq<char>, from: int, to: int)
    requires
        0 <= from < to <= reply.len(),
        !crate::text::is_white(reply[from]),
        !crate::text::is_white(reply[to - 1]),
        forall|i: int| 0 <= i < from ==> crate::text::is_white(#[trigger] reply[i]),
        forall|i: int| to <= i < reply.len() ==> crate::text::is_white(#[trigger] reply[i]),
    ensures
        usable_chars(reply) == to - from,
{
    let t = crate::text::trimmed(reply);
    crate::text::trimming_takes_whitespace_off_the_ends(reply);
    let lo = choose|lo: int| #[trigger] crate::text::trims_to(reply, t, lo);
    let hi = lo + t.len();
    assert(lo <= from);
    assert(hi >= to);
    assert(t[0] == reply[lo]);
    assert(t.last() == reply[hi - 1]);
}

/// An upload carries the model and the recording untouched, each in a part of its
/// own, the recording as the file.
pub proof fn uploads_carry_model_and_recording(model: Seq<char>, wav: Seq<u8>)
    ensures
        ({
            let line = "--"@ + "----esp32s3-voice-assistant-boundary"@;
            let head = line + "\r\nContent-Disposition: form-data; name=\"model\"\r\n\r\n"@;
            let between = "\r\n"@ + line
                + "\r\nContent-Disposition: form-data; name=\"file\"; filename=\"audio.wav\"\r\nContent-Type: audio/wav\r\n\r\n"@;
            let tail = "\r\n"@ + line + "--\r\n"@;
            upload(model, wav) == encode_utf8(head) + encode_utf8(model) + encode_utf8(between)
                + wav + encode_utf8(tail)
        }),
{
    let line = "--"@ + "----esp32s3-voice-assistant-boundary"@;
    let a = "Content-Disposition: form-data; name=\"model\"\r\n\r\n"@;
    let b =
        "Content-Disposition: form-data; name=\"file\"; filename=\"audio.wav\"\r\nContent-Type: audio/wav\r\n\r\n"@;
    let a1 = "\r\nContent-Disposition: form-data; name=\"model\"\r\n\r\n"@;
    let b1 =
        "\r\nContent-Disposition: form-data; name=\"file\"; filename=\"audio.wav\"\r\nContent-Type: audio/wav\r\n\r\n"@;
    let nl = "\r\n"@;
    reveal_strlit("\r\n");
    reveal_strlit("Content-Disposition: form-data; name=\"model\"\r\n\r\n");
    reveal_strlit("\r\nContent-Disposition: form-data; name=\"model\"\r\n\r\n");
    reveal_strlit(
        "Content-Disposition: form-data; name=\"file\"; filename=\"audio.wav\"\r\nContent-Type: audio/wav\r\n\r\n",
    );
    reveal_strlit(
        "\r\nContent-Disposition: form-data; name=\"file\"; filename=\"audio.wav\"\r\nContent-Type: audio/wav\r\n\r\n",
    );
    assert(a1 =~= nl + a);
    assert(b1 =~= nl + b);
    let part = line + nl;
    crate::text::lemma_encode_concat(part, a);
    assert(part + a =~= line + a1);
    crate::text::lemma_encode_concat(nl + part, b);
    crate::text::lemma_encode_concat(nl, part);
    assert(nl + part + b =~= nl + line + b1);
    crate::text::lemma_encode_concat(nl, line + "--\r\n"@);
    assert(nl + (line + "--\r\n"@) =~= nl + line + "--\r\n"@);
    assert(upload(model, wav) =~= encode_utf8(line + a1) + encode_utf8(model) + encode_utf8(
        nl + line + b1,
    ) + wav + encode_utf8(nl + line + "--\r\n"@));
}

} // verus!
