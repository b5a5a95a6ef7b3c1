//! Runtime-editable configuration, and the checksummed record that keeps it.
//!
//! Nothing is baked in: a fresh device is blank, is set up through the portal,
//! and reads its settings back from one record at the start of a flash
//! partition:
//!
//! ```text
//!   0..4    magic "E32S"
//!   4       format version
//!   5       speaker volume in percent
//!   6..8    payload length, little-endian
//!   8..12   CRC-32 of the payload, little-endian
//!   12..    payload: every field in order, each a length and UTF-8 bytes
//! ```
//!
//! Whatever fails to validate reads as no settings at all.
use crate::bytes::{append, append_le16, append_le32, copy_at, read_le16, read_le32};
use crate::crc::crc32;
use crate::text::{chars_of, starts_with, string_of, strip_suffix, trim, trim_end_matches, utf8_text};
use vstd::prelude::*;
use vstd::slice::slice_subrange;
use vstd::utf8::*;

verus! {

/// Format version of the record.
pub const VERSION: u8 = 2;

/// Bytes ahead of the payload.
pub const HEADER_LEN: usize = 12;

/// The most bytes a stored record may take: one flash sector.
pub const MAX_RECORD: usize = 4096;

/// The speaker volume of a device nobody has set up yet, in percent: the codec's
/// 70.
pub const DEFAULT_VOLUME: u8 = 82;

/// The codec volume that the top of the user-facing scale maps to.
pub const MAX_CODEC_VOLUME: u8 = 85;

/// Operation path of a chat completion.
pub const OP_CHAT_COMPLETIONS: &'static str = "/chat/completions";

/// Operation path of a transcription.
pub const OP_TRANSCRIPTIONS: &'static str = "/audio/transcriptions";

/// Operation path of speech synthesis.
pub const OP_SPEECH: &'static str = "/audio/speech";

/// The editable string fields, in serialization order.
#[derive(Debug, Clone, Copy, PartialEq, Eq, Structural)]
pub enum Field {
    WifiSsid,
    WifiPassword,
    AgentBaseUrl,
    AgentApiKey,
    AgentModel,
    SpeechBaseUrl,
    SpeechApiKey,
    SpeechSttModel,
    SpeechTtsModel,
}

/// Every field, in the order the record stores them and the form shows them.
pub const FIELD_ORDER: [Field; 9] = [
    Field::WifiSsid,
    Field::WifiPassword,
    Field::AgentBaseUrl,
    Field::AgentApiKey,
    Field::AgentModel,
    Field::SpeechBaseUrl,
    Field::SpeechApiKey,
    Field::SpeechSttModel,
    Field::SpeechTtsModel,
];

impl Field {
    /// The place of the field in `FIELD_ORDER`.
    pub open spec fn place(self) -> int {
        match self {
            Field::WifiSsid => 0,
            Field::WifiPassword => 1,
            Field::AgentBaseUrl => 2,
            Field::AgentApiKey => 3,
            Field::AgentModel => 4,
            Field::SpeechBaseUrl => 5,
            Field::SpeechApiKey => 6,
            Field::SpeechSttModel => 7,
            Field::SpeechTtsModel => 8,
        }
    }

    /// The field at place `i`.
    pub open spec fn at(i: int) -> Field {
        FIELD_ORDER@[i]
    }

    pub open spec fn key_text(self) -> Seq<char> {
        match self {
            Field::WifiSsid => "wifi_ssid"@,
            Field::WifiPassword => "wifi_password"@,
            Field::AgentBaseUrl => "agent_base_url"@,
            Field::AgentApiKey => "agent_api_key"@,
            Field::AgentModel => "agent_model"@,
            Field::SpeechBaseUrl => "speech_base_url"@,
            Field::SpeechApiKey => "speech_api_key"@,
            Field::SpeechSttModel => "speech_stt_model"@,
            Field::SpeechTtsModel => "speech_tts_model"@,
        }
    }

    pub open spec fn label_text(self) -> Seq<char> {
        match self {
            Field::WifiSsid => "Wi-Fi network (SSID)"@,
            Field::WifiPassword => "Wi-Fi password"@,
            Field::AgentBaseUrl => "Agent base URL"@,
            Field::AgentApiKey => "Agent API key"@,
            Field::AgentModel => "Agent model"@,
            Field::SpeechBaseUrl => "Speech base URL"@,
            Field::SpeechApiKey => "Speech API key"@,
            Field::SpeechSttModel => "Transcription model"@,
            Field::SpeechTtsModel => "Voice model"@,
        }
    }

    pub open spec fn hint_text(self) -> Seq<char> {
        match self {
            Field::WifiSsid => "network name"@,
            Field::WifiPassword => "blank for an open network"@,
            Field::AgentBaseUrl => "https://host.example.net/v1"@,
            Field::AgentApiKey => "blank if the endpoint needs no key"@,
            Field::AgentModel => "model id"@,
            Field::SpeechBaseUrl => "https://host.example.net/v1"@,
            Field::SpeechApiKey => "blank if the endpoint needs no key"@,
            Field::SpeechSttModel => "transcription model id"@,
            Field::SpeechTtsModel => "voice model id"@,
        }
    }

    pub open spec fn secret(self) -> bool {
        self == Field::WifiPassword || self == Field::AgentApiKey || self == Field::SpeechApiKey
    }

    pub open spec fn base_url(self) -> bool {
        self == Field::AgentBaseUrl || self == Field::SpeechBaseUrl
    }

    /// A blank is usable unless the field is required; a base URL has to name
    /// its scheme.
    pub open spec fn usable(self, value: Seq<char>) -> bool {
        if value.len() == 0 {
            self.secret()
        } else if self.base_url() {
            crate::text::begins_with(value, "https://"@) || crate::text::begins_with(
                value,
                "http://"@,
            )
        } else {
            true
        }
    }

    /// Stable identifier used as the HTML form field name.
    pub fn key(self) -> (s: &'static str)
        ensures
            s@ == self.key_text(),
    {
        match self {
            Field::WifiSsid => "wifi_ssid",
            Field::WifiPassword => "wifi_password",
            Field::AgentBaseUrl => "agent_base_url",
            Field::AgentApiKey => "agent_api_key",
            Field::AgentModel => "agent_model",
            Field::SpeechBaseUrl => "speech_base_url",
            Field::SpeechApiKey => "speech_api_key",
            Field::SpeechSttModel => "speech_stt_model",
            Field::SpeechTtsModel => "speech_tts_model",
        }
    }

    /// What the field is called on screen and in the form.
    pub fn label(self) -> (s: &'static str)
        ensures
            s@ == self.label_text(),
    {
        match self {
            Field::WifiSsid => "Wi-Fi network (SSID)",
            Field::WifiPassword => "Wi-Fi password",
            Field::AgentBaseUrl => "Agent base URL",
            Field::AgentApiKey => "Agent API key",
            Field::AgentModel => "Agent model",
            Field::SpeechBaseUrl => "Speech base URL",
            Field::SpeechApiKey => "Speech API key",
            Field::SpeechSttModel => "Transcription model",
            Field::SpeechTtsModel => "Voice model",
        }
    }

    /// Example value shown as the form's placeholder.
    pub fn hint(self) -> (s: &'static str)
        ensures
            s@ == self.hint_text(),
    {
        match self {
            Field::WifiSsid => "network name",
            Field::WifiPassword => "blank for an open network",
            Field::AgentBaseUrl => "https://host.example.net/v1",
            Field::AgentApiKey => "blank if the endpoint needs no key",
            Field::AgentModel => "model id",
            Field::SpeechBaseUrl => "https://host.example.net/v1",
            Field::SpeechApiKey => "blank if the endpoint needs no key",
            Field::SpeechSttModel => "transcription model id",
            Field::SpeechTtsModel => "voice model id",
        }
    }

    /// Whether the value must never be shown back to anyone.
    pub fn is_secret(self) -> (r: bool)
        ensures
            r == self.secret(),
    {
        matches!(self, Field::WifiPassword | Field::AgentApiKey | Field::SpeechApiKey)
    }

    /// Whether the value is a complete `scheme://host[:port][/prefix]`.
    pub fn is_base_url(self) -> (r: bool)
        ensures
            r == self.base_url(),
    {
        matches!(self, Field::AgentBaseUrl | Field::SpeechBaseUrl)
    }

    /// Whether `value` is usable for this field.
    pub fn accepts(self, value: &str) -> (r: bool)
        ensures
            r == self.usable(value@),
    {
        if value.is_empty() {
            return !self.is_required();
        }
        if self.is_base_url() {
            return starts_with(value, "https://") || starts_with(value, "http://");
        }
        true
    }

    /// Whether the device can do anything at all without this field.
    pub fn is_required(self) -> (r: bool)
        ensures
            r == !self.secret(),
    {
        !matches!(self, Field::WifiPassword | Field::AgentApiKey | Field::SpeechApiKey)
    }
}

/// `FIELD_ORDER` lists every field once, each at its own place.
pub proof fn field_order_is_complete(f: Field, i: int)
    ensures
        0 <= f.place() < 9,
        Field::at(f.place()) == f,
        0 <= i < 9 ==> Field::at(i).place() == i,
{
}

/// A form key names one field only.
pub proof fn keys_are_distinct(f: Field, g: Field)
    requires
        f.key_text() == g.key_text(),
    ensures
        f == g,
{
    reveal_strlit("wifi_ssid");
    reveal_strlit("wifi_password");
    reveal_strlit("agent_base_url");
    reveal_strlit("agent_api_key");
    reveal_strlit("agent_model");
    reveal_strlit("speech_base_url");
    reveal_strlit("speech_api_key");
    reveal_strlit("speech_stt_model");
    reveal_strlit("speech_tts_model");
    let a = f.key_text();
    let b = g.key_text();
    assert(a.len() == b.len());
    assert(a[7] == b[7] && a[5] == b[5]);
}

// ---------- Base URLs ----------
/// A pasted base URL without surrounding whitespace, trailing slashes or
/// operation path.
pub open spec fn clean_base_url(value: Seq<char>) -> Seq<char> {
    let a = crate::text::without_trailing(crate::text::trimmed(value), '/');
    let b = crate::text::without_suffix(a, OP_CHAT_COMPLETIONS@);
    let c = crate::text::without_suffix(b, OP_TRANSCRIPTIONS@);
    let d = crate::text::without_suffix(c, OP_SPEECH@);
    crate::text::without_trailing(d, '/')
}

/// Cleans a pasted base URL.
fn cleaned(value: &str) -> (r: String)
    ensures
        r@ == clean_base_url(value@),
{
    let t = trim(value);
    let v = chars_of(&t);
    assert(v@.take(v@.len() as int) =~= v@);
    let a: usize = trim_end_matches(&v, v.len(), '/');
    let b: usize = strip_suffix(&v, a, OP_CHAT_COMPLETIONS);
    let c: usize = strip_suffix(&v, b, OP_TRANSCRIPTIONS);
    let d: usize = strip_suffix(&v, c, OP_SPEECH);
    let e: usize = trim_end_matches(&v, d, '/');
    assert(v@.subrange(0, e as int) =~= v@.take(e as int));
    string_of(&v, 0, e)
}

/// Text without a run at its end does not end in it.
proof fn lemma_without_trailing(s: Seq<char>, c: char)
    ensures
        crate::text::without_trailing(s, c).len() == 0 || crate::text::without_trailing(s, c).last()
            != c,
    decreases s.len(),
{
    if s.len() > 0 && s.last() == c {
        lemma_without_trailing(s.drop_last(), c);
    }
}

/// A stored base URL never ends in a slash, so an operation path can follow it
/// directly.
pub proof fn base_url_never_ends_in_a_slash(value: Seq<char>)
    ensures
        clean_base_url(value).len() == 0 || clean_base_url(value).last() != '/',
{
    let a = crate::text::without_trailing(crate::text::trimmed(value), '/');
    let b = crate::text::without_suffix(a, OP_CHAT_COMPLETIONS@);
    let c = crate::text::without_suffix(b, OP_TRANSCRIPTIONS@);
    lemma_without_trailing(crate::text::without_suffix(c, OP_SPEECH@), '/');
}

/// Whether `op` is one of the operation paths.
pub open spec fn is_operation(op: Seq<char>) -> bool {
    op == OP_CHAT_COMPLETIONS@ || op == OP_TRANSCRIPTIONS@ || op == OP_SPEECH@
}

/// Whether cleaning has nothing to take off `base`: no whitespace around it,
/// no slash and no operation path at its end.
pub open spec fn is_bare_base(base: Seq<char>) -> bool {
    &&& base.len() > 0 ==> !crate::text::is_white(base[0]) && !crate::text::is_white(base.last())
        && base.last() != '/'
    &&& !crate::text::ends_with(base, OP_CHAT_COMPLETIONS@)
    &&& !crate::text::ends_with(base, OP_TRANSCRIPTIONS@)
    &&& !crate::text::ends_with(base, OP_SPEECH@)
}

/// Pasting a whole endpoint URL leaves the base it was built on, so no
/// operation path is ever doubled; a bare base is kept as it is.
pub proof fn pasted_endpoint_leaves_its_base(base: Seq<char>, op: Seq<char>)
    requires
        is_bare_base(base),
        is_operation(op),
    ensures
        clean_base_url(base + op) == base,
        clean_base_url(base) == base,
{
    reveal_strlit("/chat/completions");
    reveal_strlit("/audio/transcriptions");
    reveal_strlit("/audio/speech");
    let url = base + op;
    assert(crate::text::trimmed(url) == url);
    assert(crate::text::without_trailing(url, '/') == url);
    assert(url.subrange(0, url.len() - op.len()) =~= base);
    assert(url.subrange(url.len() - op.len(), url.len() as int) =~= op);
    if op == OP_TRANSCRIPTIONS@ {
        let end = url.subrange(url.len() - 17, url.len() as int);
        assert(end[10] == 'i');
        assert(OP_CHAT_COMPLETIONS@[10] == 'l');
        assert(!crate::text::ends_with(url, OP_CHAT_COMPLETIONS@));
    } else if op == OP_SPEECH@ {
        assert(url.last() == 'h');
        assert(url.subrange(url.len() - 17, url.len() as int).last() == 'h' || url.len() < 17);
        assert(OP_CHAT_COMPLETIONS@.last() == 's');
        assert(!crate::text::ends_with(url, OP_CHAT_COMPLETIONS@));
        assert(url.subrange(url.len() - 21, url.len() as int).last() == 'h' || url.len() < 21);
        assert(OP_TRANSCRIPTIONS@.last() == 's');
        assert(!crate::text::ends_with(url, OP_TRANSCRIPTIONS@));
    }
}

// ---------- The settings ----------
/// What the device is configured with.
pub struct Settings {
    /// The value of every field, in `FIELD_ORDER`.
    pub fields: [String; 9],
    /// User-facing percentage. The codec takes `codec_volume()`, never this.
    pub volume: u8,
}

impl Settings {
    /// The value of a field.
    pub open spec fn text(self, f: Field) -> Seq<char> {
        self.fields@[f.place()]@
    }

    /// The values of all fields, in order.
    pub open spec fn texts(self) -> Seq<Seq<char>> {
        Seq::new(9, |i: int| self.fields@[i]@)
    }

    /// Field `f` set to `value`, everything else as it was in `before`.
    pub open spec fn is_update(self, before: Settings, f: Field, value: Seq<char>) -> bool {
        &&& self.volume == before.volume
        &&& self.text(f) == value
        &&& forall|g: Field| g != f ==> self.text(g) == before.text(g)
    }

    /// `volume` mapped onto the codec's usable range, to the nearest step.
    pub fn codec_volume(&self) -> (v: u8)
        ensures
            v == ((if self.volume <= 100 {
                self.volume as int
            } else {
                100
            }) * 85 + 50) / 100,
            v <= MAX_CODEC_VOLUME,
            self.volume <= 100 ==> -50 <= v * 100 - self.volume * 85 <= 50,
            self.volume >= 100 ==> v == 85,
    {
        let capped: u8 = if self.volume <= 100 {
            self.volume
        } else {
            100
        };
        ((capped as u16 * MAX_CODEC_VOLUME as u16 + 50) / 100) as u8
    }

    /// A blank device: no network, no endpoints, no models.
    pub fn unconfigured() -> (s: Settings)
        ensures
            forall|f: Field| s.text(f) == Seq::<char>::empty(),
            s.volume == DEFAULT_VOLUME,
    {
        Settings {
            fields: [
                String::new(),
                String::new(),
                String::new(),
                String::new(),
                String::new(),
                String::new(),
                String::new(),
                String::new(),
                String::new(),
            ],
            volume: DEFAULT_VOLUME,
        }
    }

    /// The first field that is not usable, in form order.
    pub fn first_invalid(&self) -> (r: Option<Field>)
        ensures
            match r {
                Some(f) => !f.usable(self.text(f)) && forall|g: Field|
                    g.place() < f.place() ==> g.usable(self.text(g)),
                None => forall|g: Field| g.usable(self.text(g)),
            },
    {
        let mut i: usize = 0;
        while i < 9
            invariant
                i <= 9,
                forall|g: Field| g.place() < i ==> g.usable(self.text(g)),
            decreases 9 - i,
        {
            let f = FIELD_ORDER[i];
            if !f.accepts(self.get(f)) {
                return Some(f);
            }
            assert forall|g: Field| g.place() < i + 1 implies g.usable(self.text(g)) by {
                field_order_is_complete(g, i as int);
            }
            i += 1;
        }
        None
    }

    fn index(field: Field) -> (i: usize)
        ensures
            i == field.place(),
            i < 9,
    {
        let mut i: usize = 0;
        while i < 8 && FIELD_ORDER[i] != field
            invariant
                i <= 8,
                forall|j: int| 0 <= j < i ==> FIELD_ORDER@[j] != field,
            decreases 8 - i,
        {
            i += 1;
        }
        proof {
            field_order_is_complete(field, i as int);
        }
        i
    }

    /// The value of a field.
    pub fn get(&self, field: Field) -> (s: &str)
        ensures
            s@ == self.text(field),
    {
        self.fields[Self::index(field)].as_str()
    }

    /// Sets a field. A base URL is cleaned of what people paste along with it;
    /// its scheme is left exactly as typed.
    pub fn set(&mut self, field: Field, value: String)
        ensures
            final(self).is_update(
                *old(self),
                field,
                if field.base_url() {
                    clean_base_url(value@)
                } else {
                    value@
                },
            ),
    {
        let value = if field.is_base_url() {
            cleaned(&value)
        } else {
            value
        };
        let i: usize = Self::index(field);
        self.fields[i] = value;
    }

    /// Full request URL for one operation on one of the two services.
    pub fn endpoint(&self, base: Field, op: &str) -> (url: String)
        ensures
            url@ == self.text(base) + op@,
    {
        let mut url = self.get(base).to_owned();
        url.append(op);
        url
    }

    /// `Authorization` header value for one of the two services.
    pub fn bearer(&self, key: Field) -> (value: String)
        ensures
            value@ == "Bearer "@ + self.text(key),
    {
        let mut value = "Bearer ".to_owned();
        value.append(self.get(key));
        value
    }

    pub fn wifi_ssid(&self) -> (s: &str)
        ensures
            s@ == self.text(Field::WifiSsid),
    {
        self.get(Field::WifiSsid)
    }

    pub fn wifi_password(&self) -> (s: &str)
        ensures
            s@ == self.text(Field::WifiPassword),
    {
        self.get(Field::WifiPassword)
    }
}

/// A blank device is not usable as it stands: the very first field of the form
/// is missing.
pub proof fn blank_device_needs_setup(settings: Settings)
    requires
        forall|f: Field| settings.text(f) == Seq::<char>::empty(),
    ensures
        !Field::at(0).usable(settings.text(Field::at(0))),
{
}

impl Clone for Settings {
    fn clone(&self) -> (s: Settings)
        ensures
            s.volume == self.volume,
            s.texts() == self.texts(),
    {
        let s = Settings {
            fields: [
                self.fields[0].clone(),
                self.fields[1].clone(),
                self.fields[2].clone(),
                self.fields[3].clone(),
                self.fields[4].clone(),
                self.fields[5].clone(),
                self.fields[6].clone(),
                self.fields[7].clone(),
                self.fields[8].clone(),
            ],
            volume: self.volume,
        };
        assert(s.texts() =~= self.texts());
        s
    }
}

// ---------- The record ----------
/// What a record begins with.
pub const MAGIC: [u8; 4] = [0x45, 0x33, 0x32, 0x53];

/// One stored field: its length in bytes, then its bytes.
pub open spec fn stored_field(text: Seq<char>) -> Seq<u8> {
    crate::bytes::le16(crate::text::byte_len(text)) + encode_utf8(text)
}

/// The stored fields, one after the other.
pub open spec fn payload_of(texts: Seq<Seq<char>>) -> Seq<u8>
    decreases texts.len(),
{
    if texts.len() == 0 {
        Seq::empty()
    } else {
        payload_of(texts.drop_last()) + stored_field(texts.last())
    }
}

/// The bytes ahead of `payload`.
pub open spec fn header_of(volume: u8, payload: Seq<u8>) -> Seq<u8> {
    MAGIC@ + seq![VERSION, volume] + crate::bytes::le16(payload.len()) + crate::bytes::le32(
        crate::crc::crc32_of(payload) as nat,
    )
}

/// `n` rounded up to a whole number of flash words.
pub open spec fn padded(n: nat) -> nat {
    (n + 3) / 4 * 4
}

/// What fields leave in `room` bytes, each written in turn, and whether all of
/// them went in. The first that is longer than its length can count, or that
/// does not fit, is the last to be tried; its length stays where only the text
/// lacks room.
pub open spec fn fields_in(texts: Seq<Seq<char>>, room: int) -> (Seq<u8>, bool)
    decreases texts.len(),
{
    if texts.len() == 0 {
        (Seq::empty(), true)
    } else {
        let (before, whole) = fields_in(texts.drop_last(), room);
        let n = crate::text::byte_len(texts.last());
        if !whole || n > 0xFFFF || before.len() + 2 > room {
            (before, false)
        } else if before.len() + 2 + n > room {
            (before + crate::bytes::le16(n), false)
        } else {
            (before + stored_field(texts.last()), true)
        }
    }
}

/// `out` with `bytes` written over it from `at` on.
pub open spec fn overlaid(out: Seq<u8>, at: int, bytes: Seq<u8>) -> Seq<u8> {
    Seq::new(
        out.len(),
        |i: int|
            if at <= i < at + bytes.len() {
                bytes[i - at]
            } else {
                out[i]
            },
    )
}

impl Settings {
    /// What a buffer holds once a record did not fit into it: the fields, as far
    /// as they went in, and ahead of them the header if only the padding lacked
    /// room.
    pub open spec fn left_in(self, out: Seq<u8>) -> Seq<u8> {
        let (bytes, whole) = fields_in(self.texts(), out.len() - HEADER_LEN);
        if whole && bytes.len() <= 0xFFFF {
            overlaid(out, 0, header_of(self.volume, bytes) + bytes)
        } else {
            overlaid(out, HEADER_LEN as int, bytes)
        }
    }

    /// What is stored of the fields.
    pub open spec fn payload(self) -> Seq<u8> {
        payload_of(self.texts())
    }

    /// The record, up to a whole number of flash words.
    pub open spec fn record(self) -> Seq<u8> {
        let bytes = header_of(self.volume, self.payload()) + self.payload();
        bytes + Seq::new((padded(bytes.len()) - bytes.len()) as nat, |i: int| 0u8)
    }

    /// Whether the payload's length fits the header.
    pub open spec fn storable(self) -> bool {
        self.payload().len() <= 0xFFFF
    }
}

/// The field stored at `at`, and where the next one begins.
pub open spec fn parse_field(payload: Seq<u8>, at: int) -> Option<(Seq<char>, int)> {
    if at + 2 > payload.len() {
        None
    } else {
        let end = at + 2 + crate::bytes::le16_at(payload, at);
        if end > payload.len() || !valid_utf8(payload.subrange(at + 2, end)) {
            None
        } else {
            Some((decode_utf8(payload.subrange(at + 2, end)), end))
        }
    }
}

/// The first `k` stored fields, and where they end.
pub open spec fn parse_fields(payload: Seq<u8>, k: nat) -> Option<(Seq<Seq<char>>, int)>
    decreases k,
{
    if k == 0 {
        Some((Seq::empty(), 0))
    } else {
        match parse_fields(payload, (k - 1) as nat) {
            None => None,
            Some((texts, at)) => match parse_field(payload, at) {
                None => None,
                Some((text, end)) => Some((texts.push(text), end)),
            },
        }
    }
}

/// Whether a record begins with a header this version understands, and holds
/// the payload that the header promises.
pub open spec fn intact(record: Seq<u8>) -> bool {
    &&& record.len() >= HEADER_LEN
    &&& record.take(4) == MAGIC@
    &&& record[4] == VERSION
    &&& record.len() >= HEADER_LEN + crate::bytes::le16_at(record, 6)
    &&& crate::crc::crc32_of(payload_in(record)) == crate::bytes::le32_at(record, 8)
}

/// The payload that a record holds.
pub open spec fn payload_in(record: Seq<u8>) -> Seq<u8> {
    record.subrange(HEADER_LEN as int, HEADER_LEN + crate::bytes::le16_at(record, 6))
}

/// The fields and the volume that a record stands for.
pub open spec fn decoded(record: Seq<u8>) -> Option<(Seq<Seq<char>>, u8)> {
    if !intact(record) {
        None
    } else {
        match parse_fields(payload_in(record), 9) {
            None => None,
            Some((texts, _)) => Some((texts, capped(record[5]))),
        }
    }
}

/// A volume, at most 100 percent.
pub open spec fn capped(volume: u8) -> u8 {
    if volume <= 100 {
        volume
    } else {
        100
    }
}

/// A longer list of fields never has a shorter payload.
proof fn lemma_payload_prefix(texts: Seq<Seq<char>>, k: int)
    requires
        0 <= k <= texts.len(),
    ensures
        payload_of(texts.take(k)).len() <= payload_of(texts).len(),
        payload_of(texts).take(payload_of(texts.take(k)).len() as int) == payload_of(texts.take(k)),
    decreases texts.len() - k,
{
    if k == texts.len() {
        assert(texts.take(k) =~= texts);
        assert(payload_of(texts).take(payload_of(texts).len() as int) =~= payload_of(texts));
    } else {
        lemma_payload_prefix(texts, k + 1);
        assert(texts.take(k + 1).drop_last() =~= texts.take(k));
        let longer = payload_of(texts.take(k + 1));
        let shorter = payload_of(texts.take(k));
        assert(payload_of(texts).take(longer.len() as int).take(shorter.len() as int)
            =~= payload_of(texts).take(shorter.len() as int));
        assert(longer.take(shorter.len() as int) =~= shorter);
    }
}

/// Bytes written right behind others are written with them.
proof fn lemma_written_behind(out: Seq<u8>, at: int, done: Seq<u8>, more: Seq<u8>)
    requires
        0 <= at,
        at + done.len() + more.len() <= out.len(),
    ensures
        ({
            let now = overlaid(out, at, done);
            let p = at + done.len();
            now.take(p) + more + now.skip(p + more.len()) == overlaid(out, at, done + more)
        }),
{
    let now = overlaid(out, at, done);
    let p = at + done.len();
    assert(now.take(p) + more + now.skip(p + more.len()) =~= overlaid(out, at, done + more));
}

/// Once a field did not go in, no later one is tried.
proof fn lemma_fields_stop(texts: Seq<Seq<char>>, k: int, room: int)
    requires
        0 <= k <= texts.len(),
        !fields_in(texts.take(k), room).1,
    ensures
        fields_in(texts, room) == fields_in(texts.take(k), room),
    decreases texts.len() - k,
{
    if k == texts.len() {
        assert(texts.take(k) =~= texts);
    } else {
        assert(texts.take(k + 1).drop_last() =~= texts.take(k));
        lemma_fields_stop(texts, k + 1, room);
    }
}

/// Parsing a payload gives its fields back.
proof fn lemma_parse_payload(texts: Seq<Seq<char>>, k: nat)
    requires
        k <= texts.len(),
        payload_of(texts).len() <= 0xFFFF,
    ensures
        parse_fields(payload_of(texts), k) == Some(
            (texts.take(k as int), payload_of(texts.take(k as int)).len() as int),
        ),
    decreases k,
{
    if k == 0 {
        assert(texts.take(0) =~= Seq::<Seq<char>>::empty());
    } else {
        let p = payload_of(texts);
        let j = k - 1;
        lemma_parse_payload(texts, j as nat);
        lemma_payload_prefix(texts, k as int);
        let before = payload_of(texts.take(j));
        let through = payload_of(texts.take(k as int));
        let t = texts[j];
        assert(texts.take(k as int).drop_last() =~= texts.take(j));
        assert(through == before + stored_field(t));
        let at = before.len() as int;
        let n = crate::text::byte_len(t);
        assert(stored_field(t).len() == 2 + n);
        let end = at + 2 + n;
        assert(through.len() == end);
        assert(p.take(end) == through);
        assert(p.subrange(at, at + 2) =~= crate::bytes::le16(n)) by {
            assert(through.subrange(at, at + 2) =~= crate::bytes::le16(n));
            assert(p.take(end).subrange(at, at + 2) =~= p.subrange(at, at + 2));
        }
        crate::bytes::lemma_le16(n, p, at);
        assert(p.subrange(at + 2, end) =~= encode_utf8(t)) by {
            assert(through.subrange(at + 2, end) =~= encode_utf8(t));
            assert(p.take(end).subrange(at + 2, end) =~= p.subrange(at + 2, end));
        }
        encode_utf8_valid_utf8(t);
        encode_utf8_decode_utf8(t);
        assert(texts.take(j).push(t) =~= texts.take(k as int));
    }
}

/// Where the parts of a header stand in a record that begins with it.
proof fn lemma_header(record: Seq<u8>, volume: u8, payload: Seq<u8>)
    requires
        payload.len() <= 0xFFFF,
        record.len() >= HEADER_LEN + payload.len(),
        record.take(HEADER_LEN + payload.len()) == header_of(volume, payload) + payload,
    ensures
        intact(record),
        payload_in(record) == payload,
        record[5] == volume,
{
    let h = header_of(volume, payload);
    let whole = h + payload;
    assert(MAGIC@.len() == 4);
    assert(h.len() == HEADER_LEN);
    assert forall|i: int| 0 <= i < whole.len() implies record[i] == whole[i] by {
        assert(record.take(HEADER_LEN + payload.len())[i] == record[i]);
    }
    assert(record.take(4) =~= MAGIC@);
    assert(record.subrange(6, 8) =~= crate::bytes::le16(payload.len()));
    crate::bytes::lemma_le16(payload.len(), record, 6);
    assert(record.subrange(8, 12) =~= crate::bytes::le32(crate::crc::crc32_of(payload) as nat));
    crate::bytes::lemma_le32(crate::crc::crc32_of(payload) as nat, record, 8);
    assert(payload_in(record) =~= payload);
}

/// What was stored is what is read back: a record followed by anything at all
/// decodes to the fields it was made of, and to the volume in range.
pub proof fn record_reads_back(settings: Settings, tail: Seq<u8>)
    requires
        settings.storable(),
    ensures
        decoded(settings.record() + tail) == Some((settings.texts(), capped(settings.volume))),
{
    let p = settings.payload();
    let r = settings.record() + tail;
    assert(MAGIC@.len() == 4);
    assert(r.take(HEADER_LEN + p.len()) =~= header_of(settings.volume, p) + p);
    lemma_header(r, settings.volume, p);
    lemma_parse_payload(settings.texts(), 9);
    assert(settings.texts().take(9) =~= settings.texts());
}

/// One wrong byte in a stored record, and the record reads as no settings at all:
/// in the magic, the version, the checksum or anywhere in the payload. (The
/// volume stands for itself, and the length decides what the payload is.)
pub proof fn damaged_record_reads_as_nothing(settings: Settings, tail: Seq<u8>, at: int, byte: u8)
    requires
        settings.storable(),
        0 <= at < HEADER_LEN + settings.payload().len(),
        !(5 <= at < 8),
        byte != settings.record()[at],
    ensures
        decoded((settings.record() + tail).update(at, byte)) is None,
{
    let p = settings.payload();
    let r = settings.record() + tail;
    assert(MAGIC@.len() == 4);
    assert(r.take(HEADER_LEN + p.len()) =~= header_of(settings.volume, p) + p);
    lemma_header(r, settings.volume, p);
    let d = r.update(at, byte);
    if at < 4 {
        assert(r.take(4)[at] == r[at]);
        assert(d.take(4)[at] == byte);
    } else if at == 4 {
        assert(d[4] == byte);
    } else if at < HEADER_LEN {
        assert(payload_in(d) =~= p);
        assert(crate::bytes::le32_at(d, 8) != crate::bytes::le32_at(r, 8));
    } else {
        let q = p.update(at - HEADER_LEN, byte);
        assert(p[at - HEADER_LEN] == settings.record()[at]);
        crate::crc::crc_detects_any_changed_byte(p, at - HEADER_LEN, byte);
        assert(payload_in(d) =~= q);
    }
}

/// Erased flash reads as no settings at all.
pub proof fn erased_flash_reads_as_nothing(flash: Seq<u8>)
    requires
        forall|i: int| 0 <= i < flash.len() ==> flash[i] == 0xFF,
    ensures
        decoded(flash) is None,
{
    if flash.len() >= HEADER_LEN {
        assert(flash.take(4)[0] == 0xFF);
        assert(MAGIC@[0] == 0x45);
    }
}

impl Settings {
    /// Writes the record at the start of `out` and returns its length, already
    /// padded to a whole number of flash words. Nothing comes back with too
    /// little room, or with more text than the header can count; what was
    /// written until then stays in `out`.
    #[verifier::spinoff_prover]
    #[verifier::rlimit(60)]
    pub fn encode_into(&self, out: &mut [u8]) -> (r: Option<usize>)
        ensures
            final(out)@.len() == old(out)@.len(),
            r is Some <==> self.storable() && self.record().len() <= old(out)@.len(),
            r matches Some(n) ==> n == self.record().len() && final(out)@ == self.record() + old(
                out,
            )@.skip(n as int),
            r is None ==> final(out)@ == self.left_in(old(out)@),
    {
        assert(MAGIC@.len() == 4);
        let ghost before = out@;
        let ghost space = before.len() - HEADER_LEN;
        let room: usize = out.len();
        let mut cursor: usize = HEADER_LEN;
        let mut i: usize = 0;
        proof {
            assert(self.texts().take(0) =~= Seq::<Seq<char>>::empty());
            assert(out@ =~= overlaid(before, HEADER_LEN as int, Seq::empty()));
        }
        while i < 9
            invariant
                i <= 9,
                before == old(out)@,
                room == before.len() == space + HEADER_LEN,
                i == 0 || cursor <= room,
                cursor == HEADER_LEN + payload_of(self.texts().take(i as int)).len(),
                fields_in(self.texts().take(i as int), space) == (
                    payload_of(self.texts().take(i as int)),
                    true,
                ),
                out@ == overlaid(
                    before,
                    HEADER_LEN as int,
                    payload_of(self.texts().take(i as int)),
                ),
            decreases 9 - i,
        {
            let text = self.get(FIELD_ORDER[i]);
            let bytes = text.as_bytes();
            let ghost done = payload_of(self.texts().take(i as int));
            let ghost prefix = self.texts().take(i + 1);
            proof {
                field_order_is_complete(Field::at(i as int), i as int);
                assert(text@ == self.texts()[i as int]);
                assert(prefix.drop_last() =~= self.texts().take(i as int));
                assert(prefix.last() == text@);
                lemma_payload_prefix(self.texts(), i + 1);
                if !fields_in(prefix, space).1 {
                    lemma_fields_stop(self.texts(), i + 1, space);
                }
            }
            if bytes.len() > 0xFFFF || room < cursor || room - cursor < 2 {
                return None;
            }
            let len: [u8; 2] = [(bytes.len() % 256) as u8, (bytes.len() / 256) as u8];
            copy_at(out, cursor, &len);
            cursor += 2;
            proof {
                assert(len@ =~= crate::bytes::le16(bytes@.len()));
                lemma_written_behind(before, HEADER_LEN as int, done, len@);
            }
            if room - cursor < bytes.len() {
                return None;
            }
            copy_at(out, cursor, bytes);
            cursor += bytes.len();
            proof {
                lemma_written_behind(before, HEADER_LEN as int, done + len@, bytes@);
                assert(done + len@ + bytes@ =~= done + stored_field(text@));
            }
            i += 1;
        }
        assert(self.texts().take(9) =~= self.texts());
        if cursor - HEADER_LEN > 0xFFFF {
            return None;
        }
        let ghost payload = self.payload();
        let crc: u32 = crc32(slice_subrange(out, HEADER_LEN, cursor));
        assert(out@.subrange(HEADER_LEN as int, cursor as int) =~= payload);
        let mut header: Vec<u8> = Vec::new();
        append(&mut header, &MAGIC);
        header.push(VERSION);
        header.push(self.volume);
        append_le16(&mut header, (cursor - HEADER_LEN) as u16);
        append_le32(&mut header, crc);
        assert(header@ =~= header_of(self.volume, payload));
        copy_at(out, 0, &header);
        let ghost bare = header@ + payload;
        assert(out@ =~= overlaid(before, 0, bare));
        let padding: usize = (4 - cursor % 4) % 4;
        assert(cursor + padding == padded(bare.len()));
        if room - cursor < padding {
            return None;
        }
        let padded_len: usize = cursor + padding;
        while cursor < padded_len
            invariant
                bare.len() <= cursor <= padded_len <= room == before.len(),
                out@ =~= overlaid(
                    before,
                    0,
                    bare + Seq::new((cursor - bare.len()) as nat, |k: int| 0u8),
                ),
            decreases padded_len - cursor,
        {
            out[cursor] = 0;
            cursor += 1;
        }
        assert(out@ =~= self.record() + before.skip(self.record().len() as int));
        Some(padded_len)
    }

    /// Reads a record back. Whatever does not validate is no settings at all.
    pub fn decode(record: &[u8]) -> (r: Option<Settings>)
        ensures
            r is Some <==> decoded(record@) is Some,
            r matches Some(s) ==> decoded(record@) == Some((s.texts(), s.volume)),
    {
        assert(MAGIC@.len() == 4);
        if record.len() < HEADER_LEN {
            return None;
        }
        assert(record@.take(4) =~= seq![record@[0], record@[1], record@[2], record@[3]]);
        assert(MAGIC@ =~= seq![0x45u8, 0x33, 0x32, 0x53]);
        if record[0] != MAGIC[0] || record[1] != MAGIC[1] || record[2] != MAGIC[2] || record[3]
            != MAGIC[3] || record[4] != VERSION {
            assert(record@.take(4) == MAGIC@ ==> record@.take(4)[0] == MAGIC@[0]
                && record@.take(4)[1] == MAGIC@[1] && record@.take(4)[2] == MAGIC@[2]
                && record@.take(4)[3] == MAGIC@[3]);
            return None;
        }
        let volume: u8 = if record[5] <= 100 {
            record[5]
        } else {
            100
        };
        let payload_len: usize = read_le16(record, 6) as usize;
        let expected_crc: u32 = read_le32(record, 8);
        if record.len() - HEADER_LEN < payload_len {
            return None;
        }
        let payload = slice_subrange(record, HEADER_LEN, HEADER_LEN + payload_len);
        if crc32(payload) != expected_crc {
            return None;
        }
        let mut settings = Settings::unconfigured();
        settings.volume = volume;
        let mut cursor: usize = 0;
        let mut i: usize = 0;
        proof {
            assert(settings.texts().take(0) =~= Seq::<Seq<char>>::empty());
        }
        while i < 9
            invariant
                i <= 9,
                cursor <= payload@.len() <= 0xFFFF,
                settings.volume == volume,
                decoded(record@) == (match parse_fields(payload@, 9) {
                    None => None::<(Seq<Seq<char>>, u8)>,
                    Some((texts, _)) => Some((texts, volume)),
                }),
                parse_fields(payload@, i as nat) == Some(
                    (settings.texts().take(i as int), cursor as int),
                ),
            decreases 9 - i,
        {
            proof {
                lemma_parse_stops(payload@, (i + 1) as nat, 9);
            }
            if payload.len() - cursor < 2 {
                return None;
            }
            let len: usize = read_le16(payload, cursor) as usize;
            if payload.len() - cursor - 2 < len {
                return None;
            }
            let text = match utf8_text(slice_subrange(payload, cursor + 2, cursor + 2 + len)) {
                Some(text) => text,
                None => {
                    return None;
                },
            };
            let ghost before = settings.texts();
            settings.fields[i] = text;
            assert(settings.texts().take(i + 1) =~= before.take(i as int).push(text@));
            cursor = cursor + 2 + len;
            i += 1;
        }
        assert(settings.texts().take(9) =~= settings.texts());
        Some(settings)
    }
}

/// Fields that cannot be parsed stop everything after them.
proof fn lemma_parse_stops(payload: Seq<u8>, k: nat, n: nat)
    requires
        k <= n,
    ensures
        parse_fields(payload, k) is None ==> parse_fields(payload, n) is None,
    decreases n - k,
{
    if k < n {
        lemma_parse_stops(payload, k + 1, n);
    }
}

// ---------- The flash partition ----------
/// Where in flash the record lives.
#[derive(Clone, Copy)]
pub struct Store {
    pub offset: u32,
    pub size: u32,
}

/// What saving asks of the flash: erase one range, then write at its start.
pub struct SavePlan {
    pub erase_from: u32,
    pub erase_to: u32,
    pub data: Vec<u8>,
}

/// `n` rounded up to a whole number of `unit`s.
pub open spec fn rounded_up(n: int, unit: int) -> int {
    (n + unit - 1) / unit * unit
}

/// Flash once a range of it was erased.
pub open spec fn erased(flash: Seq<u8>, from: int, to: int) -> Seq<u8> {
    flash.take(from) + Seq::new((to - from) as nat, |i: int| 0xFFu8) + flash.skip(to)
}

/// Erased flash once bytes were written into it.
pub open spec fn written(flash: Seq<u8>, at: int, data: Seq<u8>) -> Seq<u8> {
    flash.take(at) + data + flash.skip(at + data.len())
}

impl SavePlan {
    /// Flash once the plan was carried out.
    pub open spec fn applied(self, flash: Seq<u8>) -> Seq<u8> {
        written(
            erased(flash, self.erase_from as int, self.erase_to as int),
            self.erase_from as int,
            self.data@,
        )
    }
}

impl Store {
    /// The length of the window that loading reads.
    pub open spec fn window(self) -> int {
        if self.size < MAX_RECORD {
            self.size as int
        } else {
            MAX_RECORD as int
        }
    }

    /// Whether `plan` is what saving `settings` takes.
    pub open spec fn saves(self, settings: Settings, sector: u32, plan: SavePlan) -> bool {
        &&& plan.erase_from == self.offset
        &&& plan.erase_to == self.offset + rounded_up(settings.record().len() as int, sector as int)
        &&& plan.data@ == settings.record()
    }

    /// The store in a partition, given where the partition begins and how long
    /// it is. Without one, nothing is kept.
    pub fn locate(partition: Option<(u32, u32)>) -> (r: Option<Store>)
        ensures
            match partition {
                Some((offset, size)) => r == Some(Store { offset, size }),
                None => r is None,
            },
    {
        match partition {
            Some((offset, size)) => Some(Store { offset, size }),
            None => None,
        }
    }

    /// The flash range to read before `load`: where it begins and how long it
    /// is.
    pub fn load_range(&self) -> (r: (u32, usize))
        ensures
            r.0 == self.offset,
            r.1 == self.window(),
    {
        let size: usize = self.size as usize;
        let len: usize = if size < MAX_RECORD {
            size
        } else {
            MAX_RECORD
        };
        (self.offset, len)
    }

    /// The settings in what was read from `load_range`, if the read succeeded.
    pub fn load(&self, read: Option<&[u8]>) -> (r: Option<Settings>)
        ensures
            r is Some <==> (read matches Some(bytes) && decoded(bytes@) is Some),
            r matches Some(s) ==> decoded(read->0@) == Some((s.texts(), s.volume)),
    {
        match read {
            Some(bytes) => Settings::decode(bytes),
            None => None,
        }
    }

    /// How to save `settings` on flash that is erased by the `sector`.
    pub fn save(&self, settings: &Settings, sector: u32) -> (r: Result<SavePlan, &'static str>)
        requires
            sector > 0,
            self.offset + self.size <= u32::MAX,
        ensures
            match r {
                Ok(plan) => {
                    &&& settings.storable()
                    &&& settings.record().len() <= MAX_RECORD
                    &&& rounded_up(settings.record().len() as int, sector as int) <= self.size
                    &&& self.saves(*settings, sector, plan)
                },
                Err(e) => if settings.storable() && settings.record().len() <= MAX_RECORD {
                    &&& e@ == "settings record exceeds nvs partition"@
                    &&& rounded_up(settings.record().len() as int, sector as int) > self.size
                } else {
                    e@ == "settings too large to store"@
                },
            },
    {
        let mut buf: Vec<u8> = Vec::new();
        buf.resize(MAX_RECORD, 0);
        let len: usize = match settings.encode_into(&mut buf) {
            Some(len) => len,
            None => {
                return Err("settings too large to store");
            },
        };
        assert(buf@.take(len as int) =~= settings.record());
        let unit: u64 = sector as u64;
        let units: u64 = (len as u64 + unit - 1) / unit;
        assert(units <= len as u64) by (nonlinear_arith)
            requires
                unit >= 1,
                len >= 1,
                units == (len as u64 + unit - 1) / (unit as int),
        ;
        assert(units * unit <= len as u64 + unit - 1) by (nonlinear_arith)
            requires
                unit >= 1,
                units == (len as u64 + unit - 1) / (unit as int),
        ;
        let erase_len: u64 = units * unit;
        if erase_len > self.size as u64 {
            return Err("settings record exceeds nvs partition");
        }
        buf.truncate(len);
        Ok(
            SavePlan {
                erase_from: self.offset,
                erase_to: self.offset + erase_len as u32,
                data: buf,
            },
        )
    }

    /// The range to erase so that nothing is stored any more.
    pub fn clear(&self, sector: u32) -> (r: (u32, u32))
        requires
            self.offset + sector <= u32::MAX,
        ensures
            r.0 == self.offset,
            r.1 == self.offset + sector,
    {
        (self.offset, self.offset + sector)
    }
}

/// A save writes whole flash words, and takes one erase of one sector where the
/// sector is large enough for any record.
pub proof fn a_save_is_one_erase_and_one_write(
    store: Store,
    settings: Settings,
    sector: u32,
    plan: SavePlan,
)
    requires
        sector >= MAX_RECORD,
        settings.record().len() <= MAX_RECORD,
        store.saves(settings, sector, plan),
    ensures
        plan.data@.len() % 4 == 0,
        plan.data@.len() <= plan.erase_to - plan.erase_from == sector,
{
    let len = settings.record().len() as int;
    let size = sector as int;
    assert(HEADER_LEN <= len);
    assert((len + size - 1) / size == 1) by (nonlinear_arith)
        requires
            1 <= len <= size,
    ;
}

/// What a save wrote, the next load reads back: the same fields, and the volume
/// in range. Flash outside the partition is left alone.
pub proof fn saved_settings_load_back(
    store: Store,
    settings: Settings,
    sector: u32,
    plan: SavePlan,
    flash: Seq<u8>,
)
    requires
        sector > 0,
        store.offset + store.size <= flash.len(),
        settings.storable(),
        settings.record().len() <= MAX_RECORD,
        rounded_up(settings.record().len() as int, sector as int) <= store.size,
        store.saves(settings, sector, plan),
    ensures
        decoded(
            plan.applied(flash).subrange(store.offset as int, store.offset + store.window()),
        ) == Some((settings.texts(), capped(settings.volume))),
        plan.applied(flash).len() == flash.len(),
        plan.applied(flash).take(store.offset as int) == flash.take(store.offset as int),
        plan.applied(flash).skip(store.offset + store.size) == flash.skip(
            store.offset + store.size,
        ),
{
    let after = plan.applied(flash);
    let n = settings.record().len() as int;
    let from = store.offset as int;
    let unit = sector as int;
    assert(n <= rounded_up(n, unit)) by (nonlinear_arith)
        requires
            unit > 0,
            n >= 0,
            rounded_up(n, unit) == (n + unit - 1) / unit * unit,
    ;
    let to = from + rounded_up(n, unit);
    let blank = erased(flash, from, to);
    assert(blank.len() == flash.len());
    assert(after.len() == flash.len());
    let read = after.subrange(from, from + store.window());
    let tail = read.skip(n);
    assert(read =~= settings.record() + tail);
    record_reads_back(settings, tail);
    assert(after.take(from) =~= flash.take(from));
    assert(after.skip(from + store.size) =~= flash.skip(from + store.size));
}

/// After a reset nothing is stored: the next load finds nothing.
pub proof fn cleared_settings_are_gone(store: Store, sector: u32, flash: Seq<u8>)
    requires
        store.offset + store.size <= flash.len(),
        store.offset + sector <= flash.len(),
        sector > 0,
    ensures
        decoded(
            erased(flash, store.offset as int, store.offset + sector).subrange(
                store.offset as int,
                store.offset + store.window(),
            ),
        ) is None,
{
    let from = store.offset as int;
    let read = erased(flash, from, from + sector).subrange(from, from + store.window());
    if read.len() >= HEADER_LEN {
        assert(read[0] == 0xFF);
        assert(read.take(4)[0] == 0xFF);
        assert(MAGIC@[0] == 0x45);
    }
}

/// Every field has the name, in the form, and the label that belong to it.
pub proof fn fields_have_their_names(f: Field)
    ensures
        f is WifiSsid ==> f.key_text() == "wifi_ssid"@ && f.label_text() == "Wi-Fi network (SSID)"@,
        f is WifiPassword ==> f.key_text() == "wifi_password"@ && f.label_text()
            == "Wi-Fi password"@,
        f is AgentBaseUrl ==> f.key_text() == "agent_base_url"@ && f.label_text()
            == "Agent base URL"@,
        f is AgentApiKey ==> f.key_text() == "agent_api_key"@ && f.label_text() == "Agent API key"@,
        f is AgentModel ==> f.key_text() == "agent_model"@ && f.label_text() == "Agent model"@,
        f is SpeechBaseUrl ==> f.key_text() == "speech_base_url"@ && f.label_text()
            == "Speech base URL"@,
        f is SpeechApiKey ==> f.key_text() == "speech_api_key"@ && f.label_text()
            == "Speech API key"@,
        f is SpeechSttModel ==> f.key_text() == "speech_stt_model"@ && f.label_text()
            == "Transcription model"@,
        f is SpeechTtsModel ==> f.key_text() == "speech_tts_model"@ && f.label_text()
            == "Voice model"@,
{
}

/// A blank is usable for a password or a key and for nothing else; a base URL has
/// to name its scheme; and anything else goes as it is.
pub proof fn fields_are_usable_as_they_should(f: Field, value: Seq<char>)
    ensures
        value.len() == 0 ==> (f.usable(value) <==> f is WifiPassword || f is AgentApiKey
            || f is SpeechApiKey),
        f is AgentBaseUrl || f is SpeechBaseUrl ==> (f.usable(value) <==> (exists|rest: Seq<char>|
            value == #[trigger] ("https://"@ + rest)) || (exists|rest: Seq<char>|
            value == #[trigger] ("http://"@ + rest))),
        value.len() > 0 && !(f is AgentBaseUrl || f is SpeechBaseUrl) ==> f.usable(value),
{
    reveal_strlit("https://");
    reveal_strlit("http://");
    lemma_begins_with(value, "https://"@);
    lemma_begins_with(value, "http://"@);
    if exists|rest: Seq<char>| value == #[trigger] ("https://"@ + rest) {
        assert(value.len() > 0);
    }
    if exists|rest: Seq<char>| value == #[trigger] ("http://"@ + rest) {
        assert(value.len() > 0);
    }
}

proof fn lemma_begins_with(s: Seq<char>, prefix: Seq<char>)
    ensures
        crate::text::begins_with(s, prefix) <==> exists|rest: Seq<char>|
            s == #[trigger] (prefix + rest),
{
    if crate::text::begins_with(s, prefix) {
        assert(s =~= prefix + s.skip(prefix.len() as int));
    } else if exists|rest: Seq<char>| s == #[trigger] (prefix + rest) {
        let rest = choose|rest: Seq<char>| s == #[trigger] (prefix + rest);
        assert(s.subrange(0, prefix.len() as int) =~= prefix);
    }
}

proof fn lemma_trailing_run(s: Seq<char>, c: char, n: nat)
    requires
        s.len() == 0 || s.last() != c,
    ensures
        crate::text::without_trailing(s + Seq::new(n, |i: int| c), c) == s,
    decreases n,
{
    let t = s + Seq::new(n, |i: int| c);
    if n == 0 {
        assert(t =~= s);
    } else {
        let m = (n - 1) as nat;
        assert(t.drop_last() =~= s + Seq::new(m, |i: int| c));
        lemma_trailing_run(s, c, m);
    }
}

/// A pasted URL loses what came along with it and nothing else: whitespace around
/// it, slashes at its end, and the path of the operation, with slashes behind it
/// or without.
pub proof fn pasted_urls_lose_what_came_along(
    lead: Seq<char>,
    base: Seq<char>,
    op: Seq<char>,
    slashes: nat,
    trail: Seq<char>,
)
    requires
        is_bare_base(base),
        base.len() > 0,
        op == "/chat/completions"@ || op == "/audio/transcriptions"@ || op == "/audio/speech"@ || op
            == ""@,
        forall|i: int| 0 <= i < lead.len() ==> crate::text::is_white(#[trigger] lead[i]),
        forall|i: int| 0 <= i < trail.len() ==> crate::text::is_white(#[trigger] trail[i]),
    ensures
        clean_base_url(lead + (base + op + Seq::new(slashes, |i: int| '/')) + trail) == base,
{
    reveal_strlit("/chat/completions");
    reveal_strlit("/audio/transcriptions");
    reveal_strlit("/audio/speech");
    reveal_strlit("");
    let run = Seq::new(slashes, |i: int| '/');
    let url = base + op;
    let t = url + run;
    let s = lead + t + trail;
    let lo = lead.len() as int;
    assert(t[0] == base[0]);
    assert(t.last() == (if slashes > 0 {
        '/'
    } else {
        url.last()
    }));
    assert(url.last() == (if op.len() > 0 {
        op.last()
    } else {
        base.last()
    }));
    assert(crate::text::trims_to(s, t, lo)) by {
        assert(s.subrange(lo, lo + t.len()) =~= t);
        assert forall|i: int| 0 <= i < lo implies crate::text::is_white(#[trigger] s[i]) by {
            assert(s[i] == lead[i]);
        }
        assert forall|i: int| lo + t.len() <= i < s.len() implies crate::text::is_white(
            #[trigger] s[i],
        ) by {
            assert(s[i] == trail[i - lo - t.len()]);
        }
    }
    crate::text::trimming_is_unique(s, t, lo);
    lemma_trailing_run(url, '/', slashes);
    assert(crate::text::without_trailing(url, '/') == url);
    assert(crate::text::trims_to(url, url, 0)) by {
        assert(url.subrange(0, url.len() as int) =~= url);
        assert(url[0] == base[0]);
    }
    crate::text::trimming_is_unique(url, url, 0);
    if op.len() == 0 {
        assert(url =~= base);
        pasted_endpoint_leaves_its_base(base, "/audio/speech"@);
    } else {
        pasted_endpoint_leaves_its_base(base, op);
    }
}

/// A record is laid out as it should be: the four letters, the version, the
/// volume, the payload's length and checksum, and the payload, which is every
/// field in order, its length ahead of it.
pub proof fn records_are_laid_out(settings: Settings)
    requires
        settings.storable(),
    ensures
        ({
            let r = settings.record();
            let n = settings.payload().len() as int;
            &&& r.len() % 4 == 0 && 12 + n <= r.len() < 16 + n
            &&& r[0] == 'E' as int && r[1] == '3' as int && r[2] == '2' as int && r[3] == 'S' as int
            &&& r[4] == 2 && r[5] == settings.volume
            &&& crate::bytes::le16_at(r, 6) == n
            &&& r.subrange(12, 12 + n) == settings.payload()
            &&& crate::bytes::le32_at(r, 8) == crate::crc::crc32_of(r.subrange(12, 12 + n))
            &&& forall|i: int| 12 + n <= i < r.len() ==> #[trigger] r[i] == 0
        }),
{
    assert(MAGIC@.len() == 4);
    let r = settings.record();
    let p = settings.payload();
    let n = p.len() as int;
    assert(r.subrange(12, 12 + n) =~= p);
    assert(r.subrange(6, 8) =~= crate::bytes::le16(p.len()));
    crate::bytes::lemma_le16(p.len(), r, 6);
    let c = crate::crc::crc32_of(p) as nat;
    assert(r.subrange(8, 12) =~= crate::bytes::le32(c));
    crate::bytes::lemma_le32(c, r, 8);
    assert(MAGIC@[0] == 0x45 && MAGIC@[1] == 0x33 && MAGIC@[2] == 0x32 && MAGIC@[3] == 0x53);
}

} // verus!
