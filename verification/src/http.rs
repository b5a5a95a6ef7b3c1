//! The portal's web server: when a request is complete, and what answers it.
//!
//! Every request but a submitted form is answered with the form: that is what
//! makes a phone's connectivity probe notice that it is behind a portal.
use crate::bytes::{append, find};
use crate::form::{apply_form, form_page, saved_page};
use crate::settings::Settings;
use crate::text::{chars_of, decimal_text, matches_at, trim_bounds, utf8_text};
use vstd::prelude::*;
use vstd::slice::slice_subrange;
use vstd::utf8::*;

verus! {

/// The most bytes a request's head may take.
pub const HEAD_BYTES: usize = 4096;

/// The most bytes a submitted form may take.
pub const MAX_BODY_BYTES: usize = 8192;

/// What a request's head ends with.
pub const HEAD_END: [u8; 4] = [13, 10, 13, 10];

// ---------- Reading a head ----------
/// The first place of a character at or behind `i`, or the length.
pub open spec fn place_from(s: Seq<char>, c: char, i: int) -> int
    decreases s.len() - i,
{
    if i >= s.len() {
        s.len() as int
    } else if s[i] == c {
        i
    } else {
        place_from(s, c, i + 1)
    }
}

/// What stands ahead of the first `c`, or everything.
pub open spec fn ahead_of(s: Seq<char>, c: char) -> Seq<char> {
    s.take(place_from(s, c, 0))
}

/// What stands behind the first `c`, if there is one.
pub open spec fn behind(s: Seq<char>, c: char) -> Option<Seq<char>> {
    let p = place_from(s, c, 0);
    if p < s.len() {
        Some(s.skip(p + 1))
    } else {
        None
    }
}

/// The first place of a line break at or behind `i`, or the length.
pub open spec fn break_from(s: Seq<char>, i: int) -> int
    decreases s.len() - i,
{
    if i + 1 >= s.len() {
        s.len() as int
    } else if s[i] == '\r' && s[i + 1] == '\n' {
        i
    } else {
        break_from(s, i + 1)
    }
}

/// The method and the path of a request: the first two words of its first line.
pub open spec fn request_of(head: Seq<char>) -> Option<(Seq<char>, Seq<char>)> {
    let line = head.take(break_from(head, 0));
    match behind(line, ' ') {
        Some(rest) => Some((ahead_of(line, ' '), ahead_of(rest, ' '))),
        None => None,
    }
}

/// A character, in lower case if it is an ASCII letter.
pub open spec fn lower(c: char) -> char {
    if 'A' <= c && c <= 'Z' {
        (c as u32 + 32) as char
    } else {
        c
    }
}

/// A text, in lower case as far as it is ASCII.
pub open spec fn lowered(s: Seq<char>) -> Seq<char> {
    Seq::new(s.len(), |i: int| lower(s[i]))
}

pub open spec fn is_digit(c: char) -> bool {
    '0' <= c && c <= '9'
}

/// The number that decimal digits denote.
pub open spec fn digits_value(s: Seq<char>) -> nat
    decreases s.len(),
{
    if s.len() == 0 {
        0
    } else {
        10 * digits_value(s.drop_last()) + (s.last() as u32 - 48) as nat
    }
}

pub open spec fn all_digits(s: Seq<char>) -> bool {
    forall|i: int| 0 <= i < s.len() ==> is_digit(#[trigger] s[i])
}

/// The number that a text denotes: digits, at least one, with a plus ahead of
/// them or without, and no more than a length can be.
pub open spec fn number(s: Seq<char>) -> Option<nat> {
    let digits = if s.len() > 0 && s[0] == '+' {
        s.skip(1)
    } else {
        s
    };
    if digits.len() > 0 && all_digits(digits) && digits_value(digits) <= usize::MAX {
        Some(digits_value(digits))
    } else {
        None
    }
}

/// The content length that a line states, if it does.
pub open spec fn length_in(line: Seq<char>) -> Option<nat> {
    match behind(line, ':') {
        Some(value) => if lowered(ahead_of(line, ':')) == "content-length"@ {
            number(crate::text::trimmed(value))
        } else {
            None
        },
        None => None,
    }
}

/// The content length that a head states: the first line that states one
/// decides, and without one there is no content.
pub open spec fn content_length(head: Seq<char>) -> nat
    decreases head.len(),
{
    let e = break_from(head, 0);
    match length_in(head.take(e)) {
        Some(n) => n,
        None => if 0 <= e && e + 2 <= head.len() {
            content_length(head.skip(e + 2))
        } else {
            0
        },
    }
}

// ---------- What a request asks for ----------
/// What to do about a request.
pub enum Verdict {
    /// It is not complete.
    ReadMore,
    /// It makes no sense.
    Drop,
    /// It is a form that is too long.
    TooBig,
    /// It is a form with this body.
    Save(Seq<u8>),
    /// It is anything else.
    Form,
}

/// Whether `p` is the first place of the end of a head.
pub open spec fn head_ends_at(received: Seq<u8>, p: int) -> bool {
    &&& crate::bytes::occurs_at(received, HEAD_END@, p)
    &&& forall|q: int| 0 <= q < p ==> !crate::bytes::occurs_at(received, HEAD_END@, q)
}

/// Whether a head is complete.
pub open spec fn head_complete(received: Seq<u8>) -> bool {
    exists|p: int| head_ends_at(received, p)
}

/// What to do about a request whose head is complete, and ends at `p`. A form is
/// submitted by a `POST` to `/save`, with or without a query behind it.
pub open spec fn verdict_on(received: Seq<u8>, closed: bool, p: int) -> Verdict {
    let head = received.take(p + 4);
    let rest = received.skip(p + 4);
    if !valid_utf8(head) {
        Verdict::Drop
    } else {
        match request_of(decode_utf8(head)) {
            None => Verdict::Drop,
            Some((method, path)) => if method == "POST"@ && ahead_of(path, '?') == "/save"@ {
                let n = content_length(decode_utf8(head));
                if n > MAX_BODY_BYTES {
                    Verdict::TooBig
                } else if rest.len() >= n {
                    Verdict::Save(rest.take(n as int))
                } else if closed {
                    Verdict::Save(rest)
                } else {
                    Verdict::ReadMore
                }
            } else {
                Verdict::Form
            },
        }
    }
}

/// What to do about a request, given all that was received of it, and whether
/// the connection was closed behind that.
pub open spec fn verdict(received: Seq<u8>, closed: bool) -> Verdict {
    if head_complete(received) {
        verdict_on(received, closed, choose|p: int| head_ends_at(received, p))
    } else if closed || received.len() >= HEAD_BYTES {
        Verdict::Drop
    } else {
        Verdict::ReadMore
    }
}

/// A head ends in one place only.
proof fn lemma_head_end_is_unique(received: Seq<u8>, p: int, q: int)
    requires
        head_ends_at(received, p),
        head_ends_at(received, q),
    ensures
        p == q,
{
}

/// The first place of `c` in `chars[lo..hi]`, or `hi`.
fn find_char(chars: &[char], lo: usize, hi: usize, c: char) -> (at: usize)
    requires
        lo <= hi <= chars@.len(),
    ensures
        lo <= at <= hi,
        at - lo == place_from(chars@.subrange(lo as int, hi as int), c, 0),
{
    let ghost s = chars@.subrange(lo as int, hi as int);
    let mut at: usize = lo;
    while at < hi && chars[at] != c
        invariant
            lo <= at <= hi <= chars@.len(),
            s == chars@.subrange(lo as int, hi as int),
            place_from(s, c, 0) == place_from(s, c, at - lo),
        decreases hi - at,
    {
        at += 1;
    }
    at
}

/// The first place of a line break in `chars[lo..hi]`, or `hi`.
fn find_break(chars: &[char], lo: usize, hi: usize) -> (at: usize)
    requires
        lo <= hi <= chars@.len(),
    ensures
        lo <= at <= hi,
        at - lo == break_from(chars@.subrange(lo as int, hi as int), 0),
        at < hi ==> at + 2 <= hi,
{
    let ghost s = chars@.subrange(lo as int, hi as int);
    let mut at: usize = lo;
    while hi - at > 1
        invariant
            lo <= at <= hi <= chars@.len(),
            s == chars@.subrange(lo as int, hi as int),
            break_from(s, 0) == break_from(s, at - lo),
        decreases hi - at,
    {
        if chars[at] == '\r' && chars[at + 1] == '\n' {
            return at;
        }
        at += 1;
    }
    hi
}

/// Whether `chars[lo..hi]` is the given text.
fn is_text(chars: &[char], lo: usize, hi: usize, text: &str) -> (r: bool)
    requires
        lo <= hi <= chars@.len(),
    ensures
        r == (chars@.subrange(lo as int, hi as int) == text@),
{
    let t = chars_of(text);
    if hi - lo != t.len() {
        return false;
    }
    matches_at(chars, lo, &t)
}

/// Whether `chars[lo..hi]` is the given lower-case text, whatever its case.
fn is_text_any_case(chars: &[char], lo: usize, hi: usize, text: &str) -> (r: bool)
    requires
        lo <= hi <= chars@.len(),
    ensures
        r == (lowered(chars@.subrange(lo as int, hi as int)) == text@),
{
    let t = chars_of(text);
    let n: usize = hi - lo;
    let ghost s = chars@.subrange(lo as int, hi as int);
    if n != t.len() {
        assert(lowered(s).len() != text@.len());
        return false;
    }
    let mut i: usize = 0;
    while i < n
        invariant
            i <= n == t@.len() == s.len(),
            t@ == text@,
            n == hi - lo,
            lo <= hi <= chars@.len(),
            s == chars@.subrange(lo as int, hi as int),
            forall|j: int| 0 <= j < i ==> lowered(s)[j] == text@[j],
        decreases n - i,
    {
        let c = chars[lo + i];
        let l: char = if 'A' <= c && c <= 'Z' {
            ((c as u8) + 32) as char
        } else {
            c
        };
        assert(l == lower(s[i as int]));
        if l != t[i] {
            assert(lowered(s)[i as int] != text@[i as int]);
            return false;
        }
        i += 1;
    }
    assert(lowered(s) =~= text@);
    true
}

/// The number that `chars[lo..hi]` denotes.
fn parse_number(chars: &[char], lo: usize, hi: usize) -> (r: Option<usize>)
    requires
        lo <= hi <= chars@.len(),
    ensures
        match r {
            Some(n) => number(chars@.subrange(lo as int, hi as int)) == Some(n as nat),
            None => number(chars@.subrange(lo as int, hi as int)) is None,
        },
{
    let ghost s = chars@.subrange(lo as int, hi as int);
    let mut from: usize = lo;
    if lo < hi && chars[lo] == '+' {
        from = lo + 1;
    }
    let ghost digits = if s.len() > 0 && s[0] == '+' {
        s.skip(1)
    } else {
        s
    };
    assert(digits =~= chars@.subrange(from as int, hi as int));
    if from == hi {
        return None;
    }
    let mut n: usize = 0;
    let mut i: usize = from;
    assert(digits.take(0) =~= Seq::<char>::empty());
    while i < hi
        invariant
            from <= i <= hi <= chars@.len(),
            s == chars@.subrange(lo as int, hi as int),
            digits == chars@.subrange(from as int, hi as int),
            number(s) == (if digits.len() > 0 && all_digits(digits) && digits_value(digits)
                <= usize::MAX {
                Some(digits_value(digits))
            } else {
                None
            }),
            all_digits(digits.take(i - from)),
            n == digits_value(digits.take(i - from)),
        decreases hi - i,
    {
        let c = chars[i];
        assert(digits[i - from] == c);
        if c < '0' || c > '9' {
            assert(!is_digit(digits[i - from]));
            return None;
        }
        let d: usize = (c as u8 - 48) as usize;
        let ghost before = digits.take(i - from);
        let ghost now = digits.take(i + 1 - from);
        proof {
            assert(now.drop_last() =~= before);
            assert(now.last() == c);
            assert forall|k: int| 0 <= k < now.len() implies is_digit(#[trigger] now[k]) by {
                if k < before.len() {
                    assert(before[k] == now[k]);
                    assert(is_digit(before[k]));
                }
            }
        }
        if n > usize::MAX / 10 || n * 10 > usize::MAX - d {
            proof {
                assert(digits_value(now) > usize::MAX);
                lemma_digits_grow(digits, i + 1 - from);
            }
            return None;
        }
        n = n * 10 + d;
        i += 1;
    }
    assert(digits.take(hi - from) =~= digits);
    Some(n)
}

/// More digits never denote less.
proof fn lemma_digits_grow(s: Seq<char>, k: int)
    requires
        0 <= k <= s.len(),
    ensures
        digits_value(s.take(k)) <= digits_value(s) || !all_digits(s),
    decreases s.len() - k,
{
    if k == s.len() {
        assert(s.take(k) =~= s);
    } else {
        lemma_digits_grow(s, k + 1);
        assert(s.take(k + 1).drop_last() =~= s.take(k));
        if all_digits(s) {
            assert(is_digit(s[k]));
        }
    }
}

/// The content length that the line `chars[lo..hi]` states.
fn line_length(chars: &[char], lo: usize, hi: usize) -> (r: Option<usize>)
    requires
        lo <= hi <= chars@.len(),
    ensures
        match r {
            Some(n) => length_in(chars@.subrange(lo as int, hi as int)) == Some(n as nat),
            None => length_in(chars@.subrange(lo as int, hi as int)) is None,
        },
{
    let ghost line = chars@.subrange(lo as int, hi as int);
    let colon: usize = find_char(chars, lo, hi, ':');
    if colon == hi {
        return None;
    }
    assert(line.take(colon - lo) =~= chars@.subrange(lo as int, colon as int));
    assert(line.skip(colon - lo + 1) =~= chars@.subrange(colon + 1, hi as int));
    if !is_text_any_case(chars, lo, colon, "content-length") {
        return None;
    }
    let (from, to) = trim_bounds(chars, colon + 1, hi);
    parse_number(chars, from, to)
}

/// The content length that a head states.
fn stated_length(head: &[char]) -> (n: usize)
    ensures
        n == content_length(head@),
{
    let total: usize = head.len();
    let mut lo: usize = 0;
    assert(head@.skip(0) =~= head@);
    loop
        invariant
            lo <= total == head@.len(),
            content_length(head@) == content_length(head@.skip(lo as int)),
        decreases total - lo,
    {
        let ghost rest = head@.skip(lo as int);
        assert(rest =~= head@.subrange(lo as int, total as int));
        let at: usize = find_break(head, lo, total);
        assert(rest.take(at - lo) =~= head@.subrange(lo as int, at as int));
        match line_length(head, lo, at) {
            Some(n) => {
                return n;
            },
            None => {
                if at == total {
                    return 0;
                }
                assert(rest.skip(at - lo + 2) =~= head@.skip(at + 2));
                lo = at + 2;
            },
        }
    }
}

/// Whether a head is that of a submitted form; nothing if it is no head.
fn is_submission(head: &[char]) -> (r: Option<bool>)
    ensures
        match r {
            Some(b) => request_of(head@) matches Some(q) && b == (q.0 == "POST"@ && ahead_of(
                q.1,
                '?',
            ) == "/save"@),
            None => request_of(head@) is None,
        },
{
    let total: usize = head.len();
    assert(head@ =~= head@.subrange(0, total as int));
    let end: usize = find_break(head, 0, total);
    let ghost line = head@.take(end as int);
    assert(line =~= head@.subrange(0, end as int));
    let first: usize = find_char(head, 0, end, ' ');
    if first == end {
        return None;
    }
    assert(line.take(first as int) =~= head@.subrange(0, first as int));
    let ghost rest = line.skip(first + 1);
    assert(rest =~= head@.subrange(first + 1, end as int));
    let second: usize = find_char(head, first + 1, end, ' ');
    let ghost path = rest.take(second - first - 1);
    assert(path =~= head@.subrange(first + 1, second as int));
    let query: usize = find_char(head, first + 1, second, '?');
    assert(ahead_of(path, '?') =~= head@.subrange(first + 1, query as int));
    Some(is_text(head, 0, first, "POST") && is_text(head, first + 1, query, "/save"))
}

// ---------- Answering ----------
/// An answer to a request.
pub struct Response {
    pub status: &'static str,
    pub content_type: &'static str,
    pub body: Vec<u8>,
}

impl Response {
    /// The head of an answer.
    pub open spec fn head_text(self) -> Seq<char> {
        "HTTP/1.1 "@ + self.status@ + "\r\nContent-Type: "@ + self.content_type@
            + "\r\nContent-Length: "@ + crate::text::decimal(self.body@.len())
            + "\r\nCache-Control: no-store\r\nConnection: close\r\n\r\n"@
    }

    /// The head of an answer, which is sent ahead of its body.
    pub fn head(&self) -> (s: String)
        ensures
            s@ == self.head_text(),
    {
        let mut s = "HTTP/1.1 ".to_owned();
        s.append(self.status);
        s.append("\r\nContent-Type: ");
        s.append(self.content_type);
        s.append("\r\nContent-Length: ");
        s.append(&decimal_text(self.body.len() as u64));
        s.append("\r\nCache-Control: no-store\r\nConnection: close\r\n\r\n");
        s
    }

    /// Whether this is a page with the given text.
    pub open spec fn is_page(self, html: Seq<char>) -> bool {
        &&& self.status@ == "200 OK"@
        &&& self.content_type@ == "text/html; charset=utf-8"@
        &&& self.body@ == encode_utf8(html)
    }

    /// Whether this refuses a form that is too long.
    pub open spec fn is_refusal(self) -> bool {
        &&& self.status@ == "413 Payload Too Large"@
        &&& self.content_type@ == "text/plain"@
        &&& self.body@ == encode_utf8("too big"@)
    }
}

fn page(html: &str) -> (r: Response)
    ensures
        r.is_page(html@),
{
    let mut body: Vec<u8> = Vec::new();
    append(&mut body, html.as_bytes());
    assert(body@ =~= encode_utf8(html@));
    Response { status: "200 OK", content_type: "text/html; charset=utf-8", body }
}

/// What to do next about a request.
pub enum HttpAction {
    /// Read on.
    ReadMore,
    /// Close the connection.
    Drop,
    /// Answer, and close the connection.
    Reply(Response),
    /// Answer, close the connection, and be done: these are the settings.
    Saved(Response, Settings),
}

impl HttpAction {
    /// Whether this is what a verdict asks for on a device with the given
    /// settings.
    pub open spec fn follows(self, v: Verdict, current: Settings) -> bool {
        match v {
            Verdict::ReadMore => self is ReadMore,
            Verdict::Drop => self is Drop,
            Verdict::TooBig => self matches HttpAction::Reply(r) && r.is_refusal(),
            Verdict::Form => self matches HttpAction::Reply(r) && r.is_page(
                crate::form::form_html(current),
            ),
            Verdict::Save(body) => self matches HttpAction::Saved(r, s) && r.is_page(
                crate::form::SAVED_PAGE@,
            ) && s.volume == current.volume && s.texts() == crate::form::with_pieces(
                current.texts(),
                crate::form::pieces(body, 0x26),
            ),
        }
    }
}

/// A request as far as it was received.
pub struct HttpRequest {
    pub received: Vec<u8>,
}

impl HttpRequest {
    /// Nothing yet.
    pub fn new() -> (r: HttpRequest)
        ensures
            r.received@ == Seq::<u8>::empty(),
    {
        HttpRequest { received: Vec::new() }
    }

    /// How much may be read next: what a head may still take, and then up to a
    /// fixed part of the body.
    pub open spec fn room(self) -> int {
        if head_complete(self.received@) {
            512
        } else if self.received@.len() < HEAD_BYTES {
            HEAD_BYTES - self.received@.len()
        } else {
            0
        }
    }

    /// Where the head ends, if it is complete.
    fn head_end(&self) -> (r: Option<usize>)
        ensures
            match r {
                Some(p) => head_ends_at(self.received@, p as int) && p + 4 <= self.received@.len(),
                None => !head_complete(self.received@),
            },
    {
        match find(&self.received, &HEAD_END) {
            Some(p) => {
                assert(head_ends_at(self.received@, p as int));
                Some(p)
            },
            None => None,
        }
    }

    /// How much may be read next.
    pub fn read_limit(&self) -> (n: usize)
        ensures
            n == self.room(),
    {
        match self.head_end() {
            Some(p) => {
                assert(head_complete(self.received@));
                512
            },
            None => if self.received.len() < HEAD_BYTES {
                HEAD_BYTES - self.received.len()
            } else {
                0
            },
        }
    }

    /// Takes in what was read, and says what to do next.
    pub fn on_read(&mut self, bytes: &[u8], current: &Settings) -> (action: HttpAction)
        requires
            bytes@.len() <= old(self).room(),
        ensures
            final(self).received@ == old(self).received@ + bytes@,
            action.follows(verdict(final(self).received@, false), *current),
    {
        append(&mut self.received, bytes);
        self.decide(false, current)
    }

    /// Says what to do once the connection was closed.
    pub fn on_closed(&self, current: &Settings) -> (action: HttpAction)
        ensures
            action.follows(verdict(self.received@, true), *current),
            !(action is ReadMore),
    {
        self.decide(true, current)
    }

    /// Says what to do about what was received.
    fn decide(&self, closed: bool, current: &Settings) -> (action: HttpAction)
        ensures
            action.follows(verdict(self.received@, closed), *current),
    {
        let p: usize = match self.head_end() {
            Some(p) => p,
            None => {
                if closed || self.received.len() >= HEAD_BYTES {
                    return HttpAction::Drop;
                }
                return HttpAction::ReadMore;
            },
        };
        let total: usize = self.received.len();
        proof {
            assert(head_complete(self.received@));
            lemma_head_end_is_unique(
                self.received@,
                p as int,
                choose|q: int| head_ends_at(self.received@, q),
            );
        }
        assert(self.received@.subrange(0, p + 4) =~= self.received@.take(p + 4));
        let head = match utf8_text(slice_subrange(&self.received, 0, p + 4)) {
            Some(text) => chars_of(&text),
            None => {
                return HttpAction::Drop;
            },
        };
        let submission = match is_submission(&head) {
            Some(b) => b,
            None => {
                return HttpAction::Drop;
            },
        };
        if !submission {
            return HttpAction::Reply(page(&form_page(current)));
        }
        let length: usize = stated_length(&head);
        if length > MAX_BODY_BYTES {
            let mut body: Vec<u8> = Vec::new();
            append(&mut body, "too big".as_bytes());
            assert(body@ =~= encode_utf8("too big"@));
            return HttpAction::Reply(
                Response { status: "413 Payload Too Large", content_type: "text/plain", body },
            );
        }
        let have: usize = total - (p + 4);
        let ghost rest = self.received@.skip(p + 4);
        if have < length && !closed {
            return HttpAction::ReadMore;
        }
        let take: usize = if have < length {
            have
        } else {
            length
        };
        let body = slice_subrange(&self.received, p + 4, p + 4 + take);
        assert(body@ =~= rest.take(take as int));
        assert(rest.take(have as int) =~= rest);
        let updated = apply_form(current, body);
        HttpAction::Saved(page(&saved_page()), updated)
    }
}

/// Whatever a phone probes with gets the form: any complete request that is not
/// a submitted form does, at once.
pub proof fn every_probe_gets_the_form(received: Seq<u8>, closed: bool, p: int)
    requires
        head_ends_at(received, p),
        valid_utf8(received.take(p + 4)),
        request_of(decode_utf8(received.take(p + 4))) matches Some(q) && !(q.0 == "POST"@
            && ahead_of(q.1, '?') == "/save"@),
    ensures
        verdict(received, closed) is Form,
{
    lemma_head_end_is_unique(received, p, choose|q: int| head_ends_at(received, q));
}

/// A server never waits for more than it is willing to take: when it reads on,
/// there is room for more.
pub proof fn reading_on_has_room(r: HttpRequest)
    requires
        verdict(r.received@, false) is ReadMore,
    ensures
        r.room() > 0,
{
}

// ---------- Reading what was written ----------
proof fn lemma_place_is(s: Seq<char>, c: char, i: int, p: int)
    requires
        0 <= i <= p <= s.len(),
        forall|k: int| i <= k < p ==> #[trigger] s[k] != c,
        p < s.len() ==> s[p] == c,
    ensures
        place_from(s, c, i) == p,
    decreases p - i,
{
    if i < p {
        assert(s[i] != c);
        lemma_place_is(s, c, i + 1, p);
    }
}

proof fn lemma_break_is(s: Seq<char>, i: int, p: int)
    requires
        0 <= i <= p,
        p + 2 <= s.len(),
        forall|k: int| i <= k < p ==> #[trigger] s[k] != '\r',
        s[p] == '\r',
        s[p + 1] == '\n',
    ensures
        break_from(s, i) == p,
    decreases p - i,
{
    if i < p {
        assert(s[i] != '\r');
        lemma_break_is(s, i + 1, p);
    }
}

/// Whether a text has none of a character in it.
pub open spec fn free_of(s: Seq<char>, c: char) -> bool {
    forall|i: int| 0 <= i < s.len() ==> #[trigger] s[i] != c
}

/// A request is read as it was written: the method up to the first space, and the
/// path up to the next.
pub proof fn requests_are_read_as_written(
    method: Seq<char>,
    path: Seq<char>,
    protocol: Seq<char>,
    rest: Seq<char>,
)
    requires
        free_of(method, ' ') && free_of(method, '\r'),
        free_of(path, ' ') && free_of(path, '\r'),
        free_of(protocol, '\r'),
    ensures
        request_of(method.push(' ') + path.push(' ') + protocol + seq!['\r', '\n'] + rest) == Some(
            (method, path),
        ),
{
    let line = method.push(' ') + path.push(' ') + protocol;
    let head = line + seq!['\r', '\n'] + rest;
    let m = method.len() as int;
    let q = path.len() as int;
    assert forall|k: int| 0 <= k < line.len() implies #[trigger] head[k] != '\r' by {
        if k < m {
            assert(head[k] == method[k]);
        } else if m < k < m + 1 + q {
            assert(head[k] == path[k - m - 1]);
        } else if k > m + 1 + q {
            assert(head[k] == protocol[k - m - q - 2]);
        }
    }
    lemma_break_is(head, 0, line.len() as int);
    assert(head.take(line.len() as int) =~= line);
    assert forall|k: int| 0 <= k < m implies #[trigger] line[k] != ' ' by {
        assert(line[k] == method[k]);
    }
    lemma_place_is(line, ' ', 0, m);
    let after = line.skip(m + 1);
    assert(after =~= path.push(' ') + protocol);
    assert forall|k: int| 0 <= k < q implies #[trigger] after[k] != ' ' by {
        assert(after[k] == path[k]);
    }
    lemma_place_is(after, ' ', 0, q);
    assert(line.take(m) =~= method);
    assert(after.take(q) =~= path);
}

/// The length of a submitted form is the one that the first such line of its head
/// states, in whatever case its name is written and with whatever blanks stand
/// around the number; all other lines are passed over.
pub proof fn stated_lengths_are_read(
    name: Seq<char>,
    lead: Seq<char>,
    n: nat,
    trail: Seq<char>,
    rest: Seq<char>,
)
    requires
        lowered(name) == "content-length"@,
        n <= usize::MAX,
        forall|i: int| 0 <= i < lead.len() ==> #[trigger] lead[i] == ' ',
        forall|i: int| 0 <= i < trail.len() ==> #[trigger] trail[i] == ' ',
    ensures
        content_length(
            name.push(':') + lead + crate::text::decimal(n) + trail + seq!['\r', '\n'] + rest,
        ) == n,
{
    reveal_strlit("content-length");
    let digits = crate::text::decimal(n);
    crate::text::decimals_denote_their_number(n);
    let value = lead + digits + trail;
    let line = name.push(':') + lead + digits + trail;
    let head = line + seq!['\r', '\n'] + rest;
    let m = name.len() as int;
    lemma_length_name(name);
    assert forall|k: int| 0 <= k < line.len() implies #[trigger] head[k] != '\r' by {
        assert(head[k] == line[k]);
        if k < m {
            assert(line[k] == name[k]);
        } else if k == m {
            assert(line[k] == ':');
        } else if k < m + 1 + lead.len() {
            assert(line[k] == lead[k - m - 1]);
        } else if k < m + 1 + lead.len() + digits.len() {
            assert(line[k] == digits[k - m - 1 - lead.len()]);
        } else {
            assert(line[k] == trail[k - m - 1 - lead.len() - digits.len()]);
        }
    }
    lemma_break_is(head, 0, line.len() as int);
    assert(head.take(line.len() as int) =~= line);
    assert forall|k: int| 0 <= k < m implies #[trigger] line[k] != ':' by {
        assert(line[k] == name[k]);
    }
    lemma_place_is(line, ':', 0, m);
    assert(line.take(m) =~= name);
    assert(line.skip(m + 1) =~= value);
    let lo = lead.len() as int;
    assert(crate::text::trims_to(value, digits, lo)) by {
        assert(value.subrange(lo, lo + digits.len()) =~= digits);
        assert forall|i: int| 0 <= i < lo implies crate::text::is_white(#[trigger] value[i]) by {
            assert(value[i] == lead[i]);
        }
        assert forall|i: int|
            lo + digits.len() <= i < value.len() implies crate::text::is_white(
            #[trigger] value[i],
        ) by {
            assert(value[i] == trail[i - lo - digits.len()]);
        }
        assert('0' <= digits[0] <= '9' && '0' <= digits[digits.len() - 1] <= '9');
    }
    crate::text::trimming_is_unique(value, digits, lo);
    assert(digits[0] != '+') by {
        assert('0' <= digits[0] <= '9');
    }
    assert(all_digits(digits));
    lemma_digits_value(digits);
}

/// The name of the line has no colon and no line break in it.
proof fn lemma_length_name(name: Seq<char>)
    requires
        lowered(name) == "content-length"@,
    ensures
        free_of(name, ':') && free_of(name, '\r'),
{
    reveal_strlit("content-length");
    let t = "content-length"@;
    assert(t.len() == 14);
    assert(t[0] == 'c' && t[1] == 'o' && t[2] == 'n' && t[3] == 't' && t[4] == 'e' && t[5] == 'n' && t[6] == 't' && t[7] == '-' && t[8] == 'l' && t[9] == 'e' && t[10] == 'n' && t[11] == 'g' && t[12] == 't' && t[13] == 'h');
    assert forall|k: int| 0 <= k < name.len() implies #[trigger] name[k] != ':' && name[k]
        != '\r' by {
        assert(lowered(name)[k] == lower(name[k]));
        assert(k == 0 || k == 1 || k == 2 || k == 3 || k == 4 || k == 5 || k == 6 || k == 7 || k == 8 || k == 9 || k == 10 || k == 11 || k == 12 || k == 13);
        assert(lower(name[k]) == t[k]);
    }
}

proof fn lemma_digits_value(s: Seq<char>)
    requires
        all_digits(s),
    ensures
        digits_value(s) == crate::text::number_of(s),
    decreases s.len(),
{
    if s.len() > 0 {
        let t = s.drop_last();
        assert forall|i: int| 0 <= i < t.len() implies is_digit(#[trigger] t[i]) by {
            assert(is_digit(s[i]));
        }
        lemma_digits_value(t);
        assert(is_digit(s[s.len() - 1]));
    }
}

/// A line that states no length is passed over.
pub proof fn other_lines_are_passed_over(line: Seq<char>, rest: Seq<char>)
    requires
        free_of(line, '\r'),
        length_in(line) is None,
    ensures
        content_length(line + seq!['\r', '\n'] + rest) == content_length(rest),
{
    let head = line + seq!['\r', '\n'] + rest;
    assert forall|k: int| 0 <= k < line.len() implies #[trigger] head[k] != '\r' by {
        assert(head[k] == line[k]);
    }
    lemma_break_is(head, 0, line.len() as int);
    assert(head.take(line.len() as int) =~= line);
    assert(head.skip(line.len() as int + 2) =~= rest);
}

/// Only a line that is called so states a length.
pub proof fn lengths_have_their_name(name: Seq<char>, value: Seq<char>)
    requires
        free_of(name, ':'),
        lowered(name) != "content-length"@,
    ensures
        length_in(name.push(':') + value) is None,
        length_in(name) is None,
{
    let line = name.push(':') + value;
    let m = name.len() as int;
    assert forall|k: int| 0 <= k < m implies #[trigger] line[k] != ':' by {
        assert(line[k] == name[k]);
    }
    lemma_place_is(line, ':', 0, m);
    assert(line.take(m) =~= name);
    lemma_place_is(name, ':', 0, m);
}

/// What is saved is what was sent: a submitted form is what stands behind its head,
/// as long as the head says, or as much of it as came before the connection was
/// closed. It is refused if it says more than 8192 bytes, and waited for
/// otherwise.
pub proof fn forms_are_saved_as_sent(received: Seq<u8>, closed: bool, p: int)
    requires
        head_ends_at(received, p),
        valid_utf8(received.take(p + 4)),
        request_of(decode_utf8(received.take(p + 4))) matches Some(q) && q.0 == "POST"@ && q.1
            == "/save"@,
    ensures
        ({
            let n = content_length(decode_utf8(received.take(p + 4))) as int;
            let came = received.len() - p - 4;
            let v = verdict(received, closed);
            &&& n > 8192 ==> v is TooBig
            &&& n <= 8192 && came >= n ==> v == Verdict::Save(received.subrange(p + 4, p + 4 + n))
            &&& n <= 8192 && came < n && closed ==> v == Verdict::Save(received.skip(p + 4))
            &&& n <= 8192 && came < n && !closed ==> v is ReadMore
        }),
{
    lemma_head_end_is_unique(received, p, choose|q: int| head_ends_at(received, q));
    let path = "/save"@;
    reveal_strlit("/save");
    lemma_place_is(path, '?', 0, path.len() as int);
    assert(path.take(path.len() as int) =~= path);
    let n = content_length(decode_utf8(received.take(p + 4))) as int;
    let rest = received.skip(p + 4);
    if n <= rest.len() {
        assert(rest.take(n) =~= received.subrange(p + 4, p + 4 + n));
    }
}

/// An incomplete head is read on for up to 4096 bytes; after that, or once the
/// connection was closed, the request is dropped. What is no text is dropped too.
pub proof fn heads_are_waited_for(received: Seq<u8>, closed: bool)
    ensures
        !head_complete(received) && !closed && received.len() < 4096 ==> verdict(
            received,
            closed,
        ) is ReadMore,
        !head_complete(received) && (closed || received.len() >= 4096) ==> verdict(
            received,
            closed,
        ) is Drop,
        forall|p: int| #[trigger] head_ends_at(received, p) && !valid_utf8(received.take(p + 4))
            ==> verdict(received, closed) is Drop,
{
    assert forall|p: int| #[trigger] head_ends_at(received, p) && !valid_utf8(
        received.take(p + 4),
    ) implies verdict(received, closed) is Drop by {
        lemma_head_end_is_unique(received, p, choose|q: int| head_ends_at(received, q));
    }
}

/// Names are read in any case: a capital letter stands for its small one, and
/// every other character for itself.
pub proof fn capitals_stand_for_small_letters(c: char)
    ensures
        'A' <= c <= 'Z' ==> 'a' <= lower(c) <= 'z' && lower(c) as int - 'a' as int == c as int
            - 'A' as int,
        !('A' <= c <= 'Z') ==> lower(c) == c,
{
}

} // verus!
