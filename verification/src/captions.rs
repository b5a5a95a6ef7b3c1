//! Captions: a reply cut into sentences, and which of them is being spoken.
use crate::text::{chars_of, len_utf8, string_of, trim_bounds};
use vstd::prelude::*;

verus! {

/// The most bytes a caption may have without an end of sentence.
pub const RUN_ON_BYTES: usize = 200;

/// Whether `c` ends a sentence.
pub open spec fn ends_sentence(c: char) -> bool {
    c == '.' || c == '!' || c == '?' || c == '\n'
}

/// The place of the first end of a sentence at or behind `i`, or the length.
pub open spec fn first_end(s: Seq<char>, i: int) -> int
    decreases s.len() - i,
{
    if i >= s.len() {
        s.len() as int
    } else if ends_sentence(s[i]) {
        i
    } else {
        first_end(s, i + 1)
    }
}

/// How many characters the first sentence of `s` has: up to and with the first
/// end of a sentence; all of a long text without one.
pub open spec fn sentence(s: Seq<char>) -> Option<int> {
    let e = first_end(s, 0);
    if e < s.len() {
        Some(e + 1)
    } else if crate::text::byte_len(s) > RUN_ON_BYTES {
        Some(s.len() as int)
    } else {
        None
    }
}

proof fn lemma_first_end(s: Seq<char>, i: int)
    requires
        0 <= i <= s.len(),
    ensures
        i <= first_end(s, i) <= s.len(),
    decreases s.len() - i,
{
    if i < s.len() && !ends_sentence(s[i]) {
        lemma_first_end(s, i + 1);
    }
}

/// A first sentence has at least one character, and none more than the text.
pub proof fn lemma_sentence(s: Seq<char>)
    ensures
        sentence(s) matches Some(n) ==> 0 < n <= s.len(),
{
    lemma_first_end(s, 0);
    if s.len() == 0 {
        assert(crate::text::byte_len(s) == 0);
    }
}

/// How many characters the first sentence of `chars[from..]` has.
fn sentence_at(chars: &[char], from: usize) -> (r: Option<usize>)
    requires
        from <= chars@.len(),
    ensures
        match r {
            Some(n) => sentence(chars@.skip(from as int)) == Some(n as int) && n > 0 && from + n
                <= chars@.len(),
            None => sentence(chars@.skip(from as int)) is None,
        },
{
    let ghost rest = chars@.skip(from as int);
    let total: usize = chars.len();
    let mut i: usize = from;
    let mut bytes: usize = 0;
    proof {
        lemma_sentence(rest);
        assert(rest.take(0) =~= Seq::<char>::empty());
        assert(crate::text::byte_len(rest.take(0)) == 0);
    }
    while i < total
        invariant
            from <= i <= total == chars@.len(),
            rest == chars@.skip(from as int),
            first_end(rest, 0) == first_end(rest, i - from),
            crate::text::byte_len(rest.take(i - from)) == bytes || (bytes > RUN_ON_BYTES
                && crate::text::byte_len(rest.take(i - from)) > RUN_ON_BYTES),
            bytes <= RUN_ON_BYTES + 4,
        decreases total - i,
    {
        let c = chars[i];
        if c == '.' || c == '!' || c == '?' || c == '\n' {
            return Some(i + 1 - from);
        }
        assert(rest.take(i + 1 - from) =~= rest.take(i - from).push(c));
        proof {
            crate::text::lemma_byte_len_push(rest.take(i - from), c);
        }
        if bytes <= RUN_ON_BYTES {
            bytes += len_utf8(c);
        }
        i += 1;
    }
    assert(rest.take(rest.len() as int) =~= rest);
    if bytes > RUN_ON_BYTES {
        proof {
            if from == total {
                assert(rest =~= Seq::<char>::empty());
            }
        }
        Some(total - from)
    } else {
        None
    }
}

/// Where the first sentence of `s` ends, in bytes. A long text without an end
/// of sentence is one sentence; a short one is none yet.
pub fn find_sentence_end(s: &str) -> (r: Option<usize>)
    ensures
        match r {
            Some(b) => sentence(s@) matches Some(n) && b == crate::text::byte_len(s@.take(n)),
            None => sentence(s@) is None,
        },
{
    let chars = chars_of(s);
    assert(chars@.skip(0) =~= s@);
    match sentence_at(&chars, 0) {
        Some(n) => {
            let whole: usize = s.as_bytes().len();
            let mut bytes: usize = 0;
            let mut i: usize = 0;
            assert(s@.take(0) =~= Seq::<char>::empty());
            assert(crate::text::byte_len(s@.take(0)) == 0);
            while i < n
                invariant
                    i <= n <= chars@.len(),
                    chars@ == s@,
                    bytes == crate::text::byte_len(s@.take(i as int)),
                    whole == crate::text::byte_len(s@),
                decreases n - i,
            {
                proof {
                    let done = s@.take(i as int);
                    let c = s@[i as int];
                    crate::text::lemma_byte_len_push(done, c);
                    assert(s@.take(i + 1) =~= done.push(c));
                    assert(s@ =~= s@.take(i + 1) + s@.skip(i + 1));
                    crate::text::lemma_encode_concat(s@.take(i + 1), s@.skip(i + 1));
                }
                bytes += len_utf8(chars[i]);
                i += 1;
            }
            Some(bytes)
        },
        None => None,
    }
}

// ---------- Cutting a reply into captions ----------
/// `s` on its own, unless it is nothing but whitespace.
pub open spec fn worth_showing(s: Seq<char>) -> Seq<Seq<char>> {
    if crate::text::trimmed(s).len() > 0 {
        seq![crate::text::trimmed(s)]
    } else {
        Seq::empty()
    }
}

/// The sentences of `s`, trimmed, without the blank ones.
pub open spec fn sentences(s: Seq<char>) -> Seq<Seq<char>>
    decreases s.len(),
{
    match sentence(s) {
        Some(n) => if 0 < n <= s.len() {
            worth_showing(s.take(n)) + sentences(s.skip(n))
        } else {
            Seq::empty()
        },
        None => worth_showing(s),
    }
}

/// The bytes of the first `n` captions.
pub open spec fn bytes_through(captions: Seq<Seq<char>>, n: int) -> nat
    decreases n,
{
    if n <= 0 {
        0
    } else {
        bytes_through(captions, n - 1) + crate::text::byte_len(captions[n - 1])
    }
}

/// Trimming takes nothing but whitespace away.
proof fn lemma_trimmed(s: Seq<char>)
    ensures
        crate::wrap::glyphs(crate::text::trimmed(s)) == crate::wrap::glyphs(s),
        crate::text::byte_len(crate::text::trimmed(s)) <= crate::text::byte_len(s),
{
    lemma_trimmed_start(s);
    lemma_trimmed_end(crate::text::trimmed_start(s));
}

proof fn lemma_trimmed_start(s: Seq<char>)
    ensures
        crate::wrap::glyphs(crate::text::trimmed_start(s)) == crate::wrap::glyphs(s),
        crate::text::byte_len(crate::text::trimmed_start(s)) <= crate::text::byte_len(s),
    decreases s.len(),
{
    if s.len() > 0 && crate::text::is_white(s[0]) {
        lemma_trimmed_start(s.drop_first());
        assert(s =~= seq![s[0]] + s.drop_first());
        crate::wrap::lemma_glyphs_add(seq![s[0]], s.drop_first());
        crate::wrap::lemma_glyphs_push(Seq::empty(), s[0]);
        assert(Seq::<char>::empty().push(s[0]) =~= seq![s[0]]);
        crate::wrap::lemma_glyphs_empty();
        assert(crate::wrap::glyphs(s) =~= crate::wrap::glyphs(s.drop_first()));
        crate::text::lemma_encode_concat(seq![s[0]], s.drop_first());
    }
}

proof fn lemma_trimmed_end(s: Seq<char>)
    ensures
        crate::wrap::glyphs(crate::text::trimmed_end(s)) == crate::wrap::glyphs(s),
        crate::text::byte_len(crate::text::trimmed_end(s)) <= crate::text::byte_len(s),
    decreases s.len(),
{
    if s.len() > 0 && crate::text::is_white(s.last()) {
        lemma_trimmed_end(s.drop_last());
        assert(s =~= s.drop_last().push(s.last()));
        crate::wrap::lemma_glyphs_push(s.drop_last(), s.last());
        crate::text::lemma_byte_len_push(s.drop_last(), s.last());
    }
}

/// The captions of a reply take no more bytes than the reply, and lose nothing
/// of it but whitespace.
pub proof fn captions_lose_nothing(s: Seq<char>)
    ensures
        crate::wrap::all_glyphs(sentences(s)) == crate::wrap::glyphs(s),
        bytes_through(sentences(s), sentences(s).len() as int) <= crate::text::byte_len(s),
    decreases s.len(),
{
    lemma_sentence(s);
    match sentence(s) {
        Some(n) => {
            let head = s.take(n);
            let tail = s.skip(n);
            captions_lose_nothing(tail);
            assert(s =~= head + tail);
            crate::wrap::lemma_glyphs_add(head, tail);
            crate::text::lemma_encode_concat(head, tail);
            lemma_worth_showing(head);
            crate::wrap::lemma_all_glyphs_add(worth_showing(head), sentences(tail));
            lemma_bytes_concat(worth_showing(head), sentences(tail), sentences(tail).len() as int);
        },
        None => {
            lemma_worth_showing(s);
        },
    }
}

proof fn lemma_worth_showing(s: Seq<char>)
    ensures
        crate::wrap::all_glyphs(worth_showing(s)) == crate::wrap::glyphs(s),
        bytes_through(worth_showing(s), worth_showing(s).len() as int) <= crate::text::byte_len(s),
{
    lemma_trimmed(s);
    let t = crate::text::trimmed(s);
    reveal_with_fuel(crate::wrap::all_glyphs, 2);
    reveal_with_fuel(bytes_through, 2);
    if t.len() > 0 {
        assert(seq![t].drop_last() =~= Seq::<Seq<char>>::empty());
        assert(crate::wrap::all_glyphs(seq![t]) =~= crate::wrap::glyphs(t));
    } else {
        assert(t =~= Seq::<char>::empty());
        crate::wrap::lemma_glyphs_empty();
    }
}

proof fn lemma_bytes_concat(a: Seq<Seq<char>>, b: Seq<Seq<char>>, n: int)
    requires
        0 <= n <= b.len(),
    ensures
        bytes_through(a + b, a.len() + n) == bytes_through(a, a.len() as int) + bytes_through(
            b,
            n,
        ),
    decreases n,
{
    if n > 0 {
        lemma_bytes_concat(a, b, n - 1);
        assert((a + b)[a.len() + n - 1] == b[n - 1]);
    } else {
        lemma_bytes_prefix(a, b, a.len() as int);
    }
}

proof fn lemma_bytes_prefix(a: Seq<Seq<char>>, b: Seq<Seq<char>>, n: int)
    requires
        0 <= n <= a.len(),
    ensures
        bytes_through(a + b, n) == bytes_through(a, n),
    decreases n,
{
    if n > 0 {
        lemma_bytes_prefix(a, b, n - 1);
    }
}

proof fn lemma_bytes_monotonic(captions: Seq<Seq<char>>, i: int, j: int)
    requires
        0 <= i <= j,
    ensures
        bytes_through(captions, i) <= bytes_through(captions, j),
    decreases j - i,
{
    if i < j {
        lemma_bytes_monotonic(captions, i, j - 1);
    }
}

/// A reply cut into captions, with the running byte count behind each.
pub struct Captions {
    pub segments: Vec<String>,
    pub bounds: Vec<usize>,
    pub total_len: usize,
}

impl Captions {
    /// There is at least one caption, and the counts are right.
    pub open spec fn valid(self) -> bool {
        let texts = crate::text::texts(self.segments@);
        &&& self.segments@.len() > 0
        &&& self.bounds@.len() == self.segments@.len()
        &&& forall|i: int|
            0 <= i < self.bounds@.len() ==> #[trigger] self.bounds@[i] == bytes_through(
                texts,
                i + 1,
            )
        &&& self.total_len == (if bytes_through(texts, texts.len() as int) == 0 {
            1
        } else {
            bytes_through(texts, texts.len() as int)
        })
    }

    /// The captions of a reply, itself one caption if it has no other.
    pub fn of(text: &str) -> (c: Captions)
        ensures
            c.valid(),
            crate::text::texts(c.segments@) == (if sentences(text@).len() > 0 {
                sentences(text@)
            } else {
                seq![text@]
            }),
    {
        let whole: usize = text.as_bytes().len();
        let mut segments = cut(text);
        proof {
            captions_lose_nothing(text@);
        }
        if segments.len() == 0 {
            segments.push(text.to_owned());
            proof {
                assert(crate::text::texts(segments@) =~= seq![text@]);
                reveal_with_fuel(bytes_through, 2);
            }
        }
        let ghost texts = crate::text::texts(segments@);
        let mut bounds: Vec<usize> = Vec::new();
        let mut acc: usize = 0;
        let mut i: usize = 0;
        while i < segments.len()
            invariant
                i <= segments@.len() == texts.len(),
                texts == crate::text::texts(segments@),
                whole >= bytes_through(texts, texts.len() as int),
                acc == bytes_through(texts, i as int),
                bounds@.len() == i,
                forall|k: int|
                    0 <= k < i ==> #[trigger] bounds@[k] == bytes_through(texts, k + 1),
            decreases segments@.len() - i,
        {
            proof {
                lemma_bytes_monotonic(texts, i + 1, texts.len() as int);
            }
            acc += segments[i].as_str().as_bytes().len();
            bounds.push(acc);
            i += 1;
        }
        let total_len: usize = if acc == 0 {
            1
        } else {
            acc
        };
        Captions { segments, bounds, total_len }
    }

    /// How much of the captions has been spoken once `played` of `total_pcm`
    /// bytes of audio were played, on the scale of the byte counts.
    pub open spec fn spoken_part(self, played: int, total_pcm: int) -> int {
        if played * self.total_len / total_pcm <= self.total_len {
            played * self.total_len / total_pcm
        } else {
            self.total_len as int
        }
    }

    /// How much of the captions has been spoken once `played` of `total_pcm`
    /// bytes of audio were played, on the scale of the byte counts.
    pub fn spoken(&self, played: usize, total_pcm: usize) -> (r: usize)
        requires
            total_pcm > 0,
        ensures
            r == self.spoken_part(played as int, total_pcm as int),
    {
        assert(played as u128 * self.total_len as u128 <= u128::MAX) by (nonlinear_arith)
            requires
                played <= usize::MAX,
                self.total_len <= usize::MAX,
                usize::MAX <= 0xFFFF_FFFF_FFFF_FFFF,
        ;
        let done: u128 = played as u128 * self.total_len as u128 / total_pcm as u128;
        if done <= self.total_len as u128 {
            done as usize
        } else {
            self.total_len
        }
    }

    /// Whether `next` is the caption to show, at or behind `seg`, once `spoken` was
    /// spoken: the first that is not over yet, or the last.
    pub open spec fn moves_to(self, seg: int, next: int, spoken: int) -> bool {
        &&& seg <= next < self.segments@.len()
        &&& next + 1 == self.segments@.len() || spoken < self.bounds@[next]
        &&& forall|i: int| seg <= i < next ==> spoken >= #[trigger] self.bounds@[i]
    }

    /// The caption to show once `spoken` was spoken, at or behind `seg`.
    pub fn advance(&self, seg: usize, spoken: usize) -> (r: usize)
        requires
            self.valid(),
            seg < self.segments@.len(),
        ensures
            self.moves_to(seg as int, r as int, spoken as int),
    {
        let last: usize = self.segments.len() - 1;
        let mut r: usize = seg;
        while r < last && spoken >= self.bounds[r]
            invariant
                self.valid(),
                last + 1 == self.segments@.len(),
                seg <= r <= last,
                forall|i: int| seg <= i < r ==> spoken >= #[trigger] self.bounds@[i],
            decreases last - r,
        {
            r += 1;
        }
        r
    }
}

/// The sentences of a reply.
fn cut(text: &str) -> (r: Vec<String>)
    ensures
        crate::text::texts(r@) == sentences(text@),
{
    let chars = chars_of(text);
    let total: usize = chars.len();
    let mut r: Vec<String> = Vec::new();
    let mut from: usize = 0;
    assert(chars@.skip(0) =~= text@);
    assert(crate::text::texts(r@) =~= Seq::<Seq<char>>::empty());
    assert(crate::text::texts(r@) + sentences(text@) =~= sentences(text@));
    loop
        invariant
            from <= total == chars@.len(),
            sentences(text@) == crate::text::texts(r@) + sentences(chars@.skip(from as int)),
        decreases total - from,
    {
        let ghost rest = chars@.skip(from as int);
        let ghost before = crate::text::texts(r@);
        match sentence_at(&chars, from) {
            Some(n) => {
                let (lo, hi) = trim_bounds(&chars, from, from + n);
                assert(chars@.subrange(from as int, from + n) =~= rest.take(n as int));
                if lo < hi {
                    r.push(string_of(&chars, lo, hi));
                    assert(crate::text::texts(r@) =~= before + worth_showing(rest.take(n as int)));
                } else {
                    assert(crate::text::texts(r@) =~= before + worth_showing(rest.take(n as int)));
                }
                from += n;
                assert(rest.skip(n as int) =~= chars@.skip(from as int));
                assert(sentences(text@) =~= crate::text::texts(r@) + sentences(
                    chars@.skip(from as int),
                ));
            },
            None => {
                let (lo, hi) = trim_bounds(&chars, from, total);
                assert(chars@.subrange(from as int, total as int) =~= rest);
                if lo < hi {
                    r.push(string_of(&chars, lo, hi));
                }
                assert(crate::text::texts(r@) =~= before + worth_showing(rest));
                return r;
            },
        }
    }
}

/// Once all of a clip has been played, the last caption is the one that is
/// shown.
pub proof fn captions_keep_up(c: Captions, played: int, total_pcm: int, seg: int, next: int)
    requires
        c.valid(),
        0 < total_pcm <= played,
        0 <= seg,
        c.moves_to(seg, next, c.spoken_part(played, total_pcm)),
    ensures
        next + 1 == c.segments@.len(),
{
    let all = c.total_len as int;
    assert(played * all / total_pcm >= all) by (nonlinear_arith)
        requires
            0 < total_pcm <= played,
            0 <= all,
    ;
    let texts = crate::text::texts(c.segments@);
    lemma_bytes_monotonic(texts, next + 1, texts.len() as int);
}

/// Whether a text is free of `.`, `!`, `?` and line feeds.
pub open spec fn goes_on(s: Seq<char>) -> bool {
    forall|i: int| #![trigger s[i]] 0 <= i < s.len() ==> s[i] != '.' && s[i] != '!' && s[i] != '?'
        && s[i] != '\n'
}

proof fn lemma_first_end_is_first(s: Seq<char>, i: int)
    requires
        0 <= i <= s.len(),
    ensures
        i <= first_end(s, i) <= s.len(),
        goes_on(s.subrange(i, first_end(s, i))),
        first_end(s, i) < s.len() ==> ({
            let c = s[first_end(s, i)];
            c == '.' || c == '!' || c == '?' || c == '\n'
        }),
    decreases s.len() - i,
{
    if i < s.len() && !ends_sentence(s[i]) {
        lemma_first_end_is_first(s, i + 1);
        let e = first_end(s, i);
        let all = s.subrange(i, e);
        let rest = s.subrange(i + 1, e);
        assert forall|k: int| #![trigger all[k]] 0 <= k < all.len() implies all[k] != '.' && all[k]
            != '!' && all[k] != '?' && all[k] != '\n' by {
            if k > 0 {
                assert(all[k] == rest[k - 1]);
            }
        }
    }
}

/// A first sentence ends where a sentence ends, never inside one: its last
/// character is a `.`, `!`, `?` or line feed, and none ahead of it is. A text
/// without any of them is one sentence if it has more than 200 bytes, and none
/// yet otherwise.
pub proof fn first_sentences_end_at_their_end(s: Seq<char>)
    ensures
        match sentence(s) {
            Some(n) => 0 < n <= s.len() && goes_on(s.take(n - 1)) && ({
                ||| s[n - 1] == '.'
                ||| s[n - 1] == '!'
                ||| s[n - 1] == '?'
                ||| s[n - 1] == '\n'
                ||| n == s.len() && goes_on(s) && crate::text::byte_len(s) > 200
            }),
            None => goes_on(s) && crate::text::byte_len(s) <= 200,
        },
{
    lemma_first_end_is_first(s, 0);
    lemma_sentence(s);
    let e = first_end(s, 0);
    assert(s.subrange(0, e) =~= s.take(e));
    if e == s.len() {
        assert(s.take(e) =~= s);
        if sentence(s) is Some {
            let t = s.take(s.len() - 1);
            assert forall|k: int| #![trigger t[k]] 0 <= k < t.len() implies t[k] != '.' && t[k]
                != '!' && t[k] != '?' && t[k] != '\n' by {
                assert(t[k] == s[k]);
            }
        }
    }
}

/// Whether a text is nothing but whitespace.
pub open spec fn blank(s: Seq<char>) -> bool {
    forall|i: int| 0 <= i < s.len() ==> crate::text::is_white(#[trigger] s[i])
}

/// A text that goes on without an end is one caption, trimmed, or none if it is
/// blank.
pub proof fn text_without_an_end_is_one_caption(s: Seq<char>)
    requires
        goes_on(s),
    ensures
        blank(s) ==> sentences(s) == Seq::<Seq<char>>::empty(),
        !blank(s) ==> sentences(s) == seq![crate::text::trimmed(s)],
{
    first_sentences_end_at_their_end(s);
    crate::text::trimming_takes_whitespace_off_the_ends(s);
    lemma_blank(s);
    match sentence(s) {
        Some(n) => {
            assert(s[n - 1] != '.');
            assert(s.take(n) =~= s);
            assert(s.skip(n) =~= Seq::<char>::empty());
            lemma_no_sentences();
            assert(worth_showing(s) + Seq::<Seq<char>>::empty() =~= worth_showing(s));
        },
        None => {},
    }
}

proof fn lemma_no_sentences()
    ensures
        sentences(Seq::empty()) == Seq::<Seq<char>>::empty(),
{
    let none = Seq::<char>::empty();
    first_sentences_end_at_their_end(none);
    assert(crate::text::trimmed(none) == none);
}

/// Trimming leaves nothing exactly of what is blank.
proof fn lemma_blank(s: Seq<char>)
    ensures
        blank(s) <==> crate::text::trimmed(s).len() == 0,
{
    crate::text::trimming_takes_whitespace_off_the_ends(s);
    let t = crate::text::trimmed(s);
    let lo = choose|lo: int| #[trigger] crate::text::trims_to(s, t, lo);
    if blank(s) && t.len() > 0 {
        assert(crate::text::is_white(s[lo]));
    }
    if t.len() == 0 {
        assert forall|i: int| 0 <= i < s.len() implies crate::text::is_white(#[trigger] s[i]) by {}
    }
}

/// The captions of a reply are its sentences: the first one up to and with its
/// end, trimmed, unless it is blank, and then the captions of the rest.
pub proof fn captions_are_cut_at_the_ends_of_sentences(a: Seq<char>, e: char, rest: Seq<char>)
    requires
        goes_on(a),
        e == '.' || e == '!' || e == '?' || e == '\n',
    ensures
        ({
            let first = a.push(e);
            sentences(first + rest) == (if blank(first) {
                Seq::empty()
            } else {
                seq![crate::text::trimmed(first)]
            }) + sentences(rest)
        }),
{
    let first = a.push(e);
    let s = first + rest;
    first_sentences_end_at_their_end(s);
    let m = a.len() as int;
    assert(s[m] == e);
    match sentence(s) {
        Some(n) => {
            if n - 1 < m {
                assert(s[n - 1] == a[n - 1]);
                assert(n < s.len());
            } else if n - 1 > m {
                assert(s.take(n - 1)[m] == e);
            }
            assert(n == m + 1);
            assert(s.take(n) =~= first);
            assert(s.skip(n) =~= rest);
            lemma_blank(first);
        },
        None => {},
    }
}

/// How much of the captions has been spoken is how much of the clip has been
/// played, to the byte: nothing at first, everything in the end, and in
/// proportion between.
pub proof fn captions_move_with_the_clip(c: Captions, played: int, total_pcm: int)
    requires
        0 <= played,
        0 < total_pcm,
    ensures
        ({
            let spoken = c.spoken_part(played, total_pcm);
            &&& 0 <= spoken <= c.total_len
            &&& played <= total_pcm ==> spoken * total_pcm <= played * c.total_len < (spoken + 1)
                * total_pcm
            &&& played >= total_pcm ==> spoken == c.total_len
        }),
{
    let all = c.total_len as int;
    let x = played * all;
    let q = x / total_pcm;
    assert(x >= 0) by (nonlinear_arith)
        requires
            played >= 0,
            all >= 0,
            x == played * all,
    ;
    vstd::arithmetic::div_mod::lemma_fundamental_div_mod(x, total_pcm);
    vstd::arithmetic::div_mod::lemma_mod_bound(x, total_pcm);
    assert(total_pcm * q == q * total_pcm) by (nonlinear_arith);
    assert((q + 1) * total_pcm == q * total_pcm + total_pcm) by (nonlinear_arith);
    assert(q >= 0) by (nonlinear_arith)
        requires
            (q + 1) * total_pcm > x,
            x >= 0,
            total_pcm > 0,
    ;
    if played <= total_pcm {
        assert(q <= all) by (nonlinear_arith)
            requires
                q * total_pcm <= x,
                x == played * all,
                0 <= played <= total_pcm,
                0 < total_pcm,
                0 <= all,
        ;
    }
    if played >= total_pcm {
        assert(q >= all) by (nonlinear_arith)
            requires
                (q + 1) * total_pcm > x,
                x == played * all,
                played >= total_pcm,
                0 < total_pcm,
                0 <= all,
        ;
    }
}

/// The captions of a reply stand for it in turn: each is a caption of the reply,
/// and its count ends where the next one's begins.
pub proof fn counts_run_on(c: Captions, i: int)
    requires
        c.valid(),
        0 <= i < c.segments@.len(),
    ensures
        c.bounds@[i] == (if i == 0 {
            0
        } else {
            c.bounds@[i - 1] as int
        }) + crate::text::byte_len(c.segments@[i]@),
        i + 1 == c.segments@.len() && c.bounds@[i] > 0 ==> c.total_len == c.bounds@[i],
{
    let texts = crate::text::texts(c.segments@);
    reveal_with_fuel(bytes_through, 2);
    assert(c.bounds@[i] == bytes_through(texts, i + 1));
    if i > 0 {
        assert(c.bounds@[i - 1] == bytes_through(texts, i));
    }
}

/// The caption that is shown is the one being spoken: that within whose bytes the
/// spoken part ends, unless a later one is on screen already. Captions never go
/// back.
pub proof fn the_caption_shown_is_the_one_spoken(
    c: Captions,
    seg: int,
    next: int,
    spoken: int,
    i: int,
)
    requires
        c.valid(),
        0 <= seg,
        c.moves_to(seg, next, spoken),
        0 <= i < c.segments@.len(),
        i > 0 ==> spoken >= c.bounds@[i - 1],
        spoken < c.bounds@[i],
    ensures
        next == (if seg <= i {
            i
        } else {
            seg
        }),
{
    let texts = crate::text::texts(c.segments@);
    assert(c.bounds@[i] == bytes_through(texts, i + 1));
    if next < i {
        assert(c.bounds@[next] == bytes_through(texts, next + 1));
        assert(c.bounds@[i - 1] == bytes_through(texts, i));
        lemma_bytes_monotonic(texts, next + 1, i);
    } else if next > i && next > seg {
        let k = if seg <= i {
            i
        } else {
            seg
        };
        assert(spoken >= c.bounds@[k]);
        assert(c.bounds@[k] == bytes_through(texts, k + 1));
        lemma_bytes_monotonic(texts, i + 1, k + 1);
    }
}

} // verus!
