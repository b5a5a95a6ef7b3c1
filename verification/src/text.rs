//! Text as sequences of characters: the string operations the rest of the
//! library is built from, each stated over `Seq<char>`.
use vstd::prelude::*;
use vstd::utf8::*;

verus! {

/// `String::push`: appends one character to the end of the string.
pub assume_specification[ String::push ](s: &mut String, ch: char)
    ensures
        final(s)@ == old(s)@.push(ch),
;

/// `core::str::from_utf8`: succeeds exactly on well-formed UTF-8, and the text
/// it gives back is what those bytes encode.
#[verifier::external_body]
pub(crate) fn utf8_text(bytes: &[u8]) -> (text: Option<String>)
    ensures
        text is Some <==> valid_utf8(bytes@),
        text matches Some(t) ==> t@ == decode_utf8(bytes@),
{
    core::str::from_utf8(bytes).ok().map(String::from)
}

/// The characters of a string, in order.
pub fn chars_of(s: &str) -> (chars: Vec<char>)
    ensures
        chars@ == s@,
{
    let mut chars: Vec<char> = Vec::new();
    for c in it: s.chars()
        invariant
            it.seq() == s@,
            chars@ == s@.take(it.index()),
    {
        chars.push(c);
    }
    chars
}

/// The string made of `chars[from..to]`.
pub fn string_of(chars: &[char], from: usize, to: usize) -> (s: String)
    requires
        from <= to <= chars@.len(),
    ensures
        s@ == chars@.subrange(from as int, to as int),
{
    let mut s = String::new();
    let mut i: usize = from;
    while i < to
        invariant
            from <= i <= to <= chars@.len(),
            s@ == chars@.subrange(from as int, i as int),
        decreases to - i,
    {
        s.push(chars[i]);
        i += 1;
    }
    s
}

/// Whether two strings hold the same characters.
pub fn same_text(a: &str, b: &str) -> (same: bool)
    ensures
        same == (a@ == b@),
{
    let x = chars_of(a);
    let y = chars_of(b);
    if x.len() != y.len() {
        return false;
    }
    let mut i: usize = 0;
    while i < x.len()
        invariant
            x@ == a@,
            y@ == b@,
            x@.len() == y@.len(),
            i <= x@.len(),
            forall|j: int| 0 <= j < i ==> x@[j] == y@[j],
        decreases x@.len() - i,
    {
        if x[i] != y[i] {
            return false;
        }
        i += 1;
    }
    assert(a@ =~= b@);
    true
}

/// The texts of a list of strings.
pub open spec fn texts(v: Seq<String>) -> Seq<Seq<char>> {
    Seq::new(v.len(), |i: int| v[i]@)
}

// ---------- Whitespace ----------
/// The code points with the Unicode `White_Space` property.
pub open spec fn is_white(c: char) -> bool {
    let n = c as u32;
    ||| 0x09 <= n <= 0x0D
    ||| n == 0x20
    ||| n == 0x85
    ||| n == 0xA0
    ||| n == 0x1680
    ||| 0x2000 <= n <= 0x200A
    ||| n == 0x2028
    ||| n == 0x2029
    ||| n == 0x202F
    ||| n == 0x205F
    ||| n == 0x3000
}

/// Whether `c` is Unicode whitespace.
pub fn white(c: char) -> (r: bool)
    ensures
        r == is_white(c),
{
    let n: u32 = c as u32;
    (0x09 <= n && n <= 0x0D) || n == 0x20 || n == 0x85 || n == 0xA0 || n == 0x1680 || (0x2000 <= n
        && n <= 0x200A) || n == 0x2028 || n == 0x2029 || n == 0x202F || n == 0x205F || n == 0x3000
}

/// `s` without its leading whitespace.
pub open spec fn trimmed_start(s: Seq<char>) -> Seq<char>
    decreases s.len(),
{
    if s.len() > 0 && is_white(s[0]) {
        trimmed_start(s.drop_first())
    } else {
        s
    }
}

/// `s` without its trailing whitespace.
pub open spec fn trimmed_end(s: Seq<char>) -> Seq<char>
    decreases s.len(),
{
    if s.len() > 0 && is_white(s.last()) {
        trimmed_end(s.drop_last())
    } else {
        s
    }
}

/// `s` without leading and trailing whitespace.
pub open spec fn trimmed(s: Seq<char>) -> Seq<char> {
    trimmed_end(trimmed_start(s))
}

/// `s` without the run of `c` at its end.
pub open spec fn without_trailing(s: Seq<char>, c: char) -> Seq<char>
    decreases s.len(),
{
    if s.len() > 0 && s.last() == c {
        without_trailing(s.drop_last(), c)
    } else {
        s
    }
}

/// Whether `suffix` ends `s`.
pub open spec fn ends_with(s: Seq<char>, suffix: Seq<char>) -> bool {
    &&& suffix.len() <= s.len()
    &&& s.subrange(s.len() - suffix.len(), s.len() as int) == suffix
}

/// Whether `prefix` begins `s`.
pub open spec fn begins_with(s: Seq<char>, prefix: Seq<char>) -> bool {
    &&& prefix.len() <= s.len()
    &&& s.subrange(0, prefix.len() as int) == prefix
}

/// `s` with one copy of `suffix` removed from its end, if it is there.
pub open spec fn without_suffix(s: Seq<char>, suffix: Seq<char>) -> Seq<char> {
    if ends_with(s, suffix) {
        s.subrange(0, s.len() - suffix.len())
    } else {
        s
    }
}

/// The bounds `(from, to)` of the characters that trimming keeps of
/// `chars[lo..hi]`.
pub fn trim_bounds(chars: &[char], lo: usize, hi: usize) -> (r: (usize, usize))
    requires
        lo <= hi <= chars@.len(),
    ensures
        lo <= r.0 <= r.1 <= hi,
        chars@.subrange(r.0 as int, r.1 as int) == trimmed(chars@.subrange(lo as int, hi as int)),
{
    let mut from: usize = lo;
    while from < hi && white(chars[from])
        invariant
            lo <= from <= hi <= chars@.len(),
            trimmed_start(chars@.subrange(lo as int, hi as int)) == trimmed_start(
                chars@.subrange(from as int, hi as int),
            ),
        decreases hi - from,
    {
        assert(chars@.subrange(from as int, hi as int).drop_first() =~= chars@.subrange(
            from + 1,
            hi as int,
        ));
        from += 1;
    }
    let mut to: usize = hi;
    while from < to && white(chars[to - 1])
        invariant
            lo <= from <= to <= hi <= chars@.len(),
            trimmed_end(chars@.subrange(from as int, hi as int)) == trimmed_end(
                chars@.subrange(from as int, to as int),
            ),
        decreases to,
    {
        assert(chars@.subrange(from as int, to as int).drop_last() =~= chars@.subrange(
            from as int,
            to - 1,
        ));
        to -= 1;
    }
    (from, to)
}

/// A copy of `s` without leading and trailing whitespace.
pub fn trim(s: &str) -> (t: String)
    ensures
        t@ == trimmed(s@),
{
    let chars = chars_of(s);
    assert(chars@.subrange(0, chars@.len() as int) =~= s@);
    let (from, to) = trim_bounds(&chars, 0, chars.len());
    string_of(&chars, from, to)
}

/// The length `chars[..hi]` keeps once the run of `c` at its end is removed.
pub fn trim_end_matches(chars: &[char], hi: usize, c: char) -> (to: usize)
    requires
        hi <= chars@.len(),
    ensures
        to <= hi,
        chars@.take(to as int) == without_trailing(chars@.take(hi as int), c),
{
    let mut to: usize = hi;
    while 0 < to && chars[to - 1] == c
        invariant
            to <= hi <= chars@.len(),
            without_trailing(chars@.take(hi as int), c) == without_trailing(
                chars@.take(to as int),
                c,
            ),
        decreases to,
    {
        assert(chars@.take(to as int).drop_last() =~= chars@.take(to - 1));
        to -= 1;
    }
    to
}

/// Whether `chars[at..]` begins with `pattern`.
pub fn matches_at(chars: &[char], at: usize, pattern: &[char]) -> (r: bool)
    ensures
        r == (at + pattern@.len() <= chars@.len() && chars@.subrange(
            at as int,
            at + pattern@.len(),
        ) == pattern@),
{
    let total: usize = chars.len();
    if at > total || total - at < pattern.len() {
        return false;
    }
    let mut i: usize = 0;
    while i < pattern.len()
        invariant
            i <= pattern@.len(),
            at + pattern@.len() <= total == chars@.len(),
            forall|j: int| 0 <= j < i ==> chars@[at + j] == pattern@[j],
        decreases pattern@.len() - i,
    {
        if chars[at + i] != pattern[i] {
            assert(chars@.subrange(at as int, at + pattern@.len())[i as int] != pattern@[i as int]);
            return false;
        }
        i += 1;
    }
    assert(chars@.subrange(at as int, at + pattern@.len()) =~= pattern@);
    true
}

/// The length `chars[..hi]` keeps once one copy of `suffix` is stripped.
pub fn strip_suffix(chars: &[char], hi: usize, suffix: &str) -> (to: usize)
    requires
        hi <= chars@.len(),
    ensures
        to <= hi,
        chars@.take(to as int) == without_suffix(chars@.take(hi as int), suffix@),
{
    let tail = chars_of(suffix);
    let ghost kept = chars@.take(hi as int);
    if tail.len() <= hi {
        let at: usize = hi - tail.len();
        assert(kept.subrange(kept.len() - suffix@.len(), kept.len() as int) =~= chars@.subrange(
            at as int,
            hi as int,
        ));
        if matches_at(chars, at, &tail) {
            assert(kept.subrange(0, kept.len() - suffix@.len()) =~= chars@.take(at as int));
            return at;
        }
    }
    hi
}

/// Whether `s` begins with `prefix`.
pub fn starts_with(s: &str, prefix: &str) -> (r: bool)
    ensures
        r == begins_with(s@, prefix@),
{
    let chars = chars_of(s);
    let head = chars_of(prefix);
    matches_at(&chars, 0, &head)
}

/// What follows `prefix` in `s`, if `s` begins with it.
pub fn strip_prefix(s: &str, prefix: &str) -> (r: Option<String>)
    ensures
        r is Some <==> begins_with(s@, prefix@),
        r matches Some(rest) ==> rest@ == s@.skip(prefix@.len() as int),
{
    let chars = chars_of(s);
    let head = chars_of(prefix);
    if matches_at(&chars, 0, &head) {
        assert(s@.skip(prefix@.len() as int) =~= s@.subrange(
            prefix@.len() as int,
            s@.len() as int,
        ));
        Some(string_of(&chars, head.len(), chars.len()))
    } else {
        None
    }
}

// ---------- Words ----------
/// The words of `s`: its longest runs of characters that are not whitespace.
/// Each such character continues the word of the one before it, or begins a
/// new one.
pub open spec fn words(s: Seq<char>) -> Seq<Seq<char>>
    decreases s.len(),
{
    if s.len() == 0 {
        Seq::empty()
    } else {
        let before = words(s.drop_last());
        if is_white(s.last()) {
            before
        } else if s.len() > 1 && !is_white(s[s.len() - 2]) {
            before.drop_last().push(before.last().push(s.last()))
        } else {
            before.push(seq![s.last()])
        }
    }
}

/// The texts of a list of words.
pub open spec fn word_texts(v: Seq<Vec<char>>) -> Seq<Seq<char>> {
    Seq::new(v.len(), |i: int| v[i]@)
}

/// Text that ends in a word has one.
pub proof fn lemma_last_word(s: Seq<char>)
    requires
        s.len() > 0,
        !is_white(s.last()),
    ensures
        words(s).len() > 0,
        words(s).last().len() > 0,
    decreases s.len(),
{
    if s.len() > 1 && !is_white(s[s.len() - 2]) {
        lemma_last_word(s.drop_last());
    }
}

/// The words of `s`, in order.
pub fn split_words(s: &str) -> (r: Vec<Vec<char>>)
    ensures
        word_texts(r@) == words(s@),
{
    let chars = chars_of(s);
    let mut done: Vec<Vec<char>> = Vec::new();
    let mut word: Vec<char> = Vec::new();
    let mut i: usize = 0;
    assert(word_texts(done@) =~= words(s@.take(0)));
    while i < chars.len()
        invariant
            chars@ == s@,
            i <= chars@.len(),
            word@.len() > 0 <==> i > 0 && !is_white(s@[i - 1]),
            words(s@.take(i as int)) == (if word@.len() > 0 {
                word_texts(done@).push(word@)
            } else {
                word_texts(done@)
            }),
        decreases chars@.len() - i,
    {
        let c = chars[i];
        assert(s@.take(i + 1).drop_last() =~= s@.take(i as int));
        let ghost before = word_texts(done@);
        if white(c) {
            if word.len() > 0 {
                let ghost last = word@;
                done.push(word);
                word = Vec::new();
                assert(word_texts(done@) =~= before.push(last));
            }
        } else {
            let ghost last = word@;
            word.push(c);
            proof {
                if last.len() > 0 {
                    assert(before.push(last).drop_last() =~= before);
                } else {
                    assert(word@ =~= seq![c]);
                }
            }
        }
        i += 1;
    }
    assert(s@.take(s@.len() as int) =~= s@);
    let ghost before = word_texts(done@);
    let ghost last = word@;
    if word.len() > 0 {
        done.push(word);
        assert(word_texts(done@) =~= before.push(last));
    }
    done
}

// ---------- Numbers ----------
/// The decimal digit of `d`, for `d` below ten.
pub open spec fn digit(d: nat) -> char {
    (0x30 + d) as char
}

/// `n` written in decimal.
pub open spec fn decimal(n: nat) -> Seq<char>
    decreases n,
{
    if n < 10 {
        seq![digit(n)]
    } else {
        decimal(n / 10).push(digit(n % 10))
    }
}

/// A number below the `k`th power of ten has at most `k` digits.
pub proof fn lemma_decimal_len(n: nat, k: nat)
    requires
        k > 0,
        n < vstd::arithmetic::power::pow(10, k),
    ensures
        1 <= decimal(n).len() <= k,
    decreases n,
{
    if n >= 10 {
        reveal(vstd::arithmetic::power::pow);
        if k == 1 {
            assert(vstd::arithmetic::power::pow(10, 1) == 10 * vstd::arithmetic::power::pow(10, 0));
        } else {
            lemma_decimal_len(n / 10, (k - 1) as nat);
        }
    }
}

/// A 64-bit number has at most 20 digits.
pub proof fn lemma_decimal_u64(n: u64)
    ensures
        1 <= decimal(n as nat).len() <= 20,
{
    assert(vstd::arithmetic::power::pow(10, 20) == 100_000_000_000_000_000_000) by {
        reveal_with_fuel(vstd::arithmetic::power::pow, 21);
    }
    lemma_decimal_len(n as nat, 20);
}

/// Appends `n`, written in decimal, to `out`.
pub fn push_decimal(out: &mut String, n: u64)
    ensures
        final(out)@ == old(out)@ + decimal(n as nat),
    decreases n,
{
    if n >= 10 {
        push_decimal(out, n / 10);
    }
    let d: u8 = 0x30 + (n % 10) as u8;
    out.push(d as char);
    assert(out@ =~= old(out)@ + decimal(n as nat));
}

/// `n` written in decimal.
pub fn decimal_text(n: u64) -> (s: String)
    ensures
        s@ == decimal(n as nat),
{
    let mut s = String::new();
    push_decimal(&mut s, n);
    assert(s@ =~= decimal(n as nat));
    s
}

// ---------- UTF-8 lengths ----------
/// The number of bytes that `s` takes in UTF-8.
pub open spec fn byte_len(s: Seq<char>) -> nat {
    encode_utf8(s).len()
}

/// The number of bytes that one character takes in UTF-8.
pub open spec fn char_len(c: char) -> nat {
    let n = c as u32;
    if n < 0x80 {
        1
    } else if n < 0x800 {
        2
    } else if n < 0x10000 {
        3
    } else {
        4
    }
}

/// Encoding a concatenation encodes its parts one after the other.
pub proof fn lemma_encode_concat(a: Seq<char>, b: Seq<char>)
    ensures
        encode_utf8(a + b) == encode_utf8(a) + encode_utf8(b),
        byte_len(a + b) == byte_len(a) + byte_len(b),
    decreases a.len(),
{
    if a.len() == 0 {
        assert(a + b =~= b);
    } else {
        assert((a + b).drop_first() =~= a.drop_first() + b);
        lemma_encode_concat(a.drop_first(), b);
        assert(encode_utf8(a + b) =~= encode_utf8(a) + encode_utf8(b));
    }
}

/// One more character adds its own length.
pub proof fn lemma_byte_len_push(s: Seq<char>, c: char)
    ensures
        byte_len(s.push(c)) == byte_len(s) + char_len(c),
{
    assert(s.push(c) =~= s + seq![c]);
    lemma_encode_concat(s, seq![c]);
    assert(seq![c].drop_first() =~= Seq::<char>::empty());
    assert(encode_utf8(seq![c]) =~= encode_scalar(c as u32)) by {
        reveal_with_fuel(encode_utf8, 2);
    }
    char_is_scalar(c);
}

/// No character takes more than four bytes.
pub proof fn lemma_byte_len_bound(s: Seq<char>)
    ensures
        byte_len(s) <= 4 * s.len(),
    decreases s.len(),
{
    if s.len() > 0 {
        lemma_byte_len_bound(s.drop_last());
        lemma_byte_len_push(s.drop_last(), s.last());
        assert(s.drop_last().push(s.last()) =~= s);
    }
}

/// The number of bytes that `c` takes in UTF-8.
pub fn len_utf8(c: char) -> (n: usize)
    ensures
        n == char_len(c),
        1 <= n <= 4,
{
    let v: u32 = c as u32;
    if v < 0x80 {
        1
    } else if v < 0x800 {
        2
    } else if v < 0x10000 {
        3
    } else {
        4
    }
}

/// Whether `t` is what stands in `s` from `lo` on, with nothing but whitespace
/// ahead of it and behind it, and none at its own ends.
pub open spec fn trims_to(s: Seq<char>, t: Seq<char>, lo: int) -> bool {
    let hi = lo + t.len();
    &&& 0 <= lo <= hi <= s.len()
    &&& t == s.subrange(lo, hi)
    &&& forall|i: int| 0 <= i < lo ==> is_white(#[trigger] s[i])
    &&& forall|i: int| hi <= i < s.len() ==> is_white(#[trigger] s[i])
    &&& t.len() > 0 ==> !is_white(t[0]) && !is_white(t.last())
}

proof fn lemma_trimmed_start_place(s: Seq<char>) -> (lo: int)
    ensures
        0 <= lo <= s.len(),
        trimmed_start(s) == s.skip(lo),
        forall|i: int| 0 <= i < lo ==> is_white(#[trigger] s[i]),
        lo < s.len() ==> !is_white(s[lo]),
    decreases s.len(),
{
    if s.len() > 0 && is_white(s[0]) {
        let t = s.drop_first();
        let k = lemma_trimmed_start_place(t);
        assert(t.skip(k) =~= s.skip(k + 1));
        assert forall|i: int| 0 <= i < k + 1 implies is_white(#[trigger] s[i]) by {
            if i > 0 {
                assert(is_white(t[i - 1]));
            }
        }
        k + 1
    } else {
        assert(s.skip(0) =~= s);
        0
    }
}

proof fn lemma_trimmed_end_place(s: Seq<char>) -> (hi: int)
    ensures
        0 <= hi <= s.len(),
        trimmed_end(s) == s.take(hi),
        forall|i: int| hi <= i < s.len() ==> is_white(#[trigger] s[i]),
        hi > 0 ==> !is_white(s[hi - 1]),
    decreases s.len(),
{
    if s.len() > 0 && is_white(s.last()) {
        let t = s.drop_last();
        let k = lemma_trimmed_end_place(t);
        assert(t.take(k) =~= s.take(k));
        assert forall|i: int| k <= i < s.len() implies is_white(#[trigger] s[i]) by {
            if i < t.len() {
                assert(is_white(t[i]));
            }
        }
        k
    } else {
        assert(s.take(s.len() as int) =~= s);
        s.len() as int
    }
}

/// Trimming takes all whitespace off both ends, and nothing else.
pub proof fn trimming_takes_whitespace_off_the_ends(s: Seq<char>)
    ensures
        exists|lo: int| #[trigger] trims_to(s, trimmed(s), lo),
{
    let lo = lemma_trimmed_start_place(s);
    let u = trimmed_start(s);
    let k = lemma_trimmed_end_place(u);
    let t = trimmed(s);
    assert(t =~= s.subrange(lo, lo + k));
    assert forall|i: int| lo + k <= i < s.len() implies is_white(#[trigger] s[i]) by {
        assert(is_white(u[i - lo]));
    }
    if k > 0 {
        assert(t[0] == s[lo]);
        assert(t.last() == u[k - 1]);
    }
    assert(trims_to(s, t, lo));
}

/// Whether a text is free of whitespace.
pub open spec fn solid_text(s: Seq<char>) -> bool {
    forall|i: int| 0 <= i < s.len() ==> !is_white(#[trigger] s[i])
}

/// A text without whitespace is one word, unless it is empty.
pub proof fn text_without_whitespace_is_one_word(s: Seq<char>)
    requires
        solid_text(s),
        s.len() > 0,
    ensures
        words(s) == seq![s],
    decreases s.len(),
{
    let t = s.drop_last();
    assert(!is_white(s[s.len() - 1]));
    if t.len() > 0 {
        assert forall|i: int| 0 <= i < t.len() implies !is_white(#[trigger] t[i]) by {
            assert(!is_white(s[i]));
        }
        text_without_whitespace_is_one_word(t);
        assert(!is_white(s[s.len() - 2]));
        assert(t.push(s.last()) =~= s);
        assert(words(s) =~= seq![s]);
    } else {
        assert(words(t) =~= Seq::<Seq<char>>::empty());
        assert(s =~= seq![s.last()]);
        assert(words(s) =~= seq![s]);
    }
}

/// Whitespace separates words: those of a text with whitespace in it are those
/// ahead of it, and then those behind it.
pub proof fn whitespace_separates_words(a: Seq<char>, c: char, b: Seq<char>)
    requires
        is_white(c),
    ensures
        words(a.push(c) + b) == words(a) + words(b),
    decreases b.len(),
{
    let s = a.push(c) + b;
    if b.len() == 0 {
        assert(s =~= a.push(c));
        assert(s.drop_last() =~= a);
        assert(words(a) + words(b) =~= words(a));
    } else {
        let t = b.drop_last();
        whitespace_separates_words(a, c, t);
        assert(s.drop_last() =~= a.push(c) + t);
        let d = b.last();
        let k = s.len() - 2;
        if t.len() > 0 {
            assert(s[k] == b[b.len() - 2]);
        } else {
            assert(s[k] == c);
        }
        if !is_white(d) {
            if t.len() > 0 && !is_white(t.last()) {
                lemma_last_word(t);
                assert((words(a) + words(t)).drop_last() =~= words(a) + words(t).drop_last());
            }
            assert(words(s) =~= words(a) + words(b));
        }
    }
}

/// Words are not empty, and have no whitespace in them.
pub proof fn words_are_solid(s: Seq<char>)
    ensures
        forall|i: int|
            0 <= i < words(s).len() ==> (#[trigger] words(s)[i]).len() > 0 && solid_text(
                words(s)[i],
            ),
    decreases s.len(),
{
    if s.len() > 0 {
        let t = s.drop_last();
        let c = s.last();
        words_are_solid(t);
        let before = words(t);
        let after = words(s);
        if !is_white(c) {
            if s.len() > 1 && !is_white(s[s.len() - 2]) {
                lemma_last_word(t);
                let k = before.len() - 1;
                assert(solid_text(before[k]));
                assert(solid_text(before[k].push(c))) by {
                    let w = before[k].push(c);
                    assert forall|i: int| 0 <= i < w.len() implies !is_white(#[trigger] w[i]) by {
                        if i < before[k].len() {
                            assert(!is_white(before[k][i]));
                        }
                    }
                }
                assert forall|i: int| 0 <= i < after.len() implies (#[trigger] after[i]).len() > 0
                    && solid_text(after[i]) by {
                    if i < k {
                        assert(after[i] == before[i]);
                    }
                }
            } else {
                assert forall|i: int| 0 <= i < after.len() implies (#[trigger] after[i]).len() > 0
                    && solid_text(after[i]) by {
                    if i < before.len() {
                        assert(after[i] == before[i]);
                    }
                }
            }
        }
    }
}

/// The number that a text of decimal digits denotes.
pub open spec fn number_of(s: Seq<char>) -> int
    decreases s.len(),
{
    if s.len() == 0 {
        0
    } else {
        10 * number_of(s.drop_last()) + (s.last() as int - '0' as int)
    }
}

/// A number in decimal is made of digits, denotes the number, and has no zero at
/// its front but for zero itself.
pub proof fn decimals_denote_their_number(n: nat)
    ensures
        number_of(decimal(n)) == n,
        decimal(n).len() > 0,
        forall|i: int| 0 <= i < decimal(n).len() ==> '0' <= #[trigger] decimal(n)[i] <= '9',
        decimal(n)[0] == '0' ==> n == 0,
    decreases n,
{
    let s = decimal(n);
    if n < 10 {
        reveal_with_fuel(number_of, 2);
        assert(s.drop_last() =~= Seq::<char>::empty());
    } else {
        decimals_denote_their_number(n / 10);
        assert(s.drop_last() =~= decimal(n / 10));
        assert(s[0] == decimal(n / 10)[0]);
    }
}

/// There is one way to trim a text that is not blank.
pub proof fn trimming_is_unique(s: Seq<char>, t: Seq<char>, lo: int)
    requires
        trims_to(s, t, lo),
        t.len() > 0,
    ensures
        trimmed(s) == t,
{
    let u = trimmed(s);
    trimming_takes_whitespace_off_the_ends(s);
    let k = choose|k: int| #[trigger] trims_to(s, u, k);
    assert(t[0] == s[lo]);
    assert(t.last() == s[lo + t.len() - 1]);
    if u.len() == 0 {
        assert(is_white(s[lo]));
    } else {
        assert(u[0] == s[k]);
        assert(u.last() == s[k + u.len() - 1]);
        if k < lo {
            assert(is_white(s[k]));
        }
        if lo < k {
            assert(is_white(s[lo]));
        }
        if k + u.len() < lo + t.len() {
            assert(is_white(s[lo + t.len() - 1]));
        }
        if lo + t.len() < k + u.len() {
            assert(is_white(s[k + u.len() - 1]));
        }
        assert(u =~= t);
    }
}

/// What counts as whitespace: the blanks and breaks of ASCII, and those beyond.
pub proof fn whitespace_is_what_is_blank(c: char)
    ensures
        is_white(c) <==> c == ' ' || c == '\t' || c == '\n' || c == '\r' || c == '\u{B}' || c
            == '\u{C}' || c == '\u{85}' || c == '\u{A0}' || c == '\u{1680}' || '\u{2000}' <= c
            <= '\u{200A}' || c == '\u{2028}' || c == '\u{2029}' || c == '\u{202F}' || c
            == '\u{205F}' || c == '\u{3000}',
        'a' <= c <= 'z' || 'A' <= c <= 'Z' || '0' <= c <= '9' ==> !is_white(c),
{
}

} // verus!
