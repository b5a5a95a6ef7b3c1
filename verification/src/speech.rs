//! Replies as they are spoken and shown: folded down to printable ASCII.
use crate::text::{chars_of, string_of, white};
use vstd::prelude::*;

verus! {

/// How a character that the voice or the screen cannot take as it stands is
/// spelled instead, if it has a spelling of its own.
pub open spec fn spelling(c: char) -> Option<Seq<char>> {
    let n = c as u32;
    if n == 0x2018 || n == 0x2019 || n == 0x201A || n == 0x201B || n == 0x2032 {
        Some("'"@)
    } else if n == 0x201C || n == 0x201D || n == 0x201E || n == 0x201F || n == 0x2033 || n == 0xAB
        || n == 0xBB {
        Some("\""@)
    } else if n == 0x2012 || n == 0x2013 || n == 0x2014 || n == 0x2015 || n == 0x2212 {
        Some("-"@)
    } else if n == 0x2026 {
        Some("..."@)
    } else if n == 0xA0 || n == 0x2007 || n == 0x2009 || n == 0x200A || n == 0x202F || n == 0x2022
        || n == 0x2023 || n == 0x25CF || n == 0x25AA || n == 0xB7 {
        Some(" "@)
    } else if n == 0xB0 {
        Some(" degrees"@)
    } else if n == 0xD7 {
        Some(" times "@)
    } else if n == 0xF7 {
        Some(" divided by "@)
    } else if n == 0xB1 {
        Some(" plus or minus "@)
    } else if n == 0x2260 {
        Some(" not equal to "@)
    } else if n == 0x2264 {
        Some(" less than or equal to "@)
    } else if n == 0x2265 {
        Some(" greater than or equal to "@)
    } else if n == 0x2248 {
        Some(" about "@)
    } else if n == 0x2192 || n == 0x2794 {
        Some(" to "@)
    } else if n == 0xBC {
        Some(" one quarter"@)
    } else if n == 0xBD {
        Some(" one half"@)
    } else if n == 0xBE {
        Some(" three quarters"@)
    } else if n == 0x20AC {
        Some(" euros"@)
    } else if n == 0xA3 {
        Some(" pounds"@)
    } else if n == 0xA5 {
        Some(" yen"@)
    } else if n == 0xA9 || n == 0xAE || n == 0x2122 || c == '*' || c == '`' || c == '_' {
        Some(Seq::empty())
    } else {
        None
    }
}

/// How a character is spelled, if it has a spelling of its own.
fn spelling_of(c: char) -> (r: Option<&'static str>)
    ensures
        match r {
            Some(s) => spelling(c) == Some(s@),
            None => spelling(c) is None,
        },
{
    proof {
        reveal_strlit("");
        assert(""@ =~= Seq::<char>::empty());
    }
    match c {
        '\u{2018}' | '\u{2019}' | '\u{201A}' | '\u{201B}' | '\u{2032}' => Some("'"),
        '\u{201C}' | '\u{201D}' | '\u{201E}' | '\u{201F}' | '\u{2033}' => Some("\""),
        '\u{00AB}' | '\u{00BB}' => Some("\""),
        '\u{2012}' | '\u{2013}' | '\u{2014}' | '\u{2015}' | '\u{2212}' => Some("-"),
        '\u{2026}' => Some("..."),
        '\u{00A0}' | '\u{2007}' | '\u{2009}' | '\u{200A}' | '\u{202F}' => Some(" "),
        '\u{2022}' | '\u{2023}' | '\u{25CF}' | '\u{25AA}' | '\u{00B7}' => Some(" "),
        '\u{00B0}' => Some(" degrees"),
        '\u{00D7}' => Some(" times "),
        '\u{00F7}' => Some(" divided by "),
        '\u{00B1}' => Some(" plus or minus "),
        '\u{2260}' => Some(" not equal to "),
        '\u{2264}' => Some(" less than or equal to "),
        '\u{2265}' => Some(" greater than or equal to "),
        '\u{2248}' => Some(" about "),
        '\u{2192}' | '\u{2794}' => Some(" to "),
        '\u{00BC}' => Some(" one quarter"),
        '\u{00BD}' => Some(" one half"),
        '\u{00BE}' => Some(" three quarters"),
        '\u{20AC}' => Some(" euros"),
        '\u{00A3}' => Some(" pounds"),
        '\u{00A5}' => Some(" yen"),
        '\u{00A9}' | '\u{00AE}' | '\u{2122}' => Some(""),
        '*' | '`' | '_' => Some(""),
        _ => None,
    }
}

/// Whether `c` is a printable ASCII character other than a space.
pub open spec fn is_graphic(c: char) -> bool {
    0x21 <= c as u32 <= 0x7E
}

/// What `c` stands for in speakable text, given whether the line has begun yet:
/// its spelling; nothing, for a heading mark ahead of the line; itself, if it is
/// graphic; a space, if it is whitespace; and nothing otherwise.
pub open spec fn said(c: char, line_start: bool) -> Seq<char> {
    match spelling(c) {
        Some(s) => s,
        None => if c == '#' && line_start {
            Seq::empty()
        } else if is_graphic(c) {
            seq![c]
        } else if crate::text::is_white(c) {
            " "@
        } else {
            Seq::empty()
        },
    }
}

/// Whether the line has yet to begin behind `c`: heading marks and whitespace do
/// not begin it.
pub open spec fn line_start_after(c: char, line_start: bool) -> bool {
    if c == '\n' {
        true
    } else if crate::text::is_white(c) {
        line_start
    } else {
        c == '#' && line_start
    }
}

/// Whether the line has yet to begin behind `s`.
pub open spec fn at_line_start(s: Seq<char>) -> bool
    decreases s.len(),
{
    if s.len() == 0 {
        true
    } else {
        line_start_after(s.last(), at_line_start(s.drop_last()))
    }
}

/// `more` behind `out`, without a space at the front and without two in a row.
pub open spec fn spaced(out: Seq<char>, more: Seq<char>) -> Seq<char>
    decreases more.len(),
{
    if more.len() == 0 {
        out
    } else {
        let before = spaced(out, more.drop_last());
        if more.last() == ' ' && (before.len() == 0 || before.last() == ' ') {
            before
        } else {
            before.push(more.last())
        }
    }
}

/// What `s` says, up to a space at the end.
pub open spec fn folded(s: Seq<char>) -> Seq<char>
    decreases s.len(),
{
    if s.len() == 0 {
        Seq::empty()
    } else {
        spaced(folded(s.drop_last()), said(s.last(), at_line_start(s.drop_last())))
    }
}

/// What `s` says.
pub open spec fn spoken_text(s: Seq<char>) -> Seq<char> {
    crate::text::without_trailing(folded(s), ' ')
}

/// Appends `more` to `out`, without a space at the front and without two in a
/// row.
fn push_spaced(out: &mut Vec<char>, more: &str)
    ensures
        final(out)@ == spaced(old(out)@, more@),
{
    let chars = chars_of(more);
    let mut i: usize = 0;
    while i < chars.len()
        invariant
            chars@ == more@,
            i <= chars@.len(),
            out@ == spaced(old(out)@, more@.take(i as int)),
        decreases chars@.len() - i,
    {
        assert(more@.take(i + 1).drop_last() =~= more@.take(i as int));
        let c = chars[i];
        let blank = out.len() == 0 || out[out.len() - 1] == ' ';
        if c != ' ' || !blank {
            out.push(c);
        }
        i += 1;
    }
    assert(more@.take(more@.len() as int) =~= more@);
}

/// Folds a reply down to printable ASCII, for both the speaker and the screen.
/// Characters that mean something out loud are spelled; emphasis and heading
/// marks, and what cannot be drawn, are dropped; runs of whitespace become one
/// space.
pub fn speakable(s: &str) -> (r: String)
    ensures
        r@ == spoken_text(s@),
{
    let chars = chars_of(s);
    let mut out: Vec<char> = Vec::new();
    let mut line_start = true;
    let mut i: usize = 0;
    while i < chars.len()
        invariant
            chars@ == s@,
            i <= chars@.len(),
            out@ == folded(s@.take(i as int)),
            line_start == at_line_start(s@.take(i as int)),
        decreases chars@.len() - i,
    {
        let c = chars[i];
        let n: u32 = c as u32;
        assert(s@.take(i + 1).drop_last() =~= s@.take(i as int));
        let ghost before = out@;
        match spelling_of(c) {
            Some(sub) => {
                push_spaced(&mut out, sub);
            },
            None => {
                if c == '#' && line_start {
                } else if 0x21 <= n && n <= 0x7E {
                    out.push(c);
                    assert(spaced(before, seq![c]) =~= before.push(c)) by {
                        reveal_with_fuel(spaced, 2);
                        assert(seq![c].drop_last() =~= Seq::<char>::empty());
                    }
                } else if white(c) {
                    push_spaced(&mut out, " ");
                }
            },
        }
        line_start = if c == '\n' {
            true
        } else if white(c) {
            line_start
        } else {
            c == '#' && line_start
        };
        i += 1;
    }
    assert(s@.take(s@.len() as int) =~= s@);
    assert(out@.take(out@.len() as int) =~= out@);
    let to: usize = crate::text::trim_end_matches(&out, out.len(), ' ');
    assert(out@.subrange(0, to as int) =~= out@.take(to as int));
    string_of(&out, 0, to)
}

/// Whether `s` can be spoken and drawn: printable ASCII without emphasis marks,
/// no space at the front and no two in a row.
pub open spec fn is_clean(s: Seq<char>) -> bool {
    &&& forall|i: int| 0 <= i < s.len() ==> clean_char(#[trigger] s[i])
    &&& s.len() > 0 ==> s[0] != ' '
    &&& forall|i: int, j: int| #![trigger s[i], s[j]] 0 <= i < s.len() && j == i + 1 && j < s.len()
        && s[i] == ' ' ==> s[j] != ' '
}

pub open spec fn clean_char(c: char) -> bool {
    0x20 <= c as u32 <= 0x7E && c != '*' && c != '`' && c != '_'
}

/// Appending clean characters keeps text clean.
proof fn lemma_spaced_clean(out: Seq<char>, more: Seq<char>)
    requires
        is_clean(out),
        forall|i: int| 0 <= i < more.len() ==> clean_char(#[trigger] more[i]),
    ensures
        is_clean(spaced(out, more)),
    decreases more.len(),
{
    if more.len() > 0 {
        lemma_spaced_clean(out, more.drop_last());
    }
}

/// Every spelling is clean.
proof fn lemma_spelling_clean(c: char)
    ensures
        spelling(c) matches Some(s) ==> forall|i: int|
            0 <= i < s.len() ==> clean_char(#[trigger] s[i]),
{
    reveal_strlit("'");
    reveal_strlit("\"");
    reveal_strlit("-");
    reveal_strlit("...");
    reveal_strlit(" ");
    reveal_strlit(" degrees");
    reveal_strlit(" times ");
    reveal_strlit(" divided by ");
    reveal_strlit(" plus or minus ");
    reveal_strlit(" not equal to ");
    reveal_strlit(" less than or equal to ");
    reveal_strlit(" greater than or equal to ");
    reveal_strlit(" about ");
    reveal_strlit(" to ");
    reveal_strlit(" one quarter");
    reveal_strlit(" one half");
    reveal_strlit(" three quarters");
    reveal_strlit(" euros");
    reveal_strlit(" pounds");
    reveal_strlit(" yen");
}

proof fn lemma_folded_clean(s: Seq<char>)
    ensures
        is_clean(folded(s)),
    decreases s.len(),
{
    if s.len() > 0 {
        lemma_folded_clean(s.drop_last());
        lemma_spelling_clean(s.last());
        reveal_strlit(" ");
        lemma_spaced_clean(folded(s.drop_last()), said(s.last(), at_line_start(s.drop_last())));
    }
}

/// Taking the run of spaces off the end leaves the beginning, without a space
/// at its end.
proof fn lemma_without_trailing(s: Seq<char>, c: char)
    ensures
        ({
            let r = crate::text::without_trailing(s, c);
            &&& r.len() <= s.len()
            &&& r == s.take(r.len() as int)
            &&& r.len() > 0 ==> r.last() != c
        }),
    decreases s.len(),
{
    if s.len() > 0 && s.last() == c {
        lemma_without_trailing(s.drop_last(), c);
        let r = crate::text::without_trailing(s.drop_last(), c);
        assert(s.drop_last().take(r.len() as int) =~= s.take(r.len() as int));
    } else {
        assert(s.take(s.len() as int) =~= s);
    }
}

/// Whatever the reply was, what is spoken and shown is printable ASCII without
/// emphasis marks, with single spaces, and none at either end.
pub proof fn speakable_text_is_clean(s: Seq<char>)
    ensures
        is_clean(spoken_text(s)),
        spoken_text(s).len() > 0 ==> spoken_text(s).last() != ' ',
{
    lemma_folded_clean(s);
    lemma_without_trailing(folded(s), ' ');
}

/// A reply that is clean already, and does not begin with a heading mark, is left
/// alone.
pub proof fn clean_text_is_left_alone(s: Seq<char>)
    requires
        is_clean(s),
        s.len() > 0 ==> s[0] != '#' && s.last() != ' ',
    ensures
        spoken_text(s) == s,
{
    lemma_clean_folded(s);
    if s.len() > 0 {
        assert(crate::text::without_trailing(s, ' ') == s);
    }
}

/// A character is known by its number.
proof fn lemma_same_char(a: char, b: char)
    requires
        a as u32 == b as u32,
    ensures
        a == b,
{
}

proof fn lemma_clean_folded(s: Seq<char>)
    requires
        is_clean(s),
        s.len() > 0 ==> s[0] != '#',
    ensures
        folded(s) == s,
        at_line_start(s) <==> s.len() == 0,
    decreases s.len(),
{
    if s.len() > 0 {
        let t = s.drop_last();
        let c = s.last();
        assert(is_clean(t)) by {
            assert forall|i: int| 0 <= i < t.len() implies clean_char(#[trigger] t[i]) by {
                assert(clean_char(s[i]));
            }
            assert forall|i: int, j: int| #![trigger t[i], t[j]] 0 <= i < t.len() && j == i + 1
                && j < t.len() && t[i] == ' ' implies t[j] != ' ' by {
                assert(s[i] == t[i] && s[j] == t[j]);
            }
        }
        lemma_clean_folded(t);
        assert(clean_char(s[s.len() - 1]));
        reveal_strlit(" ");
        reveal_with_fuel(spaced, 2);
        let said_c = said(c, at_line_start(t));
        assert(spelling(c) is None);
        if c as u32 == 0x20 {
            lemma_same_char(c, ' ');
        }
        assert(said_c =~= seq![c]);
        assert(said_c.drop_last() =~= Seq::<char>::empty());
        if c == ' ' {
            assert(t.len() > 0);
            assert(s[t.len() - 1] == t.last());
            assert(t.last() != ' ');
        }
        assert(folded(s) =~= s);
    }
}

/// What each symbol with a meaning is spelled as, wherever it stands. Marks of
/// emphasis and of ownership are not spelled at all.
pub proof fn symbols_are_spelled_out(c: char, line_start: bool)
    ensures
        c == '\u{A0}' || c == '\u{2007}' || c == '\u{2009}' || c == '\u{200A}' || c == '\u{202F}' || c == '\u{2022}' || c == '\u{2023}' || c == '\u{25CF}' || c == '\u{25AA}' || c == '\u{B7}' ==> said(c, line_start) == " "@,
        c == '\u{2018}' || c == '\u{2019}' || c == '\u{201A}' || c == '\u{201B}' || c == '\u{2032}' ==> said(c, line_start) == "'"@,
        c == '\u{201C}' || c == '\u{201D}' || c == '\u{201E}' || c == '\u{201F}' || c == '\u{2033}' || c == '\u{AB}' || c == '\u{BB}' ==> said(c, line_start) == "\""@,
        c == '\u{2012}' || c == '\u{2013}' || c == '\u{2014}' || c == '\u{2015}' || c == '\u{2212}' ==> said(c, line_start) == "-"@,
        c == '\u{2026}' ==> said(c, line_start) == "..."@,
        c == '\u{B0}' ==> said(c, line_start) == " degrees"@,
        c == '\u{D7}' ==> said(c, line_start) == " times "@,
        c == '\u{F7}' ==> said(c, line_start) == " divided by "@,
        c == '\u{B1}' ==> said(c, line_start) == " plus or minus "@,
        c == '\u{2260}' ==> said(c, line_start) == " not equal to "@,
        c == '\u{2264}' ==> said(c, line_start) == " less than or equal to "@,
        c == '\u{2265}' ==> said(c, line_start) == " greater than or equal to "@,
        c == '\u{2248}' ==> said(c, line_start) == " about "@,
        c == '\u{2192}' || c == '\u{2794}' ==> said(c, line_start) == " to "@,
        c == '\u{BC}' ==> said(c, line_start) == " one quarter"@,
        c == '\u{BD}' ==> said(c, line_start) == " one half"@,
        c == '\u{BE}' ==> said(c, line_start) == " three quarters"@,
        c == '\u{20AC}' ==> said(c, line_start) == " euros"@,
        c == '\u{A3}' ==> said(c, line_start) == " pounds"@,
        c == '\u{A5}' ==> said(c, line_start) == " yen"@,
        c == '\u{A9}' || c == '\u{AE}' || c == '\u{2122}' ==> said(c, line_start) == ""@,
        c == '*' || c == '`' || c == '_' ==> said(c, line_start) == ""@,
{
    reveal_strlit("");
    assert(""@ =~= Seq::<char>::empty());
}

/// Two symbols of different meaning are never spelled alike: only the two arrows
/// share their words.
pub proof fn different_meanings_are_spelled_differently(c: char, d: char)
    requires
        spelling(c) is Some,
        spelling(c)->0.len() > 3,
        spelling(c) == spelling(d),
    ensures
        c == d || (c == '\u{2192}' && d == '\u{2794}') || (c == '\u{2794}' && d == '\u{2192}'),
{
    reveal_strlit(" ");
    reveal_strlit("'");
    reveal_strlit("\"");
    reveal_strlit("-");
    reveal_strlit("...");
    reveal_strlit(" degrees");
    reveal_strlit(" times ");
    reveal_strlit(" divided by ");
    reveal_strlit(" plus or minus ");
    reveal_strlit(" not equal to ");
    reveal_strlit(" less than or equal to ");
    reveal_strlit(" greater than or equal to ");
    reveal_strlit(" about ");
    reveal_strlit(" to ");
    reveal_strlit(" one quarter");
    reveal_strlit(" one half");
    reveal_strlit(" three quarters");
    reveal_strlit(" euros");
    reveal_strlit(" pounds");
    reveal_strlit(" yen");
    reveal_strlit("");
    let s = spelling(c)->0;
    let t = spelling(d)->0;
    assert(s.len() == t.len());
    assert(s[1] == t[1]);
    if c as u32 == d as u32 {
        lemma_same_char(c, d);
    }
}

/// A character without a meaning of its own says itself if it can be printed, a
/// space if it is whitespace, and nothing otherwise.
pub proof fn other_characters_say_themselves(c: char, line_start: bool)
    requires
        c as u32 <= 0x7E,
        c != '*' && c != '`' && c != '_',
    ensures
        0x21 <= c as u32 <= 0x7E && c != '#' ==> said(c, line_start) == seq![c],
        c == '#' ==> said(c, line_start) == (if line_start {
            Seq::empty()
        } else {
            seq![c]
        }),
        c == ' ' || c == '\t' || c == '\n' || c == '\r' ==> said(c, line_start) == " "@,
        c as u32 <= 0x08 || 0x0E <= c as u32 <= 0x1F ==> said(c, line_start) == Seq::<char>::empty(),
{
}

/// What is beyond ASCII, is no whitespace and has no spelling is dropped, as an
/// emoji or a letter with an accent.
pub proof fn what_cannot_be_drawn_is_dropped(c: char, line_start: bool)
    requires
        c as u32 > 0x7E,
        !crate::text::is_white(c),
        c != '\u{A0}' && c != '\u{2007}' && c != '\u{2009}' && c != '\u{200A}' && c != '\u{202F}' && c != '\u{2022}' && c != '\u{2023}' && c != '\u{25CF}' && c != '\u{25AA}' && c != '\u{B7}' && c != '\u{2018}' && c != '\u{2019}' && c != '\u{201A}' && c != '\u{201B}' && c != '\u{2032}' && c != '\u{201C}' && c != '\u{201D}' && c != '\u{201E}' && c != '\u{201F}' && c != '\u{2033}' && c != '\u{AB}' && c != '\u{BB}' && c != '\u{2012}' && c != '\u{2013}' && c != '\u{2014}' && c != '\u{2015}' && c != '\u{2212}' && c != '\u{2026}' && c != '\u{B0}' && c != '\u{D7}' && c != '\u{F7}' && c != '\u{B1}' && c != '\u{2260}' && c != '\u{2264}' && c != '\u{2265}' && c != '\u{2248}' && c != '\u{2192}' && c != '\u{2794}' && c != '\u{BC}' && c != '\u{BD}' && c != '\u{BE}' && c != '\u{20AC}' && c != '\u{A3}' && c != '\u{A5}' && c != '\u{A9}' && c != '\u{AE}' && c != '\u{2122}',
    ensures
        said(c, line_start) == Seq::<char>::empty(),
{
}

/// `s` without its spaces.
pub open spec fn letters(s: Seq<char>) -> Seq<char> {
    s.filter(|c: char| c != ' ')
}

proof fn lemma_letters_push(s: Seq<char>, c: char)
    ensures
        letters(s.push(c)) == (if c == ' ' {
            letters(s)
        } else {
            letters(s).push(c)
        }),
{
    reveal(Seq::filter);
    assert(s.push(c).drop_last() =~= s);
}

proof fn lemma_letters_spaced(out: Seq<char>, more: Seq<char>)
    ensures
        letters(spaced(out, more)) == letters(out) + letters(more),
    decreases more.len(),
{
    if more.len() == 0 {
        reveal(Seq::filter);
        assert(letters(out) + letters(more) =~= letters(out));
    } else {
        let t = more.drop_last();
        lemma_letters_spaced(out, t);
        assert(more =~= t.push(more.last()));
        lemma_letters_push(t, more.last());
        lemma_letters_push(spaced(out, t), more.last());
        assert(letters(spaced(out, more)) =~= letters(out) + letters(more));
    }
}

proof fn lemma_letters_trailing(s: Seq<char>)
    ensures
        letters(crate::text::without_trailing(s, ' ')) == letters(s),
    decreases s.len(),
{
    if s.len() > 0 && s.last() == ' ' {
        lemma_letters_trailing(s.drop_last());
        assert(s =~= s.drop_last().push(' '));
        lemma_letters_push(s.drop_last(), ' ');
    }
}

/// What is spoken is what every character says, in order: with one more
/// character, what that one says comes last, and nothing else changes but the
/// spaces.
pub proof fn speech_keeps_every_letter(s: Seq<char>, c: char)
    ensures
        letters(spoken_text(s.push(c))) == letters(spoken_text(s)) + letters(
            said(c, at_line_start(s)),
        ),
        letters(spoken_text(Seq::empty())) == Seq::<char>::empty(),
{
    assert(s.push(c).drop_last() =~= s);
    lemma_letters_trailing(folded(s.push(c)));
    lemma_letters_trailing(folded(s));
    lemma_letters_spaced(folded(s), said(c, at_line_start(s)));
    lemma_letters_trailing(folded(Seq::empty()));
    reveal(Seq::filter);
}

/// What a character says is put behind what was said before, as it is: only a
/// space at its front is left out, where there is one already or nothing yet.
pub proof fn speech_is_put_together_in_order(out: Seq<char>, more: Seq<char>)
    requires
        forall|i: int, j: int| #![trigger more[i], more[j]] 0 <= i < more.len() && j == i + 1 && j
            < more.len() && more[i] == ' ' ==> more[j] != ' ',
    ensures
        spaced(out, more) == (if more.len() > 0 && more[0] == ' ' && (out.len() == 0 || out.last()
            == ' ') {
            out + more.skip(1)
        } else {
            out + more
        }),
    decreases more.len(),
{
    if more.len() == 0 {
        assert(out + more =~= out);
    } else {
        let t = more.drop_last();
        let c = more.last();
        assert forall|i: int, j: int| #![trigger t[i], t[j]] 0 <= i < t.len() && j == i + 1 && j
            < t.len() && t[i] == ' ' implies t[j] != ' ' by {
            assert(t[i] == more[i] && t[j] == more[j]);
        }
        speech_is_put_together_in_order(out, t);
        let before = spaced(out, t);
        if t.len() == 0 {
            assert(more.skip(1) =~= Seq::<char>::empty());
            assert(out + more.skip(1) =~= out);
            assert(out + t =~= out);
            assert(out + more =~= out.push(c));
        } else {
            assert(t[0] == more[0]);
            let k = t.len() - 1;
            assert(t[k] == more[k] && more[k + 1] == c);
            if c == ' ' {
                assert(more[k] != ' ');
                assert(t[k] != ' ');
            }
            assert(more.skip(1) =~= t.skip(1).push(c));
            assert(out + more.skip(1) =~= (out + t.skip(1)).push(c));
            assert(out + more =~= (out + t).push(c));
            if t.len() > 1 {
                assert((out + t.skip(1)).last() == t[k]);
            }
            assert((out + t).last() == t[k]);
        }
    }
}

/// Heading marks are dropped at the front of a line, with whatever whitespace
/// and other heading marks stand ahead of them, and kept behind anything else.
pub proof fn heading_marks_are_dropped(s: Seq<char>, k: int)
    requires
        0 <= k <= s.len(),
        k == 0 || s[k - 1] == '\n',
        forall|i: int| k <= i < s.len() ==> #[trigger] s[i] != '\n',
    ensures
        ({
            let bare = forall|i: int|
                k <= i < s.len() ==> #[trigger] s[i] == '#' || crate::text::is_white(s[i]);
            letters(spoken_text(s.push('#'))) == letters(spoken_text(s)) + (if bare {
                Seq::empty()
            } else {
                seq!['#']
            })
        }),
{
    speech_keeps_every_letter(s, '#');
    lemma_line_start(s, k);
    lemma_letters_push(Seq::empty(), '#');
    assert(Seq::<char>::empty().push('#') =~= seq!['#']);
    reveal(Seq::filter);
    assert(letters(seq!['#']) =~= seq!['#']);
}

proof fn lemma_line_start(s: Seq<char>, k: int)
    requires
        0 <= k <= s.len(),
        k == 0 || s[k - 1] == '\n',
        forall|i: int| k <= i < s.len() ==> #[trigger] s[i] != '\n',
    ensures
        at_line_start(s) <==> forall|i: int|
            k <= i < s.len() ==> #[trigger] s[i] == '#' || crate::text::is_white(s[i]),
    decreases s.len(),
{
    if k < s.len() {
        let t = s.drop_last();
        let last = s.len() - 1;
        assert forall|i: int| k <= i < t.len() implies #[trigger] t[i] != '\n' by {
            assert(t[i] == s[i]);
        }
        lemma_line_start(t, k);
        assert(s[last] != '\n');
        let all = forall|i: int|
            k <= i < s.len() ==> #[trigger] s[i] == '#' || crate::text::is_white(s[i]);
        let most = forall|i: int|
            k <= i < t.len() ==> #[trigger] t[i] == '#' || crate::text::is_white(t[i]);
        if all {
            assert forall|i: int| k <= i < t.len() implies #[trigger] t[i] == '#'
                || crate::text::is_white(t[i]) by {
                assert(t[i] == s[i]);
            }
            assert(s[last] == '#' || crate::text::is_white(s[last]));
        }
        if most && (s[last] == '#' || crate::text::is_white(s[last])) {
            assert forall|i: int| k <= i < s.len() implies #[trigger] s[i] == '#'
                || crate::text::is_white(s[i]) by {
                if i < last {
                    assert(t[i] == s[i]);
                }
            }
        }
    }
}

} // verus!
