//! Greedy word wrap for a panel with room for a fixed number of characters per
//! line and of lines.
use crate::text::{split_words, string_of};
use vstd::prelude::*;

verus! {

/// How far a block of lines has been filled: the finished lines, the line being
/// filled, and whether the block was full before the text was over.
pub struct Filling {
    pub lines: Seq<Seq<char>>,
    pub current: Seq<char>,
    pub truncated: bool,
}

/// A block with nothing in it.
pub open spec fn blank() -> Filling {
    Filling { lines: Seq::empty(), current: Seq::empty(), truncated: false }
}

/// `word` put behind what `f` holds. A word that does not fit closes the line;
/// a word that is longer than a line is cut at the line's end.
pub open spec fn placed(f: Filling, word: Seq<char>, max_chars: nat, max_lines: nat) -> Filling
    decreases word.len(), f.current.len(), max_lines - f.lines.len(),
    when f.lines.len() < max_lines
{
    let joined = if f.current.len() == 0 {
        word
    } else {
        f.current.push(' ') + word
    };
    if joined.len() <= max_chars {
        Filling { lines: f.lines, current: joined, truncated: false }
    } else {
        let line = if f.current.len() > 0 {
            f.current
        } else {
            word.take(max_chars as int)
        };
        let rest = if f.current.len() > 0 {
            word
        } else {
            word.skip(max_chars as int)
        };
        let lines = f.lines.push(line);
        let next = Filling { lines, current: Seq::empty(), truncated: lines.len() == max_lines };
        if next.truncated {
            next
        } else {
            placed(next, rest, max_chars, max_lines)
        }
    }
}

/// A block filled with `words`, as far as they fit.
pub open spec fn filled(words: Seq<Seq<char>>, max_chars: nat, max_lines: nat) -> Filling
    decreases words.len(),
{
    if words.len() == 0 {
        blank()
    } else {
        let f = filled(words.drop_last(), max_chars, max_lines);
        if f.truncated {
            f
        } else {
            placed(f, words.last(), max_chars, max_lines)
        }
    }
}

/// `line` shortened so that a mark fits behind it, and the mark.
pub open spec fn marked(line: Seq<char>, max_chars: nat) -> Seq<char> {
    let room = if max_chars > 0 {
        max_chars - 1
    } else {
        0
    };
    if line.len() > room {
        line.take(room).push('~')
    } else {
        line.push('~')
    }
}

/// Whether something of the text is not shown.
pub open spec fn cut_off(f: Filling, max_lines: nat) -> bool {
    f.truncated || (f.current.len() > 0 && f.lines.len() >= max_lines)
}

/// The lines of a block, the last one marked if something is not shown.
pub open spec fn finished(f: Filling, max_chars: nat, max_lines: nat) -> Seq<Seq<char>> {
    if cut_off(f, max_lines) {
        if f.lines.len() == 0 {
            f.lines
        } else {
            f.lines.drop_last().push(marked(f.lines.last(), max_chars))
        }
    } else if f.current.len() > 0 {
        f.lines.push(f.current)
    } else {
        f.lines
    }
}

/// `text` wrapped to `max_chars` per line and `max_lines` lines. Where there is
/// no line to show it on, nothing is shown.
pub open spec fn wrapped(text: Seq<char>, max_chars: nat, max_lines: nat) -> Seq<Seq<char>> {
    if max_lines == 0 {
        Seq::empty()
    } else {
        finished(filled(crate::text::words(text), max_chars, max_lines), max_chars, max_lines)
    }
}

/// What every stage of filling keeps: no line is longer than `max_chars`, and
/// there are never more than `max_lines`, nor as many while there is more to
/// come.
pub open spec fn fits(f: Filling, max_chars: nat, max_lines: nat) -> bool {
    &&& forall|i: int| 0 <= i < f.lines.len() ==> (#[trigger] f.lines[i]).len() <= max_chars
    &&& f.current.len() <= max_chars
    &&& f.lines.len() <= max_lines
    &&& !f.truncated ==> f.lines.len() < max_lines
    &&& f.truncated ==> f.lines.len() > 0 && f.current.len() == 0
}

/// Placing a word keeps the block in bounds.
proof fn lemma_placed_fits(f: Filling, word: Seq<char>, max_chars: nat, max_lines: nat)
    requires
        max_lines > 0,
        fits(f, max_chars, max_lines),
        !f.truncated,
    ensures
        fits(placed(f, word, max_chars, max_lines), max_chars, max_lines),
    decreases word.len(), f.current.len(), max_lines - f.lines.len(),
{
    let joined = if f.current.len() == 0 {
        word
    } else {
        f.current.push(' ') + word
    };
    if joined.len() > max_chars {
        let line = if f.current.len() > 0 {
            f.current
        } else {
            word.take(max_chars as int)
        };
        let rest = if f.current.len() > 0 {
            word
        } else {
            word.skip(max_chars as int)
        };
        let lines = f.lines.push(line);
        let next = Filling { lines, current: Seq::empty(), truncated: lines.len() == max_lines };
        if !next.truncated {
            lemma_placed_fits(next, rest, max_chars, max_lines);
        }
    }
}

/// Filling keeps the block in bounds.
proof fn lemma_filled_fits(words: Seq<Seq<char>>, max_chars: nat, max_lines: nat)
    requires
        max_lines > 0,
    ensures
        fits(filled(words, max_chars, max_lines), max_chars, max_lines),
    decreases words.len(),
{
    if words.len() > 0 {
        lemma_filled_fits(words.drop_last(), max_chars, max_lines);
        let f = filled(words.drop_last(), max_chars, max_lines);
        if !f.truncated {
            lemma_placed_fits(f, words.last(), max_chars, max_lines);
        }
    }
}

/// Wrapped text stays on the panel: no line is longer than `max_chars`, and no
/// more than `max_lines` come out.
pub proof fn wrapped_text_fits(text: Seq<char>, max_chars: nat, max_lines: nat)
    requires
        max_chars > 0,
    ensures
        forall|i: int|
            0 <= i < wrapped(text, max_chars, max_lines).len() ==> (#[trigger] wrapped(
                text,
                max_chars,
                max_lines,
            )[i]).len() <= max_chars,
        wrapped(text, max_chars, max_lines).len() <= max_lines,
{
    if max_lines > 0 {
        lemma_filled_fits(crate::text::words(text), max_chars, max_lines);
    }
}

// ---------- Nothing is lost ----------
/// `s` without its whitespace.
pub open spec fn glyphs(s: Seq<char>) -> Seq<char> {
    s.filter(|c: char| !crate::text::is_white(c))
}

/// The glyphs of a list of texts, one after the other.
pub open spec fn all_glyphs(lines: Seq<Seq<char>>) -> Seq<char>
    decreases lines.len(),
{
    if lines.len() == 0 {
        Seq::empty()
    } else {
        all_glyphs(lines.drop_last()) + glyphs(lines.last())
    }
}

/// The glyphs of two texts in a row.
pub proof fn lemma_glyphs_add(a: Seq<char>, b: Seq<char>)
    ensures
        glyphs(a + b) == glyphs(a) + glyphs(b),
{
    Seq::filter_distributes_over_add(a, b, |c: char| !crate::text::is_white(c));
}

/// One more character is one more glyph, unless it is whitespace.
pub proof fn lemma_glyphs_push(a: Seq<char>, c: char)
    ensures
        glyphs(a.push(c)) == if crate::text::is_white(c) {
            glyphs(a)
        } else {
            glyphs(a).push(c)
        },
{
    reveal(Seq::filter);
    assert(a.push(c).drop_last() =~= a);
}

/// No text has no glyphs.
pub proof fn lemma_glyphs_empty()
    ensures
        glyphs(Seq::empty()) == Seq::<char>::empty(),
{
    reveal(Seq::filter);
}

/// The glyphs of two lists in a row.
pub proof fn lemma_all_glyphs_add(a: Seq<Seq<char>>, b: Seq<Seq<char>>)
    ensures
        all_glyphs(a + b) == all_glyphs(a) + all_glyphs(b),
    decreases b.len(),
{
    if b.len() == 0 {
        assert(a + b =~= a);
        assert(all_glyphs(a) + all_glyphs(b) =~= all_glyphs(a));
    } else {
        lemma_all_glyphs_add(a, b.drop_last());
        assert((a + b).drop_last() =~= a + b.drop_last());
        assert(all_glyphs(a + b) =~= all_glyphs(a) + all_glyphs(b));
    }
}

/// The words of a text hold all of its glyphs.
proof fn lemma_words_glyphs(s: Seq<char>)
    ensures
        all_glyphs(crate::text::words(s)) == glyphs(s),
    decreases s.len(),
{
    reveal(Seq::filter);
    if s.len() > 0 {
        let t = s.drop_last();
        let c = s.last();
        lemma_words_glyphs(t);
        assert(t.push(c) =~= s);
        lemma_glyphs_push(t, c);
        let before = crate::text::words(t);
        let after = crate::text::words(s);
        if !crate::text::is_white(c) {
            if s.len() > 1 && !crate::text::is_white(s[s.len() - 2]) {
                crate::text::lemma_last_word(t);
                lemma_glyphs_push(before.last(), c);
                assert(after.drop_last() =~= before.drop_last());
                assert(all_glyphs(after) =~= all_glyphs(before).push(c));
            } else {
                assert(after.drop_last() =~= before);
                assert(seq![c] =~= Seq::<char>::empty().push(c));
                lemma_glyphs_push(Seq::empty(), c);
                assert(glyphs(Seq::<char>::empty()) =~= Seq::<char>::empty());
                assert(all_glyphs(after) =~= all_glyphs(before).push(c));
            }
        }
    }
}

/// Everything a block holds, in order.
pub open spec fn shown(f: Filling) -> Seq<char> {
    all_glyphs(f.lines) + glyphs(f.current)
}

/// Placing a word shows all of it, unless the block is full: then it shows as
/// much as fits.
proof fn lemma_placed_shows(f: Filling, word: Seq<char>, max_chars: nat, max_lines: nat)
    requires
        max_lines > 0,
        fits(f, max_chars, max_lines),
        !f.truncated,
    ensures
        ({
            let g = placed(f, word, max_chars, max_lines);
            &&& !g.truncated ==> shown(g) == shown(f) + glyphs(word)
            &&& g.truncated ==> shown(g).is_prefix_of(shown(f) + glyphs(word))
        }),
    decreases word.len(), f.current.len(), max_lines - f.lines.len(),
{
    reveal(Seq::filter);
    let empty = Seq::<char>::empty();
    assert(glyphs(empty) =~= empty);
    let joined = if f.current.len() == 0 {
        word
    } else {
        f.current.push(' ') + word
    };
    if joined.len() <= max_chars {
        if f.current.len() == 0 {
            assert(f.current =~= empty);
            assert(shown(f) + glyphs(word) =~= all_glyphs(f.lines) + glyphs(word));
        } else {
            lemma_glyphs_add(f.current.push(' '), word);
            lemma_glyphs_push(f.current, ' ');
            assert(shown(f) + glyphs(word) =~= all_glyphs(f.lines) + (glyphs(f.current) + glyphs(
                word,
            )));
        }
    } else {
        let line = if f.current.len() > 0 {
            f.current
        } else {
            word.take(max_chars as int)
        };
        let rest = if f.current.len() > 0 {
            word
        } else {
            word.skip(max_chars as int)
        };
        let lines = f.lines.push(line);
        let next = Filling { lines, current: empty, truncated: lines.len() == max_lines };
        assert(lines.drop_last() =~= f.lines);
        if f.current.len() == 0 {
            assert(f.current =~= empty);
            assert(word =~= line + rest);
            lemma_glyphs_add(line, rest);
        }
        assert(shown(next) + glyphs(rest) =~= shown(f) + glyphs(word));
        if !next.truncated {
            lemma_closed_line_fits(f, line, max_chars, max_lines);
            lemma_placed_shows(next, rest, max_chars, max_lines);
        }
    }
}

/// Closing a line keeps the block in bounds.
proof fn lemma_closed_line_fits(f: Filling, line: Seq<char>, max_chars: nat, max_lines: nat)
    requires
        fits(f, max_chars, max_lines),
        !f.truncated,
        line.len() <= max_chars,
        f.lines.len() + 1 != max_lines,
    ensures
        fits(
            Filling { lines: f.lines.push(line), current: Seq::empty(), truncated: false },
            max_chars,
            max_lines,
        ),
{
}

/// Filling shows the words, all of them or as many as fit.
proof fn lemma_filled_shows(words: Seq<Seq<char>>, max_chars: nat, max_lines: nat)
    requires
        max_lines > 0,
    ensures
        ({
            let f = filled(words, max_chars, max_lines);
            &&& !f.truncated ==> shown(f) == all_glyphs(words)
            &&& f.truncated ==> shown(f).is_prefix_of(all_glyphs(words))
        }),
    decreases words.len(),
{
    reveal(Seq::filter);
    if words.len() == 0 {
        assert(shown(blank()) =~= all_glyphs(words));
    } else {
        lemma_filled_shows(words.drop_last(), max_chars, max_lines);
        lemma_filled_fits(words.drop_last(), max_chars, max_lines);
        let f = filled(words.drop_last(), max_chars, max_lines);
        if !f.truncated {
            lemma_placed_shows(f, words.last(), max_chars, max_lines);
        }
    }
}

/// Wrapping loses nothing but whitespace. Where the text does not fit, the
/// last line says so with a mark, and what stands before the mark is the
/// beginning of the text.
pub proof fn wrapping_loses_nothing_unmarked(text: Seq<char>, max_chars: nat, max_lines: nat)
    requires
        max_lines > 0,
    ensures
        ({
            let lines = wrapped(text, max_chars, max_lines);
            if cut_off(filled(crate::text::words(text), max_chars, max_lines), max_lines) {
                &&& lines.len() > 0
                &&& lines.last().len() > 0
                &&& lines.last().last() == '~'
                &&& all_glyphs(
                    lines.drop_last().push(lines.last().drop_last()),
                ).is_prefix_of(glyphs(text))
            } else {
                all_glyphs(lines) == glyphs(text)
            }
        }),
{
    reveal(Seq::filter);
    let words = crate::text::words(text);
    let f = filled(words, max_chars, max_lines);
    let lines = wrapped(text, max_chars, max_lines);
    lemma_words_glyphs(text);
    lemma_filled_shows(words, max_chars, max_lines);
    lemma_filled_fits(words, max_chars, max_lines);
    let empty = Seq::<char>::empty();
    assert(glyphs(empty) =~= empty);
    if f.truncated {
        assert(f.current =~= empty);
        assert(shown(f) =~= all_glyphs(f.lines));
        let whole = f.lines.last();
        let kept = lines.last().drop_last();
        let tail = whole.skip(kept.len() as int);
        assert(whole =~= kept + tail);
        lemma_glyphs_add(kept, tail);
        let visible = lines.drop_last().push(kept);
        assert(visible.drop_last() =~= f.lines.drop_last());
        assert(all_glyphs(visible) + glyphs(tail) =~= all_glyphs(f.lines));
        assert(all_glyphs(visible).is_prefix_of(all_glyphs(f.lines)));
    } else if f.current.len() > 0 {
        assert(lines.drop_last() =~= f.lines);
    } else {
        assert(f.current =~= empty);
        assert(shown(f) =~= all_glyphs(f.lines));
    }
}

// ---------- Wrapping ----------
/// Puts one word behind what is there. Returns whether the block was full
/// before the word was over.
fn place(
    lines: &mut Vec<String>,
    current: &mut Vec<char>,
    word: &[char],
    max_chars: usize,
    max_lines: usize,
) -> (truncated: bool)
    requires
        old(lines)@.len() < max_lines,
        old(current)@.len() <= max_chars,
    ensures
        ({
            let before = Filling {
                lines: crate::text::texts(old(lines)@),
                current: old(current)@,
                truncated: false,
            };
            placed(before, word@, max_chars as nat, max_lines as nat) == Filling {
                lines: crate::text::texts(final(lines)@),
                current: final(current)@,
                truncated,
            }
        }),
        final(current)@.len() <= max_chars,
        !truncated ==> final(lines)@.len() < max_lines,
{
    let ghost before = Filling {
        lines: crate::text::texts(lines@),
        current: current@,
        truncated: false,
    };
    let ghost mc = max_chars as nat;
    let ghost ml = max_lines as nat;
    let total: usize = word.len();
    let mut from: usize = 0;
    assert(word@.skip(0) =~= word@);
    loop
        invariant
            lines@.len() < max_lines,
            current@.len() <= max_chars,
            from <= total == word@.len(),
            mc == max_chars,
            ml == max_lines,
            before == (Filling {
                lines: crate::text::texts(old(lines)@),
                current: old(current)@,
                truncated: false,
            }),
            placed(before, word@, mc, ml) == placed(
                (Filling {
                    lines: crate::text::texts(lines@),
                    current: current@,
                    truncated: false,
                }),
                word@.skip(from as int),
                mc,
                ml,
            ),
        decreases total - from, current@.len(), max_lines - lines@.len(),
    {
        let ghost f = Filling {
            lines: crate::text::texts(lines@),
            current: current@,
            truncated: false,
        };
        let left: usize = total - from;
        let room: bool = if current.len() == 0 {
            left <= max_chars
        } else {
            current.len() < max_chars && left <= max_chars - current.len() - 1
        };
        if room {
            let ghost held = current@;
            if current.len() > 0 {
                current.push(' ');
            }
            let ghost start = current@;
            let mut i: usize = from;
            while i < total
                invariant
                    from <= i <= total == word@.len(),
                    current@ == start + word@.subrange(from as int, i as int),
                decreases total - i,
            {
                current.push(word[i]);
                assert(current@ =~= start + word@.subrange(from as int, i + 1));
                i += 1;
            }
            assert(word@.subrange(from as int, total as int) =~= word@.skip(from as int));
            assert(held.len() == 0 ==> current@ =~= word@.skip(from as int));
            return false;
        }
        if current.len() > 0 {
            let line = string_of(current, 0, current.len());
            assert(current@.subrange(0, current@.len() as int) =~= current@);
            current.clear();
            lines.push(line);
            assert(crate::text::texts(lines@) =~= f.lines.push(f.current));
            assert(current@ =~= Seq::<char>::empty());
        } else {
            let line = string_of(word, from, from + max_chars);
            lines.push(line);
            assert(word@.skip(from as int).take(max_chars as int) =~= line@);
            assert(crate::text::texts(lines@) =~= f.lines.push(line@));
            assert(word@.skip(from as int).skip(max_chars as int) =~= word@.skip(
                from + max_chars,
            ));
            assert(current@ =~= Seq::<char>::empty());
            from += max_chars;
        }
        if lines.len() == max_lines {
            return true;
        }
    }
}

/// Greedy word wrap to `max_chars` per line, capped at `max_lines`. The last
/// line gets a mark if anything was dropped. Words longer than a line are
/// split rather than running off the edge of the panel.
pub fn wrap(text: &str, max_chars: usize, max_lines: usize) -> (r: Vec<String>)
    ensures
        crate::text::texts(r@) == wrapped(text@, max_chars as nat, max_lines as nat),
{
    if max_lines == 0 {
        let none: Vec<String> = Vec::new();
        assert(crate::text::texts(none@) =~= Seq::<Seq<char>>::empty());
        return none;
    }
    let ghost mc = max_chars as nat;
    let ghost ml = max_lines as nat;
    let all = split_words(text);
    let ghost words = crate::text::words(text@);
    let mut lines: Vec<String> = Vec::new();
    let mut current: Vec<char> = Vec::new();
    let mut truncated = false;
    let mut i: usize = 0;
    assert(words.take(0) =~= Seq::<Seq<char>>::empty());
    assert(crate::text::texts(lines@) =~= Seq::<Seq<char>>::empty());
    assert(current@ =~= Seq::<char>::empty());
    while i < all.len() && !truncated
        invariant
            max_lines > 0,
            i <= all@.len() == words.len(),
            words == crate::text::word_texts(all@),
            mc == max_chars,
            ml == max_lines,
            current@.len() <= max_chars,
            !truncated ==> lines@.len() < max_lines,
            filled(words.take(i as int), mc, ml) == (Filling {
                lines: crate::text::texts(lines@),
                current: current@,
                truncated,
            }),
        decreases all@.len() - i,
    {
        truncated = place(&mut lines, &mut current, &all[i], max_chars, max_lines);
        assert(words.take(i + 1).drop_last() =~= words.take(i as int));
        i += 1;
    }
    proof {
        assert(words.take(words.len() as int) =~= words);
        if truncated {
            lemma_filled_stops(words, i as int, mc, ml);
        }
        lemma_filled_fits(words, mc, ml);
    }
    let ghost f = filled(words, mc, ml);
    let ghost before = crate::text::texts(lines@);
    assert(f.lines == before && f.current == current@ && f.truncated == truncated);
    if truncated || (current.len() > 0 && lines.len() >= max_lines) {
        match lines.pop() {
            Some(last) => {
                lines.push(mark(&last, max_chars));
                assert(crate::text::texts(lines@) =~= finished(f, mc, ml));
            },
            None => {},
        }
    } else if current.len() > 0 {
        lines.push(string_of(&current, 0, current.len()));
        assert(current@.subrange(0, current@.len() as int) =~= current@);
        assert(crate::text::texts(lines@) =~= before.push(current@));
    }
    lines
}

/// Once the block is full, later words change nothing.
proof fn lemma_filled_stops(words: Seq<Seq<char>>, k: int, max_chars: nat, max_lines: nat)
    requires
        0 <= k <= words.len(),
        filled(words.take(k), max_chars, max_lines).truncated,
    ensures
        filled(words, max_chars, max_lines) == filled(words.take(k), max_chars, max_lines),
    decreases words.len(),
{
    if k == words.len() {
        assert(words.take(k) =~= words);
    } else {
        assert(words.drop_last().take(k) =~= words.take(k));
        lemma_filled_stops(words.drop_last(), k, max_chars, max_lines);
    }
}

/// Shortens a line to make room for the mark, and appends the mark.
fn mark(line: &str, max_chars: usize) -> (r: String)
    ensures
        r@ == marked(line@, max_chars as nat),
{
    let chars = crate::text::chars_of(line);
    let room: usize = if max_chars > 0 {
        max_chars - 1
    } else {
        0
    };
    let keep: usize = if chars.len() > room {
        room
    } else {
        chars.len()
    };
    let mut r = string_of(&chars, 0, keep);
    assert(r@ =~= line@.take(keep as int));
    assert(line@.take(line@.len() as int) =~= line@);
    r.push('~');
    r
}

// ---------- How lines are filled ----------
/// Whether a block holds the beginning of what another one holds, and something
/// is left for the other.
spec fn left_short(g: Filling, h: Filling, m: nat) -> bool {
    &&& g.truncated
    &&& g.lines.len() == m
    &&& h.lines.len() >= m
    &&& h.lines.take(m as int) == g.lines
    &&& h.lines.len() > m || h.current.len() > 0
}

/// Placing a word keeps the finished lines, and leaves a block that held
/// something beyond them with something beyond them.
proof fn lemma_placed_extends(f: Filling, word: Seq<char>, max_chars: nat, max_lines: nat)
    requires
        f.lines.len() < max_lines,
    ensures
        ({
            let g = placed(f, word, max_chars, max_lines);
            &&& g.lines.len() >= f.lines.len()
            &&& g.lines.take(f.lines.len() as int) == f.lines
            &&& word.len() > 0 || f.current.len() > 0 ==> g.lines.len() > f.lines.len()
                || g.current.len() > 0
        }),
    decreases word.len(), f.current.len(), max_lines - f.lines.len(),
{
    let joined = if f.current.len() == 0 {
        word
    } else {
        f.current.push(' ') + word
    };
    assert(f.lines.take(f.lines.len() as int) =~= f.lines);
    if joined.len() > max_chars {
        let line = if f.current.len() > 0 {
            f.current
        } else {
            word.take(max_chars as int)
        };
        let rest = if f.current.len() > 0 {
            word
        } else {
            word.skip(max_chars as int)
        };
        let lines = f.lines.push(line);
        let next = Filling { lines, current: Seq::empty(), truncated: lines.len() == max_lines };
        assert(lines.take(f.lines.len() as int) =~= f.lines);
        if !next.truncated {
            lemma_placed_extends(next, rest, max_chars, max_lines);
            let g = placed(next, rest, max_chars, max_lines);
            assert(g.lines.take(lines.len() as int).take(f.lines.len() as int) =~= g.lines.take(
                f.lines.len() as int,
            ));
        }
    }
}

/// A word is placed in the same way wherever it fits, whatever the number of
/// lines.
proof fn lemma_placed_in_more(f: Filling, word: Seq<char>, max_chars: nat, m: nat, more: nat)
    requires
        f.lines.len() < m < more,
        word.len() > 0,
    ensures
        ({
            let g = placed(f, word, max_chars, m);
            let h = placed(f, word, max_chars, more);
            if g.truncated {
                left_short(g, h, m)
            } else {
                g == h
            }
        }),
    decreases word.len(), f.current.len(), m - f.lines.len(),
{
    let joined = if f.current.len() == 0 {
        word
    } else {
        f.current.push(' ') + word
    };
    if joined.len() > max_chars {
        let line = if f.current.len() > 0 {
            f.current
        } else {
            word.take(max_chars as int)
        };
        let rest = if f.current.len() > 0 {
            word
        } else {
            word.skip(max_chars as int)
        };
        let lines = f.lines.push(line);
        let next = Filling { lines, current: Seq::empty(), truncated: false };
        if lines.len() == m {
            lemma_placed_extends(next, rest, max_chars, more);
        } else {
            lemma_placed_in_more(next, rest, max_chars, m, more);
        }
    }
}

proof fn lemma_filled_in_more(words: Seq<Seq<char>>, max_chars: nat, m: nat, more: nat)
    requires
        0 < m < more,
        forall|i: int| 0 <= i < words.len() ==> (#[trigger] words[i]).len() > 0,
    ensures
        ({
            let g = filled(words, max_chars, m);
            let h = filled(words, max_chars, more);
            if g.truncated {
                left_short(g, h, m)
            } else {
                g == h
            }
        }),
    decreases words.len(),
{
    if words.len() > 0 {
        let t = words.drop_last();
        let w = words.last();
        assert(w == words[words.len() - 1]);
        assert forall|i: int| 0 <= i < t.len() implies (#[trigger] t[i]).len() > 0 by {
            assert(t[i] == words[i]);
        }
        lemma_filled_in_more(t, max_chars, m, more);
        lemma_filled_fits(t, max_chars, m);
        lemma_filled_fits(t, max_chars, more);
        let g = filled(t, max_chars, m);
        let h = filled(t, max_chars, more);
        if !g.truncated {
            lemma_placed_in_more(g, w, max_chars, m, more);
        } else if !h.truncated {
            lemma_placed_extends(h, w, max_chars, more);
            let k = placed(h, w, max_chars, more);
            assert(k.lines.take(h.lines.len() as int).take(m as int) =~= k.lines.take(m as int));
        }
    }
}

/// How many lines there is room for changes nothing about the lines that are
/// there. A text that fits is shown as it would be with any more room; of one
/// that does not, the first lines are shown, the last of them with a mark at its
/// end, in place of its last character if the line was full.
pub proof fn more_room_changes_no_line(text: Seq<char>, max_chars: nat, m: nat, more: nat)
    requires
        0 < m <= more,
        max_chars > 0,
    ensures
        ({
            let shown = wrapped(text, max_chars, m);
            let whole = wrapped(text, max_chars, more);
            if whole.len() <= m {
                shown == whole
            } else {
                &&& shown.len() == m
                &&& forall|i: int| 0 <= i < m - 1 ==> #[trigger] shown[i] == whole[i]
                &&& shown[m - 1] == (if whole[m - 1].len() == max_chars {
                    whole[m - 1].drop_last().push('~')
                } else {
                    whole[m - 1].push('~')
                })
            }
        }),
{
    wrapped_text_fits(text, max_chars, more);
    if m < more {
        let words = crate::text::words(text);
        crate::text::words_are_solid(text);
        lemma_filled_in_more(words, max_chars, m, more);
        lemma_truncated_is_full(words, max_chars, more);
        lemma_filled_fits(words, max_chars, m);
        lemma_filled_fits(words, max_chars, more);
        let g = filled(words, max_chars, m);
        let h = filled(words, max_chars, more);
        let shown = wrapped(text, max_chars, m);
        let whole = wrapped(text, max_chars, more);
        if g.truncated {
            assert forall|i: int| 0 <= i < m implies #[trigger] whole[i] == g.lines[i] by {
                assert(h.lines.take(m as int)[i] == h.lines[i]);
            }
            let last = g.lines.last();
            assert(whole[m - 1] == last);
            assert(last.len() <= max_chars) by {
                assert(g.lines[m - 1].len() <= max_chars);
            }
            if last.len() == max_chars {
                assert(last.take(max_chars - 1) =~= last.drop_last());
            }
        }
    }
}

/// A block with a line to spare shows all of its text.
pub proof fn unfilled_blocks_show_everything(text: Seq<char>, max_chars: nat, max_lines: nat)
    requires
        wrapped(text, max_chars, max_lines).len() < max_lines,
    ensures
        all_glyphs(wrapped(text, max_chars, max_lines)) == glyphs(text),
{
    let words = crate::text::words(text);
    wrapping_loses_nothing_unmarked(text, max_chars, max_lines);
    lemma_filled_fits(words, max_chars, max_lines);
    lemma_truncated_is_full(words, max_chars, max_lines);
}

proof fn lemma_truncated_is_full(words: Seq<Seq<char>>, max_chars: nat, max_lines: nat)
    requires
        max_lines > 0,
    ensures
        ({
            let f = filled(words, max_chars, max_lines);
            f.truncated ==> f.lines.len() == max_lines
        }),
    decreases words.len(),
{
    if words.len() > 0 {
        lemma_truncated_is_full(words.drop_last(), max_chars, max_lines);
        let f = filled(words.drop_last(), max_chars, max_lines);
        if !f.truncated {
            lemma_filled_fits(words.drop_last(), max_chars, max_lines);
            lemma_placed_truncated_is_full(f, words.last(), max_chars, max_lines);
        }
    }
}

proof fn lemma_placed_truncated_is_full(
    f: Filling,
    word: Seq<char>,
    max_chars: nat,
    max_lines: nat,
)
    requires
        f.lines.len() < max_lines,
    ensures
        ({
            let g = placed(f, word, max_chars, max_lines);
            g.truncated ==> g.lines.len() == max_lines
        }),
    decreases word.len(), f.current.len(), max_lines - f.lines.len(),
{
    let joined = if f.current.len() == 0 {
        word
    } else {
        f.current.push(' ') + word
    };
    if joined.len() > max_chars {
        let line = if f.current.len() > 0 {
            f.current
        } else {
            word.take(max_chars as int)
        };
        let rest = if f.current.len() > 0 {
            word
        } else {
            word.skip(max_chars as int)
        };
        let lines = f.lines.push(line);
        if lines.len() < max_lines {
            lemma_placed_truncated_is_full(
                Filling { lines, current: Seq::empty(), truncated: false },
                rest,
                max_chars,
                max_lines,
            );
        }
    }
}

// ---------- Words on lines ----------
/// The words of some lines, one after the other.
pub open spec fn all_words(lines: Seq<Seq<char>>) -> Seq<Seq<char>>
    decreases lines.len(),
{
    if lines.len() == 0 {
        Seq::empty()
    } else {
        all_words(lines.drop_last()) + crate::text::words(lines.last())
    }
}

/// Whether a line is some words with a single space between each two of them.
pub open spec fn single_spaced(line: Seq<char>) -> bool {
    &&& line.len() > 0 ==> !crate::text::is_white(line[0]) && !crate::text::is_white(line.last())
    &&& forall|i: int| 0 <= i < line.len() && crate::text::is_white(#[trigger] line[i]) ==> line[i]
        == ' ' && i + 1 < line.len() && !crate::text::is_white(line[i + 1])
}

/// Whether `next` begins with a word that would not have fitted behind `line`.
pub open spec fn could_not_go_on(line: Seq<char>, next: Seq<char>, max_chars: nat) -> bool {
    crate::text::words(next).len() > 0 && line.len() + 1 + crate::text::words(next)[0].len()
        > max_chars
}

/// What every stage of filling with words of a line's length at most keeps.
spec fn well_filled(f: Filling, words: Seq<Seq<char>>, max_chars: nat) -> bool {
    &&& f.current.len() <= max_chars
    &&& single_spaced(f.current)
    &&& f.lines.len() > 0 && !f.truncated ==> f.current.len() > 0 && could_not_go_on(
        f.lines.last(),
        f.current,
        max_chars,
    )
    &&& forall|i: int|
        0 <= i < f.lines.len() ==> (#[trigger] f.lines[i]).len() > 0 && single_spaced(f.lines[i])
    &&& forall|i: int|
        0 <= i < f.lines.len() - 1 ==> could_not_go_on(
            #[trigger] f.lines[i],
            f.lines[i + 1],
            max_chars,
        )
    &&& !f.truncated ==> all_words(f.lines) + crate::text::words(f.current) == words
}

proof fn lemma_joined(current: Seq<char>, word: Seq<char>)
    requires
        current.len() > 0,
        single_spaced(current),
        word.len() > 0,
        crate::text::solid_text(word),
    ensures
        single_spaced(current.push(' ') + word),
        crate::text::words(current.push(' ') + word) == crate::text::words(current).push(word),
{
    let j = current.push(' ') + word;
    let n = current.len() as int;
    crate::text::whitespace_separates_words(current, ' ', word);
    crate::text::text_without_whitespace_is_one_word(word);
    assert(crate::text::words(current) + seq![word] =~= crate::text::words(current).push(word));
    assert(j[0] == current[0]);
    assert(j.last() == word[word.len() - 1]);
    assert(!crate::text::is_white(word[word.len() - 1]));
    assert forall|i: int| 0 <= i < j.len() && crate::text::is_white(#[trigger] j[i]) implies j[i]
        == ' ' && i + 1 < j.len() && !crate::text::is_white(j[i + 1]) by {
        if i < n {
            assert(j[i] == current[i]);
            assert(j[i + 1] == current[i + 1]);
        } else if i == n {
            assert(j[i + 1] == word[0]);
            assert(!crate::text::is_white(word[0]));
        } else {
            assert(j[i] == word[i - n - 1]);
        }
    }
}

proof fn lemma_word_line(word: Seq<char>)
    requires
        word.len() > 0,
        crate::text::solid_text(word),
    ensures
        single_spaced(word),
        crate::text::words(word) == seq![word],
{
    crate::text::text_without_whitespace_is_one_word(word);
    assert(!crate::text::is_white(word[0]) && !crate::text::is_white(word[word.len() - 1]));
}

proof fn lemma_placed_well(
    f: Filling,
    words: Seq<Seq<char>>,
    word: Seq<char>,
    max_chars: nat,
    max_lines: nat,
)
    requires
        well_filled(f, words, max_chars),
        f.lines.len() < max_lines,
        !f.truncated,
        0 < word.len() <= max_chars,
        crate::text::solid_text(word),
    ensures
        well_filled(placed(f, word, max_chars, max_lines), words.push(word), max_chars),
{
    let g = placed(f, word, max_chars, max_lines);
    lemma_word_line(word);
    if f.current.len() == 0 {
        assert(f.lines.len() == 0);
        assert(g == (Filling { lines: f.lines, current: word, truncated: false }));
        assert(crate::text::words(f.current) =~= Seq::<Seq<char>>::empty());
        assert(words =~= Seq::<Seq<char>>::empty());
        assert(all_words(g.lines) + crate::text::words(g.current) =~= words.push(word));
    } else {
        let joined = f.current.push(' ') + word;
        lemma_joined(f.current, word);
        if joined.len() <= max_chars {
            assert(g == (Filling { lines: f.lines, current: joined, truncated: false }));
            assert(all_words(g.lines) + crate::text::words(g.current) =~= words.push(word));
            if f.lines.len() > 0 {
                let a = crate::text::words(f.current);
                assert(crate::text::words(joined)[0] == a[0]);
            }
        } else {
            let lines = f.lines.push(f.current);
            let next = Filling {
                lines,
                current: Seq::empty(),
                truncated: lines.len() == max_lines,
            };
            assert(lines.drop_last() =~= f.lines);
            assert(all_words(lines) == words);
            assert forall|i: int| 0 <= i < lines.len() implies (#[trigger] lines[i]).len() > 0
                && single_spaced(lines[i]) by {
                if i < f.lines.len() {
                    assert(lines[i] == f.lines[i]);
                }
            }
            assert forall|i: int| 0 <= i < lines.len() - 1 implies could_not_go_on(
                #[trigger] lines[i],
                lines[i + 1],
                max_chars,
            ) by {
                assert(lines[i] == f.lines[i]);
                if i + 1 < f.lines.len() {
                    assert(lines[i + 1] == f.lines[i + 1]);
                } else {
                    assert(f.lines[i] == f.lines.last());
                }
            }
            if next.truncated {
                assert(g == next);
            } else {
                assert(g == placed(next, word, max_chars, max_lines));
                assert(g == (Filling { lines, current: word, truncated: false }));
                assert(all_words(lines) + crate::text::words(word) =~= words.push(word));
            }
        }
    }
}

proof fn lemma_filled_well(words: Seq<Seq<char>>, max_chars: nat, max_lines: nat)
    requires
        max_lines > 0,
        forall|i: int|
            0 <= i < words.len() ==> 0 < (#[trigger] words[i]).len() <= max_chars
                && crate::text::solid_text(words[i]),
    ensures
        well_filled(filled(words, max_chars, max_lines), words, max_chars),
    decreases words.len(),
{
    if words.len() == 0 {
        assert(all_words(blank().lines) + crate::text::words(blank().current) =~= words);
    } else {
        let t = words.drop_last();
        assert forall|i: int| 0 <= i < t.len() implies 0 < (#[trigger] t[i]).len() <= max_chars
            && crate::text::solid_text(t[i]) by {
            assert(t[i] == words[i]);
        }
        lemma_filled_well(t, max_chars, max_lines);
        lemma_filled_fits(t, max_chars, max_lines);
        let f = filled(t, max_chars, max_lines);
        let k = words.len() - 1;
        assert(0 < words[k].len() <= max_chars && crate::text::solid_text(words[k]));
        if !f.truncated {
            lemma_placed_well(f, t, words.last(), max_chars, max_lines);
            assert(t.push(words.last()) =~= words);
        }
    }
}

/// Text whose words all fit on a line is wrapped between its words, and greedily:
/// with room enough, the lines hold the words in order, none cut, with single
/// spaces between them, and the first word of each line would not have fitted on
/// the line above.
pub proof fn words_stay_whole_and_lines_are_filled(
    text: Seq<char>,
    max_chars: nat,
    max_lines: nat,
)
    requires
        forall|i: int|
            0 <= i < crate::text::words(text).len() ==> (#[trigger] crate::text::words(
                text,
            )[i]).len() <= max_chars,
        wrapped(text, max_chars, max_lines).len() < max_lines,
    ensures
        ({
            let lines = wrapped(text, max_chars, max_lines);
            &&& all_words(lines) == crate::text::words(text)
            &&& forall|i: int|
                0 <= i < lines.len() ==> (#[trigger] lines[i]).len() > 0 && single_spaced(lines[i])
            &&& forall|i: int|
                0 <= i < lines.len() - 1 ==> could_not_go_on(
                    #[trigger] lines[i],
                    lines[i + 1],
                    max_chars,
                )
        }),
{
    let words = crate::text::words(text);
    crate::text::words_are_solid(text);
    lemma_filled_well(words, max_chars, max_lines);
    lemma_filled_fits(words, max_chars, max_lines);
    lemma_truncated_is_full(words, max_chars, max_lines);
    let f = filled(words, max_chars, max_lines);
    let lines = wrapped(text, max_chars, max_lines);
    assert(!f.truncated);
    if f.current.len() > 0 {
        assert(lines.drop_last() =~= f.lines);
        assert forall|i: int| 0 <= i < lines.len() - 1 implies could_not_go_on(
            #[trigger] lines[i],
            lines[i + 1],
            max_chars,
        ) by {
            assert(lines[i] == f.lines[i]);
            if i + 1 < f.lines.len() {
                assert(lines[i + 1] == f.lines[i + 1]);
            } else {
                assert(f.lines[i] == f.lines.last());
            }
        }
        assert forall|i: int| 0 <= i < lines.len() implies (#[trigger] lines[i]).len() > 0
            && single_spaced(lines[i]) by {
            if i < f.lines.len() {
                assert(lines[i] == f.lines[i]);
            }
        }
    } else {
        assert(f.current =~= Seq::<char>::empty());
        assert(crate::text::words(f.current) =~= Seq::<Seq<char>>::empty());
        assert(all_words(f.lines) + crate::text::words(f.current) =~= all_words(f.lines));
    }
}

// ---------- Long words ----------
/// A block with a line ahead of what it holds.
spec fn with_line_ahead(line: Seq<char>, f: Filling) -> Filling {
    Filling { lines: seq![line] + f.lines, ..f }
}

/// A line ahead of a block takes one line of its room, and changes nothing else.
proof fn lemma_placed_below(
    line: Seq<char>,
    f: Filling,
    word: Seq<char>,
    max_chars: nat,
    max_lines: nat,
)
    requires
        f.lines.len() < max_lines,
    ensures
        placed(with_line_ahead(line, f), word, max_chars, max_lines + 1) == with_line_ahead(
            line,
            placed(f, word, max_chars, max_lines),
        ),
    decreases word.len(), f.current.len(), max_lines - f.lines.len(),
{
    let joined = if f.current.len() == 0 {
        word
    } else {
        f.current.push(' ') + word
    };
    if joined.len() > max_chars {
        let closed = if f.current.len() > 0 {
            f.current
        } else {
            word.take(max_chars as int)
        };
        let rest = if f.current.len() > 0 {
            word
        } else {
            word.skip(max_chars as int)
        };
        let lines = f.lines.push(closed);
        let next = Filling { lines, current: Seq::empty(), truncated: lines.len() == max_lines };
        assert((seq![line] + f.lines).push(closed) =~= seq![line] + lines);
        if !next.truncated {
            lemma_placed_below(line, next, rest, max_chars, max_lines);
        }
    }
}

/// A word that is longer than a line fills the line, and goes on below as if it
/// began there.
pub proof fn long_words_fill_their_lines(word: Seq<char>, max_chars: nat, max_lines: nat)
    requires
        crate::text::solid_text(word),
        0 < max_chars < word.len(),
        max_lines > 0,
    ensures
        wrapped(word, max_chars, max_lines + 1) == seq![word.take(max_chars as int)] + wrapped(
            word.skip(max_chars as int),
            max_chars,
            max_lines,
        ),
{
    let line = word.take(max_chars as int);
    let rest = word.skip(max_chars as int);
    assert(crate::text::solid_text(rest)) by {
        assert forall|i: int| 0 <= i < rest.len() implies !crate::text::is_white(
            #[trigger] rest[i],
        ) by {
            assert(rest[i] == word[i + max_chars]);
        }
    }
    crate::text::text_without_whitespace_is_one_word(word);
    crate::text::text_without_whitespace_is_one_word(rest);
    reveal_with_fuel(filled, 2);
    assert(seq![word].drop_last() =~= Seq::<Seq<char>>::empty());
    assert(seq![rest].drop_last() =~= Seq::<Seq<char>>::empty());
    let below = placed(blank(), rest, max_chars, max_lines);
    assert(filled(seq![rest], max_chars, max_lines) == below);
    let next = Filling { lines: blank().lines.push(line), current: Seq::empty(), truncated: false };
    assert(next.lines =~= seq![line] + blank().lines);
    lemma_placed_below(line, blank(), rest, max_chars, max_lines);
    let all = filled(seq![word], max_chars, max_lines + 1);
    assert(all == placed(next, rest, max_chars, max_lines + 1));
    assert(all == with_line_ahead(line, below));
    lemma_filled_fits(seq![rest], max_chars, max_lines);
    let a = wrapped(word, max_chars, max_lines + 1);
    let b = wrapped(rest, max_chars, max_lines);
    if below.truncated {
        assert(all.lines.drop_last() =~= seq![line] + below.lines.drop_last());
        assert(all.lines.last() == below.lines.last());
    }
    assert(a =~= seq![line] + b);
}

} // verus!
