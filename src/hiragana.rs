use std::collections::BTreeMap;
use vstd::prelude::*;

verus! {

/// Kana grouped by consonant row: each map takes a pronunciation to its glyph.
pub struct HiraganaCategories {
    pub v: BTreeMap<String, String>,
    pub k: BTreeMap<String, String>,
    pub s: BTreeMap<String, String>,
    pub t: BTreeMap<String, String>,
    pub n: BTreeMap<String, String>,
    pub h: BTreeMap<String, String>,
    pub m: BTreeMap<String, String>,
    pub r: BTreeMap<String, String>,
    pub y: BTreeMap<String, String>,
    pub w: BTreeMap<String, String>,
}

/// A deck could not be read: the line with this number (counted from 1) has
/// fewer than two words.
#[derive(PartialEq, Eq, Structural, Clone, Copy, Debug)]
pub struct LoadError {
    pub line: usize,
}

/// The characters that Unicode counts as white space.
pub open spec fn is_space(c: char) -> bool {
    let u = c as u32;
    (9 <= u <= 13) || u == 32 || u == 0x85 || u == 0xa0 || u == 0x1680 || (0x2000 <= u <= 0x200a)
        || u == 0x2028 || u == 0x2029 || u == 0x202f || u == 0x205f || u == 0x3000
}

/// The pieces of `s` between line feeds, the last one possibly empty.
pub open spec fn segments(s: Seq<char>) -> Seq<Seq<char>>
    decreases s.len(),
{
    if s.len() == 0 {
        seq![Seq::empty()]
    } else {
        let t = segments(s.drop_last());
        if s.last() == '\n' {
            t.push(Seq::empty())
        } else {
            t.update(t.len() - 1, t.last().push(s.last()))
        }
    }
}

/// The lines of a text: the pieces between line feeds, except the empty piece
/// after a final line feed. (A carriage return before a line feed is white
/// space, so it adds no word to its line.)
pub open spec fn lines_of(s: Seq<char>) -> Seq<Seq<char>> {
    let t = segments(s);
    if t.last().len() == 0 {
        t.drop_last()
    } else {
        t
    }
}

/// The words of a line: its longest runs of characters that are not white space.
pub open spec fn words(s: Seq<char>) -> Seq<Seq<char>>
    decreases s.len(),
{
    if s.len() == 0 {
        Seq::empty()
    } else {
        let t = words(s.drop_last());
        let c = s.last();
        if is_space(c) {
            t
        } else if s.len() >= 2 && !is_space(s[s.len() - 2]) {
            t.update(t.len() - 1, t.last().push(c))
        } else {
            t.push(seq![c])
        }
    }
}

/// Whether a line holds a card: at least two words, pronunciation and glyph.
pub open spec fn is_card_line(l: Seq<char>) -> bool {
    words(l).len() >= 2
}

/// The card that a line holds, as its first two words; words after them are ignored.
pub open spec fn card_of(l: Seq<char>) -> (Seq<char>, Seq<char>) {
    (words(l)[0], words(l)[1])
}

/// Whether `line` (counted from 1) is the first line of `text` without a card.
pub open spec fn first_bad_line(text: Seq<char>, line: nat) -> bool {
    let ls = lines_of(text);
    &&& 1 <= line <= ls.len()
    &&& !is_card_line(ls[line - 1])
    &&& forall|j: int| 0 <= j < line - 1 ==> is_card_line(#[trigger] ls[j])
}

/// Whether every line of `text` holds a card.
pub open spec fn all_card_lines(text: Seq<char>) -> bool {
    forall|j: int| 0 <= j < lines_of(text).len() ==> is_card_line(#[trigger] lines_of(text)[j])
}

fn is_space_char(c: char) -> (r: bool)
    ensures
        r == is_space(c),
{
    let u = c as u32;
    (9 <= u && u <= 13) || u == 32 || u == 0x85 || u == 0xa0 || u == 0x1680 || (0x2000 <= u && u
        <= 0x200a) || u == 0x2028 || u == 0x2029 || u == 0x202f || u == 0x205f || u == 0x3000
}

/// Relies on String::push: the string grows by the one character at its end.
#[verifier::external_body]
fn push_char(s: &mut String, c: char)
    ensures
        final(s)@ == old(s)@.push(c),
{
    s.push(c);
}

fn chars_of(text: &str) -> (r: Vec<char>)
    ensures
        r@ == text@,
{
    let mut cs: Vec<char> = Vec::new();
    for c in it: text.chars()
        invariant
            cs@ == it.seq().take(it.index() as int),
    {
        cs.push(c);
    }
    cs
}


/// Reads decks of kana flashcards.
pub struct Hiragana;

impl Hiragana {
    /// The deck that `text` holds: one card per line, made of the line's
    /// first two words (pronunciation, glyph), in the order of the lines.
    /// The first line with fewer than two words makes the whole deck fail.
    pub fn new(text: &str) -> (r: Result<Vec<(String, String)>, LoadError>)
        ensures
            r is Ok <==> all_card_lines(text@),
            r matches Ok(cards) ==> cards@.len() == lines_of(text@).len() && forall|j: int|
                0 <= j < cards@.len() ==> (cards@[j].0@, cards@[j].1@) == card_of(
                    #[trigger] lines_of(text@)[j],
                ),
            r matches Err(e) ==> first_bad_line(text@, e.line as nat),
    {
        let cs = chars_of(text);
        let m = cs.len();
        let mut out: Vec<(String, String)> = Vec::new();
        let mut bad: Option<usize> = None;
        let mut started = false;
        let mut in_word = false;
        let mut nw: usize = 0;
        let mut w1 = String::new();
        let mut w2 = String::new();
        let mut i: usize = 0;
        while i < m
            invariant
                m == cs@.len(),
                i <= m,
                ({
                    let segs = segments(cs@.take(i as int));
                    let cur = segs.last();
                    let done = segs.len() - 1;
                    &&& done + (if started { 1int } else { 0 }) <= i
                    &&& started == (cur.len() > 0)
                    &&& in_word == (cur.len() > 0 && !is_space(cur.last()))
                    &&& nw == (if words(cur).len() < 3 { words(cur).len() } else { 3 })
                    &&& (in_word ==> nw >= 1)
                    &&& (nw >= 1 ==> w1@ == words(cur)[0])
                    &&& (nw >= 2 ==> w2@ == words(cur)[1])
                    &&& match bad {
                        None => {
                            &&& out@.len() == done
                            &&& forall|j: int|
                                0 <= j < done ==> is_card_line(#[trigger] segs[j]) && (
                                out@[j].0@,
                                out@[j].1@,
                            ) == card_of(segs[j])
                        },
                        Some(e) => {
                            &&& 1 <= e <= done
                            &&& !is_card_line(segs[e - 1])
                            &&& forall|j: int| 0 <= j < e - 1 ==> is_card_line(#[trigger] segs[j])
                        },
                    }
                }),
            decreases m - i,
        {
            let c = cs[i];
            let ghost pre = cs@.take(i as int);
            let ghost post = cs@.take(i + 1);
            assert(post.drop_last() =~= pre);
            assert(post.last() == c);
            let ghost segs = segments(pre);
            let ghost cur = segs.last();
            if c == '\n' {
                if bad.is_none() {
                    if nw >= 2 {
                        let mut a = String::new();
                        let mut b = String::new();
                        std::mem::swap(&mut a, &mut w1);
                        std::mem::swap(&mut b, &mut w2);
                        out.push((a, b));
                    } else {
                        bad = Some(out.len() + 1);
                    }
                }
                started = false;
                in_word = false;
                nw = 0;
                proof {
                    let segs2 = segments(post);
                    assert(segs2 == segs.push(Seq::empty()));
                    assert(words(segs2.last()) =~= Seq::<Seq<char>>::empty());
                }
            } else {
                let ghost cur2 = cur.push(c);
                proof {
                    assert(cur2.drop_last() =~= cur);
                    assert(segments(post) == segs.update(segs.len() - 1, cur2));
                }
                if is_space_char(c) {
                    in_word = false;
                } else {
                    proof {
                        if cur.len() > 0 {
                            assert(cur2[cur2.len() - 2] == cur.last());
                        }
                    }
                    if in_word {
                        if nw == 1 {
                            push_char(&mut w1, c);
                        } else if nw == 2 {
                            push_char(&mut w2, c);
                        }
                    } else {
                        if nw == 0 {
                            w1 = String::new();
                            push_char(&mut w1, c);
                        } else if nw == 1 {
                            w2 = String::new();
                            push_char(&mut w2, c);
                        }
                        if nw < 3 {
                            nw = nw + 1;
                        }
                    }
                    in_word = true;
                }
                started = true;
            }
            i = i + 1;
        }
        assert(cs@.take(m as int) =~= cs@);
        match bad {
            Some(e) => {
                assert(lines_of(text@)[e - 1] == segments(text@)[e - 1]);
                assert(!is_card_line(lines_of(text@)[e - 1]));
                Err(LoadError { line: e })
            },
            None => {
                if started {
                    if nw >= 2 {
                        out.push((w1, w2));
                        Ok(out)
                    } else {
                        Err(LoadError { line: out.len() + 1 })
                    }
                } else {
                    Ok(out)
                }
            },
        }
    }
}
} // verus!
