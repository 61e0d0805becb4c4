//! Pronunciation fixes: lines of `word = respelling`, applied to whole
//! words, case-insensitively, before synthesis.

use vstd::prelude::*;
use crate::text::{
    alphanumeric, is_ascii_alnum, char_is_alphanumeric, chars_of, lowercase_of, split, string_of_range,
    str_eq, to_lowercase, trim, trim_bounds, find, find_in, lemma_split_len, lemma_split_push,
};

verus! {

/// The entry a trimmed line gives, if any: not blank, not a `#` comment,
/// and holding an `=`; the word (before the first `=`) is trimmed and
/// lowercased, the respelling (after it) trimmed.
pub open spec fn entry_of_line(line: Seq<char>) -> Option<(Seq<char>, Seq<char>)> {
    let l = trim(line);
    if l.len() == 0 || l[0] == '#' {
        None
    } else {
        match find(l, seq!['=']) {
            Some(i) => Some((lowercase_of(trim(l.take(i))), trim(l.skip(i + 1)))),
            None => None,
        }
    }
}

/// The entries of the lines `lines`, in order.
pub open spec fn entries_of(lines: Seq<Seq<char>>) -> Seq<(Seq<char>, Seq<char>)>
    decreases lines.len(),
{
    if lines.len() == 0 {
        Seq::empty()
    } else {
        match entry_of_line(lines.last()) {
            Some(e) => entries_of(lines.drop_last()).push(e),
            None => entries_of(lines.drop_last()),
        }
    }
}

/// The lexicon a file's contents describe. (Line terminators `\r` and a
/// final empty line vanish under trimming.)
pub open spec fn lexicon_of(content: Seq<char>) -> Seq<(Seq<char>, Seq<char>)> {
    entries_of(split(content, '\n'))
}

pub open spec fn lexicon_view(lex: Seq<(String, String)>) -> Seq<(Seq<char>, Seq<char>)> {
    lex.map_values(|e: (String, String)| (e.0@, e.1@))
}

/// The entry, if any, of the line `v[from..to]`.
fn parse_line(v: &Vec<char>, from: usize, to: usize) -> (r: Option<(String, String)>)
    requires
        from <= to <= v.len(),
    ensures
        match entry_of_line(v@.subrange(from as int, to as int)) {
            Some(e) => r matches Some(p) && p.0@ == e.0 && p.1@ == e.1,
            None => r is None,
        },
{
    let (a, b) = trim_bounds(v, from, to);
    let ghost l = v@.subrange(a as int, b as int);
    if a == b || v[a] == '#' {
        proof {
            if a < b {
                assert(l[0] == v@[a as int]);
            }
        }
        return None;
    }
    let eq = vec!['='];
    assert(eq@ =~= seq!['=']);
    let line = string_of_range(v, a, b);
    let lv = chars_of(line.as_str());
    assert(lv@ == l);
    assert(lv@.skip(0) =~= lv@);
    match find_in(&lv, 0, &eq) {
        Some(i) => {
            let (wa, wb) = trim_bounds(&lv, 0, i);
            let word = string_of_range(&lv, wa, wb);
            let key = to_lowercase(word.as_str());
            let (ra, rb) = trim_bounds(&lv, i + 1, lv.len());
            let resp = string_of_range(&lv, ra, rb);
            assert(lv@.subrange(0, i as int) =~= l.take(i as int));
            assert(lv@.subrange(i + 1, lv@.len() as int) =~= l.skip(i + 1));
            Some((key, resp))
        },
        None => None,
    }
}

/// Pronunciation fixes read from a lexicon file's contents: lines of
/// `word = respelling`; blank lines and `#` comments are skipped.
pub fn parse_lexicon(content: &str) -> (r: Vec<(String, String)>)
    ensures
        lexicon_view(r@) == lexicon_of(content@),
{
    let v = chars_of(content);
    let mut out: Vec<(String, String)> = Vec::new();
    let mut start: usize = 0;
    let mut i: usize = 0;
    proof {
        assert(v@.take(0) =~= Seq::<char>::empty());
        assert(split(Seq::<char>::empty(), '\n') =~= seq![Seq::<char>::empty()]);
        assert(seq![Seq::<char>::empty()].drop_last() =~= Seq::<Seq<char>>::empty());
        assert(lexicon_view(out@) =~= entries_of(Seq::<Seq<char>>::empty()));
        assert(v@.subrange(0, 0) =~= Seq::<char>::empty());
    }
    while i < v.len()
        invariant
            v@ == content@,
            start <= i <= v.len(),
            lexicon_view(out@) == entries_of(split(v@.take(i as int), '\n').drop_last()),
            split(v@.take(i as int), '\n').last() == v@.subrange(start as int, i as int),
        decreases v.len() - i,
    {
        let ghost sp = split(v@.take(i as int), '\n');
        proof {
            lemma_split_len(v@.take(i as int), '\n');
            assert(v@.take(i + 1) =~= v@.take(i as int).push(v@[i as int]));
            lemma_split_push(v@.take(i as int), v@[i as int], '\n');
            assert(sp =~= sp.drop_last().push(sp.last()));
        }
        if v[i] == '\n' {
            let e = parse_line(&v, start, i);
            let ghost before = out@;
            match e {
                Some(p) => {
                    out.push(p);
                    assert(lexicon_view(out@) =~= lexicon_view(before).push((p.0@, p.1@)));
                },
                None => {},
            }
            start = i + 1;
            i = i + 1;
            proof {
                assert(split(v@.take(i as int), '\n').drop_last() =~= sp);
                assert(v@.subrange(start as int, i as int) =~= Seq::<char>::empty());
            }
        } else {
            i = i + 1;
            proof {
                let np = split(v@.take(i as int), '\n');
                assert(np.drop_last() =~= sp.drop_last());
                assert(np.last() =~= v@.subrange(start as int, i as int));
            }
        }
    }
    let ghost sp = split(v@.take(i as int), '\n');
    proof {
        lemma_split_len(v@.take(i as int), '\n');
        assert(v@.take(i as int) =~= content@);
        assert(sp =~= sp.drop_last().push(sp.last()));
    }
    let e = parse_line(&v, start, i);
    let ghost before = out@;
    match e {
        Some(p) => {
            out.push(p);
            assert(lexicon_view(out@) =~= lexicon_view(before).push((p.0@, p.1@)));
        },
        None => {},
    }
    out
}

} // verus!

verus! {

/// Characters that belong to a word: Unicode alphanumerics and `'` (in
/// ASCII: letters, digits and `'`).
pub open spec fn word_char(c: char) -> bool {
    if (c as u32) < 0x80 {
        is_ascii_alnum(c) || c == '\''
    } else {
        alphanumeric(c)
    }
}

/// The respelling of the first entry whose word is `key`.
pub open spec fn respelling_from(lex: Seq<(Seq<char>, Seq<char>)>, key: Seq<char>, k: int) -> Option<
    Seq<char>,
>
    decreases lex.len() - k,
{
    if k < 0 || k >= lex.len() {
        None
    } else if lex[k].0 == key {
        Some(lex[k].1)
    } else {
        respelling_from(lex, key, k + 1)
    }
}

/// A word as spoken: its respelling when the lexicon has its lowercase
/// form, else the word itself.
pub open spec fn substitute(lex: Seq<(Seq<char>, Seq<char>)>, word: Seq<char>) -> Seq<char> {
    match respelling_from(lex, lowercase_of(word), 0) {
        Some(r) => r,
        None => word,
    }
}

/// After reading `s`: the output so far and the word being collected.
/// A non-word character ends the word (which is written substituted) and
/// is copied itself, except NUL, which marks the end of input.
pub open spec fn lex_state(lex: Seq<(Seq<char>, Seq<char>)>, s: Seq<char>) -> (Seq<char>, Seq<char>)
    decreases s.len(),
{
    if s.len() == 0 {
        (Seq::empty(), Seq::empty())
    } else {
        let (out, word) = lex_state(lex, s.drop_last());
        let c = s.last();
        if word_char(c) {
            (out, word.push(c))
        } else {
            let o1 = if word.len() > 0 {
                out + substitute(lex, word)
            } else {
                out
            };
            (if c != '\0' {
                o1.push(c)
            } else {
                o1
            }, Seq::empty())
        }
    }
}

/// `text` with every lexicon word replaced by its respelling. With an
/// empty lexicon the text is returned unchanged.
pub open spec fn apply_lexicon_of(text: Seq<char>, lex: Seq<(Seq<char>, Seq<char>)>) -> Seq<char> {
    if lex.len() == 0 {
        text
    } else {
        lex_state(lex, text.push('\0')).0
    }
}

fn lookup(lex: &Vec<(String, String)>, key: &str) -> (r: Option<usize>)
    ensures
        match respelling_from(lexicon_view(lex@), key@, 0) {
            Some(s) => r matches Some(k) && k < lex.len() && lex@[k as int].1@ == s,
            None => r is None,
        },
{
    let ghost lv = lexicon_view(lex@);
    let mut k: usize = 0;
    while k < lex.len()
        invariant
            lv == lexicon_view(lex@),
            k <= lex.len(),
            respelling_from(lv, key@, 0) == respelling_from(lv, key@, k as int),
        decreases lex.len() - k,
    {
        if str_eq(lex[k].0.as_str(), key) {
            assert(lv[k as int] == (lex@[k as int].0@, lex@[k as int].1@));
            return Some(k);
        }
        assert(lv[k as int] == (lex@[k as int].0@, lex@[k as int].1@));
        k += 1;
    }
    None
}

/// A word as spoken, given its lowercase form `lowered`: the respelling
/// the lexicon has for `lowered`, else the word as written.
pub fn respell_word(word: &str, lowered: &str, lex: &Vec<(String, String)>) -> (r: String)
    ensures
        r@ == (match respelling_from(lexicon_view(lex@), lowered@, 0) {
            Some(x) => x,
            None => word@,
        }),
{
    match lookup(lex, lowered) {
        Some(k) => lex[k].1.clone(),
        None => crate::text::owned(word),
    }
}

/// Replace whole words found in the lexicon (case-insensitively) by their
/// respellings.
pub fn apply_lexicon(text: &str, lex: &Vec<(String, String)>) -> (r: String)
    ensures
        r@ == apply_lexicon_of(text@, lexicon_view(lex@)),
{
    if lex.len() == 0 {
        return crate::text::owned(text);
    }
    let ghost lv = lexicon_view(lex@);
    let mut v = chars_of(text);
    v.push('\0');
    let ghost s = text@.push('\0');
    assert(v@ == s);
    let mut out = String::new();
    let mut word_start: usize = 0;
    let mut i: usize = 0;
    proof {
        assert(v@.take(0) =~= Seq::<char>::empty());
        assert(v@.subrange(0, 0) =~= Seq::<char>::empty());
    }
    while i < v.len()
        invariant
            v@ == s,
            lv == lexicon_view(lex@),
            word_start <= i <= v.len(),
            lex_state(lv, v@.take(i as int)) == (out@, v@.subrange(word_start as int, i as int)),
        decreases v.len() - i,
    {
        let c = v[i];
        let ghost word = v@.subrange(word_start as int, i as int);
        proof {
            assert(v@.take(i + 1).drop_last() =~= v@.take(i as int));
            assert(v@.take(i + 1).last() == c);
        }
        if char_is_alphanumeric(c) || c == '\'' {
            i += 1;
            assert(word.push(c) =~= v@.subrange(word_start as int, i as int));
        } else {
            if word_start < i {
                let w = string_of_range(&v, word_start, i);
                let lower = to_lowercase(w.as_str());
                let spoken = respell_word(w.as_str(), lower.as_str(), lex);
                crate::text::push_str(&mut out, spoken.as_str());
            }
            if c != '\0' {
                out.push(c);
            }
            i += 1;
            word_start = i;
            assert(v@.subrange(word_start as int, i as int) =~= Seq::<char>::empty());
        }
    }
    assert(v@.take(v.len() as int) =~= s);
    out
}

/// A run of word characters (a whole word when it is maximal).
pub open spec fn word_run(g: Seq<char>) -> bool {
    g.len() > 0 && forall|i: int| 0 <= i < g.len() ==> word_char(#[trigger] g[i])
}

/// A piece of text: a run of word characters, or one other character.
pub open spec fn text_piece(g: Seq<char>) -> bool {
    word_run(g) || (g.len() == 1 && !word_char(g[0]))
}

/// How a piece is spoken: a word through the lexicon, a NUL not at all,
/// any other character as it is.
pub open spec fn spoken_piece(lex: Seq<(Seq<char>, Seq<char>)>, g: Seq<char>) -> Seq<char> {
    if word_run(g) {
        substitute(lex, g)
    } else if g.len() > 0 && g[0] == '\0' {
        Seq::empty()
    } else {
        g
    }
}

/// Pieces whose words are maximal: no two word runs side by side.
pub open spec fn whole_words(segs: Seq<Seq<char>>) -> bool {
    forall|k: int|
        0 <= k < segs.len() - 1 ==> !(word_run(#[trigger] segs[k]) && word_run(segs[k + 1]))
}

proof fn lemma_lex_state_pieces(lex: Seq<(Seq<char>, Seq<char>)>, s: Seq<char>) -> (segs: Seq<Seq<char>>)
    ensures
        segs.flatten() + lex_state(lex, s).1 == s,
        lex_state(lex, s).1.len() == 0 || word_run(lex_state(lex, s).1),
        forall|k: int| 0 <= k < segs.len() ==> text_piece(#[trigger] segs[k]),
        whole_words(segs),
        segs.len() > 0 ==> !word_run(segs.last()),
        lex_state(lex, s).0 == segs.map_values(|g: Seq<char>| spoken_piece(lex, g)).flatten(),
    decreases s.len(),
{
    if s.len() == 0 {
        let e = Seq::<Seq<char>>::empty();
        assert(e.map_values(|g: Seq<char>| spoken_piece(lex, g)) =~= e);
        assert(e.flatten() + Seq::<char>::empty() =~= s);
        e
    } else {
        let t = s.drop_last();
        let c = s.last();
        let p = lemma_lex_state_pieces(lex, t);
        let (out, word) = lex_state(lex, t);
        let f = |g: Seq<char>| spoken_piece(lex, g);
        assert(s =~= t.push(c));
        if word_char(c) {
            assert(word.push(c).last() == c);
            assert(word_run(word.push(c)));
            assert(p.flatten() + word.push(c) =~= (p.flatten() + word).push(c));
            p
        } else {
            let cs = seq![c];
            assert(text_piece(cs));
            assert(!word_run(cs));
            let q = if word.len() > 0 { p.push(word) } else { p };
            let segs = q.push(cs);
            p.lemma_flatten_push(word);
            q.lemma_flatten_push(cs);
            assert(p.map_values(f).push(f(word)) =~= p.push(word).map_values(f));
            p.map_values(f).lemma_flatten_push(f(word));
            assert(q.map_values(f).push(f(cs)) =~= segs.map_values(f));
            q.map_values(f).lemma_flatten_push(f(cs));
            assert(q.flatten() == p.flatten() + word) by {
                if word.len() == 0 {
                    assert(p.flatten() + word =~= p.flatten());
                }
            }
            assert(q.map_values(f).flatten() == out + (if word.len() > 0 {
                substitute(lex, word)
            } else {
                Seq::empty()
            })) by {
                if word.len() == 0 {
                    assert(out + Seq::<char>::empty() =~= out);
                }
            }
            assert(f(cs) == (if c != '\0' { cs } else { Seq::<char>::empty() }));
            assert(lex_state(lex, s).0 =~= segs.map_values(f).flatten());
            assert(segs.flatten() + lex_state(lex, s).1 =~= s);
            assert forall|k: int| 0 <= k < segs.len() implies text_piece(#[trigger] segs[k]) by {
                if k < p.len() {
                    assert(segs[k] == p[k]);
                }
            }
            assert forall|k: int| 0 <= k < segs.len() - 1 implies !(word_run(#[trigger] segs[k])
                && word_run(segs[k + 1])) by {
                if k + 1 < p.len() {
                    assert(segs[k] == p[k] && segs[k + 1] == p[k + 1]);
                } else if k + 1 == p.len() {
                    assert(segs[k] == p[k]);
                    assert(p[k] == p.last());
                }
            }
            segs
        }
    }
}

/// Whole-word replacement: the text splits into pieces, each a maximal
/// run of word characters (alphanumerics and `'`) or one other character,
/// and with a non-empty lexicon the result is the pieces in order, each
/// word replaced by the respelling of its lowercase form when the lexicon
/// has one, every other character copied as it is (a NUL dropped).
pub proof fn lemma_lexicon_whole_words(text: Seq<char>, lex: Seq<(Seq<char>, Seq<char>)>) -> (segs: Seq<Seq<char>>)
    requires
        lex.len() > 0,
    ensures
        segs.flatten() == text,
        forall|k: int| 0 <= k < segs.len() ==> text_piece(#[trigger] segs[k]),
        whole_words(segs),
        apply_lexicon_of(text, lex) == segs.map_values(|g: Seq<char>| spoken_piece(lex, g)).flatten(),
{
    let s = text.push('\0');
    let p = lemma_lex_state_pieces(lex, text);
    let (out, word) = lex_state(lex, text);
    let f = |g: Seq<char>| spoken_piece(lex, g);
    assert(s.drop_last() =~= text);
    if word.len() > 0 {
        let segs = p.push(word);
        p.lemma_flatten_push(word);
        assert(p.map_values(f).push(f(word)) =~= segs.map_values(f));
        p.map_values(f).lemma_flatten_push(f(word));
        assert(apply_lexicon_of(text, lex) =~= segs.map_values(f).flatten());
        assert forall|k: int| 0 <= k < segs.len() implies text_piece(#[trigger] segs[k]) by {
            if k < p.len() {
                assert(segs[k] == p[k]);
            }
        }
        assert forall|k: int| 0 <= k < segs.len() - 1 implies !(word_run(#[trigger] segs[k])
            && word_run(segs[k + 1])) by {
            if k + 1 < p.len() {
                assert(segs[k] == p[k] && segs[k + 1] == p[k + 1]);
            } else {
                assert(segs[k] == p.last());
            }
        }
        segs
    } else {
        assert(p.flatten() + word =~= p.flatten());
        assert(out + Seq::<char>::empty() =~= out);
        p
    }
}

/// A character that words are made of: an ASCII letter or digit, an
/// apostrophe, or a Unicode alphanumeric beyond ASCII.
pub open spec fn in_word(c: char) -> bool {
    is_ascii_alnum(c) || c == '\'' || ((c as u32) >= 0x80 && alphanumeric(c))
}

/// A character that separates words and is spoken as it is: ASCII, but
/// neither a letter, a digit, an apostrophe nor NUL.
pub open spec fn separator(c: char) -> bool {
    (c as u32) < 0x80 && !is_ascii_alnum(c) && c != '\'' && c != '\0'
}

proof fn lemma_lex_state_word(lex: Seq<(Seq<char>, Seq<char>)>, s: Seq<char>)
    requires
        forall|i: int| 0 <= i < s.len() ==> in_word(#[trigger] s[i]),
    ensures
        lex_state(lex, s) == (Seq::<char>::empty(), s),
    decreases s.len(),
{
    if s.len() > 0 {
        let t = s.drop_last();
        assert(forall|i: int| 0 <= i < t.len() ==> #[trigger] t[i] == s[i]);
        lemma_lex_state_word(lex, t);
        assert(in_word(s[s.len() - 1]));
        assert(t.push(s.last()) =~= s);
    }
}

proof fn lemma_lex_state_concat(lex: Seq<(Seq<char>, Seq<char>)>, p: Seq<char>, q: Seq<char>)
    requires
        lex_state(lex, p).1.len() == 0,
    ensures
        lex_state(lex, p + q) == (lex_state(lex, p).0 + lex_state(lex, q).0, lex_state(lex, q).1),
    decreases q.len(),
{
    if q.len() == 0 {
        assert(p + q =~= p);
        assert(lex_state(lex, p).1 =~= Seq::<char>::empty());
        assert(lex_state(lex, p).0 + Seq::<char>::empty() =~= lex_state(lex, p).0);
    } else {
        let q0 = q.drop_last();
        lemma_lex_state_concat(lex, p, q0);
        assert((p + q).drop_last() =~= p + q0);
        assert((p + q).last() == q.last());
        let op = lex_state(lex, p).0;
        let (oq, w) = lex_state(lex, q0);
        let c = q.last();
        if !word_char(c) {
            if w.len() > 0 {
                assert(op + oq + substitute(lex, w) =~= op + (oq + substitute(lex, w)));
                assert((op + oq + substitute(lex, w)).push(c) =~= op + (oq + substitute(lex, w)).push(c));
            } else {
                assert((op + oq).push(c) =~= op + oq.push(c));
            }
        }
    }
}

/// A whole word is spoken through the lexicon as one: a text made only of
/// word characters (letters and digits together, as in "mp3") becomes the
/// respelling of its lowercase form, if the lexicon has one, else stays.
pub proof fn lemma_word_respelled_whole(text: Seq<char>, lex: Seq<(Seq<char>, Seq<char>)>)
    requires
        lex.len() > 0,
        text.len() > 0,
        forall|i: int| 0 <= i < text.len() ==> in_word(#[trigger] text[i]),
    ensures
        apply_lexicon_of(text, lex) == substitute(lex, text),
{
    lemma_lex_state_word(lex, text);
    let s = text.push('\0');
    assert(s.drop_last() =~= text);
    assert(Seq::<char>::empty() + substitute(lex, text) =~= substitute(lex, text));
}

/// Words on either side of a separator are replaced independently: the
/// text around an ASCII separator is the two sides, each with its fixes,
/// and the separator itself.
pub proof fn lemma_separator_splits(
    a: Seq<char>,
    c: char,
    b: Seq<char>,
    lex: Seq<(Seq<char>, Seq<char>)>,
)
    requires
        lex.len() > 0,
        separator(c),
    ensures
        apply_lexicon_of(a.push(c) + b, lex) == apply_lexicon_of(a, lex).push(c) + apply_lexicon_of(b, lex),
{
    let ac = a.push(c);
    assert(ac.drop_last() =~= a);
    assert(!word_char(c));
    assert(!word_char('\0'));
    lemma_lex_state_concat(lex, ac, b.push('\0'));
    assert((ac + b).push('\0') =~= ac + b.push('\0'));
    let an = a.push('\0');
    assert(an.drop_last() =~= a);
}

proof fn lemma_respelling_skip(lex: Seq<(Seq<char>, Seq<char>)>, key: Seq<char>, k: int, j: int)
    requires
        0 <= k <= j <= lex.len(),
        forall|i: int| k <= i < j ==> #[trigger] lex[i].0 != key,
    ensures
        respelling_from(lex, key, k) == respelling_from(lex, key, j),
    decreases j - k,
{
    if k < j {
        lemma_respelling_skip(lex, key, k + 1, j);
    }
}

/// The first lexicon entry for a word's lowercase form gives its
/// respelling; a word no entry is for is kept as written.
pub proof fn lemma_first_entry_wins(lex: Seq<(Seq<char>, Seq<char>)>, word: Seq<char>, j: int)
    requires
        0 <= j <= lex.len(),
        forall|i: int| 0 <= i < j ==> #[trigger] lex[i].0 != lowercase_of(word),
    ensures
        j < lex.len() && lex[j].0 == lowercase_of(word) ==> substitute(lex, word) == lex[j].1,
        j == lex.len() ==> substitute(lex, word) == word,
{
    lemma_respelling_skip(lex, lowercase_of(word), 0, j);
}

/// With an empty lexicon the text is spoken as written.
pub proof fn lemma_empty_lexicon_is_identity(text: Seq<char>)
    ensures
        apply_lexicon_of(text, Seq::empty()) == text,
{
}

} // verus!
